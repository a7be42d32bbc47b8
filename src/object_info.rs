use vstd::prelude::*;

use crate::object_properties::{PropertiesModel, TypeProperties};
use crate::object_type::{ObjectType, TypeModel};

verus! {

/// One entry of the value graph: a value's id, kind and metadata.
#[derive(Clone, Debug)]
pub struct ObjectInfo {
    pub object_id: isize,
    pub object_type: ObjectType,
    pub object_properties: TypeProperties,
}

/// What an `ObjectInfo` holds.
pub ghost struct InfoModel {
    pub id: isize,
    pub kind: TypeModel,
    pub props: PropertiesModel,
}

impl View for ObjectInfo {
    type V = InfoModel;

    open spec fn view(&self) -> InfoModel {
        InfoModel { id: self.object_id, kind: self.object_type@, props: self.object_properties@ }
    }
}

} // verus!
