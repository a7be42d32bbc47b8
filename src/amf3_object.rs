use vstd::prelude::*;

use crate::object_type::properties_view;

verus! {

/// An AMF3 object as the decoder assembles it.
pub struct AmfObject {
    pub property_count: usize,
    pub encoding: i32,
    pub externalisable: bool,
    pub dynamic: bool,
    pub object_type: String,
    pub properties: Vec<(String, Option<isize>)>,
}

/// What an `AmfObject` holds.
pub ghost struct AmfObjectModel {
    pub property_count: usize,
    pub encoding: i32,
    pub externalisable: bool,
    pub dynamic: bool,
    pub object_type: Seq<char>,
    pub properties: Seq<(Seq<char>, Option<isize>)>,
}

impl View for AmfObject {
    type V = AmfObjectModel;

    open spec fn view(&self) -> AmfObjectModel {
        AmfObjectModel {
            property_count: self.property_count,
            encoding: self.encoding,
            externalisable: self.externalisable,
            dynamic: self.dynamic,
            object_type: self.object_type@,
            properties: properties_view(self.properties@),
        }
    }
}

impl AmfObject {
    /// Builds an object; its property count is the number of properties given.
    pub fn new(
        encoding: i32,
        externalisable: bool,
        dynamic: bool,
        object_type: String,
        properties: Vec<(String, Option<isize>)>,
    ) -> (r: Self)
        ensures
            r@ == (AmfObjectModel {
                property_count: properties@.len() as usize,
                encoding,
                externalisable,
                dynamic,
                object_type: object_type@,
                properties: properties_view(properties@),
            }),
    {
        let property_count = properties.len();
        Self { property_count, encoding, externalisable, dynamic, object_type, properties }
    }
}

} // verus!
