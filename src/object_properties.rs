use vstd::prelude::*;

verus! {

/// Reference or length information of an AMF3 string or array.
#[derive(Clone, Copy, Debug, PartialEq, Eq, Structural)]
pub struct GenericProperties {
    pub is_reference: bool,
    /// The table index when a reference, the length when inline.
    pub identifier: i32,
}

impl GenericProperties {
    pub fn new(is_reference: bool, identifier: i32) -> (r: Self)
        ensures
            r.is_reference == is_reference,
            r.identifier == identifier,
    {
        Self { is_reference, identifier }
    }
}

/// Trait information of an AMF3 object.
#[derive(Clone, Debug)]
pub struct ObjectProperties {
    pub is_reference: bool,
    pub property_count: usize,
    pub encoding: usize,
    pub externalisable: bool,
    pub dynamic: bool,
    pub object_type: String,
}

/// What an `ObjectProperties` holds, with its class name as characters.
pub ghost struct ObjectPropertiesModel {
    pub is_reference: bool,
    pub property_count: usize,
    pub encoding: usize,
    pub externalisable: bool,
    pub dynamic: bool,
    pub object_type: Seq<char>,
}

impl View for ObjectProperties {
    type V = ObjectPropertiesModel;

    open spec fn view(&self) -> ObjectPropertiesModel {
        ObjectPropertiesModel {
            is_reference: self.is_reference,
            property_count: self.property_count,
            encoding: self.encoding,
            externalisable: self.externalisable,
            dynamic: self.dynamic,
            object_type: self.object_type@,
        }
    }
}

impl ObjectProperties {
    pub fn new(
        is_reference: bool,
        property_count: usize,
        encoding: usize,
        externalisable: bool,
        dynamic: bool,
        object_type: String,
    ) -> (r: Self)
        ensures
            r@ == (ObjectPropertiesModel {
                is_reference,
                property_count,
                encoding,
                externalisable,
                dynamic,
                object_type: object_type@,
            }),
    {
        Self { is_reference, property_count, encoding, externalisable, dynamic, object_type }
    }
}

/// Format-specific metadata of a decoded value, kept for inspection.
#[derive(Clone, Debug)]
pub enum TypeProperties {
    Amf0StringProperties,
    Amf0ObjectProperties,
    Amf0TypedObjectProperties,
    Amf3StringProperties(GenericProperties),
    Amf3ArrayProperties(GenericProperties),
    Amf3ObjectProperties(ObjectProperties),
    AmfNoProperties,
}

/// What a `TypeProperties` holds.
pub ghost enum PropertiesModel {
    Amf0StringProperties,
    Amf0ObjectProperties,
    Amf0TypedObjectProperties,
    Amf3StringProperties(GenericProperties),
    Amf3ArrayProperties(GenericProperties),
    Amf3ObjectProperties(ObjectPropertiesModel),
    AmfNoProperties,
}

impl View for TypeProperties {
    type V = PropertiesModel;

    open spec fn view(&self) -> PropertiesModel {
        match self {
            TypeProperties::Amf0StringProperties => PropertiesModel::Amf0StringProperties,
            TypeProperties::Amf0ObjectProperties => PropertiesModel::Amf0ObjectProperties,
            TypeProperties::Amf0TypedObjectProperties => PropertiesModel::Amf0TypedObjectProperties,
            TypeProperties::Amf3StringProperties(g) => PropertiesModel::Amf3StringProperties(*g),
            TypeProperties::Amf3ArrayProperties(g) => PropertiesModel::Amf3ArrayProperties(*g),
            TypeProperties::Amf3ObjectProperties(o) => PropertiesModel::Amf3ObjectProperties(o@),
            TypeProperties::AmfNoProperties => PropertiesModel::AmfNoProperties,
        }
    }
}

} // verus!
