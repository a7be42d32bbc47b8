use vstd::prelude::*;

verus! {

/// The kind and payload of a decoded value.
///
/// Numbers are held as the bit pattern of the IEEE-754 double that the input
/// encodes; composite values hold the ids of their children.
#[derive(Clone, Debug)]
pub enum ObjectType {
    Amf0Number(u64),
    Amf0Bool(bool),
    Amf0String(String),
    Amf0Object,
    Amf0Null,
    Amf0Undefined,
    Amf0TypedObject,
    Amf0Switch,
    Amf3Undefined,
    Amf3Null,
    Amf3False,
    Amf3True,
    Amf3Integer(i32),
    Amf3Double(u64),
    Amf3String(String),
    Amf3Array(Vec<isize>),
    /// Property names, each once, with the ids of their values, in the order
    /// first read.
    Amf3Object(Vec<(String, Option<isize>)>),
}

/// What an `ObjectType` holds, with text as characters.
pub ghost enum TypeModel {
    Amf0Number(u64),
    Amf0Bool(bool),
    Amf0String(Seq<char>),
    Amf0Object,
    Amf0Null,
    Amf0Undefined,
    Amf0TypedObject,
    Amf0Switch,
    Amf3Undefined,
    Amf3Null,
    Amf3False,
    Amf3True,
    Amf3Integer(i32),
    Amf3Double(u64),
    Amf3String(Seq<char>),
    Amf3Array(Seq<isize>),
    Amf3Object(Seq<(Seq<char>, Option<isize>)>),
}

/// The model of a list of named properties.
pub open spec fn properties_view(p: Seq<(String, Option<isize>)>) -> Seq<(Seq<char>, Option<isize>)> {
    p.map_values(|e: (String, Option<isize>)| (e.0@, e.1))
}

pub proof fn lemma_properties_view_push(p: Seq<(String, Option<isize>)>, e: (String, Option<isize>))
    ensures
        properties_view(p.push(e)) == properties_view(p).push((e.0@, e.1)),
{
    assert(properties_view(p.push(e)) =~= properties_view(p).push((e.0@, e.1)));
}

impl View for ObjectType {
    type V = TypeModel;

    open spec fn view(&self) -> TypeModel {
        match self {
            ObjectType::Amf0Number(n) => TypeModel::Amf0Number(*n),
            ObjectType::Amf0Bool(b) => TypeModel::Amf0Bool(*b),
            ObjectType::Amf0String(s) => TypeModel::Amf0String(s@),
            ObjectType::Amf0Object => TypeModel::Amf0Object,
            ObjectType::Amf0Null => TypeModel::Amf0Null,
            ObjectType::Amf0Undefined => TypeModel::Amf0Undefined,
            ObjectType::Amf0TypedObject => TypeModel::Amf0TypedObject,
            ObjectType::Amf0Switch => TypeModel::Amf0Switch,
            ObjectType::Amf3Undefined => TypeModel::Amf3Undefined,
            ObjectType::Amf3Null => TypeModel::Amf3Null,
            ObjectType::Amf3False => TypeModel::Amf3False,
            ObjectType::Amf3True => TypeModel::Amf3True,
            ObjectType::Amf3Integer(i) => TypeModel::Amf3Integer(*i),
            ObjectType::Amf3Double(n) => TypeModel::Amf3Double(*n),
            ObjectType::Amf3String(s) => TypeModel::Amf3String(s@),
            ObjectType::Amf3Array(v) => TypeModel::Amf3Array(v@),
            ObjectType::Amf3Object(p) => TypeModel::Amf3Object(properties_view(p@)),
        }
    }
}


/// The display name of a kind of value.
pub open spec fn type_label(k: TypeModel) -> Seq<char> {
    match k {
        TypeModel::Amf0Number(_) => "Amf0 Number"@,
        TypeModel::Amf0Bool(_) => "Amf0 Bool"@,
        TypeModel::Amf0String(_) => "Amf0 String"@,
        TypeModel::Amf0Object => "Amf0 Object"@,
        TypeModel::Amf0Null => "Amf0 Null"@,
        TypeModel::Amf0Undefined => "Amf0 Undefined"@,
        TypeModel::Amf0TypedObject => "Amf0 Typed Object"@,
        TypeModel::Amf0Switch => "Switch to AMF3"@,
        TypeModel::Amf3Undefined => "Amf3 Undefined"@,
        TypeModel::Amf3Null => "Amf3 Null"@,
        TypeModel::Amf3False => "Amf3 False"@,
        TypeModel::Amf3True => "Amf3 True"@,
        TypeModel::Amf3Integer(_) => "Amf3 Integer"@,
        TypeModel::Amf3Double(_) => "Amf3 Double"@,
        TypeModel::Amf3String(_) => "Amf3 String"@,
        TypeModel::Amf3Array(_) => "Amf3 Array"@,
        TypeModel::Amf3Object(_) => "Amf3 Object"@,
    }
}

impl ObjectType {
    /// The display name of this kind of value.
    pub fn kind_name(&self) -> (r: &'static str)
        ensures
            r@ == type_label(self@),
    {
        match self {
            ObjectType::Amf0Number(_) => "Amf0 Number",
            ObjectType::Amf0Bool(_) => "Amf0 Bool",
            ObjectType::Amf0String(_) => "Amf0 String",
            ObjectType::Amf0Object => "Amf0 Object",
            ObjectType::Amf0Null => "Amf0 Null",
            ObjectType::Amf0Undefined => "Amf0 Undefined",
            ObjectType::Amf0TypedObject => "Amf0 Typed Object",
            ObjectType::Amf0Switch => "Switch to AMF3",
            ObjectType::Amf3Undefined => "Amf3 Undefined",
            ObjectType::Amf3Null => "Amf3 Null",
            ObjectType::Amf3False => "Amf3 False",
            ObjectType::Amf3True => "Amf3 True",
            ObjectType::Amf3Integer(_) => "Amf3 Integer",
            ObjectType::Amf3Double(_) => "Amf3 Double",
            ObjectType::Amf3String(_) => "Amf3 String",
            ObjectType::Amf3Array(_) => "Amf3 Array",
            ObjectType::Amf3Object(_) => "Amf3 Object",
        }
    }
}

} // verus!
