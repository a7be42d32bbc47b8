use amf_viewer::{AmfObject, GenericProperties, ObjectProperties, ObjectType};

#[test]
fn amf_object_counts_its_properties() {
    let o = AmfObject::new(2, false, true, String::from("C"), vec![(String::from("a"), Some(1)), (String::from("b"), None)]);
    assert_eq!(o.property_count, 2);
    assert_eq!(o.encoding, 2);
    assert!(o.dynamic);
    assert!(!o.externalisable);
    assert_eq!(o.object_type, "C");
}

#[test]
fn generic_properties_new() {
    let g = GenericProperties::new(true, 9);
    assert!(g.is_reference);
    assert_eq!(g.identifier, 9);
}

#[test]
fn object_properties_new() {
    let p = ObjectProperties::new(false, 3, 1, true, false, String::from("T"));
    assert!(!p.is_reference);
    assert_eq!(p.property_count, 3);
    assert_eq!(p.encoding, 1);
    assert!(p.externalisable);
    assert!(!p.dynamic);
    assert_eq!(p.object_type, "T");
}

#[test]
fn kind_names() {
    assert_eq!(ObjectType::Amf0Switch.kind_name(), "Switch to AMF3");
    assert_eq!(ObjectType::Amf3Integer(4).kind_name(), "Amf3 Integer");
    assert_eq!(ObjectType::Amf0Number(0).kind_name(), "Amf0 Number");
}
