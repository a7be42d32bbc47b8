use amf_viewer::{AMFReader, ObjectType, SyntaxByte, SyntaxClass, TypeProperties};

fn kind_of(r: &AMFReader, id: isize) -> ObjectType {
    r.get_object(id).expect("entry").object_type.clone()
}

#[test]
fn amf0_number_decodes_big_endian_double() {
    let buf = vec![0x00, 0x40, 0x09, 0x21, 0xFB, 0x54, 0x44, 0x2D, 0x18];
    let r = AMFReader::decode(&buf, false);
    match kind_of(&r, 0) {
        ObjectType::Amf0Number(bits) => {
            assert_eq!(bits, 0x4009_21FB_5444_2D18);
            assert_eq!(f64::from_bits(bits), std::f64::consts::PI);
        }
        other => panic!("unexpected {:?}", other),
    }
    assert_eq!(r.out().len(), 9);
    assert!(r.out().iter().all(|b| b.object_id == 0));
    assert_eq!(r.out()[0].color, SyntaxClass::Amf0NumberMarker);
    assert!(r.out()[1..].iter().all(|b| b.color == SyntaxClass::Amf0Number));
    assert!(!r.is_error());
    assert_eq!(r.object_count(), 1);
}

#[test]
fn u29_one_byte() {
    let mut r = AMFReader::new(&vec![0x7F], false);
    assert_eq!(r.read_amf3_string_length(None), 127);
    assert_eq!(r.read_head(), 1);
}

#[test]
fn u29_two_bytes() {
    let mut r = AMFReader::new(&vec![0x81, 0x00], false);
    assert_eq!(r.read_amf3_string_length(None), 128);
    let mut r = AMFReader::new(&vec![0x81, 0x7F], false);
    assert_eq!(r.read_amf3_string_length(None), 255);
    let mut r = AMFReader::new(&vec![0x82, 0x7F], false);
    assert_eq!(r.read_amf3_string_length(None), 383);
}

#[test]
fn u29_four_bytes_uses_all_bits_of_last() {
    let mut r = AMFReader::new(&vec![0xFF, 0xFF, 0xFF, 0xFF], false);
    assert_eq!(r.read_amf3_string_length(None), 0x1FFF_FFFF);
    assert_eq!(r.out().len(), 4);
}

#[test]
fn u29_truncated_fails() {
    let mut r = AMFReader::new(&vec![0x81], false);
    assert_eq!(r.read_amf3_string_length(None), -1);
    assert!(r.is_error());
    assert_eq!(r.out().len(), 1);
}

#[test]
fn amf3_integer_is_signed_29_bit() {
    let mut r = AMFReader::new(&vec![0xFF, 0xFF, 0xFF, 0xFF], false);
    assert_eq!(r.read_amf3_integer(None), -1);
    let mut r = AMFReader::new(&vec![0xC0, 0x80, 0x80, 0x00], false);
    assert_eq!(r.read_amf3_integer(None), -(1 << 28));
    let r = AMFReader::decode(&vec![0x01, 0x04, 0x05], true);
    assert!(matches!(kind_of(&r, 0), ObjectType::Amf3Integer(5)));
}

#[test]
fn amf3_string_interning() {
    let buf = vec![0x01, 0x06, 0x07, b'a', b'b', b'c', 0x06, 0x00];
    let r = AMFReader::decode(&buf, true);
    assert_eq!(r.strings().len(), 1);
    assert_eq!(r.strings()[0], "abc");
    match (kind_of(&r, 0), kind_of(&r, 1)) {
        (ObjectType::Amf3String(a), ObjectType::Amf3String(b)) => {
            assert_eq!(a, "abc");
            assert_eq!(b, "abc");
        }
        other => panic!("unexpected {:?}", other),
    }
    match &r.get_object(1).unwrap().object_properties {
        TypeProperties::Amf3StringProperties(p) => {
            assert!(p.is_reference);
            assert_eq!(p.identifier, 0);
        }
        other => panic!("unexpected {:?}", other),
    }
    assert!(!r.is_error());
}

#[test]
fn amf3_empty_string_is_not_interned() {
    let r = AMFReader::decode(&vec![0x01, 0x06, 0x01], true);
    assert_eq!(r.strings().len(), 0);
    assert!(matches!(kind_of(&r, 0), ObjectType::Amf3String(s) if s.is_empty()));
}

#[test]
fn amf3_missing_reference_gives_placeholder() {
    let r = AMFReader::decode(&vec![0x01, 0x06, 0x02], true);
    assert!(matches!(kind_of(&r, 0), ObjectType::Amf3String(s) if s == "String Not Found"));
    assert!(!r.is_error());
}

#[test]
fn amf3_invalid_utf8_is_shown_as_bytes() {
    let r = AMFReader::decode(&vec![0x01, 0x06, 0x05, 0xFF, 0xFE], true);
    assert!(matches!(kind_of(&r, 0), ObjectType::Amf3String(s) if s == "[255, 254]"));
}

#[test]
fn amf0_object_with_one_member() {
    let mut buf = vec![0x03, 0x00, 0x01, b'a', 0x00];
    buf.extend_from_slice(&1.5f64.to_bits().to_be_bytes());
    buf.extend_from_slice(&[0x00, 0x00, 0x09]);
    let mut r = AMFReader::new(&buf, false);
    let before = r.current_layer();
    let id = r.read_amf0();
    assert_eq!(id, 0);
    assert_eq!(r.current_layer(), before);
    assert!(matches!(kind_of(&r, 0), ObjectType::Amf0Object));
    assert!(matches!(kind_of(&r, 1), ObjectType::Amf0String(s) if s == "a"));
    assert!(matches!(kind_of(&r, 2), ObjectType::Amf0Number(b) if f64::from_bits(b) == 1.5));
    assert!(matches!(kind_of(&r, 3), ObjectType::Amf0String(s) if s.is_empty()));
    assert_eq!(r.object_count(), 4);
    assert_eq!(r.out().len(), buf.len());
    let last = r.out()[buf.len() - 1];
    assert_eq!(last, SyntaxByte { value: 0x09, object_id: 0, color: SyntaxClass::Amf0ObjectMarker });
    assert_eq!(r.out()[1].color, SyntaxClass::Amf0ObjectKey(1));
    assert!(!r.is_error());
}

#[test]
fn amf0_typed_object() {
    let buf = vec![0x10, 0x00, 0x01, b'C', 0x00, 0x00, 0x09];
    let r = AMFReader::decode(&buf, false);
    assert!(matches!(kind_of(&r, 0), ObjectType::Amf0TypedObject));
    assert!(matches!(kind_of(&r, 1), ObjectType::Amf0String(s) if s == "C"));
    assert_eq!(r.out()[1].color, SyntaxClass::Amf0TypedObjectName(1));
    assert_eq!(r.current_layer(), 1);
    assert!(!r.is_error());
}

#[test]
fn decoding_twice_gives_equal_results() {
    let buf = vec![0x03, 0x00, 0x01, b'k', 0x02, 0x00, 0x02, b'h', b'i', 0x00, 0x00, 0x09, 0x11, 0x06, 0x05, b'x', 0x06, 0x00];
    let a = AMFReader::decode(&buf, false);
    let b = AMFReader::decode(&buf, false);
    assert_eq!(a.out(), b.out());
    assert_eq!(a.object_count(), b.object_count());
    for id in -1..a.object_count() as isize {
        assert_eq!(format!("{:?}", a.get_object(id)), format!("{:?}", b.get_object(id)));
    }
}

#[test]
fn truncated_amf0_string_drains_as_errors() {
    let buf = vec![0x02, 0x00, 0x05, b'a', b'b'];
    let r = AMFReader::decode(&buf, false);
    assert!(r.is_error());
    assert_eq!(r.out().len(), 5);
    assert_eq!(r.out()[3], SyntaxByte { value: b'a', object_id: -1, color: SyntaxClass::Error });
    assert_eq!(r.out()[4], SyntaxByte { value: b'b', object_id: -1, color: SyntaxClass::Error });
    let e = r.get_object(-1).expect("error entry");
    assert_eq!(e.object_id, -1);
    assert!(matches!(e.object_type, ObjectType::Amf0Undefined));
    assert!(matches!(e.object_properties, TypeProperties::AmfNoProperties));
}

#[test]
fn encoding_switch_reads_the_rest_as_amf3() {
    let buf = vec![0x11, 0x04, 0x05, 0x03, 0x02];
    let r = AMFReader::decode(&buf, false);
    assert_eq!(r.encoding(), 3);
    assert!(matches!(kind_of(&r, 0), ObjectType::Amf0Switch));
    assert!(matches!(kind_of(&r, 1), ObjectType::Amf3Integer(5)));
    assert!(matches!(kind_of(&r, 2), ObjectType::Amf3True));
    assert!(matches!(kind_of(&r, 3), ObjectType::Amf3False));
}

#[test]
fn empty_buffer_gives_empty_output() {
    let r = AMFReader::decode(&vec![], false);
    assert_eq!(r.out().len(), 0);
    assert_eq!(r.object_count(), 0);
    assert!(!r.is_error());
    assert!(r.get_object(-1).is_none());
    let r = AMFReader::decode(&vec![], true);
    assert_eq!(r.object_count(), 0);
}

#[test]
fn command_selector_byte() {
    let r = AMFReader::decode(&vec![0x00, 0x05], true);
    assert_eq!(r.encoding(), 0);
    assert!(matches!(kind_of(&r, 0), ObjectType::Amf0Null));
    assert_eq!(r.out().len(), 1);
    let r = AMFReader::decode(&vec![0x03, 0x01], true);
    assert_eq!(r.encoding(), 3);
    assert!(matches!(kind_of(&r, 0), ObjectType::Amf3Null));
}

#[test]
fn amf0_booleans_null_undefined_and_unknown() {
    let r = AMFReader::decode(&vec![0x01, 0x00, 0x01, 0x02, 0x05, 0x06, 0x0C], false);
    assert!(matches!(kind_of(&r, 0), ObjectType::Amf0Bool(false)));
    assert!(matches!(kind_of(&r, 1), ObjectType::Amf0Bool(true)));
    assert!(matches!(kind_of(&r, 2), ObjectType::Amf0Null));
    assert!(matches!(kind_of(&r, 3), ObjectType::Amf0Undefined));
    assert!(matches!(kind_of(&r, 4), ObjectType::Amf0Undefined));
    assert_eq!(r.out()[1].color, SyntaxClass::Amf0BoolFalse);
    assert_eq!(r.out()[3].color, SyntaxClass::Amf0BoolTrue);
    assert_eq!(r.out()[6].color, SyntaxClass::Amf0Unknown);
    assert!(!r.is_error());
}

#[test]
fn amf0_invalid_utf8_fails_without_reading() {
    let r = AMFReader::decode(&vec![0x02, 0x00, 0x01, 0xFF], false);
    assert!(r.is_error());
    assert_eq!(r.out()[3], SyntaxByte { value: 0xFF, object_id: -1, color: SyntaxClass::Error });
}

#[test]
fn amf3_double() {
    let mut buf = vec![0x01, 0x05];
    buf.extend_from_slice(&(-2.25f64).to_bits().to_be_bytes());
    let r = AMFReader::decode(&buf, true);
    assert!(matches!(kind_of(&r, 0), ObjectType::Amf3Double(b) if f64::from_bits(b) == -2.25));
}

#[test]
fn amf3_dense_array() {
    let r = AMFReader::decode(&vec![0x01, 0x08, 0x05, 0x04, 0x01, 0x03], true);
    match kind_of(&r, 0) {
        ObjectType::Amf3Array(items) => assert_eq!(items, vec![1, 2]),
        other => panic!("unexpected {:?}", other),
    }
    match &r.get_object(0).unwrap().object_properties {
        TypeProperties::Amf3ArrayProperties(p) => assert_eq!(p.identifier, 2),
        other => panic!("unexpected {:?}", other),
    }
    assert!(matches!(kind_of(&r, 1), ObjectType::Amf3Integer(1)));
    assert!(matches!(kind_of(&r, 2), ObjectType::Amf3True));
}

#[test]
fn amf3_array_cut_short() {
    let r = AMFReader::decode(&vec![0x01, 0x08, 0x07, 0x02], true);
    assert!(r.is_error());
    match kind_of(&r, 0) {
        ObjectType::Amf3Array(items) => assert_eq!(items, vec![1, -1]),
        other => panic!("unexpected {:?}", other),
    }
}

#[test]
fn amf3_dynamic_object() {
    let r = AMFReader::decode(&vec![0x01, 0x0A, 0x0B, 0x01, 0x03, b'a', 0x04, 0x01, 0x01], true);
    match kind_of(&r, 0) {
        ObjectType::Amf3Object(p) => {
            assert_eq!(p.len(), 1);
            assert_eq!(p[0].0, "a");
            assert_eq!(p[0].1, Some(3));
        }
        other => panic!("unexpected {:?}", other),
    }
    match &r.get_object(0).unwrap().object_properties {
        TypeProperties::Amf3ObjectProperties(p) => {
            assert!(p.dynamic);
            assert!(!p.externalisable);
            assert!(!p.is_reference);
            assert_eq!(p.property_count, 0);
            assert_eq!(p.object_type, "");
        }
        other => panic!("unexpected {:?}", other),
    }
    assert_eq!(r.out().len(), 8);
    assert_eq!(r.out()[7], SyntaxByte { value: 0x01, object_id: 0, color: SyntaxClass::Amf3Object });
    assert!(!r.is_error());
}

#[test]
fn amf3_sealed_object() {
    let r = AMFReader::decode(&vec![0x01, 0x0A, 0x13, 0x03, b'C', 0x03, b'x', 0x02], true);
    match kind_of(&r, 0) {
        ObjectType::Amf3Object(p) => {
            assert_eq!(p.len(), 1);
            assert_eq!(p[0].0, "x");
            assert_eq!(p[0].1, Some(3));
        }
        other => panic!("unexpected {:?}", other),
    }
    match &r.get_object(0).unwrap().object_properties {
        TypeProperties::Amf3ObjectProperties(p) => {
            assert_eq!(p.property_count, 1);
            assert_eq!(p.object_type, "C");
            assert!(!p.dynamic);
        }
        other => panic!("unexpected {:?}", other),
    }
    assert!(matches!(kind_of(&r, 3), ObjectType::Amf3False));
}

#[test]
fn amf3_externalisable_object_reads_no_values() {
    let r = AMFReader::decode(&vec![0x01, 0x0A, 0x17, 0x01, 0x03, b'x'], true);
    match kind_of(&r, 0) {
        ObjectType::Amf3Object(p) => {
            assert_eq!(p.len(), 1);
            assert_eq!(p[0].1, None);
        }
        other => panic!("unexpected {:?}", other),
    }
}

#[test]
fn amf3_trait_reference_gives_bare_object() {
    let r = AMFReader::decode(&vec![0x01, 0x0A, 0x01], true);
    match &r.get_object(0).unwrap().object_properties {
        TypeProperties::Amf3ObjectProperties(p) => {
            assert!(p.is_reference);
            assert_eq!(p.property_count, 0);
        }
        other => panic!("unexpected {:?}", other),
    }
    assert!(matches!(kind_of(&r, 0), ObjectType::Amf3Object(p) if p.is_empty()));
}

#[test]
fn amf3_unknown_marker() {
    let r = AMFReader::decode(&vec![0x01, 0x0C, 0x01], true);
    assert!(matches!(kind_of(&r, 0), ObjectType::Amf3Undefined));
    assert_eq!(r.out()[0].color, SyntaxClass::Amf3Unknown);
    assert!(matches!(kind_of(&r, 1), ObjectType::Amf3Null));
}

#[test]
fn low_level_reads() {
    let mut r = AMFReader::new(&vec![1, 2, 3, 4, 5, 6], false);
    assert_eq!(r.read_byte(), Some(1));
    assert_eq!(r.read_bytes(2), Some(vec![2, 3]));
    assert_eq!(r.read_bytes(4), None);
    assert_eq!(r.out().len(), 0);
    let t = SyntaxByte { value: 0, object_id: 7, color: SyntaxClass::Amf3String };
    assert_eq!(r.push_bytes(t, 1), vec![4, 5]);
    assert!(!r.is_error());
    assert_eq!(r.out()[1], SyntaxByte { value: 5, object_id: 7, color: SyntaxClass::Amf3String });
    assert_eq!(r.push_bytes(t, 3), vec![6]);
    assert!(r.is_error());
    assert_eq!(r.out().len(), 3);
    assert_eq!(r.push_bytes(t, 0), Vec::<u8>::new());
    r.push_byte(t);
    assert_eq!(r.out().len(), 4);
    assert_eq!(r.read_byte(), None);
}

#[test]
fn push_bytes_reads_len_plus_one() {
    let mut r = AMFReader::new(&vec![9, 8, 7], false);
    let t = SyntaxByte { value: 0, object_id: 0, color: SyntaxClass::Amf0Number };
    assert_eq!(r.push_bytes(t, 2), vec![9, 8, 7]);
    assert!(!r.is_error());
    assert_eq!(r.read_head(), 3);
}

#[test]
fn given_next_id_is_reserved_before_children() {
    let mut r = AMFReader::new(&vec![0x05, 0x04, 0x01, 0x03], false);
    let p = r.object_count() as isize;
    let items = r.read_amf3_array(Some(p));
    assert_eq!(items, vec![1, 2]);
    assert!(items.iter().all(|&c| c > p));
    assert!(matches!(kind_of(&r, p), ObjectType::Amf3Array(v) if v == vec![1, 2]));
    assert!(matches!(kind_of(&r, 1), ObjectType::Amf3Integer(1)));
    assert!(matches!(kind_of(&r, 2), ObjectType::Amf3True));
}

#[test]
fn given_next_id_records_string_and_integer() {
    let mut r = AMFReader::new(&vec![0x07, b'a', b'b', b'c', 0x00, 0x2A], false);
    assert_eq!(r.read_amf3_string(Some(0)), "abc");
    assert!(matches!(kind_of(&r, 0), ObjectType::Amf3String(s) if s == "abc"));
    assert_eq!(r.read_amf3_string(Some(1)), "abc");
    assert!(matches!(kind_of(&r, 1), ObjectType::Amf3String(s) if s == "abc"));
    assert_eq!(r.read_amf3_integer(Some(2)), 42);
    assert!(matches!(kind_of(&r, 2), ObjectType::Amf3Integer(42)));
    assert_eq!(r.strings().len(), 1);
}

#[test]
fn repeated_dynamic_name_replaces_the_earlier_value() {
    let buf = vec![0x01, 0x0A, 0x0B, 0x01, 0x03, b'a', 0x04, 0x01, 0x03, b'a', 0x04, 0x02, 0x01];
    let r = AMFReader::decode(&buf, true);
    match kind_of(&r, 0) {
        ObjectType::Amf3Object(p) => {
            assert_eq!(p.len(), 1);
            assert_eq!(p[0].0, "a");
            assert_eq!(p[0].1, Some(5));
        }
        other => panic!("unexpected {:?}", other),
    }
    assert!(matches!(kind_of(&r, 5), ObjectType::Amf3Integer(2)));
    assert!(!r.is_error());
}

#[test]
fn amf3_utf8_reads_length_bytes() {
    let mut r = AMFReader::new(&vec![b'h', b'i', b'!'], false);
    assert_eq!(r.read_amf3_utf8(2, Some(4)), "hi");
    assert_eq!(r.out()[1], SyntaxByte { value: b'i', object_id: 4, color: SyntaxClass::Amf3String });
    assert_eq!(r.read_amf3_utf8(2, None), "");
    assert!(r.is_error());
}

#[test]
fn amf3_read_array_and_string_directly() {
    let mut r = AMFReader::new(&vec![0x03, 0x01, 0x05, b'x', b'y'], false);
    assert_eq!(r.read_amf3_array(None), vec![1]);
    assert_eq!(r.read_amf3_string(None), "xy");
    assert_eq!(r.object_count(), 3);
}
