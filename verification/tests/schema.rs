use lib::omci::schema::{managed_entities, managed_entity, AttributeKind, CLASS_ONU_DATA, CLASS_VENDOR_351};

#[test]
fn managed_entities_are_sorted_and_unique() {
    let definitions = managed_entities();
    for pair in definitions.windows(2) {
        assert!(pair[0].class_id < pair[1].class_id);
    }
}

#[test]
fn attribute_definitions_are_wire_safe() {
    for definition in managed_entities() {
        let mut previous = 0;
        for attribute in definition.attributes {
            assert!((1..=16).contains(&attribute.index));
            assert!(attribute.index > previous);
            previous = attribute.index;
            match attribute.kind {
                AttributeKind::Scalar { length } => {
                    assert!(length > 0);
                    assert!(attribute.default.is_empty() || attribute.default.len() == length);
                }
                AttributeKind::Table { row_length } => {
                    assert!(row_length > 0);
                    assert!(attribute.default.is_empty());
                }
            }
        }
    }
}

#[test]
fn lookup_finds_registered_classes_only() {
    assert_eq!(managed_entity(CLASS_ONU_DATA).unwrap().class_id, CLASS_ONU_DATA);
    assert_eq!(managed_entity(CLASS_VENDOR_351).unwrap().class_id, CLASS_VENDOR_351);
    assert!(managed_entity(3).is_none());
    assert!(managed_entity(0xffff).is_none());
}
