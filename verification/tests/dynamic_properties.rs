//! Decoding, the registry, and the round trip through the text format.

use bevy_property::decode::DecodeError;
use bevy_property::decode::deserialize_dynamic_properties;
use bevy_property::property::DynamicProperties;
use bevy_property::property::PropertyField;
use bevy_property::property::PropertyKind;
use bevy_property::property::PropertyValue;
use bevy_property::type_registry::FieldDescriptor;
use bevy_property::type_registry::PropertyTypeRegistration;
use bevy_property::type_registry::PropertyTypeRegistry;
use bevy_property::type_registry::TypeDescriptor;
use bevy_property::writer::serialize_dynamic_properties;

fn field_descriptor(name: &[u8], kind: PropertyKind) -> FieldDescriptor {
    FieldDescriptor { name: name.to_vec(), kind }
}

fn position_descriptor() -> TypeDescriptor {
    TypeDescriptor {
        ty: 1,
        type_path: b"game::math::Position".to_vec(),
        fields: vec![
            field_descriptor(b"x", PropertyKind::UInt),
            field_descriptor(b"y", PropertyKind::UInt),
        ],
    }
}

fn label_descriptor() -> TypeDescriptor {
    TypeDescriptor {
        ty: 2,
        type_path: b"game::ui::Label".to_vec(),
        fields: vec![
            field_descriptor(b"text", PropertyKind::Str),
            field_descriptor(b"visible", PropertyKind::Bool),
        ],
    }
}

fn registry() -> PropertyTypeRegistry {
    let mut registry = PropertyTypeRegistry::default();
    registry.register(position_descriptor());
    registry.register(label_descriptor());
    registry
}

fn prop(name: &[u8], value: PropertyValue) -> PropertyField {
    PropertyField { name: name.to_vec(), value }
}

#[test]
fn short_name_keeps_last_segment_only() {
    let registration = PropertyTypeRegistration::of(position_descriptor());
    assert_eq!(registration.short_name, b"Position".to_vec());
    assert_eq!(registration.ty, 1);
}

#[test]
fn short_name_of_unqualified_path_is_whole_path() {
    let descriptor = TypeDescriptor {
        ty: 7,
        type_path: b"Widget".to_vec(),
        fields: vec![],
    };
    let registration = PropertyTypeRegistration::of(descriptor);
    assert_eq!(registration.short_name, b"Widget".to_vec());
}

#[test]
fn get_finds_registered_short_name() {
    let registry = registry();
    let registration = registry.get(&b"Position".to_vec()).expect("registered");
    assert_eq!(registration.ty, 1);
    assert_eq!(registration.fields.len(), 2);
}

#[test]
fn get_returns_none_for_unregistered_name() {
    let registry = registry();
    assert!(registry.get(&b"Velocity".to_vec()).is_none());
}

#[test]
fn registry_overwrite_last_writer_wins() {
    let mut registry = PropertyTypeRegistry::default();
    registry.register(TypeDescriptor {
        ty: 10,
        type_path: b"a::Point".to_vec(),
        fields: vec![field_descriptor(b"x", PropertyKind::UInt)],
    });
    registry.register(TypeDescriptor {
        ty: 11,
        type_path: b"b::Point".to_vec(),
        fields: vec![
            field_descriptor(b"x", PropertyKind::UInt),
            field_descriptor(b"y", PropertyKind::UInt),
        ],
    });
    assert_eq!(registry.registrations.len(), 1);
    let registration = registry.get(&b"Point".to_vec()).expect("registered");
    assert_eq!(registration.ty, 11);
    assert_eq!(registration.fields.len(), 2);
}

#[test]
fn decode_simple_document() {
    let registry = registry();
    let input = b"Position(x:3,y:40)".to_vec();
    let decoded = deserialize_dynamic_properties(&input, &registry).expect("decodes");
    assert_eq!(decoded.short_name, b"Position".to_vec());
    assert_eq!(
        decoded.props,
        vec![
            prop(b"x", PropertyValue::UInt(3)),
            prop(b"y", PropertyValue::UInt(40)),
        ]
    );
}

#[test]
fn decode_string_and_bool_fields() {
    let registry = registry();
    let input = b"Label(text:\"hello\",visible:false)".to_vec();
    let decoded = deserialize_dynamic_properties(&input, &registry).expect("decodes");
    assert_eq!(decoded.short_name, b"Label".to_vec());
    assert_eq!(
        decoded.props,
        vec![
            prop(b"text", PropertyValue::Str(b"hello".to_vec())),
            prop(b"visible", PropertyValue::Bool(false)),
        ]
    );
}

#[test]
fn decode_empty_field_list() {
    let mut registry = PropertyTypeRegistry::default();
    registry.register(TypeDescriptor {
        ty: 3,
        type_path: b"game::Unit".to_vec(),
        fields: vec![],
    });
    let input = b"Unit()".to_vec();
    let decoded = deserialize_dynamic_properties(&input, &registry).expect("decodes");
    assert_eq!(decoded.short_name, b"Unit".to_vec());
    assert_eq!(decoded.props, vec![]);
}

#[test]
fn serialize_produces_exact_bytes() {
    let bag = DynamicProperties {
        short_name: b"Position".to_vec(),
        props: vec![
            prop(b"x", PropertyValue::UInt(3)),
            prop(b"y", PropertyValue::UInt(40)),
        ],
    };
    assert_eq!(serialize_dynamic_properties(&bag), b"Position(x:3,y:40)".to_vec());
}

#[test]
fn serialize_string_and_bool_fields() {
    let bag = DynamicProperties {
        short_name: b"Label".to_vec(),
        props: vec![
            prop(b"text", PropertyValue::Str(b"hi".to_vec())),
            prop(b"visible", PropertyValue::Bool(true)),
        ],
    };
    assert_eq!(
        serialize_dynamic_properties(&bag),
        b"Label(text:\"hi\",visible:true)".to_vec()
    );
}

#[test]
fn round_trip_returns_equal_value() {
    let registry = registry();
    let bag = DynamicProperties {
        short_name: b"Position".to_vec(),
        props: vec![
            prop(b"x", PropertyValue::UInt(0)),
            prop(b"y", PropertyValue::UInt(18446744073709551615)),
        ],
    };
    let bytes = serialize_dynamic_properties(&bag);
    let decoded = deserialize_dynamic_properties(&bytes, &registry).expect("round trips");
    assert_eq!(decoded, bag);
}

#[test]
fn round_trip_with_string_field() {
    let registry = registry();
    let bag = DynamicProperties {
        short_name: b"Label".to_vec(),
        props: vec![
            prop(b"text", PropertyValue::Str(b"hello world".to_vec())),
            prop(b"visible", PropertyValue::Bool(true)),
        ],
    };
    let bytes = serialize_dynamic_properties(&bag);
    let decoded = deserialize_dynamic_properties(&bytes, &registry).expect("round trips");
    assert_eq!(decoded, bag);
}

#[test]
fn unknown_type_yields_unknown_type_error() {
    let registry = registry();
    let input = b"Velocity(x:1,y:2)".to_vec();
    assert_eq!(
        deserialize_dynamic_properties(&input, &registry),
        Err(DecodeError::UnknownType)
    );
}

#[test]
fn missing_annotation_yields_unknown_type_error() {
    let registry = registry();
    let input = b"(x:1,y:2)".to_vec();
    assert_eq!(
        deserialize_dynamic_properties(&input, &registry),
        Err(DecodeError::UnknownType)
    );
}

#[test]
fn wrong_field_kind_yields_type_mismatch() {
    let registry = registry();
    let input = b"Position(x:\"three\",y:4)".to_vec();
    assert_eq!(
        deserialize_dynamic_properties(&input, &registry),
        Err(DecodeError::TypeMismatch)
    );
}

#[test]
fn wrong_field_name_yields_type_mismatch() {
    let registry = registry();
    let input = b"Position(x:3,z:4)".to_vec();
    assert_eq!(
        deserialize_dynamic_properties(&input, &registry),
        Err(DecodeError::TypeMismatch)
    );
}

#[test]
fn wrong_arity_yields_type_mismatch() {
    let registry = registry();
    let input = b"Position(x:3)".to_vec();
    assert_eq!(
        deserialize_dynamic_properties(&input, &registry),
        Err(DecodeError::TypeMismatch)
    );
}

#[test]
fn unclosed_document_is_malformed() {
    let registry = registry();
    let input = b"Position(x:3,y:4".to_vec();
    assert_eq!(
        deserialize_dynamic_properties(&input, &registry),
        Err(DecodeError::Malformed)
    );
}

#[test]
fn empty_input_is_malformed() {
    let registry = registry();
    let input = Vec::new();
    assert_eq!(
        deserialize_dynamic_properties(&input, &registry),
        Err(DecodeError::Malformed)
    );
}

#[test]
fn trailing_bytes_are_malformed() {
    let registry = registry();
    let input = b"Position(x:3,y:4)!".to_vec();
    assert_eq!(
        deserialize_dynamic_properties(&input, &registry),
        Err(DecodeError::Malformed)
    );
}

#[test]
fn number_too_large_for_u64_is_malformed() {
    let registry = registry();
    let input = b"Position(x:18446744073709551616,y:4)".to_vec();
    assert_eq!(
        deserialize_dynamic_properties(&input, &registry),
        Err(DecodeError::Malformed)
    );
}

#[test]
fn decode_is_a_function_of_input_and_registry() {
    // Each decode call builds its own captured-type-name state, so two
    // calls over one read-only registry cannot disturb each other: the
    // results match what each input decodes to on its own.
    let registry = registry();
    let first_input = b"Position(x:1,y:2)".to_vec();
    let second_input = b"Label(text:\"a\",visible:true)".to_vec();
    let first_alone = deserialize_dynamic_properties(&first_input, &registry);
    let second_alone = deserialize_dynamic_properties(&second_input, &registry);
    let first_again = deserialize_dynamic_properties(&first_input, &registry);
    let second_again = deserialize_dynamic_properties(&second_input, &registry);
    assert_eq!(first_alone, first_again);
    assert_eq!(second_alone, second_again);
    assert_eq!(
        first_alone.expect("decodes").props,
        vec![prop(b"x", PropertyValue::UInt(1)), prop(b"y", PropertyValue::UInt(2))]
    );
    assert_eq!(
        second_alone.expect("decodes").props,
        vec![
            prop(b"text", PropertyValue::Str(b"a".to_vec())),
            prop(b"visible", PropertyValue::Bool(true)),
        ]
    );
}
