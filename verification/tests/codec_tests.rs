use amf_store::codec::{deserialize_value, recursive_serialize, serialize_value, EnumOrder};
use amf_store::registry::ClassRegistry;
use amf_store::value::{Member, ObjKind, ScriptValue};
use amf_store::wire::{AmfValue, AmfVersion};

fn prop(name: &str, v: ScriptValue) -> (String, ScriptValue) {
    (name.to_string(), v)
}

fn encode(v: &ScriptValue, ver: AmfVersion) -> Option<AmfValue> {
    let registry = ClassRegistry::new();
    serialize_value(v, ver, EnumOrder::Forward, &registry)
}

fn round_trip(v: ScriptValue, ver: AmfVersion) -> ScriptValue {
    let registry = ClassRegistry::new();
    let wire = serialize_value(&v, ver, EnumOrder::Forward, &registry).expect("value encodes");
    deserialize_value(&wire, &registry)
}

#[test]
fn round_trip_scalars() {
    assert!(matches!(
        round_trip(ScriptValue::Undefined, AmfVersion::Amf0),
        ScriptValue::Undefined
    ));
    assert!(matches!(round_trip(ScriptValue::Null, AmfVersion::Amf0), ScriptValue::Null));
    assert!(matches!(
        round_trip(ScriptValue::Bool(true), AmfVersion::Amf0),
        ScriptValue::Bool(true)
    ));
    let bits = 2.5f64.to_bits();
    assert!(matches!(
        round_trip(ScriptValue::Number(bits), AmfVersion::Amf0),
        ScriptValue::Number(b) if b == bits
    ));
    assert!(matches!(
        round_trip(ScriptValue::String("hello".to_string()), AmfVersion::Amf3),
        ScriptValue::String(s) if s == "hello"
    ));
    assert!(matches!(
        round_trip(ScriptValue::Integer(7), AmfVersion::Amf3),
        ScriptValue::Integer(7)
    ));
}

#[test]
fn round_trip_dense_array_of_scalars() {
    let arr = ScriptValue::Object(ObjKind::Array {
        length: 2,
        props: vec![
            prop("0", ScriptValue::Bool(false)),
            prop("1", ScriptValue::String("x".to_string())),
        ],
    });
    match round_trip(arr, AmfVersion::Amf0) {
        ScriptValue::Object(ObjKind::Array { length, props }) => {
            assert_eq!(length, 2);
            assert_eq!(props.len(), 2);
            assert_eq!(props[0].0, "0");
            assert!(matches!(props[0].1, ScriptValue::Bool(false)));
            assert_eq!(props[1].0, "1");
            assert!(matches!(&props[1].1, ScriptValue::String(s) if s == "x"));
        }
        _ => panic!("expected an array back"),
    }
}

#[test]
fn round_trip_classless_object() {
    let obj = ScriptValue::Object(ObjKind::Instance {
        class: 0,
        members: Vec::new(),
        props: vec![
            prop("alpha", ScriptValue::Number(1.0f64.to_bits())),
            prop("beta", ScriptValue::String("two".to_string())),
        ],
    });
    match round_trip(obj, AmfVersion::Amf3) {
        ScriptValue::Object(ObjKind::Instance { class, members, props }) => {
            assert_eq!(class, 0);
            assert!(members.is_empty());
            assert_eq!(props.len(), 2);
            assert_eq!(props[0].0, "alpha");
            assert!(matches!(props[0].1, ScriptValue::Number(b) if b == 1.0f64.to_bits()));
            assert_eq!(props[1].0, "beta");
            assert!(matches!(&props[1].1, ScriptValue::String(s) if s == "two"));
        }
        _ => panic!("expected an object back"),
    }
}

#[test]
fn sparse_split() {
    let arr = ScriptValue::Object(ObjKind::Array {
        length: 3,
        props: vec![
            prop("0", ScriptValue::String("a".to_string())),
            prop("1", ScriptValue::String("b".to_string())),
            prop("2", ScriptValue::String("c".to_string())),
            prop("foo", ScriptValue::String("bar".to_string())),
        ],
    });
    match encode(&arr, AmfVersion::Amf3).expect("array encodes") {
        AmfValue::ECMAArray { dense, assoc, length } => {
            assert_eq!(dense.len(), 3);
            assert!(matches!(&dense[0], AmfValue::String(s) if s == "a"));
            assert!(matches!(&dense[1], AmfValue::String(s) if s == "b"));
            assert!(matches!(&dense[2], AmfValue::String(s) if s == "c"));
            assert_eq!(assoc.len(), 1);
            assert_eq!(assoc[0].name, "foo");
            assert!(matches!(&assoc[0].value, AmfValue::String(s) if s == "bar"));
            assert_eq!(length, 1);
        }
        _ => panic!("expected an associative array"),
    }
}

#[test]
fn all_dense_becomes_strict_array() {
    let arr = ScriptValue::Object(ObjKind::Array {
        length: 2,
        props: vec![
            prop("0", ScriptValue::Null),
            prop("1", ScriptValue::Undefined),
        ],
    });
    assert!(matches!(
        encode(&arr, AmfVersion::Amf0),
        Some(AmfValue::StrictArray(values)) if values.len() == 2
    ));
}

#[test]
fn integer_range() {
    // Above 2^28: widened to Number even under AMF3.
    assert!(matches!(
        encode(&ScriptValue::Integer(300_000_000), AmfVersion::Amf3),
        Some(AmfValue::Number(bits)) if bits == (300_000_000f64).to_bits()
    ));
    // Within range: kept as Integer under AMF3.
    assert!(matches!(
        encode(&ScriptValue::Integer(100), AmfVersion::Amf3),
        Some(AmfValue::Integer(100))
    ));
    // Any integer under AMF0 becomes a Number.
    assert!(matches!(
        encode(&ScriptValue::Integer(100), AmfVersion::Amf0),
        Some(AmfValue::Number(bits)) if bits == (100f64).to_bits()
    ));
    assert!(matches!(
        encode(&ScriptValue::Integer(-5), AmfVersion::Amf0),
        Some(AmfValue::Number(bits)) if bits == (-5f64).to_bits()
    ));
    // The negative boundary stays an Integer; one past it widens.
    assert!(matches!(
        encode(&ScriptValue::Integer(-(1 << 28)), AmfVersion::Amf3),
        Some(AmfValue::Integer(n)) if n == -(1 << 28)
    ));
    assert!(matches!(
        encode(&ScriptValue::Integer(1 << 28), AmfVersion::Amf3),
        Some(AmfValue::Number(bits)) if bits == ((1i64 << 28) as f64).to_bits()
    ));
}

#[test]
fn functions_are_omitted_and_display_objects_are_undefined() {
    let func = ScriptValue::Object(ObjKind::Function { props: Vec::new() });
    assert!(encode(&func, AmfVersion::Amf0).is_none());
    let display = ScriptValue::Object(ObjKind::Display);
    assert!(matches!(encode(&display, AmfVersion::Amf0), Some(AmfValue::Undefined)));
}

#[test]
fn class_instance_carries_descriptor_only_under_amf3() {
    let mut registry = ClassRegistry::new();
    let class = registry.register("com.example.Thing".to_string(), false);
    let obj = ScriptValue::Object(ObjKind::Instance {
        class,
        members: vec![
            Member {
                name: "b".to_string(),
                value: ScriptValue::Integer(2),
                has_getter: true,
                has_setter: true,
            },
            Member {
                name: "a".to_string(),
                value: ScriptValue::Integer(1),
                has_getter: true,
                has_setter: true,
            },
            Member {
                name: "hidden".to_string(),
                value: ScriptValue::Integer(3),
                has_getter: true,
                has_setter: false,
            },
        ],
        props: vec![prop("dyn_one", ScriptValue::Bool(true))],
    });
    match serialize_value(&obj, AmfVersion::Amf3, EnumOrder::Forward, &registry).unwrap() {
        AmfValue::Object { elements, class_definition } => {
            // Statics are sorted by name, getter-only members are skipped,
            // and dynamic properties follow.
            assert_eq!(elements.len(), 3);
            assert_eq!(elements[0].name, "a");
            assert_eq!(elements[1].name, "b");
            assert_eq!(elements[2].name, "dyn_one");
            let cd = class_definition.expect("AMF3 carries a class descriptor");
            assert_eq!(cd.name, "com.example.Thing");
            assert!(!cd.is_dynamic);
            assert_eq!(cd.static_properties, vec!["a".to_string(), "b".to_string()]);
        }
        _ => panic!("expected a typed object"),
    }
    match serialize_value(&obj, AmfVersion::Amf0, EnumOrder::Forward, &registry).unwrap() {
        AmfValue::Object { class_definition, .. } => assert!(class_definition.is_none()),
        _ => panic!("expected an anonymous object"),
    }
}

#[test]
fn unsupported_wire_values_decode_to_undefined() {
    let registry = ClassRegistry::new();
    let dict = AmfValue::Dictionary { entries: Vec::new(), weak_keys: false };
    assert!(matches!(deserialize_value(&dict, &registry), ScriptValue::Undefined));
    let reference = AmfValue::Reference(3);
    assert!(matches!(deserialize_value(&reference, &registry), ScriptValue::Undefined));
}

#[test]
fn ecma_array_decodes_dense_then_sparse_in_order() {
    let registry = ClassRegistry::new();
    let wire = AmfValue::ECMAArray {
        dense: vec![AmfValue::Integer(10), AmfValue::Integer(11)],
        assoc: vec![amf_store::wire::Element {
            name: "foo".to_string(),
            value: AmfValue::String("bar".to_string()),
        }],
        length: 5,
    };
    match deserialize_value(&wire, &registry) {
        ScriptValue::Object(ObjKind::Array { length, props }) => {
            assert_eq!(length, 5);
            assert_eq!(props.len(), 3);
            assert_eq!(props[0].0, "0");
            assert_eq!(props[1].0, "1");
            assert_eq!(props[2].0, "foo");
        }
        _ => panic!("expected an array"),
    }
}

#[test]
fn recursive_serialize_reverse_order() {
    let registry = ClassRegistry::new();
    let props = vec![
        prop("first", ScriptValue::Integer(1)),
        prop("second", ScriptValue::Integer(2)),
    ];
    let (elements, statics) = recursive_serialize(
        &Vec::new(),
        &props,
        false,
        AmfVersion::Amf0,
        EnumOrder::Reverse,
        &registry,
    );
    assert!(statics.is_empty());
    assert_eq!(elements.len(), 2);
    assert_eq!(elements[0].name, "second");
    assert_eq!(elements[1].name, "first");
}

#[test]
fn vector_serialization_keeps_element_types() {
    let mut registry = ClassRegistry::new();
    let class = registry.register("MyElem".to_string(), true);
    let vec_int = ScriptValue::Object(ObjKind::VectorInt { values: vec![1, -2, 3], fixed: true });
    assert!(matches!(
        serialize_value(&vec_int, AmfVersion::Amf3, EnumOrder::Forward, &registry),
        Some(AmfValue::VectorInt { values, fixed: true }) if values == vec![1, -2, 3]
    ));
    let vec_obj = ScriptValue::Object(ObjKind::VectorObject {
        values: vec![ScriptValue::Null],
        class,
        fixed: false,
    });
    match serialize_value(&vec_obj, AmfVersion::Amf3, EnumOrder::Forward, &registry).unwrap() {
        AmfValue::VectorObject { values, element_type, fixed } => {
            assert_eq!(values.len(), 1);
            assert_eq!(element_type, "MyElem");
            assert!(!fixed);
        }
        _ => panic!("expected an object vector"),
    }
}
