use mgen::codec::DictEntry;
use mgen::codec::Value;
use mgen::schema::CoreType;
use mgen::schema::Enum;
use mgen::schema::EnumVariant;
use mgen::schema::Struct;
use mgen::schema::StructField;
use mgen::schema::Type;

fn field(name: &str, ty: Type) -> StructField {
    StructField { name: name.to_string(), ty }
}

fn point_struct() -> Struct {
    Struct {
        name: "Point".to_string(),
        fields: vec![field("x", Type::Core(CoreType::F64)), field("y", Type::Core(CoreType::F64))],
    }
}

fn shape_enum() -> Enum {
    Enum {
        name: "Shape".to_string(),
        variants: vec![
            EnumVariant {
                name: "Circle".to_string(),
                fields: vec![field("", Type::Core(CoreType::F64))],
            },
            EnumVariant { name: "Square".to_string(), fields: vec![] },
        ],
    }
}

fn f64v(x: f64) -> Value {
    Value::F64Bits(x.to_bits())
}

#[test]
fn point_encodes_to_keyed_dictionary() {
    let s = point_struct();
    let vals = vec![f64v(1.5), f64v(2.5)];
    let d = s.encode(&vals);
    assert_eq!(d.len(), 2);
    assert_eq!(d[0].key, "x");
    assert_eq!(d[0].value, f64v(1.5));
    assert_eq!(d[1].key, "y");
    assert_eq!(d[1].value, f64v(2.5));
}

#[test]
fn point_dictionary_decodes_to_original_value() {
    let s = point_struct();
    let vals = vec![f64v(1.5), f64v(2.5)];
    let d = s.encode(&vals);
    assert_eq!(s.decode(&d), Some(vals));
}

#[test]
fn struct_round_trip_with_varied_field_types() {
    let s = Struct {
        name: "Mixed".to_string(),
        fields: vec![
            field("flag", Type::Core(CoreType::Bool)),
            field("count", Type::Core(CoreType::U64)),
            field("delta", Type::Core(CoreType::I64)),
            field("label", Type::String),
            field("maybe", Type::Optional(Box::new(Type::Core(CoreType::U32)))),
        ],
    };
    let vals = vec![
        Value::Bool(true),
        Value::UInt(42),
        Value::Int(-7),
        Value::Text("hello".to_string()),
        Value::Null,
    ];
    let d = s.encode(&vals);
    assert_eq!(s.decode(&d), Some(vals));
}

#[test]
fn struct_round_trip_is_independent_of_nesting_depth() {
    let s = Struct {
        name: "Deep".to_string(),
        fields: vec![field("data", Type::Optional(Box::new(Type::List(Box::new(Type::Core(
            CoreType::U32,
        ))))))],
    };
    let nested = Value::List(vec![
        Value::List(vec![Value::UInt(1), Value::UInt(2)]),
        Value::Dict(vec![DictEntry { key: "k".to_string(), value: Value::Text("v".to_string()) }]),
        Value::Null,
    ]);
    let vals = vec![nested];
    let d = s.encode(&vals);
    assert_eq!(s.decode(&d), Some(vals));
}

#[test]
fn struct_decode_fails_fatally_on_missing_key() {
    let s = point_struct();
    let d = vec![DictEntry { key: "x".to_string(), value: f64v(1.5) }];
    assert_eq!(s.decode(&d), None);
}

#[test]
fn struct_decode_ignores_extra_keys() {
    let s = point_struct();
    let d = vec![
        DictEntry { key: "z".to_string(), value: f64v(9.0) },
        DictEntry { key: "y".to_string(), value: f64v(2.5) },
        DictEntry { key: "x".to_string(), value: f64v(1.5) },
    ];
    assert_eq!(s.decode(&d), Some(vec![f64v(1.5), f64v(2.5)]));
}

#[test]
fn circle_encodes_to_tagged_token_stream() {
    let e = shape_enum();
    let tokens = e.encode(0, &vec![f64v(2.0)]);
    assert_eq!(tokens, vec![Value::Text("Circle".to_string()), f64v(2.0)]);
}

#[test]
fn square_encodes_to_bare_discriminant() {
    let e = shape_enum();
    let tokens = e.encode(1, &vec![]);
    assert_eq!(tokens, vec![Value::Text("Square".to_string())]);
}

#[test]
fn circle_tokens_decode_to_original_value() {
    let e = shape_enum();
    let tokens = vec![Value::Text("Circle".to_string()), f64v(2.0)];
    assert_eq!(e.decode(&tokens), Some((0, vec![f64v(2.0)])));
}

#[test]
fn unknown_discriminant_fails_fatally() {
    let e = shape_enum();
    let tokens = vec![Value::Text("Bogus".to_string())];
    assert_eq!(e.decode(&tokens), None);
}

#[test]
fn enum_round_trip_zero_and_multi_field_variants() {
    let e = Enum {
        name: "Event".to_string(),
        variants: vec![
            EnumVariant { name: "Quit".to_string(), fields: vec![] },
            EnumVariant {
                name: "Moved".to_string(),
                fields: vec![
                    field("dx", Type::Core(CoreType::I32)),
                    field("dy", Type::Core(CoreType::I32)),
                ],
            },
        ],
    };
    let none: Vec<Value> = vec![];
    assert_eq!(e.decode(&e.encode(0, &none)), Some((0, vec![])));
    let moved = vec![Value::Int(3), Value::Int(-4)];
    assert_eq!(e.decode(&e.encode(1, &moved)), Some((1, moved)));
}

#[test]
fn enum_decode_fails_on_empty_stream() {
    let e = shape_enum();
    assert_eq!(e.decode(&vec![]), None);
}

#[test]
fn enum_decode_fails_on_non_text_discriminant() {
    let e = shape_enum();
    assert_eq!(e.decode(&vec![Value::UInt(0), f64v(2.0)]), None);
}

#[test]
fn enum_decode_fails_on_too_few_payload_tokens() {
    let e = shape_enum();
    assert_eq!(e.decode(&vec![Value::Text("Circle".to_string())]), None);
}

#[test]
fn enum_decode_reads_exactly_declared_field_count() {
    let e = shape_enum();
    let tokens = vec![Value::Text("Square".to_string()), f64v(1.0)];
    assert_eq!(e.decode(&tokens), Some((1, vec![])));
}

#[test]
fn enum_round_trip_with_nested_payload() {
    let e = Enum {
        name: "Wrap".to_string(),
        variants: vec![EnumVariant {
            name: "Many".to_string(),
            fields: vec![field("", Type::List(Box::new(Type::Core(CoreType::U32))))],
        }],
    };
    let payload = vec![Value::List(vec![Value::UInt(1), Value::UInt(2), Value::UInt(3)])];
    assert_eq!(e.decode(&e.encode(0, &payload)), Some((0, payload)));
}
