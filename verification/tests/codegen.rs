use mgen::schema::CoreType;
use mgen::schema::Enum;
use mgen::schema::EnumVariant;
use mgen::schema::Item;
use mgen::schema::Module;
use mgen::schema::Struct;
use mgen::schema::StructField;
use mgen::schema::Type;
use mgen::schema::TypePath;

fn field(name: &str, ty: Type) -> StructField {
    StructField { name: name.to_string(), ty }
}

fn point_struct() -> Struct {
    Struct {
        name: "Point".to_string(),
        fields: vec![field("x", Type::Core(CoreType::F64)), field("y", Type::Core(CoreType::F64))],
    }
}

fn shape_enum() -> Enum {
    Enum {
        name: "Shape".to_string(),
        variants: vec![
            EnumVariant {
                name: "Circle".to_string(),
                fields: vec![field("", Type::Core(CoreType::F64))],
            },
            EnumVariant { name: "Square".to_string(), fields: vec![] },
        ],
    }
}

#[test]
fn core_type_names_preserve_width_and_signedness() {
    assert_eq!(Type::Core(CoreType::Bool).gen_swift_code(), "Bool");
    assert_eq!(Type::Core(CoreType::U8).gen_swift_code(), "UInt8");
    assert_eq!(Type::Core(CoreType::U16).gen_swift_code(), "UInt16");
    assert_eq!(Type::Core(CoreType::U32).gen_swift_code(), "UInt32");
    assert_eq!(Type::Core(CoreType::U64).gen_swift_code(), "UInt64");
    assert_eq!(Type::Core(CoreType::I8).gen_swift_code(), "Int8");
    assert_eq!(Type::Core(CoreType::I16).gen_swift_code(), "Int16");
    assert_eq!(Type::Core(CoreType::I32).gen_swift_code(), "Int32");
    assert_eq!(Type::Core(CoreType::I64).gen_swift_code(), "Int64");
    assert_eq!(Type::Core(CoreType::F32).gen_swift_code(), "Float32");
    assert_eq!(Type::Core(CoreType::F64).gen_swift_code(), "Float64");
    assert_eq!(Type::String.gen_swift_code(), "String");
}

#[test]
fn reference_maps_to_last_path_segment() {
    let p = TypePath(vec!["outer".to_string(), "inner".to_string(), "Leaf".to_string()]);
    assert_eq!(p.gen_swift_code(), "Leaf");
    assert_eq!(Type::Reference(TypePath(vec!["Point".to_string()])).gen_swift_code(), "Point");
}

#[test]
fn empty_reference_path_maps_to_placeholder_without_failing() {
    let p = TypePath(vec![]);
    assert_eq!(p.gen_swift_code(), "????");
    assert_eq!(Type::Reference(TypePath(vec![])).gen_swift_code(), "????");
}

#[test]
fn empty_reference_inside_struct_still_generates() {
    let s = Struct {
        name: "Holder".to_string(),
        fields: vec![field("r", Type::Reference(TypePath(vec![])))],
    };
    let out = s.gen_swift_code();
    assert!(out.contains("    var r: ????\n"));
}

#[test]
fn nested_optional_list_maps_to_wrapped_type_expression() {
    let t = Type::Optional(Box::new(Type::List(Box::new(Type::Core(CoreType::U32)))));
    assert_eq!(t.gen_swift_code(), "Optional<Array<UInt32>>");
}

#[test]
fn deeply_nested_type_expression() {
    let t = Type::List(Box::new(Type::Optional(Box::new(Type::List(Box::new(Type::String))))));
    assert_eq!(t.gen_swift_code(), "Array<Optional<Array<String>>>");
}

#[test]
fn point_struct_members() {
    let s = point_struct();
    assert_eq!(s.gen_members(), "    var x: Float64\n    var y: Float64\n");
}

#[test]
fn point_struct_full_text() {
    let s = point_struct();
    let mut expected = String::new();
    expected.push_str("struct Point: Codable {\n");
    expected.push_str("    var x: Float64\n");
    expected.push_str("    var y: Float64\n");
    expected.push_str("}\n");
    expected.push_str("func toJSON(_ v: Point) -> Any {\n");
    expected.push_str("    return [\n");
    expected.push_str("            \"x\": toJSON(v.x),\n");
    expected.push_str("            \"y\": toJSON(v.y),\n");
    expected.push_str("    ] as [String: Any]\n");
    expected.push_str("}\n");
    expected.push_str("func fromJSON(_ j: Any) -> Point {\n");
    expected.push_str("    let o = j as! [String: Any]\n");
    expected.push_str("    let r = Point(\n");
    expected.push_str("        x: fromJSON(o[\"x\"]!),\n");
    expected.push_str("        y: fromJSON(o[\"y\"]!))\n");
    expected.push_str("    return r\n");
    expected.push_str("}\n");
    assert_eq!(s.gen_swift_code(), expected);
}

#[test]
fn positional_variant_emits_types_only() {
    let e = shape_enum();
    assert_eq!(e.gen_members(), "    case Circle(Float64)\n    case Square\n");
}

#[test]
fn named_variant_emits_name_type_pairs() {
    let e = Enum {
        name: "Event".to_string(),
        variants: vec![EnumVariant {
            name: "Moved".to_string(),
            fields: vec![
                field("dx", Type::Core(CoreType::I32)),
                field("dy", Type::Core(CoreType::I32)),
            ],
        }],
    };
    assert_eq!(e.gen_members(), "    case Moved(dx: Int32, dy: Int32)\n");
}

#[test]
fn shape_enum_encoder_text() {
    let e = shape_enum();
    let mut expected = String::new();
    expected.push_str("    func encode(to encoder: Encoder) throws {\n");
    expected.push_str("        var c = encoder.unkeyedContainer()\n");
    expected.push_str("        switch self {\n");
    expected.push_str("        case .Circle(let f0):\n");
    expected.push_str("            try c.encode(\"Circle\")\n");
    expected.push_str("            try c.encode(f0)\n");
    expected.push_str("        case .Square:\n");
    expected.push_str("            try c.encode(\"Square\")\n");
    expected.push_str("        }\n");
    expected.push_str("    }\n");
    assert_eq!(e.gen_encoding(), expected);
}

#[test]
fn shape_enum_decoder_text() {
    let e = shape_enum();
    let mut expected = String::new();
    expected.push_str("    init(from decoder: Decoder) throws {\n");
    expected.push_str("        var dec = try decoder.unkeyedContainer()\n");
    expected.push_str("        let n = try dec.decode(String.self)\n");
    expected.push_str("        switch n {\n");
    expected.push_str("        case \"Circle\":\n");
    expected.push_str("            self = .Circle(\n");
    expected.push_str("                try dec.decode(Float64.self))\n");
    expected.push_str("        case \"Square\":\n");
    expected.push_str("            self = .Square\n");
    expected.push_str("        default:\n");
    expected.push_str("            preconditionFailure()\n");
    expected.push_str("        }\n");
    expected.push_str("    }\n");
    assert_eq!(e.gen_decoding(), expected);
}

#[test]
fn multi_field_encoder_binders_are_numbered() {
    let e = Enum {
        name: "Pair".to_string(),
        variants: vec![EnumVariant {
            name: "Both".to_string(),
            fields: vec![
                field("", Type::Core(CoreType::U8)),
                field("", Type::Core(CoreType::U16)),
                field("", Type::Core(CoreType::U32)),
            ],
        }],
    };
    let enc = e.gen_encoding();
    assert!(enc.contains("        case .Both(let f0, let f1, let f2):\n"));
    assert!(enc.contains("            try c.encode(f0)\n"));
    assert!(enc.contains("            try c.encode(f2)\n"));
    let dec = e.gen_decoding();
    assert!(dec.contains("                try dec.decode(UInt8.self),\n"));
    assert!(dec.contains("                try dec.decode(UInt32.self))\n"));
}

#[test]
fn module_concatenates_items_in_schema_order_with_blank_lines() {
    let m = Module {
        name: "root".to_string(),
        items: vec![Item::Struct(point_struct()), Item::Enum(shape_enum())],
    };
    let s = point_struct().gen_swift_code();
    let e = shape_enum().gen_swift_code();
    assert_eq!(m.gen_swift_code(), format!("{}\n\n\n{}", s, e));
}

#[test]
fn nested_module_is_flattened() {
    let inner = Module { name: "inner".to_string(), items: vec![Item::Struct(point_struct())] };
    let outer = Module {
        name: "outer".to_string(),
        items: vec![Item::Module(inner), Item::Enum(shape_enum())],
    };
    let expected = format!(
        "{}\n\n\n{}",
        point_struct().gen_swift_code(),
        shape_enum().gen_swift_code()
    );
    assert_eq!(outer.gen_swift_code(), expected);
}

#[test]
fn generation_is_deterministic() {
    let make = || Module {
        name: "root".to_string(),
        items: vec![Item::Struct(point_struct()), Item::Enum(shape_enum())],
    };
    assert_eq!(make().gen_swift_code(), make().gen_swift_code());
    assert_eq!(make().gen_swift_code(), make().gen_swift_code());
}

#[test]
fn empty_module_generates_empty_output() {
    let m = Module::new();
    assert_eq!(m.gen_swift_code(), "");
}

#[test]
fn constructors_build_empty_entities() {
    let m = Module::new();
    assert_eq!(m.name, "");
    assert!(m.items.is_empty());
    let e = Enum::new();
    assert_eq!(e.name, "");
    assert!(e.variants.is_empty());
    let v = EnumVariant::new();
    assert_eq!(v.name, "");
    assert!(v.fields.is_empty());
    let s = Struct::new();
    assert_eq!(s.name, "");
    assert!(s.fields.is_empty());
}

#[test]
fn fieldless_struct_text() {
    let s = Struct { name: "Unit".to_string(), fields: vec![] };
    let mut expected = String::new();
    expected.push_str("struct Unit: Codable {\n");
    expected.push_str("}\n");
    expected.push_str("func toJSON(_ v: Unit) -> Any {\n");
    expected.push_str("    return [\n");
    expected.push_str("    ] as [String: Any]\n");
    expected.push_str("}\n");
    expected.push_str("func fromJSON(_ j: Any) -> Unit {\n");
    expected.push_str("    let o = j as! [String: Any]\n");
    expected.push_str("    let r = Unit(\n");
    expected.push_str(")\n");
    expected.push_str("    return r\n");
    expected.push_str("}\n");
    assert_eq!(s.gen_swift_code(), expected);
}

#[test]
fn binder_numbering_reaches_two_digits() {
    let mut fields = Vec::new();
    for _ in 0..11 {
        fields.push(field("", Type::Core(CoreType::U8)));
    }
    let e = Enum {
        name: "Wide".to_string(),
        variants: vec![EnumVariant { name: "All".to_string(), fields }],
    };
    let enc = e.gen_encoding();
    assert!(enc.contains("let f0, let f1, let f2, let f3, let f4, let f5, let f6, let f7, let f8, let f9, let f10"));
    assert!(enc.contains("            try c.encode(f10)\n"));
}
