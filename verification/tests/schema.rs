use mgen::schema::CoreType;
use mgen::schema::Enum;
use mgen::schema::EnumVariant;
use mgen::schema::Item;
use mgen::schema::Module;
use mgen::schema::Struct;
use mgen::schema::StructField;
use mgen::schema::Type;

fn field(name: &str, ty: Type) -> StructField {
    StructField { name: name.to_string(), ty }
}

#[test]
fn well_formed_struct_passes_validation() {
    let s = Struct {
        name: "Point".to_string(),
        fields: vec![field("x", Type::Core(CoreType::F64)), field("y", Type::Core(CoreType::F64))],
    };
    assert!(s.is_well_formed());
}

#[test]
fn struct_with_empty_field_name_fails_validation() {
    let s = Struct {
        name: "Bad".to_string(),
        fields: vec![field("", Type::Core(CoreType::U8))],
    };
    assert!(!s.is_well_formed());
}

#[test]
fn struct_with_duplicate_field_names_fails_validation() {
    let s = Struct {
        name: "Bad".to_string(),
        fields: vec![field("x", Type::Core(CoreType::U8)), field("x", Type::Core(CoreType::U16))],
    };
    assert!(!s.is_well_formed());
}

#[test]
fn positional_and_named_variants_pass_validation() {
    let positional = EnumVariant {
        name: "Circle".to_string(),
        fields: vec![field("", Type::Core(CoreType::F64))],
    };
    assert!(positional.is_well_formed());
    let named = EnumVariant {
        name: "Moved".to_string(),
        fields: vec![field("dx", Type::Core(CoreType::I32)), field("dy", Type::Core(CoreType::I32))],
    };
    assert!(named.is_well_formed());
    let fieldless = EnumVariant { name: "Quit".to_string(), fields: vec![] };
    assert!(fieldless.is_well_formed());
}

#[test]
fn variant_mixing_named_and_unnamed_fields_fails_validation() {
    let v = EnumVariant {
        name: "Mixed".to_string(),
        fields: vec![field("", Type::Core(CoreType::U8)), field("n", Type::Core(CoreType::U8))],
    };
    assert!(!v.is_well_formed());
    let w = EnumVariant {
        name: "Mixed".to_string(),
        fields: vec![field("n", Type::Core(CoreType::U8)), field("", Type::Core(CoreType::U8))],
    };
    assert!(!w.is_well_formed());
}

#[test]
fn variant_with_empty_name_fails_validation() {
    let v = EnumVariant { name: "".to_string(), fields: vec![] };
    assert!(!v.is_well_formed());
}

#[test]
fn enum_with_distinct_variants_passes_validation() {
    let e = Enum {
        name: "Shape".to_string(),
        variants: vec![
            EnumVariant {
                name: "Circle".to_string(),
                fields: vec![field("", Type::Core(CoreType::F64))],
            },
            EnumVariant { name: "Square".to_string(), fields: vec![] },
        ],
    };
    assert!(e.is_well_formed());
}

#[test]
fn enum_with_duplicate_variant_names_fails_validation() {
    let e = Enum {
        name: "Shape".to_string(),
        variants: vec![
            EnumVariant { name: "Circle".to_string(), fields: vec![] },
            EnumVariant { name: "Circle".to_string(), fields: vec![] },
        ],
    };
    assert!(!e.is_well_formed());
}

#[test]
fn module_validation_recurses_into_nested_modules() {
    let good = Module {
        name: "root".to_string(),
        items: vec![Item::Module(Module {
            name: "inner".to_string(),
            items: vec![Item::Struct(Struct {
                name: "Point".to_string(),
                fields: vec![field("x", Type::Core(CoreType::F64))],
            })],
        })],
    };
    assert!(good.is_well_formed());
    let bad = Module {
        name: "root".to_string(),
        items: vec![Item::Module(Module {
            name: "inner".to_string(),
            items: vec![Item::Struct(Struct {
                name: "Point".to_string(),
                fields: vec![field("", Type::Core(CoreType::F64))],
            })],
        })],
    };
    assert!(!bad.is_well_formed());
}

#[test]
fn empty_module_is_well_formed() {
    assert!(Module::new().is_well_formed());
}
