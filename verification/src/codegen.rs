//! The emitters: schema tree to Swift source text.
//!
//! Every executable emitter is pinned to a spec-level text model: the
//! `..._code` spec functions below state, character for character, what each
//! part of the output is. The public `gen_swift_code` methods return exactly
//! that text, so generation is total and deterministic by contract.

use vstd::prelude::*;
use vstd::string::StringExecFns;
use crate::schema::CoreType;
use crate::schema::Enum;
use crate::schema::EnumVariant;
use crate::schema::Item;
use crate::schema::Module;
use crate::schema::Struct;
use crate::schema::StructField;
use crate::schema::Type;
use crate::schema::TypePath;
use crate::schema::variant_named;
use crate::schema::variant_positional;

verus! {

/// The decimal digit character for a value below ten.
pub open spec fn dec_digit(d: nat) -> char
    recommends
        d < 10,
{
    if d == 0 {
        '0'
    } else if d == 1 {
        '1'
    } else if d == 2 {
        '2'
    } else if d == 3 {
        '3'
    } else if d == 4 {
        '4'
    } else if d == 5 {
        '5'
    } else if d == 6 {
        '6'
    } else if d == 7 {
        '7'
    } else if d == 8 {
        '8'
    } else {
        '9'
    }
}

/// The decimal rendering of a natural number, most significant digit first,
/// without leading zeros (a single zero for zero itself).
pub open spec fn dec_str(n: nat) -> Seq<char>
    decreases n,
{
    if n < 10 {
        seq![dec_digit(n)]
    } else {
        dec_str(n / 10) + seq![dec_digit(n % 10)]
    }
}

/// The one-character string slice for a decimal digit.
fn digit_str(d: usize) -> (r: &'static str)
    requires
        d < 10,
    ensures
        r@ == seq![dec_digit(d as nat)],
{
    if d == 0 {
        proof {
            reveal_strlit("0");
            assert("0"@ =~= seq![dec_digit(0)]);
        }
        "0"
    } else if d == 1 {
        proof {
            reveal_strlit("1");
            assert("1"@ =~= seq![dec_digit(1)]);
        }
        "1"
    } else if d == 2 {
        proof {
            reveal_strlit("2");
            assert("2"@ =~= seq![dec_digit(2)]);
        }
        "2"
    } else if d == 3 {
        proof {
            reveal_strlit("3");
            assert("3"@ =~= seq![dec_digit(3)]);
        }
        "3"
    } else if d == 4 {
        proof {
            reveal_strlit("4");
            assert("4"@ =~= seq![dec_digit(4)]);
        }
        "4"
    } else if d == 5 {
        proof {
            reveal_strlit("5");
            assert("5"@ =~= seq![dec_digit(5)]);
        }
        "5"
    } else if d == 6 {
        proof {
            reveal_strlit("6");
            assert("6"@ =~= seq![dec_digit(6)]);
        }
        "6"
    } else if d == 7 {
        proof {
            reveal_strlit("7");
            assert("7"@ =~= seq![dec_digit(7)]);
        }
        "7"
    } else if d == 8 {
        proof {
            reveal_strlit("8");
            assert("8"@ =~= seq![dec_digit(8)]);
        }
        "8"
    } else {
        proof {
            reveal_strlit("9");
            assert("9"@ =~= seq![dec_digit(9)]);
        }
        "9"
    }
}

/// Renders a number in decimal, exactly as `dec_str` states.
fn usize_to_string(n: usize) -> (s: String)
    ensures
        s@ == dec_str(n as nat),
    decreases n,
{
    if n < 10 {
        String::from_str(digit_str(n))
    } else {
        let mut s = usize_to_string(n / 10);
        s.append(digit_str(n % 10));
        s
    }
}

/// The fixed-width Swift type name for a primitive, preserving signedness
/// and bit width exactly.
pub open spec fn core_type_code(c: CoreType) -> Seq<char> {
    match c {
        CoreType::Bool => "Bool"@,
        CoreType::U8 => "UInt8"@,
        CoreType::U16 => "UInt16"@,
        CoreType::U32 => "UInt32"@,
        CoreType::U64 => "UInt64"@,
        CoreType::I8 => "Int8"@,
        CoreType::I16 => "Int16"@,
        CoreType::I32 => "Int32"@,
        CoreType::I64 => "Int64"@,
        CoreType::F32 => "Float32"@,
        CoreType::F64 => "Float64"@,
    }
}

/// The last segment of a reference path, or the placeholder token for a
/// degenerate empty path.
pub open spec fn type_path_code(p: TypePath) -> Seq<char> {
    if p.0@.len() == 0 {
        "????"@
    } else {
        p.0@.last()@
    }
}

/// The Swift type expression a schema type maps to. Total: every schema
/// type, at any nesting depth, maps to some text.
pub open spec fn type_code(t: Type) -> Seq<char>
    decreases t,
{
    match t {
        Type::Core(c) => core_type_code(c),
        Type::String => "String"@,
        Type::Reference(p) => type_path_code(p),
        Type::Optional(inner) => "Optional<"@ + type_code(*inner) + ">"@,
        Type::List(inner) => "Array<"@ + type_code(*inner) + ">"@,
    }
}

impl TypePath {
    /// Maps a reference path to the referenced item's unqualified name;
    /// an empty path degrades to the placeholder token instead of failing.
    pub fn gen_swift_code(&self) -> (s: String)
        ensures
            s@ == type_path_code(*self),
    {
        if self.0.len() == 0 {
            String::from_str("????")
        } else {
            let last = &self.0[self.0.len() - 1];
            String::from_str(last.as_str())
        }
    }
}

impl Type {
    /// The type mapper: renders this schema type as a Swift type expression.
    pub fn gen_swift_code(&self) -> (s: String)
        ensures
            s@ == type_code(*self),
        decreases self,
    {
        match self {
            Type::Core(c) => {
                match c {
                    CoreType::Bool => String::from_str("Bool"),
                    CoreType::U8 => String::from_str("UInt8"),
                    CoreType::U16 => String::from_str("UInt16"),
                    CoreType::U32 => String::from_str("UInt32"),
                    CoreType::U64 => String::from_str("UInt64"),
                    CoreType::I8 => String::from_str("Int8"),
                    CoreType::I16 => String::from_str("Int16"),
                    CoreType::I32 => String::from_str("Int32"),
                    CoreType::I64 => String::from_str("Int64"),
                    CoreType::F32 => String::from_str("Float32"),
                    CoreType::F64 => String::from_str("Float64"),
                }
            },
            Type::String => String::from_str("String"),
            Type::Reference(p) => p.gen_swift_code(),
            Type::Optional(inner) => {
                let mut s = String::from_str("Optional<");
                let t = inner.gen_swift_code();
                s.append(t.as_str());
                s.append(">");
                proof {
                    assert(s@ =~= type_code(*self));
                }
                s
            },
            Type::List(inner) => {
                let mut s = String::from_str("Array<");
                let t = inner.gen_swift_code();
                s.append(t.as_str());
                s.append(">");
                proof {
                    assert(s@ =~= type_code(*self));
                }
                s
            },
        }
    }
}

/// One member line of a record declaration.
pub open spec fn struct_member_line(f: StructField) -> Seq<char> {
    "    var "@ + f.name@ + ": "@ + type_code(f.ty) + "\n"@
}

/// The member lines of a record declaration, one per field, in declared
/// order.
pub open spec fn struct_members_code(fields: Seq<StructField>) -> Seq<char>
    decreases fields.len(),
{
    if fields.len() == 0 {
        Seq::empty()
    } else {
        struct_members_code(fields.drop_last()) + struct_member_line(fields.last())
    }
}

/// A record declaration: one member per field, in declared order.
pub open spec fn struct_decl_code(s: Struct) -> Seq<char> {
    "struct "@ + s.name@ + ": Codable {\n"@ + struct_members_code(s.fields@) + "}\n"@
}

/// One dictionary entry of the record encoder: key is the field name, value
/// is the recursively encoded field value.
pub open spec fn struct_encode_line(f: StructField) -> Seq<char> {
    "            \""@ + f.name@ + "\": toJSON(v."@ + f.name@ + "),\n"@
}

/// The entries of the record encoder, in declared field order.
pub open spec fn struct_encode_lines(fields: Seq<StructField>) -> Seq<char>
    decreases fields.len(),
{
    if fields.len() == 0 {
        Seq::empty()
    } else {
        struct_encode_lines(fields.drop_last()) + struct_encode_line(fields.last())
    }
}

/// The record encoder: a free function building a dictionary with one entry
/// per field.
pub open spec fn struct_encoding_code(s: Struct) -> Seq<char> {
    "func toJSON(_ v: "@ + s.name@ + ") -> Any {\n"@ + "    return [\n"@
        + struct_encode_lines(s.fields@) + "    ] as [String: Any]\n"@ + "}\n"@
}

/// One constructor argument of the record decoder: the field is looked up
/// by key; the forced unwrap fails fatally if the key is absent.
pub open spec fn struct_decode_entry(f: StructField) -> Seq<char> {
    "        "@ + f.name@ + ": fromJSON(o[\""@ + f.name@ + "\"]!)"@
}

/// The constructor arguments of the record decoder, comma-separated, in
/// declared field order.
pub open spec fn struct_decode_entries(fields: Seq<StructField>) -> Seq<char>
    decreases fields.len(),
{
    if fields.len() == 0 {
        Seq::empty()
    } else if fields.len() == 1 {
        struct_decode_entry(fields[0])
    } else {
        struct_decode_entries(fields.drop_last()) + ",\n"@ + struct_decode_entry(fields.last())
    }
}

/// The record decoder: a free function recovering each field by key and
/// reconstructing the record.
pub open spec fn struct_decoding_code(s: Struct) -> Seq<char> {
    "func fromJSON(_ j: Any) -> "@ + s.name@ + " {\n"@ + "    let o = j as! [String: Any]\n"@
        + "    let r = "@ + s.name@ + "(\n"@ + struct_decode_entries(s.fields@) + ")\n"@
        + "    return r\n"@ + "}\n"@
}

/// Everything emitted for one record: its declaration, then its codec.
pub open spec fn struct_code(s: Struct) -> Seq<char> {
    struct_decl_code(s) + struct_encoding_code(s) + struct_decoding_code(s)
}

impl Struct {
    /// Renders the member lines of this record's declaration.
    pub fn gen_members(&self) -> (s: String)
        ensures
            s@ == struct_members_code(self.fields@),
    {
        let mut s = String::new();
        let mut i: usize = 0;
        while i < self.fields.len()
            invariant
                i <= self.fields@.len(),
                s@ == struct_members_code(self.fields@.take(i as int)),
            decreases self.fields@.len() - i,
        {
            let f = &self.fields[i];
            s.append("    var ");
            s.append(f.name.as_str());
            s.append(": ");
            let t = f.ty.gen_swift_code();
            s.append(t.as_str());
            s.append("\n");
            i += 1;
            proof {
                let fs = self.fields@;
                assert(fs.take(i as int).drop_last() =~= fs.take(i as int - 1));
                assert(fs.take(i as int).last() == fs[i as int - 1]);
                assert(s@ =~= struct_members_code(fs.take(i as int)));
            }
        }
        proof {
            assert(self.fields@.take(self.fields@.len() as int) =~= self.fields@);
        }
        s
    }

    /// Renders the record encoder: one dictionary entry per field, key equal
    /// to the field name, built in declared field order.
    pub fn gen_encoding(&self) -> (s: String)
        ensures
            s@ == struct_encoding_code(*self),
    {
        let mut s = String::from_str("func toJSON(_ v: ");
        s.append(self.name.as_str());
        s.append(") -> Any {\n");
        s.append("    return [\n");
        let ghost header = "func toJSON(_ v: "@ + self.name@ + ") -> Any {\n"@ + "    return [\n"@;
        proof {
            assert(s@ =~= header);
        }
        let mut i: usize = 0;
        while i < self.fields.len()
            invariant
                i <= self.fields@.len(),
                s@ == header + struct_encode_lines(self.fields@.take(i as int)),
            decreases self.fields@.len() - i,
        {
            s.append("            \"");
            s.append(self.fields[i].name.as_str());
            s.append("\": toJSON(v.");
            s.append(self.fields[i].name.as_str());
            s.append("),\n");
            i += 1;
            proof {
                let fs = self.fields@;
                assert(fs.take(i as int).drop_last() =~= fs.take(i as int - 1));
                assert(fs.take(i as int).last() == fs[i as int - 1]);
                assert(s@ =~= header + struct_encode_lines(fs.take(i as int)));
            }
        }
        s.append("    ] as [String: Any]\n");
        s.append("}\n");
        proof {
            assert(self.fields@.take(self.fields@.len() as int) =~= self.fields@);
            assert(s@ =~= struct_encoding_code(*self));
        }
        s
    }

    /// Renders the record decoder: each field is recovered by key, in
    /// declared order; a missing key fails fatally in the generated code.
    pub fn gen_decoding(&self) -> (s: String)
        ensures
            s@ == struct_decoding_code(*self),
    {
        let mut s = String::from_str("func fromJSON(_ j: Any) -> ");
        s.append(self.name.as_str());
        s.append(" {\n");
        s.append("    let o = j as! [String: Any]\n");
        s.append("    let r = ");
        s.append(self.name.as_str());
        s.append("(\n");
        let ghost header = "func fromJSON(_ j: Any) -> "@ + self.name@ + " {\n"@
            + "    let o = j as! [String: Any]\n"@ + "    let r = "@ + self.name@ + "(\n"@;
        proof {
            assert(s@ =~= header);
        }
        let mut i: usize = 0;
        while i < self.fields.len()
            invariant
                i <= self.fields@.len(),
                s@ == header + struct_decode_entries(self.fields@.take(i as int)),
            decreases self.fields@.len() - i,
        {
            if i > 0 {
                s.append(",\n");
            }
            s.append("        ");
            s.append(self.fields[i].name.as_str());
            s.append(": fromJSON(o[\"");
            s.append(self.fields[i].name.as_str());
            s.append("\"]!)");
            i += 1;
            proof {
                let fs = self.fields@;
                assert(fs.take(i as int).drop_last() =~= fs.take(i as int - 1));
                assert(fs.take(i as int).last() == fs[i as int - 1]);
                if i == 1 {
                    assert(fs.take(1)[0] == fs[0]);
                }
                assert(s@ =~= header + struct_decode_entries(fs.take(i as int)));
            }
        }
        s.append(")\n");
        s.append("    return r\n");
        s.append("}\n");
        proof {
            assert(self.fields@.take(self.fields@.len() as int) =~= self.fields@);
            assert(s@ =~= struct_decoding_code(*self));
        }
        s
    }

    /// Renders everything this record contributes to the output: its
    /// declaration followed by its codec logic.
    pub fn gen_swift_code(&self) -> (s: String)
        ensures
            s@ == struct_code(*self),
    {
        let mut s = String::from_str("struct ");
        s.append(self.name.as_str());
        s.append(": Codable {\n");
        let m = self.gen_members();
        s.append(m.as_str());
        s.append("}\n");
        let e = self.gen_encoding();
        s.append(e.as_str());
        let d = self.gen_decoding();
        s.append(d.as_str());
        proof {
            assert(s@ =~= struct_code(*self));
        }
        s
    }
}

/// One payload position of a variant's case line: the bare type for an
/// unnamed (positional) field, `name: type` for a named one.
pub open spec fn variant_field_code(f: StructField) -> Seq<char> {
    if f.name@.len() == 0 {
        type_code(f.ty)
    } else {
        f.name@ + ": "@ + type_code(f.ty)
    }
}

/// The comma-separated payload list of a variant's case line, in declared
/// field order.
pub open spec fn variant_fields_code(fields: Seq<StructField>) -> Seq<char>
    decreases fields.len(),
{
    if fields.len() == 0 {
        Seq::empty()
    } else if fields.len() == 1 {
        variant_field_code(fields[0])
    } else {
        variant_fields_code(fields.drop_last()) + ", "@ + variant_field_code(fields.last())
    }
}

/// One case line of a tagged-union declaration: no payload syntax for a
/// fieldless variant, a parenthesized payload list otherwise.
pub open spec fn enum_member_line(v: EnumVariant) -> Seq<char> {
    "    case "@ + v.name@ + (if v.fields@.len() > 0 {
        "("@ + variant_fields_code(v.fields@) + ")"@
    } else {
        Seq::<char>::empty()
    }) + "\n"@
}

/// The case lines of a tagged-union declaration, in declared variant order.
pub open spec fn enum_members_code(variants: Seq<EnumVariant>) -> Seq<char>
    decreases variants.len(),
{
    if variants.len() == 0 {
        Seq::empty()
    } else {
        enum_members_code(variants.drop_last()) + enum_member_line(variants.last())
    }
}

/// The pattern binder for one payload position of the union encoder.
pub open spec fn binder(i: nat) -> Seq<char> {
    "let f"@ + dec_str(i)
}

/// The comma-separated binder list for a variant with `n` payload fields.
pub open spec fn binder_list(n: nat) -> Seq<char>
    decreases n,
{
    if n == 0 {
        Seq::empty()
    } else if n == 1 {
        binder(0)
    } else {
        binder_list((n - 1) as nat) + ", "@ + binder((n - 1) as nat)
    }
}

/// The encoder lines writing the `n` payload fields to the token stream, in
/// declared order, after the discriminant.
pub open spec fn encode_field_lines(n: nat) -> Seq<char>
    decreases n,
{
    if n == 0 {
        Seq::empty()
    } else {
        encode_field_lines((n - 1) as nat) + "            try c.encode(f"@ + dec_str(
            (n - 1) as nat,
        ) + ")\n"@
    }
}

/// One dispatch arm of the union encoder: it writes the variant's name as
/// the discriminant first, then each payload field in declared order.
pub open spec fn enum_encode_case(v: EnumVariant) -> Seq<char> {
    "        case ."@ + v.name@ + (if v.fields@.len() > 0 {
        "("@ + binder_list(v.fields@.len()) + "):\n"@
    } else {
        ":\n"@
    }) + "            try c.encode(\""@ + v.name@ + "\")\n"@ + encode_field_lines(
        v.fields@.len(),
    )
}

/// The dispatch arms of the union encoder, in declared variant order.
pub open spec fn enum_encode_cases(variants: Seq<EnumVariant>) -> Seq<char>
    decreases variants.len(),
{
    if variants.len() == 0 {
        Seq::empty()
    } else {
        enum_encode_cases(variants.drop_last()) + enum_encode_case(variants.last())
    }
}

/// The union encoder: dispatch on the variant, write the discriminant, then
/// the payload fields in declared order.
pub open spec fn enum_encoding_code(e: Enum) -> Seq<char> {
    "    func encode(to encoder: Encoder) throws {\n"@
        + "        var c = encoder.unkeyedContainer()\n"@ + "        switch self {\n"@
        + enum_encode_cases(e.variants@) + "        }\n"@ + "    }\n"@
}

/// One payload read of the union decoder; the final read closes the
/// constructor call, the others are followed by a comma.
pub open spec fn decode_field_line(f: StructField, closing: bool) -> Seq<char> {
    "                try dec.decode("@ + type_code(f.ty) + ".self)"@ + (if closing {
        ")"@
    } else {
        ","@
    }) + "\n"@
}

/// The non-final payload reads of one decoder arm, in declared order.
pub open spec fn decode_front_lines(fields: Seq<StructField>) -> Seq<char>
    decreases fields.len(),
{
    if fields.len() == 0 {
        Seq::empty()
    } else {
        decode_front_lines(fields.drop_last()) + decode_field_line(fields.last(), false)
    }
}

/// All payload reads of one decoder arm: exactly one read per declared
/// field, the last one closing the constructor call.
pub open spec fn decode_lines(fields: Seq<StructField>) -> Seq<char>
    recommends
        fields.len() > 0,
{
    decode_front_lines(fields.drop_last()) + decode_field_line(fields.last(), true)
}

/// One dispatch arm of the union decoder: an exact string match on the
/// variant name, then one read per declared field.
pub open spec fn enum_decode_case(v: EnumVariant) -> Seq<char> {
    "        case \""@ + v.name@ + "\":\n"@ + "            self = ."@ + v.name@ + (if v.fields@.len()
        > 0 {
        "(\n"@ + decode_lines(v.fields@)
    } else {
        "\n"@
    })
}

/// The dispatch arms of the union decoder, in declared variant order.
pub open spec fn enum_decode_cases(variants: Seq<EnumVariant>) -> Seq<char>
    decreases variants.len(),
{
    if variants.len() == 0 {
        Seq::empty()
    } else {
        enum_decode_cases(variants.drop_last()) + enum_decode_case(variants.last())
    }
}

/// The union decoder: it reads the discriminant token first, dispatches via
/// exact string match against the variant names, and fails fatally on an
/// unrecognized tag.
pub open spec fn enum_decoding_code(e: Enum) -> Seq<char> {
    "    init(from decoder: Decoder) throws {\n"@
        + "        var dec = try decoder.unkeyedContainer()\n"@
        + "        let n = try dec.decode(String.self)\n"@ + "        switch n {\n"@
        + enum_decode_cases(e.variants@) + "        default:\n"@
        + "            preconditionFailure()\n"@ + "        }\n"@ + "    }\n"@
}

/// Everything emitted for one tagged union: declaration cases, decoder,
/// encoder, inside one braced block.
pub open spec fn enum_code(e: Enum) -> Seq<char> {
    "enum "@ + e.name@ + ": Codable {\n"@ + enum_members_code(e.variants@) + enum_decoding_code(e)
        + enum_encoding_code(e) + "}\n"@
}

/// Renders the comma-separated payload list of one variant.
fn gen_variant_fields(fields: &Vec<StructField>) -> (s: String)
    ensures
        s@ == variant_fields_code(fields@),
{
    let mut s = String::new();
    let mut i: usize = 0;
    while i < fields.len()
        invariant
            i <= fields@.len(),
            s@ == variant_fields_code(fields@.take(i as int)),
        decreases fields@.len() - i,
    {
        if i > 0 {
            s.append(", ");
        }
        let f = &fields[i];
        if !f.name.as_str().is_empty() {
            s.append(f.name.as_str());
            s.append(": ");
        }
        let t = f.ty.gen_swift_code();
        s.append(t.as_str());
        i += 1;
        proof {
            assert(fields@.take(i as int).drop_last() =~= fields@.take(i as int - 1));
            assert(fields@.take(i as int).last() == fields@[i as int - 1]);
            if i == 1 {
                assert(fields@.take(1)[0] == fields@[0]);
            }
            assert(s@ =~= variant_fields_code(fields@.take(i as int)));
        }
    }
    proof {
        assert(fields@.take(fields@.len() as int) =~= fields@);
    }
    s
}

/// Renders the binder list `let f0, let f1, …` for `n` payload fields.
fn gen_binder_list(n: usize) -> (s: String)
    ensures
        s@ == binder_list(n as nat),
{
    let mut s = String::new();
    let mut i: usize = 0;
    while i < n
        invariant
            i <= n,
            s@ == binder_list(i as nat),
        decreases n - i,
    {
        if i > 0 {
            s.append(", ");
        }
        s.append("let f");
        let num = usize_to_string(i);
        s.append(num.as_str());
        i += 1;
        proof {
            assert(s@ =~= binder_list(i as nat));
        }
    }
    s
}

/// Renders the encoder lines writing the `n` payload fields.
fn gen_encode_field_lines(n: usize) -> (s: String)
    ensures
        s@ == encode_field_lines(n as nat),
{
    let mut s = String::new();
    let mut i: usize = 0;
    while i < n
        invariant
            i <= n,
            s@ == encode_field_lines(i as nat),
        decreases n - i,
    {
        s.append("            try c.encode(f");
        let num = usize_to_string(i);
        s.append(num.as_str());
        s.append(")\n");
        i += 1;
        proof {
            assert(s@ =~= encode_field_lines(i as nat));
        }
    }
    s
}

/// Renders one dispatch arm of the union encoder.
fn gen_encode_case(v: &EnumVariant) -> (s: String)
    ensures
        s@ == enum_encode_case(*v),
{
    let mut s = String::from_str("        case .");
    s.append(v.name.as_str());
    if v.fields.len() > 0 {
        s.append("(");
        let bl = gen_binder_list(v.fields.len());
        s.append(bl.as_str());
        s.append("):\n");
    } else {
        s.append(":\n");
    }
    s.append("            try c.encode(\"");
    s.append(v.name.as_str());
    s.append("\")\n");
    let fl = gen_encode_field_lines(v.fields.len());
    s.append(fl.as_str());
    proof {
        assert(s@ =~= enum_encode_case(*v));
    }
    s
}

/// Renders one dispatch arm of the union decoder.
fn gen_decode_case(v: &EnumVariant) -> (s: String)
    ensures
        s@ == enum_decode_case(*v),
{
    let mut s = String::from_str("        case \"");
    s.append(v.name.as_str());
    s.append("\":\n");
    s.append("            self = .");
    s.append(v.name.as_str());
    if v.fields.len() > 0 {
        s.append("(\n");
        let ghost pre = s@;
        let mut fi: usize = 0;
        while fi < v.fields.len()
            invariant
                fi <= v.fields@.len(),
                v.fields@.len() > 0,
                fi < v.fields@.len() ==> s@ == pre + decode_front_lines(v.fields@.take(fi as int)),
                fi == v.fields@.len() ==> s@ == pre + decode_lines(v.fields@),
            decreases v.fields@.len() - fi,
        {
            let f = &v.fields[fi];
            s.append("                try dec.decode(");
            let t = f.ty.gen_swift_code();
            s.append(t.as_str());
            s.append(".self)");
            if fi + 1 < v.fields.len() {
                s.append(",");
            } else {
                s.append(")");
            }
            s.append("\n");
            fi += 1;
            proof {
                let fs = v.fields@;
                assert(fs.take(fi as int).drop_last() =~= fs.take(fi as int - 1));
                assert(fs.take(fi as int).last() == fs[fi as int - 1]);
                if fi < fs.len() {
                    assert(s@ =~= pre + decode_front_lines(fs.take(fi as int)));
                } else {
                    assert(fs.take(fi as int) =~= fs);
                    assert(fs.take(fi as int - 1) =~= fs.drop_last());
                    assert(s@ =~= pre + decode_lines(fs));
                }
            }
        }
        proof {
            assert(s@ =~= enum_decode_case(*v));
        }
    } else {
        s.append("\n");
        proof {
            assert(s@ =~= enum_decode_case(*v));
        }
    }
    s
}

impl Enum {
    /// Renders the case lines of this union's declaration: no payload syntax
    /// for a fieldless variant, positional types for unnamed fields,
    /// `name: type` pairs for named ones.
    pub fn gen_members(&self) -> (s: String)
        ensures
            s@ == enum_members_code(self.variants@),
    {
        let mut s = String::new();
        let mut i: usize = 0;
        while i < self.variants.len()
            invariant
                i <= self.variants@.len(),
                s@ == enum_members_code(self.variants@.take(i as int)),
            decreases self.variants@.len() - i,
        {
            let v = &self.variants[i];
            s.append("    case ");
            s.append(v.name.as_str());
            if v.fields.len() > 0 {
                s.append("(");
                let fs = gen_variant_fields(&v.fields);
                s.append(fs.as_str());
                s.append(")");
            }
            s.append("\n");
            i += 1;
            proof {
                let vs = self.variants@;
                assert(vs.take(i as int).drop_last() =~= vs.take(i as int - 1));
                assert(vs.take(i as int).last() == vs[i as int - 1]);
                assert(s@ =~= enum_members_code(vs.take(i as int)));
            }
        }
        proof {
            assert(self.variants@.take(self.variants@.len() as int) =~= self.variants@);
        }
        s
    }

    /// Renders the union encoder: per variant, the discriminant is written
    /// first, then each payload field in declared order.
    pub fn gen_encoding(&self) -> (s: String)
        ensures
            s@ == enum_encoding_code(*self),
    {
        let mut s = String::from_str("    func encode(to encoder: Encoder) throws {\n");
        s.append("        var c = encoder.unkeyedContainer()\n");
        s.append("        switch self {\n");
        let ghost header = "    func encode(to encoder: Encoder) throws {\n"@
            + "        var c = encoder.unkeyedContainer()\n"@ + "        switch self {\n"@;
        proof {
            assert(s@ =~= header);
        }
        let mut i: usize = 0;
        while i < self.variants.len()
            invariant
                i <= self.variants@.len(),
                s@ == header + enum_encode_cases(self.variants@.take(i as int)),
            decreases self.variants@.len() - i,
        {
            let c = gen_encode_case(&self.variants[i]);
            s.append(c.as_str());
            i += 1;
            proof {
                let vs = self.variants@;
                assert(vs.take(i as int).drop_last() =~= vs.take(i as int - 1));
                assert(vs.take(i as int).last() == vs[i as int - 1]);
                assert(s@ =~= header + enum_encode_cases(vs.take(i as int)));
            }
        }
        s.append("        }\n");
        s.append("    }\n");
        proof {
            assert(self.variants@.take(self.variants@.len() as int) =~= self.variants@);
            assert(s@ =~= enum_encoding_code(*self));
        }
        s
    }

    /// Renders the union decoder: the discriminant is read first and matched
    /// exactly against the variant names; the matched arm reads one token
    /// per declared field; an unrecognized tag fails fatally.
    pub fn gen_decoding(&self) -> (s: String)
        ensures
            s@ == enum_decoding_code(*self),
    {
        let mut s = String::from_str("    init(from decoder: Decoder) throws {\n");
        s.append("        var dec = try decoder.unkeyedContainer()\n");
        s.append("        let n = try dec.decode(String.self)\n");
        s.append("        switch n {\n");
        let ghost header = "    init(from decoder: Decoder) throws {\n"@
            + "        var dec = try decoder.unkeyedContainer()\n"@
            + "        let n = try dec.decode(String.self)\n"@ + "        switch n {\n"@;
        proof {
            assert(s@ =~= header);
        }
        let mut i: usize = 0;
        while i < self.variants.len()
            invariant
                i <= self.variants@.len(),
                s@ == header + enum_decode_cases(self.variants@.take(i as int)),
            decreases self.variants@.len() - i,
        {
            let c = gen_decode_case(&self.variants[i]);
            s.append(c.as_str());
            i += 1;
            proof {
                let vs = self.variants@;
                assert(vs.take(i as int).drop_last() =~= vs.take(i as int - 1));
                assert(vs.take(i as int).last() == vs[i as int - 1]);
                assert(s@ =~= header + enum_decode_cases(vs.take(i as int)));
            }
        }
        s.append("        default:\n");
        s.append("            preconditionFailure()\n");
        s.append("        }\n");
        s.append("    }\n");
        proof {
            assert(self.variants@.take(self.variants@.len() as int) =~= self.variants@);
            assert(s@ =~= enum_decoding_code(*self));
        }
        s
    }

    /// Renders everything this union contributes to the output: its case
    /// declarations, its decoder, and its encoder, inside one braced block.
    pub fn gen_swift_code(&self) -> (s: String)
        ensures
            s@ == enum_code(*self),
    {
        let mut s = String::from_str("enum ");
        s.append(self.name.as_str());
        s.append(": Codable {\n");
        let m = self.gen_members();
        s.append(m.as_str());
        let d = self.gen_decoding();
        s.append(d.as_str());
        let e = self.gen_encoding();
        s.append(e.as_str());
        s.append("}\n");
        proof {
            assert(s@ =~= enum_code(*self));
        }
        s
    }
}

/// Everything emitted for one schema item, by dispatch on its kind. A
/// nested module is flattened: its children are rendered as if they were
/// siblings, with no enclosing namespace syntax.
pub open spec fn item_code(it: Item) -> Seq<char>
    decreases it,
{
    match it {
        Item::Module(m) => module_code(m),
        Item::Enum(e) => enum_code(e),
        Item::Struct(s) => struct_code(s),
    }
}

/// The items' texts concatenated in schema order, separated by a blank
/// line.
pub open spec fn items_code(items: Seq<Item>) -> Seq<char>
    decreases items,
{
    if items.len() == 0 {
        Seq::empty()
    } else if items.len() == 1 {
        item_code(items[0])
    } else {
        items_code(items.drop_last()) + "\n\n\n"@ + item_code(items.last())
    }
}

/// The whole output for a module: each child item's declaration and codec
/// text, concatenated in schema order.
pub open spec fn module_code(m: Module) -> Seq<char>
    decreases m,
{
    items_code(m.items@)
}

impl Item {
    /// Renders one schema item by dispatching on its kind.
    pub fn gen_swift_code(&self) -> (s: String)
        ensures
            s@ == item_code(*self),
        decreases self,
    {
        match self {
            Item::Module(m) => m.gen_swift_code(),
            Item::Enum(e) => e.gen_swift_code(),
            Item::Struct(st) => st.gen_swift_code(),
        }
    }
}

impl Module {
    /// The tree walker: renders every child item in schema order,
    /// blank-line-separated, and returns the single output blob. Total:
    /// generation never fails, whatever the tree holds.
    pub fn gen_swift_code(&self) -> (s: String)
        ensures
            s@ == module_code(*self),
        decreases self,
    {
        let mut s = String::new();
        let mut i: usize = 0;
        while i < self.items.len()
            invariant
                i <= self.items@.len(),
                s@ == items_code(self.items@.take(i as int)),
            decreases self.items@.len() - i,
        {
            if i > 0 {
                s.append("\n\n\n");
            }
            let t = self.items[i].gen_swift_code();
            s.append(t.as_str());
            i += 1;
            proof {
                let its = self.items@;
                assert(its.take(i as int).drop_last() =~= its.take(i as int - 1));
                assert(its.take(i as int).last() == its[i as int - 1]);
                if i == 1 {
                    assert(its.take(1)[0] == its[0]);
                }
                assert(s@ =~= items_code(its.take(i as int)));
            }
        }
        proof {
            assert(self.items@.take(self.items@.len() as int) =~= self.items@);
        }
        s
    }
}

/// The payload list a positional (all-unnamed) variant declares: the mapped
/// types alone, comma-separated.
pub open spec fn positional_payload(fields: Seq<StructField>) -> Seq<char>
    decreases fields.len(),
{
    if fields.len() == 0 {
        Seq::empty()
    } else if fields.len() == 1 {
        type_code(fields[0].ty)
    } else {
        positional_payload(fields.drop_last()) + ", "@ + type_code(fields.last().ty)
    }
}

/// The payload list a record-form (all-named) variant declares:
/// `name: type` pairs, comma-separated.
pub open spec fn named_payload(fields: Seq<StructField>) -> Seq<char>
    decreases fields.len(),
{
    if fields.len() == 0 {
        Seq::empty()
    } else if fields.len() == 1 {
        fields[0].name@ + ": "@ + type_code(fields[0].ty)
    } else {
        named_payload(fields.drop_last()) + ", "@ + fields.last().name@ + ": "@ + type_code(
            fields.last().ty,
        )
    }
}

/// Dispatch correctness, positional form: a variant whose fields are all
/// unnamed declares a positional payload — the mapped types alone, with no
/// field names.
pub proof fn lemma_positional_dispatch(v: EnumVariant)
    requires
        variant_positional(v),
        v.fields@.len() > 0,
    ensures
        enum_member_line(v) == "    case "@ + v.name@ + ("("@ + positional_payload(v.fields@)
            + ")"@) + "\n"@,
{
    lemma_positional_payload(v.fields@);
}

/// Dispatch correctness, record form: a variant whose fields all carry a
/// non-empty name declares a named payload — `name: type` pairs.
pub proof fn lemma_named_dispatch(v: EnumVariant)
    requires
        variant_named(v),
        v.fields@.len() > 0,
    ensures
        enum_member_line(v) == "    case "@ + v.name@ + ("("@ + named_payload(v.fields@) + ")"@)
            + "\n"@,
{
    lemma_named_payload(v.fields@);
}

/// For all-unnamed fields the declared payload list is exactly the mapped
/// types.
pub proof fn lemma_positional_payload(fields: Seq<StructField>)
    requires
        forall|i: int| 0 <= i < fields.len() ==> #[trigger] fields[i].name@.len() == 0,
    ensures
        variant_fields_code(fields) == positional_payload(fields),
    decreases fields.len(),
{
    if fields.len() > 1 {
        assert(forall|i: int|
            0 <= i < fields.drop_last().len() ==> #[trigger] fields.drop_last()[i].name@.len()
                == 0);
        lemma_positional_payload(fields.drop_last());
    }
}

/// For all-named fields the declared payload list is exactly the
/// `name: type` pairs.
pub proof fn lemma_named_payload(fields: Seq<StructField>)
    requires
        forall|i: int| 0 <= i < fields.len() ==> #[trigger] fields[i].name@.len() > 0,
    ensures
        variant_fields_code(fields) == named_payload(fields),
    decreases fields.len(),
{
    if fields.len() > 1 {
        assert(forall|i: int|
            0 <= i < fields.drop_last().len() ==> #[trigger] fields.drop_last()[i].name@.len() > 0);
        lemma_named_payload(fields.drop_last());
    }
}

/// Determinism of generation: the output is a function of the schema tree
/// alone, so generating twice from the same tree yields identical text.
pub proof fn lemma_generation_deterministic(m: Module, s1: Seq<char>, s2: Seq<char>)
    requires
        s1 == module_code(m),
        s2 == module_code(m),
    ensures
        s1 == s2,
{
}

} // verus!
