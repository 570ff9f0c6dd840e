//! Semantic model of the two wire conventions the generated code
//! implements: the dictionary codec for records (one entry per field, keyed
//! by field name) and the tagged positional codec for unions (the variant
//! name as discriminant, then the payload fields in declared order).
//!
//! Compatibility of generated bindings is defined purely by these two
//! conventions, so they are modelled here directly — `encode`/`decode` pairs
//! over wire values — and the mandatory round-trip laws are proved of them.

use vstd::prelude::*;
use crate::schema::Enum;
use crate::schema::EnumVariant;
use crate::schema::Struct;
use crate::schema::StructField;
use crate::schema::enum_wf;
use crate::schema::field_names_distinct;
use crate::schema::struct_wf;

verus! {

/// A wire value: what one encoded field occupies on the wire. Floating
/// point values travel as their IEEE 754 bit patterns; a record encodes as
/// a dictionary, a union as a token stream.
#[derive(Debug, PartialEq, Eq)]
pub enum Value {
    Bool(bool),
    Int(i64),
    UInt(u64),
    F32Bits(u32),
    F64Bits(u64),
    Text(String),
    Null,
    List(Vec<Value>),
    Dict(Vec<DictEntry>),
}

/// One entry of an encoded record: a key (the field name) and the encoded
/// field value.
#[derive(Debug, PartialEq, Eq)]
pub struct DictEntry {
    pub key: String,
    pub value: Value,
}

/// The mathematical model of a wire value: strings become character
/// sequences, containers become sequences.
#[verifier::ext_equal]
pub enum Val {
    Bool(bool),
    Int(i64),
    UInt(u64),
    F32Bits(u32),
    F64Bits(u64),
    Text(Seq<char>),
    Null,
    List(Seq<Val>),
    Dict(Seq<(Seq<char>, Val)>),
}

/// The model of one wire value.
pub open spec fn value_model(v: Value) -> Val
    decreases v,
{
    match v {
        Value::Bool(b) => Val::Bool(b),
        Value::Int(x) => Val::Int(x),
        Value::UInt(x) => Val::UInt(x),
        Value::F32Bits(x) => Val::F32Bits(x),
        Value::F64Bits(x) => Val::F64Bits(x),
        Value::Text(s) => Val::Text(s@),
        Value::Null => Val::Null,
        Value::List(items) => Val::List(list_model(items@)),
        Value::Dict(entries) => Val::Dict(dict_model(entries@)),
    }
}

/// The models of a sequence of wire values, element for element.
pub open spec fn list_model(items: Seq<Value>) -> Seq<Val>
    decreases items,
{
    if items.len() == 0 {
        Seq::empty()
    } else {
        list_model(items.drop_last()).push(value_model(items.last()))
    }
}

/// The models of a dictionary's entries, element for element.
pub open spec fn dict_model(entries: Seq<DictEntry>) -> Seq<(Seq<char>, Val)>
    decreases entries,
{
    if entries.len() == 0 {
        Seq::empty()
    } else {
        dict_model(entries.drop_last()).push(
            (entries.last().key@, value_model(entries.last().value)),
        )
    }
}

impl View for Value {
    type V = Val;

    open spec fn view(&self) -> Val {
        value_model(*self)
    }
}

/// `list_model` is the element-wise model of its argument.
pub proof fn lemma_list_model(items: Seq<Value>)
    ensures
        list_model(items).len() == items.len(),
        forall|i: int| 0 <= i < items.len() ==> list_model(items)[i] == value_model(#[trigger] items[i]),
    decreases items.len(),
{
    if items.len() > 0 {
        lemma_list_model(items.drop_last());
        assert forall|i: int|
            0 <= i < items.len() implies list_model(items)[i] == value_model(
            #[trigger] items[i],
        ) by {
            if i < items.len() - 1 {
                assert(items.drop_last()[i] == items[i]);
                assert(list_model(items)[i] == list_model(items.drop_last())[i]);
            } else {
                assert(items[i] == items.last());
            }
        }
    }
}

/// `dict_model` is the element-wise model of its argument.
pub proof fn lemma_dict_model(entries: Seq<DictEntry>)
    ensures
        dict_model(entries).len() == entries.len(),
        forall|i: int|
            0 <= i < entries.len() ==> dict_model(entries)[i] == ((#[trigger] entries[i]).key@,
            value_model(entries[i].value)),
    decreases entries.len(),
{
    if entries.len() > 0 {
        lemma_dict_model(entries.drop_last());
        assert forall|i: int|
            0 <= i < entries.len() implies dict_model(entries)[i] == ((#[trigger] entries[i]).key@,
        value_model(entries[i].value)) by {
            if i < entries.len() - 1 {
                assert(entries.drop_last()[i] == entries[i]);
                assert(dict_model(entries)[i] == dict_model(entries.drop_last())[i]);
            } else {
                assert(entries[i] == entries.last());
            }
        }
    }
}

/// A deep copy of a wire value; the copy models the same value.
pub fn clone_value(v: &Value) -> (r: Value)
    ensures
        r@ == v@,
    decreases v,
{
    match v {
        Value::Bool(b) => Value::Bool(*b),
        Value::Int(x) => Value::Int(*x),
        Value::UInt(x) => Value::UInt(*x),
        Value::F32Bits(x) => Value::F32Bits(*x),
        Value::F64Bits(x) => Value::F64Bits(*x),
        Value::Text(s) => Value::Text(s.clone()),
        Value::Null => Value::Null,
        Value::List(items) => {
            let mut out: Vec<Value> = Vec::new();
            let mut i: usize = 0;
            while i < items.len()
                invariant
                    i <= items@.len(),
                    out@.len() == i,
                    forall|j: int| 0 <= j < i ==> out@[j]@ == #[trigger] items@[j]@,
                    forall|j: int| 0 <= j < items@.len() ==> decreases_to!(*v => items@[j]),
                decreases items@.len() - i,
            {
                let c = clone_value(&items[i]);
                out.push(c);
                i += 1;
            }
            let r = Value::List(out);
            proof {
                lemma_list_model(out@);
                lemma_list_model(items@);
                assert forall|j: int|
                    0 <= j < items@.len() implies list_model(out@)[j] == list_model(
                    items@,
                )[j] by {
                    assert(out@[j]@ == items@[j]@);
                }
                assert(list_model(out@) =~= list_model(items@));
            }
            r
        },
        Value::Dict(entries) => {
            let mut out: Vec<DictEntry> = Vec::new();
            let mut i: usize = 0;
            while i < entries.len()
                invariant
                    i <= entries@.len(),
                    out@.len() == i,
                    forall|j: int|
                        0 <= j < i ==> out@[j].key@ == #[trigger] entries@[j].key@
                            && out@[j].value@ == entries@[j].value@,
                    forall|j: int|
                        0 <= j < entries@.len() ==> decreases_to!(*v => entries@[j].value),
                decreases entries@.len() - i,
            {
                let key = entries[i].key.clone();
                let c = clone_value(&entries[i].value);
                out.push(DictEntry { key, value: c });
                i += 1;
            }
            let r = Value::Dict(out);
            proof {
                lemma_dict_model(out@);
                lemma_dict_model(entries@);
                assert forall|j: int|
                    0 <= j < entries@.len() implies dict_model(out@)[j] == dict_model(
                    entries@,
                )[j] by {
                    assert(out@[j].key@ == entries@[j].key@);
                    assert(out@[j].value@ == entries@[j].value@);
                }
                assert(dict_model(out@) =~= dict_model(entries@));
            }
            r
        },
    }
}

/// First-match lookup in a dictionary model, scanning from position `i`.
pub open spec fn dict_lookup_from(d: Seq<(Seq<char>, Val)>, key: Seq<char>, i: int) -> Option<Val>
    decreases d.len() - i,
{
    if i < 0 || i >= d.len() {
        None
    } else if d[i].0 == key {
        Some(d[i].1)
    } else {
        dict_lookup_from(d, key, i + 1)
    }
}

/// The value a dictionary holds under a key: the first entry whose key
/// matches, if any.
pub open spec fn dict_lookup(d: Seq<(Seq<char>, Val)>, key: Seq<char>) -> Option<Val> {
    dict_lookup_from(d, key, 0)
}

/// The dictionary the record codec produces: one entry per field, the key
/// equal to the field name, the value the given field value, in declared
/// field order.
pub open spec fn struct_encoding(fields: Seq<StructField>, vals: Seq<Val>) -> Seq<(Seq<char>, Val)>
    recommends
        vals.len() == fields.len(),
{
    Seq::new(fields.len(), |i: int| (fields[i].name@, vals[i]))
}

/// What the record decoder recovers: each field looked up by name, in
/// declared order. `None` models the fatal failure on a missing key.
pub open spec fn struct_decoding(fields: Seq<StructField>, d: Seq<(Seq<char>, Val)>) -> Option<
    Seq<Val>,
>
    decreases fields.len(),
{
    if fields.len() == 0 {
        Some(Seq::empty())
    } else {
        match struct_decoding(fields.drop_last(), d) {
            Option::None => None,
            Option::Some(vs) => match dict_lookup(d, fields.last().name@) {
                Option::None => None,
                Option::Some(v) => Some(vs.push(v)),
            },
        }
    }
}

/// The model of a pushed sequence is the pushed model.
pub proof fn lemma_list_model_push(items: Seq<Value>, v: Value)
    ensures
        list_model(items.push(v)) == list_model(items).push(value_model(v)),
{
    assert(items.push(v).drop_last() =~= items);
    assert(items.push(v).last() == v);
}

/// A lookup that fails for some field's name makes the whole record decode
/// fail.
proof fn lemma_decoding_missing(fields: Seq<StructField>, d: Seq<(Seq<char>, Val)>, j: int)
    requires
        0 <= j < fields.len(),
        dict_lookup(d, fields[j].name@) is None,
    ensures
        struct_decoding(fields, d) is None,
    decreases fields.len(),
{
    if j < fields.len() - 1 {
        assert(fields.drop_last()[j] == fields[j]);
        lemma_decoding_missing(fields.drop_last(), d, j);
    } else {
        assert(fields.last() == fields[j]);
    }
}

/// Looks up a key in an encoded record: the first entry whose key matches,
/// in entry order; the found value is returned as a copy.
fn dict_get(d: &Vec<DictEntry>, key: &String) -> (r: Option<Value>)
    ensures
        match r {
            Option::Some(v) => dict_lookup(dict_model(d@), key@) == Some(v@),
            Option::None => dict_lookup(dict_model(d@), key@) is None,
        },
{
    proof {
        lemma_dict_model(d@);
    }
    let mut i: usize = 0;
    while i < d.len()
        invariant
            i <= d@.len(),
            dict_lookup(dict_model(d@), key@) == dict_lookup_from(dict_model(d@), key@, i as int),
        decreases d@.len() - i,
    {
        proof {
            lemma_dict_model(d@);
        }
        if d[i].key == *key {
            let v = clone_value(&d[i].value);
            return Option::Some(v);
        }
        i += 1;
    }
    proof {
        lemma_dict_model(d@);
    }
    Option::None
}

impl Struct {
    /// The dictionary codec, encoding side: one record value — its field
    /// values, in declared order — becomes a dictionary keyed by field name.
    pub fn encode(&self, vals: &Vec<Value>) -> (d: Vec<DictEntry>)
        requires
            vals@.len() == self.fields@.len(),
        ensures
            dict_model(d@) == struct_encoding(self.fields@, list_model(vals@)),
    {
        let mut d: Vec<DictEntry> = Vec::new();
        let mut i: usize = 0;
        while i < self.fields.len()
            invariant
                i <= self.fields@.len(),
                vals@.len() == self.fields@.len(),
                d@.len() == i,
                forall|j: int|
                    0 <= j < i ==> (#[trigger] d@[j]).key@ == self.fields@[j].name@ && d@[j].value@
                        == vals@[j]@,
            decreases self.fields@.len() - i,
        {
            let key = self.fields[i].name.clone();
            let value = clone_value(&vals[i]);
            d.push(DictEntry { key, value });
            i += 1;
        }
        proof {
            lemma_dict_model(d@);
            lemma_list_model(vals@);
            assert forall|j: int|
                0 <= j < d@.len() implies dict_model(d@)[j] == struct_encoding(
                self.fields@,
                list_model(vals@),
            )[j] by {
                assert(d@[j].key@ == self.fields@[j].name@);
                assert(d@[j].value@ == vals@[j]@);
            }
            assert(dict_model(d@) =~= struct_encoding(self.fields@, list_model(vals@)));
        }
        d
    }

    /// The dictionary codec, decoding side: each field is looked up by name,
    /// in declared order. `None` — the modelled fatal failure — is returned
    /// if and only if some field's key is absent from the dictionary.
    pub fn decode(&self, d: &Vec<DictEntry>) -> (r: Option<Vec<Value>>)
        ensures
            match r {
                Option::Some(vals) => struct_decoding(self.fields@, dict_model(d@)) == Some(
                    list_model(vals@),
                ),
                Option::None => struct_decoding(self.fields@, dict_model(d@)) is None,
            },
    {
        let mut vals: Vec<Value> = Vec::new();
        let mut i: usize = 0;
        while i < self.fields.len()
            invariant
                i <= self.fields@.len(),
                struct_decoding(self.fields@.take(i as int), dict_model(d@)) == Some(
                    list_model(vals@),
                ),
            decreases self.fields@.len() - i,
        {
            let found = dict_get(d, &self.fields[i].name);
            match found {
                Option::Some(v) => {
                    proof {
                        lemma_list_model_push(vals@, v);
                    }
                    vals.push(v);
                },
                Option::None => {
                    proof {
                        lemma_decoding_missing(self.fields@, dict_model(d@), i as int);
                    }
                    return Option::None;
                },
            }
            i += 1;
            proof {
                let fs = self.fields@;
                assert(fs.take(i as int).drop_last() =~= fs.take(i as int - 1));
                assert(fs.take(i as int).last() == fs[i as int - 1]);
                assert(struct_decoding(fs.take(i as int), dict_model(d@)) == Some(
                    list_model(vals@),
                ));
            }
        }
        proof {
            assert(self.fields@.take(self.fields@.len() as int) =~= self.fields@);
        }
        Option::Some(vals)
    }
}

/// First-match search for a variant by name, scanning from position `i`.
pub open spec fn find_variant_from(variants: Seq<EnumVariant>, name: Seq<char>, i: int) -> Option<
    int,
>
    decreases variants.len() - i,
{
    if i < 0 || i >= variants.len() {
        None
    } else if variants[i].name@ == name {
        Some(i)
    } else {
        find_variant_from(variants, name, i + 1)
    }
}

/// The variant a discriminant token selects: the first variant with that
/// name, if any.
pub open spec fn find_variant(variants: Seq<EnumVariant>, name: Seq<char>) -> Option<int> {
    find_variant_from(variants, name, 0)
}

/// The token stream the union codec produces: the variant's name as the
/// discriminant, then the payload values in declared order.
pub open spec fn enum_encoding(name: Seq<char>, vals: Seq<Val>) -> Seq<Val> {
    seq![Val::Text(name)] + vals
}

/// What the union decoder recovers from a token stream: the discriminant is
/// read first and matched exactly against the variant names; the matched
/// variant's declared field count says how many payload tokens follow.
/// `None` models the fatal failure: an empty stream, a non-text
/// discriminant, an unrecognized tag, or too few payload tokens.
pub open spec fn enum_decoding(variants: Seq<EnumVariant>, tokens: Seq<Val>) -> Option<
    (int, Seq<Val>),
> {
    if tokens.len() == 0 {
        None
    } else {
        match tokens[0] {
            Val::Text(name) => match find_variant(variants, name) {
                Option::None => None,
                Option::Some(i) => {
                    let k = variants[i].fields@.len();
                    if tokens.len() >= 1 + k {
                        Some((i, tokens.subrange(1, 1 + k as int)))
                    } else {
                        None
                    }
                },
            },
            _ => None,
        }
    }
}

impl Enum {
    /// The tagged positional codec, encoding side: a union value — the index
    /// of its variant plus the payload values in declared order — becomes
    /// the token stream `[discriminant, field values…]`.
    pub fn encode(&self, tag: usize, vals: &Vec<Value>) -> (tokens: Vec<Value>)
        requires
            tag < self.variants@.len(),
            vals@.len() == self.variants@[tag as int].fields@.len(),
        ensures
            list_model(tokens@) == enum_encoding(
                self.variants@[tag as int].name@,
                list_model(vals@),
            ),
    {
        let mut tokens: Vec<Value> = Vec::new();
        tokens.push(Value::Text(self.variants[tag].name.clone()));
        let mut i: usize = 0;
        while i < vals.len()
            invariant
                i <= vals@.len(),
                tokens@.len() == i + 1,
                tokens@[0]@ == Val::Text(self.variants@[tag as int].name@),
                forall|j: int| 0 <= j < i ==> (#[trigger] tokens@[j + 1])@ == vals@[j]@,
            decreases vals@.len() - i,
        {
            let c = clone_value(&vals[i]);
            tokens.push(c);
            i += 1;
        }
        proof {
            lemma_list_model(tokens@);
            lemma_list_model(vals@);
            let want = enum_encoding(self.variants@[tag as int].name@, list_model(vals@));
            assert forall|j: int|
                0 <= j < tokens@.len() implies list_model(tokens@)[j] == want[j] by {
                if j > 0 {
                    assert(tokens@[(j - 1) + 1]@ == vals@[j - 1]@);
                }
            }
            assert(list_model(tokens@) =~= want);
        }
        tokens
    }

    /// The tagged positional codec, decoding side: the discriminant token is
    /// read first and dispatched by exact string match against the variant
    /// names; the matched arm reads exactly as many tokens as that variant
    /// declares fields. `None` — the modelled fatal failure — is returned if
    /// and only if the stream has no text discriminant, the tag matches no
    /// variant, or too few payload tokens follow.
    pub fn decode(&self, tokens: &Vec<Value>) -> (r: Option<(usize, Vec<Value>)>)
        ensures
            match r {
                Option::Some(p) => enum_decoding(self.variants@, list_model(tokens@)) == Some(
                    (p.0 as int, list_model(p.1@)),
                ),
                Option::None => enum_decoding(self.variants@, list_model(tokens@)) is None,
            },
    {
        proof {
            lemma_list_model(tokens@);
        }
        if tokens.len() == 0 {
            return Option::None;
        }
        let n: &String = match &tokens[0] {
            Value::Text(s) => s,
            _ => {
                return Option::None;
            },
        };
        let mut i: usize = 0;
        while i < self.variants.len()
            invariant
                i <= self.variants@.len(),
                tokens@.len() > 0,
                tokens@[0]@ == Val::Text(n@),
                list_model(tokens@).len() == tokens@.len(),
                list_model(tokens@)[0] == Val::Text(n@),
                find_variant(self.variants@, n@) == find_variant_from(
                    self.variants@,
                    n@,
                    i as int,
                ),
            decreases self.variants@.len() - i,
        {
            if self.variants[i].name == *n {
                let k = self.variants[i].fields.len();
                if tokens.len() - 1 < k {
                    return Option::None;
                }
                let mut vals: Vec<Value> = Vec::new();
                let mut j: usize = 0;
                while j < k
                    invariant
                        j <= k,
                        k + 1 <= tokens@.len(),
                        vals@.len() == j,
                        forall|l: int| 0 <= l < j ==> (#[trigger] vals@[l])@ == tokens@[l + 1]@,
                    decreases k - j,
                {
                    let c = clone_value(&tokens[1 + j]);
                    vals.push(c);
                    j += 1;
                }
                proof {
                    lemma_list_model(tokens@);
                    lemma_list_model(vals@);
                    let toks = list_model(tokens@);
                    assert forall|l: int|
                        0 <= l < k implies list_model(vals@)[l] == toks.subrange(
                        1,
                        1 + k as int,
                    )[l] by {
                        assert(vals@[l]@ == tokens@[l + 1]@);
                    }
                    assert(list_model(vals@) =~= toks.subrange(1, 1 + k as int));
                }
                return Option::Some((i, vals));
            }
            i += 1;
        }
        Option::None
    }
}

/// Appending an entry to a dictionary leaves every successful lookup
/// unchanged: the first match is found in the existing entries.
proof fn lemma_lookup_push_found(d: Seq<(Seq<char>, Val)>, e: (Seq<char>, Val), key: Seq<char>, i: int)
    requires
        0 <= i,
        dict_lookup_from(d, key, i) is Some,
    ensures
        dict_lookup_from(d.push(e), key, i) == dict_lookup_from(d, key, i),
    decreases d.len() - i,
{
    if i < d.len() {
        assert(d.push(e)[i] == d[i]);
        if d[i].0 != key {
            lemma_lookup_push_found(d, e, key, i + 1);
        }
    }
}

/// Looking up a key that no existing entry holds finds exactly the appended
/// entry, or nothing.
proof fn lemma_lookup_push_miss(d: Seq<(Seq<char>, Val)>, e: (Seq<char>, Val), key: Seq<char>, i: int)
    requires
        0 <= i <= d.len(),
        forall|j: int| i <= j < d.len() ==> (#[trigger] d[j]).0 != key,
    ensures
        dict_lookup_from(d.push(e), key, i) == (if e.0 == key {
            Some(e.1)
        } else {
            Option::<Val>::None
        }),
    decreases d.len() - i,
{
    if i == d.len() {
        assert(d.push(e)[i] == e);
    } else {
        assert(d.push(e)[i] == d[i]);
        lemma_lookup_push_miss(d, e, key, i + 1);
    }
}

/// A record decode that succeeds is unaffected by appending an entry to the
/// dictionary.
proof fn lemma_decoding_push(fields: Seq<StructField>, d: Seq<(Seq<char>, Val)>, e: (Seq<char>, Val))
    requires
        struct_decoding(fields, d) is Some,
    ensures
        struct_decoding(fields, d.push(e)) == struct_decoding(fields, d),
    decreases fields.len(),
{
    if fields.len() > 0 {
        lemma_decoding_push(fields.drop_last(), d, e);
        lemma_lookup_push_found(d, e, fields.last().name@, 0);
    }
}

/// Round trip of the dictionary codec, stated over the field list: encoding
/// any record value and decoding the result recovers the value exactly.
proof fn lemma_struct_fields_round_trip(fields: Seq<StructField>, vals: Seq<Val>)
    requires
        field_names_distinct(fields),
        vals.len() == fields.len(),
    ensures
        struct_decoding(fields, struct_encoding(fields, vals)) == Some(vals),
    decreases fields.len(),
{
    if fields.len() == 0 {
        assert(vals =~= Seq::<Val>::empty());
    } else {
        let fs1 = fields.drop_last();
        let vs1 = vals.drop_last();
        let e = (fields.last().name@, vals.last());
        let d = struct_encoding(fields, vals);
        let d1 = struct_encoding(fs1, vs1);
        assert(field_names_distinct(fs1)) by {
            assert(forall|i: int| 0 <= i < fs1.len() ==> fs1[i] == #[trigger] fields[i]);
        }
        lemma_struct_fields_round_trip(fs1, vs1);
        assert(d =~= d1.push(e));
        lemma_decoding_push(fs1, d1, e);
        assert forall|j: int| 0 <= j < d1.len() implies (#[trigger] d1[j]).0
            != fields.last().name@ by {
            assert(d1[j].0 == fields[j].name@);
            assert(fields[j].name@ != fields[fields.len() - 1].name@);
        }
        lemma_lookup_push_miss(d1, e, fields.last().name@, 0);
        assert(dict_lookup(d, fields.last().name@) == Some(vals.last()));
        assert(struct_decoding(fields, d) == Some(vs1.push(vals.last())));
        assert(vs1.push(vals.last()) =~= vals);
    }
}

/// The round-trip law of the dictionary codec: for every well-formed record
/// schema and every record value — the field values, at any nesting depth —
/// decoding the encoding gives the value back.
pub proof fn lemma_struct_round_trip(s: Struct, vals: Seq<Val>)
    requires
        struct_wf(s),
        vals.len() == s.fields@.len(),
    ensures
        struct_decoding(s.fields@, struct_encoding(s.fields@, vals)) == Some(vals),
{
    lemma_struct_fields_round_trip(s.fields@, vals);
}

/// Scanning for the name of variant `tag` from any position at or before
/// `tag` finds exactly `tag`, provided no earlier variant shares the name.
proof fn lemma_find_variant_hit(variants: Seq<EnumVariant>, tag: int, i: int)
    requires
        0 <= i <= tag < variants.len(),
        forall|j: int| 0 <= j < tag ==> (#[trigger] variants[j]).name@ != variants[tag].name@,
    ensures
        find_variant_from(variants, variants[tag].name@, i) == Some(tag),
    decreases tag - i,
{
    if i < tag {
        lemma_find_variant_hit(variants, tag, i + 1);
    }
}

/// The round-trip law of the tagged positional codec: for every well-formed
/// union schema, every variant — with or without payload fields — and every
/// payload, decoding the encoding gives the variant and its payload back.
pub proof fn lemma_enum_round_trip(e: Enum, tag: int, vals: Seq<Val>)
    requires
        enum_wf(e),
        0 <= tag < e.variants@.len(),
        vals.len() == e.variants@[tag].fields@.len(),
    ensures
        enum_decoding(e.variants@, enum_encoding(e.variants@[tag].name@, vals)) == Some(
            (tag, vals),
        ),
{
    let toks = enum_encoding(e.variants@[tag].name@, vals);
    assert(toks[0] == Val::Text(e.variants@[tag].name@));
    lemma_find_variant_hit(e.variants@, tag, 0);
    assert(toks.subrange(1, 1 + vals.len() as int) =~= vals);
}

} // verus!
