//! The schema data model: a simplified, language-agnostic tree describing
//! the types that code is generated for.
//!
//! The tree is built once by a front end, is immutable afterwards, and is
//! read in a single top-to-bottom traversal by the emitters.

use vstd::prelude::*;

verus! {

/// A namespace: a name plus an ordered sequence of child items.
#[derive(Debug, PartialEq, Eq)]
pub struct Module {
    pub name: String,
    pub items: Vec<Item>,
}

/// One node of the schema tree: a nested namespace, a tagged union, or a
/// record.
#[derive(Debug, PartialEq, Eq)]
pub enum Item {
    Module(Module),
    Enum(Enum),
    Struct(Struct),
}

/// A tagged union (sum type): a name plus an ordered sequence of variants.
#[derive(Debug, PartialEq, Eq)]
pub struct Enum {
    pub name: String,
    pub variants: Vec<EnumVariant>,
}

/// One case of a tagged union. A variant always has a non-empty name.
/// Its fields are either all unnamed (positional/tuple form) or all
/// non-empty-named (record form); mixing the two is outside the contract.
#[derive(Debug, PartialEq, Eq)]
pub struct EnumVariant {
    pub name: String,
    pub fields: Vec<StructField>,
}

/// A record (product type): a name plus an ordered sequence of fields.
#[derive(Debug, PartialEq, Eq)]
pub struct Struct {
    pub name: String,
    pub fields: Vec<StructField>,
}

/// A field: a name (non-empty in a record; empty only inside a positional
/// variant) and a type.
#[derive(Debug, PartialEq, Eq)]
pub struct StructField {
    pub name: String,
    pub ty: Type,
}

/// A type expression: a primitive, the native string type, a reference to
/// another item by path, or an optional/list wrapper. Tree-shaped by
/// construction; no cycles.
#[derive(Debug, PartialEq, Eq)]
pub enum Type {
    Core(CoreType),
    String,
    Reference(TypePath),
    Optional(Box<Type>),
    List(Box<Type>),
}

/// An enumerated primitive. Bit width and signedness are preserved exactly
/// by the type mapping.
#[derive(Debug, Clone, Copy, PartialEq, Eq)]
pub enum CoreType {
    Bool,
    U8,
    U16,
    U32,
    U64,
    I8,
    I16,
    I32,
    I64,
    F32,
    F64,
}

/// A (possibly qualified) name identifying another item. Only the last
/// segment is semantically used; an empty path is degenerate and maps to a
/// placeholder token.
#[derive(Debug, PartialEq, Eq)]
pub struct TypePath(pub Vec<String>);

impl Module {
    /// An empty module: no name, no items.
    pub fn new() -> (m: Module)
        ensures
            m.name@ == Seq::<char>::empty(),
            m.items@ == Seq::<Item>::empty(),
    {
        Module { name: String::new(), items: Vec::new() }
    }
}

impl Enum {
    /// An empty tagged union: no name, no variants.
    pub fn new() -> (e: Enum)
        ensures
            e.name@ == Seq::<char>::empty(),
            e.variants@ == Seq::<EnumVariant>::empty(),
    {
        Enum { name: String::new(), variants: Vec::new() }
    }
}

impl EnumVariant {
    /// An empty variant: no name, no fields.
    pub fn new() -> (v: EnumVariant)
        ensures
            v.name@ == Seq::<char>::empty(),
            v.fields@ == Seq::<StructField>::empty(),
    {
        EnumVariant { name: String::new(), fields: Vec::new() }
    }
}

impl Struct {
    /// An empty record: no name, no fields.
    pub fn new() -> (s: Struct)
        ensures
            s.name@ == Seq::<char>::empty(),
            s.fields@ == Seq::<StructField>::empty(),
    {
        Struct { name: String::new(), fields: Vec::new() }
    }
}

/// No two fields share a name.
pub open spec fn field_names_distinct(fields: Seq<StructField>) -> bool {
    forall|i: int, j: int|
        0 <= i < j < fields.len() ==> fields[i].name@ != fields[j].name@
}

/// A well-formed record: every field name is non-empty, and no two fields
/// share a name (the keys of the dictionary codec must be distinct).
pub open spec fn struct_wf(s: Struct) -> bool {
    &&& forall|i: int| 0 <= i < s.fields@.len() ==> #[trigger] s.fields@[i].name@.len() > 0
    &&& field_names_distinct(s.fields@)
}

/// All fields of the variant are unnamed (positional/tuple form).
pub open spec fn variant_positional(v: EnumVariant) -> bool {
    forall|i: int| 0 <= i < v.fields@.len() ==> #[trigger] v.fields@[i].name@.len() == 0
}

/// All fields of the variant carry a non-empty name (record form).
pub open spec fn variant_named(v: EnumVariant) -> bool {
    forall|i: int| 0 <= i < v.fields@.len() ==> #[trigger] v.fields@[i].name@.len() > 0
}

/// A well-formed variant: a non-empty name, and fields either all unnamed
/// or all non-empty-named.
pub open spec fn variant_wf(v: EnumVariant) -> bool {
    &&& v.name@.len() > 0
    &&& variant_positional(v) || variant_named(v)
}

/// A well-formed tagged union: every variant is well formed and no two
/// variants share a name (the discriminant of the positional codec must
/// identify a single variant).
pub open spec fn enum_wf(e: Enum) -> bool {
    &&& forall|i: int| 0 <= i < e.variants@.len() ==> #[trigger] variant_wf(e.variants@[i])
    &&& forall|i: int, j: int|
        0 <= i < j < e.variants@.len() ==> e.variants@[i].name@ != e.variants@[j].name@
}

/// A well-formed item: whatever its kind requires.
pub open spec fn item_wf(it: Item) -> bool
    decreases it,
{
    match it {
        Item::Module(m) => module_wf(m),
        Item::Enum(e) => enum_wf(e),
        Item::Struct(s) => struct_wf(s),
    }
}

/// A sequence of well-formed items.
pub open spec fn items_wf(items: Seq<Item>) -> bool
    decreases items,
{
    if items.len() == 0 {
        true
    } else {
        items_wf(items.drop_last()) && item_wf(items.last())
    }
}

/// A well-formed module: every child item is well formed.
pub open spec fn module_wf(m: Module) -> bool
    decreases m,
{
    items_wf(m.items@)
}

/// One ill-formed item makes the whole sequence ill formed.
proof fn lemma_items_wf_index(items: Seq<Item>, i: int)
    requires
        0 <= i < items.len(),
        !item_wf(items[i]),
    ensures
        !items_wf(items),
    decreases items.len(),
{
    if i < items.len() - 1 {
        assert(items.drop_last()[i] == items[i]);
        lemma_items_wf_index(items.drop_last(), i);
    } else {
        assert(items.last() == items[i]);
    }
}

impl Struct {
    /// The explicit validation pass for a record: every field name must be
    /// non-empty and no two fields may share a name. Emission itself never
    /// validates — it is total and passes violations through — so callers
    /// that want the invariants enforced run this check first.
    pub fn is_well_formed(&self) -> (r: bool)
        ensures
            r == struct_wf(*self),
    {
        let mut i: usize = 0;
        while i < self.fields.len()
            invariant
                i <= self.fields@.len(),
                forall|k: int| 0 <= k < i ==> (#[trigger] self.fields@[k]).name@.len() > 0,
                forall|a: int, b: int|
                    0 <= a < b < i ==> self.fields@[a].name@ != self.fields@[b].name@,
            decreases self.fields@.len() - i,
        {
            if self.fields[i].name.as_str().is_empty() {
                return false;
            }
            let mut j: usize = 0;
            while j < i
                invariant
                    j <= i < self.fields@.len(),
                    forall|k: int| 0 <= k < j ==> self.fields@[k].name@ != self.fields@[i as int].name@,
                decreases i - j,
            {
                if self.fields[j].name == self.fields[i].name {
                    return false;
                }
                j += 1;
            }
            i += 1;
        }
        true
    }
}

impl EnumVariant {
    /// The explicit validation pass for one variant: a non-empty name, and
    /// fields either all unnamed or all non-empty-named — a variant mixing
    /// the two forms is rejected here rather than left to emission, which
    /// passes it through unchecked.
    pub fn is_well_formed(&self) -> (r: bool)
        ensures
            r == variant_wf(*self),
    {
        if self.name.as_str().is_empty() {
            return false;
        }
        if self.fields.len() == 0 {
            return true;
        }
        let positional = self.fields[0].name.as_str().is_empty();
        let mut i: usize = 0;
        while i < self.fields.len()
            invariant
                i <= self.fields@.len(),
                self.fields@.len() > 0,
                positional == (self.fields@[0].name@.len() == 0),
                forall|k: int|
                    0 <= k < i ==> ((#[trigger] self.fields@[k]).name@.len() == 0) == positional,
            decreases self.fields@.len() - i,
        {
            if self.fields[i].name.as_str().is_empty() != positional {
                return false;
            }
            i += 1;
        }
        true
    }
}

impl Enum {
    /// The explicit validation pass for a tagged union: every variant well
    /// formed, no two variants sharing a name.
    pub fn is_well_formed(&self) -> (r: bool)
        ensures
            r == enum_wf(*self),
    {
        let mut i: usize = 0;
        while i < self.variants.len()
            invariant
                i <= self.variants@.len(),
                forall|k: int| 0 <= k < i ==> #[trigger] variant_wf(self.variants@[k]),
                forall|a: int, b: int|
                    0 <= a < b < i ==> self.variants@[a].name@ != self.variants@[b].name@,
            decreases self.variants@.len() - i,
        {
            if !self.variants[i].is_well_formed() {
                return false;
            }
            let mut j: usize = 0;
            while j < i
                invariant
                    j <= i < self.variants@.len(),
                    forall|k: int|
                        0 <= k < j ==> self.variants@[k].name@ != self.variants@[i as int].name@,
                decreases i - j,
            {
                if self.variants[j].name == self.variants[i].name {
                    return false;
                }
                j += 1;
            }
            i += 1;
        }
        true
    }
}

impl Item {
    /// The explicit validation pass for one item, by dispatch on its kind.
    pub fn is_well_formed(&self) -> (r: bool)
        ensures
            r == item_wf(*self),
        decreases self,
    {
        match self {
            Item::Module(m) => m.is_well_formed(),
            Item::Enum(e) => e.is_well_formed(),
            Item::Struct(s) => s.is_well_formed(),
        }
    }
}

impl Module {
    /// The explicit validation pass for a whole schema tree: every record
    /// and every tagged union it holds, at any depth, is well formed.
    pub fn is_well_formed(&self) -> (r: bool)
        ensures
            r == module_wf(*self),
        decreases self,
    {
        let mut i: usize = 0;
        while i < self.items.len()
            invariant
                i <= self.items@.len(),
                items_wf(self.items@.take(i as int)),
            decreases self.items@.len() - i,
        {
            if !self.items[i].is_well_formed() {
                proof {
                    lemma_items_wf_index(self.items@, i as int);
                }
                return false;
            }
            i += 1;
            proof {
                let its = self.items@;
                assert(its.take(i as int).drop_last() =~= its.take(i as int - 1));
                assert(its.take(i as int).last() == its[i as int - 1]);
            }
        }
        proof {
            assert(self.items@.take(self.items@.len() as int) =~= self.items@);
        }
        true
    }
}

} // verus!
