//! The database's types as its catalog describes them.

use vstd::prelude::*;

verus! {

/// One attribute of a composite type.
#[derive(Clone, Debug, PartialEq, Eq)]
pub struct CompositeField {
    pub name: String,
    pub type_oid: u32,
}

/// What the catalog says of a type beyond its name, by the kind of type.
#[derive(Clone, Debug, PartialEq, Eq)]
pub enum TypeDetail {
    /// A base type.
    Scalar,
    /// A domain over `base`, with or without a not-null constraint.
    Domain { base: u32, not_null: bool },
    /// An enumeration with these labels, in their order.
    Enum { labels: Vec<String> },
    /// A composite type with these attributes, in their order.
    Composite { fields: Vec<CompositeField> },
    /// An array of `element`.
    Array { element: u32 },
}

/// The identity of a database type: its object identifier in the catalog,
/// its name, and what it is made of. Constituent types are named by their
/// identifiers.
#[derive(Clone, Debug, PartialEq, Eq)]
pub struct TypeIdentity {
    pub oid: u32,
    pub name: String,
    pub detail: TypeDetail,
}

/// The types that the database knows. Of two entries with one identifier
/// the first counts.
#[derive(Clone, Debug, PartialEq, Eq)]
pub struct Catalog {
    pub types: Vec<TypeIdentity>,
}

/// The mathematical content of a [`CompositeField`].
pub struct CompositeFieldView {
    pub name: Seq<char>,
    pub type_oid: u32,
}

/// The mathematical content of a [`TypeDetail`].
pub enum TypeDetailView {
    Scalar,
    Domain { base: u32, not_null: bool },
    Enum { labels: Seq<Seq<char>> },
    Composite { fields: Seq<CompositeFieldView> },
    Array { element: u32 },
}

/// The mathematical content of a [`TypeIdentity`].
pub struct TypeIdentityView {
    pub oid: u32,
    pub name: Seq<char>,
    pub detail: TypeDetailView,
}

/// The texts of a list of strings.
pub open spec fn texts(strings: Seq<String>) -> Seq<Seq<char>> {
    strings.map_values(|s: String| s@)
}

impl View for CompositeField {
    type V = CompositeFieldView;

    open spec fn view(&self) -> CompositeFieldView {
        CompositeFieldView { name: self.name@, type_oid: self.type_oid }
    }
}

impl View for TypeDetail {
    type V = TypeDetailView;

    open spec fn view(&self) -> TypeDetailView {
        match *self {
            TypeDetail::Scalar => TypeDetailView::Scalar,
            TypeDetail::Domain { base, not_null } => TypeDetailView::Domain { base, not_null },
            TypeDetail::Enum { labels } => TypeDetailView::Enum { labels: texts(labels@) },
            TypeDetail::Composite { fields } => TypeDetailView::Composite {
                fields: fields@.map_values(|f: CompositeField| f@),
            },
            TypeDetail::Array { element } => TypeDetailView::Array { element },
        }
    }
}

impl View for TypeIdentity {
    type V = TypeIdentityView;

    open spec fn view(&self) -> TypeIdentityView {
        TypeIdentityView { oid: self.oid, name: self.name@, detail: self.detail@ }
    }
}

impl View for Catalog {
    type V = Seq<TypeIdentityView>;

    open spec fn view(&self) -> Seq<TypeIdentityView> {
        self.types@.map_values(|t: TypeIdentity| t@)
    }
}

/// The place of the first entry for `oid` at or after `from`, or the
/// length of the catalog where there is none.
pub open spec fn place_of(catalog: Seq<TypeIdentityView>, oid: u32, from: int) -> int
    decreases catalog.len() - from,
{
    if from < 0 || from >= catalog.len() {
        catalog.len() as int
    } else if catalog[from].oid == oid {
        from
    } else {
        place_of(catalog, oid, from + 1)
    }
}

/// What the catalog says of `oid`.
pub open spec fn identity_of(catalog: Seq<TypeIdentityView>, oid: u32) -> Option<TypeIdentityView> {
    let place = place_of(catalog, oid, 0);
    if place < catalog.len() {
        Some(catalog[place])
    } else {
        None
    }
}

/// The generated type that a base type of the database maps to: the fixed
/// table on which every other mapping is built.
pub open spec fn scalar_target(name: Seq<char>) -> Option<Seq<char>> {
    if name == "bool"@ {
        Some("bool"@)
    } else if name == "char"@ {
        Some("i8"@)
    } else if name == "int2"@ {
        Some("i16"@)
    } else if name == "int4"@ {
        Some("i32"@)
    } else if name == "int8"@ {
        Some("i64"@)
    } else if name == "oid"@ {
        Some("u32"@)
    } else if name == "float4"@ {
        Some("f32"@)
    } else if name == "float8"@ {
        Some("f64"@)
    } else if name == "text"@ || name == "varchar"@ || name == "bpchar"@ || name == "name"@ {
        Some("String"@)
    } else if name == "bytea"@ {
        Some("Vec<u8>"@)
    } else if name == "timestamp"@ {
        Some("time::PrimitiveDateTime"@)
    } else if name == "timestamptz"@ {
        Some("time::OffsetDateTime"@)
    } else if name == "date"@ {
        Some("time::Date"@)
    } else if name == "time"@ {
        Some("time::Time"@)
    } else if name == "json"@ || name == "jsonb"@ {
        Some("serde_json::Value"@)
    } else if name == "uuid"@ {
        Some("uuid::Uuid"@)
    } else if name == "inet"@ {
        Some("std::net::IpAddr"@)
    } else {
        None
    }
}

/// Whether a string holds the given text.
pub(crate) fn holds(string: &String, text: &str) -> (same: bool)
    ensures
        same == (string@ == text@),
{
    let other = text.to_owned();
    *string == other
}

/// Looks a base type up in the table of scalar mappings.
pub fn scalar_mapping(name: &String) -> (target: Option<&'static str>)
    ensures
        match target {
            Some(text) => scalar_target(name@) == Some(text@),
            None => scalar_target(name@) is None,
        },
{
    if holds(name, "bool") {
        Some("bool")
    } else if holds(name, "char") {
        Some("i8")
    } else if holds(name, "int2") {
        Some("i16")
    } else if holds(name, "int4") {
        Some("i32")
    } else if holds(name, "int8") {
        Some("i64")
    } else if holds(name, "oid") {
        Some("u32")
    } else if holds(name, "float4") {
        Some("f32")
    } else if holds(name, "float8") {
        Some("f64")
    } else if holds(name, "text") || holds(name, "varchar") || holds(name, "bpchar") || holds(
        name,
        "name",
    ) {
        Some("String")
    } else if holds(name, "bytea") {
        Some("Vec<u8>")
    } else if holds(name, "timestamp") {
        Some("time::PrimitiveDateTime")
    } else if holds(name, "timestamptz") {
        Some("time::OffsetDateTime")
    } else if holds(name, "date") {
        Some("time::Date")
    } else if holds(name, "time") {
        Some("time::Time")
    } else if holds(name, "json") || holds(name, "jsonb") {
        Some("serde_json::Value")
    } else if holds(name, "uuid") {
        Some("uuid::Uuid")
    } else if holds(name, "inet") {
        Some("std::net::IpAddr")
    } else {
        None
    }
}

/// A copy of a list of strings.
pub(crate) fn copy_strings(strings: &Vec<String>) -> (copy: Vec<String>)
    ensures
        copy@ == strings@,
{
    let mut copy: Vec<String> = Vec::new();
    let mut i: usize = 0;
    while i < strings.len()
        invariant
            0 <= i <= strings.len(),
            copy@ == strings@.take(i as int),
        decreases strings.len() - i,
    {
        copy.push(strings[i].clone());
        assert(copy@ =~= strings@.take(i + 1));
        i += 1;
    }
    assert(strings@.take(i as int) =~= strings@);
    copy
}

impl Catalog {
    /// Finds the entry for `oid`.
    pub fn find(&self, oid: u32) -> (place: Option<usize>)
        ensures
            match place {
                Some(p) => p < self.types.len() && p == place_of(self@, oid, 0)
                    && identity_of(self@, oid) == Some(self.types[p as int]@),
                None => identity_of(self@, oid) is None,
            },
    {
        let mut i: usize = 0;
        while i < self.types.len()
            invariant
                0 <= i <= self.types.len(),
                place_of(self@, oid, 0) == place_of(self@, oid, i as int),
            decreases self.types.len() - i,
        {
            if self.types[i].oid == oid {
                return Some(i);
            }
            i += 1;
        }
        None
    }
}

} // verus!
