//! The registrar: the one place where database types and row shapes
//! become generated types.
//!
//! Generated types live in a list and refer to one another by their place
//! in it. A type is entered only after everything it is made of, so the
//! order of the list is an order in which the types can be defined.

use crate::catalog::{
    copy_strings, identity_of, scalar_mapping, scalar_target, texts, Catalog, CompositeField,
    CompositeFieldView, TypeDetail, TypeDetailView, TypeIdentityView,
};
use crate::error::{Error, ErrorKind, ErrorView};
use crate::text::{decimal, decimal_digits, push_decimal, push_digits};
use vstd::prelude::*;

verus! {

/// How many levels of constituents a database type may have.
pub const MAX_DEPTH: usize = 16;

/// One field of a generated struct.
#[derive(Clone, Debug, PartialEq, Eq)]
pub struct GeneratedField {
    pub name: String,
    /// The place of the field's type in the registrar.
    pub ty: usize,
    pub nullable: bool,
}

/// What a generated type is made of.
#[derive(Clone, Debug, PartialEq, Eq)]
pub enum GeneratedKind {
    Scalar,
    Struct { fields: Vec<GeneratedField> },
    Enum { variants: Vec<String> },
    Array { element: usize },
    Optional { inner: usize },
}

/// A type of the generated code.
#[derive(Clone, Debug, PartialEq, Eq)]
pub struct GeneratedType {
    pub name: String,
    pub kind: GeneratedKind,
}

/// The generated types of one run.
#[derive(Clone, Debug, PartialEq, Eq)]
pub struct TypeRegistrar {
    types: Vec<GeneratedType>,
    resolved: Vec<(u32, usize)>,
    rows: Vec<usize>,
}

/// The mathematical content of a [`GeneratedField`].
pub struct FieldView {
    pub name: Seq<char>,
    pub ty: int,
    pub nullable: bool,
}

/// The mathematical content of a [`GeneratedKind`].
pub enum KindView {
    Scalar,
    Struct { fields: Seq<FieldView> },
    Enum { variants: Seq<Seq<char>> },
    Array { element: int },
    Optional { inner: int },
}

/// The mathematical content of a [`GeneratedType`].
pub struct GeneratedTypeView {
    pub name: Seq<char>,
    pub kind: KindView,
}

/// The mathematical content of a [`TypeRegistrar`].
pub struct RegistrarView {
    /// The generated types, each after the types it refers to.
    pub types: Seq<GeneratedTypeView>,
    /// Which database type was resolved to which generated type.
    pub resolved: Seq<(u32, int)>,
    /// The places of the row types, in the order of their registration.
    pub rows: Seq<int>,
}

impl View for GeneratedField {
    type V = FieldView;

    open spec fn view(&self) -> FieldView {
        FieldView { name: self.name@, ty: self.ty as int, nullable: self.nullable }
    }
}

/// The mathematical content of a list of fields.
pub open spec fn field_views(fields: Seq<GeneratedField>) -> Seq<FieldView> {
    fields.map_values(|f: GeneratedField| f@)
}

impl View for GeneratedKind {
    type V = KindView;

    open spec fn view(&self) -> KindView {
        match *self {
            GeneratedKind::Scalar => KindView::Scalar,
            GeneratedKind::Struct { fields } => KindView::Struct { fields: field_views(fields@) },
            GeneratedKind::Enum { variants } => KindView::Enum { variants: texts(variants@) },
            GeneratedKind::Array { element } => KindView::Array { element: element as int },
            GeneratedKind::Optional { inner } => KindView::Optional { inner: inner as int },
        }
    }
}

impl View for GeneratedType {
    type V = GeneratedTypeView;

    open spec fn view(&self) -> GeneratedTypeView {
        GeneratedTypeView { name: self.name@, kind: self.kind@ }
    }
}

/// The mathematical content of a list of generated types.
pub open spec fn type_views(types: Seq<GeneratedType>) -> Seq<GeneratedTypeView> {
    types.map_values(|t: GeneratedType| t@)
}

/// The entries of the table of resolved types, with their places as numbers.
pub open spec fn memo_views(entries: Seq<(u32, usize)>) -> Seq<(u32, int)> {
    entries.map_values(|e: (u32, usize)| (e.0, e.1 as int))
}

/// The places of a list as numbers.
pub open spec fn index_views(indices: Seq<usize>) -> Seq<int> {
    indices.map_values(|i: usize| i as int)
}

impl View for TypeRegistrar {
    type V = RegistrarView;

    closed spec fn view(&self) -> RegistrarView {
        RegistrarView {
            types: type_views(self.types@),
            resolved: memo_views(self.resolved@),
            rows: index_views(self.rows@),
        }
    }
}

/// Every type that `ty` refers to stands at a place below `bound`.
pub open spec fn refers_below(ty: GeneratedTypeView, bound: int) -> bool {
    match ty.kind {
        KindView::Struct { fields } => forall|f: int|
            0 <= f < fields.len() ==> 0 <= (#[trigger] fields[f]).ty < bound,
        KindView::Array { element } => 0 <= element < bound,
        KindView::Optional { inner } => 0 <= inner < bound,
        _ => true,
    }
}

/// The index that the last entry for `oid` gives, if there is one.
pub open spec fn last_entry(entries: Seq<(u32, int)>, oid: u32) -> Option<int>
    decreases entries.len(),
{
    if entries.len() == 0 {
        None
    } else if entries.last().0 == oid {
        Some(entries.last().1)
    } else {
        last_entry(entries.drop_last(), oid)
    }
}

/// The place of the first type equal to `ty` at or after `from`, or the
/// number of types where there is none.
pub open spec fn first_same(types: Seq<GeneratedTypeView>, ty: GeneratedTypeView, from: int) -> int
    decreases types.len() - from,
{
    if from < 0 || from >= types.len() {
        types.len() as int
    } else if types[from] == ty {
        from
    } else {
        first_same(types, ty, from + 1)
    }
}

/// The name of the row type that is registered when `count` row types exist.
pub open spec fn row_name(count: nat) -> Seq<char> {
    "Row"@ + decimal_digits(count)
}

/// The error for a type that the catalog does not hold.
pub open spec fn unknown_type(oid: u32) -> ErrorView {
    ErrorView {
        kind: ErrorKind::TypeResolution,
        subject: "oid "@ + decimal(oid as int),
        detail: "the catalog does not know this type"@,
    }
}

/// The error for a base type without a mapping.
pub open spec fn unmapped_type(name: Seq<char>) -> ErrorView {
    ErrorView {
        kind: ErrorKind::TypeResolution,
        subject: name,
        detail: "no generated type is known for this database type"@,
    }
}

/// The error for a type whose constituents nest deeper than the limit.
pub open spec fn too_deep(name: Seq<char>) -> ErrorView {
    ErrorView {
        kind: ErrorKind::TypeResolution,
        subject: name,
        detail: "its constituents nest too deeply"@,
    }
}

/// The error for a field of a row whose type is no place in the registrar.
pub open spec fn unregistered_field(name: Seq<char>) -> ErrorView {
    ErrorView {
        kind: ErrorKind::TypeResolution,
        subject: name,
        detail: "the type of this field is not registered"@,
    }
}

/// The place of the first field at or after `from` whose type is not
/// below `bound`, or the number of fields where there is none.
pub open spec fn first_unknown(fields: Seq<FieldView>, bound: int, from: int) -> int
    decreases fields.len() - from,
{
    if from < 0 || from >= fields.len() {
        fields.len() as int
    } else if !(0 <= fields[from].ty < bound) {
        from
    } else {
        first_unknown(fields, bound, from + 1)
    }
}

impl RegistrarView {
    /// The content of a registrar that holds nothing.
    pub open spec fn empty() -> RegistrarView {
        RegistrarView { types: Seq::empty(), resolved: Seq::empty(), rows: Seq::empty() }
    }

    /// What holds of every registrar: types refer to earlier types only,
    /// the tables point into the list, and no two row types have the same
    /// fields.
    pub open spec fn wf(self) -> bool {
        &&& forall|i: int| 0 <= i < self.types.len() ==> refers_below(#[trigger] self.types[i], i)
        &&& forall|k: int|
            0 <= k < self.resolved.len() ==> 0 <= (#[trigger] self.resolved[k]).1
                < self.types.len()
        &&& forall|k: int|
            0 <= k < self.rows.len() ==> 0 <= #[trigger] self.rows[k] < self.types.len()
                && self.types[self.rows[k]].kind is Struct
        &&& forall|a: int, b: int|
            0 <= a < b < self.rows.len() ==> self.types[#[trigger] self.rows[a]].kind
                != self.types[#[trigger] self.rows[b]].kind
    }

    /// `later` holds everything that `self` holds, at the same places.
    pub open spec fn extended_by(self, later: RegistrarView) -> bool {
        &&& self.types.is_prefix_of(later.types)
        &&& self.resolved.is_prefix_of(later.resolved)
        &&& self.rows.is_prefix_of(later.rows)
    }

    /// The generated type that `oid` was resolved to.
    pub open spec fn resolved_as(self, oid: u32) -> Option<int> {
        last_entry(self.resolved, oid)
    }

    /// The registrar that knows `oid` to stand at `index`.
    pub open spec fn remember(self, oid: u32, index: int) -> RegistrarView {
        RegistrarView { resolved: self.resolved.push((oid, index)), ..self }
    }

    /// The registrar with `ty` in it, and the place of `ty`: the first
    /// place where it already stands, or a new last place.
    pub open spec fn interned(self, ty: GeneratedTypeView) -> (RegistrarView, int) {
        let place = first_same(self.types, ty, 0);
        if place < self.types.len() {
            (self, place)
        } else {
            (RegistrarView { types: self.types.push(ty), ..self }, self.types.len() as int)
        }
    }

    /// `oid` resolved to a type that is what it is made of: shared with
    /// every other database type that maps to the same.
    pub open spec fn adopt(self, oid: u32, ty: GeneratedTypeView) -> (
        RegistrarView,
        Result<int, ErrorView>,
    ) {
        let (with, place) = self.interned(ty);
        (with.remember(oid, place), Ok(place))
    }

    /// `oid` resolved to a type of its own.
    pub open spec fn define(self, oid: u32, ty: GeneratedTypeView) -> (
        RegistrarView,
        Result<int, ErrorView>,
    ) {
        (
            RegistrarView {
                types: self.types.push(ty),
                resolved: self.resolved.push((oid, self.types.len() as int)),
                ..self
            },
            Ok(self.types.len() as int),
        )
    }

    /// The place among the row types, at or after `from`, of the first one
    /// with these fields, or the number of row types where there is none.
    pub open spec fn row_place(self, fields: Seq<FieldView>, from: int) -> int
        decreases self.rows.len() - from,
    {
        if from < 0 || from >= self.rows.len() {
            self.rows.len() as int
        } else if self.types[self.rows[from]].kind == (KindView::Struct { fields }) {
            from
        } else {
            self.row_place(fields, from + 1)
        }
    }

    /// The registrar with a row type of these fields in it, and the place
    /// of that type: the row type that has them already, or a new one.
    pub open spec fn with_row(self, fields: Seq<FieldView>) -> (RegistrarView, int) {
        let k = self.row_place(fields, 0);
        if k < self.rows.len() {
            (self, self.rows[k])
        } else {
            (
                RegistrarView {
                    types: self.types.push(
                        GeneratedTypeView {
                            name: row_name(self.rows.len()),
                            kind: KindView::Struct { fields },
                        },
                    ),
                    rows: self.rows.push(self.types.len() as int),
                    ..self
                },
                self.types.len() as int,
            )
        }
    }
}

/// The registrar after `oid` has been resolved against the catalog, and
/// the place of its generated type or the reason why it has none.
///
/// A type that was resolved before keeps its place. A base type goes by
/// the table of scalar mappings, an enumeration becomes an enum of its
/// labels, a composite a struct of its attributes, an array an array of
/// its element's type; a domain stands for its base type, optional where
/// the domain has no not-null constraint. `depth` bounds how deep the
/// constituents may nest.
pub open spec fn resolve_type(
    catalog: Seq<TypeIdentityView>,
    reg: RegistrarView,
    oid: u32,
    depth: nat,
) -> (RegistrarView, Result<int, ErrorView>)
    decreases depth, 0nat,
{
    match reg.resolved_as(oid) {
        Some(index) => (reg, Ok(index)),
        None => match identity_of(catalog, oid) {
            None => (reg, Err(unknown_type(oid))),
            Some(identity) => match identity.detail {
                TypeDetailView::Scalar => match scalar_target(identity.name) {
                    None => (reg, Err(unmapped_type(identity.name))),
                    Some(target) => reg.adopt(
                        oid,
                        GeneratedTypeView { name: target, kind: KindView::Scalar },
                    ),
                },
                TypeDetailView::Enum { labels } => reg.define(
                    oid,
                    GeneratedTypeView {
                        name: identity.name,
                        kind: KindView::Enum { variants: labels },
                    },
                ),
                TypeDetailView::Array { element } => if depth == 0 {
                    (reg, Err(too_deep(identity.name)))
                } else {
                    let (inner, found) = resolve_type(catalog, reg, element, (depth - 1) as nat);
                    match found {
                        Err(error) => (inner, Err(error)),
                        Ok(index) => inner.adopt(
                            oid,
                            GeneratedTypeView {
                                name: "Vec<"@ + inner.types[index].name + ">"@,
                                kind: KindView::Array { element: index },
                            },
                        ),
                    }
                },
                TypeDetailView::Domain { base, not_null } => if depth == 0 {
                    (reg, Err(too_deep(identity.name)))
                } else {
                    let (inner, found) = resolve_type(catalog, reg, base, (depth - 1) as nat);
                    match found {
                        Err(error) => (inner, Err(error)),
                        Ok(index) => if not_null {
                            (inner.remember(oid, index), Ok(index))
                        } else {
                            inner.adopt(
                                oid,
                                GeneratedTypeView {
                                    name: "Option<"@ + inner.types[index].name + ">"@,
                                    kind: KindView::Optional { inner: index },
                                },
                            )
                        },
                    }
                },
                TypeDetailView::Composite { fields } => if depth == 0 {
                    (reg, Err(too_deep(identity.name)))
                } else {
                    let (inner, made) = resolve_fields(
                        catalog,
                        reg,
                        fields,
                        Seq::empty(),
                        (depth - 1) as nat,
                    );
                    match made {
                        Err(error) => (inner, Err(error)),
                        Ok(resolved) => inner.define(
                            oid,
                            GeneratedTypeView {
                                name: identity.name,
                                kind: KindView::Struct { fields: resolved },
                            },
                        ),
                    }
                },
            },
        },
    }
}

/// The attributes of a composite type resolved one after the other,
/// where `done` holds the fields made of the first ones. The database
/// cannot constrain an attribute to be not null, so every field is
/// nullable.
pub open spec fn resolve_fields(
    catalog: Seq<TypeIdentityView>,
    reg: RegistrarView,
    fields: Seq<CompositeFieldView>,
    done: Seq<FieldView>,
    depth: nat,
) -> (RegistrarView, Result<Seq<FieldView>, ErrorView>)
    decreases depth, 1 + fields.len() - done.len(),
{
    if done.len() >= fields.len() {
        (reg, Ok(done))
    } else {
        let field = fields[done.len() as int];
        let (next, found) = resolve_type(catalog, reg, field.type_oid, depth);
        match found {
            Err(error) => (next, Err(error)),
            Ok(index) => resolve_fields(
                catalog,
                next,
                fields,
                done.push(FieldView { name: field.name, ty: index, nullable: true }),
                depth,
            ),
        }
    }
}

/// The place that a resolution gave, as a number.
pub open spec fn place_view(place: Result<usize, Error>) -> Result<int, ErrorView> {
    match place {
        Ok(index) => Ok(index as int),
        Err(error) => Err(error@),
    }
}

fn unknown_type_error(oid: u32) -> (error: Error)
    ensures
        error@ == unknown_type(oid),
{
    let mut subject = "oid ".to_owned();
    push_decimal(&mut subject, oid as i64);
    Error {
        kind: ErrorKind::TypeResolution,
        subject,
        detail: "the catalog does not know this type".to_owned(),
    }
}

fn unmapped_type_error(name: &String) -> (error: Error)
    ensures
        error@ == unmapped_type(name@),
{
    Error {
        kind: ErrorKind::TypeResolution,
        subject: name.clone(),
        detail: "no generated type is known for this database type".to_owned(),
    }
}

fn too_deep_error(name: &String) -> (error: Error)
    ensures
        error@ == too_deep(name@),
{
    Error {
        kind: ErrorKind::TypeResolution,
        subject: name.clone(),
        detail: "its constituents nest too deeply".to_owned(),
    }
}

/// Whether two lists of fields hold the same names, types and nullability.
fn same_fields(a: &Vec<GeneratedField>, b: &Vec<GeneratedField>) -> (same: bool)
    ensures
        same == (field_views(a@) == field_views(b@)),
{
    if a.len() != b.len() {
        assert(field_views(a@).len() != field_views(b@).len());
        return false;
    }
    let mut i: usize = 0;
    while i < a.len()
        invariant
            0 <= i <= a.len(),
            a.len() == b.len(),
            forall|j: int| 0 <= j < i ==> a[j]@ == b[j]@,
        decreases a.len() - i,
    {
        if !(a[i].name == b[i].name && a[i].ty == b[i].ty && a[i].nullable == b[i].nullable) {
            assert(field_views(a@)[i as int] != field_views(b@)[i as int]);
            return false;
        }
        i += 1;
    }
    assert(field_views(a@) =~= field_views(b@));
    true
}

/// Whether `a` is the same as `b`, where `b` is a scalar, an array or an optional.
fn same_plain(a: &GeneratedType, b: &GeneratedType) -> (same: bool)
    requires
        b@.kind is Scalar || b@.kind is Array || b@.kind is Optional,
    ensures
        same == (a@ == b@),
{
    match (&a.kind, &b.kind) {
        (GeneratedKind::Scalar, GeneratedKind::Scalar) => a.name == b.name,
        (GeneratedKind::Array { element: x }, GeneratedKind::Array { element: y }) => *x == *y
            && a.name == b.name,
        (GeneratedKind::Optional { inner: x }, GeneratedKind::Optional { inner: y }) => *x == *y
            && a.name == b.name,
        _ => false,
    }
}

impl TypeRegistrar {
    /// A registrar that holds nothing.
    pub fn new() -> (registrar: TypeRegistrar)
        ensures
            registrar@ == RegistrarView::empty(),
            registrar@.wf(),
    {
        let registrar = TypeRegistrar { types: Vec::new(), resolved: Vec::new(), rows: Vec::new() };
        assert(registrar@.types =~= Seq::empty());
        assert(registrar@.resolved =~= Seq::empty());
        assert(registrar@.rows =~= Seq::empty());
        registrar
    }

    /// The generated types, in the order in which they can be defined.
    pub fn types(&self) -> (types: &Vec<GeneratedType>)
        ensures
            type_views(types@) == self@.types,
    {
        &self.types
    }

    /// The places of the row types.
    pub fn rows(&self) -> (rows: &Vec<usize>)
        ensures
            index_views(rows@) == self@.rows,
    {
        &self.rows
    }

    /// The place that `oid` was resolved to, if it was resolved.
    pub fn lookup(&self, oid: u32) -> (place: Option<usize>)
        requires
            self@.wf(),
        ensures
            match place {
                Some(index) => self@.resolved_as(oid) == Some(index as int) && index
                    < self@.types.len(),
                None => self@.resolved_as(oid) is None,
            },
    {
        let ghost entries = memo_views(self.resolved@);
        let mut k = self.resolved.len();
        assert(entries.take(k as int) =~= entries);
        while k > 0
            invariant
                0 <= k <= self.resolved.len(),
                self@.wf(),
                entries == memo_views(self.resolved@),
                last_entry(entries, oid) == last_entry(entries.take(k as int), oid),
            decreases k,
        {
            k -= 1;
            proof {
                assert(entries.take(k + 1).last() == entries[k as int]);
                assert(entries.take(k + 1).drop_last() =~= entries.take(k as int));
            }
            if self.resolved[k].0 == oid {
                assert(entries[k as int] == self@.resolved[k as int]);
                assert(entries[k as int].1 == self.resolved[k as int].1);
                return Some(self.resolved[k].1);
            }
        }
        None
    }

    fn intern(&mut self, ty: GeneratedType) -> (place: usize)
        requires
            old(self)@.wf(),
            ty@.kind is Scalar || ty@.kind is Array || ty@.kind is Optional,
            refers_below(ty@, old(self)@.types.len() as int),
        ensures
            (final(self)@, place as int) == old(self)@.interned(ty@),
            final(self)@.wf(),
            old(self)@.extended_by(final(self)@),
            place < final(self)@.types.len(),
            final(self)@.types[place as int] == ty@,
    {
        let ghost types = self@.types;
        let mut i: usize = 0;
        while i < self.types.len()
            invariant
                0 <= i <= self.types.len(),
                *self == *old(self),
                self@.wf(),
                ty@.kind is Scalar || ty@.kind is Array || ty@.kind is Optional,
                types == self@.types,
                first_same(types, ty@, 0) == first_same(types, ty@, i as int),
            decreases self.types.len() - i,
        {
            if same_plain(&self.types[i], &ty) {
                assert(types[i as int] == self.types[i as int]@);
                assert(types =~= types.subrange(0, types.len() as int));
                return i;
            }
            i += 1;
        }
        self.types.push(ty);
        proof {
            assert(self@.types =~= types.push(ty@));
            assert(self@.resolved =~= old(self)@.resolved);
            assert(self@.rows =~= old(self)@.rows);
            assert(types =~= self@.types.subrange(0, types.len() as int));
        }
        i
    }

    fn remember(&mut self, oid: u32, place: usize)
        requires
            old(self)@.wf(),
            place < old(self)@.types.len(),
        ensures
            final(self)@ == old(self)@.remember(oid, place as int),
            final(self)@.wf(),
            old(self)@.extended_by(final(self)@),
    {
        self.resolved.push((oid, place));
        proof {
            assert(self@.resolved =~= old(self)@.resolved.push((oid, place as int)));
            assert(self@.types =~= old(self)@.types);
            assert(self@.rows =~= old(self)@.rows);
            assert(old(self)@.resolved =~= self@.resolved.subrange(
                0,
                old(self)@.resolved.len() as int,
            ));
        }
    }

    fn define(&mut self, oid: u32, ty: GeneratedType) -> (place: usize)
        requires
            old(self)@.wf(),
            refers_below(ty@, old(self)@.types.len() as int),
        ensures
            (final(self)@, Ok::<int, ErrorView>(place as int)) == old(self)@.define(oid, ty@),
            final(self)@.wf(),
            old(self)@.extended_by(final(self)@),
            place < final(self)@.types.len(),
    {
        let place = self.types.len();
        self.types.push(ty);
        self.resolved.push((oid, place));
        proof {
            assert(self@.types =~= old(self)@.types.push(ty@));
            assert(self@.resolved =~= old(self)@.resolved.push((oid, place as int)));
            assert(self@.rows =~= old(self)@.rows);
            assert(old(self)@.types =~= self@.types.subrange(0, place as int));
            assert(old(self)@.resolved =~= self@.resolved.subrange(
                0,
                old(self)@.resolved.len() as int,
            ));
        }
        place
    }

    fn wrapped_name(&self, opening: &str, index: usize) -> (name: String)
        requires
            index < self@.types.len(),
        ensures
            name@ == opening@ + self@.types[index as int].name + ">"@,
    {
        let mut name = opening.to_owned();
        name.append(self.types[index].name.as_str());
        name.append(">");
        name
    }

    fn resolve_within(&mut self, catalog: &Catalog, oid: u32, depth: usize) -> (place: Result<
        usize,
        Error,
    >)
        requires
            old(self)@.wf(),
        ensures
            (final(self)@, place_view(place)) == resolve_type(
                catalog@,
                old(self)@,
                oid,
                depth as nat,
            ),
            final(self)@.wf(),
            old(self)@.extended_by(final(self)@),
            place matches Ok(index) ==> index < final(self)@.types.len(),
        decreases depth, 0int,
    {
        if let Some(index) = self.lookup(oid) {
            return Ok(index);
        }
        let at = match catalog.find(oid) {
            None => {
                return Err(unknown_type_error(oid));
            },
            Some(at) => at,
        };
        let identity = &catalog.types[at];
        match &identity.detail {
            TypeDetail::Scalar => match scalar_mapping(&identity.name) {
                None => Err(unmapped_type_error(&identity.name)),
                Some(target) => {
                    let index = self.intern(
                        GeneratedType { name: target.to_owned(), kind: GeneratedKind::Scalar },
                    );
                    self.remember(oid, index);
                    Ok(index)
                },
            },
            TypeDetail::Enum { labels } => {
                let index = self.define(
                    oid,
                    GeneratedType {
                        name: identity.name.clone(),
                        kind: GeneratedKind::Enum { variants: copy_strings(labels) },
                    },
                );
                Ok(index)
            },
            TypeDetail::Array { element } => {
                if depth == 0 {
                    return Err(too_deep_error(&identity.name));
                }
                let inner = self.resolve_within(catalog, *element, depth - 1)?;
                let name = self.wrapped_name("Vec<", inner);
                let index = self.intern(
                    GeneratedType { name, kind: GeneratedKind::Array { element: inner } },
                );
                self.remember(oid, index);
                Ok(index)
            },
            TypeDetail::Domain { base, not_null } => {
                if depth == 0 {
                    return Err(too_deep_error(&identity.name));
                }
                let inner = self.resolve_within(catalog, *base, depth - 1)?;
                if *not_null {
                    self.remember(oid, inner);
                    Ok(inner)
                } else {
                    let name = self.wrapped_name("Option<", inner);
                    let index = self.intern(
                        GeneratedType { name, kind: GeneratedKind::Optional { inner } },
                    );
                    self.remember(oid, index);
                    Ok(index)
                }
            },
            TypeDetail::Composite { fields } => {
                if depth == 0 {
                    return Err(too_deep_error(&identity.name));
                }
                let made = self.resolve_all(catalog, fields, depth - 1)?;
                assert forall|f: int| 0 <= f < made.len() implies 0 <= (#[trigger] field_views(
                    made@,
                )[f]).ty < self@.types.len() by {
                    assert(field_views(made@)[f] == made[f]@);
                }
                let index = self.define(
                    oid,
                    GeneratedType {
                        name: identity.name.clone(),
                        kind: GeneratedKind::Struct { fields: made },
                    },
                );
                Ok(index)
            },
        }
    }

    fn resolve_all(&mut self, catalog: &Catalog, fields: &Vec<CompositeField>, depth: usize) -> (made:
        Result<Vec<GeneratedField>, Error>)
        requires
            old(self)@.wf(),
        ensures
            final(self)@.wf(),
            old(self)@.extended_by(final(self)@),
            match made {
                Ok(made) => resolve_fields(
                    catalog@,
                    old(self)@,
                    fields@.map_values(|f: CompositeField| f@),
                    Seq::empty(),
                    depth as nat,
                ) == (final(self)@, Ok::<Seq<FieldView>, ErrorView>(field_views(made@)))
                    && forall|f: int|
                    0 <= f < made.len() ==> (#[trigger] made[f]).ty < final(self)@.types.len(),
                Err(error) => resolve_fields(
                    catalog@,
                    old(self)@,
                    fields@.map_values(|f: CompositeField| f@),
                    Seq::empty(),
                    depth as nat,
                ) == (final(self)@, Err::<Seq<FieldView>, ErrorView>(error@)),
            },
        decreases depth, 1int,
    {
        let ghost wanted = fields@.map_values(|f: CompositeField| f@);
        let ghost start = self@;
        let mut made: Vec<GeneratedField> = Vec::new();
        let mut k: usize = 0;
        assert(field_views(made@) =~= Seq::empty());
        assert(start.types =~= start.types.subrange(0, start.types.len() as int));
        assert(start.resolved =~= start.resolved.subrange(0, start.resolved.len() as int));
        assert(start.rows =~= start.rows.subrange(0, start.rows.len() as int));
        while k < fields.len()
            invariant
                0 <= k <= fields.len(),
                k == made.len(),
                wanted == fields@.map_values(|f: CompositeField| f@),
                self@.wf(),
                start == old(self)@,
                start.extended_by(self@),
                forall|j: int| 0 <= j < made.len() ==> (#[trigger] made[j]).ty < self@.types.len(),
                resolve_fields(catalog@, start, wanted, Seq::empty(), depth as nat)
                    == resolve_fields(catalog@, self@, wanted, field_views(made@), depth as nat),
            decreases fields.len() - k,
        {
            let ghost before = self@;
            let ghost done = field_views(made@);
            let found = self.resolve_within(catalog, fields[k].type_oid, depth);
            proof {
                lemma_extension_chains(start, before, self@);
                assert(wanted[k as int] == fields[k as int]@);
            }
            match found {
                Err(error) => {
                    return Err(error);
                },
                Ok(index) => {
                    made.push(
                        GeneratedField { name: fields[k].name.clone(), ty: index, nullable: true },
                    );
                    proof {
                        assert(field_views(made@) =~= done.push(
                            FieldView {
                                name: wanted[k as int].name,
                                ty: index as int,
                                nullable: true,
                            },
                        ));
                    }
                },
            }
            k += 1;
        }
        Ok(made)
    }

    /// Resolves a database type to a generated type and remembers the
    /// answer: the same type resolves to the same place from then on.
    ///
    /// Fails where the catalog does not know the type or one of its
    /// constituents, where a base type has no mapping, and where the
    /// constituents nest more than [`MAX_DEPTH`] levels deep; the error
    /// names the type at fault.
    pub fn resolve(&mut self, catalog: &Catalog, oid: u32) -> (place: Result<usize, Error>)
        requires
            old(self)@.wf(),
        ensures
            (final(self)@, place_view(place)) == resolve_type(
                catalog@,
                old(self)@,
                oid,
                MAX_DEPTH as nat,
            ),
            final(self)@.wf(),
            old(self)@.extended_by(final(self)@),
            place matches Ok(index) ==> index < final(self)@.types.len(),
    {
        self.resolve_within(catalog, oid, MAX_DEPTH)
    }

    /// Registers a scalar type by its name in the generated code.
    pub fn scalar(&mut self, name: &str) -> (place: usize)
        requires
            old(self)@.wf(),
        ensures
            (final(self)@, place as int) == old(self)@.interned(
                GeneratedTypeView { name: name@, kind: KindView::Scalar },
            ),
            final(self)@.wf(),
            old(self)@.extended_by(final(self)@),
            place < final(self)@.types.len(),
    {
        self.intern(GeneratedType { name: name.to_owned(), kind: GeneratedKind::Scalar })
    }

    /// Registers the shape of a result row: the row type that has exactly
    /// these fields if there is one, a new row type otherwise. Fails where
    /// a field's type is not a place in this registrar; the error names
    /// the first such field.
    pub fn register_row_shape(&mut self, fields: Vec<GeneratedField>) -> (place: Result<
        usize,
        Error,
    >)
        requires
            old(self)@.wf(),
        ensures
            final(self)@.wf(),
            old(self)@.extended_by(final(self)@),
            ({
                let wanted = field_views(fields@);
                let unknown = first_unknown(wanted, old(self)@.types.len() as int, 0);
                if unknown < wanted.len() {
                    &&& place matches Err(error)
                    &&& error@ == unregistered_field(wanted[unknown].name)
                    &&& final(self)@ == old(self)@
                } else {
                    &&& place matches Ok(index)
                    &&& (final(self)@, index as int) == old(self)@.with_row(wanted)
                    &&& index < final(self)@.types.len()
                }
            }),
    {
        let ghost wanted = field_views(fields@);
        let ghost view = self@;
        let mut f: usize = 0;
        while f < fields.len()
            invariant
                0 <= f <= fields.len(),
                *self == *old(self),
                self@.wf(),
                view == self@,
                wanted == field_views(fields@),
                first_unknown(wanted, self@.types.len() as int, 0) == first_unknown(
                    wanted,
                    self@.types.len() as int,
                    f as int,
                ),
            decreases fields.len() - f,
        {
            assert(wanted[f as int] == fields[f as int]@);
            if fields[f].ty >= self.types.len() {
                proof {
                    lemma_extension_chains(view, view, view);
                }
                return Err(
                    Error {
                        kind: ErrorKind::TypeResolution,
                        subject: fields[f].name.clone(),
                        detail: "the type of this field is not registered".to_owned(),
                    },
                );
            }
            f += 1;
        }
        let mut k: usize = 0;
        while k < self.rows.len()
            invariant
                0 <= k <= self.rows.len(),
                *self == *old(self),
                view == self@,
                view.wf(),
                wanted == field_views(fields@),
                first_unknown(wanted, view.types.len() as int, 0) >= wanted.len(),
                view.row_place(wanted, 0) == view.row_place(wanted, k as int),
            decreases self.rows.len() - k,
        {
            let at = self.rows[k];
            assert(view.rows[k as int] == at);
            assert(view.types[at as int] == self.types[at as int]@);
            match &self.types[at].kind {
                GeneratedKind::Struct { fields: existing } => {
                    if same_fields(existing, &fields) {
                        proof {
                            lemma_extension_chains(view, view, view);
                        }
                        return Ok(at);
                    }
                },
                _ => {},
            }
            k += 1;
        }
        let mut name = "Row".to_owned();
        push_digits(&mut name, self.rows.len() as u128);
        let at = self.types.len();
        self.types.push(GeneratedType { name, kind: GeneratedKind::Struct { fields } });
        self.rows.push(at);
        proof {
            let row = GeneratedTypeView {
                name: row_name(view.rows.len()),
                kind: KindView::Struct { fields: wanted },
            };
            assert(self@.types =~= view.types.push(row));
            assert(self@.rows =~= view.rows.push(at as int));
            assert(self@.resolved =~= view.resolved);
            assert(view.types =~= self@.types.subrange(0, at as int));
            assert(view.rows =~= self@.rows.subrange(0, view.rows.len() as int));
            lemma_first_unknown(wanted, at as int, 0);
            lemma_row_place(view, wanted, 0);
            assert forall|a: int, b: int| 0 <= a < b < self@.rows.len() implies self@.types[
                #[trigger] self@.rows[a]].kind != self@.types[#[trigger] self@.rows[b]].kind by {
                if b == view.rows.len() {
                    assert(view.types[view.rows[a]].kind != row.kind);
                }
            }
        }
        Ok(at)
    }
}

/// An extension of an extension is an extension, and every registrar
/// extends itself.
pub proof fn lemma_extension_chains(a: RegistrarView, b: RegistrarView, c: RegistrarView)
    ensures
        a.extended_by(a),
        a.extended_by(b) && b.extended_by(c) ==> a.extended_by(c),
{
    assert(a.types =~= a.types.subrange(0, a.types.len() as int));
    assert(a.resolved =~= a.resolved.subrange(0, a.resolved.len() as int));
    assert(a.rows =~= a.rows.subrange(0, a.rows.len() as int));
    if a.extended_by(b) && b.extended_by(c) {
        assert(a.types =~= c.types.subrange(0, a.types.len() as int));
        assert(a.resolved =~= c.resolved.subrange(0, a.resolved.len() as int));
        assert(a.rows =~= c.rows.subrange(0, a.rows.len() as int));
    }
}

/// What the search for a field of unknown type finds.
pub proof fn lemma_first_unknown(fields: Seq<FieldView>, bound: int, from: int)
    requires
        0 <= from,
    ensures
        from <= first_unknown(fields, bound, from) || fields.len() < from,
        first_unknown(fields, bound, from) <= fields.len() || fields.len() < from,
        first_unknown(fields, bound, from) < fields.len() ==> !(0 <= fields[first_unknown(
            fields,
            bound,
            from,
        )].ty < bound),
        forall|f: int|
            from <= f < first_unknown(fields, bound, from) && f < fields.len() ==> 0 <= (
            #[trigger] fields[f]).ty < bound,
    decreases fields.len() - from,
{
    if from < fields.len() && 0 <= fields[from].ty < bound {
        lemma_first_unknown(fields, bound, from + 1);
    }
}

/// What the search for a row type finds.
pub proof fn lemma_row_place(reg: RegistrarView, fields: Seq<FieldView>, from: int)
    requires
        0 <= from <= reg.rows.len(),
    ensures
        from <= reg.row_place(fields, from) <= reg.rows.len(),
        reg.row_place(fields, from) < reg.rows.len() ==> reg.types[reg.rows[reg.row_place(
            fields,
            from,
        )]].kind == (KindView::Struct { fields }),
        forall|k: int|
            from <= k < reg.row_place(fields, from) ==> reg.types[#[trigger] reg.rows[k]].kind
                != (KindView::Struct { fields }),
    decreases reg.rows.len() - from,
{
    if from < reg.rows.len() && reg.types[reg.rows[from]].kind != (KindView::Struct { fields }) {
        lemma_row_place(reg, fields, from + 1);
    }
}


/// A row shape is registered once: after a registration the registrar
/// holds exactly one row type with these fields, a second registration
/// changes nothing, and both give the same place.
pub proof fn row_shape_is_registered_once(reg: RegistrarView, fields: Seq<FieldView>)
    requires
        reg.wf(),
        first_unknown(fields, reg.types.len() as int, 0) >= fields.len(),
    ensures
        ({
            let (first, place) = reg.with_row(fields);
            &&& first.wf()
            &&& reg.extended_by(first)
            &&& 0 <= place < first.types.len()
            &&& first.types[place].kind == (KindView::Struct { fields })
            &&& first.with_row(fields) == (first, place)
            &&& forall|k: int|
                0 <= k < first.rows.len() ==> (first.types[#[trigger] first.rows[k]].kind == (
                KindView::Struct { fields }) <==> first.rows[k] == place)
        }),
{
    let (first, place) = reg.with_row(fields);
    let k = reg.row_place(fields, 0);
    lemma_row_place(reg, fields, 0);
    lemma_extension_chains(reg, reg, reg);
    if k < reg.rows.len() {
        assert(first == reg);
        assert forall|j: int| 0 <= j < first.rows.len() implies (first.types[
            #[trigger] first.rows[j]].kind == (KindView::Struct { fields }) <==> first.rows[j]
            == place) by {
            if j < k {
                assert(reg.types[reg.rows[j]].kind != reg.types[reg.rows[k]].kind);
            }
            if k < j {
                assert(reg.types[reg.rows[k]].kind != reg.types[reg.rows[j]].kind);
            }
        }
    } else {
        let row = GeneratedTypeView {
            name: row_name(reg.rows.len()),
            kind: KindView::Struct { fields },
        };
        lemma_first_unknown(fields, reg.types.len() as int, 0);
        assert(first.types == reg.types.push(row));
        assert(first.rows == reg.rows.push(reg.types.len() as int));
        assert(reg.types =~= first.types.subrange(0, reg.types.len() as int));
        assert(reg.rows =~= first.rows.subrange(0, reg.rows.len() as int));
        assert forall|a: int, b: int| 0 <= a < b < first.rows.len() implies first.types[
            #[trigger] first.rows[a]].kind != first.types[#[trigger] first.rows[b]].kind by {
            if b == reg.rows.len() {
                assert(reg.types[reg.rows[a]].kind != row.kind);
            } else {
                assert(reg.types[reg.rows[a]].kind != reg.types[reg.rows[b]].kind);
            }
        }
        assert(first.wf());
        lemma_row_place(first, fields, 0);
        let again = first.row_place(fields, 0);
        assert(first.types[first.rows[reg.rows.len() as int]].kind == row.kind);
        if again < reg.rows.len() {
            assert(first.rows[again] == reg.rows[again]);
            assert(false);
        }
        assert forall|j: int| 0 <= j < first.rows.len() implies (first.types[
            #[trigger] first.rows[j]].kind == (KindView::Struct { fields }) <==> first.rows[j]
            == place) by {
            if j < reg.rows.len() {
                assert(first.rows[j] == reg.rows[j]);
            }
        }
    }
}

/// Whatever is registered after a row shape, the shape keeps its one row
/// type: two queries with the same result columns share it.
pub proof fn row_shape_stays_shared(reg: RegistrarView, later: RegistrarView, fields: Seq<FieldView>)
    requires
        reg.wf(),
        first_unknown(fields, reg.types.len() as int, 0) >= fields.len(),
        later.wf(),
        reg.with_row(fields).0.extended_by(later),
    ensures
        later.with_row(fields) == (later, reg.with_row(fields).1),
{
    let (first, place) = reg.with_row(fields);
    row_shape_is_registered_once(reg, fields);
    lemma_row_place(first, fields, 0);
    let k = first.row_place(fields, 0);
    assert(k < first.rows.len());
    assert(first.rows[k] == place);
    assert(later.rows[k] == first.rows[k]);
    assert(later.types[place] == first.types[place]);
    lemma_row_place(later, fields, 0);
    let found = later.row_place(fields, 0);
    if found < k {
        assert(later.types[later.rows[found]].kind != later.types[later.rows[k]].kind);
    }
    if found > k {
        assert(later.types[later.rows[k]].kind != (KindView::Struct { fields }));
    }
}

/// A type that was resolved resolves to the same place again, and the
/// second resolution changes nothing.
pub proof fn resolution_is_remembered(
    catalog: Seq<TypeIdentityView>,
    reg: RegistrarView,
    oid: u32,
    depth: nat,
    again: nat,
)
    ensures
        ({
            let (first, place) = resolve_type(catalog, reg, oid, depth);
            place matches Ok(index) ==> resolve_type(catalog, first, oid, again) == (
                first,
                Ok::<int, ErrorView>(index),
            )
        }),
{
    let (first, place) = resolve_type(catalog, reg, oid, depth);
    if let Ok(index) = place {
        if reg.resolved_as(oid) is None {
            assert(first.resolved.len() > 0 && first.resolved.last() == (oid, index));
        }
    }
}

} // verus!
