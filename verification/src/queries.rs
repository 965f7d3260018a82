//! Query declarations: SQL statements with their annotations.

use crate::text::{decimal_digits, push_digits};
use vstd::prelude::*;

verus! {

/// How many rows a query is declared to return.
#[derive(Clone, Copy, PartialEq, Eq, Debug, Structural)]
pub enum ResultShape {
    /// The statement is executed for its effect.
    NoRows,
    /// At most one row.
    OneRow,
    /// Any number of rows.
    ManyRows,
}

/// What a parameter type override is keyed by.
#[derive(Clone, Debug, PartialEq, Eq)]
pub enum ParamKey {
    /// The parameter's position, counted from one as in `$1`.
    Position(usize),
    /// The parameter's name in the binding.
    Name(String),
}

/// The declared type of one parameter, in place of the database's.
#[derive(Clone, Debug, PartialEq, Eq)]
pub struct ParamOverride {
    pub key: ParamKey,
    pub target: String,
}

/// The declared nullability of one result column, in place of the database's.
#[derive(Clone, Debug, PartialEq, Eq)]
pub struct NullabilityOverride {
    pub column: String,
    pub nullable: bool,
}

/// One SQL statement with its annotations.
#[derive(Clone, Debug, PartialEq, Eq)]
pub struct QueryDeclaration {
    pub name: Option<String>,
    pub sql: String,
    pub shape: ResultShape,
    pub param_types: Vec<ParamOverride>,
    pub nullability: Vec<NullabilityOverride>,
}

/// The queries of one file, in source order.
#[derive(Clone, Debug, PartialEq, Eq)]
pub struct QueryModule {
    pub name: String,
    pub queries: Vec<QueryDeclaration>,
}

/// The mathematical content of a [`ParamKey`].
pub enum ParamKeyView {
    Position(int),
    Name(Seq<char>),
}

/// The mathematical content of a [`ParamOverride`].
pub struct ParamOverrideView {
    pub key: ParamKeyView,
    pub target: Seq<char>,
}

/// The mathematical content of a [`NullabilityOverride`].
pub struct NullabilityOverrideView {
    pub column: Seq<char>,
    pub nullable: bool,
}

/// The mathematical content of a [`QueryDeclaration`].
pub struct QueryDeclarationView {
    pub name: Option<Seq<char>>,
    pub sql: Seq<char>,
    pub shape: ResultShape,
    pub param_types: Seq<ParamOverrideView>,
    pub nullability: Seq<NullabilityOverrideView>,
}

/// The mathematical content of a [`QueryModule`].
pub struct QueryModuleView {
    pub name: Seq<char>,
    pub queries: Seq<QueryDeclarationView>,
}

impl View for ParamKey {
    type V = ParamKeyView;

    open spec fn view(&self) -> ParamKeyView {
        match *self {
            ParamKey::Position(position) => ParamKeyView::Position(position as int),
            ParamKey::Name(name) => ParamKeyView::Name(name@),
        }
    }
}

impl View for ParamOverride {
    type V = ParamOverrideView;

    open spec fn view(&self) -> ParamOverrideView {
        ParamOverrideView { key: self.key@, target: self.target@ }
    }
}

impl View for NullabilityOverride {
    type V = NullabilityOverrideView;

    open spec fn view(&self) -> NullabilityOverrideView {
        NullabilityOverrideView { column: self.column@, nullable: self.nullable }
    }
}

/// The mathematical content of a list of parameter overrides.
pub open spec fn param_override_views(overrides: Seq<ParamOverride>) -> Seq<ParamOverrideView> {
    overrides.map_values(|o: ParamOverride| o@)
}

/// The mathematical content of a list of nullability overrides.
pub open spec fn nullability_views(overrides: Seq<NullabilityOverride>) -> Seq<
    NullabilityOverrideView,
> {
    overrides.map_values(|o: NullabilityOverride| o@)
}

impl View for QueryDeclaration {
    type V = QueryDeclarationView;

    open spec fn view(&self) -> QueryDeclarationView {
        QueryDeclarationView {
            name: match self.name {
                Some(name) => Some(name@),
                None => None,
            },
            sql: self.sql@,
            shape: self.shape,
            param_types: param_override_views(self.param_types@),
            nullability: nullability_views(self.nullability@),
        }
    }
}

/// The mathematical content of a list of declarations.
pub open spec fn declaration_views(queries: Seq<QueryDeclaration>) -> Seq<QueryDeclarationView> {
    queries.map_values(|q: QueryDeclaration| q@)
}

impl View for QueryModule {
    type V = QueryModuleView;

    open spec fn view(&self) -> QueryModuleView {
        QueryModuleView { name: self.name@, queries: declaration_views(self.queries@) }
    }
}

/// The name of the parameter at `position` in a binding.
pub open spec fn param_name(position: int) -> Seq<char> {
    "arg"@ + decimal_digits(position as nat)
}

/// The name of the binding of the query that stands at `position` in its
/// file, counted from one: the declared name, or one made of the position.
pub open spec fn binding_name(name: Option<Seq<char>>, position: int) -> Seq<char> {
    match name {
        Some(name) => name,
        None => "query_"@ + decimal_digits(position as nat),
    }
}

/// Whether an override's key names the parameter at `position`.
pub open spec fn key_names(key: ParamKeyView, position: int) -> bool {
    match key {
        ParamKeyView::Position(p) => p == position,
        ParamKeyView::Name(name) => name == param_name(position),
    }
}

/// The declared type of the parameter at `position`: that of the first
/// override at or after `from` whose key names it.
pub open spec fn param_override(overrides: Seq<ParamOverrideView>, position: int, from: int)
    -> Option<Seq<char>>
    decreases overrides.len() - from,
{
    if from < 0 || from >= overrides.len() {
        None
    } else if key_names(overrides[from].key, position) {
        Some(overrides[from].target)
    } else {
        param_override(overrides, position, from + 1)
    }
}

/// The declared nullability of `column`: that of the first override at
/// or after `from` that names it.
pub open spec fn nullability_override(
    overrides: Seq<NullabilityOverrideView>,
    column: Seq<char>,
    from: int,
) -> Option<bool>
    decreases overrides.len() - from,
{
    if from < 0 || from >= overrides.len() {
        None
    } else if overrides[from].column == column {
        Some(overrides[from].nullable)
    } else {
        nullability_override(overrides, column, from + 1)
    }
}

/// Whether a result column may be null: as declared where the query
/// declares it, as the database reports otherwise.
pub open spec fn effective_nullable(
    overrides: Seq<NullabilityOverrideView>,
    column: Seq<char>,
    reported: bool,
) -> bool {
    match nullability_override(overrides, column, 0) {
        Some(declared) => declared,
        None => reported,
    }
}

/// A declared nullability wins over whatever the database reports.
pub proof fn declared_nullability_wins(
    overrides: Seq<NullabilityOverrideView>,
    column: Seq<char>,
    reported: bool,
)
    requires
        nullability_override(overrides, column, 0) is Some,
    ensures
        effective_nullable(overrides, column, reported) == nullability_override(
            overrides,
            column,
            0,
        )->0,
        effective_nullable(overrides, column, reported) == effective_nullable(
            overrides,
            column,
            !reported,
        ),
{
}

/// The name of the parameter at `position`.
pub(crate) fn parameter_name(position: usize) -> (name: String)
    ensures
        name@ == param_name(position as int),
{
    let mut name = "arg".to_owned();
    push_digits(&mut name, position as u128);
    name
}

impl QueryDeclaration {
    /// The name of this query's binding, where the query stands at
    /// `position` in its file, counted from one.
    pub fn binding(&self, position: usize) -> (name: String)
        ensures
            name@ == binding_name(self@.name, position as int),
    {
        match &self.name {
            Some(name) => name.clone(),
            None => {
                let mut name = "query_".to_owned();
                push_digits(&mut name, position as u128);
                name
            },
        }
    }

    /// The declared type of the parameter at `position`, counted from one.
    pub fn declared_type(&self, position: usize) -> (declared: Option<&String>)
        ensures
            match declared {
                Some(target) => param_override(self@.param_types, position as int, 0) == Some(
                    target@,
                ),
                None => param_override(self@.param_types, position as int, 0) is None,
            },
    {
        let name = parameter_name(position);
        let ghost overrides = self@.param_types;
        let mut k: usize = 0;
        while k < self.param_types.len()
            invariant
                0 <= k <= self.param_types.len(),
                overrides == param_override_views(self.param_types@),
                name@ == param_name(position as int),
                param_override(overrides, position as int, 0) == param_override(
                    overrides,
                    position as int,
                    k as int,
                ),
            decreases self.param_types.len() - k,
        {
            assert(overrides[k as int] == self.param_types[k as int]@);
            let names = match &self.param_types[k].key {
                ParamKey::Position(p) => *p == position,
                ParamKey::Name(n) => *n == name,
            };
            if names {
                return Some(&self.param_types[k].target);
            }
            k += 1;
        }
        None
    }

    /// Whether the result column `column` may be null, given what the
    /// database reports of it.
    pub fn nullable(&self, column: &String, reported: bool) -> (nullable: bool)
        ensures
            nullable == effective_nullable(self@.nullability, column@, reported),
    {
        let ghost overrides = self@.nullability;
        let mut k: usize = 0;
        while k < self.nullability.len()
            invariant
                0 <= k <= self.nullability.len(),
                overrides == nullability_views(self.nullability@),
                nullability_override(overrides, column@, 0) == nullability_override(
                    overrides,
                    column@,
                    k as int,
                ),
            decreases self.nullability.len() - k,
        {
            assert(overrides[k as int] == self.nullability[k as int]@);
            if self.nullability[k].column == *column {
                return self.nullability[k].nullable;
            }
            k += 1;
        }
        reported
    }
}


/// The places of the queries of the first `upto` modules, in source
/// order: for each query the number of its module and its number in the
/// module, both counted from zero.
pub open spec fn places(modules: Seq<QueryModuleView>, upto: int) -> Seq<(int, int)>
    decreases upto,
{
    if upto <= 0 {
        Seq::empty()
    } else {
        places(modules, upto - 1) + Seq::new(
            modules[upto - 1].queries.len(),
            |q: int| (upto - 1, q),
        )
    }
}

/// The mathematical content of a list of modules.
pub open spec fn module_views(modules: Seq<QueryModule>) -> Seq<QueryModuleView> {
    modules.map_values(|m: QueryModule| m@)
}

/// The places of a list as numbers.
pub open spec fn place_views(list: Seq<(usize, usize)>) -> Seq<(int, int)> {
    list.map_values(|p: (usize, usize)| (p.0 as int, p.1 as int))
}

/// Lists the queries of all modules in source order, each by the number
/// of its module and its number in the module. The query at place `k` of
/// the list is the one that a run asks about as query `k`.
pub fn query_places(modules: &Vec<QueryModule>) -> (list: Vec<(usize, usize)>)
    ensures
        place_views(list@) == places(module_views(modules@), modules.len() as int),
        forall|k: int|
            0 <= k < list.len() ==> (#[trigger] list[k]).0 < modules.len() && list[k].1
                < modules[list[k].0 as int].queries.len(),
{
    let ghost views = module_views(modules@);
    let mut list: Vec<(usize, usize)> = Vec::new();
    let mut m: usize = 0;
    assert(place_views(list@) =~= places(views, 0));
    while m < modules.len()
        invariant
            0 <= m <= modules.len(),
            views == module_views(modules@),
            place_views(list@) == places(views, m as int),
            forall|k: int|
                0 <= k < list.len() ==> (#[trigger] list[k]).0 < modules.len() && list[k].1
                    < modules[list[k].0 as int].queries.len(),
        decreases modules.len() - m,
    {
        let ghost before = place_views(list@);
        let count = modules[m].queries.len();
        assert(views[m as int].queries.len() == count);
        let mut q: usize = 0;
        assert(place_views(list@) =~= before + Seq::new(0, |k: int| (m as int, k)));
        while q < count
            invariant
                0 <= q <= count,
                0 <= m < modules.len(),
                count == modules[m as int].queries.len(),
                place_views(list@) == before + Seq::new(q as nat, |k: int| (m as int, k)),
                forall|k: int|
                    0 <= k < list.len() ==> (#[trigger] list[k]).0 < modules.len() && list[k].1
                        < modules[list[k].0 as int].queries.len(),
            decreases count - q,
        {
            let ghost earlier = place_views(list@);
            list.push((m, q));
            assert(place_views(list@) =~= earlier.push((m as int, q as int)));
            assert(earlier.push((m as int, q as int)) =~= before + Seq::new(
                (q + 1) as nat,
                |k: int| (m as int, k),
            ));
            q += 1;
        }
        m += 1;
    }
    list
}

} // verus!
