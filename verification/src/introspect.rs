//! From what the database reports of a statement to a prepared query.
//!
//! The database is asked to prepare each statement; it answers with the
//! types of the parameters and the names, types and nullability of the
//! result columns. Here those answers are joined with the query's
//! annotations and resolved to generated types.

use crate::catalog::{Catalog, TypeIdentityView};
use crate::error::{Error, ErrorView};
use crate::queries::{
    binding_name, effective_nullable, param_override, NullabilityOverrideView, ParamOverrideView,
    QueryDeclaration, QueryDeclarationView, ResultShape,
};
use crate::registrar::{
    field_views, first_unknown, index_views, lemma_extension_chains, lemma_first_unknown,
    resolve_type, FieldView, GeneratedField, GeneratedTypeView, KindView, RegistrarView,
    TypeRegistrar, MAX_DEPTH,
};
use vstd::prelude::*;

verus! {

/// What the database reports of one result column.
#[derive(Clone, Debug, PartialEq, Eq)]
pub struct ColumnDescription {
    pub name: String,
    pub type_oid: u32,
    pub nullable: bool,
}

/// What the database reports of one prepared statement.
#[derive(Clone, Debug, PartialEq, Eq)]
pub struct StatementDescription {
    /// The types of the parameters `$1`, `$2`, ...
    pub params: Vec<u32>,
    /// The result columns, in the order of the select list.
    pub columns: Vec<ColumnDescription>,
}

/// A query with its types resolved: places in the registrar for the
/// parameters, in their order, and for the row type if rows come back.
#[derive(Clone, Debug, PartialEq, Eq)]
pub struct PreparedQuery {
    pub name: String,
    pub sql: String,
    pub shape: ResultShape,
    pub params: Vec<usize>,
    pub row: Option<usize>,
}

/// The prepared queries of one file, in source order.
#[derive(Clone, Debug, PartialEq, Eq)]
pub struct PreparedModule {
    pub name: String,
    pub queries: Vec<PreparedQuery>,
}

/// The mathematical content of a [`ColumnDescription`].
pub struct ColumnDescriptionView {
    pub name: Seq<char>,
    pub type_oid: u32,
    pub nullable: bool,
}

/// The mathematical content of a [`StatementDescription`].
pub struct StatementDescriptionView {
    pub params: Seq<u32>,
    pub columns: Seq<ColumnDescriptionView>,
}

/// The mathematical content of a [`PreparedQuery`].
pub struct PreparedQueryView {
    pub name: Seq<char>,
    pub sql: Seq<char>,
    pub shape: ResultShape,
    pub params: Seq<int>,
    pub row: Option<int>,
}

/// The mathematical content of a [`PreparedModule`].
pub struct PreparedModuleView {
    pub name: Seq<char>,
    pub queries: Seq<PreparedQueryView>,
}

impl View for ColumnDescription {
    type V = ColumnDescriptionView;

    open spec fn view(&self) -> ColumnDescriptionView {
        ColumnDescriptionView { name: self.name@, type_oid: self.type_oid, nullable: self.nullable }
    }
}

/// The mathematical content of a list of columns.
pub open spec fn column_views(columns: Seq<ColumnDescription>) -> Seq<ColumnDescriptionView> {
    columns.map_values(|c: ColumnDescription| c@)
}

impl View for StatementDescription {
    type V = StatementDescriptionView;

    open spec fn view(&self) -> StatementDescriptionView {
        StatementDescriptionView { params: self.params@, columns: column_views(self.columns@) }
    }
}

impl View for PreparedQuery {
    type V = PreparedQueryView;

    open spec fn view(&self) -> PreparedQueryView {
        PreparedQueryView {
            name: self.name@,
            sql: self.sql@,
            shape: self.shape,
            params: index_views(self.params@),
            row: match self.row {
                Some(row) => Some(row as int),
                None => None,
            },
        }
    }
}

/// The mathematical content of a list of prepared queries.
pub open spec fn query_views(queries: Seq<PreparedQuery>) -> Seq<PreparedQueryView> {
    queries.map_values(|q: PreparedQuery| q@)
}

impl View for PreparedModule {
    type V = PreparedModuleView;

    open spec fn view(&self) -> PreparedModuleView {
        PreparedModuleView { name: self.name@, queries: query_views(self.queries@) }
    }
}

impl PreparedQueryView {
    /// Every type that the query refers to stands at a place below `bound`.
    pub open spec fn fits(self, bound: int) -> bool {
        &&& forall|k: int| 0 <= k < self.params.len() ==> 0 <= #[trigger] self.params[k] < bound
        &&& self.row matches Some(row) ==> 0 <= row < bound
    }
}

/// Whether a result column may be null as far as the catalog tells:
/// a column of a table unless the table constrains it to be not null,
/// and always a column that is computed.
pub open spec fn catalog_nullable(not_null: Option<bool>) -> bool {
    match not_null {
        Some(constrained) => !constrained,
        None => true,
    }
}

/// Tells whether a result column may be null from what the catalog says
/// of it: the not-null constraint of the table's column, or nothing
/// where the column is no column of a table.
pub fn reported_nullability(not_null: Option<bool>) -> (nullable: bool)
    ensures
        nullable == catalog_nullable(not_null),
{
    match not_null {
        Some(constrained) => !constrained,
        None => true,
    }
}

/// The scalar type that a parameter is declared to have.
pub open spec fn declared_scalar(name: Seq<char>) -> GeneratedTypeView {
    GeneratedTypeView { name, kind: KindView::Scalar }
}

/// The types of the parameters, one after the other, where `done` holds
/// those of the first ones. What the database reports of a parameter is
/// resolved first; then the declared type takes its place where the
/// query declares one for the parameter's position or name, whether or
/// not the resolution succeeded.
pub open spec fn prepared_params(
    catalog: Seq<TypeIdentityView>,
    reg: RegistrarView,
    overrides: Seq<ParamOverrideView>,
    params: Seq<u32>,
    done: Seq<int>,
) -> (RegistrarView, Result<Seq<int>, ErrorView>)
    decreases params.len() - done.len(),
{
    if done.len() >= params.len() {
        (reg, Ok(done))
    } else {
        let (raw, found) = resolve_type(catalog, reg, params[done.len() as int], MAX_DEPTH as nat);
        match param_override(overrides, done.len() as int + 1, 0) {
            Some(target) => {
                let (next, place) = raw.interned(declared_scalar(target));
                prepared_params(catalog, next, overrides, params, done.push(place))
            },
            None => match found {
                Err(error) => (raw, Err(error)),
                Ok(place) => prepared_params(catalog, raw, overrides, params, done.push(place)),
            },
        }
    }
}

/// The fields of the row, one after the other, where `done` holds those
/// of the first columns: each with the column's name, the resolved type,
/// and the nullability that the query declares or else the database
/// reports.
pub open spec fn prepared_columns(
    catalog: Seq<TypeIdentityView>,
    reg: RegistrarView,
    overrides: Seq<NullabilityOverrideView>,
    columns: Seq<ColumnDescriptionView>,
    done: Seq<FieldView>,
) -> (RegistrarView, Result<Seq<FieldView>, ErrorView>)
    decreases columns.len() - done.len(),
{
    if done.len() >= columns.len() {
        (reg, Ok(done))
    } else {
        let column = columns[done.len() as int];
        let (next, found) = resolve_type(catalog, reg, column.type_oid, MAX_DEPTH as nat);
        match found {
            Err(error) => (next, Err(error)),
            Ok(place) => prepared_columns(
                catalog,
                next,
                overrides,
                columns,
                done.push(
                    FieldView {
                        name: column.name,
                        ty: place,
                        nullable: effective_nullable(overrides, column.name, column.nullable),
                    },
                ),
            ),
        }
    }
}

/// The prepared query for a declaration that stands at `position` in its
/// file, and the registrar after its types have been resolved.
///
/// The parameters come first, then the columns. A query that is declared
/// to return no rows, or has no result columns, has no row type and its
/// columns are not looked at. Any other query gets the row type of its
/// columns' shape.
pub open spec fn prepared_query(
    catalog: Seq<TypeIdentityView>,
    reg: RegistrarView,
    declaration: QueryDeclarationView,
    position: int,
    description: StatementDescriptionView,
) -> (RegistrarView, Result<PreparedQueryView, ErrorView>) {
    let (with_params, params) = prepared_params(
        catalog,
        reg,
        declaration.param_types,
        description.params,
        Seq::empty(),
    );
    match params {
        Err(error) => (with_params, Err(error)),
        Ok(params) => if declaration.shape is NoRows || description.columns.len() == 0 {
            (
                with_params,
                Ok(
                    PreparedQueryView {
                        name: binding_name(declaration.name, position),
                        sql: declaration.sql,
                        shape: declaration.shape,
                        params,
                        row: None,
                    },
                ),
            )
        } else {
            let (with_columns, fields) = prepared_columns(
                catalog,
                with_params,
                declaration.nullability,
                description.columns,
                Seq::empty(),
            );
            match fields {
                Err(error) => (with_columns, Err(error)),
                Ok(fields) => {
                    let (with_row, row) = with_columns.with_row(fields);
                    (
                        with_row,
                        Ok(
                            PreparedQueryView {
                                name: binding_name(declaration.name, position),
                                sql: declaration.sql,
                                shape: declaration.shape,
                                params,
                                row: Some(row),
                            },
                        ),
                    )
                },
            }
        },
    }
}

/// What came of preparing a query, as mathematical content.
pub open spec fn prepared_view(prepared: Result<PreparedQuery, Error>) -> Result<
    PreparedQueryView,
    ErrorView,
> {
    match prepared {
        Ok(query) => Ok(query@),
        Err(error) => Err(error@),
    }
}

fn prepare_params(
    registrar: &mut TypeRegistrar,
    catalog: &Catalog,
    declaration: &QueryDeclaration,
    params: &Vec<u32>,
) -> (places: Result<Vec<usize>, Error>)
    requires
        old(registrar)@.wf(),
    ensures
        final(registrar)@.wf(),
        old(registrar)@.extended_by(final(registrar)@),
        match places {
            Ok(places) => {
                &&& prepared_params(
                    catalog@,
                    old(registrar)@,
                    declaration@.param_types,
                    params@,
                    Seq::empty(),
                ) == (final(registrar)@, Ok::<Seq<int>, ErrorView>(index_views(places@)))
                &&& forall|k: int|
                    0 <= k < places.len() ==> (#[trigger] places[k]) < final(registrar)@.types.len()
            },
            Err(error) => prepared_params(
                catalog@,
                old(registrar)@,
                declaration@.param_types,
                params@,
                Seq::empty(),
            ) == (final(registrar)@, Err::<Seq<int>, ErrorView>(error@)),
        },
{
    let ghost start = registrar@;
    let ghost overrides = declaration@.param_types;
    let mut places: Vec<usize> = Vec::new();
    let mut k: usize = 0;
    proof {
        assert(index_views(places@) =~= Seq::empty());
        lemma_extension_chains(start, start, start);
    }
    while k < params.len()
        invariant
            0 <= k <= params.len(),
            k == places.len(),
            registrar@.wf(),
            start == old(registrar)@,
            start.extended_by(registrar@),
            overrides == declaration@.param_types,
            forall|j: int| 0 <= j < places.len() ==> (#[trigger] places[j]) < registrar@.types.len(),
            prepared_params(catalog@, start, overrides, params@, Seq::empty()) == prepared_params(
                catalog@,
                registrar@,
                overrides,
                params@,
                index_views(places@),
            ),
        decreases params.len() - k,
    {
        let ghost before = registrar@;
        let ghost done = index_views(places@);
        let found = registrar.resolve(catalog, params[k]);
        let ghost raw = registrar@;
        proof {
            lemma_extension_chains(start, before, raw);
        }
        let place = match declaration.declared_type(k + 1) {
            Some(target) => registrar.scalar(target.as_str()),
            None => match found {
                Err(error) => {
                    return Err(error);
                },
                Ok(place) => place,
            },
        };
        proof {
            lemma_extension_chains(start, raw, registrar@);
        }
        places.push(place);
        assert(index_views(places@) =~= done.push(place as int));
        k += 1;
    }
    Ok(places)
}

fn prepare_columns(
    registrar: &mut TypeRegistrar,
    catalog: &Catalog,
    declaration: &QueryDeclaration,
    columns: &Vec<ColumnDescription>,
) -> (fields: Result<Vec<GeneratedField>, Error>)
    requires
        old(registrar)@.wf(),
    ensures
        final(registrar)@.wf(),
        old(registrar)@.extended_by(final(registrar)@),
        match fields {
            Ok(fields) => {
                &&& prepared_columns(
                    catalog@,
                    old(registrar)@,
                    declaration@.nullability,
                    column_views(columns@),
                    Seq::empty(),
                ) == (final(registrar)@, Ok::<Seq<FieldView>, ErrorView>(field_views(fields@)))
                &&& forall|k: int|
                    0 <= k < fields.len() ==> (#[trigger] fields[k]).ty
                        < final(registrar)@.types.len()
            },
            Err(error) => prepared_columns(
                catalog@,
                old(registrar)@,
                declaration@.nullability,
                column_views(columns@),
                Seq::empty(),
            ) == (final(registrar)@, Err::<Seq<FieldView>, ErrorView>(error@)),
        },
{
    let ghost start = registrar@;
    let ghost overrides = declaration@.nullability;
    let ghost wanted = column_views(columns@);
    let mut fields: Vec<GeneratedField> = Vec::new();
    let mut k: usize = 0;
    proof {
        assert(field_views(fields@) =~= Seq::empty());
        lemma_extension_chains(start, start, start);
    }
    while k < columns.len()
        invariant
            0 <= k <= columns.len(),
            k == fields.len(),
            registrar@.wf(),
            start == old(registrar)@,
            start.extended_by(registrar@),
            overrides == declaration@.nullability,
            wanted == column_views(columns@),
            forall|j: int|
                0 <= j < fields.len() ==> (#[trigger] fields[j]).ty < registrar@.types.len(),
            prepared_columns(catalog@, start, overrides, wanted, Seq::empty()) == prepared_columns(
                catalog@,
                registrar@,
                overrides,
                wanted,
                field_views(fields@),
            ),
        decreases columns.len() - k,
    {
        let ghost before = registrar@;
        let ghost done = field_views(fields@);
        let column = &columns[k];
        assert(wanted[k as int] == column@);
        let found = registrar.resolve(catalog, column.type_oid);
        proof {
            lemma_extension_chains(start, before, registrar@);
        }
        match found {
            Err(error) => {
                return Err(error);
            },
            Ok(place) => {
                let nullable = declaration.nullable(&column.name, column.nullable);
                fields.push(GeneratedField { name: column.name.clone(), ty: place, nullable });
                assert(field_views(fields@) =~= done.push(
                    FieldView { name: column@.name, ty: place as int, nullable },
                ));
            },
        }
        k += 1;
    }
    Ok(fields)
}

/// Joins a query declaration with what the database reports of its
/// statement: resolves the types of the parameters and of the result
/// columns, applies the declared parameter types and the declared
/// nullability, and registers the shape of the row.
///
/// `position` is the query's place in its file, counted from one. Fails
/// with the error of the first parameter that has no declared type and
/// whose type cannot be resolved, or else of the first such column.
pub fn prepare_query(
    registrar: &mut TypeRegistrar,
    catalog: &Catalog,
    declaration: &QueryDeclaration,
    position: usize,
    description: &StatementDescription,
) -> (prepared: Result<PreparedQuery, Error>)
    requires
        old(registrar)@.wf(),
    ensures
        (final(registrar)@, prepared_view(prepared)) == prepared_query(
            catalog@,
            old(registrar)@,
            declaration@,
            position as int,
            description@,
        ),
        final(registrar)@.wf(),
        old(registrar)@.extended_by(final(registrar)@),
        prepared matches Ok(query) ==> query@.fits(final(registrar)@.types.len() as int),
{
    let ghost start = registrar@;
    let params = match prepare_params(registrar, catalog, declaration, &description.params) {
        Err(error) => {
            return Err(error);
        },
        Ok(params) => params,
    };
    let ghost with_params = registrar@;
    let no_rows = match declaration.shape {
        ResultShape::NoRows => true,
        _ => false,
    };
    if no_rows || description.columns.len() == 0 {
        return Ok(
            PreparedQuery {
                name: declaration.binding(position),
                sql: declaration.sql.clone(),
                shape: declaration.shape,
                params,
                row: None,
            },
        );
    }
    let fields = match prepare_columns(registrar, catalog, declaration, &description.columns) {
        Err(error) => {
            proof {
                lemma_extension_chains(start, with_params, registrar@);
            }
            return Err(error);
        },
        Ok(fields) => fields,
    };
    let ghost with_columns = registrar@;
    let ghost wanted = field_views(fields@);
    proof {
        lemma_first_unknown(wanted, with_columns.types.len() as int, 0);
        let unknown = first_unknown(wanted, with_columns.types.len() as int, 0);
        if unknown < wanted.len() {
            assert(wanted[unknown] == fields[unknown]@);
        }
    }
    match registrar.register_row_shape(fields) {
        Err(error) => Err(error),
        Ok(row) => {
            proof {
                lemma_extension_chains(start, with_params, with_columns);
                lemma_extension_chains(start, with_columns, registrar@);
            }
            Ok(
                PreparedQuery {
                    name: declaration.binding(position),
                    sql: declaration.sql.clone(),
                    shape: declaration.shape,
                    params,
                    row: Some(row),
                },
            )
        },
    }
}

/// A declared nullability decides the field, whatever the database
/// reports of the column: two reports that differ only there give the
/// same fields.
pub proof fn declared_nullability_decides_field(
    catalog: Seq<TypeIdentityView>,
    reg: RegistrarView,
    overrides: Seq<NullabilityOverrideView>,
    column: ColumnDescriptionView,
)
    requires
        crate::queries::nullability_override(overrides, column.name, 0) is Some,
    ensures
        prepared_columns(catalog, reg, overrides, seq![column], Seq::empty()) == prepared_columns(
            catalog,
            reg,
            overrides,
            seq![ColumnDescriptionView { nullable: !column.nullable, ..column }],
            Seq::empty(),
        ),
        prepared_columns(catalog, reg, overrides, seq![column], Seq::empty()).1 matches Ok(fields)
            ==> fields.len() == 1 && fields[0].nullable == crate::queries::nullability_override(
            overrides,
            column.name,
            0,
        )->0,
{
    let other = ColumnDescriptionView { nullable: !column.nullable, ..column };
    let (next, found) = resolve_type(catalog, reg, column.type_oid, MAX_DEPTH as nat);
    if let Ok(place) = found {
        let declared = effective_nullable(overrides, column.name, column.nullable);
        let field = FieldView { name: column.name, ty: place, nullable: declared };
        let done = Seq::<FieldView>::empty().push(field);
        assert(prepared_columns(catalog, next, overrides, seq![column], done) == (
            next,
            Ok::<Seq<FieldView>, ErrorView>(done),
        ));
        assert(prepared_columns(catalog, next, overrides, seq![other], done) == (
            next,
            Ok::<Seq<FieldView>, ErrorView>(done),
        ));
    }
}

} // verus!
