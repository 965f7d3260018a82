//! The generated text.
//!
//! For each module: the definitions of the types that its queries need,
//! each after the types it refers to, then one binding for each query,
//! in source order. The text depends on nothing but the registrar, the
//! prepared queries and the calling convention.

use crate::error::{Error, ErrorKind, ErrorView};
use crate::introspect::{
    query_views, PreparedModule, PreparedModuleView, PreparedQuery, PreparedQueryView,
};
use crate::queries::{param_name, parameter_name, ResultShape};
use crate::registrar::{
    field_views, refers_below, type_views, FieldView, GeneratedField, GeneratedKind,
    GeneratedType, GeneratedTypeView, KindView, RegistrarView, TypeRegistrar,
};
use crate::catalog::texts;
use crate::text::{decimal_digits, push_digits, to_chars};
use vstd::prelude::*;

verus! {

/// Every type refers to types at earlier places only.
pub open spec fn in_definition_order(types: Seq<GeneratedTypeView>) -> bool {
    forall|i: int| 0 <= i < types.len() ==> refers_below(#[trigger] types[i], i)
}

/// Whether `ty` refers to the type at place `i`.
pub open spec fn refers_to(ty: GeneratedTypeView, i: int) -> bool {
    match ty.kind {
        KindView::Struct { fields } => exists|f: int|
            0 <= f < fields.len() && (#[trigger] fields[f]).ty == i,
        KindView::Array { element } => element == i,
        KindView::Optional { inner } => inner == i,
        _ => false,
    }
}

/// Whether a query refers to the type at place `i`, as the type of a
/// parameter or as its row type.
pub open spec fn mentions(query: PreparedQueryView, i: int) -> bool {
    query.row == Some(i) || exists|k: int|
        0 <= k < query.params.len() && #[trigger] query.params[k] == i
}

/// The marks with those of the types added that `ty` refers to.
pub open spec fn with_refs(marks: Seq<bool>, ty: GeneratedTypeView) -> Seq<bool> {
    Seq::new(marks.len(), |i: int| marks[i] || refers_to(ty, i))
}

/// The marks with those of the types added that `query` refers to.
pub open spec fn with_query(marks: Seq<bool>, query: PreparedQueryView) -> Seq<bool> {
    Seq::new(marks.len(), |i: int| marks[i] || mentions(query, i))
}

/// The types that the first `upto` queries refer to, as one mark for
/// each of `count` types.
pub open spec fn asked_for(queries: Seq<PreparedQueryView>, count: nat, upto: int) -> Seq<bool>
    decreases upto,
{
    if upto <= 0 {
        Seq::new(count, |i: int| false)
    } else {
        with_query(asked_for(queries, count, upto - 1), queries[upto - 1])
    }
}

/// The marks after the types below `below` have been gone through from
/// the last to the first, each marked type marking what it refers to.
pub open spec fn swept(types: Seq<GeneratedTypeView>, marks: Seq<bool>, below: int) -> Seq<bool>
    decreases below,
{
    if below <= 0 {
        marks
    } else if marks[below - 1] {
        swept(types, with_refs(marks, types[below - 1]), below - 1)
    } else {
        swept(types, marks, below - 1)
    }
}

/// The types that the queries need: those they refer to, those that
/// these refer to, and so on.
pub open spec fn needed(types: Seq<GeneratedTypeView>, queries: Seq<PreparedQueryView>) -> Seq<
    bool,
> {
    swept(types, asked_for(queries, types.len(), queries.len() as int), types.len() as int)
}

/// The type of a field as it is written: optional where the field is nullable.
pub open spec fn type_ref(types: Seq<GeneratedTypeView>, field: FieldView) -> Seq<char> {
    if field.nullable {
        "Option<"@ + types[field.ty].name + ">"@
    } else {
        types[field.ty].name
    }
}

/// The line of one field in the definition of a struct.
pub open spec fn field_line(types: Seq<GeneratedTypeView>, field: FieldView) -> Seq<char> {
    "        pub "@ + field.name + ": "@ + type_ref(types, field) + ",\n"@
}

/// The lines of the first `upto` fields.
pub open spec fn field_lines(types: Seq<GeneratedTypeView>, fields: Seq<FieldView>, upto: int)
    -> Seq<char>
    decreases upto,
{
    if upto <= 0 {
        Seq::empty()
    } else {
        field_lines(types, fields, upto - 1) + field_line(types, fields[upto - 1])
    }
}

/// The lines of the first `upto` variants in the definition of an enum.
pub open spec fn variant_lines(variants: Seq<Seq<char>>, upto: int) -> Seq<char>
    decreases upto,
{
    if upto <= 0 {
        Seq::empty()
    } else {
        variant_lines(variants, upto - 1) + "        "@ + variants[upto - 1] + ",\n"@
    }
}

/// The definition of a type: a struct or an enum; nothing for a type
/// that is written by its name alone.
pub open spec fn definition(types: Seq<GeneratedTypeView>, ty: GeneratedTypeView) -> Seq<char> {
    match ty.kind {
        KindView::Struct { fields } => "    #[derive(Debug, Clone, PartialEq)]\n    pub struct "@
            + ty.name + " {\n"@ + field_lines(types, fields, fields.len() as int) + "    }\n\n"@,
        KindView::Enum { variants } =>
            "    #[derive(Debug, Clone, Copy, PartialEq, Eq)]\n    pub enum "@ + ty.name
                + " {\n"@ + variant_lines(variants, variants.len() as int) + "    }\n\n"@,
        _ => Seq::empty(),
    }
}

/// The definitions of the marked types among the first `upto`, in the
/// order of their places.
pub open spec fn definitions(types: Seq<GeneratedTypeView>, marks: Seq<bool>, upto: int) -> Seq<
    char,
>
    decreases upto,
{
    if upto <= 0 {
        Seq::empty()
    } else if marks[upto - 1] {
        definitions(types, marks, upto - 1) + definition(types, types[upto - 1])
    } else {
        definitions(types, marks, upto - 1)
    }
}

/// One character as it stands between the quotes of a string literal.
pub open spec fn escape_char(c: char) -> Seq<char> {
    if c == '"' {
        "\\\""@
    } else if c == '\\' {
        "\\\\"@
    } else {
        seq![c]
    }
}

/// The text as it stands between the quotes of a string literal.
pub open spec fn escaped(text: Seq<char>) -> Seq<char>
    decreases text.len(),
{
    if text.len() == 0 {
        Seq::empty()
    } else {
        escaped(text.drop_last()) + escape_char(text.last())
    }
}

/// The parameters of a binding behind the client: `, arg1: &T1, arg2: &T2`.
pub open spec fn parameters(types: Seq<GeneratedTypeView>, params: Seq<int>, upto: int) -> Seq<
    char,
>
    decreases upto,
{
    if upto <= 0 {
        Seq::empty()
    } else {
        parameters(types, params, upto - 1) + ", "@ + param_name(upto) + ": &"@
            + types[params[upto - 1]].name
    }
}

/// The arguments handed to the client: `arg1, arg2, `.
pub open spec fn arguments(upto: int) -> Seq<char>
    decreases upto,
{
    if upto <= 0 {
        Seq::empty()
    } else {
        arguments(upto - 1) + param_name(upto) + ", "@
    }
}

/// The fields of a row read from the columns in their order:
/// `id: row.get(0), label: row.get(1), `.
pub open spec fn initializers(fields: Seq<FieldView>, upto: int) -> Seq<char>
    decreases upto,
{
    if upto <= 0 {
        Seq::empty()
    } else {
        initializers(fields, upto - 1) + fields[upto - 1].name + ": row.get("@ + decimal_digits(
            (upto - 1) as nat,
        ) + "), "@
    }
}

/// The fields of a struct; none of any other type.
pub open spec fn fields_of(ty: GeneratedTypeView) -> Seq<FieldView> {
    match ty.kind {
        KindView::Struct { fields } => fields,
        _ => Seq::empty(),
    }
}

/// A row built from the columns of `row`.
pub open spec fn row_literal(ty: GeneratedTypeView) -> Seq<char> {
    ty.name + " { "@ + initializers(fields_of(ty), fields_of(ty).len() as int) + "}"@
}

/// The call of the client's `method` with the query's SQL and arguments.
pub open spec fn call(query: PreparedQueryView, method: Seq<char>, suspendable: bool) -> Seq<char> {
    "client."@ + method + "(\""@ + escaped(query.sql) + "\", &["@ + arguments(
        query.params.len() as int,
    ) + "])"@ + if suspendable {
        ".await"@
    } else {
        ""@
    }
}

/// Whether the binding hands rows back.
pub open spec fn returns_rows(query: PreparedQueryView) -> bool {
    query.row is Some && !(query.shape is NoRows)
}

/// What the binding returns on success: the number of rows affected, at
/// most one row, or all rows.
pub open spec fn returned(types: Seq<GeneratedTypeView>, query: PreparedQueryView) -> Seq<char> {
    if !returns_rows(query) {
        "u64"@
    } else if query.shape is OneRow {
        "Option<"@ + types[query.row->0].name + ">"@
    } else {
        "Vec<"@ + types[query.row->0].name + ">"@
    }
}

/// The expression that a binding evaluates.
pub open spec fn body(types: Seq<GeneratedTypeView>, query: PreparedQueryView, suspendable: bool)
    -> Seq<char> {
    if !returns_rows(query) {
        call(query, "execute"@, suspendable)
    } else if query.shape is OneRow {
        "Ok("@ + call(query, "query_opt"@, suspendable) + "?.map(|row| "@ + row_literal(
            types[query.row->0],
        ) + "))"@
    } else {
        "Ok("@ + call(query, "query"@, suspendable) + "?.into_iter().map(|row| "@ + row_literal(
            types[query.row->0],
        ) + ").collect())"@
    }
}

/// The binding of one query: a function that takes the client and the
/// parameters, in the blocking or in the suspendable form.
pub open spec fn binding(types: Seq<GeneratedTypeView>, query: PreparedQueryView, suspendable: bool)
    -> Seq<char> {
    "    pub "@ + (if suspendable {
        "async fn "@
    } else {
        "fn "@
    }) + query.name + "(client: &"@ + (if suspendable {
        "tokio_postgres::Client"@
    } else {
        "mut postgres::Client"@
    }) + parameters(types, query.params, query.params.len() as int) + ") -> Result<"@ + returned(
        types,
        query,
    ) + ", "@ + (if suspendable {
        "tokio_postgres"@
    } else {
        "postgres"@
    }) + "::Error> {\n        "@ + body(types, query, suspendable) + "\n    }\n\n"@
}

/// The bindings of the first `upto` queries.
pub open spec fn bindings(
    types: Seq<GeneratedTypeView>,
    queries: Seq<PreparedQueryView>,
    suspendable: bool,
    upto: int,
) -> Seq<char>
    decreases upto,
{
    if upto <= 0 {
        Seq::empty()
    } else {
        bindings(types, queries, suspendable, upto - 1) + binding(
            types,
            queries[upto - 1],
            suspendable,
        )
    }
}

/// The text of one module.
pub open spec fn module_text(
    types: Seq<GeneratedTypeView>,
    module: PreparedModuleView,
    suspendable: bool,
) -> Seq<char> {
    "pub mod "@ + module.name + " {\n"@ + definitions(
        types,
        needed(types, module.queries),
        types.len() as int,
    ) + bindings(types, module.queries, suspendable, module.queries.len() as int) + "}\n"@
}

/// The mathematical content of a list of modules.
pub open spec fn module_views(modules: Seq<PreparedModule>) -> Seq<PreparedModuleView> {
    modules.map_values(|m: PreparedModule| m@)
}

/// The text of the first `upto` modules.
pub open spec fn artifact(
    types: Seq<GeneratedTypeView>,
    modules: Seq<PreparedModuleView>,
    suspendable: bool,
    upto: int,
) -> Seq<char>
    decreases upto,
{
    if upto <= 0 {
        Seq::empty()
    } else {
        artifact(types, modules, suspendable, upto - 1) + module_text(
            types,
            modules[upto - 1],
            suspendable,
        )
    }
}

/// Every query of every module refers to types of the registrar only.
pub open spec fn all_fit(modules: Seq<PreparedModuleView>, bound: int) -> bool {
    forall|m: int, q: int|
        0 <= m < modules.len() && 0 <= q < modules[m].queries.len() ==> (
        #[trigger] modules[m].queries[q]).fits(bound)
}

/// The error for a query that refers to a type that is not registered.
pub open spec fn dangling_reference() -> ErrorView {
    ErrorView {
        kind: ErrorKind::TypeResolution,
        subject: "prepared queries"@,
        detail: "a query refers to a type that the registrar does not hold"@,
    }
}

fn query_fits(query: &PreparedQuery, bound: usize) -> (fits: bool)
    ensures
        fits == query@.fits(bound as int),
{
    if let Some(row) = query.row {
        if row >= bound {
            return false;
        }
    }
    let mut k: usize = 0;
    while k < query.params.len()
        invariant
            0 <= k <= query.params.len(),
            forall|j: int| 0 <= j < k ==> 0 <= #[trigger] query@.params[j] < bound,
        decreases query.params.len() - k,
    {
        assert(query@.params[k as int] == query.params[k as int]);
        if query.params[k] >= bound {
            return false;
        }
        k += 1;
    }
    true
}

fn modules_fit(modules: &Vec<PreparedModule>, bound: usize) -> (fit: bool)
    ensures
        fit == all_fit(module_views(modules@), bound as int),
{
    let ghost views = module_views(modules@);
    let mut m: usize = 0;
    while m < modules.len()
        invariant
            0 <= m <= modules.len(),
            views == module_views(modules@),
            forall|a: int, q: int|
                0 <= a < m && 0 <= q < views[a].queries.len() ==> (
                #[trigger] views[a].queries[q]).fits(bound as int),
        decreases modules.len() - m,
    {
        let module = &modules[m];
        assert(views[m as int] == module@);
        let mut q: usize = 0;
        while q < module.queries.len()
            invariant
                0 <= q <= module.queries.len(),
                0 <= m < modules.len(),
                views == module_views(modules@),
                views[m as int] == module@,
                forall|b: int|
                    0 <= b < q ==> (#[trigger] views[m as int].queries[b]).fits(bound as int),
            decreases module.queries.len() - q,
        {
            assert(views[m as int].queries[q as int] == module.queries[q as int]@);
            if !query_fits(&module.queries[q], bound) {
                return false;
            }
            q += 1;
        }
        m += 1;
    }
    true
}

fn mark_query(marks: &mut Vec<bool>, query: &PreparedQuery)
    requires
        query@.fits(old(marks).len() as int),
    ensures
        final(marks)@ == with_query(old(marks)@, query@),
{
    let ghost before = marks@;
    let mut k: usize = 0;
    while k < query.params.len()
        invariant
            0 <= k <= query.params.len(),
            marks.len() == before.len(),
            query@.fits(before.len() as int),
            forall|i: int|
                0 <= i < before.len() ==> (#[trigger] marks[i] == (before[i] || exists|j: int|
                    0 <= j < k && #[trigger] query@.params[j] == i)),
        decreases query.params.len() - k,
    {
        let ghost earlier = marks@;
        let p = query.params[k];
        assert(query@.params[k as int] == p);
        marks.set(p, true);
        assert forall|i: int| 0 <= i < before.len() implies (#[trigger] marks[i] == (before[i]
            || exists|j: int| 0 <= j < k + 1 && #[trigger] query@.params[j] == i)) by {
            if i != p {
                assert(marks[i] == earlier[i]);
            }
        }
        k += 1;
    }
    if let Some(row) = query.row {
        marks.set(row, true);
    }
    assert(marks@ =~= with_query(before, query@));
}

fn mark_refs(marks: &mut Vec<bool>, ty: &GeneratedType)
    requires
        refers_below(ty@, old(marks).len() as int),
    ensures
        final(marks)@ == with_refs(old(marks)@, ty@),
{
    let ghost before = marks@;
    match &ty.kind {
        GeneratedKind::Struct { fields } => {
            let ghost wanted = field_views(fields@);
            let mut f: usize = 0;
            while f < fields.len()
                invariant
                    0 <= f <= fields.len(),
                    marks.len() == before.len(),
                    wanted == field_views(fields@),
                    ty@.kind == (KindView::Struct { fields: wanted }),
                    refers_below(ty@, before.len() as int),
                    forall|i: int|
                        0 <= i < before.len() ==> (#[trigger] marks[i] == (before[i]
                            || exists|j: int| 0 <= j < f && (#[trigger] wanted[j]).ty == i)),
                decreases fields.len() - f,
            {
                let ghost earlier = marks@;
                let at = fields[f].ty;
                proof {
                    assert(wanted[f as int] == fields[f as int]@);
                    lemma_field_below(ty@, wanted, before.len() as int, f as int);
                }
                marks.set(at, true);
                assert forall|i: int| 0 <= i < before.len() implies (#[trigger] marks[i] == (
                before[i] || exists|j: int| 0 <= j < f + 1 && (#[trigger] wanted[j]).ty == i)) by {
                    if i != at {
                        assert(marks[i] == earlier[i]);
                    }
                }
                f += 1;
            }
            assert forall|i: int| 0 <= i < before.len() implies marks[i] == (before[i]
                || refers_to(ty@, i)) by {
                lemma_struct_refers_to(ty@, wanted, i);
            }
            assert(marks@ =~= with_refs(before, ty@));
        },
        GeneratedKind::Array { element } => {
            marks.set(*element, true);
            assert(marks@ =~= with_refs(before, ty@));
        },
        GeneratedKind::Optional { inner } => {
            marks.set(*inner, true);
            assert(marks@ =~= with_refs(before, ty@));
        },
        _ => {
            assert(marks@ =~= with_refs(before, ty@));
        },
    }
}

fn needed_marks(types: &Vec<GeneratedType>, queries: &Vec<PreparedQuery>) -> (marks: Vec<bool>)
    requires
        in_definition_order(type_views(types@)),
        forall|q: int|
            0 <= q < queries.len() ==> (#[trigger] query_views(queries@)[q]).fits(
                types.len() as int,
            ),
    ensures
        marks@ == needed(type_views(types@), query_views(queries@)),
        marks.len() == types.len(),
{
    let ghost tv = type_views(types@);
    let ghost qv = query_views(queries@);
    let mut marks: Vec<bool> = Vec::new();
    let mut i: usize = 0;
    while i < types.len()
        invariant
            0 <= i <= types.len(),
            marks.len() == i,
            forall|j: int| 0 <= j < i ==> !(#[trigger] marks[j]),
        decreases types.len() - i,
    {
        marks.push(false);
        i += 1;
    }
    assert(marks@ =~= asked_for(qv, tv.len(), 0));
    let mut q: usize = 0;
    while q < queries.len()
        invariant
            0 <= q <= queries.len(),
            marks.len() == types.len(),
            tv == type_views(types@),
            qv == query_views(queries@),
            forall|k: int| 0 <= k < queries.len() ==> (#[trigger] qv[k]).fits(types.len() as int),
            marks@ == asked_for(qv, tv.len(), q as int),
        decreases queries.len() - q,
    {
        assert(qv[q as int] == queries[q as int]@);
        mark_query(&mut marks, &queries[q]);
        q += 1;
    }
    let ghost asked = marks@;
    let mut below = types.len();
    while below > 0
        invariant
            0 <= below <= types.len(),
            marks.len() == types.len(),
            tv == type_views(types@),
            in_definition_order(tv),
            swept(tv, asked, types.len() as int) == swept(tv, marks@, below as int),
        decreases below,
    {
        below -= 1;
        assert(tv[below as int] == types[below as int]@);
        if marks[below] {
            mark_refs(&mut marks, &types[below]);
        }
    }
    marks
}

fn field_line_text(types: &Vec<GeneratedType>, field: &GeneratedField) -> (line: String)
    requires
        field.ty < types.len(),
    ensures
        line@ == field_line(type_views(types@), field@),
{
    let mut line = "        pub ".to_owned();
    line.append(field.name.as_str());
    line.append(": ");
    if field.nullable {
        let mut optional = "Option<".to_owned();
        optional.append(types[field.ty].name.as_str());
        optional.append(">");
        line.append(optional.as_str());
    } else {
        line.append(types[field.ty].name.as_str());
    }
    line.append(",\n");
    line
}

fn definition_text(types: &Vec<GeneratedType>, ty: &GeneratedType) -> (text: String)
    requires
        refers_below(ty@, types.len() as int),
    ensures
        text@ == definition(type_views(types@), ty@),
{
    let ghost tv = type_views(types@);
    match &ty.kind {
        GeneratedKind::Struct { fields } => {
            let ghost wanted = field_views(fields@);
            let mut lines = String::new();
            let mut f: usize = 0;
            while f < fields.len()
                invariant
                    0 <= f <= fields.len(),
                    tv == type_views(types@),
                    wanted == field_views(fields@),
                    ty@.kind == (KindView::Struct { fields: wanted }),
                    refers_below(ty@, types.len() as int),
                    lines@ == field_lines(tv, wanted, f as int),
                decreases fields.len() - f,
            {
                proof {
                    assert(wanted[f as int] == fields[f as int]@);
                    lemma_field_below(ty@, wanted, types.len() as int, f as int);
                }
                let line = field_line_text(types, &fields[f]);
                lines.append(line.as_str());
                f += 1;
            }
            let mut text = "    #[derive(Debug, Clone, PartialEq)]\n    pub struct ".to_owned();
            text.append(ty.name.as_str());
            text.append(" {\n");
            text.append(lines.as_str());
            text.append("    }\n\n");
            text
        },
        GeneratedKind::Enum { variants } => {
            let ghost wanted = texts(variants@);
            let mut lines = String::new();
            let mut v: usize = 0;
            while v < variants.len()
                invariant
                    0 <= v <= variants.len(),
                    wanted == texts(variants@),
                    lines@ == variant_lines(wanted, v as int),
                decreases variants.len() - v,
            {
                assert(wanted[v as int] == variants[v as int]@);
                lines.append("        ");
                lines.append(variants[v].as_str());
                lines.append(",\n");
                v += 1;
            }
            let mut text = "    #[derive(Debug, Clone, Copy, PartialEq, Eq)]\n    pub enum ".to_owned();
            text.append(ty.name.as_str());
            text.append(" {\n");
            text.append(lines.as_str());
            text.append("    }\n\n");
            text
        },
        _ => String::new(),
    }
}

/// Writes a text as it stands between the quotes of a string literal.
pub fn escaped_text(text: &str) -> (out: String)
    ensures
        out@ == escaped(text@),
{
    let chars = to_chars(text);
    let mut out = String::new();
    let mut i: usize = 0;
    assert(chars@.take(0) =~= Seq::empty());
    while i < chars.len()
        invariant
            0 <= i <= chars.len(),
            chars@ == text@,
            out@ == escaped(chars@.take(i as int)),
        decreases chars.len() - i,
    {
        let mut j = i;
        while j < chars.len() && chars[j] != '"' && chars[j] != '\\'
            invariant
                i <= j <= chars.len(),
                forall|k: int| i <= k < j ==> chars@[k] != '"' && chars@[k] != '\\',
            decreases chars.len() - j,
        {
            j += 1;
        }
        out.append(text.substring_char(i, j));
        proof {
            lemma_escaped_run(chars@, i as int, j as int);
        }
        if j < chars.len() {
            proof {
                assert(chars@.take(j + 1).drop_last() =~= chars@.take(j as int));
                assert(chars@.take(j + 1).last() == chars@[j as int]);
            }
            if chars[j] == '"' {
                out.append("\\\"");
            } else {
                out.append("\\\\");
            }
            j += 1;
        }
        i = j;
    }
    assert(chars@.take(i as int) =~= chars@);
    out
}

/// A field of a struct that refers below a bound has its type below it.
proof fn lemma_field_below(ty: GeneratedTypeView, fields: Seq<FieldView>, bound: int, f: int)
    requires
        refers_below(ty, bound),
        ty.kind == (KindView::Struct { fields }),
        0 <= f < fields.len(),
    ensures
        0 <= fields[f].ty < bound,
{
    assert(ty.kind->fields == fields);
}

/// A struct refers to the types of its fields and to no others.
proof fn lemma_struct_refers_to(ty: GeneratedTypeView, fields: Seq<FieldView>, i: int)
    requires
        ty.kind == (KindView::Struct { fields }),
    ensures
        refers_to(ty, i) <==> exists|f: int| 0 <= f < fields.len() && (#[trigger] fields[f]).ty == i,
{
    assert(ty.kind->fields == fields);
}

/// A stretch without quotes and backslashes stands for itself.
proof fn lemma_escaped_run(text: Seq<char>, from: int, to: int)
    requires
        0 <= from <= to <= text.len(),
        forall|k: int| from <= k < to ==> text[k] != '"' && text[k] != '\\',
    ensures
        escaped(text.take(to)) == escaped(text.take(from)) + text.subrange(from, to),
    decreases to - from,
{
    if from == to {
        assert(text.subrange(from, to) =~= Seq::empty());
        assert(escaped(text.take(from)) + Seq::<char>::empty() =~= escaped(text.take(from)));
    } else {
        lemma_escaped_run(text, from, to - 1);
        assert(text.take(to).drop_last() =~= text.take(to - 1));
        assert(text.take(to).last() == text[to - 1]);
        assert(escaped(text.take(from)) + text.subrange(from, to - 1) + seq![text[to - 1]]
            =~= escaped(text.take(from)) + text.subrange(from, to));
    }
}

fn parameters_text(types: &Vec<GeneratedType>, params: &Vec<usize>) -> (text: String)
    requires
        forall|k: int| 0 <= k < params.len() ==> (#[trigger] params[k]) < types.len(),
    ensures
        text@ == parameters(
            type_views(types@),
            crate::registrar::index_views(params@),
            params.len() as int,
        ),
{
    let ghost tv = type_views(types@);
    let ghost pv = crate::registrar::index_views(params@);
    let mut text = String::new();
    let mut k: usize = 0;
    while k < params.len()
        invariant
            0 <= k <= params.len(),
            tv == type_views(types@),
            pv == crate::registrar::index_views(params@),
            forall|j: int| 0 <= j < params.len() ==> (#[trigger] params[j]) < types.len(),
            text@ == parameters(tv, pv, k as int),
        decreases params.len() - k,
    {
        assert(pv[k as int] == params[k as int]);
        assert(tv[params[k as int] as int] == types[params[k as int] as int]@);
        text.append(", ");
        text.append(parameter_name(k + 1).as_str());
        text.append(": &");
        text.append(types[params[k]].name.as_str());
        k += 1;
    }
    text
}

fn arguments_text(count: usize) -> (text: String)
    ensures
        text@ == arguments(count as int),
{
    let mut text = String::new();
    let mut k: usize = 0;
    while k < count
        invariant
            0 <= k <= count,
            text@ == arguments(k as int),
        decreases count - k,
    {
        text.append(parameter_name(k + 1).as_str());
        text.append(", ");
        k += 1;
    }
    text
}

fn row_literal_text(ty: &GeneratedType) -> (text: String)
    ensures
        text@ == row_literal(ty@),
{
    let mut inits = String::new();
    match &ty.kind {
        GeneratedKind::Struct { fields } => {
            let ghost wanted = field_views(fields@);
            let mut k: usize = 0;
            while k < fields.len()
                invariant
                    0 <= k <= fields.len(),
                    wanted == field_views(fields@),
                    inits@ == initializers(wanted, k as int),
                decreases fields.len() - k,
            {
                assert(wanted[k as int] == fields[k as int]@);
                inits.append(fields[k].name.as_str());
                inits.append(": row.get(");
                push_digits(&mut inits, k as u128);
                inits.append("), ");
                k += 1;
            }
        },
        _ => {},
    }
    let mut text = ty.name.clone();
    text.append(" { ");
    text.append(inits.as_str());
    text.append("}");
    text
}

fn call_text(query: &PreparedQuery, method: &str, suspendable: bool) -> (text: String)
    ensures
        text@ == call(query@, method@, suspendable),
{
    let mut text = "client.".to_owned();
    text.append(method);
    text.append("(\"");
    text.append(escaped_text(query.sql.as_str()).as_str());
    text.append("\", &[");
    text.append(arguments_text(query.params.len()).as_str());
    text.append("])");
    text.append(
        if suspendable {
            ".await"
        } else {
            ""
        },
    );
    text
}

fn binding_text(types: &Vec<GeneratedType>, query: &PreparedQuery, suspendable: bool) -> (text:
    String)
    requires
        query@.fits(types.len() as int),
    ensures
        text@ == binding(type_views(types@), query@, suspendable),
{
    let ghost tv = type_views(types@);
    let row = match query.shape {
        ResultShape::NoRows => None,
        _ => query.row,
    };
    assert(row is Some <==> returns_rows(query@));
    let one = match query.shape {
        ResultShape::OneRow => true,
        _ => false,
    };
    let (result, expression) = match row {
        None => ("u64".to_owned(), call_text(query, "execute", suspendable)),
        Some(at) => {
            assert(tv[at as int] == types[at as int]@);
            let literal = row_literal_text(&types[at]);
            if one {
                let mut result = "Option<".to_owned();
                result.append(types[at].name.as_str());
                result.append(">");
                let mut expression = "Ok(".to_owned();
                expression.append(call_text(query, "query_opt", suspendable).as_str());
                expression.append("?.map(|row| ");
                expression.append(literal.as_str());
                expression.append("))");
                (result, expression)
            } else {
                let mut result = "Vec<".to_owned();
                result.append(types[at].name.as_str());
                result.append(">");
                let mut expression = "Ok(".to_owned();
                expression.append(call_text(query, "query", suspendable).as_str());
                expression.append("?.into_iter().map(|row| ");
                expression.append(literal.as_str());
                expression.append(").collect())");
                (result, expression)
            }
        },
    };
    assert(result@ == returned(tv, query@));
    assert(expression@ == body(tv, query@, suspendable));
    assert forall|k: int| 0 <= k < query.params.len() implies (#[trigger] query.params[k])
        < types.len() by {
        assert(query@.params[k] == query.params[k]);
    }
    let mut text = "    pub ".to_owned();
    text.append(
        if suspendable {
            "async fn "
        } else {
            "fn "
        },
    );
    text.append(query.name.as_str());
    text.append("(client: &");
    text.append(
        if suspendable {
            "tokio_postgres::Client"
        } else {
            "mut postgres::Client"
        },
    );
    text.append(parameters_text(types, &query.params).as_str());
    text.append(") -> Result<");
    text.append(result.as_str());
    text.append(", ");
    text.append(
        if suspendable {
            "tokio_postgres"
        } else {
            "postgres"
        },
    );
    text.append("::Error> {\n        ");
    text.append(expression.as_str());
    text.append("\n    }\n\n");
    text
}

fn module_text_of(types: &Vec<GeneratedType>, module: &PreparedModule, suspendable: bool) -> (text:
    String)
    requires
        in_definition_order(type_views(types@)),
        forall|q: int|
            0 <= q < module.queries.len() ==> (#[trigger] module@.queries[q]).fits(
                types.len() as int,
            ),
    ensures
        text@ == module_text(type_views(types@), module@, suspendable),
{
    let ghost tv = type_views(types@);
    let ghost qv = query_views(module.queries@);
    assert forall|k: int| 0 <= k < module.queries.len() implies (#[trigger] qv[k]).fits(
        types.len() as int,
    ) by {
        assert(module@.queries[k] == qv[k]);
    }
    let marks = needed_marks(types, &module.queries);
    let mut defs = String::new();
    let mut i: usize = 0;
    while i < types.len()
        invariant
            0 <= i <= types.len(),
            marks.len() == types.len(),
            tv == type_views(types@),
            in_definition_order(tv),
            defs@ == definitions(tv, marks@, i as int),
        decreases types.len() - i,
    {
        if marks[i] {
            assert(tv[i as int] == types[i as int]@);
            defs.append(definition_text(types, &types[i]).as_str());
        }
        i += 1;
    }
    let mut binds = String::new();
    let mut q: usize = 0;
    while q < module.queries.len()
        invariant
            0 <= q <= module.queries.len(),
            tv == type_views(types@),
            qv == query_views(module.queries@),
            forall|k: int| 0 <= k < module.queries.len() ==> (#[trigger] qv[k]).fits(
                types.len() as int,
            ),
            binds@ == bindings(tv, qv, suspendable, q as int),
        decreases module.queries.len() - q,
    {
        assert(qv[q as int] == module.queries[q as int]@);
        binds.append(binding_text(types, &module.queries[q], suspendable).as_str());
        q += 1;
    }
    let mut text = "pub mod ".to_owned();
    text.append(module.name.as_str());
    text.append(" {\n");
    text.append(defs.as_str());
    text.append(binds.as_str());
    text.append("}\n");
    text
}

/// Renders the bindings of all modules, in their order.
///
/// `suspendable` selects the calling convention: functions that suspend
/// while the database works, or functions that block. Fails, and renders
/// nothing, where a query refers to a type that the registrar does not
/// hold.
pub fn generate(registrar: &TypeRegistrar, modules: &Vec<PreparedModule>, suspendable: bool) -> (text:
    Result<String, Error>)
    requires
        registrar@.wf(),
    ensures
        match text {
            Ok(text) => all_fit(module_views(modules@), registrar@.types.len() as int) && text@
                == artifact(
                registrar@.types,
                module_views(modules@),
                suspendable,
                modules.len() as int,
            ),
            Err(error) => !all_fit(module_views(modules@), registrar@.types.len() as int)
                && error@ == dangling_reference(),
        },
{
    let types = registrar.types();
    let ghost tv = type_views(types@);
    let ghost views = module_views(modules@);
    if !modules_fit(modules, types.len()) {
        return Err(
            Error::new(
                ErrorKind::TypeResolution,
                "prepared queries",
                "a query refers to a type that the registrar does not hold",
            ),
        );
    }
    let mut text = String::new();
    let mut m: usize = 0;
    while m < modules.len()
        invariant
            0 <= m <= modules.len(),
            tv == type_views(types@),
            in_definition_order(tv),
            views == module_views(modules@),
            all_fit(views, types.len() as int),
            text@ == artifact(tv, views, suspendable, m as int),
        decreases modules.len() - m,
    {
        assert(views[m as int] == modules[m as int]@);
        text.append(module_text_of(types, &modules[m], suspendable).as_str());
        m += 1;
    }
    Ok(text)
}


/// A type refers to earlier types of the registrar only.
pub proof fn lemma_refers_earlier(ty: GeneratedTypeView, bound: int, i: int)
    requires
        refers_below(ty, bound),
        refers_to(ty, i),
    ensures
        0 <= i < bound,
{
    match ty.kind {
        KindView::Struct { fields } => {
            let f = choose|f: int| 0 <= f < fields.len() && (#[trigger] fields[f]).ty == i;
            assert(0 <= fields[f].ty < bound);
        },
        _ => {},
    }
}

proof fn lemma_asked_for(queries: Seq<PreparedQueryView>, count: nat, upto: int)
    requires
        0 <= upto <= queries.len(),
    ensures
        asked_for(queries, count, upto).len() == count,
        forall|q: int, i: int|
            0 <= q < upto && 0 <= i < count && #[trigger] mentions(queries[q], i) ==> asked_for(
                queries,
                count,
                upto,
            )[i],
    decreases upto,
{
    if upto > 0 {
        lemma_asked_for(queries, count, upto - 1);
    }
}

proof fn lemma_swept(types: Seq<GeneratedTypeView>, marks: Seq<bool>, below: int)
    requires
        in_definition_order(types),
        marks.len() == types.len(),
        0 <= below <= types.len(),
        forall|j: int, i: int|
            below <= j < types.len() && marks[j] && #[trigger] refers_to(types[j], i) ==> marks[i],
    ensures
        swept(types, marks, below).len() == types.len(),
        forall|i: int| 0 <= i < types.len() && marks[i] ==> swept(types, marks, below)[i],
        forall|j: int, i: int|
            0 <= j < types.len() && swept(types, marks, below)[j] && #[trigger] refers_to(
                types[j],
                i,
            ) ==> swept(types, marks, below)[i],
    decreases below,
{
    if below > 0 {
        let at = below - 1;
        let next = if marks[at] {
            with_refs(marks, types[at])
        } else {
            marks
        };
        assert forall|j: int, i: int|
            at <= j < types.len() && next[j] && #[trigger] refers_to(types[j], i) implies next[i] by {
            lemma_refers_earlier(types[j], j, i);
            if j > at {
                if !marks[j] {
                    assert(refers_to(types[at], j));
                    lemma_refers_earlier(types[at], at, j);
                }
                assert(marks[i]);
            } else {
                if !marks[at] {
                    assert(refers_to(types[at], at));
                    lemma_refers_earlier(types[at], at, at);
                }
            }
        }
        lemma_swept(types, next, at);
        assert forall|i: int| 0 <= i < types.len() && marks[i] implies swept(
            types,
            marks,
            below,
        )[i] by {
            assert(next[i]);
        }
    }
}

/// A module defines every type before anything that refers to it: the
/// types that its queries need include those the queries refer to and,
/// with each type, those that it refers to; and these stand at earlier
/// places, which is the order in which the definitions are written.
pub proof fn definitions_precede_uses(
    types: Seq<GeneratedTypeView>,
    queries: Seq<PreparedQueryView>,
)
    requires
        in_definition_order(types),
    ensures
        needed(types, queries).len() == types.len(),
        forall|q: int, i: int|
            0 <= q < queries.len() && 0 <= i < types.len() && #[trigger] mentions(queries[q], i)
                ==> needed(types, queries)[i],
        forall|j: int, i: int|
            0 <= j < types.len() && needed(types, queries)[j] && #[trigger] refers_to(
                types[j],
                i,
            ) ==> 0 <= i < j && needed(types, queries)[i],
{
    let asked = asked_for(queries, types.len(), queries.len() as int);
    lemma_asked_for(queries, types.len(), queries.len() as int);
    lemma_swept(types, asked, types.len() as int);
    assert forall|j: int, i: int|
        0 <= j < types.len() && needed(types, queries)[j] && #[trigger] refers_to(
            types[j],
            i,
        ) implies 0 <= i < j && needed(types, queries)[i] by {
        lemma_refers_earlier(types[j], j, i);
    }
}

/// The generated text is determined by what the registrar and the
/// prepared queries hold: two renderings of the same content are the
/// same text, character for character.
pub proof fn generation_is_deterministic(
    first: TypeRegistrar,
    second: TypeRegistrar,
    modules: Seq<PreparedModule>,
    again: Seq<PreparedModule>,
    suspendable: bool,
    text: String,
    other: String,
)
    requires
        first@ == second@,
        module_views(modules) == module_views(again),
        text@ == artifact(first@.types, module_views(modules), suspendable, modules.len() as int),
        other@ == artifact(second@.types, module_views(again), suspendable, again.len() as int),
    ensures
        text@ == other@,
{
    assert(module_views(modules).len() == modules.len());
    assert(module_views(again).len() == again.len());
}

} // verus!
