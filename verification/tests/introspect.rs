use cornucopia::{
    prepare_query, Catalog, ColumnDescription, ErrorKind, GeneratedField, GeneratedKind,
    GeneratedType, NullabilityOverride, ParamKey, ParamOverride, PreparedQuery, QueryDeclaration,
    ResultShape, StatementDescription, TypeDetail, TypeIdentity, TypeRegistrar,
};

fn small_catalog() -> Catalog {
    let scalar = |oid: u32, name: &str| TypeIdentity {
        oid,
        name: name.to_string(),
        detail: TypeDetail::Scalar,
    };
    Catalog {
        types: vec![
            scalar(23, "int4"),
            scalar(25, "text"),
            scalar(16, "bool"),
            scalar(600, "point"),
            scalar(1700, "numeric"),
        ],
    }
}

fn declaration(name: Option<&str>, shape: ResultShape) -> QueryDeclaration {
    QueryDeclaration {
        name: name.map(|n| n.to_string()),
        sql: "select 1;".to_string(),
        shape,
        param_types: vec![],
        nullability: vec![],
    }
}

fn column(name: &str, type_oid: u32, nullable: bool) -> ColumnDescription {
    ColumnDescription { name: name.to_string(), type_oid, nullable }
}

fn row_fields(registrar: &TypeRegistrar, row: usize) -> Vec<GeneratedField> {
    match &registrar.types()[row].kind {
        GeneratedKind::Struct { fields } => fields.clone(),
        other => panic!("not a struct: {:?}", other),
    }
}

#[test]
fn query_is_joined_with_its_description() {
    let mut registrar = TypeRegistrar::new();
    let description = StatementDescription {
        params: vec![23, 25],
        columns: vec![column("id", 23, false), column("done", 16, true)],
    };
    let prepared = prepare_query(
        &mut registrar,
        &small_catalog(),
        &declaration(Some("find"), ResultShape::ManyRows),
        1,
        &description,
    )
    .unwrap();
    assert_eq!(
        prepared,
        PreparedQuery {
            name: "find".to_string(),
            sql: "select 1;".to_string(),
            shape: ResultShape::ManyRows,
            params: vec![0, 1],
            row: Some(3),
        }
    );
    let names: Vec<&str> = registrar.types().iter().map(|t| t.name.as_str()).collect();
    assert_eq!(names, vec!["i32", "String", "bool", "Row0"]);
    assert_eq!(
        row_fields(&registrar, 3),
        vec![
            GeneratedField { name: "id".to_string(), ty: 0, nullable: false },
            GeneratedField { name: "done".to_string(), ty: 2, nullable: true },
        ]
    );
}

#[test]
fn declared_nullability_wins_over_reported() {
    for reported in [false, true] {
        for declared in [false, true] {
            let mut registrar = TypeRegistrar::new();
            let mut query = declaration(Some("q"), ResultShape::OneRow);
            query.nullability =
                vec![NullabilityOverride { column: "label".to_string(), nullable: declared }];
            let description = StatementDescription {
                params: vec![],
                columns: vec![column("id", 23, reported), column("label", 25, reported)],
            };
            let prepared =
                prepare_query(&mut registrar, &small_catalog(), &query, 1, &description).unwrap();
            let fields = row_fields(&registrar, prepared.row.unwrap());
            // Declared for `label`, reported for `id`.
            assert_eq!(fields[1].nullable, declared);
            assert_eq!(fields[0].nullable, reported);
        }
    }
}

#[test]
fn first_declaration_for_a_column_counts() {
    let mut registrar = TypeRegistrar::new();
    let mut query = declaration(Some("q"), ResultShape::OneRow);
    query.nullability = vec![
        NullabilityOverride { column: "other".to_string(), nullable: true },
        NullabilityOverride { column: "label".to_string(), nullable: false },
        NullabilityOverride { column: "label".to_string(), nullable: true },
    ];
    let description =
        StatementDescription { params: vec![], columns: vec![column("label", 25, true)] };
    let prepared =
        prepare_query(&mut registrar, &small_catalog(), &query, 1, &description).unwrap();
    assert!(!row_fields(&registrar, prepared.row.unwrap())[0].nullable);
}

#[test]
fn declared_parameter_type_replaces_the_reported_one() {
    let mut registrar = TypeRegistrar::new();
    let mut query = declaration(Some("q"), ResultShape::NoRows);
    query.param_types = vec![
        ParamOverride { key: ParamKey::Position(2), target: "rust_decimal::Decimal".to_string() },
        ParamOverride { key: ParamKey::Name("arg3".to_string()), target: "Point".to_string() },
        ParamOverride { key: ParamKey::Position(2), target: "ignored".to_string() },
        ParamOverride { key: ParamKey::Position(9), target: "unused".to_string() },
    ];
    // The second and the third parameter have types without a mapping.
    let description = StatementDescription { params: vec![23, 1700, 600, 23], columns: vec![] };
    let prepared =
        prepare_query(&mut registrar, &small_catalog(), &query, 1, &description).unwrap();
    assert_eq!(prepared.params, vec![0, 1, 2, 0]);
    let names: Vec<&str> = registrar.types().iter().map(|t| t.name.as_str()).collect();
    assert_eq!(names, vec!["i32", "rust_decimal::Decimal", "Point"]);
    assert_eq!(
        registrar.types()[1],
        GeneratedType { name: "rust_decimal::Decimal".to_string(), kind: GeneratedKind::Scalar }
    );
}

#[test]
fn reported_type_is_resolved_before_the_declared_one_replaces_it() {
    let mut registrar = TypeRegistrar::new();
    let mut query = declaration(Some("q"), ResultShape::NoRows);
    query.param_types =
        vec![ParamOverride { key: ParamKey::Position(1), target: "Cow<str>".to_string() }];
    let description = StatementDescription { params: vec![25], columns: vec![] };
    let prepared =
        prepare_query(&mut registrar, &small_catalog(), &query, 1, &description).unwrap();
    let names: Vec<&str> = registrar.types().iter().map(|t| t.name.as_str()).collect();
    assert_eq!(names, vec!["String", "Cow<str>"]);
    assert_eq!(prepared.params, vec![1]);
}

#[test]
fn nullability_as_the_catalog_tells_it() {
    assert!(cornucopia::reported_nullability(None));
    assert!(cornucopia::reported_nullability(Some(false)));
    assert!(!cornucopia::reported_nullability(Some(true)));
}

#[test]
fn unmappable_parameter_fails_the_query() {
    let mut registrar = TypeRegistrar::new();
    let description = StatementDescription { params: vec![23, 600], columns: vec![] };
    let error = prepare_query(
        &mut registrar,
        &small_catalog(),
        &declaration(Some("q"), ResultShape::NoRows),
        1,
        &description,
    )
    .unwrap_err();
    assert_eq!(error.kind, ErrorKind::TypeResolution);
    assert_eq!(error.subject, "point");
}

#[test]
fn unmappable_column_fails_the_query() {
    let mut registrar = TypeRegistrar::new();
    let description = StatementDescription {
        params: vec![],
        columns: vec![column("a", 23, false), column("where", 600, false)],
    };
    let error = prepare_query(
        &mut registrar,
        &small_catalog(),
        &declaration(Some("q"), ResultShape::ManyRows),
        1,
        &description,
    )
    .unwrap_err();
    assert_eq!((error.kind, error.subject.as_str()), (ErrorKind::TypeResolution, "point"));
    assert!(registrar.rows().is_empty());
}

#[test]
fn query_without_rows_has_no_row_type() {
    let mut registrar = TypeRegistrar::new();
    // Declared to return nothing: the columns are not looked at, so a
    // column without a mapping does no harm.
    let description =
        StatementDescription { params: vec![23], columns: vec![column("where", 600, false)] };
    let prepared = prepare_query(
        &mut registrar,
        &small_catalog(),
        &declaration(Some("q"), ResultShape::NoRows),
        1,
        &description,
    )
    .unwrap();
    assert_eq!(prepared.row, None);
    assert_eq!(registrar.types().len(), 1);
    // No columns at all.
    let description = StatementDescription { params: vec![], columns: vec![] };
    let prepared = prepare_query(
        &mut registrar,
        &small_catalog(),
        &declaration(Some("q"), ResultShape::ManyRows),
        1,
        &description,
    )
    .unwrap();
    assert_eq!(prepared.row, None);
    assert_eq!(prepared.shape, ResultShape::ManyRows);
    assert!(registrar.rows().is_empty());
}

#[test]
fn unnamed_query_is_named_by_its_position() {
    let mut registrar = TypeRegistrar::new();
    let description = StatementDescription { params: vec![], columns: vec![] };
    let prepared = prepare_query(
        &mut registrar,
        &small_catalog(),
        &declaration(None, ResultShape::NoRows),
        3,
        &description,
    )
    .unwrap();
    assert_eq!(prepared.name, "query_3");
    assert_eq!(declaration(None, ResultShape::NoRows).binding(120), "query_120");
    assert_eq!(declaration(Some("x"), ResultShape::NoRows).binding(120), "x");
}

#[test]
fn queries_with_the_same_columns_share_one_row_type() {
    let mut registrar = TypeRegistrar::new();
    let catalog = small_catalog();
    let description = StatementDescription {
        params: vec![],
        columns: vec![column("id", 23, false), column("label", 25, true)],
    };
    let first = prepare_query(
        &mut registrar,
        &catalog,
        &declaration(Some("all"), ResultShape::ManyRows),
        1,
        &description,
    )
    .unwrap();
    let with_param = StatementDescription { params: vec![16], ..description.clone() };
    let second = prepare_query(
        &mut registrar,
        &catalog,
        &declaration(Some("one"), ResultShape::OneRow),
        2,
        &with_param,
    )
    .unwrap();
    assert_eq!(first.row, second.row);
    assert_eq!(registrar.rows().len(), 1);
    let structs = registrar
        .types()
        .iter()
        .filter(|t| matches!(t.kind, GeneratedKind::Struct { .. }))
        .count();
    assert_eq!(structs, 1);
    // Another nullability is another shape.
    let other = StatementDescription {
        params: vec![],
        columns: vec![column("id", 23, false), column("label", 25, false)],
    };
    let third = prepare_query(
        &mut registrar,
        &catalog,
        &declaration(Some("strict"), ResultShape::ManyRows),
        3,
        &other,
    )
    .unwrap();
    assert_ne!(third.row, first.row);
    assert_eq!(registrar.rows().len(), 2);
}

#[test]
fn declaration_answers_for_its_annotations() {
    let mut query = declaration(Some("q"), ResultShape::OneRow);
    query.param_types = vec![
        ParamOverride { key: ParamKey::Name("arg2".to_string()), target: "A".to_string() },
        ParamOverride { key: ParamKey::Position(1), target: "B".to_string() },
    ];
    query.nullability = vec![NullabilityOverride { column: "c".to_string(), nullable: false }];
    assert_eq!(query.declared_type(1), Some(&"B".to_string()));
    assert_eq!(query.declared_type(2), Some(&"A".to_string()));
    assert_eq!(query.declared_type(3), None);
    assert_eq!(query.declared_type(0), None);
    assert!(!query.nullable(&"c".to_string(), true));
    assert!(query.nullable(&"d".to_string(), true));
    assert!(!query.nullable(&"d".to_string(), false));
}
