use cornucopia::{
    parse_module, query_places, ErrorKind, NullabilityOverride, ParamKey, ParamOverride,
    QueryDeclaration, QueryModule, ResultShape,
};

fn plain(name: Option<&str>, sql: &str, shape: ResultShape) -> QueryDeclaration {
    QueryDeclaration {
        name: name.map(|n| n.to_string()),
        sql: sql.to_string(),
        shape,
        param_types: vec![],
        nullability: vec![],
    }
}

fn parse_error(text: &str) -> (String, String) {
    let error = parse_module("users", text).unwrap_err();
    assert_eq!(error.kind, ErrorKind::Parse);
    (error.subject, error.detail)
}

#[test]
fn empty_file_is_an_empty_module() {
    for text in ["", "\n", "  \n\t\r\n\n", "-- just a comment", "-- a\n--b\n\n   -- c: d\n"] {
        assert_eq!(
            parse_module("users", text),
            Ok(QueryModule { name: "users".to_string(), queries: vec![] })
        );
    }
}

#[test]
fn named_query_with_marker() {
    let module =
        parse_module("module_1", "-- name: get_one :one\nselect id,label,tag from t where id=$1;")
            .unwrap();
    assert_eq!(module.name, "module_1");
    assert_eq!(
        module.queries,
        vec![plain(Some("get_one"), "select id,label,tag from t where id=$1;", ResultShape::OneRow)]
    );
}

#[test]
fn markers_and_their_default() {
    let text = "-- name: a :none\nselect 1;\n-- name: b :one\nselect 2;\n-- name: c :many\nselect 3;\n-- name: d\nselect 4;\n--name::one\nselect 5;\nselect 6;\n";
    let module = parse_module("m", text).unwrap();
    assert_eq!(
        module.queries,
        vec![
            plain(Some("a"), "select 1;", ResultShape::NoRows),
            plain(Some("b"), "select 2;", ResultShape::OneRow),
            plain(Some("c"), "select 3;", ResultShape::ManyRows),
            plain(Some("d"), "select 4;", ResultShape::ManyRows),
            plain(None, "select 5;", ResultShape::OneRow),
            plain(None, "select 6;", ResultShape::ManyRows),
        ]
    );
}

#[test]
fn statements_keep_their_order_and_their_lines() {
    let text = "\n-- name: first\n  select a,\n         b -- the second column\n\n  from t\n  where c = ';'   ;  \r\n\n-- name: second :none\n\tdelete from t;";
    let module = parse_module("m", text).unwrap();
    assert_eq!(module.queries.len(), 2);
    assert_eq!(module.queries[0].name.as_deref(), Some("first"));
    assert_eq!(
        module.queries[0].sql,
        "select a,\n         b -- the second column\n\n  from t\n  where c = ';'   ;"
    );
    assert_eq!(module.queries[1], plain(Some("second"), "delete from t;", ResultShape::NoRows));
}

#[test]
fn statement_ends_with_the_first_line_that_ends_in_a_semicolon() {
    // A semicolon inside a line does not end the statement.
    let module = parse_module("m", "select 1; select 2\n;\nselect 3;").unwrap();
    let texts: Vec<&str> = module.queries.iter().map(|q| q.sql.as_str()).collect();
    assert_eq!(texts, vec!["select 1; select 2\n;", "select 3;"]);
    // A lone semicolon is a statement.
    let module = parse_module("m", ";").unwrap();
    assert_eq!(module.queries, vec![plain(None, ";", ResultShape::ManyRows)]);
    // Inside a statement an annotation is text like any other.
    let module = parse_module("m", "select 1\n-- name: x\n;").unwrap();
    assert_eq!(module.queries, vec![plain(None, "select 1\n-- name: x\n;", ResultShape::ManyRows)]);
}

#[test]
fn parameter_and_nullability_annotations() {
    let text = "-- name: find :many\n-- param: $2 rust_decimal::Decimal\n--   param:   who   String  \n-- nullable: label\n-- not_null: id\n-- a remark\nselect id, label from t where a = $1 and b = $2;\n";
    let module = parse_module("m", text).unwrap();
    assert_eq!(
        module.queries,
        vec![QueryDeclaration {
            name: Some("find".to_string()),
            sql: "select id, label from t where a = $1 and b = $2;".to_string(),
            shape: ResultShape::ManyRows,
            param_types: vec![
                ParamOverride {
                    key: ParamKey::Position(2),
                    target: "rust_decimal::Decimal".to_string()
                },
                ParamOverride { key: ParamKey::Name("who".to_string()), target: "String".to_string() },
            ],
            nullability: vec![
                NullabilityOverride { column: "label".to_string(), nullable: true },
                NullabilityOverride { column: "id".to_string(), nullable: false },
            ],
        }]
    );
}

#[test]
fn annotations_belong_to_the_next_statement_only() {
    let text = "-- nullable: a\nselect a from t;\nselect a from u;\n";
    let module = parse_module("m", text).unwrap();
    assert_eq!(module.queries[0].nullability.len(), 1);
    assert!(module.queries[1].nullability.is_empty());
}

#[test]
fn positions_are_numbers_from_one_on() {
    let ok = parse_module("m", "-- param: $007 i32\nselect $7;").unwrap();
    assert_eq!(ok.queries[0].param_types[0].key, ParamKey::Position(7));
    for key in ["$0", "$", "$x", "$1x", "$-1", "$99999999999999999999999"] {
        let text = format!("-- param: {} i32\nselect 1;", key);
        assert_eq!(
            parse_error(&text),
            ("users, statement 1".to_string(), "malformed annotation".to_string())
        );
    }
}

#[test]
fn malformed_annotations_are_refused() {
    for line in [
        "-- name:",
        "-- name:   ",
        "-- name: a b",
        "-- name: a :one extra",
        "-- name: a :two",
        "-- name: :one a",
        "-- name: :",
        "-- name: :one :many",
        "-- param:",
        "-- param: $1",
        "-- param: $1 i32 extra",
        "-- nullable:",
        "-- nullable: a b",
        "-- not_null:",
        "-- not_null: a b",
    ] {
        let text = format!("select 0;\n{}\nselect 1;", line);
        assert_eq!(
            parse_error(&text),
            ("users, statement 2".to_string(), "malformed annotation".to_string()),
            "{}",
            line
        );
    }
}

#[test]
fn comments_that_are_no_annotations_are_passed_over() {
    for line in ["-- name :one", "-- names: a b c", "-- Name: a b c", "--nullable", "-- param a", "---name: a b"] {
        let text = format!("{}\nselect 1;", line);
        assert_eq!(
            parse_module("m", &text).unwrap().queries,
            vec![plain(None, "select 1;", ResultShape::ManyRows)],
            "{}",
            line
        );
    }
}

#[test]
fn second_name_is_refused() {
    let text = "select 1;\nselect 2;\n-- name: a\n-- nullable: x\n-- name: b\nselect 3;";
    assert_eq!(
        parse_error(text),
        ("users, statement 3".to_string(), "a query has one name".to_string())
    );
    assert_eq!(
        parse_error("-- name: :one\n-- name: a\nselect 3;"),
        ("users, statement 1".to_string(), "a query has one name".to_string())
    );
}

#[test]
fn annotations_without_a_statement_are_refused() {
    for text in ["-- name: a", "select 1;\n-- nullable: x\n", "select 1;\n-- param: $1 i32\n\n-- c\n"] {
        let (subject, detail) = parse_error(text);
        assert_eq!(detail, "annotations without a statement");
        assert!(subject == "users, statement 1" || subject == "users, statement 2");
    }
    assert_eq!(parse_error("select 1;\n-- name: a").0, "users, statement 2");
}

#[test]
fn statement_without_semicolon_is_refused() {
    assert_eq!(
        parse_error("select 1"),
        ("users, statement 1".to_string(), "statement without a closing semicolon".to_string())
    );
    assert_eq!(
        parse_error("-- name: a\nselect 1;\n-- name: b\nselect 2\n-- name: c\nselect 3\n"),
        ("users, statement 2".to_string(), "statement without a closing semicolon".to_string())
    );
    assert_eq!(parse_error("select 1; -- done").0, "users, statement 1");
}

#[test]
fn text_that_is_not_ascii_is_kept() {
    let module = parse_module("m", "-- name: grüße :one\nselect 'héllo — ✓';\n").unwrap();
    assert_eq!(module.queries, vec![plain(Some("grüße"), "select 'héllo — ✓';", ResultShape::OneRow)]);
}

#[test]
fn queries_are_listed_in_source_order() {
    let a = parse_module("a", "select 1;\nselect 2;").unwrap();
    let b = parse_module("b", "").unwrap();
    let c = parse_module("c", "select 3;\nselect 4;\nselect 5;").unwrap();
    assert_eq!(query_places(&vec![]), vec![]);
    assert_eq!(query_places(&vec![b.clone()]), vec![]);
    assert_eq!(
        query_places(&vec![a, b, c]),
        vec![(0, 0), (0, 1), (2, 0), (2, 1), (2, 2)]
    );
}
