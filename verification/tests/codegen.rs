use cornucopia::codegen::escaped_text;
use cornucopia::{
    generate, ErrorKind, GeneratedField, PreparedModule, PreparedQuery, ResultShape, TypeRegistrar,
};
use cornucopia::{Catalog, CompositeField, TypeDetail, TypeIdentity};

fn query(name: &str, sql: &str, shape: ResultShape, params: Vec<usize>, row: Option<usize>) -> PreparedQuery {
    PreparedQuery { name: name.to_string(), sql: sql.to_string(), shape, params, row }
}

fn module(name: &str, queries: Vec<PreparedQuery>) -> PreparedModule {
    PreparedModule { name: name.to_string(), queries }
}

fn column_field(name: &str, ty: usize, nullable: bool) -> GeneratedField {
    GeneratedField { name: name.to_string(), ty, nullable }
}

fn lines(parts: &[&str]) -> String {
    let mut text = String::new();
    for part in parts {
        text.push_str(part);
        text.push('\n');
    }
    text
}

#[test]
fn nothing_to_render() {
    let registrar = TypeRegistrar::new();
    assert_eq!(generate(&registrar, &vec![], false), Ok(String::new()));
    assert_eq!(
        generate(&registrar, &vec![module("empty", vec![])], true),
        Ok("pub mod empty {\n}\n".to_string())
    );
}

#[test]
fn statement_without_rows_blocking() {
    let mut registrar = TypeRegistrar::new();
    let int = registrar.scalar("i32");
    let text = registrar.scalar("String");
    let modules = vec![module(
        "users",
        vec![query(
            "rename",
            "update users set name = $2 where id = $1;",
            ResultShape::NoRows,
            vec![int, text],
            None,
        )],
    )];
    let expected = lines(&[
        "pub mod users {",
        "    pub fn rename(client: &mut postgres::Client, arg1: &i32, arg2: &String) -> Result<u64, postgres::Error> {",
        "        client.execute(\"update users set name = $2 where id = $1;\", &[arg1, arg2, ])",
        "    }",
        "",
        "}",
    ]);
    assert_eq!(generate(&registrar, &modules, false), Ok(expected));
}

#[test]
fn statement_without_rows_suspendable() {
    let mut registrar = TypeRegistrar::new();
    let int = registrar.scalar("i32");
    let modules = vec![module(
        "users",
        vec![query("remove", "delete from users where id = $1;", ResultShape::NoRows, vec![int], None)],
    )];
    let expected = lines(&[
        "pub mod users {",
        "    pub async fn remove(client: &tokio_postgres::Client, arg1: &i32) -> Result<u64, tokio_postgres::Error> {",
        "        client.execute(\"delete from users where id = $1;\", &[arg1, ]).await",
        "    }",
        "",
        "}",
    ]);
    assert_eq!(generate(&registrar, &modules, true), Ok(expected));
}

#[test]
fn one_row_and_many_rows() {
    let mut registrar = TypeRegistrar::new();
    let int = registrar.scalar("i32");
    let text = registrar.scalar("String");
    let row = registrar
        .register_row_shape(vec![column_field("id", int, false), column_field("name", text, true)])
        .unwrap();
    let modules = vec![module(
        "users",
        vec![
            query("by_id", "select id, name from users where id = $1;", ResultShape::OneRow, vec![int], Some(row)),
            query("all", "select id, name from users;", ResultShape::ManyRows, vec![], Some(row)),
        ],
    )];
    let blocking = lines(&[
        "pub mod users {",
        "    #[derive(Debug, Clone, PartialEq)]",
        "    pub struct Row0 {",
        "        pub id: i32,",
        "        pub name: Option<String>,",
        "    }",
        "",
        "    pub fn by_id(client: &mut postgres::Client, arg1: &i32) -> Result<Option<Row0>, postgres::Error> {",
        "        Ok(client.query_opt(\"select id, name from users where id = $1;\", &[arg1, ])?.map(|row| Row0 { id: row.get(0), name: row.get(1), }))",
        "    }",
        "",
        "    pub fn all(client: &mut postgres::Client) -> Result<Vec<Row0>, postgres::Error> {",
        "        Ok(client.query(\"select id, name from users;\", &[])?.into_iter().map(|row| Row0 { id: row.get(0), name: row.get(1), }).collect())",
        "    }",
        "",
        "}",
    ]);
    assert_eq!(generate(&registrar, &modules, false), Ok(blocking));
    let suspendable = lines(&[
        "pub mod users {",
        "    #[derive(Debug, Clone, PartialEq)]",
        "    pub struct Row0 {",
        "        pub id: i32,",
        "        pub name: Option<String>,",
        "    }",
        "",
        "    pub async fn by_id(client: &tokio_postgres::Client, arg1: &i32) -> Result<Option<Row0>, tokio_postgres::Error> {",
        "        Ok(client.query_opt(\"select id, name from users where id = $1;\", &[arg1, ]).await?.map(|row| Row0 { id: row.get(0), name: row.get(1), }))",
        "    }",
        "",
        "    pub async fn all(client: &tokio_postgres::Client) -> Result<Vec<Row0>, tokio_postgres::Error> {",
        "        Ok(client.query(\"select id, name from users;\", &[]).await?.into_iter().map(|row| Row0 { id: row.get(0), name: row.get(1), }).collect())",
        "    }",
        "",
        "}",
    ]);
    assert_eq!(generate(&registrar, &modules, true), Ok(suspendable));
}

#[test]
fn row_type_of_a_statement_declared_without_rows_is_not_returned() {
    let mut registrar = TypeRegistrar::new();
    let int = registrar.scalar("i32");
    let row = registrar.register_row_shape(vec![column_field("id", int, false)]).unwrap();
    let modules =
        vec![module("m", vec![query("touch", "select 1;", ResultShape::NoRows, vec![], Some(row))])];
    let text = generate(&registrar, &modules, false).unwrap();
    assert!(text.contains("pub fn touch(client: &mut postgres::Client) -> Result<u64, postgres::Error> {"));
    assert!(text.contains("        client.execute(\"select 1;\", &[])\n"));
}

#[test]
fn sql_is_escaped_for_the_literal() {
    assert_eq!(escaped_text(""), "");
    assert_eq!(escaped_text("select 1"), "select 1");
    assert_eq!(escaped_text("select \"a\""), "select \\\"a\\\"");
    assert_eq!(escaped_text("a\\b"), "a\\\\b");
    assert_eq!(escaped_text("\"\\\"\\"), "\\\"\\\\\\\"\\\\");
    assert_eq!(escaped_text("\"x"), "\\\"x");
    assert_eq!(escaped_text("x\""), "x\\\"");
    assert_eq!(escaped_text("line\nbreak 'é' ü"), "line\nbreak 'é' ü");
    let mut registrar = TypeRegistrar::new();
    let _ = registrar.scalar("i32");
    let modules = vec![module(
        "m",
        vec![query("q", "select \"Name\" from t where x = E'\\\\';", ResultShape::NoRows, vec![], None)],
    )];
    let text = generate(&registrar, &modules, false).unwrap();
    assert!(text.contains("client.execute(\"select \\\"Name\\\" from t where x = E'\\\\\\\\';\", &[])"));
}

fn nested_catalog() -> Catalog {
    let entry = |oid: u32, name: &str, detail: TypeDetail| TypeIdentity {
        oid,
        name: name.to_string(),
        detail,
    };
    Catalog {
        types: vec![
            entry(23, "int4", TypeDetail::Scalar),
            entry(25, "text", TypeDetail::Scalar),
            entry(
                70,
                "color",
                TypeDetail::Enum { labels: vec!["red".to_string(), "green".to_string()] },
            ),
            entry(
                71,
                "pixel",
                TypeDetail::Composite {
                    fields: vec![
                        CompositeField { name: "x".to_string(), type_oid: 23 },
                        CompositeField { name: "tint".to_string(), type_oid: 70 },
                    ],
                },
            ),
            entry(72, "_pixel", TypeDetail::Array { element: 71 }),
            entry(
                73,
                "mood",
                TypeDetail::Enum { labels: vec!["sad".to_string()] },
            ),
        ],
    }
}

#[test]
fn definitions_come_before_what_refers_to_them() {
    let catalog = nested_catalog();
    let mut registrar = TypeRegistrar::new();
    // A type that no query uses.
    registrar.resolve(&catalog, 73).unwrap();
    let pixels = registrar.resolve(&catalog, 72).unwrap();
    let row = registrar.register_row_shape(vec![column_field("pixels", pixels, false)]).unwrap();
    let modules =
        vec![module("images", vec![query("load", "select pixels from images;", ResultShape::ManyRows, vec![], Some(row))])];
    let expected = lines(&[
        "pub mod images {",
        "    #[derive(Debug, Clone, Copy, PartialEq, Eq)]",
        "    pub enum color {",
        "        red,",
        "        green,",
        "    }",
        "",
        "    #[derive(Debug, Clone, PartialEq)]",
        "    pub struct pixel {",
        "        pub x: Option<i32>,",
        "        pub tint: Option<color>,",
        "    }",
        "",
        "    #[derive(Debug, Clone, PartialEq)]",
        "    pub struct Row0 {",
        "        pub pixels: Vec<pixel>,",
        "    }",
        "",
        "    pub fn load(client: &mut postgres::Client) -> Result<Vec<Row0>, postgres::Error> {",
        "        Ok(client.query(\"select pixels from images;\", &[])?.into_iter().map(|row| Row0 { pixels: row.get(0), }).collect())",
        "    }",
        "",
        "}",
    ]);
    assert_eq!(generate(&registrar, &modules, false), Ok(expected));
}

#[test]
fn each_module_defines_what_its_own_queries_need() {
    let catalog = nested_catalog();
    let mut registrar = TypeRegistrar::new();
    let int = registrar.resolve(&catalog, 23).unwrap();
    let color = registrar.resolve(&catalog, 70).unwrap();
    let mood = registrar.resolve(&catalog, 73).unwrap();
    let shared = registrar.register_row_shape(vec![column_field("id", int, false)]).unwrap();
    let tinted = registrar.register_row_shape(vec![column_field("tint", color, false)]).unwrap();
    let modules = vec![
        module(
            "first",
            vec![query("ids", "select id from a;", ResultShape::ManyRows, vec![mood], Some(shared))],
        ),
        module(
            "second",
            vec![
                query("tints", "select tint from b;", ResultShape::ManyRows, vec![], Some(tinted)),
                query("more", "select id from b;", ResultShape::ManyRows, vec![], Some(shared)),
            ],
        ),
    ];
    let text = generate(&registrar, &modules, false).unwrap();
    let (first, second) = text.split_at(text.find("pub mod second").unwrap());
    // The parameter's enum and the shared row type, in the order of the registrar.
    assert!(first.contains("pub enum mood"));
    assert!(first.contains("pub struct Row0"));
    assert!(!first.contains("pub enum color"));
    assert!(!first.contains("pub struct Row1"));
    assert!(first.find("pub enum mood").unwrap() < first.find("pub struct Row0").unwrap());
    assert!(first.contains("pub fn ids(client: &mut postgres::Client, arg1: &mood) -> Result<Vec<Row0>, postgres::Error>"));
    // The second module defines the shared row type again, and its own.
    assert!(second.contains("pub enum color"));
    assert!(second.contains("pub struct Row0"));
    assert!(second.contains("pub struct Row1"));
    assert!(!second.contains("pub enum mood"));
    assert!(second.find("pub enum color").unwrap() < second.find("pub struct Row0").unwrap());
    assert!(second.find("pub struct Row0").unwrap() < second.find("pub struct Row1").unwrap());
    // Bindings follow the definitions, in source order.
    assert!(second.find("pub struct Row1").unwrap() < second.find("pub fn tints").unwrap());
    assert!(second.find("pub fn tints").unwrap() < second.find("pub fn more").unwrap());
}

#[test]
fn rendering_twice_gives_the_same_text() {
    let build = || {
        let catalog = nested_catalog();
        let mut registrar = TypeRegistrar::new();
        let pixels = registrar.resolve(&catalog, 72).unwrap();
        let int = registrar.resolve(&catalog, 23).unwrap();
        let row = registrar
            .register_row_shape(vec![column_field("pixels", pixels, false), column_field("n", int, true)])
            .unwrap();
        let modules = vec![
            module("a", vec![query("q", "select 1;", ResultShape::OneRow, vec![int, int], Some(row))]),
            module("b", vec![query("r", "select 2;", ResultShape::NoRows, vec![], None)]),
        ];
        (registrar, modules)
    };
    let (registrar, modules) = build();
    let (again, modules_again) = build();
    for suspendable in [false, true] {
        let first = generate(&registrar, &modules, suspendable).unwrap();
        assert_eq!(generate(&registrar, &modules, suspendable).unwrap(), first);
        assert_eq!(generate(&again, &modules_again, suspendable).unwrap(), first);
    }
    assert_ne!(
        generate(&registrar, &modules, false).unwrap(),
        generate(&registrar, &modules, true).unwrap()
    );
}

#[test]
fn query_that_refers_to_no_registered_type_is_refused() {
    let mut registrar = TypeRegistrar::new();
    let int = registrar.scalar("i32");
    let good = query("good", "select 1;", ResultShape::NoRows, vec![int], None);
    for bad in [
        query("bad", "select 1;", ResultShape::NoRows, vec![int, 1], None),
        query("bad", "select 1;", ResultShape::ManyRows, vec![], Some(5)),
    ] {
        let modules = vec![module("a", vec![good.clone()]), module("b", vec![good.clone(), bad])];
        let error = generate(&registrar, &modules, false).unwrap_err();
        assert_eq!(error.kind, ErrorKind::TypeResolution);
        assert_eq!(error.subject, "prepared queries");
        assert_eq!(error.detail, "a query refers to a type that the registrar does not hold");
    }
}
