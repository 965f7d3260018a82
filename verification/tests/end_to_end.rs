use cornucopia::{
    generate, generate_action, generate_start, parse_module, prepare_query, query_places, Action,
    Catalog, ColumnDescription, Error, ErrorKind, Event, GeneratedField, GeneratedKind,
    GeneratedType, PreparedModule, PreparedQuery, QueryModule, ResultShape, StatementDescription,
    TypeDetail, TypeIdentity, TypeRegistrar, Workflow,
};

const QUERY_FILE: &str = "-- name: get_one :one\nselect id,label,tag from t where id=$1;\n";

/// The catalog after `create type my_enum as enum ('a', 'b')` and
/// `create table t (id int primary key, label text, tag my_enum not null)`.
fn migrated_catalog() -> Catalog {
    Catalog {
        types: vec![
            TypeIdentity { oid: 23, name: "int4".to_string(), detail: TypeDetail::Scalar },
            TypeIdentity { oid: 25, name: "text".to_string(), detail: TypeDetail::Scalar },
            TypeIdentity {
                oid: 16385,
                name: "my_enum".to_string(),
                detail: TypeDetail::Enum { labels: vec!["a".to_string(), "b".to_string()] },
            },
        ],
    }
}

/// What the database reports of the statement in `QUERY_FILE`.
fn reported() -> StatementDescription {
    StatementDescription {
        params: vec![23],
        columns: vec![
            ColumnDescription { name: "id".to_string(), type_oid: 23, nullable: false },
            ColumnDescription { name: "label".to_string(), type_oid: 25, nullable: true },
            ColumnDescription { name: "tag".to_string(), type_oid: 16385, nullable: false },
        ],
    }
}

const BLOCKING: &str = "pub mod module_1 {
    #[derive(Debug, Clone, Copy, PartialEq, Eq)]
    pub enum my_enum {
        a,
        b,
    }

    #[derive(Debug, Clone, PartialEq)]
    pub struct Row0 {
        pub id: i32,
        pub label: Option<String>,
        pub tag: my_enum,
    }

    pub fn get_one(client: &mut postgres::Client, arg1: &i32) -> Result<Option<Row0>, postgres::Error> {
        Ok(client.query_opt(\"select id,label,tag from t where id=$1;\", &[arg1, ])?.map(|row| Row0 { id: row.get(0), label: row.get(1), tag: row.get(2), }))
    }

}
";

#[test]
fn one_query_from_file_to_text() {
    let module = parse_module("module_1", QUERY_FILE).unwrap();
    assert_eq!(module.queries.len(), 1);
    let mut registrar = TypeRegistrar::new();
    let prepared =
        prepare_query(&mut registrar, &migrated_catalog(), &module.queries[0], 1, &reported())
            .unwrap();
    // One binding that takes one integer and returns at most one row.
    assert_eq!(
        prepared,
        PreparedQuery {
            name: "get_one".to_string(),
            sql: "select id,label,tag from t where id=$1;".to_string(),
            shape: ResultShape::OneRow,
            params: vec![0],
            row: Some(3),
        }
    );
    // One row type, its fields in the order of the select list.
    assert_eq!(registrar.rows(), &vec![3]);
    assert_eq!(
        registrar.types(),
        &vec![
            GeneratedType { name: "i32".to_string(), kind: GeneratedKind::Scalar },
            GeneratedType { name: "String".to_string(), kind: GeneratedKind::Scalar },
            GeneratedType {
                name: "my_enum".to_string(),
                kind: GeneratedKind::Enum { variants: vec!["a".to_string(), "b".to_string()] }
            },
            GeneratedType {
                name: "Row0".to_string(),
                kind: GeneratedKind::Struct {
                    fields: vec![
                        GeneratedField { name: "id".to_string(), ty: 0, nullable: false },
                        GeneratedField { name: "label".to_string(), ty: 1, nullable: true },
                        GeneratedField { name: "tag".to_string(), ty: 2, nullable: false },
                    ]
                }
            },
        ]
    );
    let modules = vec![PreparedModule { name: module.name, queries: vec![prepared] }];
    assert_eq!(generate(&registrar, &modules, false).unwrap(), BLOCKING);
    // No match is no row, not an error: the binding asks for an optional row.
    let suspendable = generate(&registrar, &modules, true).unwrap();
    assert!(suspendable.contains(
        "pub async fn get_one(client: &tokio_postgres::Client, arg1: &i32) -> Result<Option<Row0>, tokio_postgres::Error> {"
    ));
    assert!(suspendable.contains(".await?.map(|row| Row0 {"));
}

/// A stand-in for the outside world: it performs the actions of a run
/// on values in memory and records what was asked of it.
struct World {
    files: Vec<(String, String)>,
    catalog: Catalog,
    fail_at: Option<Action>,
    modules: Vec<QueryModule>,
    places: Vec<(usize, usize)>,
    registrar: TypeRegistrar,
    prepared: Vec<PreparedModule>,
    written: Option<String>,
    instances: i32,
    teardowns: u32,
}

impl World {
    fn new(fail_at: Option<Action>) -> World {
        World {
            files: vec![
                ("module_1".to_string(), QUERY_FILE.to_string()),
                (
                    "module_2".to_string(),
                    "-- name: labels\nselect id, label, tag from t;\n-- name: clear :none\ndelete from t;\n"
                        .to_string(),
                ),
            ],
            catalog: migrated_catalog(),
            fail_at,
            modules: vec![],
            places: vec![],
            registrar: TypeRegistrar::new(),
            prepared: vec![],
            written: None,
            instances: 0,
            teardowns: 0,
        }
    }

    fn describe(&self, sql: &str) -> StatementDescription {
        if sql.starts_with("select") {
            let mut description = reported();
            if !sql.contains("$1") {
                description.params.clear();
            }
            description
        } else {
            StatementDescription { params: vec![], columns: vec![] }
        }
    }

    fn perform(&mut self, action: &Action) -> Result<Event, Error> {
        if self.fail_at.as_ref() == Some(action) {
            return Err(Error::new(ErrorKind::Database, "injected", "failure"));
        }
        match action {
            Action::ReadQueries => {
                for (name, text) in &self.files {
                    self.modules.push(parse_module(name, text)?);
                }
                self.places = query_places(&self.modules);
                for module in &self.modules {
                    self.prepared.push(PreparedModule { name: module.name.clone(), queries: vec![] });
                }
                Ok(Event::Found { count: self.places.len() })
            }
            Action::Setup { .. } => {
                self.instances += 1;
                Ok(Event::Done)
            }
            Action::Connect => Ok(Event::Done),
            Action::ReadMigrations => Ok(Event::Found { count: 2 }),
            Action::ApplyMigration { .. } => Ok(Event::Done),
            Action::DescribeQuery { index } => {
                let (m, q) = self.places[*index];
                let declaration = &self.modules[m].queries[q];
                let description = self.describe(&declaration.sql);
                let prepared = prepare_query(
                    &mut self.registrar,
                    &self.catalog,
                    declaration,
                    q + 1,
                    &description,
                )?;
                self.prepared[m].queries.push(prepared);
                Ok(Event::Done)
            }
            Action::WriteArtifact => {
                self.written = Some(generate(&self.registrar, &self.prepared, false)?);
                Ok(Event::Done)
            }
            Action::Cleanup { .. } => {
                self.instances -= 1;
                self.teardowns += 1;
                Ok(Event::Done)
            }
            Action::Finish { .. } => panic!("nothing is left to perform"),
        }
    }

    fn run(&mut self, workflow: Workflow) -> Result<(), Error> {
        let (mut run, mut action) = generate_start(workflow);
        loop {
            if let Action::Finish { outcome } = action {
                return outcome;
            }
            let event = match self.perform(&action) {
                Ok(event) => event,
                Err(error) => Event::Failed { error },
            };
            let step = generate_action(run, event);
            run = step.0;
            action = step.1;
        }
    }
}

#[test]
fn transient_and_live_runs_write_the_same_text() {
    let mut transient = World::new(None);
    assert_eq!(transient.run(Workflow::Transient { podman: false }), Ok(()));
    let mut live = World::new(None);
    assert_eq!(live.run(Workflow::Live), Ok(()));
    assert!(transient.written.is_some());
    assert_eq!(transient.written, live.written);
    assert_eq!((transient.instances, transient.teardowns), (0, 1));
    assert_eq!((live.instances, live.teardowns), (0, 0));
    let text = transient.written.unwrap();
    assert!(text.starts_with(BLOCKING));
    // The second module shares the row type of the first.
    let second = &text[BLOCKING.len()..];
    assert!(second.starts_with("pub mod module_2 {\n"));
    assert!(second.contains("pub struct Row0 {"));
    assert!(!second.contains("Row1"));
    assert!(second.contains("pub fn labels(client: &mut postgres::Client) -> Result<Vec<Row0>, postgres::Error> {"));
    assert!(second.contains("pub fn clear(client: &mut postgres::Client) -> Result<u64, postgres::Error> {"));
}

#[test]
fn two_runs_write_the_same_text() {
    let mut first = World::new(None);
    let mut second = World::new(None);
    first.run(Workflow::Transient { podman: true }).unwrap();
    second.run(Workflow::Transient { podman: true }).unwrap();
    assert_eq!(first.written, second.written);
}

#[test]
fn instance_is_removed_once_whatever_fails() {
    for failing in [
        Action::Connect,
        Action::ReadMigrations,
        Action::ApplyMigration { index: 0 },
        Action::ApplyMigration { index: 1 },
        Action::DescribeQuery { index: 0 },
        Action::DescribeQuery { index: 2 },
        Action::WriteArtifact,
    ] {
        let label = format!("{:?}", failing);
        let mut world = World::new(Some(failing));
        let outcome = world.run(Workflow::Transient { podman: false });
        assert_eq!(outcome, Err(Error::new(ErrorKind::Database, "injected", "failure")));
        assert_eq!((world.instances, world.teardowns), (0, 1), "{}", label);
        assert_eq!(world.written, None);
    }
    for failing in [Action::ReadQueries, Action::Setup { podman: false }] {
        let mut world = World::new(Some(failing));
        assert!(world.run(Workflow::Transient { podman: false }).is_err());
        assert_eq!((world.instances, world.teardowns), (0, 0));
    }
}

#[test]
fn unmappable_type_ends_the_run_with_its_name() {
    let mut world = World::new(None);
    world.catalog.types[1].name = "geometry".to_string();
    let error = world.run(Workflow::Transient { podman: false }).unwrap_err();
    assert_eq!(error.kind, ErrorKind::TypeResolution);
    assert_eq!(error.subject, "geometry");
    assert_eq!((world.instances, world.teardowns), (0, 1));
    assert_eq!(world.written, None);
}

#[test]
fn malformed_query_file_ends_the_run_before_setup() {
    let mut world = World::new(None);
    world.files[1].1 = "-- name: a b c\nselect 1;".to_string();
    let error = world.run(Workflow::Transient { podman: false }).unwrap_err();
    assert_eq!(error.kind, ErrorKind::Parse);
    assert_eq!(error.subject, "module_2, statement 1");
    assert_eq!((world.instances, world.teardowns), (0, 0));
}
