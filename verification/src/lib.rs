//! Typed database bindings from annotated SQL: the decisions of the
//! generator, stated and proved.
//!
//! The crate holds everything the generator decides: how query files are
//! read ([`reader`]), in which order migrations apply ([`migrations`]),
//! how database types become generated types ([`registrar`]), how what
//! the database reports of a statement becomes a prepared query
//! ([`introspect`]), what text is written ([`codegen`]), how long to wait
//! for a disposable database ([`provision`]), and in which order the
//! stages of a run follow one another ([`pipeline`], [`traces`]).
//!
//! Talking to the database, the container runtime and the file system is
//! left to the caller, who performs the actions that
//! [`pipeline::generate_action`] hands out and reports what came of them.

pub mod catalog;
pub mod clock;
pub mod codegen;
pub mod error;
pub mod introspect;
pub mod migrations;
pub mod pipeline;
pub mod provision;
pub mod queries;
pub mod reader;
pub mod registrar;
pub mod text;
pub mod traces;

pub use catalog::{Catalog, CompositeField, TypeDetail, TypeIdentity};
pub use codegen::generate;
pub use error::{Error, ErrorKind};
pub use introspect::{
    prepare_query, reported_nullability, ColumnDescription, PreparedModule, PreparedQuery,
    StatementDescription,
};
pub use migrations::{
    migration_failure, migration_file_name, new_migration_file_name, order_migrations,
    read_migration, MigrationFile, MIGRATION_TEMPLATE,
};
pub use pipeline::{generate_action, generate_start, Action, Event, Run, Stage, Workflow};
pub use provision::{after_probe, runtime_program, ProbeStep, RetryPolicy};
pub use queries::{
    query_places, NullabilityOverride, ParamKey, ParamOverride, QueryDeclaration, QueryModule,
    ResultShape,
};
pub use reader::parse_module;
pub use registrar::{GeneratedField, GeneratedKind, GeneratedType, TypeRegistrar, MAX_DEPTH};
