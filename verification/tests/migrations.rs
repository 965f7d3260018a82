use cornucopia::migrations::{
    migration_failure, migration_file_name, new_migration_file_name, order_migrations,
    read_migration, MigrationFile, MIGRATION_TEMPLATE,
};
use cornucopia::ErrorKind;

fn file(timestamp: i64, name: &str) -> MigrationFile {
    MigrationFile { timestamp, name: name.to_string(), sql: format!("-- {}", name) }
}

#[test]
fn file_name_joins_timestamp_and_name() {
    assert_eq!(migration_file_name(1650000000, "create_users"), "1650000000_create_users.sql");
    assert_eq!(migration_file_name(0, ""), "0_.sql");
    assert_eq!(migration_file_name(7, "a_b"), "7_a_b.sql");
}

#[test]
fn file_name_of_extreme_timestamps() {
    assert_eq!(migration_file_name(i64::MAX, "x"), "9223372036854775807_x.sql");
    assert_eq!(migration_file_name(i64::MIN, "x"), "-9223372036854775808_x.sql");
    assert_eq!(migration_file_name(-15, "x"), "-15_x.sql");
}

#[test]
fn new_file_name_carries_the_current_time() {
    let file_name = new_migration_file_name("add_index");
    let parsed = read_migration(&file_name, "").expect("a migration file name");
    assert_eq!(parsed.name, "add_index");
    // Any clock that is not set before 2020 passes this.
    assert!(parsed.timestamp > 1_577_836_800);
    assert!(file_name.ends_with("_add_index.sql"));
}

#[test]
fn template_is_one_comment_line() {
    assert_eq!(MIGRATION_TEMPLATE, "-- Write your migration SQL here\n");
}

#[test]
fn read_migration_takes_name_apart() {
    let m = read_migration("1650000000_create_users.sql", "create table users();").unwrap();
    assert_eq!(m.timestamp, 1650000000);
    assert_eq!(m.name, "create_users");
    assert_eq!(m.sql, "create table users();");
    let m = read_migration("12_a_b_c.sql", "").unwrap();
    assert_eq!(m.timestamp, 12);
    assert_eq!(m.name, "a_b_c");
    let m = read_migration("0_zero.sql", "").unwrap();
    assert_eq!((m.timestamp, m.name.as_str()), (0, "zero"));
    let m = read_migration("5_.sql", "").unwrap();
    assert_eq!((m.timestamp, m.name.as_str()), (5, ""));
}

#[test]
fn read_migration_round_trips_file_name() {
    for (ts, name) in [(0i64, "x"), (1, "init"), (1700000000, "add_tag"), (i64::MAX, "last")] {
        let m = read_migration(&migration_file_name(ts, name), "sql").unwrap();
        assert_eq!((m.timestamp, m.name.as_str(), m.sql.as_str()), (ts, name, "sql"));
    }
}

#[test]
fn read_migration_refuses_other_files() {
    assert_eq!(read_migration("README.md", ""), None);
    assert_eq!(read_migration("create_users.sql", ""), None);
    assert_eq!(read_migration("_create.sql", ""), None);
    assert_eq!(read_migration("12create.sql", ""), None);
    assert_eq!(read_migration("12_create.sq", ""), None);
    assert_eq!(read_migration("12_create.SQL", ""), None);
    assert_eq!(read_migration("12.sql", ""), None);
    assert_eq!(read_migration("12a_create.sql", ""), None);
    assert_eq!(read_migration("-12_create.sql", ""), None);
    // A number is written without needless zeros.
    assert_eq!(read_migration("0012_create.sql", ""), None);
    assert_eq!(read_migration("00_create.sql", ""), None);
    assert_eq!(read_migration("", ""), None);
    assert_eq!(read_migration(".sql", ""), None);
    // One more than the largest timestamp.
    assert_eq!(read_migration("9223372036854775808_x.sql", ""), None);
    assert_eq!(read_migration("99999999999999999999999_x.sql", ""), None);
}

#[test]
fn failure_names_the_file_that_was_read() {
    for file_name in ["1650000000_create_users.sql", "0_.sql", "7_a_b.sql"] {
        let migration = read_migration(file_name, "").unwrap();
        assert_eq!(migration_failure(&migration, "refused").subject, file_name);
    }
}

#[test]
fn migrations_apply_in_timestamp_order() {
    // Created in the order 3, 1, 2.
    let ordered = order_migrations(vec![file(300, "third"), file(100, "first"), file(200, "second")]);
    let names: Vec<&str> = ordered.iter().map(|m| m.name.as_str()).collect();
    assert_eq!(names, vec!["first", "second", "third"]);
    assert_eq!(ordered[0].sql, "-- first");
}

#[test]
fn equal_timestamps_keep_their_order() {
    let ordered = order_migrations(vec![
        file(2, "b1"),
        file(1, "a1"),
        file(2, "b2"),
        file(1, "a2"),
        file(0, "z"),
        file(2, "b3"),
    ]);
    let names: Vec<&str> = ordered.iter().map(|m| m.name.as_str()).collect();
    assert_eq!(names, vec!["z", "a1", "a2", "b1", "b2", "b3"]);
}

#[test]
fn ordering_nothing_and_one() {
    assert_eq!(order_migrations(vec![]), vec![]);
    assert_eq!(order_migrations(vec![file(5, "only")]), vec![file(5, "only")]);
}

#[test]
fn ordering_twice_changes_nothing() {
    let once = order_migrations(vec![file(9, "i"), file(-3, "n"), file(4, "f"), file(4, "g")]);
    let twice = order_migrations(once.clone());
    assert_eq!(once, twice);
}

#[test]
fn migration_failure_names_the_file() {
    let error = migration_failure(&file(42, "add_tag"), "relation \"t\" does not exist");
    assert_eq!(error.kind, ErrorKind::Database);
    assert_eq!(error.subject, "42_add_tag.sql");
    assert_eq!(error.detail, "relation \"t\" does not exist");
    assert_eq!(
        error.message(),
        "database error: 42_add_tag.sql: relation \"t\" does not exist"
    );
}
