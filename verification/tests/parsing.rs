use flyway::{Flyway, Migration};
use std::cmp::Ordering;

fn migration_with_version(version: &str) -> Migration {
    Migration {
        version: version.into(),
        description: "".into(),
        migration_type: "SQL".into(),
        script: format!("V{}__.sql", version),
        checksum: 0,
        execution_time: 0,
        success: false,
        contents: "".into(),
    }
}

#[test]
fn test_migration_name_parse() {
    assert_eq!(
        Flyway::parse_migration_name("V1__a.sql"),
        Some(("1".into(), "a".into()))
    );
    assert_eq!(
        Flyway::parse_migration_name("V1.0__a.sql"),
        Some(("1.0".into(), "a".into()))
    );
    assert_eq!(
        Flyway::parse_migration_name("V1.0__ab.sql"),
        Some(("1.0".into(), "ab".into()))
    );
    assert_eq!(
        Flyway::parse_migration_name("V1.0.2__ab__23.sql"),
        Some(("1.0.2".into(), "ab__23".into()))
    );
}

#[test]
fn test_version_parse() {
    assert_eq!(Flyway::parse_version("1"), vec![1]);
    assert_eq!(Flyway::parse_version("1.2"), vec![1, 2]);
    assert_eq!(Flyway::parse_version("1.2.0"), vec![1, 2, 0]);
    assert_eq!(Flyway::parse_version("0.001.01"), vec![0, 1, 1]);
    assert_eq!(Flyway::parse_version("0.010.01"), vec![0, 10, 1]);
}

#[test]
fn test_name_parse_rejects_other_shapes() {
    assert_eq!(Flyway::parse_migration_name("1__a.sql"), None);
    assert_eq!(Flyway::parse_migration_name("V__a.sql"), None);
    assert_eq!(Flyway::parse_migration_name("V1_a.sql"), None);
    assert_eq!(Flyway::parse_migration_name("V1__a"), None);
    assert_eq!(Flyway::parse_migration_name("V1__a.txt"), None);
    assert_eq!(Flyway::parse_migration_name("xV1__a.sql"), None);
    // The extension separator must be a literal dot.
    assert_eq!(Flyway::parse_migration_name("V1__axsql"), None);
    assert_eq!(Flyway::parse_migration_name("V1__a_sql"), None);
    assert_eq!(Flyway::parse_migration_name(""), None);
}

#[test]
fn test_name_parse_empty_description() {
    assert_eq!(
        Flyway::parse_migration_name("V1.0.0__.sql"),
        Some(("1.0.0".into(), "".into()))
    );
}

#[test]
fn test_comparator_is_numeric_not_lexical() {
    let a = migration_with_version("1.10");
    let b = migration_with_version("1.2");
    // Lexically "1.10" < "1.2"; numerically it is greater.
    assert_eq!(Flyway::compare_migrations(&a, &b), Ordering::Greater);
    assert_eq!(Flyway::compare_migrations(&b, &a), Ordering::Less);
    let c = migration_with_version("0.010.01");
    let d = migration_with_version("0.001.01");
    assert_eq!(Flyway::compare_migrations(&c, &d), Ordering::Greater);
    assert_eq!(Flyway::compare_migrations(&c, &c), Ordering::Equal);
}

#[test]
fn test_comparator_orders_prefix_before_extension() {
    // Versions of differing depth: the shorter sequence orders first when it
    // is a prefix of the longer one.
    let a = migration_with_version("1");
    let b = migration_with_version("1.0");
    assert_eq!(Flyway::compare_migrations(&a, &b), Ordering::Less);
    assert_eq!(Flyway::compare_migrations(&b, &a), Ordering::Greater);
}

#[test]
fn test_read_migration_computes_fingerprint() {
    let m = Flyway::read_migration(flyway::MigrationFile {
        name: "V1__a.sql".into(),
        contents: "42".into(),
    })
    .unwrap();
    assert_eq!(m.version, "1");
    assert_eq!(m.description, "a");
    assert_eq!(m.migration_type, "SQL");
    assert_eq!(m.script, "V1__a.sql");
    assert_eq!(m.checksum, 841265288);
    assert_eq!(m.execution_time, 0);
    assert_eq!(m.success, false);
    assert_eq!(m.contents, "42");
}

#[test]
fn test_read_migration_rejects_bad_name() {
    let r = Flyway::read_migration(flyway::MigrationFile {
        name: "first.sql".into(),
        contents: "".into(),
    });
    assert_eq!(
        r,
        Err("Failed to parse migration file name: first.sql".into())
    );
}

#[test]
fn test_read_migration_rejects_bad_version_number() {
    // The name shape matches, but "1..2" is not a dot-separated number list.
    let r = Flyway::read_migration(flyway::MigrationFile {
        name: "V1..2__a.sql".into(),
        contents: "".into(),
    });
    assert_eq!(
        r,
        Err("Failed to parse migration file name: V1..2__a.sql".into())
    );
    // A component beyond 32 bits is rejected too.
    let r = Flyway::read_migration(flyway::MigrationFile {
        name: "V4294967296__a.sql".into(),
        contents: "".into(),
    });
    assert_eq!(
        r,
        Err("Failed to parse migration file name: V4294967296__a.sql".into())
    );
    let ok = Flyway::read_migration(flyway::MigrationFile {
        name: "V4294967295__a.sql".into(),
        contents: "".into(),
    });
    assert!(ok.is_ok());
}
