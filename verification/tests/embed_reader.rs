use flyway::embed::EmbedReader;
use flyway::{MigrationFile, Reader};
use std::collections::HashMap;

#[test]
fn test_embed_reading() {
    let mut files = HashMap::new();
    files.insert(
        "V1.0.0__a.sql".as_bytes().to_owned(),
        "select 1;".as_bytes().to_owned(),
    );
    files.insert(
        "V1.0.1__b.sql".as_bytes().to_owned(),
        "select 2;".as_bytes().to_owned(),
    );

    let expected = vec![
        MigrationFile {
            name: "V1.0.0__a.sql".into(),
            contents: "select 1;".into(),
        },
        MigrationFile {
            name: "V1.0.1__b.sql".into(),
            contents: "select 2;".into(),
        },
    ];

    let migration_files = EmbedReader::new(files).read_migrations();

    match migration_files.clone() {
        Ok(mut migration_files) => {
            migration_files.sort_by_key(|m| m.name.clone());
            assert_eq!(expected, migration_files);
        }
        Err(_) => assert_eq!(Ok(expected), migration_files),
    }
}

#[test]
fn test_embed_reading_rejects_invalid_utf8() {
    let mut files = HashMap::new();
    files.insert(vec![0xff, 0xfe], vec![]);
    let expected = String::from_utf8(vec![0xff, 0xfe]).unwrap_err().to_string();
    assert_eq!(EmbedReader::new(files).read_migrations(), Err(expected));
}
