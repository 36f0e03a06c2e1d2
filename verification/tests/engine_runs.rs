use flyway::{Driver, Flyway, Migration, MigrationFile, Reader};
use std::cell::RefCell;
use std::rc::Rc;

fn test_migration() -> Migration {
    Migration {
        version: "1.0.0".into(),
        description: "".into(),
        migration_type: "SQL".into(),
        script: "V1.0.0__.sql".into(),
        checksum: 0,
        execution_time: 0,
        success: true,
        contents: "".into(),
    }
}

struct FakeReader {
    files: Vec<MigrationFile>,
}

impl Reader for FakeReader {
    fn read_migrations(&self) -> Result<Vec<MigrationFile>, String> {
        Ok(self.files.iter().cloned().collect())
    }
}

struct FakeDriver {
    history: Vec<Migration>,
    executed: Rc<RefCell<Vec<String>>>,
    saved: Rc<RefCell<Vec<Migration>>>,
    execute_error: Option<String>,
}

impl FakeDriver {
    fn new(history: Vec<Migration>) -> (FakeDriver, Rc<RefCell<Vec<String>>>, Rc<RefCell<Vec<Migration>>>) {
        let executed = Rc::new(RefCell::new(Vec::new()));
        let saved = Rc::new(RefCell::new(Vec::new()));
        let driver = FakeDriver {
            history,
            executed: executed.clone(),
            saved: saved.clone(),
            execute_error: None,
        };
        (driver, executed, saved)
    }
}

impl Driver for FakeDriver {
    fn ensure_schema_version_exists(&self) -> Result<(), String> {
        Ok(())
    }

    fn get_existing_migrations(&self) -> Result<Vec<Migration>, String> {
        Ok(self.history.iter().cloned().collect())
    }

    fn execute_migration(&self, sql: String) -> Result<(), String> {
        self.executed.borrow_mut().push(sql);
        match &self.execute_error {
            None => Ok(()),
            Some(e) => Err(e.clone()),
        }
    }

    fn save_migration(&self, migration: Migration) -> Result<(), String> {
        self.saved.borrow_mut().push(migration);
        Ok(())
    }
}

#[test]
fn test_fail_if_got_failed_migrations() {
    let reader = FakeReader { files: vec![] };
    let (driver, executed, _saved) = FakeDriver::new(vec![{
        let mut m = test_migration();
        m.success = false;
        m
    }]);
    let f = Flyway::new(Box::new(reader), Box::new(driver));
    assert_eq!(
        f.execute(),
        Err("Failed migrations detected! Roll back your database and start from a fresh backup. Failed migrations: 1.0.0".into())
    );
    assert_eq!(executed.borrow().len(), 0);
}

#[test]
fn test_failed_history_lists_every_failed_version() {
    let reader = FakeReader { files: vec![] };
    let (driver, executed, _saved) = FakeDriver::new(vec![
        {
            let mut m = test_migration();
            m.success = false;
            m
        },
        {
            let mut m = test_migration();
            m.version = "1.0.1".into();
            m.script = "V1.0.1__b.sql".into();
            m.success = false;
            m
        },
    ]);
    let f = Flyway::new(Box::new(reader), Box::new(driver));
    assert_eq!(
        f.execute(),
        Err("Failed migrations detected! Roll back your database and start from a fresh backup. Failed migrations: 1.0.0, 1.0.1".into())
    );
    assert_eq!(executed.borrow().len(), 0);
}

#[test]
fn test_database_newer() {
    let reader = FakeReader { files: vec![] };
    let (driver, executed, _saved) = FakeDriver::new(vec![test_migration()]);
    let f = Flyway::new(Box::new(reader), Box::new(driver));
    assert_eq!(
        f.execute(),
        Err("Incoming migrations do not contain migration 1.0.0 - seems you are running code that is older than database contents.".into())
    );
    assert_eq!(executed.borrow().len(), 0);
}

#[test]
fn test_checksum_mismatch() {
    let reader = FakeReader {
        files: vec![MigrationFile {
            name: "V1.0.0__a.sql".into(),
            contents: "42".into(),
        }],
    };
    let (driver, executed, _saved) = FakeDriver::new(vec![test_migration()]);
    let f = Flyway::new(Box::new(reader), Box::new(driver));
    assert_eq!(
        f.execute(),
        Err("Checksum mismatch for migration 1.0.0: existing migration 0, incoming migration 841265288".into())
    );
    assert_eq!(executed.borrow().len(), 0);
}

#[test]
fn test_older_incoming_migration() {
    let reader = FakeReader {
        files: vec![
            MigrationFile {
                name: "V0.2.0__a.sql".into(),
                contents: "42".into(),
            },
            MigrationFile {
                name: "V1.0.0__.sql".into(),
                contents: "".into(),
            },
        ],
    };
    let (driver, executed, _saved) = FakeDriver::new(vec![test_migration()]);
    let f = Flyway::new(Box::new(reader), Box::new(driver));
    assert_eq!(
        f.execute(),
        Err("Incoming new migration is older than existing: V0.2.0__a.sql".into())
    );
    assert_eq!(executed.borrow().len(), 0);
}

#[test]
fn test_new_migration_is_inserted() {
    let reader = FakeReader {
        files: vec![
            MigrationFile {
                name: "V1.0.0__.sql".into(),
                contents: "".into(),
            },
            MigrationFile {
                name: "V1.0.1__b.sql".into(),
                contents: "42".into(),
            },
        ],
    };
    let (driver, executed, saved) = FakeDriver::new(vec![test_migration()]);
    let f = Flyway::new(Box::new(reader), Box::new(driver));
    assert_eq!(f.execute(), Ok(()));
    assert_eq!(*executed.borrow(), vec![String::from("42")]);
    assert_eq!(
        *saved.borrow(),
        vec![Migration {
            version: "1.0.1".into(),
            description: "b".into(),
            migration_type: "SQL".into(),
            script: "V1.0.1__b.sql".into(),
            checksum: 841265288,
            execution_time: 0,
            success: true,
            contents: "42".into(),
        }]
    );
}

#[test]
fn test_bad_file_name_aborts_before_any_execution() {
    let reader = FakeReader {
        files: vec![
            MigrationFile {
                name: "V1.0.0__.sql".into(),
                contents: "".into(),
            },
            MigrationFile {
                name: "notes.txt".into(),
                contents: "".into(),
            },
        ],
    };
    let (driver, executed, saved) = FakeDriver::new(vec![]);
    let f = Flyway::new(Box::new(reader), Box::new(driver));
    assert_eq!(
        f.execute(),
        Err("Failed to parse migration file name: notes.txt".into())
    );
    assert_eq!(executed.borrow().len(), 0);
    assert_eq!(saved.borrow().len(), 0);
}

#[test]
fn test_failed_execution_is_recorded_then_propagated() {
    let reader = FakeReader {
        files: vec![
            MigrationFile {
                name: "V1.0.0__a.sql".into(),
                contents: "boom".into(),
            },
            MigrationFile {
                name: "V1.0.1__b.sql".into(),
                contents: "after".into(),
            },
        ],
    };
    let (mut driver, executed, saved) = FakeDriver::new(vec![]);
    driver.execute_error = Some("table is locked".into());
    let f = Flyway::new(Box::new(reader), Box::new(driver));
    assert_eq!(f.execute(), Err("table is locked".into()));
    // The failing migration was executed once, recorded as failed, and the
    // later one was never attempted.
    assert_eq!(*executed.borrow(), vec![String::from("boom")]);
    let saved = saved.borrow();
    assert_eq!(saved.len(), 1);
    assert_eq!(saved[0].script, "V1.0.0__a.sql");
    assert_eq!(saved[0].success, false);
}

#[test]
fn test_attempt_outcome_builds_the_record() {
    let m = test_migration();

    let (record, failure) = flyway::engine::attempt_outcome(&m, Ok(()), 7);
    assert_eq!(failure, None);
    assert_eq!(record.version, "1.0.0");
    assert_eq!(record.script, "V1.0.0__.sql");
    assert_eq!(record.execution_time, 7);
    assert_eq!(record.success, true);

    let (record, failure) = flyway::engine::attempt_outcome(&m, Err("boom".into()), 3);
    assert_eq!(failure, Some("boom".into()));
    assert_eq!(record.execution_time, 3);
    assert_eq!(record.success, false);
    assert_eq!(record.checksum, m.checksum);
    assert_eq!(record.contents, m.contents);
}

struct BrokenReader;

impl Reader for BrokenReader {
    fn read_migrations(&self) -> Result<Vec<MigrationFile>, String> {
        Err("directory is gone".into())
    }
}

struct BrokenDriver;

impl Driver for BrokenDriver {
    fn ensure_schema_version_exists(&self) -> Result<(), String> {
        Err("no connection".into())
    }

    fn get_existing_migrations(&self) -> Result<Vec<Migration>, String> {
        Err("no connection".into())
    }

    fn execute_migration(&self, _sql: String) -> Result<(), String> {
        Err("no connection".into())
    }

    fn save_migration(&self, _migration: Migration) -> Result<(), String> {
        Err("no connection".into())
    }
}

#[test]
fn test_source_read_error_propagates() {
    let (driver, _executed, _saved) = FakeDriver::new(vec![]);
    let f = Flyway::new(Box::new(BrokenReader), Box::new(driver));
    assert_eq!(f.execute(), Err("directory is gone".into()));
}

#[test]
fn test_storage_error_propagates() {
    let reader = FakeReader { files: vec![] };
    let f = Flyway::new(Box::new(reader), Box::new(BrokenDriver));
    assert_eq!(f.execute(), Err("no connection".into()));
}

#[test]
fn test_second_run_is_noop() {
    let files = vec![
        MigrationFile {
            name: "V1.0.0__.sql".into(),
            contents: "".into(),
        },
        MigrationFile {
            name: "V1.0.1__b.sql".into(),
            contents: "42".into(),
        },
    ];
    let reader = FakeReader {
        files: files.iter().cloned().collect(),
    };
    let (driver, executed, saved) = FakeDriver::new(vec![]);
    let f = Flyway::new(Box::new(reader), Box::new(driver));
    assert_eq!(f.execute(), Ok(()));
    assert_eq!(executed.borrow().len(), 2);
    let history: Vec<Migration> = saved.borrow().iter().cloned().collect();
    assert_eq!(history.len(), 2);

    // Run again against a store that already holds the first run's records.
    let reader = FakeReader { files };
    let (driver, executed2, saved2) = FakeDriver::new(history);
    let f = Flyway::new(Box::new(reader), Box::new(driver));
    assert_eq!(f.execute(), Ok(()));
    assert_eq!(executed2.borrow().len(), 0);
    assert_eq!(saved2.borrow().len(), 0);
}
