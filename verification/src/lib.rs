//! A database schema-migration engine: migration scripts discovered from a
//! pluggable source are reconciled against the history persisted in the target
//! database, validated for consistency, and the pending ones are executed in
//! version order, each outcome being recorded before failure propagates.

pub mod checksum;
pub mod clock;
pub mod embed;
pub mod engine;
pub mod names;
pub mod statements;
pub mod strutil;
pub mod version;

use vstd::prelude::*;
use core::cmp::Ordering;
use crate::clock::{duration_as_millis, elapsed_since, instant_now};
use crate::engine::{
    attempt_outcome, file_parses, is_parsed_migration, parse_error_message,
    parse_migration_files, plan, read_migration_file,
};
use crate::names::{name_description, name_matches, name_version, parse_name};
use crate::version::{compare_versions, valid_version, version_cmp, version_nums};

verus! {

/// A fully resolved migration record: either parsed from an incoming file or
/// loaded from a history row (in which case `contents` is empty).
#[derive(Debug, PartialEq, Eq)]
pub struct Migration {
    pub version: String,
    pub description: String,
    pub migration_type: String,
    pub script: String,
    pub checksum: i32,
    pub execution_time: i32,
    pub success: bool,
    pub contents: String,
}

impl Clone for Migration {
    fn clone(&self) -> (r: Self)
        ensures
            r == *self,
    {
        Migration {
            version: self.version.clone(),
            description: self.description.clone(),
            migration_type: self.migration_type.clone(),
            script: self.script.clone(),
            checksum: self.checksum,
            execution_time: self.execution_time,
            success: self.success,
            contents: self.contents.clone(),
        }
    }
}

/// A raw input unit produced by a `Reader`: a file name and its script text.
#[derive(Debug, PartialEq, Eq)]
pub struct MigrationFile {
    pub name: String,
    pub contents: String,
}

impl Clone for MigrationFile {
    fn clone(&self) -> (r: Self)
        ensures
            r == *self,
    {
        MigrationFile { name: self.name.clone(), contents: self.contents.clone() }
    }
}

/// The history-store capability: persists one record per applied migration
/// attempt and executes a migration script inside one transaction.
/// Implementations are supplied by the user of this crate.
pub trait Driver {
    fn ensure_schema_version_exists(&self) -> Result<(), String>;

    fn get_existing_migrations(&self) -> Result<Vec<Migration>, String>;

    fn execute_migration(&self, sql: String) -> Result<(), String>;

    fn save_migration(&self, migration: Migration) -> Result<(), String>;
}

/// The migration-source capability: enumerates migration files, in no
/// particular order. Implementations are supplied by the user of this crate.
pub trait Reader {
    fn read_migrations(&self) -> Result<Vec<MigrationFile>, String>;
}

/// The reconciliation engine; owns its two collaborators for its lifetime.
pub struct Flyway {
    reader: Box<dyn Reader>,
    driver: Box<dyn Driver>,
}

impl Flyway {
    pub fn new(reader: Box<dyn Reader>, driver: Box<dyn Driver>) -> (r: Flyway) {
        Flyway { reader, driver }
    }

    /// Extract the version and description from a migration file name, or
    /// `None` when the name does not match the naming convention.
    pub fn parse_migration_name(name: &str) -> (r: Option<(String, String)>)
        ensures
            r is Some <==> name_matches(name@),
            r matches Some(p) ==> p.0@ == name_version(name@) && p.1@ == name_description(name@),
    {
        parse_name(name)
    }

    /// Parse a valid version string into its numeric components.
    pub fn parse_version(v: &str) -> (r: Vec<u32>)
        requires
            valid_version(v@),
        ensures
            r@.map_values(|x: u32| x as nat) == version_nums(v@),
    {
        crate::version::parse_version(v)
    }

    /// Compare two migrations by version, numerically component by component.
    pub fn compare_migrations(a: &Migration, b: &Migration) -> (r: Ordering)
        requires
            valid_version(a.version@),
            valid_version(b.version@),
        ensures
            r == version_cmp(a.version@, b.version@),
    {
        compare_versions(a.version.as_str(), b.version.as_str())
    }

    /// Parse one migration file into a migration record, or report the parse
    /// error naming the file.
    pub fn read_migration(file: MigrationFile) -> (r: Result<Migration, String>)
        ensures
            r is Ok <==> file_parses(file),
            r matches Ok(m) ==> is_parsed_migration(m, file),
            r matches Err(e) ==> e@ == parse_error_message(file.name@),
    {
        read_migration_file(&file)
    }

    /// Run one migration sweep: ensure the tracking table exists, read and
    /// parse the migration files, validate them against history, and execute
    /// the pending ones in version order, recording each outcome before a
    /// failure propagates. What is returned depends on the two collaborators;
    /// the validation and planning rules this drives are specified on
    /// [`engine::plan`] and its step functions.
    pub fn execute(&self) -> Result<(), String> {
        match self.driver.ensure_schema_version_exists() {
            Ok(()) => (),
            Err(e) => {
                return Err(e);
            },
        }
        let files = match self.reader.read_migrations() {
            Ok(f) => f,
            Err(e) => {
                return Err(e);
            },
        };
        let incoming = match parse_migration_files(&files) {
            Ok(v) => v,
            Err(e) => {
                return Err(e);
            },
        };
        proof {
            assert forall|i: int| 0 <= i < incoming@.len() implies valid_version(
                #[trigger] incoming@[i].version@,
            ) by {
                assert(is_parsed_migration(incoming@[i], files@[i]));
                assert(file_parses(files@[i]));
            }
        }
        let history = match self.driver.get_existing_migrations() {
            Ok(h) => h,
            Err(e) => {
                return Err(e);
            },
        };
        let pending = match plan(&incoming, &history) {
            Ok(p) => p,
            Err(e) => {
                return Err(e);
            },
        };
        let mut k: usize = 0;
        while k < pending.len()
            decreases pending@.len() - k,
        {
            let start = instant_now();
            let result = self.driver.execute_migration(pending[k].contents.clone());
            let elapsed = elapsed_since(&start);
            let millis = duration_as_millis(&elapsed);
            let (record, failure) = attempt_outcome(&pending[k], result, millis);
            match self.driver.save_migration(record) {
                Ok(()) => (),
                Err(e) => {
                    return Err(e);
                },
            }
            match failure {
                None => (),
                Some(error) => {
                    return Err(error);
                },
            }
            k = k + 1;
        }
        Ok(())
    }
}

} // verus!
