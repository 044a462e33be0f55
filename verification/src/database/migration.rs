//! The schema migrator: it brings the tables of a store from the schema
//! version that the store records to the one that this build works with.

use vstd::prelude::*;
use vstd::string::StringExecFns;
use crate::database::connection::{Connection, ConnectionView};
use crate::error::{Error, StoreFault};
use crate::text::{decimal, push_decimal};

verus! {

/// The schema version that this build works with.
pub const CURRENT_VERSION: u32 = 1;

/// Why a store cannot be brought to the schema of this build.
#[derive(Debug, PartialEq, Eq, Clone, Copy, Structural)]
pub enum MigratorError {
    /// The store is of a later schema than this build knows.
    UnknownDatabaseVersion { version: u32 },
    /// No step leads on from this schema version.
    NoMigrationFunction { version: u32 },
}

impl MigratorError {
    /// The failure in words.
    pub open spec fn text(self) -> Seq<char> {
        match self {
            MigratorError::UnknownDatabaseVersion { version } => "unknown database version: "@
                + decimal(version as nat),
            MigratorError::NoMigrationFunction { version } => "no migration function for version "@
                + decimal(version as nat) + " implemented"@,
        }
    }

    /// The failure in words.
    pub fn message(&self) -> (r: String)
        ensures
            r@ == self.text(),
    {
        match self {
            MigratorError::UnknownDatabaseVersion { version } => {
                let mut out = String::from_str("unknown database version: ");
                push_decimal(&mut out, *version as u64);
                out
            },
            MigratorError::NoMigrationFunction { version } => {
                let mut out = String::from_str("no migration function for version ");
                push_decimal(&mut out, *version as u64);
                out.append(" implemented");
                out
            },
        }
    }
}

/// The store after the step from no schema to version 1, and how the step
/// ended. The step creates the table of the schema version, records version
/// 1 in it and creates the table of the backups; it stops at the first
/// statement that fails, and what was done before stays done.
pub open spec fn upgraded_to_one(store: ConnectionView) -> (ConnectionView, Result<(), StoreFault>) {
    match store.create_system_table() {
        Err(e) => (store, Err(e)),
        Ok(first) => match first.insert_system_version(1) {
            Err(e) => (first, Err(e)),
            Ok(second) => match second.create_data_table() {
                Err(e) => (second, Err(e)),
                Ok(third) => (third, Ok(())),
            },
        },
    }
}

/// The store after a migration that starts at the schema version `from`, and
/// how the migration ended.
pub open spec fn migrated(store: ConnectionView, from: u32) -> (ConnectionView, Result<(), Error>)
    decreases CURRENT_VERSION - from,
{
    if from > CURRENT_VERSION {
        (store, Err(Error::Migration(MigratorError::UnknownDatabaseVersion { version: from })))
    } else if from == CURRENT_VERSION {
        (store, Ok(()))
    } else if from == 0 {
        match upgraded_to_one(store) {
            (next, Ok(_)) => migrated(next, 1),
            (next, Err(e)) => (next, Err(Error::Store(e))),
        }
    } else {
        (store, Err(Error::Migration(MigratorError::NoMigrationFunction { version: from })))
    }
}

/// The schema migrator.
pub struct DatabaseMigrator;

impl DatabaseMigrator {
    /// The schema version that the store records.
    pub fn get_database_version(conn: &Connection) -> (r: Result<u32, Error>)
        ensures
            r == match conn@.system_version() {
                Ok(version) => Ok::<u32, Error>(version),
                Err(e) => Err::<u32, Error>(Error::Store(e)),
            },
    {
        match conn.system_version() {
            Ok(version) => Ok(version),
            Err(e) => Err(Error::Store(e)),
        }
    }

    /// Brings the store from the schema version `current_version` to
    /// `CURRENT_VERSION`, step by step. A later version than
    /// `CURRENT_VERSION` is refused and nothing is changed.
    pub fn migrate(conn: &mut Connection, current_version: u32) -> (r: Result<(), Error>)
        ensures
            (final(conn)@, r) == migrated(old(conn)@, current_version),
    {
        if current_version > CURRENT_VERSION {
            return Err(
                Error::Migration(MigratorError::UnknownDatabaseVersion { version: current_version }),
            );
        }
        let mut ver: u32 = current_version;
        while ver < CURRENT_VERSION
            invariant
                ver <= CURRENT_VERSION,
                migrated(old(conn)@, current_version) == migrated(conn@, ver),
            decreases CURRENT_VERSION - ver,
        {
            if ver == 0 {
                match Self::upgrade_to_one_from_none(conn) {
                    Ok(_) => {},
                    Err(e) => {
                        return Err(e);
                    },
                }
            } else {
                return Err(Error::Migration(MigratorError::NoMigrationFunction { version: ver }));
            }
            ver += 1;
        }
        Ok(())
    }

    /// The step from no schema to version 1.
    pub fn upgrade_to_one_from_none(conn: &mut Connection) -> (r: Result<(), Error>)
        ensures
            final(conn)@ == upgraded_to_one(old(conn)@).0,
            r == match upgraded_to_one(old(conn)@).1 {
                Ok(_) => Ok::<(), Error>(()),
                Err(e) => Err::<(), Error>(Error::Store(e)),
            },
    {
        match conn.create_system_table() {
            Ok(_) => {},
            Err(e) => {
                return Err(Error::Store(e));
            },
        }
        match conn.insert_system_version(1) {
            Ok(_) => {},
            Err(e) => {
                return Err(Error::Store(e));
            },
        }
        match conn.create_data_table() {
            Ok(_) => {},
            Err(e) => {
                return Err(Error::Store(e));
            },
        }
        Ok(())
    }
}

/// A store without tables is brought to `CURRENT_VERSION`: afterwards it
/// records that version, and its table of backups exists and is empty.
pub proof fn lemma_migrate_from_nothing()
    ensures
        migrated(ConnectionView::empty(), 0).1 is Ok,
        migrated(ConnectionView::empty(), 0).0.system_version() == Ok::<u32, StoreFault>(
            CURRENT_VERSION,
        ),
        migrated(ConnectionView::empty(), 0).0.device_data == Some(
            Seq::<crate::database::connection::BlobRecordView>::empty(),
        ),
{
    reveal_with_fuel(migrated, 3);
}

/// Migrating a store that is at `CURRENT_VERSION` changes nothing.
pub proof fn lemma_migrate_current(store: ConnectionView)
    ensures
        migrated(store, CURRENT_VERSION) == (store, Ok::<(), Error>(())),
{
}

/// Migration is idempotent: a store that was migrated from no schema
/// records `CURRENT_VERSION`, and migrating it again from the version that
/// it records changes nothing.
pub proof fn lemma_migrate_again(store: ConnectionView)
    requires
        migrated(store, 0).1 is Ok,
    ensures
        migrated(store, 0).0.system_version() == Ok::<u32, StoreFault>(CURRENT_VERSION),
        migrated(migrated(store, 0).0, CURRENT_VERSION) == (migrated(store, 0).0, Ok::<(), Error>(())),
{
    reveal_with_fuel(migrated, 3);
}

/// A store of a later schema than `CURRENT_VERSION` is refused with
/// `UnknownDatabaseVersion`, and the migration changes nothing.
pub proof fn lemma_migrate_unknown(store: ConnectionView, from: u32)
    requires
        from > CURRENT_VERSION,
    ensures
        migrated(store, from) == (
            store,
            Err::<(), Error>(
                Error::Migration(MigratorError::UnknownDatabaseVersion { version: from }),
            ),
        ),
{
}

} // verus!
