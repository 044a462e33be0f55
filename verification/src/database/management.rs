//! The manager of a store: it opens the store, inserts each backup as the
//! next version and retrieves the latest one.

use vstd::prelude::*;
use vstd::string::StringExecFns;
use crate::database::connection::{
    latest_index, BlobRecordView, Connection, ConnectionView, Statement, StatementView,
    statement_views,
};
use crate::database::migration::{migrated, DatabaseMigrator};
use crate::error::{Error, StoreFault};
use crate::text::{chars_of, ends, ends_with};

verus! {

/// The handle of an open store: the schema version that the store recorded
/// when it was opened, its tables, and the name of the file that keeps it.
#[derive(Debug, PartialEq, Eq, Clone)]
pub struct DatabaseManager {
    _version: u32,
    connection: Connection,
    name: String,
}

/// What a `DatabaseManager` holds.
pub struct DatabaseManagerView {
    pub version: u32,
    pub connection: ConnectionView,
    pub name: Seq<char>,
}

impl View for DatabaseManager {
    type V = DatabaseManagerView;

    closed spec fn view(&self) -> DatabaseManagerView {
        DatabaseManagerView {
            version: self._version,
            connection: self.connection@,
            name: self.name@,
        }
    }
}

/// The hash under which every backup is stored. Backups are not told apart
/// by their content yet, so they differ by their version alone.
pub open spec fn data_hash() -> Seq<char> {
    "const_hash"@
}

/// The name of the file that keeps the store `name`: `name` itself where it
/// ends with `.db`, and else `name` with `.db` after it.
pub open spec fn database_name(name: Seq<char>) -> Seq<char> {
    if ends_with(name, ".db"@) {
        name
    } else {
        name + ".db"@
    }
}

/// The schema version to migrate a store from: the one that it records, and
/// 0 where none can be read.
pub open spec fn found_version(store: ConnectionView) -> u32 {
    match store.system_version() {
        Ok(version) => version,
        Err(_) => 0,
    }
}

/// The store after `data` was inserted as the next version. `present` says
/// whether the file that keeps the store exists.
pub open spec fn inserted(store: ConnectionView, present: bool, data: Seq<u8>) -> Result<
    ConnectionView,
    Error,
> {
    if !present {
        Err(Error::StoreNotFound)
    } else {
        match store.count_data() {
            Err(e) => Err(Error::Store(e)),
            Ok(count) => if count >= u32::MAX {
                Err(Error::Store(StoreFault::OutOfRange))
            } else {
                match store.insert_data(data_hash(), (count + 1) as u32, data) {
                    Ok(next) => Ok(next),
                    Err(e) => Err(Error::Store(e)),
                }
            },
        }
    }
}

/// The bytes of the latest backup of the store.
pub open spec fn latest(store: ConnectionView, present: bool) -> Result<Seq<u8>, Error> {
    if !present {
        Err(Error::StoreNotFound)
    } else {
        match store.latest_data() {
            Ok(data) => Ok(data),
            Err(e) => Err(Error::Store(e)),
        }
    }
}

impl DatabaseManager {
    /// The name of the file that keeps the store `name`.
    pub fn database_name(name: &str) -> (r: String)
        ensures
            r@ == database_name(name@),
    {
        let text = chars_of(name);
        let suffix = chars_of(".db");
        if ends(&text, &suffix) {
            String::from_str(name)
        } else {
            String::from_str(name).concat(".db")
        }
    }

    /// Opens the store `name`, whose tables `connection` holds as they were
    /// read: the tables are migrated from the schema version that they
    /// record (from 0 where none can be read) to the current one.
    pub fn open_connection(name: &str, connection: Connection) -> (r: Result<DatabaseManager, Error>)
        ensures
            match migrated(connection@, found_version(connection@)) {
                (store, Ok(_)) => r matches Ok(manager) && manager@ == (DatabaseManagerView {
                    version: found_version(connection@),
                    connection: store,
                    name: database_name(name@),
                }),
                (_, Err(e)) => r == Err::<DatabaseManager, Error>(e),
            },
    {
        let database_name = Self::database_name(name);
        let mut connection = connection;
        let version = match DatabaseMigrator::get_database_version(&connection) {
            Ok(v) => v,
            Err(_) => 0,
        };
        match DatabaseMigrator::migrate(&mut connection, version) {
            Ok(_) => {},
            Err(e) => {
                return Err(e);
            },
        }
        Ok(DatabaseManager { connection, _version: version, name: database_name })
    }

    /// The name of the file that keeps the store.
    pub fn name(&self) -> (r: &String)
        ensures
            r@ == self@.name,
    {
        &self.name
    }

    /// The tables of the store.
    pub fn connection(&self) -> (r: &Connection)
        ensures
            r@ == self@.connection,
    {
        &self.connection
    }

    /// Hands out the journal of the store's tables and starts a new one.
    pub fn take_journal(&mut self) -> (r: Vec<Statement>)
        ensures
            statement_views(r@) == old(self)@.connection.journal,
            final(self)@ == (DatabaseManagerView {
                connection: ConnectionView { journal: Seq::empty(), ..old(self)@.connection },
                ..old(self)@
            }),
    {
        self.connection.take_journal()
    }

    /// Inserts `data` as the next version: its version is the number of
    /// backups in the store and one. `present` says whether the file that
    /// keeps the store exists; without it nothing is inserted.
    pub fn insert_data(&mut self, present: bool, data: Vec<u8>) -> (r: Result<(), Error>)
        ensures
            match r {
                Ok(_) => inserted(old(self)@.connection, present, data@) == Ok::<
                    ConnectionView,
                    Error,
                >(final(self)@.connection),
                Err(e) => inserted(old(self)@.connection, present, data@) == Err::<
                    ConnectionView,
                    Error,
                >(e) && final(self)@.connection == old(self)@.connection,
            },
            final(self)@.version == old(self)@.version,
            final(self)@.name == old(self)@.name,
    {
        if !present {
            return Err(Error::StoreNotFound);
        }
        let count = match self.connection.count_data() {
            Ok(count) => count,
            Err(e) => {
                return Err(Error::Store(e));
            },
        };
        if count >= u32::MAX as usize {
            return Err(Error::Store(StoreFault::OutOfRange));
        }
        let version: u32 = (count + 1) as u32;
        match self.connection.insert_data("const_hash", version, data) {
            Ok(_) => Ok(()),
            Err(e) => Err(Error::Store(e)),
        }
    }

    /// The bytes of the latest backup: those of the row with the greatest
    /// version. `present` says whether the file that keeps the store exists.
    pub fn get_latest_backup(&self, present: bool) -> (r: Result<Vec<u8>, Error>)
        ensures
            match r {
                Ok(data) => latest(self@.connection, present) == Ok::<Seq<u8>, Error>(data@),
                Err(e) => latest(self@.connection, present) == Err::<Seq<u8>, Error>(e),
            },
    {
        if !present {
            return Err(Error::StoreNotFound);
        }
        match self.connection.latest_data() {
            Ok(data) => Ok(data),
            Err(e) => Err(Error::Store(e)),
        }
    }
}

/// The versions of `rows` count up from 1 without a gap.
pub open spec fn gap_free(rows: Seq<BlobRecordView>) -> bool {
    forall|i: int| 0 <= i < rows.len() ==> (#[trigger] rows[i]).version == i + 1
}

/// A store into which backups can be inserted: its table of backups exists,
/// and the versions in it count up from 1 without a gap.
pub open spec fn is_store(store: ConnectionView) -> bool {
    store.device_data matches Some(rows) && gap_free(rows)
}

/// The number of backups in a store.
pub open spec fn backups(store: ConnectionView) -> nat {
    match store.device_data {
        Some(rows) => rows.len(),
        None => 0,
    }
}

/// Where the versions count up, the latest row is the last one.
pub proof fn lemma_latest_is_last(rows: Seq<BlobRecordView>)
    requires
        gap_free(rows),
        rows.len() > 0,
    ensures
        latest_index(rows) == rows.len() - 1,
    decreases rows.len(),
{
    if rows.len() > 1 {
        let init = rows.drop_last();
        assert forall|i: int| 0 <= i < init.len() implies (#[trigger] init[i]).version == i + 1 by {
            assert(init[i] == rows[i]);
        }
        lemma_latest_is_last(init);
        assert(init[latest_index(init)] == rows[latest_index(init)]);
    }
}

/// After a backup is inserted into a store, the latest backup is the one
/// just inserted; the rows that were there are there still, unchanged and
/// before it; and the store is a store still, with one backup more.
pub proof fn lemma_insert_then_latest(store: ConnectionView, data: Seq<u8>)
    requires
        is_store(store),
        backups(store) < u32::MAX,
    ensures
        inserted(store, true, data) matches Ok(next) && latest(next, true) == Ok::<Seq<u8>, Error>(
            data,
        ) && is_store(next) && next.device_data->0 == store.device_data->0.push(
            BlobRecordView {
                data_hash: data_hash(),
                version: (backups(store) + 1) as u32,
                data,
            },
        ) && next.system == store.system,
{
    let rows = store.device_data->0;
    let version = (rows.len() + 1) as u32;
    assert(!crate::database::connection::has_key(rows, data_hash(), version));
    let next = inserted(store, true, data)->Ok_0;
    let after = next.device_data->0;
    assert(gap_free(after));
    lemma_latest_is_last(after);
}

/// The store after each of `all` was inserted, one after the other.
pub open spec fn inserted_all(store: ConnectionView, all: Seq<Seq<u8>>) -> Result<
    ConnectionView,
    Error,
>
    decreases all.len(),
{
    if all.len() == 0 {
        Ok(store)
    } else {
        match inserted_all(store, all.drop_last()) {
            Ok(next) => inserted(next, true, all.last()),
            Err(e) => Err(e),
        }
    }
}

/// After any number of backups were inserted into a store, one after the
/// other, the latest backup is the last that was inserted, and the rows of
/// the store are those that were there and then one for each backup, in the
/// order of insertion, with versions that count on without a gap.
pub proof fn lemma_inserts_then_latest(store: ConnectionView, all: Seq<Seq<u8>>)
    requires
        is_store(store),
        backups(store) + all.len() <= u32::MAX,
    ensures
        inserted_all(store, all) matches Ok(next) && is_store(next) && backups(next) == backups(
            store,
        ) + all.len() && next.device_data->0.take(backups(store) as int) == store.device_data->0
            && (forall|i: int|
            0 <= i < all.len() ==> (#[trigger] next.device_data->0[backups(store) + i]).data
                == all[i]) && (all.len() > 0 ==> latest(next, true) == Ok::<Seq<u8>, Error>(
            all.last(),
        )),
    decreases all.len(),
{
    if all.len() == 0 {
        assert(store.device_data->0.take(backups(store) as int) =~= store.device_data->0);
    } else {
        let init = all.drop_last();
        lemma_inserts_then_latest(store, init);
        let middle = inserted_all(store, init)->Ok_0;
        lemma_insert_then_latest(middle, all.last());
        let next = inserted(middle, true, all.last())->Ok_0;
        assert(next.device_data->0.take(backups(store) as int) =~= middle.device_data->0.take(
            backups(store) as int,
        ));
        assert forall|i: int| 0 <= i < all.len() implies (#[trigger] next.device_data->0[backups(
            store,
        ) + i]).data == all[i] by {
            if i < init.len() {
                assert(next.device_data->0[backups(store) + i] == middle.device_data->0[backups(
                    store,
                ) + i]);
                assert(init[i] == all[i]);
            }
        }
    }
}

/// The versions that successive inserts into a fresh store assign are 1, 2,
/// 3 and so on, without a gap and without a repetition: the row at position
/// `i` holds the backup that was inserted as the one after `i` others, under
/// the version `i + 1`.
pub proof fn lemma_versions_count_up(all: Seq<Seq<u8>>)
    requires
        all.len() <= u32::MAX,
    ensures
        inserted_all(migrated(ConnectionView::empty(), 0).0, all) matches Ok(next)
            && next.device_data matches Some(rows) && rows.len() == all.len() && (forall|i: int|
            0 <= i < all.len() ==> (#[trigger] rows[i]).version == i + 1 && rows[i].data == all[i]),
{
    crate::database::migration::lemma_migrate_from_nothing();
    let fresh = migrated(ConnectionView::empty(), 0).0;
    lemma_inserts_then_latest(fresh, all);
    let rows = inserted_all(fresh, all)->Ok_0.device_data->0;
    assert forall|i: int| 0 <= i < all.len() implies (#[trigger] rows[i]).version == i + 1
        && rows[i].data == all[i] by {
        assert(rows[backups(fresh) + i].data == all[i]);
    }
}

} // verus!
