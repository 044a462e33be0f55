//! The tables of a store as plain values, and the statements that the
//! migrator and the manager carry out on them. Every statement that changes
//! the tables is also written to a journal, for the caller to replay on the
//! file that keeps the store.

use vstd::prelude::*;
use crate::archive::copy_bytes;
use crate::error::StoreFault;

verus! {

/// One stored backup: the hash that identifies its content, its version and
/// its bytes. The hash and the version together are the key of the row.
#[derive(Debug, PartialEq, Eq, Clone)]
pub struct BlobRecord {
    pub data_hash: String,
    pub version: u32,
    pub data: Vec<u8>,
}

/// What a `BlobRecord` holds.
pub struct BlobRecordView {
    pub data_hash: Seq<char>,
    pub version: u32,
    pub data: Seq<u8>,
}

impl View for BlobRecord {
    type V = BlobRecordView;

    open spec fn view(&self) -> BlobRecordView {
        BlobRecordView { data_hash: self.data_hash@, version: self.version, data: self.data@ }
    }
}

/// The views of `rows`, in order.
pub open spec fn record_views(rows: Seq<BlobRecord>) -> Seq<BlobRecordView> {
    Seq::new(rows.len(), |i: int| rows[i]@)
}

/// A statement that changed the tables.
#[derive(Debug, PartialEq, Eq, Clone)]
pub enum Statement {
    /// The table of the schema version was created.
    CreateSystemTable,
    /// The row of the schema version was inserted.
    InsertSystemVersion { version: u32 },
    /// The table of the backups was created.
    CreateDataTable,
    /// A backup was inserted.
    InsertData { data_hash: String, version: u32, data: Vec<u8> },
}

/// What a `Statement` holds.
pub enum StatementView {
    CreateSystemTable,
    InsertSystemVersion { version: u32 },
    CreateDataTable,
    InsertData { data_hash: Seq<char>, version: u32, data: Seq<u8> },
}

impl View for Statement {
    type V = StatementView;

    open spec fn view(&self) -> StatementView {
        match self {
            Statement::CreateSystemTable => StatementView::CreateSystemTable,
            Statement::InsertSystemVersion { version } => StatementView::InsertSystemVersion {
                version: *version,
            },
            Statement::CreateDataTable => StatementView::CreateDataTable,
            Statement::InsertData { data_hash, version, data } => StatementView::InsertData {
                data_hash: data_hash@,
                version: *version,
                data: data@,
            },
        }
    }
}

/// The views of `statements`, in order.
pub open spec fn statement_views(statements: Seq<Statement>) -> Seq<StatementView> {
    Seq::new(statements.len(), |i: int| statements[i]@)
}

impl Statement {
    /// The statement in the language of the file store. Where it inserts a
    /// backup, the three values are bound to its three parameters.
    pub fn sql(&self) -> (r: &'static str)
        ensures
            r@ == match self@ {
                StatementView::CreateSystemTable => "CREATE TABLE adbackup_system (version INTEGER NOT NULL)"@,
                StatementView::InsertSystemVersion { version } => "INSERT INTO adbackup_system VALUES(?1)"@,
                StatementView::CreateDataTable => "CREATE TABLE device_data (data_hash TEXT NOT NULL, version INTEGER NOT NULL, data BLOB, date_created INTEGER NOT NULL DEFAULT CURRENT_TIME, PRIMARY KEY(data_hash, version))"@,
                StatementView::InsertData { data_hash, version, data } => "INSERT INTO device_data (data_hash, version, data) VALUES (?1, ?2, ?3)"@,
            },
    {
        match self {
            Statement::CreateSystemTable => "CREATE TABLE adbackup_system (version INTEGER NOT NULL)",
            Statement::InsertSystemVersion { .. } => "INSERT INTO adbackup_system VALUES(?1)",
            Statement::CreateDataTable => "CREATE TABLE device_data (data_hash TEXT NOT NULL, version INTEGER NOT NULL, data BLOB, date_created INTEGER NOT NULL DEFAULT CURRENT_TIME, PRIMARY KEY(data_hash, version))",
            Statement::InsertData { .. } => "INSERT INTO device_data (data_hash, version, data) VALUES (?1, ?2, ?3)",
        }
    }
}

/// The tables of an open store, and the journal of the statements that
/// changed them. A table that does not exist is `None`.
#[derive(Debug, PartialEq, Eq, Clone)]
pub struct Connection {
    system: Option<Vec<u32>>,
    device_data: Option<Vec<BlobRecord>>,
    journal: Vec<Statement>,
}

/// What a `Connection` holds.
pub struct ConnectionView {
    pub system: Option<Seq<u32>>,
    pub device_data: Option<Seq<BlobRecordView>>,
    pub journal: Seq<StatementView>,
}

/// The view of a table of schema versions.
pub open spec fn system_view(table: Option<Vec<u32>>) -> Option<Seq<u32>> {
    match table {
        Some(rows) => Some(rows@),
        None => None,
    }
}

/// The view of a table of backups.
pub open spec fn data_view(table: Option<Vec<BlobRecord>>) -> Option<Seq<BlobRecordView>> {
    match table {
        Some(rows) => Some(record_views(rows@)),
        None => None,
    }
}

impl View for Connection {
    type V = ConnectionView;

    closed spec fn view(&self) -> ConnectionView {
        ConnectionView {
            system: system_view(self.system),
            device_data: data_view(self.device_data),
            journal: statement_views(self.journal@),
        }
    }
}

/// `row` is the latest of `rows`: no row has a later version, and of the
/// rows of its version it is the first.
pub open spec fn is_latest(rows: Seq<BlobRecordView>, row: int) -> bool {
    &&& 0 <= row < rows.len()
    &&& forall|j: int| 0 <= j < rows.len() ==> (#[trigger] rows[j]).version <= rows[row].version
    &&& forall|j: int| 0 <= j < row ==> (#[trigger] rows[j]).version < rows[row].version
}

/// A row of `rows` has the key `data_hash` and `version`.
pub open spec fn has_key(rows: Seq<BlobRecordView>, data_hash: Seq<char>, version: u32) -> bool {
    exists|j: int|
        0 <= j < rows.len() && (#[trigger] rows[j]).data_hash == data_hash && rows[j].version
            == version
}

impl ConnectionView {
    /// A store without tables.
    pub open spec fn empty() -> ConnectionView {
        ConnectionView { system: None, device_data: None, journal: Seq::empty() }
    }

    /// The store after the table of the schema version was created.
    pub open spec fn create_system_table(self) -> Result<ConnectionView, StoreFault> {
        if self.system is Some {
            Err(StoreFault::TableExists)
        } else {
            Ok(
                ConnectionView {
                    system: Some(Seq::empty()),
                    journal: self.journal.push(StatementView::CreateSystemTable),
                    ..self
                },
            )
        }
    }

    /// The store after a row was inserted into the table of the schema
    /// version.
    pub open spec fn insert_system_version(self, version: u32) -> Result<
        ConnectionView,
        StoreFault,
    > {
        match self.system {
            None => Err(StoreFault::NoSuchTable),
            Some(rows) => Ok(
                ConnectionView {
                    system: Some(rows.push(version)),
                    journal: self.journal.push(StatementView::InsertSystemVersion { version }),
                    ..self
                },
            ),
        }
    }

    /// The store after the table of the backups was created.
    pub open spec fn create_data_table(self) -> Result<ConnectionView, StoreFault> {
        if self.device_data is Some {
            Err(StoreFault::TableExists)
        } else {
            Ok(
                ConnectionView {
                    device_data: Some(Seq::empty()),
                    journal: self.journal.push(StatementView::CreateDataTable),
                    ..self
                },
            )
        }
    }

    /// The schema version that the store records: the first row of its
    /// table.
    pub open spec fn system_version(self) -> Result<u32, StoreFault> {
        match self.system {
            None => Err(StoreFault::NoSuchTable),
            Some(rows) => if rows.len() == 0 {
                Err(StoreFault::NoRows)
            } else {
                Ok(rows[0])
            },
        }
    }

    /// The number of backups in the store.
    pub open spec fn count_data(self) -> Result<nat, StoreFault> {
        match self.device_data {
            None => Err(StoreFault::NoSuchTable),
            Some(rows) => Ok(rows.len()),
        }
    }

    /// The store after a backup was inserted. The key of a row is its own:
    /// a second row with the same hash and version is refused.
    pub open spec fn insert_data(self, data_hash: Seq<char>, version: u32, data: Seq<u8>) -> Result<
        ConnectionView,
        StoreFault,
    > {
        match self.device_data {
            None => Err(StoreFault::NoSuchTable),
            Some(rows) => if has_key(rows, data_hash, version) {
                Err(StoreFault::Constraint)
            } else {
                Ok(
                    ConnectionView {
                        device_data: Some(rows.push(BlobRecordView { data_hash, version, data })),
                        journal: self.journal.push(
                            StatementView::InsertData { data_hash, version, data },
                        ),
                        ..self
                    },
                )
            },
        }
    }

    /// The bytes of the latest backup.
    pub open spec fn latest_data(self) -> Result<Seq<u8>, StoreFault> {
        match self.device_data {
            None => Err(StoreFault::NoSuchTable),
            Some(rows) => if rows.len() == 0 {
                Err(StoreFault::NoRows)
            } else {
                Ok(rows[latest_index(rows)].data)
            },
        }
    }

    /// The bytes of the first backup with the version `version`.
    pub open spec fn data_of_version(self, version: u32) -> Result<Seq<u8>, StoreFault> {
        match self.device_data {
            None => Err(StoreFault::NoSuchTable),
            Some(rows) => match first_of_version(rows, version) {
                Some(row) => Ok(rows[row].data),
                None => Err(StoreFault::NoRows),
            },
        }
    }
}

/// The position of the latest of `rows`.
pub open spec fn latest_index(rows: Seq<BlobRecordView>) -> int
    decreases rows.len(),
{
    if rows.len() <= 1 {
        0
    } else {
        let before = latest_index(rows.drop_last());
        if rows.last().version > rows[before].version {
            rows.len() - 1
        } else {
            before
        }
    }
}

/// `latest_index` gives the latest row.
pub proof fn lemma_latest_index(rows: Seq<BlobRecordView>)
    requires
        rows.len() > 0,
    ensures
        is_latest(rows, latest_index(rows)),
    decreases rows.len(),
{
    if rows.len() > 1 {
        let init = rows.drop_last();
        lemma_latest_index(init);
        let before = latest_index(init);
        assert forall|j: int| 0 <= j < rows.len() implies (#[trigger] rows[j]).version
            <= rows[latest_index(rows)].version by {
            if j < rows.len() - 1 {
                assert(init[j] == rows[j]);
            }
        }
        assert forall|j: int| 0 <= j < latest_index(rows) implies (#[trigger] rows[j]).version
            < rows[latest_index(rows)].version by {
            assert(init[j] == rows[j]);
        }
    }
}

/// The position of the first of `rows` with the version `version`.
pub open spec fn first_of_version(rows: Seq<BlobRecordView>, version: u32) -> Option<int>
    decreases rows.len(),
{
    if rows.len() == 0 {
        None
    } else {
        match first_of_version(rows.drop_last(), version) {
            Some(row) => Some(row),
            None => if rows.last().version == version {
                Some(rows.len() - 1)
            } else {
                None
            },
        }
    }
}

/// Whether a row of `rows` has the key `data_hash` and `version`.
fn key_taken(rows: &Vec<BlobRecord>, data_hash: &String, version: u32) -> (r: bool)
    ensures
        r == has_key(record_views(rows@), data_hash@, version),
{
    let ghost all = record_views(rows@);
    let mut i: usize = 0;
    while i < rows.len()
        invariant
            i <= rows.len(),
            all == record_views(rows@),
            forall|j: int|
                0 <= j < i ==> !((#[trigger] all[j]).data_hash == data_hash@ && all[j].version
                    == version),
        decreases rows.len() - i,
    {
        if rows[i].version == version && rows[i].data_hash == *data_hash {
            assert(all[i as int].data_hash == data_hash@);
            return true;
        }
        i += 1;
    }
    false
}

impl Connection {
    /// A store without tables.
    pub fn new() -> (r: Connection)
        ensures
            r@ == ConnectionView::empty(),
    {
        let r = Connection { system: None, device_data: None, journal: Vec::new() };
        assert(r@.journal =~= Seq::empty());
        r
    }

    /// A store with the given tables, as they were read from its file.
    pub fn from_tables(system: Option<Vec<u32>>, device_data: Option<Vec<BlobRecord>>) -> (r:
        Connection)
        ensures
            r@ == (ConnectionView {
                system: system_view(system),
                device_data: data_view(device_data),
                journal: Seq::empty(),
            }),
    {
        let r = Connection { system, device_data, journal: Vec::new() };
        assert(r@.journal =~= Seq::empty());
        r
    }

    /// The table of the schema version.
    pub fn system_rows(&self) -> (r: &Option<Vec<u32>>)
        ensures
            system_view(*r) == self@.system,
    {
        &self.system
    }

    /// The table of the backups.
    pub fn data_rows(&self) -> (r: &Option<Vec<BlobRecord>>)
        ensures
            data_view(*r) == self@.device_data,
    {
        &self.device_data
    }

    /// The statements that changed the tables since the journal was last
    /// taken.
    pub fn journal(&self) -> (r: &Vec<Statement>)
        ensures
            statement_views(r@) == self@.journal,
    {
        &self.journal
    }

    /// Hands out the journal and starts a new one. The tables stay.
    pub fn take_journal(&mut self) -> (r: Vec<Statement>)
        ensures
            statement_views(r@) == old(self)@.journal,
            final(self)@ == (ConnectionView { journal: Seq::empty(), ..old(self)@ }),
    {
        let mut taken: Vec<Statement> = Vec::new();
        std::mem::swap(&mut self.journal, &mut taken);
        assert(self@.journal =~= Seq::empty());
        taken
    }

    /// Creates the table of the schema version.
    pub fn create_system_table(&mut self) -> (r: Result<(), StoreFault>)
        ensures
            match r {
                Ok(_) => old(self)@.create_system_table() == Ok::<ConnectionView, StoreFault>(
                    final(self)@,
                ),
                Err(e) => old(self)@.create_system_table() == Err::<ConnectionView, StoreFault>(e)
                    && final(self)@ == old(self)@,
            },
    {
        if self.system.is_some() {
            return Err(StoreFault::TableExists);
        }
        self.system = Some(Vec::new());
        self.journal.push(Statement::CreateSystemTable);
        assert(self@.journal =~= old(self)@.journal.push(StatementView::CreateSystemTable));
        assert(self@.system->0 =~= Seq::empty());
        Ok(())
    }

    /// Inserts a row into the table of the schema version.
    pub fn insert_system_version(&mut self, version: u32) -> (r: Result<(), StoreFault>)
        ensures
            match r {
                Ok(_) => old(self)@.insert_system_version(version) == Ok::<
                    ConnectionView,
                    StoreFault,
                >(final(self)@),
                Err(e) => old(self)@.insert_system_version(version) == Err::<
                    ConnectionView,
                    StoreFault,
                >(e) && final(self)@ == old(self)@,
            },
    {
        match &mut self.system {
            None => {
                return Err(StoreFault::NoSuchTable);
            },
            Some(rows) => {
                rows.push(version);
            },
        }
        self.journal.push(Statement::InsertSystemVersion { version });
        assert(self@.journal =~= old(self)@.journal.push(
            StatementView::InsertSystemVersion { version },
        ));
        Ok(())
    }

    /// Creates the table of the backups.
    pub fn create_data_table(&mut self) -> (r: Result<(), StoreFault>)
        ensures
            match r {
                Ok(_) => old(self)@.create_data_table() == Ok::<ConnectionView, StoreFault>(
                    final(self)@,
                ),
                Err(e) => old(self)@.create_data_table() == Err::<ConnectionView, StoreFault>(e)
                    && final(self)@ == old(self)@,
            },
    {
        if self.device_data.is_some() {
            return Err(StoreFault::TableExists);
        }
        self.device_data = Some(Vec::new());
        self.journal.push(Statement::CreateDataTable);
        assert(self@.journal =~= old(self)@.journal.push(StatementView::CreateDataTable));
        assert(self@.device_data->0 =~= Seq::empty());
        Ok(())
    }

    /// The schema version that the store records.
    pub fn system_version(&self) -> (r: Result<u32, StoreFault>)
        ensures
            r == self@.system_version(),
    {
        match &self.system {
            None => Err(StoreFault::NoSuchTable),
            Some(rows) => if rows.len() == 0 {
                Err(StoreFault::NoRows)
            } else {
                Ok(rows[0])
            },
        }
    }

    /// The number of backups in the store.
    pub fn count_data(&self) -> (r: Result<usize, StoreFault>)
        ensures
            match r {
                Ok(count) => self@.count_data() == Ok::<nat, StoreFault>(count as nat),
                Err(e) => self@.count_data() == Err::<nat, StoreFault>(e),
            },
    {
        match &self.device_data {
            None => Err(StoreFault::NoSuchTable),
            Some(rows) => Ok(rows.len()),
        }
    }

    /// Inserts a backup.
    pub fn insert_data(&mut self, data_hash: &str, version: u32, data: Vec<u8>) -> (r: Result<
        (),
        StoreFault,
    >)
        ensures
            match r {
                Ok(_) => old(self)@.insert_data(data_hash@, version, data@) == Ok::<
                    ConnectionView,
                    StoreFault,
                >(final(self)@),
                Err(e) => old(self)@.insert_data(data_hash@, version, data@) == Err::<
                    ConnectionView,
                    StoreFault,
                >(e) && final(self)@ == old(self)@,
            },
    {
        let ghost before = self@;
        let wanted = data_hash.to_owned();
        match &mut self.device_data {
            None => {
                return Err(StoreFault::NoSuchTable);
            },
            Some(rows) => {
                if key_taken(rows, &wanted, version) {
                    return Err(StoreFault::Constraint);
                }
                let ghost all = record_views(rows@);
                let record = BlobRecord { data_hash: wanted, version, data: copy_bytes(&data) };
                rows.push(record);
                assert(record_views(rows@) =~= all.push(
                    BlobRecordView { data_hash: data_hash@, version, data: data@ },
                ));
            },
        }
        self.journal.push(Statement::InsertData { data_hash: data_hash.to_owned(), version, data });
        assert(self@.journal =~= before.journal.push(
            StatementView::InsertData { data_hash: data_hash@, version, data: data@ },
        ));
        Ok(())
    }

    /// The bytes of the latest backup.
    pub fn latest_data(&self) -> (r: Result<Vec<u8>, StoreFault>)
        ensures
            match r {
                Ok(data) => self@.latest_data() == Ok::<Seq<u8>, StoreFault>(data@),
                Err(e) => self@.latest_data() == Err::<Seq<u8>, StoreFault>(e),
            },
    {
        match &self.device_data {
            None => Err(StoreFault::NoSuchTable),
            Some(rows) => {
                if rows.len() == 0 {
                    return Err(StoreFault::NoRows);
                }
                let ghost all = record_views(rows@);
                let mut best: usize = 0;
                let mut i: usize = 1;
                assert(all.take(1).len() == 1);
                while i < rows.len()
                    invariant
                        1 <= i <= rows.len(),
                        best < i,
                        all == record_views(rows@),
                        best == latest_index(all.take(i as int)),
                    decreases rows.len() - i,
                {
                    assert(all.take(i as int + 1).drop_last() =~= all.take(i as int));
                    if rows[i].version > rows[best].version {
                        best = i;
                    }
                    i += 1;
                }
                assert(all.take(i as int) =~= all);
                Ok(copy_bytes(&rows[best].data))
            },
        }
    }

    /// The bytes of the backup with the version `version`.
    pub fn data_of_version(&self, version: u32) -> (r: Result<Vec<u8>, StoreFault>)
        ensures
            match r {
                Ok(data) => self@.data_of_version(version) == Ok::<Seq<u8>, StoreFault>(data@),
                Err(e) => self@.data_of_version(version) == Err::<Seq<u8>, StoreFault>(e),
            },
    {
        match &self.device_data {
            None => Err(StoreFault::NoSuchTable),
            Some(rows) => {
                let ghost all = record_views(rows@);
                let mut i: usize = 0;
                while i < rows.len()
                    invariant
                        i <= rows.len(),
                        all == record_views(rows@),
                        self@.device_data == Some(all),
                        first_of_version(all.take(i as int), version) is None,
                    decreases rows.len() - i,
                {
                    assert(all.take(i as int + 1).drop_last() =~= all.take(i as int));
                    if rows[i].version == version {
                        proof {
                            assert(first_of_version(all.take(i as int + 1), version) == Some(
                                i as int,
                            ));
                            lemma_first_of_version_stays(all, version, i as int + 1);
                        }
                        return Ok(copy_bytes(&rows[i].data));
                    }
                    i += 1;
                }
                assert(all.take(i as int) =~= all);
                Err(StoreFault::NoRows)
            },
        }
    }
}

/// A row that is the first of its version among the first `n` rows is the
/// first of its version among them all.
pub proof fn lemma_first_of_version_stays(rows: Seq<BlobRecordView>, version: u32, n: int)
    requires
        0 <= n <= rows.len(),
        first_of_version(rows.take(n), version) is Some,
    ensures
        first_of_version(rows, version) == first_of_version(rows.take(n), version),
    decreases rows.len() - n,
{
    if n < rows.len() {
        assert(rows.take(n + 1).drop_last() =~= rows.take(n));
        lemma_first_of_version_stays(rows, version, n + 1);
    } else {
        assert(rows.take(n) =~= rows);
    }
}

} // verus!
