use adbackup::database::connection::{BlobRecord, Connection, Statement};
use adbackup::database::management::DatabaseManager;
use adbackup::database::migration::{DatabaseMigrator, MigratorError, CURRENT_VERSION};
use adbackup::error::{Error, StoreFault};

fn current_store() -> Connection {
    Connection::from_tables(Some(vec![CURRENT_VERSION]), Some(Vec::new()))
}

#[test]
fn test_data_insertion_and_retrieval() {
    let temp_db = "847f7b63b0325d18e3b628e4604b6be4.db";
    let mut db_manager = DatabaseManager::open_connection(temp_db, current_store()).unwrap();

    let first_data = vec![00, 01, 02];
    assert!(db_manager.insert_data(true, first_data).is_ok());

    let second_data = vec![03, 04, 05];
    assert!(db_manager.insert_data(true, second_data.clone()).is_ok());

    let result = db_manager.get_latest_backup(true);
    assert!(result.is_ok());

    let data_wanted = second_data;
    let data_result = result.unwrap();
    assert_eq!(data_wanted, data_result);
}

#[test]
fn test_version_retrieval() {
    let conn = current_store();
    let ver = DatabaseMigrator::get_database_version(&conn);

    assert!(ver.is_ok());
    assert_eq!(ver.unwrap(), CURRENT_VERSION);
}

#[test]
fn test_migration_one_from_zero() {
    let mut conn = Connection::new();

    assert!(DatabaseMigrator::migrate(&mut conn, 0).is_ok());

    assert_eq!(DatabaseMigrator::get_database_version(&conn).unwrap(), 1);
}

#[test]
fn test_migration_unknown_version() {
    let mut conn = Connection::new();

    assert_eq!(
        format!("{}", DatabaseMigrator::migrate(&mut conn, CURRENT_VERSION + 1).unwrap_err().message()),
        format!("unknown database version: {}", CURRENT_VERSION + 1)
    );
}

#[test]
fn migration_of_a_later_version_changes_nothing() {
    let mut conn = current_store();
    let before = conn.clone();
    assert_eq!(
        DatabaseMigrator::migrate(&mut conn, CURRENT_VERSION + 7),
        Err(Error::Migration(MigratorError::UnknownDatabaseVersion { version: CURRENT_VERSION + 7 }))
    );
    assert_eq!(conn, before);
}

#[test]
fn migration_of_a_current_store_changes_nothing() {
    let mut conn = Connection::new();
    assert!(DatabaseMigrator::migrate(&mut conn, 0).is_ok());
    let before = conn.clone();
    let version = DatabaseMigrator::get_database_version(&conn).unwrap();
    assert_eq!(version, CURRENT_VERSION);
    assert_eq!(DatabaseMigrator::migrate(&mut conn, version), Ok(()));
    assert_eq!(conn, before);
}

#[test]
fn opening_a_store_without_tables_creates_them() {
    let manager = DatabaseManager::open_connection("device", Connection::new()).unwrap();
    let conn = manager.connection();
    assert_eq!(DatabaseMigrator::get_database_version(conn), Ok(CURRENT_VERSION));
    assert_eq!(conn.system_rows(), &Some(vec![CURRENT_VERSION]));
    assert_eq!(conn.data_rows(), &Some(Vec::new()));
    assert_eq!(conn.count_data(), Ok(0));
}

#[test]
fn the_journal_holds_the_statements_of_the_first_migration() {
    let mut manager = DatabaseManager::open_connection("device", Connection::new()).unwrap();
    let journal = manager.take_journal();
    assert_eq!(
        journal,
        vec![
            Statement::CreateSystemTable,
            Statement::InsertSystemVersion { version: 1 },
            Statement::CreateDataTable,
        ]
    );
    assert!(manager.connection().journal().is_empty());
    assert_eq!(journal[0].sql(), "CREATE TABLE adbackup_system (version INTEGER NOT NULL)");
    assert_eq!(journal[1].sql(), "INSERT INTO adbackup_system VALUES(?1)");
    assert!(journal[2].sql().starts_with("CREATE TABLE device_data ("));
    assert!(journal[2].sql().ends_with("PRIMARY KEY(data_hash, version))"));
}

#[test]
fn the_journal_holds_each_insert() {
    let mut manager = DatabaseManager::open_connection("device", current_store()).unwrap();
    assert!(manager.take_journal().is_empty());
    manager.insert_data(true, vec![9, 8]).unwrap();
    let journal = manager.take_journal();
    assert_eq!(
        journal,
        vec![Statement::InsertData { data_hash: "const_hash".to_string(), version: 1, data: vec![9, 8] }]
    );
    assert_eq!(
        journal[0].sql(),
        "INSERT INTO device_data (data_hash, version, data) VALUES (?1, ?2, ?3)"
    );
}

#[test]
fn the_name_of_a_store_ends_with_db() {
    assert_eq!(DatabaseManager::database_name("emulator-5554"), "emulator-5554.db");
    assert_eq!(DatabaseManager::database_name("emulator-5554.db"), "emulator-5554.db");
    assert_eq!(DatabaseManager::database_name(""), ".db");
    assert_eq!(DatabaseManager::database_name(".db"), ".db");
    assert_eq!(DatabaseManager::database_name("db"), "db.db");
    let manager = DatabaseManager::open_connection("phone", Connection::new()).unwrap();
    assert_eq!(manager.name(), "phone.db");
}

#[test]
fn versions_count_up_from_one() {
    let mut manager = DatabaseManager::open_connection("device", Connection::new()).unwrap();
    for i in 0..5u8 {
        manager.insert_data(true, vec![i, i]).unwrap();
        assert_eq!(manager.get_latest_backup(true), Ok(vec![i, i]));
    }
    let rows = manager.connection().data_rows().clone().unwrap();
    assert_eq!(rows.len(), 5);
    for (i, row) in rows.iter().enumerate() {
        assert_eq!(row.version as usize, i + 1);
        assert_eq!(row.data, vec![i as u8, i as u8]);
        assert_eq!(row.data_hash, "const_hash");
    }
}

#[test]
fn earlier_versions_stay_retrievable() {
    let mut manager = DatabaseManager::open_connection("device", Connection::new()).unwrap();
    manager.insert_data(true, vec![1]).unwrap();
    manager.insert_data(true, vec![2]).unwrap();
    manager.insert_data(true, vec![3]).unwrap();
    assert_eq!(manager.connection().data_of_version(1), Ok(vec![1]));
    assert_eq!(manager.connection().data_of_version(2), Ok(vec![2]));
    assert_eq!(manager.connection().data_of_version(3), Ok(vec![3]));
    assert_eq!(manager.connection().data_of_version(4), Err(StoreFault::NoRows));
}

#[test]
fn a_store_whose_file_is_gone_is_not_found() {
    let mut manager = DatabaseManager::open_connection("device", current_store()).unwrap();
    let before = manager.clone();
    assert_eq!(manager.insert_data(false, vec![1]), Err(Error::StoreNotFound));
    assert_eq!(manager, before);
    assert_eq!(manager.get_latest_backup(false), Err(Error::StoreNotFound));
    assert_eq!(Error::StoreNotFound.message(), "Could not open database");
}

#[test]
fn an_empty_store_has_no_latest_backup() {
    let manager = DatabaseManager::open_connection("device", current_store()).unwrap();
    assert_eq!(manager.get_latest_backup(true), Err(Error::Store(StoreFault::NoRows)));
}

#[test]
fn a_store_that_records_a_later_version_cannot_be_opened() {
    let conn = Connection::from_tables(Some(vec![CURRENT_VERSION + 1]), Some(Vec::new()));
    assert_eq!(
        DatabaseManager::open_connection("device", conn),
        Err(Error::Migration(MigratorError::UnknownDatabaseVersion { version: CURRENT_VERSION + 1 }))
    );
}

#[test]
fn a_version_that_cannot_be_read_counts_as_zero() {
    // The table of the schema version exists but holds no row: the first
    // step then fails on the table that is there.
    let conn = Connection::from_tables(Some(Vec::new()), None);
    assert_eq!(
        DatabaseManager::open_connection("device", conn),
        Err(Error::Store(StoreFault::TableExists))
    );
}

#[test]
fn a_step_that_fails_leaves_what_was_done() {
    let mut conn = Connection::from_tables(None, Some(Vec::new()));
    assert_eq!(
        DatabaseMigrator::migrate(&mut conn, 0),
        Err(Error::Store(StoreFault::TableExists))
    );
    assert_eq!(conn.system_rows(), &Some(vec![1]));
    assert_eq!(
        conn.journal(),
        &vec![Statement::CreateSystemTable, Statement::InsertSystemVersion { version: 1 }]
    );
}

#[test]
fn statements_on_missing_tables_fail() {
    let mut conn = Connection::new();
    assert_eq!(conn.system_version(), Err(StoreFault::NoSuchTable));
    assert_eq!(conn.count_data(), Err(StoreFault::NoSuchTable));
    assert_eq!(conn.latest_data(), Err(StoreFault::NoSuchTable));
    assert_eq!(conn.data_of_version(1), Err(StoreFault::NoSuchTable));
    assert_eq!(conn.insert_system_version(1), Err(StoreFault::NoSuchTable));
    assert_eq!(conn.insert_data("h", 1, vec![1]), Err(StoreFault::NoSuchTable));
    assert_eq!(conn.create_system_table(), Ok(()));
    assert_eq!(conn.system_version(), Err(StoreFault::NoRows));
    assert_eq!(conn.create_system_table(), Err(StoreFault::TableExists));
    assert_eq!(conn.create_data_table(), Ok(()));
    assert_eq!(conn.create_data_table(), Err(StoreFault::TableExists));
    let manager = DatabaseManager::open_connection("x", Connection::from_tables(Some(vec![1]), None)).unwrap();
    let mut manager = manager;
    assert_eq!(manager.insert_data(true, vec![1]), Err(Error::Store(StoreFault::NoSuchTable)));
}

#[test]
fn a_key_is_stored_once() {
    let rows = vec![BlobRecord { data_hash: "const_hash".to_string(), version: 2, data: vec![7] }];
    let conn = Connection::from_tables(Some(vec![1]), Some(rows));
    let mut manager = DatabaseManager::open_connection("device", conn).unwrap();
    // one row in the table: the next version is 2, which is taken
    assert_eq!(manager.insert_data(true, vec![1]), Err(Error::Store(StoreFault::Constraint)));
    assert_eq!(manager.connection().count_data(), Ok(1));
    let mut conn = manager.connection().clone();
    assert_eq!(conn.insert_data("other", 2, vec![5]), Ok(()));
    assert_eq!(conn.insert_data("other", 2, vec![6]), Err(StoreFault::Constraint));
}

#[test]
fn the_latest_backup_is_the_one_with_the_greatest_version() {
    let rows = vec![
        BlobRecord { data_hash: "a".to_string(), version: 3, data: vec![3] },
        BlobRecord { data_hash: "a".to_string(), version: 9, data: vec![9] },
        BlobRecord { data_hash: "b".to_string(), version: 9, data: vec![10] },
        BlobRecord { data_hash: "a".to_string(), version: 4, data: vec![4] },
    ];
    let conn = Connection::from_tables(Some(vec![1]), Some(rows));
    assert_eq!(conn.latest_data(), Ok(vec![9]));
    assert_eq!(conn.data_of_version(9), Ok(vec![9]));
}

#[test]
fn migrator_errors_in_words() {
    assert_eq!(
        MigratorError::UnknownDatabaseVersion { version: 4294967295 }.message(),
        "unknown database version: 4294967295"
    );
    assert_eq!(
        MigratorError::NoMigrationFunction { version: 0 }.message(),
        "no migration function for version 0 implemented"
    );
    assert_eq!(
        Error::Migration(MigratorError::NoMigrationFunction { version: 120 }).message(),
        "no migration function for version 120 implemented"
    );
    assert_eq!(Error::Store(StoreFault::NoSuchTable).message(), "no such table");
    assert_eq!(Error::Store(StoreFault::TableExists).message(), "table already exists");
    assert_eq!(Error::Store(StoreFault::NoRows).message(), "query returned no rows");
    assert_eq!(Error::Store(StoreFault::Constraint).message(), "a row with this key exists already");
    assert_eq!(Error::Store(StoreFault::OutOfRange).message(), "number out of range");
}
