//! The versioned blob store: its tables, the migrator that brings them to
//! the schema of this build, and the manager that inserts and retrieves
//! backups.

pub mod connection;
pub mod management;
pub mod migration;
