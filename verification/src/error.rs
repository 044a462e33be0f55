//! The failures that the library reports.

use vstd::prelude::*;
use vstd::string::StringExecFns;
use crate::database::migration::MigratorError;

verus! {

/// A statement that the store's tables cannot carry out.
#[derive(Debug, PartialEq, Eq, Clone, Copy, Structural)]
pub enum StoreFault {
    /// The table that the statement names does not exist.
    NoSuchTable,
    /// The table to create exists already.
    TableExists,
    /// The query found no row.
    NoRows,
    /// A row with the same key exists already.
    Constraint,
    /// A number of the store does not fit the type that holds it.
    OutOfRange,
}

/// Any failure of the library.
#[derive(Debug, PartialEq, Eq, Clone)]
pub enum Error {
    /// The tool that unwraps and wraps containers is not installed.
    ExternalToolMissing,
    /// The tool ran and failed; `message` is what it wrote as diagnostic.
    ExternalToolFailure { message: String },
    /// The store's schema cannot be migrated.
    Migration(MigratorError),
    /// The file behind the store handle is gone.
    StoreNotFound,
    /// A statement on the store's tables failed.
    Store(StoreFault),
    /// The bytes are no archive, or the archive format refuses a member.
    Archive,
    /// The device bridge ran `command` and failed with `message`.
    Command { command: String, message: String },
    /// No device is connected.
    NoDevice,
    /// Several devices are connected and none was chosen; `devices` lists them.
    TooManyDevices { devices: String },
}

impl StoreFault {
    /// The failure in words.
    pub open spec fn text(self) -> Seq<char> {
        match self {
            StoreFault::NoSuchTable => "no such table"@,
            StoreFault::TableExists => "table already exists"@,
            StoreFault::NoRows => "query returned no rows"@,
            StoreFault::Constraint => "a row with this key exists already"@,
            StoreFault::OutOfRange => "number out of range"@,
        }
    }

    /// The failure in words.
    pub fn message(&self) -> (r: String)
        ensures
            r@ == self.text(),
    {
        match self {
            StoreFault::NoSuchTable => String::from_str("no such table"),
            StoreFault::TableExists => String::from_str("table already exists"),
            StoreFault::NoRows => String::from_str("query returned no rows"),
            StoreFault::Constraint => String::from_str("a row with this key exists already"),
            StoreFault::OutOfRange => String::from_str("number out of range"),
        }
    }
}

impl Error {
    /// The failure in words.
    pub open spec fn text(self) -> Seq<char> {
        match self {
            Error::ExternalToolMissing => "Cannot pack/unpack backup without abe.jar"@,
            Error::ExternalToolFailure { message } => "Error executing abe.jar.\n "@ + message@,
            Error::Migration(e) => e.text(),
            Error::StoreNotFound => "Could not open database"@,
            Error::Store(fault) => fault.text(),
            Error::Archive => "Could not read or write the archive"@,
            Error::Command { command, message } => "Error executing "@ + command@ + ".\n "@
                + message@,
            Error::NoDevice => "No device found. Make sure that you connect one device with enabled debug options."@,
            Error::TooManyDevices { devices } => "More than one device connected and no device provided.\n Please execute adbackup again, with `--device` and one of the following device ids:\n"@
                + "\n"@ + devices@,
        }
    }

    /// The failure in words.
    pub fn message(&self) -> (r: String)
        ensures
            r@ == self.text(),
    {
        match self {
            Error::ExternalToolMissing => String::from_str(
                "Cannot pack/unpack backup without abe.jar",
            ),
            Error::ExternalToolFailure { message } => String::from_str(
                "Error executing abe.jar.\n ",
            ).concat(message.as_str()),
            Error::Migration(e) => e.message(),
            Error::StoreNotFound => String::from_str("Could not open database"),
            Error::Store(fault) => fault.message(),
            Error::Archive => String::from_str("Could not read or write the archive"),
            Error::Command { command, message } => String::from_str("Error executing ").concat(
                command.as_str(),
            ).concat(".\n ").concat(message.as_str()),
            Error::NoDevice => String::from_str(
                "No device found. Make sure that you connect one device with enabled debug options.",
            ),
            Error::TooManyDevices { devices } => String::from_str(
                "More than one device connected and no device provided.\n Please execute adbackup again, with `--device` and one of the following device ids:\n",
            ).concat("\n").concat(devices.as_str()),
        }
    }
}

} // verus!
