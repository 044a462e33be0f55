//! Verified core of an Android backup tool: command construction for the
//! device bridge, parsing of its listings, the archive transcoder and the
//! versioned blob store with its schema migrator.

pub mod ab_extracting;
pub mod adb_command;
pub mod archive;
pub mod backup;
pub mod database;
pub mod devices;
pub mod error;
pub mod file_transfer;
pub mod logging;
pub mod restore;
pub mod round_trip;
pub mod text;

use vstd::prelude::*;
use vstd::string::StringExecFns;
use crate::adb_command::{AdbCommand, AdbCommandView};
use crate::archive::texts_of;
use crate::backup::{container_file, container_name, Backup, BackupOptions};
use crate::devices::{device_views, Device, DeviceView};
use crate::error::Error;
use crate::file_transfer::{device_text, FileTransfer};
use crate::restore::Restore;

verus! {

/// The version of the library.
pub fn version() -> (r: &'static str)
    ensures
        r@ == "0.1.0"@,
{
    "0.1.0"
}

/// The line that reports one device.
pub open spec fn device_line(device: DeviceView) -> Seq<char> {
    "Id: '"@ + device.id + "', details: '"@ + device.details + "'"@
}

/// The lines that report `devices`, each after a line break of its own.
pub open spec fn device_lines(devices: Seq<DeviceView>) -> Seq<char>
    decreases devices.len(),
{
    if devices.len() == 0 {
        Seq::empty()
    } else {
        device_lines(devices.drop_last()) + "\r\n"@ + device_line(devices.last())
    }
}

/// The report of the connected devices.
pub open spec fn printable_device_list(devices: Seq<DeviceView>) -> Seq<char> {
    if devices.len() > 0 {
        "Found the following devices:"@ + "\r\n"@ + device_lines(devices)
    } else {
        "No device found. Make sure that you connect at least one device with enabled debug options."@
    }
}

/// The report of the connected devices `devices`: a heading and one line
/// for each device, or the advice to connect one.
pub fn get_printable_device_list(devices: &Vec<Device>) -> (r: String)
    ensures
        r@ == printable_device_list(device_views(devices@)),
{
    if devices.len() > 0 {
        let ghost all = device_views(devices@);
        let mut device_list = String::from_str("Found the following devices:").concat("\r\n");
        let ghost head = device_list@;
        let mut i: usize = 0;
        assert(head + device_lines(all.take(0)) =~= head);
        while i < devices.len()
            invariant
                i <= devices.len(),
                all == device_views(devices@),
                device_list@ == head + device_lines(all.take(i as int)),
            decreases devices.len() - i,
        {
            let device = &devices[i];
            assert(all.take(i as int + 1).drop_last() =~= all.take(i as int));
            device_list.append("\r\n");
            device_list.append("Id: '");
            device_list.append(device.id.as_str());
            device_list.append("', details: '");
            device_list.append(device.details.as_str());
            device_list.append("'");
            i += 1;
            assert(device_list@ =~= head + device_lines(all.take(i as int)));
        }
        assert(all.take(i as int) =~= all);
        device_list
    } else {
        String::from_str(
            "No device found. Make sure that you connect at least one device with enabled debug options.",
        )
    }
}

/// Whether a command can go ahead: not where no device is named and more
/// than one of `devices` is connected. The failure lists the devices.
pub fn check_too_many_devices(device_id: Option<&str>, devices: &Vec<Device>) -> (r: Result<
    (),
    Error,
>)
    ensures
        !(device_id is None && devices@.len() > 1) ==> r == Ok::<(), Error>(()),
        device_id is None && devices@.len() > 1 ==> (r matches Err(
            Error::TooManyDevices { devices: listed },
        ) && listed@ == printable_device_list(device_views(devices@))),
{
    if device_id.is_none() && devices.len() > 1 {
        return Err(Error::TooManyDevices { devices: get_printable_device_list(devices) });
    }
    Ok(())
}

/// The identifier of the connected device, where `devices` holds exactly
/// one.
pub fn get_device_id(devices: &Vec<Device>) -> (r: Result<String, Error>)
    ensures
        devices@.len() == 1 ==> (r matches Ok(id) && id@ == devices@[0]@.id),
        devices@.len() == 0 ==> r == Err::<String, Error>(Error::NoDevice),
        devices@.len() > 1 ==> (r matches Err(Error::TooManyDevices { devices: listed }) && listed@
            == printable_device_list(device_views(devices@))),
{
    match check_too_many_devices(None, devices) {
        Ok(_) => {},
        Err(e) => {
            return Err(e);
        },
    }
    if devices.len() > 0 {
        Ok(devices[0].id.clone())
    } else {
        Err(Error::NoDevice)
    }
}

/// The lines that report `apps`, each with a line feed after it.
pub open spec fn app_lines(apps: Seq<Seq<char>>) -> Seq<char>
    decreases apps.len(),
{
    if apps.len() == 0 {
        Seq::empty()
    } else {
        app_lines(apps.drop_last()) + apps.last() + "\n"@
    }
}

/// The report of the installed applications.
pub open spec fn printable_app_list(apps: Seq<Seq<char>>) -> Seq<char> {
    if apps.len() > 0 {
        "Found the following app(s) on device:"@ + "\r\n"@ + app_lines(apps)
    } else {
        "No packages found."@
    }
}

/// The report of the installed applications `apps`: a heading and one line
/// for each application, or the word that there is none.
pub fn get_printable_app_list(apps: &Vec<String>) -> (r: String)
    ensures
        r@ == printable_app_list(texts_of(apps@)),
{
    if apps.len() > 0 {
        let ghost all = texts_of(apps@);
        let mut app_list = String::from_str("Found the following app(s) on device:").concat(
            "\r\n",
        );
        let ghost head = app_list@;
        let mut i: usize = 0;
        assert(head + app_lines(all.take(0)) =~= head);
        while i < apps.len()
            invariant
                i <= apps.len(),
                all == texts_of(apps@),
                app_list@ == head + app_lines(all.take(i as int)),
            decreases apps.len() - i,
        {
            assert(all.take(i as int + 1).drop_last() =~= all.take(i as int));
            app_list.append(apps[i].as_str());
            app_list.append("\n");
            i += 1;
            assert(app_list@ =~= head + app_lines(all.take(i as int)));
        }
        assert(all.take(i as int) =~= all);
        app_list
    } else {
        String::from_str("No packages found.")
    }
}

/// A piece of work for the caller: the command to run on the bridge, and the
/// report for when it has run.
#[derive(Debug, PartialEq, Eq, Clone)]
pub struct Job {
    pub command: AdbCommand,
    pub finished: String,
}

/// A piece of work that involves the store of a device: the command to run
/// on the bridge, the name of the store, the file that holds the container,
/// and the report for when all is done.
#[derive(Debug, PartialEq, Eq, Clone)]
pub struct StoreJob {
    pub command: AdbCommand,
    pub store: String,
    pub container: String,
    pub finished: String,
}

/// The options of a backup of the device `device_id`: each part that is
/// asked for is taken in.
pub open spec fn chosen_options(
    device_id: Seq<char>,
    apk: bool,
    shared: bool,
    system: bool,
    only_specified: Option<Seq<char>>,
) -> Seq<Seq<char>> {
    seq![
        if apk {
            "-apk"@
        } else {
            "-noapk"@
        },
        if shared {
            "-shared"@
        } else {
            "-noshared"@
        },
        if system {
            "-system"@
        } else {
            "-nosystem"@
        },
        if apk {
            "-apk"@
        } else {
            "-noapk"@
        },
        match only_specified {
            Some(apps) => apps,
            None => "-all"@,
        },
        "-f"@,
        container_name(device_id),
    ]
}

/// The backup of the device `device_id`: the bridge writes the container
/// file of the device, and that file is then inserted into the store of the
/// device. Each of `apk`, `shared` and `system` that is given takes that
/// part into the backup; `only_specified` restricts it to the applications
/// named.
pub fn backup(
    device_id: &str,
    apk: Option<&str>,
    shared: Option<&str>,
    system: Option<&str>,
    only_specified: Option<&str>,
) -> (r: StoreJob)
    ensures
        r.command@ == (AdbCommandView {
            command: "backup"@,
            device_id: Some(device_id@),
            args: chosen_options(
                device_id@,
                apk is Some,
                shared is Some,
                system is Some,
                device_text(only_specified),
            ),
        }),
        r.store@ == device_id@,
        r.container@ == container_name(device_id@),
        r.finished@ == "Backup finished."@,
{
    let mut backup_options = BackupOptions::default(device_id);
    if apk.is_some() {
        backup_options = backup_options.with_applications();
    }
    if shared.is_some() {
        backup_options = backup_options.with_shared_storage();
    }
    if system.is_some() {
        backup_options = backup_options.with_system_apps();
    }
    match only_specified {
        Some(apps) => {
            backup_options = backup_options.with_only_specified_app(apps);
        },
        None => {},
    }
    let command = Backup::backup(backup_options);
    assert(command@.args =~= chosen_options(
        device_id@,
        apk is Some,
        shared is Some,
        system is Some,
        device_text(only_specified),
    ));
    StoreJob {
        command,
        store: String::from_str(device_id),
        container: container_file(device_id),
        finished: String::from_str("Backup finished."),
    }
}

/// The restore of the device `device_id`: the latest backup of the store of
/// the device is written to the container file of the device, and the
/// bridge then restores the device from that file.
pub fn restore(device_id: &str) -> (r: StoreJob)
    ensures
        r.command@ == (AdbCommandView {
            command: "restore"@,
            device_id: Some(device_id@),
            args: seq![container_name(device_id@)],
        }),
        r.store@ == device_id@,
        r.container@ == container_name(device_id@),
        r.finished@ == "Restore finished."@,
{
    StoreJob {
        command: Restore::restore(device_id),
        store: String::from_str(device_id),
        container: container_file(device_id),
        finished: String::from_str("Restore finished."),
    }
}

/// The copy of `path` from the device. Without a device identifier it
/// needs `devices` to hold at most one device.
pub fn pull(device_id: Option<&str>, path: &str, devices: &Vec<Device>) -> (r: Result<Job, Error>)
    ensures
        !(device_id is None && devices@.len() > 1) ==> (r matches Ok(job) && job.command@ == (
        AdbCommandView {
            command: "pull"@,
            device_id: device_text(device_id),
            args: seq![path@, "-a"@],
        }) && job.finished@ == "Pulling path finished."@),
        device_id is None && devices@.len() > 1 ==> (r matches Err(
            Error::TooManyDevices { devices: listed },
        ) && listed@ == printable_device_list(device_views(devices@))),
{
    match check_too_many_devices(device_id, devices) {
        Ok(_) => {},
        Err(e) => {
            return Err(e);
        },
    }
    Ok(
        Job {
            command: FileTransfer::pull(device_id, path),
            finished: String::from_str("Pulling path finished."),
        },
    )
}

/// The copy of `src_path` to `dst_path` on the device. Without a device
/// identifier it needs `devices` to hold at most one device.
pub fn push(device_id: Option<&str>, src_path: &str, dst_path: &str, devices: &Vec<Device>) -> (r:
    Result<Job, Error>)
    ensures
        !(device_id is None && devices@.len() > 1) ==> (r matches Ok(job) && job.command@ == (
        AdbCommandView {
            command: "push"@,
            device_id: device_text(device_id),
            args: seq![src_path@, dst_path@],
        }) && job.finished@ == "Pushing from "@ + src_path@ + " to "@ + dst_path@ + " finished."@),
        device_id is None && devices@.len() > 1 ==> (r matches Err(
            Error::TooManyDevices { devices: listed },
        ) && listed@ == printable_device_list(device_views(devices@))),
{
    match check_too_many_devices(device_id, devices) {
        Ok(_) => {},
        Err(e) => {
            return Err(e);
        },
    }
    Ok(
        Job {
            command: FileTransfer::push(device_id, src_path, dst_path),
            finished: String::from_str("Pushing from ").concat(src_path).concat(" to ").concat(
                dst_path,
            ).concat(" finished."),
        },
    )
}

} // verus!
