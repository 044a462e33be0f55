//! Backups of a device: the options, the command that asks the bridge for a
//! backup, and the listing of the installed applications.

use vstd::prelude::*;
use vstd::string::StringExecFns;
use crate::adb_command::{AdbCommand, AdbCommandView};
use crate::archive::texts_of;
use crate::text::{chars_of, contains, occurs, rows, split, split_at_each, string_of};

verus! {

/// What a backup is to hold, each as the flag that the bridge takes, and the
/// device to back up.
#[derive(Debug, PartialEq, Eq, Clone)]
pub struct BackupOptions {
    device_id: String,
    applications: String,
    shared_storage: String,
    system_apps: String,
    only_specified_app: String,
}

/// What `BackupOptions` hold, as text.
pub struct BackupOptionsView {
    pub device_id: Seq<char>,
    pub applications: Seq<char>,
    pub shared_storage: Seq<char>,
    pub system_apps: Seq<char>,
    pub only_specified_app: Seq<char>,
}

impl View for BackupOptions {
    type V = BackupOptionsView;

    closed spec fn view(&self) -> BackupOptionsView {
        BackupOptionsView {
            device_id: self.device_id@,
            applications: self.applications@,
            shared_storage: self.shared_storage@,
            system_apps: self.system_apps@,
            only_specified_app: self.only_specified_app@,
        }
    }
}

impl BackupOptions {
    /// The options of a backup of the device `device_id` that holds the data
    /// of all applications and nothing else: no application packages, no
    /// shared storage, no system applications.
    pub fn default(device_id: &str) -> (r: Self)
        ensures
            r@ == (BackupOptionsView {
                device_id: device_id@,
                applications: "-noapk"@,
                shared_storage: "-noshared"@,
                system_apps: "-nosystem"@,
                only_specified_app: "-all"@,
            }),
    {
        BackupOptions {
            device_id: String::from_str(device_id),
            applications: String::from_str("-noapk"),
            shared_storage: String::from_str("-noshared"),
            system_apps: String::from_str("-nosystem"),
            only_specified_app: String::from_str("-all"),
        }
    }

    /// Takes the application packages into the backup.
    pub fn with_applications(self) -> (r: Self)
        ensures
            r@ == (BackupOptionsView { applications: "-apk"@, ..self@ }),
    {
        BackupOptions { applications: String::from_str("-apk"), ..self }
    }

    /// Takes the shared storage into the backup.
    pub fn with_shared_storage(self) -> (r: Self)
        ensures
            r@ == (BackupOptionsView { shared_storage: "-shared"@, ..self@ }),
    {
        BackupOptions { shared_storage: String::from_str("-shared"), ..self }
    }

    /// Takes the system applications into the backup.
    pub fn with_system_apps(self) -> (r: Self)
        ensures
            r@ == (BackupOptionsView { system_apps: "-system"@, ..self@ }),
    {
        BackupOptions { system_apps: String::from_str("-system"), ..self }
    }

    /// Restricts the backup to the applications `apps`.
    pub fn with_only_specified_app(self, apps: &str) -> (r: Self)
        ensures
            r@ == (BackupOptionsView { only_specified_app: apps@, ..self@ }),
    {
        BackupOptions { only_specified_app: String::from_str(apps), ..self }
    }
}

/// The name of the file that holds the container of the device
/// `device_id`.
pub open spec fn container_name(device_id: Seq<char>) -> Seq<char> {
    device_id + ".ab"@
}

/// The name of the file that holds the container of the device
/// `device_id`.
pub fn container_file(device_id: &str) -> (r: String)
    ensures
        r@ == container_name(device_id@),
{
    String::from_str(device_id).concat(".ab")
}

/// The application that one line of the listing names: the text between the
/// first colon and the next. The packages of the platform and of its vendor
/// are passed over, and so is a line without a colon.
pub open spec fn package_of(line: Seq<char>) -> Option<Seq<char>> {
    let pieces = split(line, seq![':']);
    if !contains(line, "package:com.android."@) && !contains(line, "package:com.google.android."@)
        && pieces.len() >= 2 {
        Some(pieces[1])
    } else {
        None
    }
}

/// The applications that a listing names, line by line.
pub open spec fn listed_packages(listing: Seq<char>) -> Seq<Seq<char>> {
    split(listing, seq!['\n']).filter_map(|line: Seq<char>| package_of(line))
}

/// Backups of a device.
#[derive(Debug, PartialEq, Eq, Clone)]
pub struct Backup {}

impl Backup {
    /// The command that asks the bridge for a backup with the options
    /// `backup_options`, written to the container file of the device.
    pub fn backup(backup_options: BackupOptions) -> (r: AdbCommand)
        ensures
            r@ == (AdbCommandView {
                command: "backup"@,
                device_id: Some(backup_options@.device_id),
                args: seq![
                    backup_options@.applications,
                    backup_options@.shared_storage,
                    backup_options@.system_apps,
                    backup_options@.applications,
                    backup_options@.only_specified_app,
                    "-f"@,
                    container_name(backup_options@.device_id),
                ],
            }),
    {
        let mut command_args: Vec<&str> = Vec::new();
        command_args.push(backup_options.applications.as_str());
        command_args.push(backup_options.shared_storage.as_str());
        command_args.push(backup_options.system_apps.as_str());
        command_args.push(backup_options.applications.as_str());
        command_args.push(backup_options.only_specified_app.as_str());
        let backup_name = container_file(backup_options.device_id.as_str());
        let r = AdbCommand::command("backup").with_args(command_args).with_arg("-f").with_arg(
            backup_name.as_str(),
        ).with_device_id(Some(backup_options.device_id.as_str()));
        assert(r@.args =~= seq![
            backup_options@.applications,
            backup_options@.shared_storage,
            backup_options@.system_apps,
            backup_options@.applications,
            backup_options@.only_specified_app,
            "-f"@,
            container_name(backup_options@.device_id),
        ]);
        r
    }

    /// The command that asks the device `device_id`, or the only device, for
    /// its installed applications.
    pub fn list_apps(device_id: Option<&str>) -> (r: AdbCommand)
        ensures
            r@ == (AdbCommandView {
                command: "shell"@,
                device_id: match device_id {
                    Some(id) => Some(id@),
                    None => None,
                },
                args: seq!["pm"@, "list"@, "packages"@],
            }),
    {
        let mut args: Vec<&str> = Vec::new();
        args.push("pm");
        args.push("list");
        args.push("packages");
        let r = AdbCommand::command("shell").with_args(args).with_device_id(device_id);
        assert(r@.args =~= seq!["pm"@, "list"@, "packages"@]);
        r
    }

    /// Reads the applications out of the answer to `list_apps`.
    pub fn parse_list_apps(command_response: String) -> (r: Vec<String>)
        ensures
            texts_of(r@) == listed_packages(command_response@),
    {
        let text = chars_of(command_response.as_str());
        let mut feed: Vec<char> = Vec::new();
        feed.push('\n');
        assert(feed@ =~= seq!['\n']);
        let mut colon: Vec<char> = Vec::new();
        colon.push(':');
        assert(colon@ =~= seq![':']);
        let platform = chars_of("package:com.android.");
        let vendor = chars_of("package:com.google.android.");
        let all = split_at_each(&text, &feed);
        let ghost pick = |line: Seq<char>| package_of(line);
        let mut result: Vec<String> = Vec::new();
        let mut i: usize = 0;
        while i < all.len()
            invariant
                i <= all.len(),
                colon@ == seq![':'],
                platform@ == "package:com.android."@,
                vendor@ == "package:com.google.android."@,
                pick == (|line: Seq<char>| package_of(line)),
                texts_of(result@) == rows(&all).take(i as int).filter_map(pick),
            decreases all.len() - i,
        {
            let line = &all[i];
            let ghost before = texts_of(result@);
            proof {
                rows(&all).lemma_filter_map_take_succ(pick, i as int);
            }
            let mut taken = false;
            if !occurs(line, &platform) && !occurs(line, &vendor) {
                let pieces = split_at_each(line, &colon);
                if pieces.len() >= 2 {
                    let name = string_of(&pieces[1]);
                    assert(rows(&pieces)[1] == pieces@[1]@);
                    result.push(name);
                    assert(texts_of(result@) =~= before + seq![rows(&pieces)[1]]);
                    taken = true;
                }
            }
            if !taken {
                assert(before + Seq::<Seq<char>>::empty() =~= before);
            }
            i += 1;
        }
        assert(rows(&all).take(i as int) =~= rows(&all));
        result
    }
}

} // verus!
