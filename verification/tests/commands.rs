use adbackup::adb_command::AdbCommand;
use adbackup::backup::{container_file, Backup, BackupOptions};
use adbackup::devices::Device;
use adbackup::error::Error;
use adbackup::file_transfer::FileTransfer;
use adbackup::logging::{console_line, file_line, logs_to_console, logs_to_file, setup_logging, LogLevel, LogSetup};
use adbackup::restore::Restore;
use adbackup::{
    backup, check_too_many_devices, get_device_id, get_printable_app_list, get_printable_device_list,
    pull, push, restore, version,
};

fn device(id: &str, details: &str) -> Device {
    Device { id: id.to_string(), details: details.to_string() }
}

#[test]
fn a_command_is_started_with_device_then_name_then_arguments() {
    let command = AdbCommand::command("shell").with_args(vec!["pm", "list"]).with_arg("packages");
    assert_eq!(command.arguments(), vec!["shell", "pm", "list", "packages"]);
    let command = command.with_device_id(Some("emulator-5554"));
    assert_eq!(command.arguments(), vec!["-s", "emulator-5554", "shell", "pm", "list", "packages"]);
    let command = command.with_args(vec![]).with_device_id(None);
    assert_eq!(command.arguments(), vec!["shell"]);
    assert_eq!(AdbCommand::command("devices"), AdbCommand::command("devices").with_args(Vec::new()));
}

#[test]
fn the_outcome_of_a_command() {
    let command = AdbCommand::command("pull").with_arg("/sdcard");
    assert_eq!(command.outcome(true, "done".to_string(), "warn".to_string()), Ok("done".to_string()));
    let failure = command.outcome(false, "done".to_string(), "no device".to_string());
    assert_eq!(
        failure,
        Err(Error::Command { command: "pull".to_string(), message: "no device".to_string() })
    );
    assert_eq!(failure.unwrap_err().message(), "Error executing pull.\n no device");
}

#[test]
fn the_default_backup_holds_the_data_of_all_applications() {
    let command = Backup::backup(BackupOptions::default("abc"));
    assert_eq!(
        command.arguments(),
        vec!["-s", "abc", "backup", "-noapk", "-noshared", "-nosystem", "-noapk", "-all", "-f", "abc.ab"]
    );
}

#[test]
fn each_option_changes_its_flag() {
    let options = BackupOptions::default("abc")
        .with_applications()
        .with_shared_storage()
        .with_system_apps()
        .with_only_specified_app("org.one");
    assert_eq!(
        Backup::backup(options).arguments(),
        vec!["-s", "abc", "backup", "-apk", "-shared", "-system", "-apk", "org.one", "-f", "abc.ab"]
    );
    let options = BackupOptions::default("abc").with_shared_storage();
    assert_eq!(
        Backup::backup(options).arguments(),
        vec!["-s", "abc", "backup", "-noapk", "-shared", "-nosystem", "-noapk", "-all", "-f", "abc.ab"]
    );
    assert_eq!(container_file("abc"), "abc.ab");
}

#[test]
fn the_commands_of_the_bridge() {
    assert_eq!(Device::list_devices().arguments(), vec!["devices", "-l"]);
    assert_eq!(Backup::list_apps(None).arguments(), vec!["shell", "pm", "list", "packages"]);
    assert_eq!(
        Backup::list_apps(Some("d")).arguments(),
        vec!["-s", "d", "shell", "pm", "list", "packages"]
    );
    assert_eq!(FileTransfer::pull(None, "/sdcard/la/").arguments(), vec!["pull", "/sdcard/la/", "-a"]);
    assert_eq!(
        FileTransfer::push(Some("emulator-5554"), "Cargo.toml", "/sdcard/la/").arguments(),
        vec!["-s", "emulator-5554", "push", "Cargo.toml", "/sdcard/la/"]
    );
    assert_eq!(
        Restore::restore("emulator-5554").arguments(),
        vec!["-s", "emulator-5554", "restore", "emulator-5554.ab"]
    );
}

#[test]
fn the_report_of_the_devices() {
    assert_eq!(
        get_printable_device_list(&vec![]),
        "No device found. Make sure that you connect at least one device with enabled debug options."
    );
    assert_eq!(
        get_printable_device_list(&vec![device("a", "x y"), device("b", "")]),
        "Found the following devices:\r\n\r\nId: 'a', details: 'x y'\r\nId: 'b', details: ''"
    );
}

#[test]
fn the_report_of_the_applications() {
    assert_eq!(get_printable_app_list(&vec![]), "No packages found.");
    assert_eq!(
        get_printable_app_list(&vec!["org.one".to_string(), "org.two".to_string()]),
        "Found the following app(s) on device:\r\norg.one\norg.two\n"
    );
}

#[test]
fn one_device_needs_no_name() {
    let one = vec![device("a", "x")];
    let two = vec![device("a", "x"), device("b", "y")];
    assert_eq!(check_too_many_devices(None, &vec![]), Ok(()));
    assert_eq!(check_too_many_devices(None, &one), Ok(()));
    assert_eq!(check_too_many_devices(Some("b"), &two), Ok(()));
    let listed = get_printable_device_list(&two);
    assert_eq!(check_too_many_devices(None, &two), Err(Error::TooManyDevices { devices: listed.clone() }));
    assert_eq!(
        Error::TooManyDevices { devices: listed }.message(),
        "More than one device connected and no device provided.\n Please execute adbackup again, with `--device` and one of the following device ids:\n\nFound the following devices:\r\n\r\nId: 'a', details: 'x'\r\nId: 'b', details: 'y'"
    );
    assert_eq!(get_device_id(&one), Ok("a".to_string()));
    assert_eq!(get_device_id(&vec![]), Err(Error::NoDevice));
    assert!(matches!(get_device_id(&two), Err(Error::TooManyDevices { .. })));
    assert_eq!(
        Error::NoDevice.message(),
        "No device found. Make sure that you connect one device with enabled debug options."
    );
}

#[test]
fn the_work_of_a_backup_and_of_a_restore() {
    let job = backup("abc", Some(""), None, Some("yes"), Some("org.one"));
    assert_eq!(
        job.command.arguments(),
        vec!["-s", "abc", "backup", "-apk", "-noshared", "-system", "-apk", "org.one", "-f", "abc.ab"]
    );
    assert_eq!(job.store, "abc");
    assert_eq!(job.container, "abc.ab");
    assert_eq!(job.finished, "Backup finished.");
    let job = backup("abc", None, Some("s"), None, None);
    assert_eq!(
        job.command.arguments(),
        vec!["-s", "abc", "backup", "-noapk", "-shared", "-nosystem", "-noapk", "-all", "-f", "abc.ab"]
    );
    let job = restore("abc");
    assert_eq!(job.command.arguments(), vec!["-s", "abc", "restore", "abc.ab"]);
    assert_eq!(job.store, "abc");
    assert_eq!(job.container, "abc.ab");
    assert_eq!(job.finished, "Restore finished.");
}

#[test]
fn the_work_of_a_transfer() {
    let two = vec![device("a", "x"), device("b", "y")];
    let job = pull(Some("a"), "/sdcard", &two).unwrap();
    assert_eq!(job.command.arguments(), vec!["-s", "a", "pull", "/sdcard", "-a"]);
    assert_eq!(job.finished, "Pulling path finished.");
    assert!(matches!(pull(None, "/sdcard", &two), Err(Error::TooManyDevices { .. })));
    let job = push(None, "here", "/there", &vec![]).unwrap();
    assert_eq!(job.command.arguments(), vec!["push", "here", "/there"]);
    assert_eq!(job.finished, "Pushing from here to /there finished.");
    assert!(matches!(push(None, "here", "/there", &two), Err(Error::TooManyDevices { .. })));
}

#[test]
fn the_version_of_the_library() {
    assert_eq!(version(), "0.1.0");
}

#[test]
fn the_levels_of_the_log() {
    assert_eq!(setup_logging(0), LogSetup { level: LogLevel::Info, verbose_sources: Some(LogLevel::Warn) });
    assert_eq!(setup_logging(1), LogSetup { level: LogLevel::Debug, verbose_sources: Some(LogLevel::Info) });
    assert_eq!(setup_logging(2), LogSetup { level: LogLevel::Debug, verbose_sources: None });
    assert_eq!(setup_logging(3), LogSetup { level: LogLevel::Trace, verbose_sources: None });
    assert_eq!(setup_logging(u64::MAX), LogSetup { level: LogLevel::Trace, verbose_sources: None });
}

#[test]
fn where_a_source_is_logged() {
    assert!(logs_to_file("adbackup"));
    assert!(logs_to_file("adbackup::devices"));
    assert!(!logs_to_file("adbackup_cli"));
    assert!(!logs_to_file("adbackup:"));
    assert!(!logs_to_file(""));
    assert!(logs_to_console("adbackup_cli"));
    assert!(logs_to_console("adbackup_cli::main"));
    assert!(!logs_to_console("adbackup"));
    assert_eq!(file_line("[2018-01-01][10:00:00]", "adbackup", "INFO", "hello"), "[2018-01-01][10:00:00][adbackup][INFO] hello");
    assert_eq!(console_line("10:00", "hello"), "[10:00] hello");
}
