//! Transfer of files between the device and this machine.

use vstd::prelude::*;
use crate::adb_command::{AdbCommand, AdbCommandView};

verus! {

/// Transfer of files between the device and this machine.
#[derive(Debug, PartialEq, Eq, Clone)]
pub struct FileTransfer {}

/// The text of a device identifier, if one is given.
pub open spec fn device_text(device_id: Option<&str>) -> Option<Seq<char>> {
    match device_id {
        Some(id) => Some(id@),
        None => None,
    }
}

impl FileTransfer {
    /// The command that copies `path` from the device, with its time stamp
    /// and mode.
    pub fn pull(device_id: Option<&str>, path: &str) -> (r: AdbCommand)
        ensures
            r@ == (AdbCommandView {
                command: "pull"@,
                device_id: device_text(device_id),
                args: seq![path@, "-a"@],
            }),
    {
        let mut args: Vec<&str> = Vec::new();
        args.push(path);
        args.push("-a");
        let r = AdbCommand::command("pull").with_args(args).with_device_id(device_id);
        assert(r@.args =~= seq![path@, "-a"@]);
        r
    }

    /// The command that copies `src_path` of this machine to `dst_path` on
    /// the device.
    pub fn push(device_id: Option<&str>, src_path: &str, dst_path: &str) -> (r: AdbCommand)
        ensures
            r@ == (AdbCommandView {
                command: "push"@,
                device_id: device_text(device_id),
                args: seq![src_path@, dst_path@],
            }),
    {
        let mut args: Vec<&str> = Vec::new();
        args.push(src_path);
        args.push(dst_path);
        let r = AdbCommand::command("push").with_args(args).with_device_id(device_id);
        assert(r@.args =~= seq![src_path@, dst_path@]);
        r
    }
}

} // verus!
