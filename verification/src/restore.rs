//! Restoring a device from its container.

use vstd::prelude::*;
use crate::adb_command::{AdbCommand, AdbCommandView};
use crate::backup::{container_file, container_name};

verus! {

/// Restoring a device from its container.
#[derive(Debug, PartialEq, Eq, Clone)]
pub struct Restore {}

impl Restore {
    /// The command that restores the device `device_id` from its container
    /// file.
    pub fn restore(device_id: &str) -> (r: AdbCommand)
        ensures
            r@ == (AdbCommandView {
                command: "restore"@,
                device_id: Some(device_id@),
                args: seq![container_name(device_id@)],
            }),
    {
        let name = container_file(device_id);
        let r = AdbCommand::command("restore").with_arg(name.as_str()).with_device_id(
            Some(device_id),
        );
        assert(r@.args =~= seq![container_name(device_id@)]);
        r
    }
}

} // verus!
