//! The devices that the device bridge reports as connected.

use vstd::prelude::*;
use crate::adb_command::AdbCommand;
use crate::text::{chars_of, contains, lines, lines_of, occurs, rows, split, split_at_each, string_of, trim, trimmed};

verus! {

/// A connected device: its identifier and what the bridge says about it.
#[derive(Debug, PartialEq, Eq, Clone)]
pub struct Device {
    pub id: String,
    pub details: String,
}

/// What a `Device` holds, as text.
pub struct DeviceView {
    pub id: Seq<char>,
    pub details: Seq<char>,
}

impl View for Device {
    type V = DeviceView;

    open spec fn view(&self) -> DeviceView {
        DeviceView { id: self.id@, details: self.details@ }
    }
}

/// The views of the devices in `devices`.
pub open spec fn device_views(devices: Seq<Device>) -> Seq<DeviceView> {
    Seq::new(devices.len(), |i: int| devices[i]@)
}

/// The device that one line of the listing describes. The heading describes
/// none, nor does a line without the word `device` and a space after it. The
/// identifier stands before that word and the details after it, up to its next
/// occurrence; both are trimmed.
pub open spec fn device_of(line: Seq<char>) -> Option<DeviceView> {
    let pieces = split(line, "device "@);
    if !contains(line, "List of devices attached"@) && pieces.len() >= 2 {
        Some(DeviceView { id: trim(pieces[0]), details: trim(pieces[1]) })
    } else {
        None
    }
}

/// The devices that a listing describes, line by line.
pub open spec fn listed_devices(listing: Seq<char>) -> Seq<DeviceView> {
    lines(listing).filter_map(|line: Seq<char>| device_of(line))
}

impl Device {
    /// The command that asks the bridge for the connected devices, with
    /// details.
    pub fn list_devices() -> (r: AdbCommand)
        ensures
            r@.command == "devices"@,
            r@.device_id is None,
            r@.args == seq!["-l"@],
    {
        let r = AdbCommand::command("devices").with_arg("-l");
        assert(r@.args =~= seq!["-l"@]);
        r
    }

    /// Reads the devices out of the answer to `list_devices`.
    pub fn parse_devices(unparsed_devices: String) -> (r: Vec<Device>)
        ensures
            device_views(r@) == listed_devices(unparsed_devices@),
    {
        let text = chars_of(unparsed_devices.as_str());
        let all = lines_of(&text);
        let heading = chars_of("List of devices attached");
        let word = chars_of("device ");
        let ghost pick = |line: Seq<char>| device_of(line);
        let mut devices: Vec<Device> = Vec::new();
        let mut i: usize = 0;
        while i < all.len()
            invariant
                i <= all.len(),
                heading@ == "List of devices attached"@,
                word@ == "device "@,
                pick == (|line: Seq<char>| device_of(line)),
                device_views(devices@) == rows(&all).take(i as int).filter_map(pick),
            decreases all.len() - i,
        {
            let line = &all[i];
            let ghost before = device_views(devices@);
            proof {
                rows(&all).lemma_filter_map_take_succ(pick, i as int);
            }
            let mut taken = false;
            if !occurs(line, &heading) {
                let pieces = split_at_each(line, &word);
                if pieces.len() >= 2 {
                    let id = trimmed(&pieces[0]);
                    let details = trimmed(&pieces[1]);
                    let device = Device {
                        id: string_of(&id),
                        details: string_of(&details),
                    };
                    assert(rows(&pieces)[0] == pieces@[0]@);
                    assert(rows(&pieces)[1] == pieces@[1]@);
                    assert(Some(device@) == device_of(line@));
                    devices.push(device);
                    assert(device_views(devices@) =~= before + seq![device@]);
                    taken = true;
                }
            }
            if !taken {
                assert(before + Seq::<DeviceView>::empty() =~= before);
            }
            i += 1;
        }
        assert(rows(&all).take(i as int) =~= rows(&all));
        devices
    }
}

} // verus!
