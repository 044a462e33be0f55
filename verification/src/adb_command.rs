//! Commands for the device bridge.

use vstd::prelude::*;
use crate::error::Error;

verus! {

/// A command for the device bridge: its name, the device it is meant for, if
/// one is named, and its arguments.
#[derive(Debug, PartialEq, Eq, Clone)]
pub struct AdbCommand {
    command: String,
    device_id: Option<String>,
    args: Vec<String>,
}

/// What an `AdbCommand` holds, as text.
pub struct AdbCommandView {
    pub command: Seq<char>,
    pub device_id: Option<Seq<char>>,
    pub args: Seq<Seq<char>>,
}

impl AdbCommandView {
    /// The argument list that the bridge program is started with: `-s` and
    /// the device, where one is named, then the command, then its arguments.
    pub open spec fn arguments(self) -> Seq<Seq<char>> {
        let target = match self.device_id {
            Some(id) => seq!["-s"@, id],
            None => Seq::empty(),
        };
        target + seq![self.command] + self.args
    }
}

/// The texts of `items`, in order.
pub open spec fn texts(items: Seq<&str>) -> Seq<Seq<char>> {
    Seq::new(items.len(), |i: int| items[i]@)
}

impl View for AdbCommand {
    type V = AdbCommandView;

    closed spec fn view(&self) -> AdbCommandView {
        AdbCommandView {
            command: self.command@,
            device_id: match self.device_id {
                Some(id) => Some(id@),
                None => None,
            },
            args: Seq::new(self.args@.len(), |i: int| self.args@[i]@),
        }
    }
}

impl AdbCommand {
    /// The command `command`, for no particular device and without arguments.
    pub fn command(command: &str) -> (r: Self)
        ensures
            r@ == (AdbCommandView { command: command@, device_id: None, args: Seq::empty() }),
    {
        let r = AdbCommand { command: command.to_owned(), device_id: None, args: Vec::new() };
        assert(r@.args =~= Seq::empty());
        r
    }

    /// Replaces the arguments by `args`.
    pub fn with_args(self, args: Vec<&str>) -> (r: Self)
        ensures
            r@ == (AdbCommandView { args: texts(args@), ..self@ }),
    {
        let mut owned: Vec<String> = Vec::new();
        let mut i: usize = 0;
        while i < args.len()
            invariant
                i <= args.len(),
                owned@.len() == i,
                forall|j: int| 0 <= j < i ==> owned@[j]@ == args@[j]@,
            decreases args.len() - i,
        {
            owned.push(args[i].to_owned());
            i += 1;
        }
        let r = AdbCommand { command: self.command, device_id: self.device_id, args: owned };
        assert(r@.args =~= texts(args@));
        r
    }

    /// Adds `arg` after the arguments.
    pub fn with_arg(self, arg: &str) -> (r: Self)
        ensures
            r@ == (AdbCommandView { args: self@.args.push(arg@), ..self@ }),
    {
        let ghost before = self@;
        let mut args = self.args;
        args.push(arg.to_owned());
        let r = AdbCommand { command: self.command, device_id: self.device_id, args };
        assert(r@.args =~= before.args.push(arg@));
        r
    }

    /// Names the device that the command is meant for, or none.
    pub fn with_device_id(self, device_id: Option<&str>) -> (r: Self)
        ensures
            r@ == (AdbCommandView {
                device_id: match device_id {
                    Some(id) => Some(id@),
                    None => None,
                },
                ..self@
            }),
    {
        let device_id = match device_id {
            Some(id) => Some(id.to_owned()),
            None => None,
        };
        AdbCommand { command: self.command, device_id, args: self.args }
    }

    /// The argument list to start the bridge program with.
    pub fn arguments(&self) -> (r: Vec<String>)
        ensures
            r.deep_view() == self@.arguments(),
    {
        let mut out: Vec<String> = Vec::new();
        match &self.device_id {
            Some(id) => {
                out.push("-s".to_owned());
                out.push(id.clone());
            },
            None => {},
        }
        out.push(self.command.clone());
        let ghost head = out.deep_view();
        let mut i: usize = 0;
        while i < self.args.len()
            invariant
                i <= self.args.len(),
                out.deep_view() == head + self@.args.take(i as int),
            decreases self.args.len() - i,
        {
            let ghost before = out.deep_view();
            out.push(self.args[i].clone());
            assert(out.deep_view() =~= before.push(self.args@[i as int]@));
            i += 1;
            assert(self@.args.take(i as int) =~= self@.args.take(i as int - 1).push(
                self.args@[i as int - 1]@,
            ));
        }
        assert(self@.args.take(i as int) =~= self@.args);
        assert(head =~= self@.arguments().take(head.len() as int));
        assert(out.deep_view() =~= self@.arguments());
        out
    }

    /// What a run of the command comes to: what the bridge printed where it
    /// succeeded, and else the failure of the command with the diagnostic
    /// that the bridge wrote.
    pub fn outcome(&self, success: bool, output: String, diagnostic: String) -> (r: Result<
        String,
        Error,
    >)
        ensures
            success ==> r == Ok::<String, Error>(output),
            !success ==> (r matches Err(Error::Command { command, message }) && command@
                == self@.command && message == diagnostic),
    {
        if success {
            Ok(output)
        } else {
            Err(Error::Command { command: self.command.clone(), message: diagnostic })
        }
    }
}

} // verus!
