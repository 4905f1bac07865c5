use vstd::prelude::*;

use crate::ipc::{Method, RequestFrame};

verus! {

/// What the command line asks for.
#[derive(Debug)]
pub struct Cli {
    pub dry_run_json: bool,
    pub command: Command,
}

#[derive(Debug)]
pub enum Command {
    Ping,
    NewWorkspace { cwd: String },
    Split { axis: String },
    Notify { message: String },
    Browser { command: BrowserCommand },
}

#[derive(Debug)]
pub enum BrowserCommand {
    Open { url: String },
}

#[derive(Clone, Copy, Debug, PartialEq, Eq, Structural)]
pub enum CliError {
    RequiresServer,
}

impl CliError {
    pub fn message(&self) -> (r: &'static str)
        ensures
            r@ == "IPC transport is required for this command"@,
    {
        "IPC transport is required for this command"
    }
}

/// A JSON object whose members are the given names, each set to its string value.
pub uninterp spec fn string_object(members: Seq<(Seq<char>, Seq<char>)>) -> serde_json::Value;

pub open spec fn members_view(members: Seq<(String, String)>) -> Seq<(Seq<char>, Seq<char>)> {
    members.map_values(|m: (String, String)| (m.0@, m.1@))
}

/// `serde_json::Value::Object` collected from name and string-value pairs.
#[verifier::external_body]
fn json_string_object(members: Vec<(String, String)>) -> (r: serde_json::Value)
    ensures
        r == string_object(members_view(members@)),
{
    serde_json::Value::Object(members.into_iter().map(|(k, v)| (k, serde_json::Value::String(v))).collect())
}

/// The method a command asks for.
pub open spec fn command_method(c: Command) -> Method {
    match c {
        Command::Ping => Method::SystemPing,
        Command::NewWorkspace { .. } => Method::WorkspaceCreate,
        Command::Split { .. } => Method::PaneSplit,
        Command::Notify { .. } => Method::NotificationCreate,
        Command::Browser { .. } => Method::BrowserOpen,
    }
}

/// The parameters of a command: its member names and values (none for a ping).
pub open spec fn command_members(c: Command) -> Seq<(Seq<char>, Seq<char>)> {
    match c {
        Command::Ping => Seq::empty(),
        Command::NewWorkspace { cwd } => seq![("cwd"@, cwd@)],
        Command::Split { axis } => seq![("axis"@, axis@)],
        Command::Notify { message } => seq![("message"@, message@)],
        Command::Browser { command: BrowserCommand::Open { url } } => seq![("url"@, url@)],
    }
}

fn one_member(key: &str, value: String) -> (r: Vec<(String, String)>)
    ensures
        members_view(r@) == seq![(key@, value@)],
{
    let r = vec![(String::from_str(key), value)];
    assert(members_view(r@) =~= seq![(key@, value@)]);
    r
}

impl Cli {
    /// The request the command stands for, with id `id`.
    pub fn into_request(self, id: u64) -> (r: Result<RequestFrame, CliError>)
        ensures
            r matches Ok(f) && f.id == id && f.method == command_method(self.command) && f.params == string_object(
                command_members(self.command),
            ),
    {
        let (method, members) = match self.command {
            Command::Ping => {
                let v: Vec<(String, String)> = Vec::new();
                assert(members_view(v@) =~= Seq::<(Seq<char>, Seq<char>)>::empty());
                (Method::SystemPing, v)
            },
            Command::NewWorkspace { cwd } => (Method::WorkspaceCreate, one_member("cwd", cwd)),
            Command::Split { axis } => (Method::PaneSplit, one_member("axis", axis)),
            Command::Notify { message } => (Method::NotificationCreate, one_member("message", message)),
            Command::Browser { command: BrowserCommand::Open { url } } => (Method::BrowserOpen, one_member("url", url)),
        };
        Ok(RequestFrame::new(id, method, json_string_object(members)))
    }
}

} // verus!
