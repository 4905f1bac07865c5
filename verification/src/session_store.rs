use vstd::prelude::*;

use crate::snapshot::SessionError;
use crate::startup_env::{decimal, push_decimal};
use crate::text::{push_chars, str_chars};

verus! {

/// `std::io::Error`, why the session file could not be read or written; carried as an opaque
/// value.
#[verifier::external_type_specification]
#[verifier::external_body]
pub struct ExIoError(std::io::Error);

/// Why the session file could not be saved or loaded.
#[derive(Debug)]
pub enum SessionStoreError {
    Io(std::io::Error),
    Session(SessionError),
}

impl From<std::io::Error> for SessionStoreError {
    fn from(error: std::io::Error) -> (r: Self) {
        SessionStoreError::Io(error)
    }
}

impl vstd::std_specs::convert::FromSpecImpl<std::io::Error> for SessionStoreError {
    open spec fn obeys_from_spec() -> bool {
        true
    }

    open spec fn from_spec(error: std::io::Error) -> Self {
        SessionStoreError::Io(error)
    }
}

impl From<SessionError> for SessionStoreError {
    fn from(error: SessionError) -> (r: Self) {
        SessionStoreError::Session(error)
    }
}

impl vstd::std_specs::convert::FromSpecImpl<SessionError> for SessionStoreError {
    open spec fn obeys_from_spec() -> bool {
        true
    }

    open spec fn from_spec(error: SessionError) -> Self {
        SessionStoreError::Session(error)
    }
}

/// The name of the session file, `session.json` when its path has none.
pub open spec fn session_file_name(file_name: Option<Seq<char>>) -> Seq<char> {
    match file_name {
        Some(f) => f,
        None => "session.json"@,
    }
}

pub open spec fn opt_str_view(o: Option<&str>) -> Option<Seq<char>> {
    match o {
        Some(s) => Some(s@),
        None => None,
    }
}

fn file_name_or_default(file_name: Option<&str>) -> (r: String)
    ensures
        r@ == session_file_name(opt_str_view(file_name)),
{
    match file_name {
        Some(f) => String::from_str(f),
        None => String::from_str("session.json"),
    }
}

/// Where a session file that could not be read is moved: `<name>.corrupt.<secs>`.
pub fn corrupt_file_name(file_name: Option<&str>, secs: u64) -> (r: String)
    ensures
        r@ == session_file_name(opt_str_view(file_name)) + ".corrupt."@ + decimal(secs as nat),
{
    let mut s = file_name_or_default(file_name);
    push_chars(&mut s, &str_chars(".corrupt."));
    push_decimal(&mut s, secs as u128);
    s
}

/// The name tried at the `attempt`th try: the name itself first, then `<name>.<attempt>`.
pub fn corrupt_candidate_name(corrupt_name: &str, attempt: u64) -> (r: String)
    ensures
        r@ == (if attempt == 0 { corrupt_name@ } else { corrupt_name@ + "."@ + decimal(attempt as nat) }),
{
    let mut s = String::from_str(corrupt_name);
    if attempt != 0 {
        push_chars(&mut s, &str_chars("."));
        push_decimal(&mut s, attempt as u128);
    }
    s
}

/// The file a save is written to before it replaces the session file:
/// `<name>.tmp.<process id>.<nanoseconds>`.
pub fn temp_save_file_name(file_name: Option<&str>, process_id: u32, nanos: u128) -> (r: String)
    ensures
        r@ == session_file_name(opt_str_view(file_name)) + ".tmp."@ + decimal(process_id as nat) + "."@ + decimal(
            nanos as nat,
        ),
{
    let mut s = file_name_or_default(file_name);
    push_chars(&mut s, &str_chars(".tmp."));
    push_decimal(&mut s, process_id as u128);
    push_chars(&mut s, &str_chars("."));
    push_decimal(&mut s, nanos);
    s
}

} // verus!
