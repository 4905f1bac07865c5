use vstd::prelude::*;

use crate::shell::ResolvedShell;
use crate::startup_env::pairs_view;
use crate::text::{ascii_lower_seq, ascii_lowercase_chars, chars_equal_str};

verus! {

#[derive(Debug, PartialEq, Eq)]
pub enum PtyError {
    Io(String),
    Unsupported,
}

/// What a pseudo-terminal is started with; `env` holds name and value pairs.
#[derive(Clone, Debug, PartialEq, Eq)]
pub struct PtySpawnConfig {
    pub shell: ResolvedShell,
    pub cwd: String,
    pub env: Vec<(String, String)>,
    pub cols: u16,
    pub rows: u16,
}

/// The pseudo-terminal a session talks to.
pub trait PtyBackend {
    fn read_output(&mut self) -> Result<Vec<u8>, PtyError>;

    fn write_input(&mut self, input: &[u8]) -> Result<(), PtyError>;

    fn resize(&mut self, cols: u16, rows: u16) -> Result<(), PtyError>;

    fn child_exited(&mut self) -> Result<Option<i32>, PtyError>;
}

/// The largest width or height a pseudo-terminal accepts (`i16::MAX`).
pub const MAX_PTY_DIMENSION: u16 = 32767;

pub open spec fn clamp_dim(x: u16) -> u16 {
    if x < 1 {
        1
    } else if x > MAX_PTY_DIMENSION {
        MAX_PTY_DIMENSION
    } else {
        x
    }
}

/// Each dimension brought into `1..=MAX_PTY_DIMENSION`.
pub fn clamp_pty_size(cols: u16, rows: u16) -> (r: (u16, u16))
    ensures
        r == (clamp_dim(cols), clamp_dim(rows)),
{
    let c = if cols < 1 {
        1
    } else if cols > MAX_PTY_DIMENSION {
        MAX_PTY_DIMENSION
    } else {
        cols
    };
    let r = if rows < 1 {
        1
    } else if rows > MAX_PTY_DIMENSION {
        MAX_PTY_DIMENSION
    } else {
        rows
    };
    (c, r)
}

/// A pseudo-terminal that hands out queued output and records what it is sent.
#[derive(Clone, Debug, PartialEq, Eq)]
pub struct FakePtyBackend {
    queued_output: std::collections::VecDeque<Vec<u8>>,
    written_input: Vec<u8>,
    cols: u16,
    rows: u16,
}

pub struct FakePtyView {
    pub queued_output: Seq<Seq<u8>>,
    pub written_input: Seq<u8>,
    pub cols: u16,
    pub rows: u16,
}

impl View for FakePtyBackend {
    type V = FakePtyView;

    closed spec fn view(&self) -> FakePtyView {
        FakePtyView {
            queued_output: self.queued_output@.map_values(|b: Vec<u8>| b@),
            written_input: self.written_input@,
            cols: self.cols,
            rows: self.rows,
        }
    }
}

impl FakePtyBackend {
    /// A backend of 80 by 24 that will hand out `output` once.
    pub fn new(output: &[u8]) -> (r: Self)
        ensures
            r@.queued_output == seq![output@],
            r@.written_input.len() == 0,
            r@.cols == 80,
            r@.rows == 24,
    {
        let mut queued_output = std::collections::VecDeque::new();
        let mut bytes: Vec<u8> = Vec::new();
        bytes.extend_from_slice(output);
        assert(bytes@ =~= output@);
        queued_output.push_back(bytes);
        let r = FakePtyBackend { queued_output, written_input: Vec::new(), cols: 80, rows: 24 };
        assert(r@.queued_output =~= seq![output@]);
        r
    }

    pub fn written_input(&self) -> (r: &[u8])
        ensures
            r@ == self@.written_input,
    {
        self.written_input.as_slice()
    }

    pub fn size(&self) -> (r: (u16, u16))
        ensures
            r == (self@.cols, self@.rows),
    {
        (self.cols, self.rows)
    }
}

impl PtyBackend for FakePtyBackend {
    /// The next queued output, or nothing once the queue is empty.
    fn read_output(&mut self) -> (r: Result<Vec<u8>, PtyError>)
        ensures
            old(self)@.queued_output.len() == 0 ==> (r matches Ok(v) && v@.len() == 0 && final(self)@ == old(self)@),
            old(self)@.queued_output.len() > 0 ==> (r matches Ok(v) && v@ == old(self)@.queued_output[0]
                && final(self)@ == (FakePtyView { queued_output: old(self)@.queued_output.drop_first(), ..old(self)@ })),
    {
        match self.queued_output.pop_front() {
            Some(v) => {
                assert(self@.queued_output =~= old(self)@.queued_output.drop_first());
                Ok(v)
            },
            None => Ok(Vec::new()),
        }
    }

    fn write_input(&mut self, input: &[u8]) -> (r: Result<(), PtyError>)
        ensures
            r == Ok::<(), PtyError>(()),
            final(self)@ == (FakePtyView { written_input: old(self)@.written_input + input@, ..old(self)@ }),
    {
        self.written_input.extend_from_slice(input);
        assert(self.written_input@ =~= old(self).written_input@ + input@);
        Ok(())
    }

    fn resize(&mut self, cols: u16, rows: u16) -> (r: Result<(), PtyError>)
        ensures
            r == Ok::<(), PtyError>(()),
            final(self)@ == (FakePtyView { cols: clamp_dim(cols), rows: clamp_dim(rows), ..old(self)@ }),
    {
        let (c, r) = clamp_pty_size(cols, rows);
        self.cols = c;
        self.rows = r;
        Ok(())
    }

    fn child_exited(&mut self) -> (r: Result<Option<i32>, PtyError>)
        ensures
            r == Ok::<Option<i32>, PtyError>(None),
            final(self)@ == old(self)@,
    {
        Ok(None)
    }
}

/// A variable a terminal must not inherit: the IPC socket names, in any ASCII case.
pub open spec fn is_reserved_ipc_key(k: Seq<char>) -> bool {
    ascii_lower_seq(k) == "umux_socket"@ || ascii_lower_seq(k) == "cmux_socket_path"@
}

/// The pairs whose name is no reserved IPC key, in order.
pub open spec fn keep_unreserved(s: Seq<(Seq<char>, Seq<char>)>) -> Seq<(Seq<char>, Seq<char>)>
    decreases s.len(),
{
    if s.len() == 0 {
        Seq::empty()
    } else if is_reserved_ipc_key(s.last().0) {
        keep_unreserved(s.drop_last())
    } else {
        keep_unreserved(s.drop_last()).push(s.last())
    }
}

/// No name occurs twice among the pairs.
pub open spec fn keys_distinct(s: Seq<(Seq<char>, Seq<char>)>) -> bool {
    forall|i: int, j: int| 0 <= i < j < s.len() ==> (#[trigger] s[i]).0 != (#[trigger] s[j]).0
}

/// Dropping the reserved pairs keeps only pairs of `s`, and names that were distinct stay distinct.
pub proof fn lemma_keep_unreserved_keys(s: Seq<(Seq<char>, Seq<char>)>)
    ensures
        forall|i: int|
            #![trigger keep_unreserved(s)[i]]
            0 <= i < keep_unreserved(s).len() ==> exists|j: int| #![trigger s[j]] 0 <= j < s.len() && s[j] == keep_unreserved(s)[i],
        keys_distinct(s) ==> keys_distinct(keep_unreserved(s)),
    decreases s.len(),
{
    if s.len() > 0 {
        let t = s.drop_last();
        lemma_keep_unreserved_keys(t);
        let kt = keep_unreserved(t);
        assert forall|i: int|
            #![trigger keep_unreserved(s)[i]]
            0 <= i < keep_unreserved(s).len() implies exists|j: int| #![trigger s[j]] 0 <= j < s.len() && s[j] == keep_unreserved(s)[i] by {
            if i < kt.len() {
                let j = choose|j: int| #![trigger t[j]] 0 <= j < t.len() && t[j] == kt[i];
                assert(s[j] == t[j]);
                if !is_reserved_ipc_key(s.last().0) {
                    assert(keep_unreserved(s)[i] == kt[i]);
                }
            } else {
                assert(s[s.len() - 1] == keep_unreserved(s)[i]);
            }
        }
        if keys_distinct(s) {
            assert(keys_distinct(t)) by {
                assert forall|i: int, j: int| 0 <= i < j < t.len() implies (#[trigger] t[i]).0 != (#[trigger] t[j]).0 by {
                    assert(s[i] == t[i] && s[j] == t[j]);
                }
            }
            if !is_reserved_ipc_key(s.last().0) {
                let ks = keep_unreserved(s);
                assert forall|i: int, j: int| 0 <= i < j < ks.len() implies (#[trigger] ks[i]).0 != (#[trigger] ks[j]).0 by {
                    if j < kt.len() {
                        assert(ks[i] == kt[i] && ks[j] == kt[j]);
                    } else {
                        assert(ks[i] == kt[i]);
                        assert(ks[j] == s.last());
                        assert(kt[i] == kt[i]);
                        let a = choose|a: int| #![trigger t[a]] 0 <= a < t.len() && t[a] == kt[i];
                        assert(s[a] == t[a]);
                        assert(s[s.len() - 1] == s.last());
                    }
                }
            }
        }
    }
}

fn is_reserved_key(key: &str) -> (r: bool)
    ensures
        r == is_reserved_ipc_key(key@),
{
    let l = ascii_lowercase_chars(key);
    chars_equal_str(&l, "umux_socket") || chars_equal_str(&l, "cmux_socket_path")
}

/// The environment of a terminal's child without the IPC socket variables.
pub fn sanitize_terminal_child_env(env: Vec<(String, String)>) -> (r: Vec<(String, String)>)
    ensures
        pairs_view(r@) == keep_unreserved(pairs_view(env@)),
        keys_distinct(pairs_view(env@)) ==> keys_distinct(pairs_view(r@)),
{
    let ghost ev = pairs_view(env@);
    let mut out: Vec<(String, String)> = Vec::new();
    let mut i: usize = 0;
    while i < env.len()
        invariant
            i <= env.len(),
            ev == pairs_view(env@),
            pairs_view(out@) == keep_unreserved(ev.take(i as int)),
        decreases env.len() - i,
    {
        proof {
            assert(ev.take(i + 1).drop_last() =~= ev.take(i as int));
            assert(ev.take(i + 1).last() == ev[i as int]);
        }
        let (k, v) = &env[i];
        if !is_reserved_key(k.as_str()) {
            let ghost before = pairs_view(out@);
            out.push((k.clone(), v.clone()));
            assert(pairs_view(out@) =~= before.push(ev[i as int]));
        }
        i = i + 1;
    }
    assert(ev.take(ev.len() as int) =~= ev);
    proof {
        lemma_keep_unreserved_keys(ev);
    }
    out
}

/// How a terminal session starts: its shell and directory, a size within bounds, and
/// how many lines of scrollback it keeps.
#[derive(Clone, Debug, PartialEq, Eq)]
pub struct TerminalSessionConfig {
    pub shell: ResolvedShell,
    pub cwd: String,
    pub cols: u16,
    pub rows: u16,
    pub scrollback_limit: usize,
}

impl TerminalSessionConfig {
    pub fn new(shell: ResolvedShell, cwd: &str, cols: u16, rows: u16) -> (r: Self)
        ensures
            r.shell == shell,
            r.cwd@ == cwd@,
            r.cols == clamp_dim(cols),
            r.rows == clamp_dim(rows),
            r.scrollback_limit == 10_000,
    {
        let (c, r) = clamp_pty_size(cols, rows);
        TerminalSessionConfig { shell, cwd: String::from_str(cwd), cols: c, rows: r, scrollback_limit: 10_000 }
    }
}

} // verus!
