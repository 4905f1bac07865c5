use vstd::prelude::*;

use crate::pty::PtyError;
use crate::terminal_events::TerminalHealth;
use crate::text::{join_lines, str_chars, string_from_chars};

verus! {

#[derive(Debug, PartialEq, Eq)]
pub enum TerminalControlError {
    UnknownSurface(u64),
    Pty(PtyError),
}

impl From<PtyError> for TerminalControlError {
    fn from(error: PtyError) -> (r: Self) {
        TerminalControlError::Pty(error)
    }
}

impl vstd::std_specs::convert::FromSpecImpl<PtyError> for TerminalControlError {
    open spec fn obeys_from_spec() -> bool {
        true
    }

    open spec fn from_spec(error: PtyError) -> Self {
        TerminalControlError::Pty(error)
    }
}

/// A terminal surface and how its terminal is doing.
#[derive(Clone, Debug, PartialEq, Eq)]
pub struct TerminalDebugInfo {
    pub surface_id: u64,
    pub health: TerminalHealth,
}

/// Index of the first newline at or after `i`, or the length of `s`.
pub open spec fn next_newline(s: Seq<char>, i: int) -> int
    decreases s.len() - i,
{
    if i >= s.len() {
        s.len() as int
    } else if s[i] == '\n' {
        i
    } else {
        next_newline(s, i + 1)
    }
}

/// The lines of `s` from `start` on: split at each newline, a carriage return before the
/// newline dropped, and nothing after a final newline.
pub open spec fn lines_from(s: Seq<char>, start: int) -> Seq<Seq<char>>
    decreases s.len() + 1 - start,
{
    if start < 0 || start >= s.len() {
        Seq::empty()
    } else {
        let e = next_newline(s, start);
        let raw = s.subrange(start, e);
        let line = if e < s.len() && raw.len() > 0 && raw.last() == '\r' {
            raw.drop_last()
        } else {
            raw
        };
        if e < start || e > s.len() {
            Seq::empty()
        } else {
            seq![line] + lines_from(s, e + 1)
        }
    }
}

/// The lines of `s`, as `str::lines` makes them.
pub open spec fn text_lines(s: Seq<char>) -> Seq<Seq<char>> {
    lines_from(s, 0)
}

/// The first `limit` lines of `text` joined by newlines; all of `text` when there is no limit.
pub open spec fn limited_text(text: Seq<char>, limit: Option<usize>) -> Seq<char> {
    match limit {
        None => text,
        Some(n) => {
            let lines = text_lines(text);
            join_lines(lines.take(if n < lines.len() { n as int } else { lines.len() as int }))
        },
    }
}

proof fn lemma_next_newline(s: Seq<char>, i: int)
    requires
        0 <= i <= s.len(),
    ensures
        i <= next_newline(s, i) <= s.len(),
        forall|k: int| i <= k < next_newline(s, i) ==> s[k] != '\n',
        next_newline(s, i) < s.len() ==> s[next_newline(s, i)] == '\n',
    decreases s.len() - i,
{
    if i < s.len() && s[i] != '\n' {
        lemma_next_newline(s, i + 1);
    }
}

fn next_newline_exec(s: &Vec<char>, start: usize) -> (r: usize)
    requires
        start <= s.len(),
    ensures
        r == next_newline(s@, start as int),
        start <= r <= s.len(),
{
    let mut i = start;
    proof {
        lemma_next_newline(s@, start as int);
    }
    while i < s.len() && s[i] != '\n'
        invariant
            start <= i <= s.len(),
            next_newline(s@, start as int) == next_newline(s@, i as int),
        decreases s.len() - i,
    {
        i = i + 1;
    }
    i
}

fn push_range(out: &mut Vec<char>, s: &Vec<char>, a: usize, b: usize)
    requires
        a <= b <= s.len(),
    ensures
        final(out)@ == old(out)@ + s@.subrange(a as int, b as int),
{
    let mut k = a;
    while k < b
        invariant
            a <= k <= b <= s.len(),
            out@ == old(out)@ + s@.subrange(a as int, k as int),
        decreases b - k,
    {
        out.push(s[k]);
        assert(old(out)@ + s@.subrange(a as int, k + 1) =~= (old(out)@ + s@.subrange(a as int, k as int)).push(s@[k as int]));
        k = k + 1;
    }
}

/// What a screen read returns: the first `line_limit` lines of the screen text, or all of it.
pub fn limit_lines(text: &str, line_limit: Option<usize>) -> (r: String)
    ensures
        r@ == limited_text(text@, line_limit),
{
    let n = match line_limit {
        None => return String::from_str(text),
        Some(n) => n,
    };
    let s = str_chars(text);
    let ghost lines = text_lines(s@);
    let mut out: Vec<char> = Vec::new();
    let mut count: usize = 0;
    let mut start: usize = 0;
    while start < s.len() && count < n
        invariant
            start <= s.len(),
            count <= n,
            lines == text_lines(s@),
            lines_from(s@, 0) == lines.take(count as int) + lines_from(s@, start as int),
            count <= lines.len(),
            out@ == join_lines(lines.take(count as int)),
        decreases s.len() - start,
    {
        let e = next_newline_exec(&s, start);
        let lend = if e < s.len() && e > start && s[e - 1] == '\r' { e - 1 } else { e };
        let ghost line = s@.subrange(start as int, lend as int);
        proof {
            let raw = s@.subrange(start as int, e as int);
            if e < s.len() && raw.len() > 0 && raw.last() == '\r' {
                assert(raw.drop_last() =~= line);
            } else {
                assert(raw =~= line);
            }
            assert(lines_from(s@, start as int) == seq![line] + lines_from(s@, e + 1));
            assert(lines.take(count as int) + lines_from(s@, start as int) =~= lines.take(count as int).push(line) + lines_from(s@, e + 1));
            assert((lines.take(count as int).push(line) + lines_from(s@, e + 1))[count as int] == line);
            assert(lines[count as int] == line);
            assert(lines.take(count as int).push(line) =~= lines.take(count + 1));
            assert(lines.take(count as int).push(line).drop_last() =~= lines.take(count as int));
        }
        if count > 0 {
            out.push('\n');
        } else {
            assert(out@ =~= Seq::<char>::empty());
        }
        push_range(&mut out, &s, start, lend);
        proof {
            if count == 0 {
                assert(out@ =~= line);
            }
        }
        count = count + 1;
        proof {
            if e >= s.len() {
                assert(lines_from(s@, e + 1) =~= lines_from(s@, s.len() as int));
            }
        }
        start = if e < s.len() { e + 1 } else { s.len() };
    }
    proof {
        if start >= s.len() {
            assert(lines_from(s@, start as int) =~= Seq::<Seq<char>>::empty());
            assert(lines =~= lines.take(count as int));
        }
    }
    string_from_chars(&out)
}

} // verus!
