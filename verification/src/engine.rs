use vstd::prelude::*;

use crate::notify::{
    bel, esc, find_terminator, notifications_view, parse_from, parse_osc_chars, TerminalNotification,
};
use crate::text::{push_chars, str_chars, string_from_chars};

verus! {

/// A terminal surface without a live process: what it printed, and any OSC sequence it
/// has begun but not yet finished.
#[derive(Clone, Debug, PartialEq, Eq)]
pub struct TerminalSurface {
    cwd: String,
    scrollback: String,
    pending_output: String,
}

pub struct TerminalSurfaceView {
    pub cwd: Seq<char>,
    pub scrollback: Seq<char>,
    pub pending_output: Seq<char>,
}

impl View for TerminalSurface {
    type V = TerminalSurfaceView;

    closed spec fn view(&self) -> TerminalSurfaceView {
        TerminalSurfaceView {
            cwd: self.cwd@,
            scrollback: self.scrollback@,
            pending_output: self.pending_output@,
        }
    }
}

/// Start of the last OSC introducer (ESC `]`) that ends at or before `end`, or -1.
pub open spec fn last_osc_start(s: Seq<char>, end: int) -> int
    decreases end,
{
    if end < 2 || end > s.len() {
        -1
    } else if s[end - 2] == esc() && s[end - 1] == ']' {
        end - 2
    } else {
        last_osc_start(s, end - 1)
    }
}

/// The tail of `s` from its last OSC introducer on, when no terminator follows it.
pub open spec fn trailing_incomplete_osc(s: Seq<char>) -> Option<Seq<char>> {
    let st = last_osc_start(s, s.len() as int);
    if st < 0 {
        None
    } else {
        let tail = s.subrange(st, s.len() as int);
        if find_terminator(tail, 0) is Some {
            None
        } else {
            Some(tail)
        }
    }
}

proof fn lemma_last_osc_start_bounds(s: Seq<char>, end: int)
    ensures
        last_osc_start(s, end) == -1 || (0 <= last_osc_start(s, end) && last_osc_start(s, end) + 2 <= end),
    decreases end,
{
    if 2 <= end <= s.len() && !(s[end - 2] == esc() && s[end - 1] == ']') {
        lemma_last_osc_start_bounds(s, end - 1);
    }
}

fn last_osc_start_exec(s: &Vec<char>) -> (r: Option<usize>)
    ensures
        match r {
            Some(i) => i as int == last_osc_start(s@, s.len() as int) && i + 2 <= s.len(),
            None => last_osc_start(s@, s.len() as int) == -1,
        },
{
    let mut end = s.len();
    while end >= 2
        invariant
            end <= s.len(),
            last_osc_start(s@, s.len() as int) == last_osc_start(s@, end as int),
        decreases end,
    {
        if s[end - 2] == '\u{1b}' && s[end - 1] == ']' {
            return Some(end - 2);
        }
        end = end - 1;
    }
    None
}

fn has_terminator(t: &Vec<char>) -> (r: bool)
    ensures
        r == (find_terminator(t@, 0) is Some),
{
    let mut i: usize = 0;
    while i < t.len()
        invariant
            find_terminator(t@, 0) == find_terminator(t@, i as int),
        decreases t.len() - i,
    {
        if t[i] == '\u{7}' {
            return true;
        }
        if t.len() - i >= 2 && t[i] == '\u{1b}' && t[i + 1] == '\\' {
            return true;
        }
        i = i + 1;
    }
    false
}

/// The unfinished OSC sequence at the end of `s`, if any.
pub fn trailing_incomplete_osc_chars(s: &Vec<char>) -> (r: Option<Vec<char>>)
    ensures
        match trailing_incomplete_osc(s@) {
            Some(t) => r matches Some(v) && v@ == t,
            None => r is None,
        },
{
    let st = match last_osc_start_exec(s) {
        Some(st) => st,
        None => return None,
    };
    let mut tail: Vec<char> = Vec::new();
    let mut i = st;
    while i < s.len()
        invariant
            st <= i <= s.len(),
            tail@ == s@.subrange(st as int, i as int),
        decreases s.len() - i,
    {
        tail.push(s[i]);
        assert(s@.subrange(st as int, i + 1) =~= s@.subrange(st as int, i as int).push(s@[i as int]));
        i = i + 1;
    }
    if has_terminator(&tail) {
        None
    } else {
        Some(tail)
    }
}

impl TerminalSurface {
    pub fn new(cwd: &str) -> (r: Self)
        ensures
            r@.cwd == cwd@,
            r@.scrollback == Seq::<char>::empty(),
            r@.pending_output == Seq::<char>::empty(),
    {
        TerminalSurface { cwd: String::from_str(cwd), scrollback: String::new(), pending_output: String::new() }
    }

    pub fn cwd(&self) -> (r: &str)
        ensures
            r@ == self@.cwd,
    {
        self.cwd.as_str()
    }

    pub fn scrollback(&self) -> (r: &str)
        ensures
            r@ == self@.scrollback,
    {
        self.scrollback.as_str()
    }

    /// Appends `output` to the scrollback and returns the notifications that complete OSC
    /// sequences ask for, a sequence split across calls included.
    pub fn feed_output(&mut self, output: &str) -> (r: Vec<TerminalNotification>)
        ensures
            final(self)@.cwd == old(self)@.cwd,
            final(self)@.scrollback == old(self)@.scrollback + output@,
            final(self)@.pending_output == match trailing_incomplete_osc(old(self)@.pending_output + output@) {
                Some(t) => t,
                None => Seq::<char>::empty(),
            },
            notifications_view(r@) == parse_from(old(self)@.pending_output + output@, 0),
    {
        let out_chars = str_chars(output);
        push_chars(&mut self.scrollback, &out_chars);
        let mut buffered = str_chars(self.pending_output.as_str());
        let mut i: usize = 0;
        let ghost start = buffered@;
        while i < out_chars.len()
            invariant
                i <= out_chars.len(),
                buffered@ == start + out_chars@.take(i as int),
            decreases out_chars.len() - i,
        {
            buffered.push(out_chars[i]);
            assert(start + out_chars@.take(i + 1) =~= (start + out_chars@.take(i as int)).push(out_chars@[i as int]));
            i = i + 1;
        }
        assert(out_chars@.take(out_chars.len() as int) =~= out_chars@);
        self.pending_output = match trailing_incomplete_osc_chars(&buffered) {
            Some(t) => string_from_chars(&t),
            None => String::new(),
        };
        parse_osc_chars(&buffered)
    }
}

} // verus!
