use vstd::prelude::*;

use crate::pty::{clamp_dim, clamp_pty_size, PtyError};
use crate::terminal_events::TerminalHealth;
use crate::text::{push_chars, str_chars};

verus! {

pub open spec fn pty_error_message(e: PtyError) -> Seq<char> {
    match e {
        PtyError::Io(m) => "pty I/O error: "@ + m@,
        PtyError::Unsupported => "pty backend is unsupported on this platform"@,
    }
}

impl PtyError {
    /// The error as it reads to a user.
    pub fn message(&self) -> (r: String)
        ensures
            r@ == pty_error_message(*self),
    {
        match self {
            PtyError::Io(m) => {
                let mut s = String::from_str("pty I/O error: ");
                push_chars(&mut s, &str_chars(m.as_str()));
                s
            },
            PtyError::Unsupported => String::from_str("pty backend is unsupported on this platform"),
        }
    }
}

/// `a + b`, or `u64::MAX` when that does not fit.
pub open spec fn sat_add_u64(a: u64, b: int) -> u64 {
    if a + b > u64::MAX {
        u64::MAX
    } else {
        (a + b) as u64
    }
}

fn add_len(a: u64, len: usize) -> (r: u64)
    ensures
        r == sat_add_u64(a, len as int),
{
    let n: u64 = if len as u128 > u64::MAX as u128 { u64::MAX } else { len as u64 };
    a.saturating_add(n)
}

/// The bookkeeping of a terminal session, one step per thing that happens to it.
impl TerminalHealth {
    /// A read of `len` bytes of output, after which the emulator holds `scrollback_lines`
    /// lines of history.
    pub fn record_read(&mut self, len: usize, scrollback_lines: u32)
        ensures
            final(self).bytes_read == sat_add_u64(old(self).bytes_read, len as int),
            final(self).scrollback_lines == scrollback_lines,
            final(self).shell == old(self).shell,
            final(self).cwd == old(self).cwd,
            final(self).status == old(self).status,
            final(self).cols == old(self).cols,
            final(self).rows == old(self).rows,
            final(self).bytes_written == old(self).bytes_written,
            final(self).last_error == old(self).last_error,
    {
        self.bytes_read = add_len(self.bytes_read, len);
        self.scrollback_lines = scrollback_lines as usize;
    }

    /// `len` bytes of input written to the terminal.
    pub fn record_written(&mut self, len: usize)
        ensures
            final(self).bytes_written == sat_add_u64(old(self).bytes_written, len as int),
            final(self).shell == old(self).shell,
            final(self).cwd == old(self).cwd,
            final(self).status == old(self).status,
            final(self).cols == old(self).cols,
            final(self).rows == old(self).rows,
            final(self).scrollback_lines == old(self).scrollback_lines,
            final(self).bytes_read == old(self).bytes_read,
            final(self).last_error == old(self).last_error,
    {
        self.bytes_written = add_len(self.bytes_written, len);
    }

    /// A failure of the pseudo-terminal; counters stay as they are.
    pub fn record_error(&mut self, error: &PtyError)
        ensures
            final(self).last_error matches Some(m) && m@ == pty_error_message(*error),
            final(self).shell == old(self).shell,
            final(self).cwd == old(self).cwd,
            final(self).status == old(self).status,
            final(self).cols == old(self).cols,
            final(self).rows == old(self).rows,
            final(self).scrollback_lines == old(self).scrollback_lines,
            final(self).bytes_read == old(self).bytes_read,
            final(self).bytes_written == old(self).bytes_written,
    {
        self.last_error = Some(error.message());
    }

    /// The size a resize to `cols` by `rows` asks for once brought within bounds, or `None`
    /// when the terminal already has that size and nothing is to be done.
    pub fn resize_target(&self, cols: u16, rows: u16) -> (r: Option<(u16, u16)>)
        ensures
            r == (if self.cols == clamp_dim(cols) && self.rows == clamp_dim(rows) {
                None
            } else {
                Some((clamp_dim(cols), clamp_dim(rows)))
            }),
    {
        let (c, r) = clamp_pty_size(cols, rows);
        if self.cols == c && self.rows == r {
            None
        } else {
            Some((c, r))
        }
    }

    /// The terminal now has size `cols` by `rows`.
    pub fn record_resize(&mut self, cols: u16, rows: u16)
        ensures
            final(self).cols == cols,
            final(self).rows == rows,
            final(self).shell == old(self).shell,
            final(self).cwd == old(self).cwd,
            final(self).status == old(self).status,
            final(self).scrollback_lines == old(self).scrollback_lines,
            final(self).bytes_read == old(self).bytes_read,
            final(self).bytes_written == old(self).bytes_written,
            final(self).last_error == old(self).last_error,
    {
        self.cols = cols;
        self.rows = rows;
    }
}

} // verus!
