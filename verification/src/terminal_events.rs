use vstd::prelude::*;

verus! {

#[derive(Clone, Copy, Debug, PartialEq, Eq, Structural)]
pub enum TerminalStatus {
    Starting,
    Running,
    Exited,
    Failed,
}

#[derive(Clone, Debug, PartialEq, Eq)]
pub enum TerminalEvent {
    TitleChanged(String),
    Bell,
    Wakeup,
    ClipboardError(String),
    ChildExited(Option<i32>),
    Failed(String),
}

pub enum TerminalEventView {
    TitleChanged(Seq<char>),
    Bell,
    Wakeup,
    ClipboardError(Seq<char>),
    ChildExited(Option<i32>),
    Failed(Seq<char>),
}

impl View for TerminalEvent {
    type V = TerminalEventView;

    open spec fn view(&self) -> TerminalEventView {
        match self {
            TerminalEvent::TitleChanged(t) => TerminalEventView::TitleChanged(t@),
            TerminalEvent::Bell => TerminalEventView::Bell,
            TerminalEvent::Wakeup => TerminalEventView::Wakeup,
            TerminalEvent::ClipboardError(m) => TerminalEventView::ClipboardError(m@),
            TerminalEvent::ChildExited(c) => TerminalEventView::ChildExited(*c),
            TerminalEvent::Failed(m) => TerminalEventView::Failed(m@),
        }
    }
}

pub open spec fn events_view(s: Seq<TerminalEvent>) -> Seq<TerminalEventView> {
    s.map_values(|e: TerminalEvent| e@)
}

/// What a terminal reports about itself.
#[derive(Clone, Debug, PartialEq, Eq)]
pub struct TerminalHealth {
    pub shell: String,
    pub cwd: String,
    pub status: TerminalStatus,
    pub cols: u16,
    pub rows: u16,
    pub scrollback_lines: usize,
    pub bytes_read: u64,
    pub bytes_written: u64,
    pub last_error: Option<String>,
}

impl TerminalHealth {
    /// A terminal that has just started: running, nothing read or written, no error.
    pub fn running(shell: &str, cwd: &str, cols: u16, rows: u16) -> (h: Self)
        ensures
            h.shell@ == shell@,
            h.cwd@ == cwd@,
            h.status == TerminalStatus::Running,
            h.cols == cols,
            h.rows == rows,
            h.scrollback_lines == 0,
            h.bytes_read == 0,
            h.bytes_written == 0,
            h.last_error is None,
    {
        TerminalHealth {
            shell: String::from_str(shell),
            cwd: String::from_str(cwd),
            status: TerminalStatus::Running,
            cols,
            rows,
            scrollback_lines: 0,
            bytes_read: 0,
            bytes_written: 0,
            last_error: None,
        }
    }
}

} // verus!
