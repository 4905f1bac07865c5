use vstd::prelude::*;

use crate::model::opt_string_view;

verus! {

/// What a browser surface can be asked to do.
#[derive(Clone, Debug, PartialEq, Eq)]
pub enum BrowserCommand {
    OpenUrl(String),
    Back,
    Forward,
    Reload,
    EvaluateJavaScript(String),
}

pub enum CommandView {
    OpenUrl(Seq<char>),
    Back,
    Forward,
    Reload,
    EvaluateJavaScript(Seq<char>),
}

impl View for BrowserCommand {
    type V = CommandView;

    open spec fn view(&self) -> CommandView {
        match self {
            BrowserCommand::OpenUrl(u) => CommandView::OpenUrl(u@),
            BrowserCommand::Back => CommandView::Back,
            BrowserCommand::Forward => CommandView::Forward,
            BrowserCommand::Reload => CommandView::Reload,
            BrowserCommand::EvaluateJavaScript(s) => CommandView::EvaluateJavaScript(s@),
        }
    }
}

/// A browser surface's navigation state: the pages visited, and which of them is shown.
#[derive(Clone, Debug, PartialEq, Eq)]
pub struct BrowserSurfaceState {
    pub current_url: Option<String>,
    pub history: Vec<String>,
    pub can_go_back: bool,
    pub can_go_forward: bool,
    position: usize,
}

pub struct BrowserView {
    pub current_url: Option<Seq<char>>,
    pub history: Seq<Seq<char>>,
    pub can_go_back: bool,
    pub can_go_forward: bool,
    /// Index in `history` of the page shown.
    pub position: nat,
}

pub open spec fn urls_view(v: Seq<String>) -> Seq<Seq<char>> {
    v.map_values(|s: String| s@)
}

impl View for BrowserSurfaceState {
    type V = BrowserView;

    closed spec fn view(&self) -> BrowserView {
        BrowserView {
            current_url: opt_string_view(self.current_url),
            history: urls_view(self.history@),
            can_go_back: self.can_go_back,
            can_go_forward: self.can_go_forward,
            position: self.position as nat,
        }
    }
}

impl BrowserView {
    /// The flags and the shown page agree with the position in the history.
    pub open spec fn wf(self) -> bool {
        if self.history.len() == 0 {
            &&& self.current_url is None
            &&& !self.can_go_back
            &&& !self.can_go_forward
            &&& self.position == 0
        } else {
            &&& self.position < self.history.len()
            &&& self.current_url == Some(self.history[self.position as int])
            &&& self.can_go_back == (self.position > 0)
            &&& self.can_go_forward == (self.position + 1 < self.history.len())
        }
    }

    /// Shows `url`: the pages after the shown one are dropped and `url` follows it.
    pub open spec fn open_url(self, url: Seq<char>) -> BrowserView {
        let kept = if self.position < self.history.len() {
            self.history.take(self.position + 1 as int)
        } else {
            self.history
        };
        let h = kept.push(url);
        BrowserView {
            current_url: Some(url),
            history: h,
            can_go_back: h.len() > 1,
            can_go_forward: false,
            position: (h.len() - 1) as nat,
        }
    }

    /// Shows the page before the shown one, if there is one.
    pub open spec fn back(self) -> BrowserView {
        if 0 < self.position < self.history.len() {
            let p = (self.position - 1) as nat;
            BrowserView {
                current_url: Some(self.history[p as int]),
                history: self.history,
                can_go_back: p > 0,
                can_go_forward: true,
                position: p,
            }
        } else {
            self
        }
    }

    /// Shows the page after the shown one, if there is one.
    pub open spec fn forward(self) -> BrowserView {
        if self.position + 1 < self.history.len() {
            let p = self.position + 1;
            BrowserView {
                current_url: Some(self.history[p as int]),
                history: self.history,
                can_go_back: true,
                can_go_forward: p + 1 < self.history.len(),
                position: p,
            }
        } else {
            self
        }
    }

    pub open spec fn apply(self, c: CommandView) -> BrowserView {
        match c {
            CommandView::OpenUrl(url) => self.open_url(url),
            CommandView::Back => self.back(),
            CommandView::Forward => self.forward(),
            CommandView::Reload => self,
            CommandView::EvaluateJavaScript(_) => self,
        }
    }
}

impl BrowserSurfaceState {
    /// No page shown, no history.
    pub fn new() -> (r: Self)
        ensures
            r@.history.len() == 0,
            r@.current_url is None,
            !r@.can_go_back,
            !r@.can_go_forward,
            r@.wf(),
    {
        let r = BrowserSurfaceState {
            current_url: None,
            history: Vec::new(),
            can_go_back: false,
            can_go_forward: false,
            position: 0,
        };
        assert(r@.history =~= Seq::<Seq<char>>::empty());
        r
    }

    pub fn apply(&mut self, command: BrowserCommand)
        ensures
            final(self)@ == old(self)@.apply(command@),
    {
        match command {
            BrowserCommand::OpenUrl(url) => {
                let ghost h0 = self@.history;
                if self.position < self.history.len() {
                    self.history.truncate(self.position + 1);
                    assert(urls_view(self.history@) =~= h0.take(self.position + 1 as int));
                }
                self.current_url = Some(url.clone());
                let ghost kept = urls_view(self.history@);
                self.history.push(url);
                assert(urls_view(self.history@) =~= kept.push(url@));
                self.position = self.history.len() - 1;
                self.can_go_back = self.history.len() > 1;
                self.can_go_forward = false;
            },
            BrowserCommand::Back => {
                if 0 < self.position && self.position < self.history.len() {
                    self.position = self.position - 1;
                    self.current_url = Some(self.history[self.position].clone());
                    self.can_go_back = self.position > 0;
                    self.can_go_forward = true;
                }
            },
            BrowserCommand::Forward => {
                if self.history.len() > 0 && self.position < self.history.len() - 1 {
                    self.position = self.position + 1;
                    self.current_url = Some(self.history[self.position].clone());
                    self.can_go_back = true;
                    self.can_go_forward = self.position + 1 < self.history.len();
                }
            },
            BrowserCommand::Reload => {},
            BrowserCommand::EvaluateJavaScript(_) => {},
        }
    }
}

impl Default for BrowserSurfaceState {
    fn default() -> (r: Self)
        ensures
            r@.history.len() == 0,
            r@.wf(),
    {
        BrowserSurfaceState::new()
    }
}

/// Every command keeps the navigation state consistent.
pub proof fn law_browser_apply_wf(s: BrowserView, c: CommandView)
    requires
        s.wf(),
    ensures
        s.apply(c).wf(),
{
}

/// Going back and then forward shows the same page with the same history again.
pub proof fn law_browser_back_then_forward(s: BrowserView)
    requires
        s.wf(),
        s.can_go_back,
    ensures
        s.back().forward() == s,
{
}

/// Opening a page leaves nothing to go forward to, shows the page, and keeps the pages up to
/// the one that was shown.
pub proof fn law_browser_open_url(s: BrowserView, url: Seq<char>)
    requires
        s.wf(),
    ensures
        !s.open_url(url).can_go_forward,
        s.open_url(url).current_url == Some(url),
        s.open_url(url).history.last() == url,
        s.history.len() > 0 ==> s.open_url(url).history.drop_last() == s.history.take(s.position + 1 as int),
{
}

} // verus!
