use vstd::prelude::*;

verus! {

#[derive(Debug, PartialEq, Eq)]
pub enum ClipboardError {
    Unavailable(String),
}

/// Where copied text goes and pasted text comes from.
pub trait ClipboardPort {
    fn store_text(&mut self, text: &str) -> Result<(), ClipboardError>;

    fn load_text(&self) -> Result<String, ClipboardError>;
}

/// A clipboard held in memory.
#[derive(Clone, Debug)]
pub struct FakeClipboard {
    text: String,
}

impl View for FakeClipboard {
    type V = Seq<char>;

    /// The text it holds.
    closed spec fn view(&self) -> Seq<char> {
        self.text@
    }
}

impl Default for FakeClipboard {
    fn default() -> (r: Self)
        ensures
            r@.len() == 0,
    {
        FakeClipboard { text: String::new() }
    }
}

impl ClipboardPort for FakeClipboard {
    fn store_text(&mut self, text: &str) -> (r: Result<(), ClipboardError>)
        ensures
            r == Ok::<(), ClipboardError>(()),
            final(self)@ == text@,
    {
        self.text = String::from_str(text);
        Ok(())
    }

    fn load_text(&self) -> (r: Result<String, ClipboardError>)
        ensures
            r matches Ok(s) && s@ == self@,
    {
        Ok(self.text.clone())
    }
}

} // verus!
