use vstd::prelude::*;
use vstd::utf8::encode_scalar;

verus! {

#[derive(Clone, Copy, Debug, PartialEq, Eq, Structural)]
pub enum TerminalKey {
    Character(char),
    Enter,
    Backspace,
    Escape,
    Tab,
}

#[derive(Clone, Copy, Debug, PartialEq, Eq, Structural)]
pub struct TerminalKeyEvent {
    pub key: TerminalKey,
    pub ctrl: bool,
    pub shift: bool,
    pub alt: bool,
    pub selection_present: bool,
}

/// What a key press does to a terminal.
#[derive(Clone, Debug, PartialEq, Eq)]
pub enum TerminalInputRoute {
    CopySelection,
    PasteClipboard,
    WriteBytes(Vec<u8>),
    Ignore,
}

pub enum InputRouteView {
    CopySelection,
    PasteClipboard,
    WriteBytes(Seq<u8>),
    Ignore,
}

impl View for TerminalInputRoute {
    type V = InputRouteView;

    open spec fn view(&self) -> InputRouteView {
        match self {
            TerminalInputRoute::CopySelection => InputRouteView::CopySelection,
            TerminalInputRoute::PasteClipboard => InputRouteView::PasteClipboard,
            TerminalInputRoute::WriteBytes(b) => InputRouteView::WriteBytes(b@),
            TerminalInputRoute::Ignore => InputRouteView::Ignore,
        }
    }
}

/// Ctrl+Shift+C copies when there is a selection; Ctrl+Shift+V pastes; a plain (no Ctrl, no Alt)
/// character writes its UTF-8 bytes; Enter, Tab, Backspace and Escape write CR, TAB, DEL and ESC
/// whatever the modifiers; anything else is ignored.
pub open spec fn route_spec(e: TerminalKeyEvent) -> InputRouteView {
    match e.key {
        TerminalKey::Character(ch) => if (ch == 'c' || ch == 'C') && e.ctrl && e.shift && e.selection_present {
            InputRouteView::CopySelection
        } else if (ch == 'v' || ch == 'V') && e.ctrl && e.shift {
            InputRouteView::PasteClipboard
        } else if !e.ctrl && !e.alt {
            InputRouteView::WriteBytes(encode_scalar(ch as u32))
        } else {
            InputRouteView::Ignore
        },
        TerminalKey::Enter => InputRouteView::WriteBytes(seq![13u8]),
        TerminalKey::Tab => InputRouteView::WriteBytes(seq![9u8]),
        TerminalKey::Backspace => InputRouteView::WriteBytes(seq![0x7fu8]),
        TerminalKey::Escape => InputRouteView::WriteBytes(seq![0x1bu8]),
    }
}

/// The UTF-8 encoding of a character.
pub fn encode_char(ch: char) -> (r: Vec<u8>)
    ensures
        r@ == encode_scalar(ch as u32),
{
    let v = ch as u32;
    let mut r: Vec<u8> = Vec::new();
    if v <= 0x7F {
        r.push((v & 0x7F) as u8);
    } else if 0x80 <= v && v <= 0x7FF {
        r.push(0xC0 | ((v >> 6) & 0x1F) as u8);
        r.push(0x80 | (v & 0x3F) as u8);
    } else if 0x800 <= v && v <= 0xFFFF && !(0xD800 <= v && v <= 0xDFFF) {
        r.push(0xE0 | ((v >> 12) & 0x0F) as u8);
        r.push(0x80 | ((v >> 6) & 0x3F) as u8);
        r.push(0x80 | (v & 0x3F) as u8);
    } else {
        r.push(0xF0 | ((v >> 18) & 0x7) as u8);
        r.push(0x80 | ((v >> 12) & 0x3F) as u8);
        r.push(0x80 | ((v >> 6) & 0x3F) as u8);
        r.push(0x80 | (v & 0x3F) as u8);
    }
    assert(r@ =~= encode_scalar(v));
    r
}

fn one_byte(b: u8) -> (r: Vec<u8>)
    ensures
        r@ == seq![b],
{
    let mut r: Vec<u8> = Vec::new();
    r.push(b);
    assert(r@ =~= seq![b]);
    r
}

pub struct TerminalInputRouter;

impl TerminalInputRouter {
    pub fn route_key(event: TerminalKeyEvent) -> (r: TerminalInputRoute)
        ensures
            r@ == route_spec(event),
    {
        match event.key {
            TerminalKey::Character(ch) => {
                if (ch == 'c' || ch == 'C') && event.ctrl && event.shift && event.selection_present {
                    TerminalInputRoute::CopySelection
                } else if (ch == 'v' || ch == 'V') && event.ctrl && event.shift {
                    TerminalInputRoute::PasteClipboard
                } else if !event.ctrl && !event.alt {
                    TerminalInputRoute::WriteBytes(encode_char(ch))
                } else {
                    TerminalInputRoute::Ignore
                }
            },
            TerminalKey::Enter => TerminalInputRoute::WriteBytes(one_byte(13)),
            TerminalKey::Tab => TerminalInputRoute::WriteBytes(one_byte(9)),
            TerminalKey::Backspace => TerminalInputRoute::WriteBytes(one_byte(0x7f)),
            TerminalKey::Escape => TerminalInputRoute::WriteBytes(one_byte(0x1b)),
        }
    }
}

} // verus!
