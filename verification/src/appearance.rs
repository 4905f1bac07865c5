use vstd::prelude::*;

verus! {

#[derive(Clone, Copy, Debug, PartialEq, Eq, Structural)]
pub struct TerminalColor {
    pub r: u8,
    pub g: u8,
    pub b: u8,
}

impl TerminalColor {
    pub fn rgb(r: u8, g: u8, b: u8) -> (c: Self)
        ensures
            c == (TerminalColor { r, g, b }),
    {
        TerminalColor { r, g, b }
    }
}

pub open spec fn rgb(r: u8, g: u8, b: u8) -> TerminalColor {
    TerminalColor { r, g, b }
}

#[derive(Clone, Copy, Debug, PartialEq, Eq)]
pub struct TerminalPalette {
    pub foreground: TerminalColor,
    pub background: TerminalColor,
    pub cursor: TerminalColor,
    pub selection: TerminalColor,
    pub ansi: [TerminalColor; 16],
}

/// The sixteen ANSI colors of the default palette.
pub open spec fn default_ansi() -> Seq<TerminalColor> {
    seq![
        rgb(0x00, 0x00, 0x00),
        rgb(0xcd, 0x31, 0x31),
        rgb(0x0d, 0xa0, 0x47),
        rgb(0xe5, 0xe5, 0x10),
        rgb(0x24, 0x73, 0xc8),
        rgb(0xbc, 0x3f, 0xbc),
        rgb(0x11, 0xa8, 0xcd),
        rgb(0xe5, 0xe5, 0xe5),
        rgb(0x66, 0x66, 0x66),
        rgb(0xf1, 0x4c, 0x4c),
        rgb(0x23, 0xd1, 0x8b),
        rgb(0xf5, 0xf5, 0x43),
        rgb(0x3b, 0x8e, 0xff),
        rgb(0xd6, 0x70, 0xd6),
        rgb(0x29, 0xb8, 0xdb),
        rgb(0xff, 0xff, 0xff),
    ]
}

impl Default for TerminalPalette {
    fn default() -> (p: Self)
        ensures
            p.foreground == rgb(0xe7, 0xea, 0xf0),
            p.background == rgb(0x11, 0x13, 0x16),
            p.cursor == rgb(0xe7, 0xea, 0xf0),
            p.selection == rgb(0x2f, 0x80, 0xff),
            p.ansi@ == default_ansi(),
    {
        let p = TerminalPalette {
            foreground: TerminalColor::rgb(0xe7, 0xea, 0xf0),
            background: TerminalColor::rgb(0x11, 0x13, 0x16),
            cursor: TerminalColor::rgb(0xe7, 0xea, 0xf0),
            selection: TerminalColor::rgb(0x2f, 0x80, 0xff),
            ansi: [
                TerminalColor::rgb(0x00, 0x00, 0x00),
                TerminalColor::rgb(0xcd, 0x31, 0x31),
                TerminalColor::rgb(0x0d, 0xa0, 0x47),
                TerminalColor::rgb(0xe5, 0xe5, 0x10),
                TerminalColor::rgb(0x24, 0x73, 0xc8),
                TerminalColor::rgb(0xbc, 0x3f, 0xbc),
                TerminalColor::rgb(0x11, 0xa8, 0xcd),
                TerminalColor::rgb(0xe5, 0xe5, 0xe5),
                TerminalColor::rgb(0x66, 0x66, 0x66),
                TerminalColor::rgb(0xf1, 0x4c, 0x4c),
                TerminalColor::rgb(0x23, 0xd1, 0x8b),
                TerminalColor::rgb(0xf5, 0xf5, 0x43),
                TerminalColor::rgb(0x3b, 0x8e, 0xff),
                TerminalColor::rgb(0xd6, 0x70, 0xd6),
                TerminalColor::rgb(0x29, 0xb8, 0xdb),
                TerminalColor::rgb(0xff, 0xff, 0xff),
            ],
        };
        assert(p.ansi@ =~= default_ansi());
        p
    }
}

#[derive(Clone, Copy, Debug, PartialEq, Eq, Structural)]
pub struct TerminalGridSize {
    pub cols: u16,
    pub rows: u16,
}

} // verus!
