use vstd::prelude::*;

use crate::text::{push_char, push_chars, str_chars};

verus! {

/// Unicode `White_Space`, the characters `str::trim` removes.
pub open spec fn is_white_space(c: char) -> bool {
    ||| ('\u{9}' <= c && c <= '\u{d}')
    ||| c == ' '
    ||| c == '\u{85}'
    ||| c == '\u{a0}'
    ||| c == '\u{1680}'
    ||| ('\u{2000}' <= c && c <= '\u{200a}')
    ||| c == '\u{2028}'
    ||| c == '\u{2029}'
    ||| c == '\u{202f}'
    ||| c == '\u{205f}'
    ||| c == '\u{3000}'
}

fn white_space(c: char) -> (r: bool)
    ensures
        r == is_white_space(c),
{
    ('\u{9}' <= c && c <= '\u{d}') || c == ' ' || c == '\u{85}' || c == '\u{a0}' || c == '\u{1680}'
        || ('\u{2000}' <= c && c <= '\u{200a}') || c == '\u{2028}' || c == '\u{2029}' || c == '\u{202f}'
        || c == '\u{205f}' || c == '\u{3000}'
}

pub open spec fn trim_end_ws(s: Seq<char>) -> Seq<char>
    decreases s.len(),
{
    if s.len() > 0 && is_white_space(s.last()) {
        trim_end_ws(s.drop_last())
    } else {
        s
    }
}

pub open spec fn trim_start_ws(s: Seq<char>) -> Seq<char>
    decreases s.len(),
{
    if s.len() > 0 && is_white_space(s.first()) {
        trim_start_ws(s.drop_first())
    } else {
        s
    }
}

/// `s` without leading and trailing white space.
pub open spec fn trim_ws(s: Seq<char>) -> Seq<char> {
    trim_start_ws(trim_end_ws(s))
}

/// A button's text: the label without surrounding white space.
pub fn button_label(label: &str) -> (r: String)
    ensures
        r@ == trim_ws(label@),
{
    let s = str_chars(label);
    let mut e = s.len();
    assert(s@.subrange(0, s.len() as int) =~= s@);
    while e > 0 && white_space(s[e - 1])
        invariant
            e <= s.len(),
            trim_end_ws(s@) == trim_end_ws(s@.subrange(0, e as int)),
        decreases e,
    {
        assert(s@.subrange(0, e as int).drop_last() =~= s@.subrange(0, e - 1));
        e = e - 1;
    }
    let mut b: usize = 0;
    while b < e && white_space(s[b])
        invariant
            b <= e <= s.len(),
            trim_start_ws(s@.subrange(0, e as int)) == trim_start_ws(s@.subrange(b as int, e as int)),
        decreases e - b,
    {
        assert(s@.subrange(b as int, e as int).drop_first() =~= s@.subrange(b + 1, e as int));
        b = b + 1;
    }
    let mut out = String::new();
    let mut i = b;
    while i < e
        invariant
            b <= i <= e <= s.len(),
            out@ == s@.subrange(b as int, i as int),
        decreases e - i,
    {
        push_char(&mut out, s[i]);
        assert(s@.subrange(b as int, i + 1) =~= s@.subrange(b as int, i as int).push(s@[i as int]));
        i = i + 1;
    }
    out
}

/// A key chord with spaces around each `+`.
pub open spec fn spaced_chord(s: Seq<char>) -> Seq<char>
    decreases s.len(),
{
    if s.len() == 0 {
        Seq::empty()
    } else if s.last() == '+' {
        spaced_chord(s.drop_last()) + seq![' ', '+', ' ']
    } else {
        spaced_chord(s.drop_last()).push(s.last())
    }
}

/// `chord` with every `+` written ` + `.
pub fn format_keybinding(chord: &str) -> (r: String)
    ensures
        r@ == spaced_chord(chord@),
{
    let s = str_chars(chord);
    let mut out = String::new();
    let mut i: usize = 0;
    while i < s.len()
        invariant
            i <= s.len(),
            s@ == chord@,
            out@ == spaced_chord(s@.take(i as int)),
        decreases s.len() - i,
    {
        let c = s[i];
        assert(s@.take(i + 1).drop_last() =~= s@.take(i as int));
        if c == '+' {
            push_char(&mut out, ' ');
            push_char(&mut out, '+');
            push_char(&mut out, ' ');
            assert(out@ =~= spaced_chord(s@.take(i as int)) + seq![' ', '+', ' ']);
        } else {
            push_char(&mut out, c);
        }
        i = i + 1;
    }
    assert(s@.take(s.len() as int) =~= s@);
    out
}

/// What follows a tab's title: ` *` when it is unread.
pub fn tab_unread_marker(unread: bool) -> (r: &'static str)
    ensures
        r@ == (if unread { " *"@ } else { ""@ }),
{
    if unread {
        " *"
    } else {
        ""
    }
}

/// A tab's title followed by its unread marker.
pub fn tab_label(title: &str, unread: bool) -> (r: String)
    ensures
        r@ == title@ + (if unread { " *"@ } else { ""@ }),
{
    let mut out = String::from_str(title);
    let marker = str_chars(tab_unread_marker(unread));
    push_chars(&mut out, &marker);
    out
}

} // verus!
