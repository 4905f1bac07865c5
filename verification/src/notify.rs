use vstd::prelude::*;

use crate::text::string_from_chars;

verus! {

/// `time::OffsetDateTime`, the moment a notification arrived; carried as an opaque value.
#[verifier::external_type_specification]
#[verifier::external_body]
pub struct ExOffsetDateTime(time::OffsetDateTime);

/// `Clone` for `time::OffsetDateTime`, a `Copy` type: the clone is the same value.
pub assume_specification[ <time::OffsetDateTime as Clone>::clone ](t: &time::OffsetDateTime) -> (r:
    time::OffsetDateTime)
    ensures
        r == *t,
;

/// The current time (`time::OffsetDateTime::now_utc`); nothing is promised of its value.
#[verifier::external_body]
fn now_utc() -> time::OffsetDateTime {
    time::OffsetDateTime::now_utc()
}

#[derive(Clone, Copy, Debug, PartialEq, Eq, Structural)]
pub enum OscNotificationKind {
    Osc9,
    Osc99,
    Osc777,
}

/// A desktop notification a program asked for through an OSC escape sequence.
#[derive(Clone, Debug, PartialEq, Eq)]
pub struct TerminalNotification {
    pub kind: OscNotificationKind,
    pub title: Option<String>,
    pub message: String,
    pub received_at: time::OffsetDateTime,
}

/// What a notification says (the time it was received is left out).
pub struct NotificationView {
    pub kind: OscNotificationKind,
    pub title: Option<Seq<char>>,
    pub message: Seq<char>,
}

impl View for TerminalNotification {
    type V = NotificationView;

    open spec fn view(&self) -> NotificationView {
        NotificationView {
            kind: self.kind,
            title: match self.title {
                Some(t) => Some(t@),
                None => None,
            },
            message: self.message@,
        }
    }
}

pub open spec fn notifications_view(v: Seq<TerminalNotification>) -> Seq<NotificationView> {
    v.map_values(|n: TerminalNotification| n@)
}

pub open spec fn esc() -> char {
    '\u{1b}'
}

pub open spec fn bel() -> char {
    '\u{7}'
}

/// Index of the first `c` at or after `i`, or -1.
pub open spec fn find_char_from(s: Seq<char>, c: char, i: int) -> int
    decreases s.len() - i,
{
    if i < 0 || i >= s.len() {
        -1
    } else if s[i] == c {
        i
    } else {
        find_char_from(s, c, i + 1)
    }
}

/// Index of the first OSC introducer (ESC `]`) at or after `i`, or -1.
pub open spec fn find_osc_start(s: Seq<char>, i: int) -> int
    decreases s.len() - i,
{
    if i < 0 || i + 1 >= s.len() {
        -1
    } else if s[i] == esc() && s[i + 1] == ']' {
        i
    } else {
        find_osc_start(s, i + 1)
    }
}

/// The first OSC terminator at or after `i` (BEL, or ESC `\`), with its length.
pub open spec fn find_terminator(s: Seq<char>, i: int) -> Option<(int, int)>
    decreases s.len() - i,
{
    if i < 0 || i >= s.len() {
        None
    } else if s[i] == bel() {
        Some((i, 1))
    } else if i + 1 < s.len() && s[i] == esc() && s[i + 1] == '\\' {
        Some((i, 2))
    } else {
        find_terminator(s, i + 1)
    }
}

/// An OSC body that asks for a notification: `9;message`, `99;message` or
/// `777;notify;title;message` (the message may hold further `;`).
pub open spec fn parse_body(b: Seq<char>) -> Option<NotificationView> {
    let k = find_char_from(b, ';', 0);
    if k < 0 {
        None
    } else {
        let code = b.subrange(0, k);
        let rest = b.subrange(k + 1, b.len() as int);
        if code == seq!['9'] {
            Some(NotificationView { kind: OscNotificationKind::Osc9, title: None, message: rest })
        } else if code == seq!['9', '9'] {
            Some(NotificationView { kind: OscNotificationKind::Osc99, title: None, message: rest })
        } else if code == seq!['7', '7', '7'] {
            let k2 = find_char_from(rest, ';', 0);
            if k2 < 0 {
                None
            } else {
                let r2 = rest.subrange(k2 + 1, rest.len() as int);
                let k3 = find_char_from(r2, ';', 0);
                if k3 < 0 || rest.subrange(0, k2) != seq!['n', 'o', 't', 'i', 'f', 'y'] {
                    None
                } else {
                    Some(
                        NotificationView {
                            kind: OscNotificationKind::Osc777,
                            title: Some(r2.subrange(0, k3)),
                            message: r2.subrange(k3 + 1, r2.len() as int),
                        },
                    )
                }
            }
        } else {
            None
        }
    }
}

/// The notifications in `s` from position `cursor` on: each complete OSC sequence, in order,
/// whose body asks for a notification. An unterminated sequence ends the scan.
pub open spec fn parse_from(s: Seq<char>, cursor: int) -> Seq<NotificationView>
    decreases s.len() - cursor,
{
    let st = find_osc_start(s, cursor);
    if cursor < 0 || st < 0 {
        Seq::empty()
    } else {
        match find_terminator(s, st + 2) {
            None => Seq::empty(),
            Some((end, len)) => {
                let rest = if end + len > cursor && end + len <= s.len() {
                    parse_from(s, end + len)
                } else {
                    Seq::empty()
                };
                match parse_body(s.subrange(st + 2, end)) {
                    Some(n) => seq![n] + rest,
                    None => rest,
                }
            },
        }
    }
}

proof fn lemma_find_char_bounds(s: Seq<char>, c: char, i: int)
    ensures
        find_char_from(s, c, i) == -1 || (i <= find_char_from(s, c, i) < s.len() && s[find_char_from(s, c, i)] == c),
    decreases s.len() - i,
{
    if 0 <= i < s.len() && s[i] != c {
        lemma_find_char_bounds(s, c, i + 1);
    }
}

proof fn lemma_find_terminator_bounds(s: Seq<char>, i: int)
    ensures
        find_terminator(s, i) matches Some((e, l)) ==> i <= e && e + l <= s.len() && (l == 1 || l == 2),
    decreases s.len() - i,
{
    if 0 <= i < s.len() && s[i] != bel() && !(i + 1 < s.len() && s[i] == esc() && s[i + 1] == '\\') {
        lemma_find_terminator_bounds(s, i + 1);
    }
}

proof fn lemma_find_osc_start_bounds(s: Seq<char>, i: int)
    ensures
        find_osc_start(s, i) == -1 || (i <= find_osc_start(s, i) && find_osc_start(s, i) + 1 < s.len()),
    decreases s.len() - i,
{
    if 0 <= i && i + 1 < s.len() && !(s[i] == esc() && s[i + 1] == ']') {
        lemma_find_osc_start_bounds(s, i + 1);
    }
}

fn find_char_exec(s: &Vec<char>, c: char, from: usize) -> (r: Option<usize>)
    ensures
        match r {
            Some(i) => i as int == find_char_from(s@, c, from as int) && i < s.len(),
            None => find_char_from(s@, c, from as int) == -1,
        },
{
    let mut i = from;
    while i < s.len()
        invariant
            from <= i,
            find_char_from(s@, c, from as int) == find_char_from(s@, c, i as int),
        decreases s.len() - i,
    {
        if s[i] == c {
            return Some(i);
        }
        i = i + 1;
    }
    None
}

fn find_osc_start_exec(s: &Vec<char>, from: usize) -> (r: Option<usize>)
    ensures
        match r {
            Some(i) => i as int == find_osc_start(s@, from as int) && i + 1 < s.len(),
            None => find_osc_start(s@, from as int) == -1,
        },
{
    let mut i = from;
    while i < s.len() && s.len() - i >= 2
        invariant
            from <= i,
            find_osc_start(s@, from as int) == find_osc_start(s@, i as int),
        decreases s.len() - i,
    {
        if s[i] == '\u{1b}' && s[i + 1] == ']' {
            return Some(i);
        }
        i = i + 1;
    }
    None
}

fn find_terminator_exec(s: &Vec<char>, from: usize) -> (r: Option<(usize, usize)>)
    ensures
        match r {
            Some((e, l)) => find_terminator(s@, from as int) == Some((e as int, l as int)) && e + l <= s.len(),
            None => find_terminator(s@, from as int) is None,
        },
{
    let mut i = from;
    while i < s.len()
        invariant
            from <= i,
            find_terminator(s@, from as int) == find_terminator(s@, i as int),
        decreases s.len() - i,
    {
        if s[i] == '\u{7}' {
            return Some((i, 1));
        }
        if s.len() - i >= 2 && s[i] == '\u{1b}' && s[i + 1] == '\\' {
            return Some((i, 2));
        }
        i = i + 1;
    }
    None
}

fn sub_chars(s: &Vec<char>, from: usize, to: usize) -> (r: Vec<char>)
    requires
        from <= to <= s.len(),
    ensures
        r@ == s@.subrange(from as int, to as int),
{
    let mut r: Vec<char> = Vec::new();
    let mut i = from;
    while i < to
        invariant
            from <= i <= to <= s.len(),
            r@ == s@.subrange(from as int, i as int),
        decreases to - i,
    {
        r.push(s[i]);
        assert(s@.subrange(from as int, i + 1) =~= s@.subrange(from as int, i as int).push(s@[i as int]));
        i = i + 1;
    }
    r
}

fn chars_eq(a: &Vec<char>, b: &[char]) -> (r: bool)
    ensures
        r == (a@ == b@),
{
    if a.len() != b.len() {
        return false;
    }
    let mut i: usize = 0;
    while i < a.len()
        invariant
            a.len() == b.len(),
            i <= a.len(),
            forall|j: int| 0 <= j < i ==> a@[j] == b@[j],
        decreases a.len() - i,
    {
        if a[i] != b[i] {
            return false;
        }
        i = i + 1;
    }
    assert(a@ =~= b@);
    true
}

/// Reads the body of an OSC sequence (between `ESC ]` and its terminator).
pub fn parse_osc_body(body: &Vec<char>) -> (r: Option<(OscNotificationKind, Option<Vec<char>>, Vec<char>)>)
    ensures
        match parse_body(body@) {
            None => r is None,
            Some(n) => r matches Some((kind, title, message)) && kind == n.kind && message@ == n.message
                && match title {
                Some(t) => n.title == Some(t@),
                None => n.title is None,
            },
        },
{
    let k = match find_char_exec(body, ';', 0) {
        Some(k) => k,
        None => return None,
    };
    let code = sub_chars(body, 0, k);
    let rest = sub_chars(body, k + 1, body.len());
    if chars_eq(&code, &['9']) {
        assert(seq!['9'] =~= ['9']@);
        return Some((OscNotificationKind::Osc9, None, rest));
    }
    assert(seq!['9'] =~= ['9']@);
    if chars_eq(&code, &['9', '9']) {
        assert(seq!['9', '9'] =~= ['9', '9']@);
        return Some((OscNotificationKind::Osc99, None, rest));
    }
    assert(seq!['9', '9'] =~= ['9', '9']@);
    assert(seq!['7', '7', '7'] =~= ['7', '7', '7']@);
    if !chars_eq(&code, &['7', '7', '7']) {
        return None;
    }
    let k2 = match find_char_exec(&rest, ';', 0) {
        Some(k2) => k2,
        None => return None,
    };
    let part1 = sub_chars(&rest, 0, k2);
    let r2 = sub_chars(&rest, k2 + 1, rest.len());
    let k3 = match find_char_exec(&r2, ';', 0) {
        Some(k3) => k3,
        None => return None,
    };
    assert(seq!['n', 'o', 't', 'i', 'f', 'y'] =~= ['n', 'o', 't', 'i', 'f', 'y']@);
    if !chars_eq(&part1, &['n', 'o', 't', 'i', 'f', 'y']) {
        return None;
    }
    let title = sub_chars(&r2, 0, k3);
    let message = sub_chars(&r2, k3 + 1, r2.len());
    Some((OscNotificationKind::Osc777, Some(title), message))
}

/// Every notification that the OSC sequences in `input` ask for, in order.
pub fn parse_osc_notifications(input: &str) -> (r: Vec<TerminalNotification>)
    ensures
        notifications_view(r@) == parse_from(input@, 0),
{
    let s = crate::text::str_chars(input);
    parse_osc_chars(&s)
}

/// `parse_osc_notifications` on characters.
pub fn parse_osc_chars(s: &Vec<char>) -> (r: Vec<TerminalNotification>)
    ensures
        notifications_view(r@) == parse_from(s@, 0),
{
    let mut out: Vec<TerminalNotification> = Vec::new();
    let mut cursor: usize = 0;
    while cursor <= s.len()
        invariant
            notifications_view(out@) + parse_from(s@, cursor as int) == parse_from(s@, 0),
        ensures
            notifications_view(out@) == parse_from(s@, 0),
        decreases s.len() + 1 - cursor,
    {
        let start = match find_osc_start_exec(s, cursor) {
            Some(st) => st,
            None => {
                assert(parse_from(s@, cursor as int) =~= Seq::<NotificationView>::empty());
                assert(notifications_view(out@) + Seq::<NotificationView>::empty() =~= notifications_view(out@));
                break;
            },
        };
        let body_start = start + 2;
        let (body_end, term_len) = match find_terminator_exec(s, body_start) {
            Some(t) => t,
            None => {
                assert(parse_from(s@, cursor as int) =~= Seq::<NotificationView>::empty());
                assert(notifications_view(out@) + Seq::<NotificationView>::empty() =~= notifications_view(out@));
                break;
            },
        };
        proof {
            lemma_find_terminator_bounds(s@, body_start as int);
            lemma_find_osc_start_bounds(s@, cursor as int);
        }
        let body = sub_chars(s, body_start, body_end);
        let ghost old_out = notifications_view(out@);
        match parse_osc_body(&body) {
            Some((kind, title, message)) => {
                let title = match title {
                    Some(t) => Some(string_from_chars(&t)),
                    None => None,
                };
                let n = TerminalNotification { kind, title, message: string_from_chars(&message), received_at: now_utc() };
                out.push(n);
                assert(notifications_view(out@) =~= old_out.push(n@));
                assert(old_out.push(n@) + parse_from(s@, (body_end + term_len) as int) =~= old_out + (seq![n@] + parse_from(s@, (body_end + term_len) as int)));
            },
            None => {},
        }
        cursor = body_end + term_len;
    }
    out
}

} // verus!
