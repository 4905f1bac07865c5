use vstd::prelude::*;

use crate::emulator::{complete_part, waiting_part};
use crate::grid::{has_byte_terminator, incomplete_osc_start, last_osc_byte_start, terminator_at};
use crate::notify::{bel, esc, find_osc_start, find_terminator, parse_body, parse_from};
use vstd::utf8::{decode_utf8, is_char_boundary, valid_utf8};

verus! {

/// The last introducer before `e` starts at least two bytes before it, with ESC `]`.
proof fn lemma_last_bounds(s: Seq<u8>, e: int)
    requires
        0 <= e <= s.len(),
    ensures
        last_osc_byte_start(s, e) >= -1,
        last_osc_byte_start(s, e) >= 0 ==> last_osc_byte_start(s, e) + 2 <= e && s[last_osc_byte_start(s, e)] == 0x1b
            && s[last_osc_byte_start(s, e) + 1] == 0x5d,
    decreases e,
{
    if e >= 2 {
        lemma_last_bounds(s, e - 1);
    }
}

/// What waits starts inside the bytes.
proof fn lemma_incomplete_bounds(s: Seq<u8>)
    ensures
        incomplete_osc_start(s) matches Some(j) ==> 0 <= j < s.len(),
{
    lemma_last_bounds(s, s.len() as int);
}

/// Below the end of `p`, the last introducer of `p + s` is that of `p`.
proof fn lemma_last_prefix(p: Seq<u8>, s: Seq<u8>, e: int)
    requires
        0 <= e <= p.len(),
    ensures
        last_osc_byte_start(p + s, e) == last_osc_byte_start(p, e),
    decreases e,
{
    if e >= 2 {
        assert((p + s)[e - 2] == p[e - 2]);
        assert((p + s)[e - 1] == p[e - 1]);
        lemma_last_prefix(p, s, e - 1);
    }
}

/// An introducer in `s` before `e` is, shifted by the length of `p`, the last one of `p + s`
/// before `p.len() + e`; with none in `s`, the search goes on from the join.
proof fn lemma_last_shift(p: Seq<u8>, s: Seq<u8>, e: int)
    requires
        1 <= e <= s.len(),
    ensures
        last_osc_byte_start(s, e) >= 0 ==> last_osc_byte_start(p + s, p.len() + e) == p.len() + last_osc_byte_start(s, e),
        last_osc_byte_start(s, e) < 0 ==> last_osc_byte_start(p + s, p.len() + e) == last_osc_byte_start(p + s, p.len() + 1int),
    decreases e,
{
    if e >= 2 {
        assert((p + s)[p.len() + e - 2] == s[e - 2]);
        assert((p + s)[p.len() + e - 1] == s[e - 1]);
        lemma_last_shift(p, s, e - 1);
    }
}

proof fn lemma_terminator_shift(p: Seq<u8>, s: Seq<u8>, j: int)
    requires
        0 <= j,
    ensures
        has_byte_terminator(p + s, p.len() + j) <==> has_byte_terminator(s, j),
{
    let t = p + s;
    if has_byte_terminator(s, j) {
        let k = choose|k: int| j <= k < s.len() && #[trigger] terminator_at(s, k);
        assert(t[p.len() + k] == s[k]);
        if k + 1 < s.len() {
            assert(t[p.len() + k + 1] == s[k + 1]);
        }
        assert(terminator_at(t, p.len() + k));
    }
    if has_byte_terminator(t, p.len() + j) {
        let k = choose|k: int| p.len() + j <= k < t.len() && #[trigger] terminator_at(t, k);
        assert(t[k] == s[k - p.len()]);
        if k + 1 < t.len() {
            assert(t[k + 1] == s[k + 1 - p.len()]);
        }
        assert(terminator_at(s, k - p.len()));
    }
}

proof fn lemma_terminator_extend(p: Seq<u8>, s: Seq<u8>, j: int)
    requires
        0 <= j,
        has_byte_terminator(p, j),
    ensures
        has_byte_terminator(p + s, j),
{
    let k = choose|k: int| j <= k < p.len() && #[trigger] terminator_at(p, k);
    assert((p + s)[k] == p[k]);
    if k + 1 < p.len() {
        assert((p + s)[k + 1] == p[k + 1]);
    }
    assert(terminator_at(p + s, k));
}

/// What waits in `p + s` is what waits in `s`, when `s` holds an introducer, or when no
/// introducer straddles the join and the last one of `p`, if any, is terminated.
proof fn lemma_incomplete_join(p: Seq<u8>, s: Seq<u8>)
    requires
        s.len() > 0,
        last_osc_byte_start(s, s.len() as int) >= 0 || {
            &&& !(p.len() > 0 && p.last() == 0x1b && s[0] == 0x5d)
            &&& last_osc_byte_start(p, p.len() as int) >= 0 ==> has_byte_terminator(p, last_osc_byte_start(p, p.len() as int))
        },
    ensures
        incomplete_osc_start(p + s) == match incomplete_osc_start(s) {
            Some(j) => Some(p.len() + j),
            None => None::<int>,
        },
{
    let t = p + s;
    let n = s.len() as int;
    lemma_last_bounds(s, n);
    lemma_last_bounds(p, p.len() as int);
    lemma_last_shift(p, s, n);
    assert(t.len() == p.len() + n);
    assert(t.last() == s.last());
    let ls = last_osc_byte_start(s, n);
    if ls >= 0 {
        lemma_terminator_shift(p, s, ls);
    } else {
        let lt = last_osc_byte_start(t, p.len() + 1int);
        if p.len() > 0 {
            assert(t[p.len() - 1] == p.last());
            assert(t[p.len() as int] == s[0]);
        }
        lemma_last_prefix(p, s, p.len() as int);
        assert(lt == last_osc_byte_start(p, p.len() as int));
        if lt >= 0 {
            lemma_terminator_extend(p, s, lt);
        }
    }
}

/// Later ends find an introducer at or after the one an earlier end finds.
proof fn lemma_last_mono(s: Seq<u8>, e: int, e2: int)
    requires
        0 <= e <= e2 <= s.len(),
        last_osc_byte_start(s, e) >= 0,
    ensures
        last_osc_byte_start(s, e2) >= last_osc_byte_start(s, e),
    decreases e2 - e,
{
    if e2 > e {
        lemma_last_mono(s, e, e2 - 1);
        lemma_last_bounds(s, e2 - 1);
    }
}

proof fn lemma_split_after_complete(a: Seq<u8>, b: Seq<u8>)
    requires
        incomplete_osc_start(a) is None,
    ensures
        complete_part(a) + complete_part(waiting_part(a) + b) == complete_part(a + b),
        waiting_part(waiting_part(a) + b) == waiting_part(a + b),
{
    lemma_incomplete_bounds(b);
    assert(complete_part(a) == a);
    assert(waiting_part(a) =~= Seq::<u8>::empty());
    assert(waiting_part(a) + b =~= b);
    if b.len() == 0 {
        assert(a + b =~= a);
        assert(complete_part(b) =~= Seq::<u8>::empty());
        assert(a + Seq::<u8>::empty() =~= a);
    } else {
        lemma_incomplete_join(a, b);
        match incomplete_osc_start(b) {
            Some(j) => {
                assert((a + b).take(a.len() + j) =~= a + b.take(j));
                assert((a + b).skip(a.len() + j) =~= b.skip(j));
            },
            None => {},
        }
    }
}

proof fn lemma_split_after_waiting(a: Seq<u8>, b: Seq<u8>, i: int)
    requires
        incomplete_osc_start(a) == Some(i),
    ensures
        complete_part(a) + complete_part(waiting_part(a) + b) == complete_part(a + b),
        waiting_part(waiting_part(a) + b) == waiting_part(a + b),
{
    lemma_incomplete_bounds(a);
    lemma_last_bounds(a, a.len() as int);
    let p = a.take(i);
    let w = a.skip(i);
    let s = w + b;
    assert(a =~= p + w);
    assert(a + b =~= p + s);
    let la = last_osc_byte_start(a, a.len() as int);
    if la >= 0 && !has_byte_terminator(a, la) {
        assert(s[0] == 0x1b && s[1] == 0x5d);
        assert(last_osc_byte_start(s, 2) == 0);
        lemma_last_mono(s, 2, s.len() as int);
    } else {
        assert(w.len() == 1 && w[0] == 0x1b);
        assert(s[0] == 0x1b);
        if last_osc_byte_start(s, s.len() as int) < 0 {
            lemma_last_prefix(p, w, p.len() as int);
            if a.len() >= 2 {
                assert(a[a.len() - 1] == 0x1b);
            }
            assert(last_osc_byte_start(p, p.len() as int) == la);
            if la >= 0 {
                let k = choose|k: int| la <= k < a.len() && #[trigger] terminator_at(a, k);
                assert(k < p.len());
                assert(p[k] == a[k]);
                if k + 1 < p.len() {
                    assert(p[k + 1] == a[k + 1]);
                }
                assert(terminator_at(p, k));
            }
        }
    }
    lemma_incomplete_join(p, s);
    lemma_incomplete_bounds(s);
    match incomplete_osc_start(s) {
        Some(j) => {
            assert((p + s).take(p.len() + j) =~= p + s.take(j));
            assert((p + s).skip(p.len() + j) =~= s.skip(j));
        },
        None => {
            assert(waiting_part(s) =~= Seq::<u8>::empty());
        },
    }
}

/// Cutting terminal output into two reads at any point hands the notification parser the same
/// bytes: what is complete after the first read, followed by what is complete once the second
/// read joins the bytes left waiting, is what is complete of the whole output, and the same
/// bytes are left waiting for the next read.
pub proof fn law_split_reads_pass_same_bytes(a: Seq<u8>, b: Seq<u8>)
    ensures
        complete_part(a) + complete_part(waiting_part(a) + b) == complete_part(a + b),
        waiting_part(waiting_part(a) + b) == waiting_part(a + b),
{
    match incomplete_osc_start(a) {
        None => lemma_split_after_complete(a, b),
        Some(i) => lemma_split_after_waiting(a, b, i),
    }
}

/// An introducer found from `i` is the first at or after `i`.
proof fn lemma_osc_start_found(s: Seq<char>, i: int)
    requires
        0 <= i,
    ensures
        find_osc_start(s, i) == -1 || (i <= find_osc_start(s, i) && find_osc_start(s, i) + 1 < s.len()
            && s[find_osc_start(s, i)] == esc() && s[find_osc_start(s, i) + 1] == ']'),
    decreases s.len() - i,
{
    if i + 1 < s.len() && !(s[i] == esc() && s[i + 1] == ']') {
        lemma_osc_start_found(s, i + 1);
    }
}

proof fn lemma_terminator_found(s: Seq<char>, i: int)
    ensures
        find_terminator(s, i) matches Some((e, l)) ==> i <= e && e + l <= s.len() && (l == 1 || l == 2),
    decreases s.len() - i,
{
    if 0 <= i < s.len() && s[i] != bel() && !(i + 1 < s.len() && s[i] == esc() && s[i + 1] == '\\') {
        lemma_terminator_found(s, i + 1);
    }
}

/// An introducer of `c1` is found in `c1 + c2` where it is found in `c1`.
proof fn lemma_osc_start_prefix(c1: Seq<char>, c2: Seq<char>, i: int)
    requires
        0 <= i,
        find_osc_start(c1, i) >= 0,
    ensures
        find_osc_start(c1 + c2, i) == find_osc_start(c1, i),
    decreases c1.len() - i,
{
    assert((c1 + c2)[i] == c1[i]);
    assert((c1 + c2)[i + 1] == c1[i + 1]);
    if !(c1[i] == esc() && c1[i + 1] == ']') {
        lemma_osc_start_prefix(c1, c2, i + 1);
    }
}

/// From inside `c2`, the search in `c1 + c2` is the search in `c2`, shifted.
proof fn lemma_osc_start_shift(c1: Seq<char>, c2: Seq<char>, k: int)
    requires
        0 <= k,
    ensures
        find_osc_start(c1 + c2, c1.len() + k) == if find_osc_start(c2, k) >= 0 {
            c1.len() + find_osc_start(c2, k)
        } else {
            -1
        },
    decreases c2.len() - k,
{
    if k + 1 < c2.len() {
        assert((c1 + c2)[c1.len() + k] == c2[k]);
        assert((c1 + c2)[c1.len() + k + 1] == c2[k + 1]);
        if !(c2[k] == esc() && c2[k + 1] == ']') {
            lemma_osc_start_shift(c1, c2, k + 1);
        }
    }
}

/// With no introducer in `c1` from `i` on and no ESC ending `c1`, the search from `i` in
/// `c1 + c2` lands where it lands from the start of `c2`.
proof fn lemma_osc_start_skip(c1: Seq<char>, c2: Seq<char>, i: int)
    requires
        0 <= i <= c1.len(),
        find_osc_start(c1, i) == -1,
        c1.len() > 0 ==> c1.last() != esc(),
    ensures
        find_osc_start(c1 + c2, i) == find_osc_start(c1 + c2, c1.len() as int),
    decreases c1.len() - i,
{
    if i < c1.len() {
        assert((c1 + c2)[i] == c1[i]);
        if i + 1 < c1.len() {
            assert((c1 + c2)[i + 1] == c1[i + 1]);
        } else {
            assert(c1[i] == c1.last());
        }
        lemma_osc_start_skip(c1, c2, i + 1);
    }
}

proof fn lemma_terminator_prefix(c1: Seq<char>, c2: Seq<char>, i: int)
    requires
        0 <= i,
        find_terminator(c1, i) is Some,
    ensures
        find_terminator(c1 + c2, i) == find_terminator(c1, i),
    decreases c1.len() - i,
{
    assert((c1 + c2)[i] == c1[i]);
    if i + 1 < c1.len() {
        assert((c1 + c2)[i + 1] == c1[i + 1]);
    }
    if c1[i] != bel() && !(i + 1 < c1.len() && c1[i] == esc() && c1[i + 1] == '\\') {
        lemma_terminator_prefix(c1, c2, i + 1);
    }
}

proof fn lemma_terminator_shift_chars(c1: Seq<char>, c2: Seq<char>, k: int)
    requires
        0 <= k,
    ensures
        find_terminator(c1 + c2, c1.len() + k) == match find_terminator(c2, k) {
            Some((e, l)) => Some((c1.len() + e, l)),
            None => None::<(int, int)>,
        },
    decreases c2.len() - k,
{
    if k < c2.len() {
        assert((c1 + c2)[c1.len() + k] == c2[k]);
        if k + 1 < c2.len() {
            assert((c1 + c2)[c1.len() + k + 1] == c2[k + 1]);
        }
        if c2[k] != bel() && !(k + 1 < c2.len() && c2[k] == esc() && c2[k + 1] == '\\') {
            lemma_terminator_shift_chars(c1, c2, k + 1);
        }
    }
}

/// Parsing from inside `c2` in `c1 + c2` is parsing `c2`.
proof fn lemma_parse_shift(c1: Seq<char>, c2: Seq<char>, k: int)
    requires
        0 <= k,
    ensures
        parse_from(c1 + c2, c1.len() + k) == parse_from(c2, k),
    decreases c2.len() - k,
{
    let s = c1 + c2;
    let n = c1.len() as int;
    lemma_osc_start_shift(c1, c2, k);
    let st = find_osc_start(c2, k);
    lemma_osc_start_found(c2, k);
    if st >= 0 {
        lemma_terminator_shift_chars(c1, c2, st + 2);
        lemma_terminator_found(c2, st + 2);
        if let Some((e, l)) = find_terminator(c2, st + 2) {
            assert(s.subrange(n + st + 2, n + e) =~= c2.subrange(st + 2, e));
            if e + l > k && e + l <= c2.len() {
                lemma_parse_shift(c1, c2, e + l);
            }
        }
    }
}

/// Parsing depends on the cursor only through the introducer it finds.
proof fn lemma_parse_same_start(s: Seq<char>, a: int, b: int)
    requires
        0 <= a,
        0 <= b,
        find_osc_start(s, a) == find_osc_start(s, b),
        find_osc_start(s, a) >= 0 ==> a <= find_osc_start(s, a) && b <= find_osc_start(s, a),
    ensures
        parse_from(s, a) == parse_from(s, b),
{
    let st = find_osc_start(s, a);
    if st >= 0 {
        lemma_terminator_found(s, st + 2);
    }
}

/// Every OSC sequence the text opens it also closes, and it does not end in the middle of an
/// introducer or a terminator.
pub open spec fn closes_sequences(c: Seq<char>) -> bool {
    &&& c.len() > 0 ==> c.last() != esc()
    &&& forall|i: int| 0 <= i && i + 1 < c.len() && c[i] == esc() && c[i + 1] == ']' ==> (#[trigger] find_terminator(c, i + 2)) is Some
}

proof fn lemma_parse_concat_from(c1: Seq<char>, c2: Seq<char>, c: int)
    requires
        0 <= c <= c1.len(),
        closes_sequences(c1),
    ensures
        parse_from(c1 + c2, c) == parse_from(c1, c) + parse_from(c2, 0),
    decreases c1.len() - c,
{
    let s = c1 + c2;
    let n = c1.len() as int;
    let st = find_osc_start(c1, c);
    lemma_osc_start_found(c1, c);
    if st >= 0 {
        lemma_osc_start_prefix(c1, c2, c);
        assert(find_terminator(c1, st + 2) is Some);
        lemma_terminator_prefix(c1, c2, st + 2);
        lemma_terminator_found(c1, st + 2);
        let (e, l) = find_terminator(c1, st + 2).unwrap();
        assert(s.subrange(st + 2, e) =~= c1.subrange(st + 2, e));
        lemma_parse_concat_from(c1, c2, e + l);
        let head = match parse_body(c1.subrange(st + 2, e)) {
            Some(x) => seq![x],
            None => Seq::empty(),
        };
        assert(head + (parse_from(c1, e + l) + parse_from(c2, 0)) =~= (head + parse_from(c1, e + l)) + parse_from(c2, 0));
        assert(parse_from(c1, c) =~= head + parse_from(c1, e + l));
        assert(parse_from(s, c) =~= head + parse_from(s, e + l));
    } else {
        lemma_osc_start_skip(c1, c2, c);
        lemma_osc_start_shift(c1, c2, 0);
        lemma_osc_start_found(c2, 0);
        lemma_parse_same_start(s, c, n);
        lemma_parse_shift(c1, c2, 0);
        assert(parse_from(c1, c) =~= Seq::empty());
        assert(Seq::empty() + parse_from(c2, 0) =~= parse_from(c2, 0));
    }
}

/// Text that closes every OSC sequence it opens parses, followed by more text, into its own
/// notifications followed by those of the rest.
pub proof fn law_parse_concat(c1: Seq<char>, c2: Seq<char>)
    requires
        closes_sequences(c1),
    ensures
        parse_from(c1 + c2, 0) == parse_from(c1, 0) + parse_from(c2, 0),
{
    lemma_parse_concat_from(c1, c2, 0);
}

/// Two pieces of valid UTF-8 decode, joined, to their two decodings joined.
proof fn lemma_decode_concat(x: Seq<u8>, y: Seq<u8>)
    requires
        valid_utf8(x),
        valid_utf8(y),
    ensures
        valid_utf8(x + y),
        decode_utf8(x + y) == decode_utf8(x) + decode_utf8(y),
{
    vstd::utf8::valid_utf8_concat(x, y);
    let b = x + y;
    if y.len() == 0 {
        assert(b =~= x);
        assert(decode_utf8(x) + decode_utf8(y) =~= decode_utf8(x));
    } else {
        assert(b.subrange(0, x.len() as int) =~= x);
        assert(b.subrange(x.len() as int, b.len() as int) =~= y);
        lemma_boundary_at_join(x, y);
        vstd::utf8::decode_utf8_split(b, x.len() as int);
    }
}

proof fn lemma_boundary_at_join(x: Seq<u8>, y: Seq<u8>)
    requires
        valid_utf8(x),
        valid_utf8(y),
    ensures
        valid_utf8(x + y),
        is_char_boundary(x + y, x.len() as int),
    decreases x.len(),
{
    vstd::utf8::valid_utf8_concat(x, y);
    if x.len() > 0 {
        let rest = vstd::utf8::pop_first_scalar(x);
        assert(rest.len() < x.len()) by {
            let w = vstd::utf8::length_of_first_scalar(x);
            assert(1 <= w <= x.len());
            assert(rest.len() == x.len() - w);
        }
        lemma_boundary_at_join(rest, y);
        assert(vstd::utf8::pop_first_scalar(x + y) =~= rest + y);
    }
}

/// Cutting terminal output into two reads gives the notifications of the whole output when
/// what each read completes is valid UTF-8 and the first read's completed text closes every
/// OSC sequence it opens: the first read's notifications, then the second's, are those of
/// the whole.
pub proof fn law_split_reads_give_same_notifications(a: Seq<u8>, b: Seq<u8>)
    requires
        valid_utf8(complete_part(a)),
        valid_utf8(complete_part(waiting_part(a) + b)),
        closes_sequences(decode_utf8(complete_part(a))),
    ensures
        valid_utf8(complete_part(a + b)),
        parse_from(decode_utf8(complete_part(a)), 0) + parse_from(decode_utf8(complete_part(waiting_part(a) + b)), 0)
            == parse_from(decode_utf8(complete_part(a + b)), 0),
{
    let x = complete_part(a);
    let y = complete_part(waiting_part(a) + b);
    law_split_reads_pass_same_bytes(a, b);
    lemma_decode_concat(x, y);
    law_parse_concat(decode_utf8(x), decode_utf8(y));
}

} // verus!
