use vstd::prelude::*;

verus! {

/// Index of the first element of `s` that satisfies `p`, or -1 when none does.
pub open spec fn first_where<T>(s: Seq<T>, p: spec_fn(T) -> bool) -> int
    decreases s.len(),
{
    if s.len() == 0 {
        -1
    } else if p(s[0]) {
        0
    } else {
        let r = first_where(s.drop_first(), p);
        if r < 0 {
            -1
        } else {
            r + 1
        }
    }
}

/// The element with the greatest key, the last one among equals
/// (the element `Iterator::max_by_key` picks), or `None` for an empty sequence.
pub open spec fn last_max_by<T>(s: Seq<T>, key: spec_fn(T) -> int) -> Option<T>
    decreases s.len(),
{
    if s.len() == 0 {
        None
    } else {
        let prev = last_max_by(s.drop_last(), key);
        match prev {
            None => Some(s.last()),
            Some(p) => if key(s.last()) >= key(p) {
                Some(s.last())
            } else {
                prev
            },
        }
    }
}

pub proof fn lemma_first_where_found<T>(s: Seq<T>, p: spec_fn(T) -> bool, i: int)
    requires
        0 <= i < s.len(),
        p(s[i]),
        forall|j: int| 0 <= j < i ==> !p(#[trigger] s[j]),
    ensures
        first_where(s, p) == i,
    decreases i,
{
    if i > 0 {
        assert(!p(s[0]));
        let t = s.drop_first();
        assert forall|j: int| 0 <= j < i - 1 implies !p(#[trigger] t[j]) by {
            assert(t[j] == s[j + 1]);
        }
        lemma_first_where_found(t, p, i - 1);
    }
}

pub proof fn lemma_first_where_absent<T>(s: Seq<T>, p: spec_fn(T) -> bool)
    requires
        forall|j: int| 0 <= j < s.len() ==> !p(#[trigger] s[j]),
    ensures
        first_where(s, p) == -1,
    decreases s.len(),
{
    if s.len() > 0 {
        assert(!p(s[0]));
        let t = s.drop_first();
        assert forall|j: int| 0 <= j < t.len() implies !p(#[trigger] t[j]) by {
            assert(t[j] == s[j + 1]);
        }
        lemma_first_where_absent(t, p);
    }
}

/// What `first_where` returns: -1 exactly when nothing matches, otherwise the first match.
pub proof fn lemma_first_where_spec<T>(s: Seq<T>, p: spec_fn(T) -> bool)
    ensures
        -1 <= first_where(s, p) < s.len(),
        first_where(s, p) == -1 <==> forall|j: int| 0 <= j < s.len() ==> !p(#[trigger] s[j]),
        first_where(s, p) >= 0 ==> p(s[first_where(s, p)]) && forall|j: int|
            0 <= j < first_where(s, p) ==> !p(#[trigger] s[j]),
    decreases s.len(),
{
    if s.len() > 0 {
        let t = s.drop_first();
        lemma_first_where_spec(t, p);
        if !p(s[0]) {
            assert forall|j: int| 0 <= j < t.len() implies t[j] == s[j + 1] by {}
            if first_where(t, p) == -1 {
                assert forall|j: int| 0 <= j < s.len() implies !p(#[trigger] s[j]) by {
                    if j > 0 {
                        assert(t[j - 1] == s[j]);
                    }
                }
            } else {
                let r = first_where(t, p);
                assert forall|j: int| 0 <= j < r + 1 implies !p(#[trigger] s[j]) by {
                    if j > 0 {
                        assert(t[j - 1] == s[j]);
                    }
                }
            }
        }
    }
}

/// The element `last_max_by` picks is in the sequence and no element has a greater key.
pub proof fn lemma_last_max_by_is_max<T>(s: Seq<T>, key: spec_fn(T) -> int)
    ensures
        last_max_by(s, key) is None <==> s.len() == 0,
        last_max_by(s, key) matches Some(m) ==> s.contains(m) && forall|j: int|
            0 <= j < s.len() ==> key(#[trigger] s[j]) <= key(m),
    decreases s.len(),
{
    if s.len() > 0 {
        let t = s.drop_last();
        lemma_last_max_by_is_max(t, key);
        assert forall|j: int| 0 <= j < t.len() implies t[j] == s[j] by {}
        match last_max_by(t, key) {
            None => {
                assert(s.len() == 1);
                assert(s[0] == s.last());
            },
            Some(p) => {
                let k = choose|k: int| 0 <= k < t.len() && t[k] == p;
                assert(s[k] == p);
                assert(s[s.len() - 1] == s.last());
            },
        }
    }
}


/// One step of `max_by_key`: the new element wins ties.
pub open spec fn max_step<T>(acc: Option<T>, x: T, key: spec_fn(T) -> int) -> Option<T> {
    match acc {
        None => Some(x),
        Some(p) => if key(x) >= key(p) {
            Some(x)
        } else {
            Some(p)
        },
    }
}

/// `last_max_by` continued from an accumulator.
pub open spec fn fold_max<T>(acc: Option<T>, s: Seq<T>, key: spec_fn(T) -> int) -> Option<T>
    decreases s.len(),
{
    if s.len() == 0 {
        acc
    } else {
        max_step(fold_max(acc, s.drop_last(), key), s.last(), key)
    }
}

pub proof fn lemma_fold_max_from_none<T>(s: Seq<T>, key: spec_fn(T) -> int)
    ensures
        fold_max(None, s, key) == last_max_by(s, key),
    decreases s.len(),
{
    if s.len() > 0 {
        lemma_fold_max_from_none(s.drop_last(), key);
    }
}

pub proof fn lemma_fold_max_push<T>(acc: Option<T>, s: Seq<T>, x: T, key: spec_fn(T) -> int)
    ensures
        fold_max(acc, s.push(x), key) == max_step(fold_max(acc, s, key), x, key),
{
    assert(s.push(x).drop_last() =~= s);
}

pub proof fn lemma_fold_max_concat<T>(acc: Option<T>, a: Seq<T>, b: Seq<T>, key: spec_fn(T) -> int)
    ensures
        fold_max(acc, a + b, key) == fold_max(fold_max(acc, a, key), b, key),
    decreases b.len(),
{
    if b.len() == 0 {
        assert(a + b =~= a);
    } else {
        lemma_fold_max_concat(acc, a, b.drop_last(), key);
        assert((a + b).drop_last() =~= a + b.drop_last());
        assert((a + b).last() == b.last());
    }
}

} // verus!
