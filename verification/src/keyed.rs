//! Sequences of records that are told apart by a key.

use vstd::prelude::*;

verus! {

/// Some record of `s` has the key `k`.
pub open spec fn has_key<T, K>(s: Seq<T>, key: spec_fn(T) -> K, k: K) -> bool {
    exists|i: int| 0 <= i < s.len() && key(#[trigger] s[i]) == k
}

/// No two records of `s` have the same key.
pub open spec fn keys_distinct<T, K>(s: Seq<T>, key: spec_fn(T) -> K) -> bool {
    forall|i: int, j: int| 0 <= i < j < s.len() ==> key(#[trigger] s[i]) != key(#[trigger] s[j])
}

/// Filtering keeps keys distinct, and invents no key.
pub proof fn lemma_filter_keys<T, K>(s: Seq<T>, key: spec_fn(T) -> K, p: spec_fn(T) -> bool)
    ensures
        keys_distinct(s, key) ==> keys_distinct(s.filter(p), key),
        forall|k: K| #[trigger] has_key(s.filter(p), key, k) ==> has_key(s, key, k),
    decreases s.len(),
{
    reveal(Seq::filter);
    if s.len() > 0 {
        let front = s.drop_last();
        let ff = front.filter(p);
        let f = s.filter(p);
        lemma_filter_keys(front, key, p);
        assert forall|k: K| #[trigger] has_key(f, key, k) implies has_key(s, key, k) by {
            let i = choose|i: int| 0 <= i < f.len() && key(#[trigger] f[i]) == k;
            if i < ff.len() {
                assert(key(ff[i]) == k);
                assert(has_key(ff, key, k));
                assert(has_key(front, key, k));
                let j = choose|j: int| 0 <= j < front.len() && key(#[trigger] front[j]) == k;
                assert(key(s[j]) == k);
            } else {
                assert(key(s[s.len() - 1]) == k);
            }
        }
        if keys_distinct(s, key) {
            assert(keys_distinct(front, key)) by {
                assert forall|i: int, j: int| 0 <= i < j < front.len() implies key(
                    #[trigger] front[i],
                ) != key(#[trigger] front[j]) by {
                    assert(key(s[i]) != key(s[j]));
                }
            }
            assert forall|i: int, j: int| 0 <= i < j < f.len() implies key(#[trigger] f[i]) != key(
                #[trigger] f[j],
            ) by {
                if j < ff.len() {
                    assert(key(ff[i]) != key(ff[j]));
                } else {
                    assert(f == ff.push(s.last()));
                    assert(key(ff[i]) == key(f[i]));
                    assert(has_key(ff, key, key(f[i])));
                    assert(has_key(front, key, key(f[i])));
                    let k = choose|k: int|
                        0 <= k < front.len() && key(#[trigger] front[k]) == key(f[i]);
                    assert(front[k] == s[k]);
                    assert(key(s[k]) != key(s[s.len() - 1]));
                }
            }
        }
    }
}

/// Every record of a filtered sequence passes the filter and stands in the
/// sequence it was taken from, and every record that passes is kept.
pub proof fn lemma_filter_members<T>(s: Seq<T>, p: spec_fn(T) -> bool)
    ensures
        forall|x: T| #[trigger] s.filter(p).contains(x) <==> s.contains(x) && p(x),
    decreases s.len(),
{
    reveal(Seq::filter);
    if s.len() > 0 {
        let front = s.drop_last();
        let ff = front.filter(p);
        let f = s.filter(p);
        lemma_filter_members(front, p);
        assert forall|x: T| #[trigger] f.contains(x) <==> s.contains(x) && p(x) by {
            if f.contains(x) {
                let i = choose|i: int| 0 <= i < f.len() && f[i] == x;
                if i < ff.len() {
                    assert(ff[i] == x);
                    assert(ff.contains(x));
                    assert(front.contains(x));
                    let j = choose|j: int| 0 <= j < front.len() && front[j] == x;
                    assert(s[j] == x);
                } else {
                    assert(s[s.len() - 1] == x);
                }
            }
            if s.contains(x) && p(x) {
                let j = choose|j: int| 0 <= j < s.len() && s[j] == x;
                if j < front.len() {
                    assert(front[j] == x);
                    assert(front.contains(x));
                    assert(ff.contains(x));
                    let i = choose|i: int| 0 <= i < ff.len() && ff[i] == x;
                    assert(f[i] == x);
                } else {
                    assert(f == ff.push(x));
                    assert(f[f.len() - 1] == x);
                }
            }
        }
    }
}

/// A filter that every record passes keeps the sequence, and one that no
/// record passes leaves nothing.
pub proof fn lemma_filter_all_or_none<T>(s: Seq<T>, p: spec_fn(T) -> bool)
    ensures
        (forall|i: int| 0 <= i < s.len() ==> p(#[trigger] s[i])) ==> s.filter(p) == s,
        (forall|i: int| 0 <= i < s.len() ==> !p(#[trigger] s[i])) ==> s.filter(p).len() == 0,
    decreases s.len(),
{
    reveal(Seq::filter);
    if s.len() > 0 {
        let front = s.drop_last();
        lemma_filter_all_or_none(front, p);
        if forall|i: int| 0 <= i < s.len() ==> p(#[trigger] s[i]) {
            assert forall|i: int| 0 <= i < front.len() implies p(#[trigger] front[i]) by {
                assert(p(s[i]));
            }
            assert(p(s[s.len() - 1]));
            assert(front.push(s.last()) =~= s);
        }
        if forall|i: int| 0 <= i < s.len() ==> !p(#[trigger] s[i]) {
            assert forall|i: int| 0 <= i < front.len() implies !p(#[trigger] front[i]) by {
                assert(!p(s[i]));
            }
            assert(!p(s[s.len() - 1]));
        }
    }
}

/// Filtering by `p` and then by `q` is filtering by any `r` that holds
/// exactly where both hold.
pub proof fn lemma_filter_twice<T>(
    s: Seq<T>,
    p: spec_fn(T) -> bool,
    q: spec_fn(T) -> bool,
    r: spec_fn(T) -> bool,
)
    requires
        forall|x: T| #[trigger] r(x) == (p(x) && q(x)),
    ensures
        s.filter(p).filter(q) == s.filter(r),
    decreases s.len(),
{
    reveal(Seq::filter);
    if s.len() > 0 {
        let front = s.drop_last();
        let x = s.last();
        lemma_filter_twice(front, p, q, r);
        assert(r(x) == (p(x) && q(x)));
        if p(x) {
            front.filter(p).lemma_filter_push(x, q);
        }
    }
}

} // verus!
