//! Stable sorting by an integer key.
//!
//! `stable_sorted(s)` is the insertion-sort formulation of a stable sort:
//! each element goes after every element already placed whose key is not
//! greater than its own. The exec sort below computes exactly that.

use vstd::prelude::*;

verus! {

/// Position at which an element with key `key` is inserted into `s`: before
/// the first element with a strictly greater key.
pub open spec fn insert_pos<T>(s: Seq<(T, u64)>, key: u64) -> nat
    decreases s.len(),
{
    if s.len() == 0 {
        0
    } else if s[0].1 > key {
        0
    } else {
        1 + insert_pos(s.drop_first(), key)
    }
}

/// `s` with `x` inserted after every element whose key is at most `x`'s.
pub open spec fn insert_sorted<T>(s: Seq<(T, u64)>, x: (T, u64)) -> Seq<(T, u64)> {
    s.insert(insert_pos(s, x.1) as int, x)
}

/// Stable sort of `s` by the second component, ascending.
pub open spec fn stable_sorted<T>(s: Seq<(T, u64)>) -> Seq<(T, u64)>
    decreases s.len(),
{
    if s.len() == 0 {
        Seq::empty()
    } else {
        insert_sorted(stable_sorted(s.drop_last()), s.last())
    }
}

/// Keys ascend along `s`.
pub open spec fn keys_ascending<T>(s: Seq<(T, u64)>) -> bool {
    forall|i: int, j: int| 0 <= i < j < s.len() ==> s[i].1 <= s[j].1
}

pub proof fn lemma_insert_pos_bound<T>(s: Seq<(T, u64)>, key: u64)
    ensures
        insert_pos(s, key) <= s.len(),
    decreases s.len(),
{
    if s.len() > 0 && s[0].1 <= key {
        lemma_insert_pos_bound(s.drop_first(), key);
    }
}

proof fn lemma_insert_pos_split<T>(s: Seq<(T, u64)>, key: u64, i: int)
    requires
        0 <= i <= s.len(),
        forall|k: int| 0 <= k < i ==> s[k].1 <= key,
    ensures
        insert_pos(s, key) == i + insert_pos(s.subrange(i, s.len() as int), key),
    decreases i,
{
    if i > 0 {
        assert(s.drop_first().subrange(i - 1, s.drop_first().len() as int) =~= s.subrange(
            i,
            s.len() as int,
        ));
        lemma_insert_pos_split(s.drop_first(), key, i - 1);
    } else {
        assert(s.subrange(0, s.len() as int) =~= s);
    }
}

pub proof fn lemma_stable_sorted_len<T>(s: Seq<(T, u64)>)
    ensures
        stable_sorted(s).len() == s.len(),
    decreases s.len(),
{
    if s.len() > 0 {
        lemma_stable_sorted_len(s.drop_last());
        lemma_insert_pos_bound(stable_sorted(s.drop_last()), s.last().1);
    }
}

/// Sorting keeps the length, and every element of the result comes from the input.
pub proof fn lemma_sorted_members<T>(s: Seq<(T, u64)>)
    ensures
        stable_sorted(s).len() == s.len(),
        forall|j: int| 0 <= j < stable_sorted(s).len() ==> s.contains(#[trigger] stable_sorted(s)[j]),
    decreases s.len(),
{
    lemma_stable_sorted_len(s);
    if s.len() > 0 {
        let prev = stable_sorted(s.drop_last());
        lemma_sorted_members(s.drop_last());
        lemma_insert_pos_bound(prev, s.last().1);
        let p = insert_pos(prev, s.last().1) as int;
        assert forall|j: int| 0 <= j < stable_sorted(s).len() implies s.contains(#[trigger] stable_sorted(s)[j]) by {
            if j < p {
                assert(stable_sorted(s)[j] == prev[j]);
                let w = choose|w: int| 0 <= w < s.drop_last().len() && s.drop_last()[w] == prev[j];
                assert(s[w] == prev[j]);
            } else if j == p {
                assert(s[s.len() - 1] == s.last());
            } else {
                assert(stable_sorted(s)[j] == prev[j - 1]);
                let w = choose|w: int| 0 <= w < s.drop_last().len() && s.drop_last()[w] == prev[j - 1];
                assert(s[w] == prev[j - 1]);
            }
        }
    }
}

proof fn lemma_insert_pos_props<T>(s: Seq<(T, u64)>, key: u64)
    ensures
        forall|k: int| 0 <= k < insert_pos(s, key) ==> #[trigger] s[k].1 <= key,
        insert_pos(s, key) < s.len() ==> s[insert_pos(s, key) as int].1 > key,
    decreases s.len(),
{
    lemma_insert_pos_bound(s, key);
    if s.len() > 0 && s[0].1 <= key {
        lemma_insert_pos_props(s.drop_first(), key);
        assert forall|k: int| 0 <= k < insert_pos(s, key) implies #[trigger] s[k].1 <= key by {
            if k > 0 {
                assert(s[k] == s.drop_first()[k - 1]);
            }
        }
        if insert_pos(s, key) < s.len() {
            assert(s[insert_pos(s, key) as int] == s.drop_first()[insert_pos(s.drop_first(), key) as int]);
        }
    }
}

/// A stable sort orders its result by key: keys ascend along it.
pub proof fn lemma_stable_sorted_ascending<T>(s: Seq<(T, u64)>)
    ensures
        keys_ascending(stable_sorted(s)),
    decreases s.len(),
{
    if s.len() > 0 {
        let prev = stable_sorted(s.drop_last());
        let x = s.last();
        lemma_stable_sorted_ascending(s.drop_last());
        lemma_insert_pos_props(prev, x.1);
        lemma_insert_pos_bound(prev, x.1);
        let p = insert_pos(prev, x.1) as int;
        let r = stable_sorted(s);
        assert(r == prev.insert(p, x));
        assert forall|i: int, j: int| 0 <= i < j < r.len() implies r[i].1 <= r[j].1 by {
            if j < p {
                assert(r[i] == prev[i] && r[j] == prev[j]);
            } else if j == p {
                assert(r[i] == prev[i]);
            } else if i < p {
                assert(r[i] == prev[i] && r[j] == prev[j - 1]);
            } else if i == p {
                assert(r[j] == prev[j - 1]);
                assert(prev[p].1 > x.1);
                assert(prev[p].1 <= prev[j - 1].1);
            } else {
                assert(r[i] == prev[i - 1] && r[j] == prev[j - 1]);
            }
        }
    }
}

/// Insert `x` into `v` at its stable position.
fn insert_in_order<T>(v: &mut Vec<(T, u64)>, x: (T, u64))
    ensures
        final(v)@ == insert_sorted(old(v)@, x),
{
    let mut i: usize = 0;
    while i < v.len() && v[i].1 <= x.1
        invariant
            i <= v@.len(),
            v@ == old(v)@,
            forall|k: int| 0 <= k < i ==> v@[k].1 <= x.1,
        decreases v@.len() - i,
    {
        i = i + 1;
    }
    proof {
        lemma_insert_pos_split(v@, x.1, i as int);
        let rest = v@.subrange(i as int, v@.len() as int);
        if rest.len() > 0 {
            assert(rest[0] == v@[i as int]);
        }
    }
    v.insert(i, x);
}

/// Stable sort by the second component, ascending.
pub fn stable_sort<T>(v: Vec<(T, u64)>) -> (r: Vec<(T, u64)>)
    ensures
        r@ == stable_sorted(v@),
{
    let ghost orig = v@;
    let mut front = v;
    let mut src: Vec<(T, u64)> = Vec::new();
    while front.len() > 0
        invariant
            src@.len() + front@.len() == orig.len(),
            front@ == orig.subrange(0, front@.len() as int),
            forall|k: int| 0 <= k < src@.len() ==> src@[k] == orig[orig.len() - 1 - k],
        decreases front@.len(),
    {
        let y = front.pop().unwrap();
        src.push(y);
    }
    let mut out: Vec<(T, u64)> = Vec::new();
    let mut taken: usize = 0;
    let total = src.len();
    assert(orig.subrange(0, 0) =~= Seq::<(T, u64)>::empty());
    while src.len() > 0
        invariant
            total == orig.len(),
            taken + src@.len() == orig.len(),
            forall|k: int| 0 <= k < src@.len() ==> src@[k] == orig[orig.len() - 1 - k],
            out@ == stable_sorted(orig.subrange(0, taken as int)),
        decreases src@.len(),
    {
        let x = src.pop().unwrap();
        proof {
            assert(x == orig[taken as int]);
            assert(orig.subrange(0, taken + 1).drop_last() =~= orig.subrange(0, taken as int));
        }
        insert_in_order(&mut out, x);
        taken = taken + 1;
    }
    assert(orig.subrange(0, orig.len() as int) =~= orig);
    out
}

} // verus!
