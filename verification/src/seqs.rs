//! Sequence facts used by the collection-editing code.
use vstd::prelude::*;

verus! {

/// `i` is the first position of `s` whose element satisfies `p`.
pub open spec fn is_first_index<T>(s: Seq<T>, p: spec_fn(T) -> bool, i: int) -> bool {
    &&& 0 <= i < s.len()
    &&& p(s[i])
    &&& forall|j: int| 0 <= j < i ==> !p(#[trigger] s[j])
}

/// First position of `s` whose element satisfies `p`, or -1 when none does.
pub open spec fn first_index<T>(s: Seq<T>, p: spec_fn(T) -> bool) -> int {
    if exists|i: int| is_first_index(s, p, i) {
        choose|i: int| is_first_index(s, p, i)
    } else {
        -1
    }
}

/// The first matching position is unique.
pub proof fn lemma_first_index_is<T>(s: Seq<T>, p: spec_fn(T) -> bool, i: int)
    requires
        is_first_index(s, p, i),
    ensures
        first_index(s, p) == i,
{
    let k = choose|k: int| is_first_index(s, p, k);
    if k < i {
        assert(!p(s[k]));
    } else if i < k {
        assert(!p(s[i]));
    }
}

/// With no matching element, `first_index` is -1.
pub proof fn lemma_first_index_none<T>(s: Seq<T>, p: spec_fn(T) -> bool)
    requires
        forall|j: int| 0 <= j < s.len() ==> !p(#[trigger] s[j]),
    ensures
        first_index(s, p) == -1,
{
    if exists|i: int| is_first_index(s, p, i) {
        let k = choose|i: int| is_first_index(s, p, i);
        assert(p(s[k]));
    }
}

/// A matching element guarantees a first matching position.
pub proof fn lemma_first_index_exists<T>(s: Seq<T>, p: spec_fn(T) -> bool, j: int)
    requires
        0 <= j < s.len(),
        p(s[j]),
    ensures
        exists|i: int| is_first_index(s, p, i),
    decreases j,
{
    if exists|m: int| 0 <= m < j && p(#[trigger] s[m]) {
        let m = choose|m: int| 0 <= m < j && p(#[trigger] s[m]);
        lemma_first_index_exists(s, p, m);
    } else {
        assert(is_first_index(s, p, j));
    }
}

/// Either `first_index` is -1 and nothing matches, or it is a first match.
pub proof fn lemma_first_index_cases<T>(s: Seq<T>, p: spec_fn(T) -> bool)
    ensures
        first_index(s, p) == -1 ==> forall|j: int| 0 <= j < s.len() ==> !p(#[trigger] s[j]),
        first_index(s, p) != -1 ==> is_first_index(s, p, first_index(s, p)),
{
    if exists|i: int| is_first_index(s, p, i) {
        let k = choose|i: int| is_first_index(s, p, i);
        assert(k != -1);
    } else {
        assert forall|j: int| 0 <= j < s.len() implies !p(#[trigger] s[j]) by {
            if p(s[j]) {
                lemma_first_index_exists(s, p, j);
            }
        }
    }
}

/// First matching position after pushing `x`: the old one, else `x`'s
/// position when it matches, else -1.
pub proof fn lemma_first_index_push<T>(s: Seq<T>, p: spec_fn(T) -> bool, x: T)
    ensures
        first_index(s.push(x), p) == if first_index(s, p) >= 0 {
            first_index(s, p)
        } else if p(x) {
            s.len() as int
        } else {
            -1
        },
{
    lemma_first_index_cases(s, p);
    let t = s.push(x);
    let k = first_index(s, p);
    if k >= 0 {
        assert(is_first_index(t, p, k));
        lemma_first_index_is(t, p, k);
    } else if p(x) {
        assert(is_first_index(t, p, s.len() as int));
        lemma_first_index_is(t, p, s.len() as int);
    } else {
        assert forall|j: int| 0 <= j < t.len() implies !p(#[trigger] t[j]) by {
            if j < s.len() {
                assert(t[j] == s[j]);
            }
        }
        lemma_first_index_none(t, p);
    }
}

/// `i` is the last position of `s` whose element satisfies `p`.
pub open spec fn is_last_index<T>(s: Seq<T>, p: spec_fn(T) -> bool, i: int) -> bool {
    &&& 0 <= i < s.len()
    &&& p(s[i])
    &&& forall|j: int| i < j < s.len() ==> !p(#[trigger] s[j])
}

/// Last position of `s` whose element satisfies `p`, or -1 when none does.
pub open spec fn last_index<T>(s: Seq<T>, p: spec_fn(T) -> bool) -> int {
    if exists|i: int| is_last_index(s, p, i) {
        choose|i: int| is_last_index(s, p, i)
    } else {
        -1
    }
}

/// The last matching position is unique.
pub proof fn lemma_last_index_is<T>(s: Seq<T>, p: spec_fn(T) -> bool, i: int)
    requires
        is_last_index(s, p, i),
    ensures
        last_index(s, p) == i,
{
    let k = choose|k: int| is_last_index(s, p, k);
    if k < i {
        assert(!p(s[i]));
    } else if i < k {
        assert(!p(s[k]));
    }
}

/// With no matching element, `last_index` is -1.
pub proof fn lemma_last_index_none<T>(s: Seq<T>, p: spec_fn(T) -> bool)
    requires
        forall|j: int| 0 <= j < s.len() ==> !p(#[trigger] s[j]),
    ensures
        last_index(s, p) == -1,
{
    if exists|i: int| is_last_index(s, p, i) {
        let k = choose|i: int| is_last_index(s, p, i);
        assert(p(s[k]));
    }
}

/// Extending a prefix by one element extends its filter by that element when
/// it passes.
pub proof fn lemma_filter_take_step<T>(s: Seq<T>, p: spec_fn(T) -> bool, i: int)
    requires
        0 <= i < s.len(),
    ensures
        s.take(i + 1).filter(p) == (if p(s[i]) {
            s.take(i).filter(p).push(s[i])
        } else {
            s.take(i).filter(p)
        }),
{
    reveal_with_fuel(Seq::filter, 1);
    assert(s.take(i + 1).drop_last() =~= s.take(i));
    assert(s.take(i + 1).last() == s[i]);
}

/// The filter of the empty prefix is empty.
pub proof fn lemma_filter_take_zero<T>(s: Seq<T>, p: spec_fn(T) -> bool)
    ensures
        s.take(0).filter(p) == Seq::<T>::empty(),
{
    reveal_with_fuel(Seq::filter, 1);
    assert(s.take(0) =~= Seq::<T>::empty());
}

/// Filtering a whole sequence through its full prefix.
pub proof fn lemma_take_full<T>(s: Seq<T>)
    ensures
        s.take(s.len() as int) == s,
{
    assert(s.take(s.len() as int) =~= s);
}

/// Filtering keeps everything when every element passes.
pub proof fn lemma_filter_all<T>(s: Seq<T>, p: spec_fn(T) -> bool)
    requires
        forall|i: int| 0 <= i < s.len() ==> p(#[trigger] s[i]),
    ensures
        s.filter(p) == s,
    decreases s.len(),
{
    reveal_with_fuel(Seq::filter, 1);
    if s.len() > 0 {
        lemma_filter_all(s.drop_last(), p);
        assert(s.drop_last().push(s.last()) =~= s);
    } else {
        assert(s.filter(p) =~= s);
    }
}

/// Every element of a filter satisfies whatever every element of the
/// filtered sequence satisfies.
pub proof fn lemma_filter_keeps<T>(s: Seq<T>, p: spec_fn(T) -> bool, q: spec_fn(T) -> bool)
    requires
        forall|i: int| 0 <= i < s.len() ==> q(#[trigger] s[i]),
    ensures
        forall|i: int| 0 <= i < s.filter(p).len() ==> q(#[trigger] s.filter(p)[i]),
    decreases s.len(),
{
    reveal_with_fuel(Seq::filter, 1);
    if s.len() > 0 {
        let d = s.drop_last();
        assert forall|i: int| 0 <= i < d.len() implies q(#[trigger] d[i]) by {
            assert(d[i] == s[i]);
        }
        lemma_filter_keeps(d, p, q);
        assert(q(s[s.len() - 1]));
        let f = s.filter(p);
        assert forall|i: int| 0 <= i < f.len() implies q(#[trigger] f[i]) by {
            if i < d.filter(p).len() {
                assert(f[i] == d.filter(p)[i]);
            } else {
                assert(f[i] == s.last());
            }
        }
    }
}

/// Replaces the element at `i`.
pub fn vec_replace<T>(v: &mut Vec<T>, i: usize, x: T)
    requires
        i < old(v).len(),
    ensures
        final(v)@ == old(v)@.update(i as int, x),
{
    v[i] = x;
}

} // verus!
