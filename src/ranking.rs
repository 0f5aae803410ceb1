//! Stable ranking by a descending key: the specification shared by the
//! snippet list and the index's result list.
use vstd::prelude::*;

verus! {

/// Inserts `x` into a list ranked by descending key, after every element
/// whose key is at least as high (earlier elements win ties).
pub open spec fn ranked_insert<T>(s: Seq<T>, x: T, key: spec_fn(T) -> int) -> Seq<T>
    decreases s.len(),
{
    if s.len() == 0 {
        seq![x]
    } else if key(s[0]) < key(x) {
        seq![x] + s
    } else {
        seq![s[0]] + ranked_insert(s.drop_first(), x, key)
    }
}

/// A stable ranking by descending key.
pub open spec fn ranked<T>(s: Seq<T>, key: spec_fn(T) -> int) -> Seq<T>
    decreases s.len(),
{
    if s.len() == 0 {
        seq![]
    } else {
        ranked_insert(ranked(s.drop_last(), key), s.last(), key)
    }
}

/// Keys never increase along the list.
pub open spec fn sorted_by_key<T>(s: Seq<T>, key: spec_fn(T) -> int) -> bool {
    forall|i: int, j: int| 0 <= i < j < s.len() ==> key(s[i]) >= key(s[j])
}

/// The position at which `ranked_insert` puts `x`.
pub open spec fn insert_position<T>(s: Seq<T>, x: T, key: spec_fn(T) -> int) -> int
    decreases s.len(),
{
    if s.len() == 0 {
        0
    } else if key(s[0]) < key(x) {
        0
    } else {
        1 + insert_position(s.drop_first(), x, key)
    }
}

pub proof fn lemma_ranked_insert_shape<T>(s: Seq<T>, x: T, key: spec_fn(T) -> int)
    ensures
        0 <= insert_position(s, x, key) <= s.len(),
        ranked_insert(s, x, key) == s.take(insert_position(s, x, key)) + seq![x] + s.skip(
            insert_position(s, x, key),
        ),
        forall|j: int| 0 <= j < insert_position(s, x, key) ==> key(s[j]) >= key(x),
        insert_position(s, x, key) < s.len() ==> key(s[insert_position(s, x, key)]) < key(x),
    decreases s.len(),
{
    if s.len() > 0 && key(s[0]) >= key(x) {
        let t = s.drop_first();
        lemma_ranked_insert_shape(t, x, key);
        let p = insert_position(t, x, key);
        assert(s.take(p + 1) == seq![s[0]] + t.take(p));
        assert(s.skip(p + 1) == t.skip(p));
        assert forall|j: int| 0 <= j < p + 1 implies key(s[j]) >= key(x) by {
            if j > 0 {
                assert(s[j] == t[j - 1]);
            }
        }
    } else if s.len() > 0 {
        assert(s.take(0) + seq![x] + s.skip(0) == seq![x] + s);
    } else {
        assert(s.take(0) + seq![x] + s.skip(0) == seq![x]);
    }
}

pub proof fn lemma_ranked_insert_sorted<T>(s: Seq<T>, x: T, key: spec_fn(T) -> int)
    requires
        sorted_by_key(s, key),
    ensures
        sorted_by_key(ranked_insert(s, x, key), key),
        ranked_insert(s, x, key).len() == s.len() + 1,
{
    lemma_ranked_insert_shape(s, x, key);
    let p = insert_position(s, x, key);
    let r = ranked_insert(s, x, key);
    assert forall|i: int, j: int| 0 <= i < j < r.len() implies key(r[i]) >= key(r[j]) by {
        if j < p {
            assert(r[i] == s[i] && r[j] == s[j]);
        } else if j == p {
            assert(r[j] == x);
            assert(r[i] == s[i]);
        } else if i < p {
            assert(r[i] == s[i] && r[j] == s[j - 1]);
        } else if i == p {
            assert(r[i] == x && r[j] == s[j - 1]);
        } else {
            assert(r[i] == s[i - 1] && r[j] == s[j - 1]);
        }
    }
}

pub proof fn lemma_ranked_sorted<T>(s: Seq<T>, key: spec_fn(T) -> int)
    ensures
        sorted_by_key(ranked(s, key), key),
        ranked(s, key).len() == s.len(),
    decreases s.len(),
{
    if s.len() > 0 {
        lemma_ranked_sorted(s.drop_last(), key);
        lemma_ranked_insert_sorted(ranked(s.drop_last(), key), s.last(), key);
    }
}

/// A value ranked by an integer key, which can be copied.
pub trait Ranked: View + Sized {
    /// The key of a value, from its view.
    spec fn key_of(v: Self::V) -> int;

    /// The key of this value.
    fn rank_key(&self) -> (r: i64)
        ensures
            r as int == Self::key_of(self@);

    /// A copy of this value.
    fn duplicate(&self) -> (r: Self)
        ensures
            r@ == self@;
}

/// The ranking key of `T`, as a function of views.
pub open spec fn key_fn<T: Ranked>() -> spec_fn(T::V) -> int {
    |v: T::V| T::key_of(v)
}

/// The views of a list.
pub open spec fn views_of<T: View>(v: Seq<T>) -> Seq<T::V> {
    v.map_values(|t: T| t@)
}

/// Inserts `x` into `v` at its ranked position.
pub fn insert_ranked<T: Ranked>(v: &mut Vec<T>, x: T)
    ensures
        views_of(final(v)@) == ranked_insert(views_of(old(v)@), x@, key_fn::<T>()),
{
    let ghost s = views_of(v@);
    let ghost key = key_fn::<T>();
    proof {
        lemma_ranked_insert_shape(s, x@, key);
    }
    let k = x.rank_key();
    let mut pos: usize = 0;
    while pos < v.len() && v[pos].rank_key() >= k
        invariant
            pos <= v.len(),
            s == views_of(v@),
            key == key_fn::<T>(),
            k == key(x@),
            s.len() == v.len(),
            forall|j: int| 0 <= j < v.len() ==> (#[trigger] s[j]) == v@[j]@,
            forall|j: int| 0 <= j < pos ==> key(s[j]) >= k,
            pos <= insert_position(s, x@, key),
            forall|j: int| 0 <= j < insert_position(s, x@, key) ==> key(s[j]) >= key(x@),
            insert_position(s, x@, key) <= s.len(),
            insert_position(s, x@, key) < s.len() ==> key(s[insert_position(s, x@, key)]) < key(
                x@,
            ),
        decreases v.len() - pos,
    {
        pos = pos + 1;
    }
    proof {
        if pos < insert_position(s, x@, key) {
            assert(key(s[pos as int]) >= key(x@));
            assert(s[pos as int] == v@[pos as int]@);
        }
    }
    let ghost xv = x@;
    v.insert(pos, x);
    assert(views_of(v@) =~= s.take(pos as int) + seq![xv] + s.skip(pos as int));
}

/// Ranks a list by descending key; values of equal key keep their order.
pub fn rank_all<T: Ranked>(items: &Vec<T>) -> (r: Vec<T>)
    ensures
        views_of(r@) == ranked(views_of(items@), key_fn::<T>()),
{
    let ghost all = views_of(items@);
    let mut r: Vec<T> = Vec::new();
    for i in 0..items.len()
        invariant
            all == views_of(items@),
            views_of(r@) == ranked(all.take(i as int), key_fn::<T>()),
    {
        proof {
            let t = all.take(i + 1);
            assert(t.drop_last() == all.take(i as int));
            assert(t.last() == items@[i as int]@);
        }
        insert_ranked(&mut r, items[i].duplicate());
    }
    assert(all.take(items.len() as int) == all);
    r
}

} // verus!
