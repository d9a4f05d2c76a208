//! Stable ordering of items by a text key, compared character by character.

use vstd::prelude::*;

verus! {

broadcast use vstd::seq_lib::group_to_multiset_ensures;

/// An item together with the text it is ordered by.
pub struct Keyed<T> {
    pub key: Vec<char>,
    pub item: T,
}

/// The key and item of each element, as plain values.
pub open spec fn keyed_view<T>(s: Seq<Keyed<T>>) -> Seq<(Seq<char>, T)> {
    s.map_values(|k: Keyed<T>| (k.key@, k.item))
}

/// Strict lexicographic order on character sequences, comparing code points;
/// this is the order of `String`'s `Ord`, which compares UTF-8 bytes.
pub open spec fn key_lt(a: Seq<char>, b: Seq<char>) -> bool
    decreases a.len(),
{
    if a.len() == 0 {
        b.len() > 0
    } else if b.len() == 0 {
        false
    } else if a[0] < b[0] {
        true
    } else if a[0] > b[0] {
        false
    } else {
        key_lt(a.drop_first(), b.drop_first())
    }
}

/// Keys of `s` never decrease from left to right.
pub open spec fn sorted_by_key<T>(s: Seq<(Seq<char>, T)>) -> bool {
    forall|i: int, j: int| 0 <= i < j < s.len() ==> !key_lt(#[trigger] s[j].0, #[trigger] s[i].0)
}

/// Where an item with key `k` goes in `s`: right after the last item whose key is not greater.
pub open spec fn insert_index<T>(s: Seq<(Seq<char>, T)>, k: Seq<char>) -> nat
    decreases s.len(),
{
    if s.len() == 0 {
        0
    } else if key_lt(k, s.last().0) {
        insert_index(s.drop_last(), k)
    } else {
        s.len()
    }
}

/// The stable sort of `s` by key: each item in turn is placed after every earlier
/// item whose key is not greater than its own.
pub open spec fn stable_sort<T>(s: Seq<(Seq<char>, T)>) -> Seq<(Seq<char>, T)>
    decreases s.len(),
{
    if s.len() == 0 {
        s
    } else {
        let r = stable_sort(s.drop_last());
        r.insert(insert_index(r, s.last().0) as int, s.last())
    }
}

proof fn lemma_key_lt_irreflexive(a: Seq<char>)
    ensures
        !key_lt(a, a),
    decreases a.len(),
{
    if a.len() > 0 {
        lemma_key_lt_irreflexive(a.drop_first());
    }
}

proof fn lemma_key_lt_transitive(a: Seq<char>, b: Seq<char>, c: Seq<char>)
    requires
        key_lt(a, b),
        key_lt(b, c),
    ensures
        key_lt(a, c),
    decreases a.len(),
{
    if a.len() > 0 && b.len() > 0 && c.len() > 0 {
        if a[0] == b[0] && b[0] == c[0] {
            lemma_key_lt_transitive(a.drop_first(), b.drop_first(), c.drop_first());
        }
    }
}

proof fn lemma_key_lt_total(a: Seq<char>, b: Seq<char>)
    ensures
        a == b || key_lt(a, b) || key_lt(b, a),
    decreases a.len(),
{
    if a.len() > 0 && b.len() > 0 {
        if a[0] == b[0] {
            lemma_key_lt_total(a.drop_first(), b.drop_first());
            if a.drop_first() == b.drop_first() {
                assert(a[0] == b[0]);
                assert(a =~= seq![a[0]] + a.drop_first());
                assert(b =~= seq![b[0]] + b.drop_first());
            }
        }
    } else if a.len() == 0 && b.len() == 0 {
        assert(a =~= b);
    }
}

/// In a sorted sequence, `insert_index` splits the items into those whose key is
/// not greater than `k` and those whose key is greater.
proof fn lemma_insert_index_splits<T>(s: Seq<(Seq<char>, T)>, k: Seq<char>)
    requires
        sorted_by_key(s),
    ensures
        insert_index(s, k) <= s.len(),
        forall|i: int| 0 <= i < insert_index(s, k) ==> !key_lt(k, #[trigger] s[i].0),
        forall|i: int| insert_index(s, k) <= i < s.len() ==> key_lt(k, #[trigger] s[i].0),
    decreases s.len(),
{
    if s.len() > 0 {
        let last = s.last().0;
        if key_lt(k, last) {
            let t = s.drop_last();
            assert(sorted_by_key(t)) by {
                assert forall|i: int, j: int| 0 <= i < j < t.len() implies !key_lt(
                    #[trigger] t[j].0,
                    #[trigger] t[i].0,
                ) by {
                    assert(t[i] == s[i] && t[j] == s[j]);
                }
            }
            lemma_insert_index_splits(t, k);
            assert forall|i: int| 0 <= i < insert_index(s, k) implies !key_lt(
                k,
                #[trigger] s[i].0,
            ) by {
                assert(t[i] == s[i]);
            }
            assert forall|i: int| insert_index(s, k) <= i < s.len() implies key_lt(
                k,
                #[trigger] s[i].0,
            ) by {
                if i < s.len() - 1 {
                    assert(t[i] == s[i]);
                }
            }
        } else {
            assert forall|i: int| 0 <= i < insert_index(s, k) implies !key_lt(
                k,
                #[trigger] s[i].0,
            ) by {
                if key_lt(k, s[i].0) {
                    let li = s.len() - 1;
                    if i < li {
                        assert(!key_lt(s[li].0, s[i].0));
                        lemma_key_lt_total(s[i].0, s[li].0);
                        if s[i].0 != s[li].0 {
                            lemma_key_lt_transitive(k, s[i].0, s[li].0);
                        }
                    }
                }
            }
        }
    }
}

/// Law: the stable sort orders its result by key.
pub proof fn lemma_stable_sort_sorted<T>(s: Seq<(Seq<char>, T)>)
    ensures
        sorted_by_key(stable_sort(s)),
        stable_sort(s).len() == s.len(),
    decreases s.len(),
{
    if s.len() > 0 {
        let r = stable_sort(s.drop_last());
        let x = s.last();
        lemma_stable_sort_sorted(s.drop_last());
        lemma_insert_index_splits(r, x.0);
        let p = insert_index(r, x.0) as int;
        let out = r.insert(p, x);
        assert forall|i: int, j: int| 0 <= i < j < out.len() implies !key_lt(
            #[trigger] out[j].0,
            #[trigger] out[i].0,
        ) by {
            if i < p && j < p {
                assert(out[i] == r[i] && out[j] == r[j]);
            } else if i < p && j == p {
                assert(out[i] == r[i]);
                if key_lt(x.0, r[i].0) {
                    lemma_key_lt_total(x.0, r[i].0);
                    lemma_key_lt_irreflexive(x.0);
                }
                lemma_key_lt_total(x.0, r[i].0);
                if key_lt(x.0, r[i].0) {
                } else if x.0 == r[i].0 {
                    lemma_key_lt_irreflexive(x.0);
                }
            } else if i < p && j > p {
                assert(out[i] == r[i] && out[j] == r[j - 1]);
            } else if i == p {
                assert(out[j] == r[j - 1]);
                assert(key_lt(x.0, r[j - 1].0));
                if key_lt(r[j - 1].0, x.0) {
                    lemma_key_lt_transitive(x.0, r[j - 1].0, x.0);
                    lemma_key_lt_irreflexive(x.0);
                }
            } else {
                assert(out[i] == r[i - 1] && out[j] == r[j - 1]);
            }
        }
    }
}

/// Law: the stable sort keeps exactly the items it was given.
pub proof fn lemma_stable_sort_permutes<T>(s: Seq<(Seq<char>, T)>)
    ensures
        stable_sort(s).to_multiset() == s.to_multiset(),
    decreases s.len(),
{
    broadcast use vstd::seq_lib::to_multiset_insert, vstd::seq_lib::to_multiset_build;

    if s.len() > 0 {
        lemma_stable_sort_permutes(s.drop_last());
        lemma_stable_sort_sorted(s.drop_last());
        let r = stable_sort(s.drop_last());
        lemma_insert_index_splits(r, s.last().0);
        assert(s =~= s.drop_last().push(s.last()));
    }
}

/// The items of the stable sort, without their keys, are those it was given.
pub proof fn lemma_stable_sort_items<T>(s: Seq<(Seq<char>, T)>)
    ensures
        stable_sort(s).map_values(|p: (Seq<char>, T)| p.1).to_multiset() == s.map_values(
            |p: (Seq<char>, T)| p.1,
        ).to_multiset(),
        forall|i: int| 0 <= i < stable_sort(s).len() ==> s.contains(#[trigger] stable_sort(s)[i]),
    decreases s.len(),
{
    broadcast use vstd::seq_lib::to_multiset_insert, vstd::seq_lib::to_multiset_build;

    lemma_stable_sort_permutes(s);
    assert forall|i: int| 0 <= i < stable_sort(s).len() implies s.contains(
        #[trigger] stable_sort(s)[i],
    ) by {
        vstd::seq_lib::to_multiset_contains(stable_sort(s), stable_sort(s)[i]);
        vstd::seq_lib::to_multiset_contains(s, stable_sort(s)[i]);
    }
    if s.len() > 0 {
        lemma_stable_sort_items(s.drop_last());
        lemma_stable_sort_sorted(s.drop_last());
        let r = stable_sort(s.drop_last());
        let x = s.last();
        lemma_insert_index_splits(r, x.0);
        let p = insert_index(r, x.0) as int;
        let f = |q: (Seq<char>, T)| q.1;
        assert(r.insert(p, x).map_values(f) =~= r.map_values(f).insert(p, x.1));
        assert(s.map_values(f) =~= s.drop_last().map_values(f).push(x.1));
    }
}

/// Law: the sort is stable: the items with any one key come out in the order
/// they came in.
pub proof fn lemma_stable_sort_stable<T>(s: Seq<(Seq<char>, T)>, k: Seq<char>)
    ensures
        stable_sort(s).filter(|p: (Seq<char>, T)| p.0 == k) == s.filter(
            |p: (Seq<char>, T)| p.0 == k,
        ),
    decreases s.len(),
{
    broadcast use Seq::filter_distributes_over_add;

    reveal(Seq::filter);
    if s.len() > 0 {
        lemma_stable_sort_stable(s.drop_last(), k);
        lemma_stable_sort_sorted(s.drop_last());
        let r = stable_sort(s.drop_last());
        let x = s.last();
        lemma_insert_index_splits(r, x.0);
        let pos = insert_index(r, x.0) as int;
        let pred = |p: (Seq<char>, T)| p.0 == k;
        let front = r.take(pos);
        let back = r.skip(pos);
        assert(r.insert(pos, x) =~= front + seq![x] + back);
        assert(r =~= front + back);
        assert(seq![x].drop_last() =~= Seq::<(Seq<char>, T)>::empty());
        if x.0 == k {
            assert(back.filter(pred).len() == 0) by {
                assert forall|i: int| 0 <= i < back.len() implies !pred(#[trigger] back[i]) by {
                    assert(back[i] == r[pos + i]);
                    assert(key_lt(x.0, r[pos + i].0));
                    lemma_key_lt_irreflexive(x.0);
                }
                back.lemma_all_neg_filter_empty(pred);
            }
            assert(seq![x].filter(pred) =~= seq![x]);
            assert(back.filter(pred) =~= Seq::<(Seq<char>, T)>::empty());
            assert(stable_sort(s).filter(pred) =~= front.filter(pred) + seq![x]);
            assert(r.filter(pred) =~= front.filter(pred));
        } else {
            assert(seq![x].last() == x);
            assert(!pred(x));
            assert(Seq::<(Seq<char>, T)>::empty().filter(pred) =~= Seq::<(Seq<char>, T)>::empty());
            assert(seq![x].filter(pred) =~= Seq::<(Seq<char>, T)>::empty());
            assert(stable_sort(s).filter(pred) =~= front.filter(pred) + back.filter(pred));
        }
    }
}

/// Compares two keys character by character.
pub fn key_less(a: &Vec<char>, b: &Vec<char>) -> (r: bool)
    ensures
        r == key_lt(a@, b@),
{
    let mut i: usize = 0;
    assert(a@.skip(0) =~= a@ && b@.skip(0) =~= b@);
    while i < a.len() && i < b.len()
        invariant
            i <= a.len(),
            i <= b.len(),
            forall|j: int| 0 <= j < i ==> a@[j] == b@[j],
            key_lt(a@, b@) == key_lt(a@.skip(i as int), b@.skip(i as int)),
        decreases a.len() - i,
    {
        let ca = a[i];
        let cb = b[i];
        assert(a@.skip(i as int)[0] == a@[i as int]);
        assert(b@.skip(i as int)[0] == b@[i as int]);
        if ca < cb {
            return true;
        }
        if ca > cb {
            return false;
        }
        assert(a@.skip(i as int).drop_first() =~= a@.skip(i + 1));
        assert(b@.skip(i as int).drop_first() =~= b@.skip(i + 1));
        i = i + 1;
    }
    i < b.len()
}

/// Sorts items by key, keeping items with equal keys in the order they came in
/// (the behaviour of std's stable `sort_by_key`).
pub fn sort_by_key<T>(items: Vec<Keyed<T>>) -> (r: Vec<Keyed<T>>)
    ensures
        keyed_view(r@) == stable_sort(keyed_view(items@)),
{
    let ghost orig = keyed_view(items@);
    let mut rest = items;
    let mut out: Vec<Keyed<T>> = Vec::new();
    let mut done: usize = 0;
    let n = rest.len();
    assert(orig.len() == n);
    assert(orig.take(0) =~= Seq::<(Seq<char>, T)>::empty());
    assert(keyed_view(out@) =~= Seq::<(Seq<char>, T)>::empty());
    assert(keyed_view(rest@) =~= orig.skip(0));
    while rest.len() > 0
        invariant
            done + rest@.len() == orig.len(),
            orig.len() <= usize::MAX,
            keyed_view(rest@) == orig.skip(done as int),
            keyed_view(out@) == stable_sort(orig.take(done as int)),
        decreases rest@.len(),
    {
        let ghost rest_before = rest@;
        let x = rest.remove(0);
        let ghost k = x.key@;
        let ghost ov = keyed_view(out@);
        let mut j: usize = out.len();
        assert(ov.take(j as int) =~= ov);
        while j > 0 && key_less(&x.key, &out[j - 1].key)
            invariant
                j <= out@.len(),
                ov == keyed_view(out@),
                x.key@ == k,
                insert_index(ov.take(j as int), k) == insert_index(ov, k),
            decreases j,
        {
            assert(ov[j - 1].0 == out@[j - 1].key@);
            assert(ov.take(j - 1) =~= ov.take(j as int).drop_last());
            j = j - 1;
        }
        assert(insert_index(ov.take(j as int), k) == j) by {
            if j > 0 {
                assert(ov.take(j as int).last() == ov[j - 1]);
                assert(ov[j - 1].0 == out@[j - 1].key@);
            }
        }
        proof {
            assert(orig.take(done + 1).drop_last() =~= orig.take(done as int));
            assert(orig.take(done + 1).last() == orig[done as int]);
            assert(keyed_view(rest_before)[0] == orig[done as int]);
            assert(keyed_view(rest_before)[0] == (x.key@, x.item));
        }
        out.insert(j, x);
        done = done + 1;
        assert(keyed_view(out@) =~= ov.insert(j as int, (k, x.item)));
        assert(keyed_view(rest@) =~= orig.skip(done as int)) by {
            assert(rest@ =~= rest_before.subrange(1, rest_before.len() as int));
            assert forall|i: int| 0 <= i < rest@.len() implies keyed_view(rest@)[i] == orig.skip(
                done as int,
            )[i] by {
                assert(rest@[i] == rest_before[i + 1]);
                assert(keyed_view(rest_before)[i + 1] == orig.skip(done - 1)[i + 1]);
            }
        }
    }
    assert(orig.take(done as int) =~= orig);
    out
}

} // verus!
