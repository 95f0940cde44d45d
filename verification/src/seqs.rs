//! Facts about sequences of rows whose keys must not repeat.

use vstd::prelude::*;
use vstd::multiset::Multiset;
use crate::order::{sorted_by, text_le, lemma_text_le_total, lemma_text_le_transitive};

verus! {

broadcast use vstd::seq_lib::group_seq_properties, vstd::seq_lib::group_to_multiset_ensures;

/// No two entries of `s` share a key.
pub open spec fn keys_distinct<T, K>(s: Seq<T>, key: spec_fn(T) -> K) -> bool {
    forall|i: int, j: int|
        #![trigger s[i], s[j]]
        0 <= i < s.len() && 0 <= j < s.len() && i != j ==> key(s[i]) != key(s[j])
}

/// Some entry of `s` has key `k`.
pub open spec fn has_key<T, K>(s: Seq<T>, key: spec_fn(T) -> K, k: K) -> bool {
    exists|i: int| 0 <= i < s.len() && key(#[trigger] s[i]) == k
}

/// Keeping only some entries keeps the keys apart, and every kept entry was there.
pub proof fn lemma_filter_keeps_distinct<T, K>(s: Seq<T>, p: spec_fn(T) -> bool, key: spec_fn(T) -> K)
    requires
        keys_distinct(s, key),
    ensures
        keys_distinct(s.filter(p), key),
        forall|i: int| 0 <= i < s.filter(p).len() ==> s.contains(#[trigger] s.filter(p)[i]),
    decreases s.len(),
{
    broadcast use vstd::seq_lib::group_filter_ensures;

    if s.len() > 0 {
        let init = s.drop_last();
        let x = s.last();
        assert(init.push(x) =~= s);
        assert(keys_distinct(init, key)) by {
            assert forall|i: int, j: int|
                0 <= i < init.len() && 0 <= j < init.len() && i != j implies key(init[i]) != key(
                    init[j],
                ) by {
                assert(init[i] == s[i] && init[j] == s[j]);
            }
        }
        lemma_filter_keeps_distinct(init, p, key);
        init.lemma_filter_push(x, p);
        let f0 = init.filter(p);
        assert forall|i: int| 0 <= i < f0.len() implies key(#[trigger] f0[i]) != key(x) by {
            assert(init.contains(f0[i]));
            let j = choose|j: int| 0 <= j < init.len() && init[j] == f0[i];
            assert(s[j] == init[j]);
            assert(s[s.len() - 1] == x);
        }
        let f = s.filter(p);
        if p(x) {
            assert(f == f0.push(x));
            assert forall|i: int, j: int|
                0 <= i < f.len() && 0 <= j < f.len() && i != j implies key(f[i]) != key(f[j]) by {
                if i < f0.len() && j < f0.len() {
                    assert(f[i] == f0[i] && f[j] == f0[j]);
                } else if i < f0.len() {
                    assert(f[i] == f0[i]);
                } else if j < f0.len() {
                    assert(f[j] == f0[j]);
                }
            }
            assert forall|i: int| 0 <= i < f.len() implies s.contains(#[trigger] f[i]) by {
                if i < f0.len() {
                    assert(f[i] == f0[i]);
                    assert(init.contains(f0[i]));
                    let j = choose|j: int| 0 <= j < init.len() && init[j] == f0[i];
                    assert(s[j] == init[j]);
                } else {
                    assert(s[s.len() - 1] == x);
                }
            }
        } else {
            assert(f == f0);
            assert forall|i: int| 0 <= i < f.len() implies s.contains(#[trigger] f[i]) by {
                assert(init.contains(f0[i]));
                let j = choose|j: int| 0 <= j < init.len() && init[j] == f0[i];
                assert(s[j] == init[j]);
            }
        }
    } else {
        assert(s.filter(p).len() == 0);
    }
}

/// Every entry kept by a filter was in the sequence.
pub proof fn lemma_filter_members<T>(s: Seq<T>, p: spec_fn(T) -> bool)
    ensures
        forall|i: int| 0 <= i < s.filter(p).len() ==> s.contains(#[trigger] s.filter(p)[i]),
    decreases s.len(),
{
    if s.len() > 0 {
        let init = s.drop_last();
        let x = s.last();
        assert(init.push(x) =~= s);
        lemma_filter_members(init, p);
        init.lemma_filter_push(x, p);
        let f0 = init.filter(p);
        let f = s.filter(p);
        assert forall|i: int| 0 <= i < f.len() implies s.contains(#[trigger] f[i]) by {
            if i < f0.len() {
                assert(f[i] == f0[i]);
                assert(init.contains(f0[i]));
                let j = choose|j: int| 0 <= j < init.len() && init[j] == f0[i];
                assert(s[j] == init[j]);
            } else {
                assert(f[i] == x);
                assert(s[s.len() - 1] == x);
            }
        }
    } else {
        assert(s.filter(p).len() == 0) by {
            reveal(Seq::filter);
        }
    }
}

/// Removing an entry keeps the keys apart.
pub proof fn lemma_remove_keeps_distinct<T, K>(s: Seq<T>, i: int, key: spec_fn(T) -> K)
    requires
        keys_distinct(s, key),
        0 <= i < s.len(),
    ensures
        keys_distinct(s.remove(i), key),
        forall|k: int| 0 <= k < s.remove(i).len() ==> key(#[trigger] s.remove(i)[k]) != key(s[i]),
{
    s.remove_ensures(i);
    let r = s.remove(i);
    assert forall|a: int, b: int|
        0 <= a < r.len() && 0 <= b < r.len() && a != b implies key(r[a]) != key(r[b]) by {
        let a0 = if a < i {
            a
        } else {
            a + 1
        };
        let b0 = if b < i {
            b
        } else {
            b + 1
        };
        assert(r[a] == s[a0] && r[b] == s[b0]);
    }
    assert forall|k: int| 0 <= k < r.len() implies key(#[trigger] r[k]) != key(s[i]) by {
        let k0 = if k < i {
            k
        } else {
            k + 1
        };
        assert(r[k] == s[k0]);
    }
}

/// Appending an entry whose key is new keeps the keys apart.
pub proof fn lemma_push_keeps_distinct<T, K>(s: Seq<T>, x: T, key: spec_fn(T) -> K)
    requires
        keys_distinct(s, key),
        !has_key(s, key, key(x)),
    ensures
        keys_distinct(s.push(x), key),
{
    let t = s.push(x);
    assert forall|a: int, b: int|
        0 <= a < t.len() && 0 <= b < t.len() && a != b implies key(t[a]) != key(t[b]) by {
        if a < s.len() && b < s.len() {
            assert(t[a] == s[a] && t[b] == s[b]);
        } else if a < s.len() {
            assert(t[a] == s[a]);
        } else {
            assert(t[b] == s[b]);
        }
    }
}

/// Replacing an entry by one with the same key keeps the keys apart.
pub proof fn lemma_update_keeps_distinct<T, K>(s: Seq<T>, i: int, x: T, key: spec_fn(T) -> K)
    requires
        keys_distinct(s, key),
        0 <= i < s.len(),
        key(x) == key(s[i]),
    ensures
        keys_distinct(s.update(i, x), key),
{
    let t = s.update(i, x);
    assert forall|a: int, b: int|
        0 <= a < t.len() && 0 <= b < t.len() && a != b implies key(t[a]) != key(t[b]) by {
        assert(key(t[a]) == key(s[a]));
        assert(key(t[b]) == key(s[b]));
    }
}

/// The entries of `v` whose flag in `keep` is set, in their order; the flags
/// are those of the predicate `p`.
pub(crate) fn keep_flagged<T>(v: Vec<T>, keep: &Vec<bool>, Ghost(p): Ghost<spec_fn(T) -> bool>) -> (r:
    Vec<T>)
    requires
        keep@.len() == v@.len(),
        forall|i: int| 0 <= i < v@.len() ==> keep@[i] == p(#[trigger] v@[i]),
    ensures
        r@ == v@.filter(p),
{
    let mut v = v;
    let ghost orig = v@;
    let mut out: Vec<T> = Vec::new();
    let mut k: usize = 0;
    let n = v.len();
    assert(orig.skip(0) =~= orig);
    assert(orig.take(0).filter(p) =~= Seq::<T>::empty()) by {
        reveal(Seq::filter);
    }
    while v.len() > 0
        invariant
            k <= orig.len(),
            v@.len() + k == orig.len(),
            orig.len() == n,
            v@ == orig.skip(k as int),
            out@ == orig.take(k as int).filter(p),
            keep@.len() == orig.len(),
            forall|i: int| 0 <= i < orig.len() ==> keep@[i] == p(#[trigger] orig[i]),
        decreases v@.len(),
    {
        let x = v.remove(0);
        assert(x == orig[k as int]);
        proof {
            orig.take(k as int).lemma_filter_push(x, p);
            assert(orig.take(k + 1) =~= orig.take(k as int).push(x));
            assert(v@ =~= orig.skip(k + 1));
        }
        if keep[k] {
            out.push(x);
        }
        k = k + 1;
    }
    assert(orig.take(orig.len() as int) =~= orig);
    out
}

/// Two sequences with the same multiset hold the same members.
pub proof fn lemma_same_members<T>(r: Seq<T>, c: Seq<T>)
    requires
        r.to_multiset() == c.to_multiset(),
    ensures
        forall|k: int| 0 <= k < r.len() ==> c.contains(#[trigger] r[k]),
        forall|i: int| 0 <= i < c.len() ==> r.contains(#[trigger] c[i]),
{
    assert forall|k: int| 0 <= k < r.len() implies c.contains(#[trigger] r[k]) by {
        assert(r.contains(r[k]));
        assert(r.to_multiset().count(r[k]) > 0);
    }
    assert forall|i: int| 0 <= i < c.len() implies r.contains(#[trigger] c[i]) by {
        assert(c.contains(c[i]));
        assert(c.to_multiset().count(c[i]) > 0);
    }
}

/// Something that sorts by a text name.
pub trait Named: Sized {
    spec fn sort_name(&self) -> Seq<char>;

    fn name_text(&self) -> (r: &str)
        ensures
            r@ == self.sort_name(),
    ;
}

/// The name of an entry, as a spec function over entries.
pub open spec fn name_of<T: Named>() -> spec_fn(T) -> Seq<char> {
    |t: T| t.sort_name()
}

/// Puts the entries of `v` in ascending order of their names.
pub fn sort_by_name<T: Named>(v: Vec<T>) -> (r: Vec<T>)
    ensures
        sorted_by(r@, name_of::<T>()),
        r@.to_multiset() == v@.to_multiset(),
        r@.len() == v@.len(),
{
    let mut v = v;
    let ghost orig = v@;
    let mut r: Vec<T> = Vec::new();
    while v.len() > 0
        invariant
            sorted_by(r@, name_of::<T>()),
            r@.to_multiset().add(v@.to_multiset()) == orig.to_multiset(),
        decreases v.len(),
    {
        let ghost before = v@;
        let x = v.pop().unwrap();
        assert(before =~= v@.push(x));
        let mut p: usize = 0;
        let mut found = false;
        while p < r.len() && !found
            invariant
                p <= r.len(),
                forall|k: int| 0 <= k < p ==> text_le(r@[k].sort_name(), x.sort_name()),
                found ==> p < r.len() && !text_le(r@[p as int].sort_name(), x.sort_name()),
            decreases r.len() - p, if found { 0int } else { 1int },
        {
            if !crate::order::text_le_exec(r[p].name_text(), x.name_text()) {
                found = true;
            } else {
                p = p + 1;
            }
        }
        proof {
            if p < r.len() {
                lemma_text_le_total(r@[p as int].sort_name(), x.sort_name());
            }
        }
        let ghost old_r = r@;
        r.insert(p, x);
        proof {
            old_r.insert_ensures(p as int, x);
            assert(r@ == old_r.insert(p as int, x));
            assert forall|i: int, j: int| 0 <= i < j < r@.len() implies text_le(
                r@[i].sort_name(),
                r@[j].sort_name(),
            ) by {
                if j < p {
                } else if j == p {
                } else if i < p {
                    assert(r@[j] == old_r[j - 1]);
                    if p < old_r.len() {
                        lemma_text_le_transitive(
                            r@[i].sort_name(),
                            x.sort_name(),
                            old_r[p as int].sort_name(),
                        );
                        if j - 1 > p {
                            lemma_text_le_transitive(
                                r@[i].sort_name(),
                                old_r[p as int].sort_name(),
                                old_r[j - 1].sort_name(),
                            );
                        }
                    }
                } else if i == p {
                    assert(r@[j] == old_r[j - 1]);
                    if j - 1 > p {
                        lemma_text_le_transitive(
                            x.sort_name(),
                            old_r[p as int].sort_name(),
                            old_r[j - 1].sort_name(),
                        );
                    }
                } else {
                    assert(r@[i] == old_r[i - 1] && r@[j] == old_r[j - 1]);
                }
            }
            assert(r@.to_multiset() == old_r.to_multiset().insert(x));
            assert(before.to_multiset() == v@.to_multiset().insert(x));
            assert(r@.to_multiset().add(v@.to_multiset()) =~= old_r.to_multiset().add(
                before.to_multiset(),
            ));
        }
    }
    assert(v@.to_multiset() =~= Multiset::empty());
    assert(r@.to_multiset() =~= orig.to_multiset());
    assert(r@.len() == r@.to_multiset().len());
    assert(orig.len() == orig.to_multiset().len());
    r
}

} // verus!
