//! Sets and maps of pane ids, and the views of collections.

use std::collections::{BTreeMap, BTreeSet};

use vstd::laws_cmp::obeys_cmp;
use vstd::prelude::*;
use vstd::std_specs::btree::{increasing_seq, spec_btree_keys_iter, spec_keys_iter};
use vstd::std_specs::cmp::OrdSpec;
use vstd::std_specs::iter::IteratorSpec;

verus! {

// --- views ---

/// The views of a row of values, in their order.
pub open spec fn views<T: View>(s: Seq<T>) -> Seq<T::V> {
    s.map_values(|x: T| x@)
}

/// The views of the values of a map, under their keys.
pub open spec fn map_views<T: View>(m: Map<u32, T>) -> Map<u32, T::V> {
    m.map_values(|x: T| x@)
}

/// The view of an optional value.
pub open spec fn opt_view<T: View>(o: Option<T>) -> Option<T::V> {
    match o {
        Some(x) => Some(x@),
        None => None,
    }
}

pub broadcast proof fn lemma_views_push<T: View>(s: Seq<T>, x: T)
    ensures
        #[trigger] views(s.push(x)) == views(s).push(x@),
{
    assert(views(s.push(x)) =~= views(s).push(x@));
}

pub broadcast proof fn lemma_views_empty<T: View>()
    ensures
        #[trigger] views(Seq::<T>::empty()) == Seq::<T::V>::empty(),
{
    assert(views(Seq::<T>::empty()) =~= Seq::<T::V>::empty());
}

pub broadcast proof fn lemma_map_views_insert<T: View>(m: Map<u32, T>, k: u32, x: T)
    ensures
        #[trigger] map_views(m.insert(k, x)) == map_views(m).insert(k, x@),
{
    assert(map_views(m.insert(k, x)) =~= map_views(m).insert(k, x@));
}

pub broadcast proof fn lemma_map_views_remove<T: View>(m: Map<u32, T>, k: u32)
    ensures
        #[trigger] map_views(m.remove(k)) == map_views(m).remove(k),
{
    assert(map_views(m.remove(k)) =~= map_views(m).remove(k));
}

pub broadcast proof fn lemma_map_views_empty<T: View>()
    ensures
        #[trigger] map_views(Map::<u32, T>::empty()) == Map::<u32, T::V>::empty(),
{
    assert(map_views(Map::<u32, T>::empty()) =~= Map::<u32, T::V>::empty());
}

pub broadcast proof fn lemma_map_views_restrict<T: View>(m: Map<u32, T>, keys: Set<u32>)
    ensures
        #[trigger] map_views(m.restrict(keys)) == map_views(m).restrict(keys),
{
    assert(map_views(m.restrict(keys)) =~= map_views(m).restrict(keys));
}

pub broadcast group group_views {
    lemma_views_push,
    lemma_views_empty,
    lemma_map_views_insert,
    lemma_map_views_remove,
    lemma_map_views_empty,
    lemma_map_views_restrict,
}

// --- ids in order ---

pub open spec fn increasing(s: Seq<u32>) -> bool {
    forall|i: int, j: int| 0 <= i < j < s.len() ==> s[i] < s[j]
}

/// The members of a finite set of ids, the smallest first.
pub open spec fn ascending(s: Set<u32>) -> Seq<u32> {
    choose|q: Seq<u32>| increasing(q) && q.to_set() == s
}

proof fn lemma_increasing_unique(a: Seq<u32>, b: Seq<u32>)
    requires
        increasing(a),
        increasing(b),
        a.to_set() == b.to_set(),
    ensures
        a == b,
    decreases a.len(),
{
    if a.len() == 0 {
        if b.len() > 0 {
            assert(b.to_set().contains(b[0]));
            assert(a.contains(b[0]));
        }
        assert(a =~= b);
    } else {
        assert(a.to_set().contains(a[0]));
        assert(b.contains(a[0]));
        let x = a.last();
        let y = b.last();
        assert(a[a.len() - 1] == x && b[b.len() - 1] == y);
        assert(a.to_set().contains(x) && b.to_set().contains(y));
        assert(b.contains(x) && a.contains(y));
        let i = choose|i: int| 0 <= i < b.len() && b[i] == x;
        let j = choose|j: int| 0 <= j < a.len() && a[j] == y;
        assert(x <= y && y <= x);
        let fa = a.drop_last();
        let fb = b.drop_last();
        assert forall|v: u32| fa.to_set().contains(v) == fb.to_set().contains(v) by {
            assert(fa.contains(v) == fb.contains(v)) by {
                if fa.contains(v) {
                    let k = choose|k: int| 0 <= k < fa.len() && fa[k] == v;
                    assert(a[k] == v && a[k] < a[a.len() - 1]);
                    assert(a.to_set().contains(v));
                    assert(b.contains(v));
                    let m = choose|m: int| 0 <= m < b.len() && b[m] == v;
                    assert(fb[m] == v);
                }
                if fb.contains(v) {
                    let k = choose|k: int| 0 <= k < fb.len() && fb[k] == v;
                    assert(b[k] == v && b[k] < b[b.len() - 1]);
                    assert(b.to_set().contains(v));
                    assert(a.contains(v));
                    let m = choose|m: int| 0 <= m < a.len() && a[m] == v;
                    assert(fa[m] == v);
                }
            }
        }
        assert(fa.to_set() =~= fb.to_set());
        lemma_increasing_unique(fa, fb);
        assert(a =~= fa.push(x));
        assert(b =~= fb.push(y));
    }
}

/// A row of ids in increasing order is the ascending row of its members.
pub proof fn lemma_ascending_of(q: Seq<u32>)
    requires
        increasing(q),
    ensures
        ascending(q.to_set()) == q,
{
    let a = ascending(q.to_set());
    assert(increasing(q) && q.to_set() == q.to_set());
    lemma_increasing_unique(a, q);
}

/// The ascending row of a finite set holds its members, in order.
pub proof fn lemma_ascending(s: Set<u32>)
    requires
        s.finite(),
    ensures
        increasing(ascending(s)),
        ascending(s).to_set() == s,
    decreases s.len(),
{
    let q = lemma_sorted_exists(s);
    lemma_ascending_of(q);
}

proof fn lemma_sorted_exists(s: Set<u32>) -> (q: Seq<u32>)
    requires
        s.finite(),
    ensures
        increasing(q),
        q.to_set() == s,
    decreases s.len(),
{
    if s.len() == 0 {
        assert(s =~= Set::empty());
        assert(Seq::<u32>::empty().to_set() =~= s);
        Seq::empty()
    } else {
        let m = lemma_maximum(s);
        let r = lemma_sorted_exists(s.remove(m));
        let q = r.push(m);
        assert forall|i: int, j: int| 0 <= i < j < q.len() implies q[i] < q[j] by {
            if j == r.len() {
                assert(r.to_set().contains(r[i]));
                assert(s.remove(m).contains(r[i]));
            }
        }
        assert forall|v: u32| q.to_set().contains(v) == s.contains(v) by {
            if s.contains(v) {
                if v == m {
                    assert(q[r.len() as int] == v);
                } else {
                    assert(r.to_set().contains(v));
                    let k = choose|k: int| 0 <= k < r.len() && r[k] == v;
                    assert(q[k] == v);
                }
            }
            if q.contains(v) {
                let k = choose|k: int| 0 <= k < q.len() && q[k] == v;
                if k < r.len() {
                    assert(r.to_set().contains(r[k]));
                }
            }
        }
        assert(q.to_set() =~= s);
        q
    }
}

proof fn lemma_maximum(s: Set<u32>) -> (m: u32)
    requires
        s.finite(),
        s.len() > 0,
    ensures
        s.contains(m),
        forall|v: u32| s.contains(v) ==> v <= m,
    decreases s.len(),
{
    let a = s.choose();
    let rest = s.remove(a);
    if rest.len() == 0 {
        assert(rest =~= Set::empty());
        assert forall|v: u32| s.contains(v) implies v <= a by {
            if v != a {
                assert(rest.contains(v));
            }
        }
        a
    } else {
        let b = lemma_maximum(rest);
        let m = if a < b {
            b
        } else {
            a
        };
        assert forall|v: u32| s.contains(v) implies v <= m by {
            if v != a {
                assert(rest.contains(v));
            }
        }
        m
    }
}

proof fn lemma_increasing_at<K: Ord>(s: Seq<K>, i: int, j: int)
    requires
        obeys_cmp::<K>(),
        increasing_seq(s),
        0 <= i < j < s.len(),
    ensures
        s[i].cmp_spec(&s[j]) is Less,
{
}

proof fn lemma_increasing_refs(s: Seq<&u32>)
    requires
        increasing_seq(s),
    ensures
        increasing(s.unref()),
{
    assert(obeys_cmp::<&u32>());
    assert forall|i: int, j: int| 0 <= i < j < s.len() implies s.unref()[i] < s.unref()[j] by {
        lemma_increasing_at::<&u32>(s, i, j);
    }
}

/// The keys of a map, the smallest first.
pub fn map_keys<V>(m: &BTreeMap<u32, V>) -> (r: Vec<u32>)
    ensures
        r@ == ascending(m@.dom()),
        increasing(r@),
        r@.to_set() == m@.dom(),
{
    let mut out: Vec<u32> = Vec::new();
    let keys = m.keys();
    let ghost all = spec_keys_iter(m).remaining();
    assert(keys.remaining() == all);
    proof {
        lemma_increasing_refs(all);
    }
    for k in it: keys
        invariant
            it.seq() == all,
            out@ == all.unref().take(it.index()),
    {
        out.push(*k);
    }
    assert(out@ =~= all.unref());
    proof {
        lemma_ascending_of(out@);
    }
    out
}

/// The members of a set, the smallest first.
pub fn set_items(s: &BTreeSet<u32>) -> (r: Vec<u32>)
    ensures
        r@ == ascending(s@),
        increasing(r@),
        r@.to_set() == s@,
{
    let mut out: Vec<u32> = Vec::new();
    let items = s.iter();
    let ghost all = spec_btree_keys_iter(s).remaining();
    assert(items.remaining() == all);
    proof {
        lemma_increasing_refs(all);
    }
    for k in it: items
        invariant
            it.seq() == all,
            out@ == all.unref().take(it.index()),
    {
        out.push(*k);
    }
    assert(out@ =~= all.unref());
    proof {
        lemma_ascending_of(out@);
    }
    out
}

/// Whether two sets have the same members.
pub fn same_sets(a: &BTreeSet<u32>, b: &BTreeSet<u32>) -> (r: bool)
    ensures
        r == (a@ == b@),
{
    let x = set_items(a);
    let y = set_items(b);
    same_ids(&x, &y)
}

/// Whether two rows of ids are the same.
pub fn same_ids(x: &Vec<u32>, y: &Vec<u32>) -> (r: bool)
    ensures
        r == (x@ == y@),
{
    if x.len() != y.len() {
        return false;
    }
    let mut i: usize = 0;
    while i < x.len()
        invariant
            i <= x.len(),
            x.len() == y.len(),
            forall|j: int| 0 <= j < i ==> x[j] == y[j],
        decreases x.len() - i,
    {
        if x[i] != y[i] {
            assert(x@[i as int] != y@[i as int]);
            return false;
        }
        i += 1;
    }
    assert(x@ =~= y@);
    true
}

/// Whether the row of ids holds `id`.
pub fn has_id(ids: &Vec<u32>, id: u32) -> (r: bool)
    ensures
        r == ids@.contains(id),
{
    let mut i: usize = 0;
    while i < ids.len()
        invariant
            i <= ids.len(),
            forall|j: int| 0 <= j < i ==> ids@[j] != id,
        decreases ids.len() - i,
    {
        if ids[i] == id {
            assert(ids@[i as int] == id);
            return true;
        }
        i += 1;
    }
    false
}

/// Drops the entries of a map whose key is not in the set.
pub fn keep_only<V>(m: &mut BTreeMap<u32, V>, keep: &BTreeSet<u32>)
    ensures
        final(m)@ == old(m)@.restrict(keep@),
{
    let keys = map_keys(m);
    let ghost before = m@;
    let mut i: usize = 0;
    while i < keys.len()
        invariant
            i <= keys.len(),
            keys@.to_set() == before.dom(),
            forall|k: u32| #[trigger]
                m@.contains_key(k) ==> before.contains_key(k) && m@[k] == before[k],
            forall|k: u32| before.contains_key(k) && keep@.contains(k) ==> #[trigger] m@.contains_key(k),
            forall|j: int| 0 <= j < i && !keep@.contains(#[trigger] keys@[j]) ==> !m@.contains_key(keys@[j]),
        decreases keys.len() - i,
    {
        let key = keys[i];
        if !keep.contains(&key) {
            m.remove(&key);
        }
        i += 1;
    }
    assert forall|k: u32| m@.contains_key(k) implies keep@.contains(k) by {
        assert(before.dom().contains(k));
        assert(keys@.to_set().contains(k));
        assert(keys@.contains(k));
        let j = choose|j: int| 0 <= j < keys@.len() && keys@[j] == k;
        assert(keys@[j] == k);
    }
    assert(m@ =~= before.restrict(keep@));
}

} // verus!
