//! The keys of an ordered map, as a vector in ascending order.

use std::collections::BTreeMap;
use vstd::prelude::*;
use vstd::std_specs::btree::axiom_increasing_seq_meaning;
use vstd::std_specs::cmp::OrdSpec;
use vstd::std_specs::iter::IteratorSpec;

verus! {

/// `keys` lists the members of `dom`, each once, in ascending order.
pub open spec fn ascending_u32(keys: Seq<u32>, dom: Set<u32>) -> bool {
    &&& forall|i: int, j: int| 0 <= i < j < keys.len() ==> keys[i] < keys[j]
    &&& forall|k: u32| dom.contains(k) <==> keys.contains(k)
}

/// `keys` lists the members of `dom`, each once, in ascending order.
pub open spec fn ascending_u64(keys: Seq<u64>, dom: Set<u64>) -> bool {
    &&& forall|i: int, j: int| 0 <= i < j < keys.len() ==> keys[i] < keys[j]
    &&& forall|k: u64| dom.contains(k) <==> keys.contains(k)
}

/// The members of `dom` in ascending order; empty where `dom` has no such
/// listing, which is so of an infinite set only.
pub open spec fn sorted_u32(dom: Set<u32>) -> Seq<u32> {
    if exists|keys: Seq<u32>| ascending_u32(keys, dom) {
        choose|keys: Seq<u32>| ascending_u32(keys, dom)
    } else {
        Seq::empty()
    }
}

/// The members of `dom` in ascending order; empty where `dom` has no such
/// listing, which is so of an infinite set only.
pub open spec fn sorted_u64(dom: Set<u64>) -> Seq<u64> {
    if exists|keys: Seq<u64>| ascending_u64(keys, dom) {
        choose|keys: Seq<u64>| ascending_u64(keys, dom)
    } else {
        Seq::empty()
    }
}

/// Every entry of the ascending listing of `dom` is a member of `dom`.
pub proof fn lemma_sorted_within_u32(dom: Set<u32>)
    ensures
        forall|i: int|
            0 <= i < sorted_u32(dom).len() ==> dom.contains(#[trigger] sorted_u32(dom)[i]),
{
    let keys = sorted_u32(dom);
    assert forall|i: int| 0 <= i < keys.len() implies dom.contains(#[trigger] keys[i]) by {
        assert(keys.contains(keys[i]));
    }
}

/// A set has at most one ascending listing.
pub proof fn lemma_ascending_unique_u32(s: Seq<u32>, t: Seq<u32>, dom: Set<u32>)
    requires
        ascending_u32(s, dom),
        ascending_u32(t, dom),
    ensures
        s == t,
    decreases s.len(),
{
    if s.len() == 0 {
        if t.len() > 0 {
            assert(t.contains(t[0]));
            assert(s.contains(t[0]));
        }
        assert(s =~= t);
    } else {
        let a = s.last();
        assert(s.contains(a));
        assert(t.contains(a));
        let b = t.last();
        assert(t.contains(b));
        assert(s.contains(b));
        assert(a == b);
        let s1 = s.drop_last();
        let t1 = t.drop_last();
        let d1 = dom.remove(a);
        assert forall|k: u32| d1.contains(k) <==> s1.contains(k) by {
            if d1.contains(k) {
                assert(s.contains(k));
                let i = choose|i: int| 0 <= i < s.len() && s[i] == k;
                assert(s1[i] == k);
            }
            if s1.contains(k) {
                let i = choose|i: int| 0 <= i < s1.len() && s1[i] == k;
                assert(s[i] == k);
                assert(s.contains(k));
            }
        }
        assert forall|k: u32| d1.contains(k) <==> t1.contains(k) by {
            if d1.contains(k) {
                assert(t.contains(k));
                let i = choose|i: int| 0 <= i < t.len() && t[i] == k;
                assert(t1[i] == k);
            }
            if t1.contains(k) {
                let i = choose|i: int| 0 <= i < t1.len() && t1[i] == k;
                assert(t[i] == k);
                assert(t.contains(k));
            }
        }
        lemma_ascending_unique_u32(s1, t1, d1);
        assert(s =~= s1.push(a));
        assert(t =~= t1.push(b));
    }
}

/// A set has at most one ascending listing.
pub proof fn lemma_ascending_unique_u64(s: Seq<u64>, t: Seq<u64>, dom: Set<u64>)
    requires
        ascending_u64(s, dom),
        ascending_u64(t, dom),
    ensures
        s == t,
    decreases s.len(),
{
    if s.len() == 0 {
        if t.len() > 0 {
            assert(t.contains(t[0]));
            assert(s.contains(t[0]));
        }
        assert(s =~= t);
    } else {
        let a = s.last();
        assert(s.contains(a));
        assert(t.contains(a));
        let b = t.last();
        assert(t.contains(b));
        assert(s.contains(b));
        assert(a == b);
        let s1 = s.drop_last();
        let t1 = t.drop_last();
        let d1 = dom.remove(a);
        assert forall|k: u64| d1.contains(k) <==> s1.contains(k) by {
            if d1.contains(k) {
                assert(s.contains(k));
                let i = choose|i: int| 0 <= i < s.len() && s[i] == k;
                assert(s1[i] == k);
            }
            if s1.contains(k) {
                let i = choose|i: int| 0 <= i < s1.len() && s1[i] == k;
                assert(s[i] == k);
                assert(s.contains(k));
            }
        }
        assert forall|k: u64| d1.contains(k) <==> t1.contains(k) by {
            if d1.contains(k) {
                assert(t.contains(k));
                let i = choose|i: int| 0 <= i < t.len() && t[i] == k;
                assert(t1[i] == k);
            }
            if t1.contains(k) {
                let i = choose|i: int| 0 <= i < t1.len() && t1[i] == k;
                assert(t[i] == k);
                assert(t.contains(k));
            }
        }
        lemma_ascending_unique_u64(s1, t1, d1);
        assert(s =~= s1.push(a));
        assert(t =~= t1.push(b));
    }
}

/// The keys of `m`, ascending.
pub fn keys_u32<V>(m: &BTreeMap<u32, V>) -> (r: Vec<u32>)
    ensures
        ascending_u32(r@, m@.dom()),
        r@ == sorted_u32(m@.dom()),
{
    let mut out: Vec<u32> = Vec::new();
    for k in iter: m.keys()
        invariant
            out@.len() == iter.index(),
            forall|j: int| 0 <= j < out@.len() ==> out@[j] == *iter.seq()[j],
            iter.seq() == m.keys().remaining(),
    {
        out.push(*k);
    }
    proof {
        let ks = m.keys().remaining();
        assert(out@ =~= ks.unref());
        axiom_increasing_seq_meaning::<&u32>(ks);
        assert forall|i: int, j: int| 0 <= i < j < out@.len() implies out@[i] < out@[j] by {
            assert(OrdSpec::cmp_spec(&ks[i], &ks[j]) is Less);
        }
        assert forall|k: u32| m@.dom().contains(k) <==> out@.contains(k) by {
            assert(out@.to_set().contains(k) <==> out@.contains(k));
        }
        assert(ascending_u32(out@, m@.dom()));
        lemma_ascending_unique_u32(out@, sorted_u32(m@.dom()), m@.dom());
    }
    out
}

/// The keys of `m`, ascending.
pub fn keys_u64<V>(m: &BTreeMap<u64, V>) -> (r: Vec<u64>)
    ensures
        ascending_u64(r@, m@.dom()),
        r@ == sorted_u64(m@.dom()),
{
    let mut out: Vec<u64> = Vec::new();
    for k in iter: m.keys()
        invariant
            out@.len() == iter.index(),
            forall|j: int| 0 <= j < out@.len() ==> out@[j] == *iter.seq()[j],
            iter.seq() == m.keys().remaining(),
    {
        out.push(*k);
    }
    proof {
        let ks = m.keys().remaining();
        assert(out@ =~= ks.unref());
        axiom_increasing_seq_meaning::<&u64>(ks);
        assert forall|i: int, j: int| 0 <= i < j < out@.len() implies out@[i] < out@[j] by {
            assert(OrdSpec::cmp_spec(&ks[i], &ks[j]) is Less);
        }
        assert forall|k: u64| m@.dom().contains(k) <==> out@.contains(k) by {
            assert(out@.to_set().contains(k) <==> out@.contains(k));
        }
        assert(ascending_u64(out@, m@.dom()));
        lemma_ascending_unique_u64(out@, sorted_u64(m@.dom()), m@.dom());
    }
    out
}

/// The ascending sequence `keys` with `a` put in at its place.
pub open spec fn put_in_order_u64(keys: Seq<u64>, a: u64) -> Seq<u64>
    decreases keys.len(),
{
    if keys.len() == 0 {
        seq![a]
    } else if keys.last() < a {
        keys.push(a)
    } else {
        put_in_order_u64(keys.drop_last(), a).push(keys.last())
    }
}

/// Putting a new member in at its place gives the ascending listing of the
/// set with that member.
pub proof fn lemma_put_in_order_u64(keys: Seq<u64>, dom: Set<u64>, a: u64)
    requires
        ascending_u64(keys, dom),
        !dom.contains(a),
    ensures
        ascending_u64(put_in_order_u64(keys, a), dom.insert(a)),
        put_in_order_u64(keys, a).len() == keys.len() + 1,
        put_in_order_u64(keys, a).last() == if keys.len() > 0 && keys.last() > a {
            keys.last()
        } else {
            a
        },
    decreases keys.len(),
{
    let out = put_in_order_u64(keys, a);
    if keys.len() == 0 {
        assert forall|k: u64| dom.insert(a).contains(k) <==> out.contains(k) by {
            if dom.contains(k) {
                assert(keys.contains(k));
            }
            if k == a {
                assert(out[0] == a);
            }
        }
    } else if keys.last() < a {
        assert forall|k: u64| dom.insert(a).contains(k) <==> out.contains(k) by {
            if dom.contains(k) {
                assert(keys.contains(k));
                let i = choose|i: int| 0 <= i < keys.len() && keys[i] == k;
                assert(out[i] == k);
            }
            if k == a {
                assert(out[keys.len() as int] == a);
            }
            if out.contains(k) {
                let i = choose|i: int| 0 <= i < out.len() && out[i] == k;
                if i < keys.len() {
                    assert(keys[i] == k);
                    assert(keys.contains(k));
                }
            }
        }
    } else {
        let last = keys.last();
        let front = keys.drop_last();
        let rest = dom.remove(last);
        assert(keys.contains(last));
        assert(last != a);
        assert forall|k: u64| rest.contains(k) <==> front.contains(k) by {
            if rest.contains(k) {
                assert(keys.contains(k));
                let i = choose|i: int| 0 <= i < keys.len() && keys[i] == k;
                assert(front[i] == k);
            }
            if front.contains(k) {
                let i = choose|i: int| 0 <= i < front.len() && front[i] == k;
                assert(keys[i] == k);
                assert(keys.contains(k));
            }
        }
        lemma_put_in_order_u64(front, rest, a);
        let inner = put_in_order_u64(front, a);
        assert(out == inner.push(last));
        assert(inner.last() < last) by {
            if front.len() > 0 && front.last() > a {
                assert(front.last() == keys[keys.len() - 2]);
            }
        }
        assert forall|i: int, j: int| 0 <= i < j < out.len() implies out[i] < out[j] by {
            if j == out.len() - 1 {
                assert(out[i] == inner[i]);
                assert(inner[i] <= inner.last());
            }
        }
        assert forall|k: u64| dom.insert(a).contains(k) <==> out.contains(k) by {
            if dom.insert(a).contains(k) {
                if k == last {
                    assert(out[out.len() - 1] == k);
                } else {
                    assert(rest.insert(a).contains(k));
                    assert(inner.contains(k));
                    let i = choose|i: int| 0 <= i < inner.len() && inner[i] == k;
                    assert(out[i] == k);
                }
            }
            if out.contains(k) {
                let i = choose|i: int| 0 <= i < out.len() && out[i] == k;
                if i < inner.len() {
                    assert(inner[i] == k);
                    assert(inner.contains(k));
                    assert(rest.insert(a).contains(k));
                }
            }
        }
    }
}

/// A finite set has an ascending listing, and `sorted_u64` is it.
pub proof fn lemma_sorted_lists_u64(dom: Set<u64>)
    requires
        dom.finite(),
    ensures
        ascending_u64(sorted_u64(dom), dom),
    decreases dom.len(),
{
    if dom.len() == 0 {
        let none = Seq::<u64>::empty();
        assert forall|k: u64| dom.contains(k) <==> none.contains(k) by {
            if dom.contains(k) {
                assert(dom.len() != 0);
            }
        }
        assert(ascending_u64(none, dom));
    } else {
        let a = dom.choose();
        let rest = dom.remove(a);
        lemma_sorted_lists_u64(rest);
        lemma_put_in_order_u64(sorted_u64(rest), rest, a);
        assert(rest.insert(a) =~= dom);
        assert(ascending_u64(put_in_order_u64(sorted_u64(rest), a), dom));
    }
}

} // verus!
