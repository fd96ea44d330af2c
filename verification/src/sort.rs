//! A stable merge sort that produces the sorting permutation of a key vector.

use vstd::prelude::*;

verus! {

/// A key with a strict weak order: `key_lt` is irreflexive and asymmetric, and
/// being unordered with respect to each other is transitive.
pub trait SortKey: Sized {
    spec fn key_lt(&self, other: &Self) -> bool;

    proof fn lt_laws(a: &Self, b: &Self, c: &Self)
        ensures
            !a.key_lt(a),
            a.key_lt(b) ==> !b.key_lt(a),
            a.key_lt(b) ==> a.key_lt(c) || c.key_lt(b),
    ;

    fn less(&self, other: &Self) -> (r: bool)
        ensures
            r == self.key_lt(other),
    ;
}

impl SortKey for u128 {
    open spec fn key_lt(&self, other: &Self) -> bool {
        *self < *other
    }

    proof fn lt_laws(a: &Self, b: &Self, c: &Self) {
    }

    fn less(&self, other: &Self) -> (r: bool) {
        *self < *other
    }
}

/// Index `x` comes before index `y`: its key is smaller, or the keys are
/// unordered and `x` is the earlier index.
pub open spec fn before<K: SortKey>(keys: Seq<K>, x: usize, y: usize) -> bool {
    keys[x as int].key_lt(&keys[y as int]) || (!keys[y as int].key_lt(&keys[x as int]) && x < y)
}

pub open spec fn ordered<K: SortKey>(p: Seq<usize>, keys: Seq<K>) -> bool {
    forall|i: int, j: int| 0 <= i < j < p.len() ==> before(keys, #[trigger] p[i], #[trigger] p[j])
}

/// `p` lists every index of `keys` in stable sorted order.
pub open spec fn is_stable_order<K: SortKey>(p: Seq<usize>, keys: Seq<K>) -> bool {
    &&& p.len() == keys.len()
    &&& forall|i: int| 0 <= i < p.len() ==> (#[trigger] p[i]) < keys.len()
    &&& ordered(p, keys)
}

/// The elements of `s` taken in the order `p`.
pub open spec fn permuted<T>(s: Seq<T>, p: Seq<usize>) -> Seq<T> {
    Seq::new(p.len(), |i: int| s[p[i] as int])
}

proof fn lemma_before_trans<K: SortKey>(keys: Seq<K>, x: usize, y: usize, z: usize)
    requires
        before(keys, x, y),
        before(keys, y, z),
    ensures
        before(keys, x, z),
{
    let a = keys[x as int];
    let b = keys[y as int];
    let c = keys[z as int];
    K::lt_laws(&a, &b, &c);
    K::lt_laws(&b, &c, &a);
    K::lt_laws(&c, &a, &b);
}

/// A stable order is a permutation: every index of the key vector occurs in it.
pub proof fn lemma_order_is_permutation<K: SortKey>(p: Seq<usize>, keys: Seq<K>)
    requires
        is_stable_order(p, keys),
    ensures
        p.no_duplicates(),
        forall|x: usize| x < keys.len() ==> p.contains(x),
{
    assert forall|i: int, j: int| 0 <= i < j < p.len() implies p[i] != p[j] by {
        assert(before(keys, p[i], p[j]));
        K::lt_laws(&keys[p[i] as int], &keys[p[i] as int], &keys[p[i] as int]);
    }
    assert(p.no_duplicates());
    let q = p.map_values(|x: usize| x as int);
    assert(q.no_duplicates());
    q.unique_seq_to_set();
    let n = keys.len() as int;
    vstd::set_lib::lemma_int_range(0, n);
    let r = vstd::set_lib::set_int_range(0, n);
    assert(q.to_set().subset_of(r)) by {
        assert forall|v: int| q.to_set().contains(v) implies r.contains(v) by {
            let k = choose|k: int| 0 <= k < q.len() && q[k] == v;
            assert(p[k] < keys.len());
        }
    }
    vstd::set_lib::lemma_subset_equality(q.to_set(), r);
    assert forall|x: usize| x < keys.len() implies p.contains(x) by {
        assert(r.contains(x as int));
        assert(q.to_set().contains(x as int));
        let k = choose|k: int| 0 <= k < q.len() && q[k] == x as int;
        assert(p[k] == x);
    }
}

fn merge<K: SortKey>(keys: &Vec<K>, a: &Vec<usize>, b: &Vec<usize>) -> (out: Vec<usize>)
    requires
        a.len() + b.len() <= keys.len(),
        forall|i: int| 0 <= i < a.len() ==> (#[trigger] a[i]) < keys.len(),
        forall|i: int| 0 <= i < b.len() ==> (#[trigger] b[i]) < keys.len(),
        ordered(a@, keys@),
        ordered(b@, keys@),
        forall|i: int, j: int|
            0 <= i < a.len() && 0 <= j < b.len() ==> (#[trigger] a[i]) < (#[trigger] b[j]),
    ensures
        out.len() == a.len() + b.len(),
        ordered(out@, keys@),
        forall|u: int|
            0 <= u < out.len() ==> a@.contains(#[trigger] out[u]) || b@.contains(out[u]),
{
    let mut out: Vec<usize> = Vec::new();
    let mut i: usize = 0;
    let mut j: usize = 0;
    while i < a.len() || j < b.len()
        invariant
            a.len() + b.len() <= keys.len(),
            forall|i: int| 0 <= i < a.len() ==> (#[trigger] a[i]) < keys.len(),
            forall|i: int| 0 <= i < b.len() ==> (#[trigger] b[i]) < keys.len(),
            ordered(a@, keys@),
            ordered(b@, keys@),
            forall|i: int, j: int|
                0 <= i < a.len() && 0 <= j < b.len() ==> (#[trigger] a[i]) < (#[trigger] b[j]),
            i <= a.len(),
            j <= b.len(),
            out.len() == i + j,
            ordered(out@, keys@),
            forall|u: int, w: int|
                0 <= u < out.len() && i <= w < a.len() ==> before(
                    keys@,
                    #[trigger] out[u],
                    #[trigger] a[w],
                ),
            forall|u: int, w: int|
                0 <= u < out.len() && j <= w < b.len() ==> before(
                    keys@,
                    #[trigger] out[u],
                    #[trigger] b[w],
                ),
            forall|u: int|
                0 <= u < out.len() ==> a@.contains(#[trigger] out[u]) || b@.contains(out[u]),
        decreases a.len() - i + b.len() - j,
    {
        let take_b = if i == a.len() {
            true
        } else if j == b.len() {
            false
        } else {
            keys[b[j]].less(&keys[a[i]])
        };
        if take_b {
            let x: usize = b[j];
            proof {
                assert forall|w: int| i <= w < a.len() implies before(
                    keys@,
                    x,
                    #[trigger] a[w],
                ) by {
                    assert(before(keys@, x, a[i as int]));
                    if w > i {
                        assert(before(keys@, a[i as int], a[w]));
                        lemma_before_trans(keys@, x, a[i as int], a[w]);
                    }
                }
                assert(b@.contains(x));
            }
            out.push(x);
            j = j + 1;
        } else {
            let x: usize = a[i];
            proof {
                assert forall|w: int| j <= w < b.len() implies before(
                    keys@,
                    x,
                    #[trigger] b[w],
                ) by {
                    assert(before(keys@, x, b[j as int]));
                    if w > j {
                        assert(before(keys@, b[j as int], b[w]));
                        lemma_before_trans(keys@, x, b[j as int], b[w]);
                    }
                }
                assert(a@.contains(x));
            }
            out.push(x);
            i = i + 1;
        }
    }
    out
}

fn order_range<K: SortKey>(keys: &Vec<K>, lo: usize, hi: usize) -> (p: Vec<usize>)
    requires
        lo <= hi <= keys.len(),
    ensures
        p.len() == hi - lo,
        forall|i: int| 0 <= i < p.len() ==> lo <= (#[trigger] p[i]) < hi,
        ordered(p@, keys@),
    decreases hi - lo,
{
    if hi - lo <= 1 {
        let mut p: Vec<usize> = Vec::new();
        if lo < hi {
            p.push(lo);
        }
        return p;
    }
    let mid: usize = lo + (hi - lo) / 2;
    let a = order_range(keys, lo, mid);
    let b = order_range(keys, mid, hi);
    merge(keys, &a, &b)
}

/// The permutation that sorts `keys`, equal keys keeping their order.
pub fn stable_order<K: SortKey>(keys: &Vec<K>) -> (p: Vec<usize>)
    ensures
        is_stable_order(p@, keys@),
{
    order_range(keys, 0, keys.len())
}

} // verus!
