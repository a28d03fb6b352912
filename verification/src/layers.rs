//! Drawing order by depth: creatures are drawn from the deepest layer (`z_index` 0) up, and
//! within a layer in the order they are kept, so that a nearer one covers a farther one.
use vstd::prelude::*;

verus! {

/// The positions, in increasing order, of the first `n` keys that equal `k`.
pub open spec fn layer_members(zs: Seq<u8>, k: int, n: int) -> Seq<usize>
    decreases n,
{
    if n <= 0 {
        seq![]
    } else {
        let p = layer_members(zs, k, n - 1);
        if zs[n - 1] == k {
            p.push((n - 1) as usize)
        } else {
            p
        }
    }
}

/// The positions of the keys below `k`: first those of key 0, then those of key 1, and so
/// on, each group in increasing order.
pub open spec fn layers_below(zs: Seq<u8>, k: int) -> Seq<usize>
    decreases k,
{
    if k <= 0 {
        seq![]
    } else {
        layers_below(zs, k - 1) + layer_members(zs, k - 1, zs.len() as int)
    }
}

/// The positions of all keys, grouped by key from the smallest up: the order of a stable
/// sort by key.
pub open spec fn layer_order(zs: Seq<u8>) -> Seq<usize> {
    layers_below(zs, 256)
}

/// `s` reordered as a stable sort by the keys `zs` orders it.
pub open spec fn layered<T>(s: Seq<T>, zs: Seq<u8>) -> Seq<T> {
    layer_order(zs).map_values(|j: usize| s[j as int])
}

pub proof fn lemma_layer_members_bounded(zs: Seq<u8>, k: int, n: int)
    requires
        n <= zs.len(),
    ensures
        forall|j: int|
            0 <= j < layer_members(zs, k, n).len() ==> #[trigger] layer_members(zs, k, n)[j]
                < n,
    decreases n,
{
    if n > 0 {
        lemma_layer_members_bounded(zs, k, n - 1);
        let p = layer_members(zs, k, n - 1);
        assert forall|j: int| 0 <= j < layer_members(zs, k, n).len() implies #[trigger] layer_members(
            zs,
            k,
            n,
        )[j] < n by {
            if j < p.len() {
                assert(layer_members(zs, k, n)[j] == p[j]);
            }
        }
    }
}

pub proof fn lemma_layers_below_bounded(zs: Seq<u8>, k: int)
    ensures
        forall|j: int|
            0 <= j < layers_below(zs, k).len() ==> #[trigger] layers_below(zs, k)[j] < zs.len(),
    decreases k,
{
    if k > 0 {
        lemma_layers_below_bounded(zs, k - 1);
        lemma_layer_members_bounded(zs, k - 1, zs.len() as int);
        let a = layers_below(zs, k - 1);
        let b = layer_members(zs, k - 1, zs.len() as int);
        assert forall|j: int| 0 <= j < layers_below(zs, k).len() implies #[trigger] layers_below(
            zs,
            k,
        )[j] < zs.len() by {
            if j < a.len() {
                assert(layers_below(zs, k)[j] == a[j]);
            } else {
                assert(layers_below(zs, k)[j] == b[j - a.len()]);
            }
        }
    }
}

/// The order in which to draw items whose depths are `zs`.
pub fn stable_layer_order(zs: &Vec<u8>) -> (order: Vec<usize>)
    ensures
        order@ == layer_order(zs@),
        forall|j: int| 0 <= j < order@.len() ==> #[trigger] order@[j] < zs@.len(),
{
    let n = zs.len();
    let mut order: Vec<usize> = Vec::new();
    let mut k: u16 = 0;
    while k < 256
        invariant
            k <= 256,
            n == zs@.len(),
            order@ == layers_below(zs@, k as int),
        decreases 256 - k,
    {
        let mut i: usize = 0;
        assert(layers_below(zs@, k as int) + layer_members(zs@, k as int, 0) =~= layers_below(
            zs@,
            k as int,
        ));
        while i < n
            invariant
                i <= n,
                k < 256,
                n == zs@.len(),
                order@ == layers_below(zs@, k as int) + layer_members(zs@, k as int, i as int),
            decreases n - i,
        {
            if zs[i] as u16 == k {
                order.push(i);
            }
            assert(order@ =~= layers_below(zs@, k as int) + layer_members(
                zs@,
                k as int,
                i + 1,
            ));
            i += 1;
        }
        k += 1;
    }
    proof {
        lemma_layers_below_bounded(zs@, 256);
    }
    order
}

/// The items of `v` in the order `order` names them.
pub fn gather<T: Copy>(v: &Vec<T>, order: &Vec<usize>) -> (r: Vec<T>)
    requires
        forall|j: int| 0 <= j < order@.len() ==> #[trigger] order@[j] < v@.len(),
    ensures
        r@ == order@.map_values(|j: usize| v@[j as int]),
{
    let mut r: Vec<T> = Vec::new();
    for j in 0..order.len()
        invariant
            forall|j: int| 0 <= j < order@.len() ==> #[trigger] order@[j] < v@.len(),
            r@ == order@.take(j as int).map_values(|j: usize| v@[j as int]),
    {
        r.push(v[order[j]]);
        assert(r@ =~= order@.take(j + 1).map_values(|j: usize| v@[j as int]));
    }
    assert(order@.take(order@.len() as int) =~= order@);
    r
}

/// How many of the first `n` keys equal `k`.
pub open spec fn count_equal(zs: Seq<u8>, k: int, n: int) -> nat
    decreases n,
{
    if n <= 0 {
        0
    } else {
        count_equal(zs, k, n - 1) + if zs[n - 1] == k {
            1nat
        } else {
            0nat
        }
    }
}

/// How many of the first `n` keys are below `k`.
pub open spec fn count_below(zs: Seq<u8>, k: int, n: int) -> nat
    decreases n,
{
    if n <= 0 {
        0
    } else {
        count_below(zs, k, n - 1) + if zs[n - 1] < k {
            1nat
        } else {
            0nat
        }
    }
}

proof fn lemma_members_facts(zs: Seq<u8>, k: int, n: int)
    requires
        0 <= n <= zs.len(),
        zs.len() <= usize::MAX,
    ensures
        layer_members(zs, k, n).len() == count_equal(zs, k, n),
        forall|j: int|
            0 <= j < layer_members(zs, k, n).len() ==> #[trigger] layer_members(zs, k, n)[j] < n
                && zs[layer_members(zs, k, n)[j] as int] == k,
        forall|j1: int, j2: int|
            0 <= j1 < j2 < layer_members(zs, k, n).len() ==> #[trigger] layer_members(zs, k, n)[j1]
                < #[trigger] layer_members(zs, k, n)[j2],
    decreases n,
{
    if n > 0 {
        lemma_members_facts(zs, k, n - 1);
        let p = layer_members(zs, k, n - 1);
        let m = layer_members(zs, k, n);
        assert forall|j: int| 0 <= j < m.len() implies #[trigger] m[j] < n && zs[m[j] as int] == k by {
            if j < p.len() {
                assert(m[j] == p[j]);
            }
        }
        assert forall|j1: int, j2: int| 0 <= j1 < j2 < m.len() implies #[trigger] m[j1] < #[trigger] m[j2] by {
            if j2 < p.len() {
                assert(m[j1] == p[j1] && m[j2] == p[j2]);
            } else {
                assert(m[j1] == p[j1]);
            }
        }
    }
}

proof fn lemma_count_split(zs: Seq<u8>, k: int, n: int)
    requires
        0 <= n <= zs.len(),
    ensures
        count_below(zs, k + 1, n) == count_below(zs, k, n) + count_equal(zs, k, n),
    decreases n,
{
    if n > 0 {
        lemma_count_split(zs, k, n - 1);
    }
}

proof fn lemma_count_all(zs: Seq<u8>, n: int)
    requires
        0 <= n <= zs.len(),
    ensures
        count_below(zs, 256, n) == n,
    decreases n,
{
    if n > 0 {
        lemma_count_all(zs, n - 1);
    }
}

proof fn lemma_count_none(zs: Seq<u8>, n: int)
    requires
        0 <= n <= zs.len(),
    ensures
        count_below(zs, 0, n) == 0,
    decreases n,
{
    if n > 0 {
        lemma_count_none(zs, n - 1);
    }
}

proof fn lemma_below_facts(zs: Seq<u8>, k: int)
    requires
        0 <= k,
        zs.len() <= usize::MAX,
    ensures
        layers_below(zs, k).len() == count_below(zs, k, zs.len() as int),
        forall|j: int|
            0 <= j < layers_below(zs, k).len() ==> #[trigger] layers_below(zs, k)[j] < zs.len()
                && zs[layers_below(zs, k)[j] as int] < k,
        forall|j1: int, j2: int|
            0 <= j1 < j2 < layers_below(zs, k).len() ==> {
                let a = #[trigger] layers_below(zs, k)[j1];
                let b = #[trigger] layers_below(zs, k)[j2];
                &&& zs[a as int] <= zs[b as int]
                &&& zs[a as int] == zs[b as int] ==> a < b
                &&& a != b
            },
    decreases k,
{
    let n = zs.len() as int;
    if k == 0 {
        lemma_count_none(zs, n);
    } else {
        lemma_below_facts(zs, k - 1);
        lemma_members_facts(zs, k - 1, n);
        lemma_count_split(zs, k - 1, n);
        let l = layers_below(zs, k - 1);
        let m = layer_members(zs, k - 1, n);
        let o = layers_below(zs, k);
        assert(o == l + m);
        assert forall|j: int| 0 <= j < o.len() implies #[trigger] o[j] < zs.len() && zs[o[j] as int] < k by {
            if j < l.len() {
                assert(o[j] == l[j]);
            } else {
                assert(o[j] == m[j - l.len()]);
            }
        }
        assert forall|j1: int, j2: int| 0 <= j1 < j2 < o.len() implies {
            let a = #[trigger] o[j1];
            let b = #[trigger] o[j2];
            &&& zs[a as int] <= zs[b as int]
            &&& zs[a as int] == zs[b as int] ==> a < b
            &&& a != b
        } by {
            if j2 < l.len() {
                assert(o[j1] == l[j1] && o[j2] == l[j2]);
            } else if j1 < l.len() {
                assert(o[j1] == l[j1] && o[j2] == m[j2 - l.len()]);
            } else {
                assert(o[j1] == m[j1 - l.len()] && o[j2] == m[j2 - l.len()]);
            }
        }
    }
}

/// The drawing order is a stable sort by depth: it names every position exactly once,
/// deeper layers (smaller keys) come first, and within a layer positions keep their order.
pub proof fn lemma_layer_order_is_stable_sort(zs: Seq<u8>)
    requires
        zs.len() <= usize::MAX,
    ensures
        layer_order(zs).len() == zs.len(),
        forall|j: int| 0 <= j < zs.len() ==> #[trigger] layer_order(zs)[j] < zs.len(),
        forall|j1: int, j2: int|
            0 <= j1 < j2 < zs.len() ==> #[trigger] layer_order(zs)[j1] != #[trigger] layer_order(zs)[j2],
        forall|j1: int, j2: int|
            0 <= j1 < j2 < zs.len() ==> zs[#[trigger] layer_order(zs)[j1] as int] <= zs[#[trigger] layer_order(zs)[j2] as int],
        forall|j1: int, j2: int|
            0 <= j1 < j2 < zs.len() && zs[#[trigger] layer_order(zs)[j1] as int] == zs[#[trigger] layer_order(zs)[j2] as int]
                ==> layer_order(zs)[j1] < layer_order(zs)[j2],
{
    lemma_below_facts(zs, 256);
    lemma_count_all(zs, zs.len() as int);
}

/// Putting items in drawing order keeps every item and the depth order: the result is the
/// items at the positions of a stable sort by depth.
pub proof fn lemma_layered_is_stable_sort<T>(s: Seq<T>, zs: Seq<u8>)
    requires
        s.len() == zs.len(),
        zs.len() <= usize::MAX,
    ensures
        layered(s, zs).len() == s.len(),
        forall|j: int| 0 <= j < s.len() ==> #[trigger] layered(s, zs)[j] == s[layer_order(zs)[j] as int],
{
    lemma_layer_order_is_stable_sort(zs);
}

} // verus!
