//! Deterministic topological ordering of the recipe graph, with cycle
//! detection.
//!
//! The resolver retires, one at a time, the item that no un-retired item
//! still depends on, always choosing the one that occurs **last** in the
//! catalog's declaration order (the reproducible tie-break). The retirement
//! sequence reversed is the result: every dependency comes strictly before
//! each of its dependents. If retirement stalls before every item is
//! retired, the remaining items contain a dependency cycle and the sort
//! fails; no partial order is ever returned.

use crate::error::Error;
use crate::product::{catalog_view, Product, ProductV};
use crate::text::str_eq;
use vstd::prelude::*;
use vstd::seq_lib::*;
use vstd::set_lib::*;

verus! {

/// Item `k` consumes item `i`: some dependency of `k` names `i`'s identifier.
pub open spec fn dep_on(cat: Seq<ProductV>, k: int, i: int) -> bool {
    &&& 0 <= k < cat.len()
    &&& 0 <= i < cat.len()
    &&& exists|d: int|
        0 <= d < cat[k].dependencies.len() && (#[trigger] cat[k].dependencies[d]).id == cat[i].id
}

/// A closed walk along dependency edges: each entry depends on the next, and
/// the last depends on the first. One entry suffices (a self-dependency).
pub open spec fn is_cycle(cat: Seq<ProductV>, path: Seq<int>) -> bool {
    &&& path.len() >= 1
    &&& forall|t: int| 0 <= t < path.len() - 1 ==> #[trigger] dep_on(cat, path[t], path[t + 1])
    &&& dep_on(cat, path[path.len() - 1], path[0])
}

/// The recipe graph has a dependency cycle.
pub open spec fn has_cycle(cat: Seq<ProductV>) -> bool {
    exists|path: Seq<int>| is_cycle(cat, path)
}

/// Item `i` can be retired: not yet retired, and every item that depends on
/// it already is.
pub open spec fn ready(cat: Seq<ProductV>, done: Seq<int>, i: int) -> bool {
    &&& 0 <= i < cat.len()
    &&& !done.contains(i)
    &&& forall|k: int| #[trigger] dep_on(cat, k, i) ==> done.contains(k)
}

/// The largest ready index below `m`, if any.
pub open spec fn pick_from(cat: Seq<ProductV>, done: Seq<int>, m: nat) -> Option<int>
    decreases m,
{
    if m == 0 {
        None
    } else if ready(cat, done, m - 1) {
        Some(m - 1)
    } else {
        pick_from(cat, done, (m - 1) as nat)
    }
}

/// The item retired next: the ready item last in declaration order.
pub open spec fn spec_pick(cat: Seq<ProductV>, done: Seq<int>) -> Option<int> {
    pick_from(cat, done, cat.len())
}

/// Retire ready items until none is left or the fuel runs out.
pub open spec fn topo_from(cat: Seq<ProductV>, done: Seq<int>, fuel: nat) -> Seq<int>
    decreases fuel,
{
    if fuel == 0 {
        done
    } else {
        match spec_pick(cat, done) {
            None => done,
            Some(i) => topo_from(cat, done.push(i), (fuel - 1) as nat),
        }
    }
}

/// The retirement sequence of a catalog: the deterministic order the
/// resolver produces, before the final reversal.
pub open spec fn spec_topo_order(cat: Seq<ProductV>) -> Seq<int> {
    topo_from(cat, Seq::empty(), cat.len())
}

/// Invariant of a retirement sequence: valid indices, no repeats, and every
/// consumer retired before what it consumes.
pub open spec fn done_inv(cat: Seq<ProductV>, done: Seq<int>) -> bool {
    &&& forall|p: int| 0 <= p < done.len() ==> 0 <= #[trigger] done[p] < cat.len()
    &&& forall|p: int, q: int| 0 <= p < q < done.len() ==> done[p] != done[q]
    &&& forall|p: int, k: int|
        0 <= p < done.len() && #[trigger] dep_on(cat, k, done[p]) ==> done.take(p).contains(k)
}

pub proof fn lemma_pick_from_props(cat: Seq<ProductV>, done: Seq<int>, m: nat)
    requires
        m <= cat.len(),
    ensures
        match pick_from(cat, done, m) {
            Some(i) => ready(cat, done, i) && 0 <= i < m && forall|j: int|
                i < j < m ==> !ready(cat, done, j),
            None => forall|j: int| 0 <= j < m ==> !ready(cat, done, j),
        },
    decreases m,
{
    if m > 0 && !ready(cat, done, m - 1) {
        lemma_pick_from_props(cat, done, (m - 1) as nat);
    }
}

/// A retirement sequence has no more entries than the catalog has items.
pub proof fn lemma_done_bound(cat: Seq<ProductV>, done: Seq<int>)
    requires
        done_inv(cat, done),
    ensures
        done.len() <= cat.len(),
        done.len() == done.to_set().len(),
{
    broadcast use vstd::set::group_set_axioms;

    assert(done.no_duplicates());
    done.unique_seq_to_set();
    let range = set_int_range(0, cat.len() as int);
    lemma_int_range(0, cat.len() as int);
    assert(done.to_set().subset_of(range));
    lemma_len_subset(done.to_set(), range);
}

/// A full retirement sequence has retired every item.
pub proof fn lemma_done_full(cat: Seq<ProductV>, done: Seq<int>, i: int)
    requires
        done_inv(cat, done),
        done.len() == cat.len(),
        0 <= i < cat.len(),
    ensures
        done.contains(i),
{
    broadcast use vstd::set::group_set_axioms;

    if !done.contains(i) {
        lemma_done_bound(cat, done);
        let range = set_int_range(0, cat.len() as int);
        lemma_int_range(0, cat.len() as int);
        assert(done.to_set().subset_of(range.remove(i)));
        lemma_len_subset(done.to_set(), range.remove(i));
    }
}

/// Short of a full retirement there is an unretired item.
pub proof fn lemma_exists_unretired(cat: Seq<ProductV>, done: Seq<int>) -> (u: int)
    requires
        done_inv(cat, done),
        done.len() < cat.len(),
    ensures
        0 <= u < cat.len(),
        !done.contains(u),
{
    broadcast use vstd::set::group_set_axioms;

    lemma_done_bound(cat, done);
    let range = set_int_range(0, cat.len() as int);
    lemma_int_range(0, cat.len() as int);
    if forall|j: int| 0 <= j < cat.len() ==> #[trigger] done.contains(j) {
        assert(range.subset_of(done.to_set()));
        lemma_len_subset(range, done.to_set());
        assert(false);
    }
    let u = choose|j: int| 0 <= j < cat.len() && !(#[trigger] done.contains(j));
    u
}

/// Retiring a ready item preserves the invariant.
pub proof fn lemma_step_inv(cat: Seq<ProductV>, done: Seq<int>, i: int)
    requires
        done_inv(cat, done),
        ready(cat, done, i),
    ensures
        done_inv(cat, done.push(i)),
{
    let d2 = done.push(i);
    assert forall|p: int, k: int|
        0 <= p < d2.len() && #[trigger] dep_on(cat, k, d2[p]) implies d2.take(p).contains(k) by {
        if p < done.len() {
            assert(d2[p] == done[p]);
            assert(done.take(p).contains(k));
            let q = choose|q: int| 0 <= q < p && done.take(p)[q] == k;
            assert(d2.take(p)[q] == k);
        } else {
            assert(d2[p] == i);
            assert(done.contains(k));
            let q = choose|q: int| 0 <= q < done.len() && done[q] == k;
            assert(d2.take(p)[q] == k);
        }
    }
    assert forall|p: int, q: int| 0 <= p < q < d2.len() implies d2[p] != d2[q] by {
        if q == done.len() {
            assert(!done.contains(i));
            assert(done[p] == d2[p]);
        }
    }
}

/// Once nothing is ready, further fuel changes nothing.
pub proof fn lemma_topo_stuck(cat: Seq<ProductV>, done: Seq<int>, fuel: nat)
    requires
        spec_pick(cat, done) is None,
    ensures
        topo_from(cat, done, fuel) == done,
    decreases fuel,
{
    if fuel > 0 {
        lemma_topo_stuck(cat, done, (fuel - 1) as nat);
    }
}

/// What retirement reaches: the invariant is kept, the given prefix stays,
/// and it stops only when complete or stuck.
pub proof fn lemma_topo_from_props(cat: Seq<ProductV>, done: Seq<int>, fuel: nat)
    requires
        done_inv(cat, done),
    ensures
        ({
            let r = topo_from(cat, done, fuel);
            &&& done_inv(cat, r)
            &&& done.is_prefix_of(r)
            &&& r.len() <= done.len() + fuel
            &&& r.len() == done.len() + fuel || spec_pick(cat, r) is None
        }),
    decreases fuel,
{
    assert(done.is_prefix_of(done));
    if fuel > 0 {
        match spec_pick(cat, done) {
            None => {},
            Some(i) => {
                lemma_pick_from_props(cat, done, cat.len());
                lemma_step_inv(cat, done, i);
                lemma_topo_from_props(cat, done.push(i), (fuel - 1) as nat);
                assert(done.is_prefix_of(done.push(i)));
                let r = topo_from(cat, done, fuel);
                assert(done.push(i).is_prefix_of(r));
                assert(done =~= done.push(i).take(done.len() as int));
                assert(done =~= r.take(done.len() as int));
            },
        }
    }
}

/// For an acyclic catalog the retirement order is a permutation of the
/// catalog's indices: every item exactly once.
pub proof fn lemma_order_is_permutation(cat: Seq<ProductV>)
    requires
        !has_cycle(cat),
    ensures
        ({
            let ord = spec_topo_order(cat);
            &&& ord.len() == cat.len()
            &&& forall|p: int| 0 <= p < ord.len() ==> 0 <= #[trigger] ord[p] < cat.len()
            &&& forall|p: int, q: int| 0 <= p < q < ord.len() ==> ord[p] != ord[q]
            &&& forall|i: int| 0 <= i < cat.len() ==> ord.contains(i)
        }),
{
    let empty = Seq::<int>::empty();
    assert(done_inv(cat, empty));
    lemma_topo_from_props(cat, empty, cat.len());
    let ord = spec_topo_order(cat);
    if ord.len() < cat.len() {
        lemma_stuck_cycle(cat, ord);
    }
    assert forall|i: int| 0 <= i < cat.len() implies ord.contains(i) by {
        lemma_done_full(cat, ord, i);
    }
}

/// Index of the first occurrence of `x` in `s`, or the length if absent.
pub open spec fn seq_index_of(s: Seq<int>, x: int) -> int
    decreases s.len(),
{
    if s.len() == 0 {
        0
    } else if s[0] == x {
        0
    } else {
        1 + seq_index_of(s.skip(1), x)
    }
}

pub proof fn lemma_seq_index_of(s: Seq<int>, x: int)
    ensures
        0 <= seq_index_of(s, x) <= s.len(),
        s.contains(x) ==> seq_index_of(s, x) < s.len() && s[seq_index_of(s, x)] == x,
        forall|i: int| 0 <= i < seq_index_of(s, x) ==> s[i] != x,
    decreases s.len(),
{
    if s.len() > 0 && s[0] != x {
        lemma_seq_index_of(s.skip(1), x);
        if s.contains(x) {
            let w = choose|w: int| 0 <= w < s.len() && s[w] == x;
            assert(s.skip(1)[w - 1] == x);
            assert(s.skip(1).contains(x));
        }
        assert forall|i: int| 0 <= i < seq_index_of(s, x) implies s[i] != x by {
            if i > 0 {
                assert(s[i] == s.skip(1)[i - 1]);
            }
        }
    }
}

/// In a retirement sequence, a consumer sits strictly before what it
/// consumes.
proof fn lemma_consumer_earlier(cat: Seq<ProductV>, done: Seq<int>, k: int, i: int)
    requires
        done_inv(cat, done),
        dep_on(cat, k, i),
        done.contains(i),
    ensures
        done.contains(k),
        seq_index_of(done, k) < seq_index_of(done, i),
{
    lemma_seq_index_of(done, i);
    lemma_seq_index_of(done, k);
    let p = seq_index_of(done, i);
    assert(dep_on(cat, k, done[p]));
    assert(done.take(p).contains(k));
    let q = choose|q: int| 0 <= q < p && done.take(p)[q] == k;
    assert(done[q] == k);
    assert(done.contains(k));
    // The first occurrence of k is no later than q < p, and p is the first
    // occurrence of i; k != i because indices before p never hold i.
    assert(seq_index_of(done, k) <= q);
}

/// Along a cycle the first-retirement positions would have to increase
/// forever: a complete retirement order refutes every cycle.
#[verifier::rlimit(50)]
proof fn lemma_path_positions(cat: Seq<ProductV>, done: Seq<int>, path: Seq<int>, t: int)
    requires
        done_inv(cat, done),
        is_cycle(cat, path),
        forall|j: int| 0 <= j < cat.len() ==> #[trigger] done.contains(j),
        0 <= t < path.len(),
    ensures
        seq_index_of(done, path[t]) >= seq_index_of(done, path[0]) + t,
    decreases t,
{
    if t > 0 {
        lemma_path_positions(cat, done, path, t - 1);
        assert(dep_on(cat, path[t - 1], path[t - 1 + 1]));
        assert(0 <= path[t] < cat.len());
        lemma_consumer_earlier(cat, done, path[t - 1], path[t]);
    }
}

/// A complete retirement order shows the catalog acyclic.
#[verifier::rlimit(50)]
pub proof fn lemma_complete_acyclic(cat: Seq<ProductV>, done: Seq<int>)
    requires
        done_inv(cat, done),
        done.len() == cat.len(),
    ensures
        !has_cycle(cat),
{
    if has_cycle(cat) {
        let path = choose|path: Seq<int>| is_cycle(cat, path);
        assert forall|j: int| 0 <= j < cat.len() implies #[trigger] done.contains(j) by {
            lemma_done_full(cat, done, j);
        }
        let last = path.len() - 1;
        lemma_path_positions(cat, done, path, last);
        assert(dep_on(cat, path[last], path[0]));
        lemma_consumer_earlier(cat, done, path[last], path[0]);
        assert(false);
    }
}

/// Build a walk against the edges: starting from an unretired item in a
/// stuck state, each step moves to an unretired consumer.
proof fn build_walk(cat: Seq<ProductV>, done: Seq<int>, start: int, steps: nat) -> (w: Seq<int>)
    requires
        forall|j: int| 0 <= j < cat.len() ==> !(#[trigger] ready(cat, done, j)),
        0 <= start < cat.len(),
        !done.contains(start),
    ensures
        w.len() == steps + 1,
        w[0] == start,
        forall|t: int| 0 <= t < w.len() ==> 0 <= #[trigger] w[t] < cat.len() && !done.contains(w[t]),
        forall|t: int| 0 <= t < w.len() - 1 ==> #[trigger] dep_on(cat, w[t + 1], w[t]),
    decreases steps,
{
    if steps == 0 {
        let w = seq![start];
        w
    } else {
        let w0 = build_walk(cat, done, start, (steps - 1) as nat);
        let last = w0[w0.len() - 1];
        assert(!ready(cat, done, last));
        let k = choose|k: int| #[trigger] dep_on(cat, k, last) && !done.contains(k);
        let w = w0.push(k);
        assert forall|t: int| 0 <= t < w.len() - 1 implies #[trigger] dep_on(cat, w[t + 1], w[t]) by {
            if t < w0.len() - 1 {
                assert(w[t] == w0[t] && w[t + 1] == w0[t + 1]);
            } else {
                assert(w[t] == last && w[t + 1] == k);
            }
        }
        w
    }
}

/// A stuck, incomplete retirement exposes a dependency cycle.
pub proof fn lemma_stuck_cycle(cat: Seq<ProductV>, done: Seq<int>)
    requires
        done_inv(cat, done),
        spec_pick(cat, done) is None,
        done.len() < cat.len(),
    ensures
        has_cycle(cat),
{
    broadcast use vstd::set::group_set_axioms;

    lemma_pick_from_props(cat, done, cat.len());
    let start = lemma_exists_unretired(cat, done);
    let n = cat.len();
    let w = build_walk(cat, done, start, n);
    // n + 1 values in [0, n) must repeat.
    assert(!w.no_duplicates()) by {
        if w.no_duplicates() {
            w.unique_seq_to_set();
            let range = set_int_range(0, n as int);
            lemma_int_range(0, n as int);
            assert(w.to_set().subset_of(range));
            lemma_len_subset(w.to_set(), range);
        }
    }
    let (a, b) = choose|a: int, b: int| 0 <= a < b < w.len() && w[a] == w[b];
    let path = w.subrange(a + 1, b + 1).reverse();
    assert(path.len() == b - a);
    assert forall|t: int| 0 <= t < path.len() implies path[t] == w[b - t] by {
        assert(path[t] == w.subrange(a + 1, b + 1)[(b - a - 1) - t]);
    }
    assert forall|t: int| 0 <= t < path.len() - 1 implies #[trigger] dep_on(cat, path[t], path[t + 1]) by {
        assert(path[t] == w[b - t] && path[t + 1] == w[b - t - 1]);
        assert(dep_on(cat, w[(b - t - 1) + 1], w[b - t - 1]));
    }
    assert(path[path.len() - 1] == w[a + 1]);
    assert(dep_on(cat, w[a + 1], w[a]));
    assert(path[0] == w[b]);
    assert(is_cycle(cat, path));
}

/// The first catalog index missing from a retirement sequence, from `i` up.
pub open spec fn first_unretired_from(done: Seq<int>, i: nat, n: nat) -> int
    decreases n - i,
{
    if i >= n {
        n as int
    } else if !done.contains(i as int) {
        i as int
    } else {
        first_unretired_from(done, i + 1, n)
    }
}

/// Whether some dependency of `p` names `id`.
fn has_dep(p: &Product, id: &String) -> (r: bool)
    ensures
        r == exists|d: int|
            0 <= d < p@.dependencies.len() && (#[trigger] p@.dependencies[d]).id == id@,
{
    let n = p.dependencies.len();
    let mut j: usize = 0;
    while j < n
        invariant
            0 <= j <= n == p@.dependencies.len(),
            forall|d: int| 0 <= d < j ==> (#[trigger] p@.dependencies[d]).id != id@,
        decreases n - j,
    {
        if str_eq(p.dependencies[j].id.as_str(), id.as_str()) {
            assert(p@.dependencies[j as int].id == id@);
            return true;
        }
        j = j + 1;
    }
    false
}

/// The integer view of an index list.
pub open spec fn idxs(s: Seq<usize>) -> Seq<int> {
    Seq::new(s.len(), |i: int| s[i] as int)
}

/// Whether item `i` is ready to retire: not yet retired, and no unretired
/// item depends on it.
fn is_ready_item(
    products: &Vec<Product>,
    picked: &Vec<bool>,
    i: usize,
    Ghost(done): Ghost<Seq<int>>,
) -> (r: bool)
    requires
        picked@.len() == products@.len(),
        i < products@.len(),
        forall|t: int|
            0 <= t < products@.len() ==> picked@[t] == done.contains(t),
    ensures
        r == ready(catalog_view(products@), done, i as int),
{
    let ghost cat = catalog_view(products@);
    if picked[i] {
        return false;
    }
    let n = products.len();
    let mut t: usize = 0;
    while t < n
        invariant
            0 <= t <= n == products@.len(),
            picked@.len() == products@.len(),
            i < products@.len(),
            cat == catalog_view(products@),
            forall|tt: int|
                0 <= tt < products@.len() ==> picked@[tt] == done.contains(tt),
            forall|k: int| 0 <= k < t && #[trigger] dep_on(cat, k, i as int) ==> done.contains(k),
        decreases n - t,
    {
        if !picked[t] {
            if has_dep(&products[t], &products[i].id) {
                proof {
                    assert(cat[t as int].dependencies == products@[t as int]@.dependencies);
                    assert(dep_on(cat, t as int, i as int));
                }
                return false;
            }
            proof {
                if dep_on(cat, t as int, i as int) {
                    let deps = cat[t as int].dependencies;
                    let d = choose|d: int|
                        0 <= d < deps.len() && (#[trigger] deps[d]).id == cat[i as int].id;
                    assert(products@[t as int]@.dependencies[d].id == products@[i as int].id@);
                    assert(false);
                }
            }
        }
        t = t + 1;
    }
    proof {
        assert forall|k: int| #[trigger] dep_on(cat, k, i as int) implies done.contains(k) by {
            assert(0 <= k < n);
        }
    }
    true
}

/// Topologically sort the catalog: dependencies strictly before dependents,
/// ties broken deterministically by declaration order, every item exactly
/// once; fails exactly when the recipe graph has a cycle.
pub fn topological_sort(products: &Vec<Product>) -> (r: Result<Vec<Product>, Error>)
    ensures
        ({
            let cat = catalog_view(products@);
            let ord = spec_topo_order(cat);
            &&& (r is Ok <==> !has_cycle(cat))
            &&& (r matches Ok(out) ==> {
                &&& out@.len() == cat.len()
                &&& forall|p: int|
                    0 <= p < out@.len() ==> (#[trigger] out@[p])@ == cat[ord[cat.len() - 1 - p]]
                &&& forall|p: int, q: int|
                    0 <= p < out@.len() && 0 <= q < out@.len() && dep_on(
                        catalog_view(out@),
                        p,
                        q,
                    ) ==> q < p
            })
            &&& (r matches Err(e) ==> (e matches Error::Cycle(id) && id@ == cat[first_unretired_from(
                ord,
                0,
                cat.len(),
            )].id))
        }),
{
    let ghost cat = catalog_view(products@);
    let n = products.len();
    let mut picked: Vec<bool> = Vec::new();
    let mut t: usize = 0;
    while t < n
        invariant
            0 <= t <= n,
            picked@.len() == t,
            forall|k: int| 0 <= k < t ==> !picked@[k],
        decreases n - t,
    {
        picked.push(false);
        t = t + 1;
    }
    let mut order_idx: Vec<usize> = Vec::new();
    proof {
        assert(idxs(order_idx@) =~= Seq::<int>::empty());
    }
    loop
        invariant
            n == products@.len(),
            cat == catalog_view(products@),
            cat.len() == n,
            picked@.len() == n,
            order_idx@.len() <= n,
            forall|k: int| 0 <= k < n ==> picked@[k] == idxs(order_idx@).contains(k),
            done_inv(cat, idxs(order_idx@)),
            topo_from(cat, idxs(order_idx@), (n - order_idx@.len()) as nat) == spec_topo_order(
                cat,
            ),
        ensures
            spec_pick(cat, idxs(order_idx@)) is None,
            idxs(order_idx@) == spec_topo_order(cat),
            n == products@.len(),
            cat == catalog_view(products@),
            picked@.len() == n,
            forall|k: int| 0 <= k < n ==> picked@[k] == idxs(order_idx@).contains(k),
            done_inv(cat, idxs(order_idx@)),
        decreases n - order_idx@.len(),
    {
        let ghost done = idxs(order_idx@);
        let mut pick: Option<usize> = None;
        let mut i: usize = 0;
        while i < n
            invariant
                0 <= i <= n == products@.len(),
                cat == catalog_view(products@),
                cat.len() == n,
                picked@.len() == n,
                done == idxs(order_idx@),
                forall|k: int| 0 <= k < n ==> picked@[k] == done.contains(k),
                (match pick {
                    None => pick_from(cat, done, i as nat) is None,
                    Some(x) => x < n && pick_from(cat, done, i as nat) == Some(x as int),
                }),
            decreases n - i,
        {
            if is_ready_item(products, &picked, i, Ghost(done)) {
                pick = Some(i);
            }
            i = i + 1;
        }
        match pick {
            Some(i) => {
                proof {
                    lemma_pick_from_props(cat, done, n as nat);
                    if done.len() == n {
                        lemma_done_full(cat, done, i as int);
                    }
                    lemma_step_inv(cat, done, i as int);
                    lemma_done_bound(cat, done.push(i as int));
                    assert(topo_from(cat, done, (n - done.len()) as nat) == topo_from(
                        cat,
                        done.push(i as int),
                        (n - done.len() - 1) as nat,
                    ));
                }
                picked[i] = true;
                order_idx.push(i);
                proof {
                    assert(idxs(order_idx@) =~= done.push(i as int));
                    assert forall|k: int| 0 <= k < n implies picked@[k] == idxs(
                        order_idx@,
                    ).contains(k) by {
                        if k == i as int {
                            assert(idxs(order_idx@)[order_idx@.len() - 1] == k);
                        } else {
                            if done.contains(k) {
                                let q = choose|q: int| 0 <= q < done.len() && done[q] == k;
                                assert(idxs(order_idx@)[q] == k);
                            } else if idxs(order_idx@).contains(k) {
                                let q = choose|q: int|
                                    0 <= q < idxs(order_idx@).len() && idxs(order_idx@)[q] == k;
                                assert(q < done.len());
                                assert(done[q] == k);
                            }
                        }
                    }
                }
            },
            None => {
                proof {
                    lemma_topo_stuck(cat, done, (n - order_idx@.len()) as nat);
                }
                break ;
            },
        }
    }
    let ghost done = idxs(order_idx@);
    if order_idx.len() == n {
        proof {
            lemma_complete_acyclic(cat, done);
        }
        let mut out: Vec<Product> = Vec::new();
        let mut p: usize = 0;
        while p < n
            invariant
                0 <= p <= n == products@.len(),
                cat == catalog_view(products@),
                done == idxs(order_idx@),
                done == spec_topo_order(cat),
                order_idx@.len() == n,
                done_inv(cat, done),
                out@.len() == p,
                forall|q: int| 0 <= q < p ==> (#[trigger] out@[q])@ == cat[done[n - 1 - q]],
            decreases n - p,
        {
            let idx = order_idx[n - 1 - p];
            proof {
                assert(0 <= done[n - 1 - p] < cat.len());
                assert(idx as int == done[n - 1 - p]);
            }
            out.push(products[idx].duplicate());
            p = p + 1;
        }
        proof {
            // The ordering property transfers to the output sequence.
            assert forall|p: int, q: int|
                0 <= p < out@.len() && 0 <= q < out@.len() && dep_on(
                    catalog_view(out@),
                    p,
                    q,
                ) implies q < p by {
                lemma_output_order(cat, done, out@, p, q);
            }
        }
        Ok(out)
    } else {
        proof {
            lemma_stuck_cycle(cat, done);
        }
        let mut u: usize = 0;
        while u < n
            invariant
                0 <= u <= n == products@.len(),
                cat == catalog_view(products@),
                done == idxs(order_idx@),
                picked@.len() == n,
                done.len() < n,
                done == spec_topo_order(cat),
                has_cycle(cat),
                done_inv(cat, done),
                forall|k: int| 0 <= k < n ==> picked@[k] == done.contains(k),
                forall|k: int| 0 <= k < u ==> picked@[k],
                first_unretired_from(done, 0, n as nat) == first_unretired_from(
                    done,
                    u as nat,
                    n as nat,
                ),
            decreases n - u,
        {
            if !picked[u] {
                return Err(Error::Cycle(products[u].id.clone()));
            }
            u = u + 1;
        }
        proof {
            lemma_done_bound(cat, done);
            let w = lemma_exists_unretired(cat, done);
            assert(picked@[w]);
            assert(false);
        }
        Err(Error::Cycle(String::new()))
    }
}

/// Positions in the reversed output respect the dependency relation.
proof fn lemma_output_order(
    cat: Seq<ProductV>,
    done: Seq<int>,
    outv: Seq<Product>,
    p: int,
    q: int,
)
    requires
        done_inv(cat, done),
        done.len() == cat.len(),
        outv.len() == cat.len(),
        forall|t: int| 0 <= t < outv.len() ==> (#[trigger] outv[t])@ == cat[done[cat.len() - 1 - t]],
        0 <= p < outv.len(),
        0 <= q < outv.len(),
        dep_on(catalog_view(outv), p, q),
    ensures
        q < p,
{
    let n = cat.len();
    let ip = done[n - 1 - p];
    let iq = done[n - 1 - q];
    assert(catalog_view(outv)[p] == cat[ip] && catalog_view(outv)[q] == cat[iq]);
    assert(dep_on(cat, ip, iq)) by {
        let d = choose|d: int|
            0 <= d < catalog_view(outv)[p].dependencies.len() && (#[trigger] catalog_view(
                outv,
            )[p].dependencies[d]).id == catalog_view(outv)[q].id;
        assert(cat[ip].dependencies[d].id == cat[iq].id);
    }
    assert(done.contains(iq)) by {
        assert(done[n - 1 - q] == iq);
    }
    lemma_consumer_earlier(cat, done, ip, iq);
    lemma_seq_index_of(done, ip);
    lemma_seq_index_of(done, iq);
    // With no duplicates, each entry's first occurrence is its position.
    assert(seq_index_of(done, ip) == n - 1 - p) by {
        lemma_unique_index(done, n - 1 - p);
    }
    assert(seq_index_of(done, iq) == n - 1 - q) by {
        lemma_unique_index(done, n - 1 - q);
    }
}

/// In a duplicate-free sequence the first occurrence of `s[p]` is `p`.
proof fn lemma_unique_index(s: Seq<int>, p: int)
    requires
        forall|a: int, b: int| 0 <= a < b < s.len() ==> s[a] != s[b],
        0 <= p < s.len(),
    ensures
        seq_index_of(s, s[p]) == p,
{
    lemma_seq_index_of(s, s[p]);
    assert(s.contains(s[p])) by {
        assert(s[p] == s[p]);
    }
    let f = seq_index_of(s, s[p]);
    if f < p {
        assert(s[f] == s[p]);
        assert(false);
    }
}

} // verus!
