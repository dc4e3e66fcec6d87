//! Backward demand propagation and plan building.
//!
//! Given the topologically sorted catalog, the technology status, and a seed
//! demand vector, the propagator walks the order in reverse — dependents
//! before their dependencies — so every item's accumulated demand is final
//! when visited, and pushes each item's pull onto its inputs. The plan
//! builder then derives, for every item with positive throughput, a node
//! with its facility count, and for every consuming relation an edge with
//! its flow and load bucket.

use crate::demand::{amt_upsert, demand_of, Demand};
use crate::error::Error;
use crate::graph::{classify_edge, spec_classify_edge, Color, Edge, EdgeV, Node, NodeV};
use crate::product::{
    catalog_view, catalog_wf, dep_index, lemma_dep_index_unique, CraftType, Product, ProductV,
};
use crate::rat::{canon, fadd, fdiv, fmul, frac_fits, frac_int, Frac, Ratio};
use crate::tech::{
    lemma_ov_index_unique, ov_view, spec_best_craft_speed, spec_tech_name, spec_tech_productivity,
    spec_tech_speed, tech_wf, CraftTech, CraftTechStatus,
};
use crate::text::str_eq;
use crate::toposort::{first_unretired_from, has_cycle, spec_topo_order, topological_sort};
use vstd::prelude::*;

verus! {

/// Index of the first catalog item with identifier `id`, or the length.
pub open spec fn product_index(cat: Seq<ProductV>, id: Seq<char>) -> int
    decreases cat.len(),
{
    if cat.len() == 0 {
        0
    } else if cat[0].id == id {
        0
    } else {
        1 + product_index(cat.skip(1), id)
    }
}

pub proof fn lemma_product_index(cat: Seq<ProductV>, id: Seq<char>)
    ensures
        0 <= product_index(cat, id) <= cat.len(),
        forall|i: int| 0 <= i < product_index(cat, id) ==> cat[i].id != id,
        product_index(cat, id) < cat.len() ==> cat[product_index(cat, id)].id == id,
    decreases cat.len(),
{
    if cat.len() > 0 && cat[0].id != id {
        lemma_product_index(cat.skip(1), id);
        assert forall|i: int| 0 <= i < product_index(cat, id) implies cat[i].id != id by {
            if i > 0 {
                assert(cat[i] == cat.skip(1)[i - 1]);
            }
        }
        if product_index(cat, id) < cat.len() {
            assert(cat[product_index(cat, id)] == cat.skip(1)[product_index(cat.skip(1), id)]);
        }
    }
}

pub proof fn lemma_product_index_unique(cat: Seq<ProductV>, id: Seq<char>, k: int)
    requires
        0 <= k <= cat.len(),
        forall|i: int| 0 <= i < k ==> cat[i].id != id,
        k < cat.len() ==> cat[k].id == id,
    ensures
        product_index(cat, id) == k,
    decreases cat.len(),
{
    if cat.len() > 0 && cat[0].id != id {
        assert forall|i: int| 0 <= i < k - 1 implies cat.skip(1)[i].id != id by {
            assert(cat.skip(1)[i] == cat[i + 1]);
        }
        if k - 1 < cat.skip(1).len() {
            assert(cat.skip(1)[k - 1] == cat[k]);
        }
        lemma_product_index_unique(cat.skip(1), id, k - 1);
    }
}

/// The facility that crafts the item `id`, resolved against the catalog:
/// its override if present, else the default for its craft type, else
/// nothing when the identifier is unknown.
pub open spec fn spec_tech_of_id(
    tech: CraftTechStatus,
    cat: Seq<ProductV>,
    id: Seq<char>,
) -> Option<CraftTech> {
    match tech.spec_override_of(id) {
        Some(t) => Some(t),
        None => {
            let k = product_index(cat, id);
            if k < cat.len() {
                Some(tech.spec_default_tech(cat[k].craft_type))
            } else {
                None
            }
        },
    }
}

/// The productivity divisor used for a dependency on `id`: the resolved
/// facility's productivity, or one when the identifier is unknown.
pub open spec fn spec_productivity_for(
    tech: CraftTechStatus,
    cat: Seq<ProductV>,
    id: Seq<char>,
) -> Frac {
    match spec_tech_of_id(tech, cat, id) {
        Some(t) => spec_tech_productivity(t),
        None => frac_int(1),
    }
}

/// The recorded override for `id`, if any.
fn override_for<'a>(tech: &'a CraftTechStatus, id: &str) -> (r: Option<&'a CraftTech>)
    requires
        tech.wf(),
    ensures
        match r {
            Some(t) => tech.spec_override_of(id@) == Some(*t) && tech_wf(*t),
            None => tech.spec_override_of(id@) is None,
        },
{
    let ghost s = ov_view(tech.override_by_product@);
    let n = tech.override_by_product.len();
    let mut j: usize = 0;
    while j < n
        invariant
            0 <= j <= n == tech.override_by_product@.len(),
            tech.wf(),
            s == ov_view(tech.override_by_product@),
            forall|i: int| 0 <= i < j ==> s[i].0 != id@,
        decreases n - j,
    {
        if str_eq(tech.override_by_product[j].0.as_str(), id) {
            proof {
                lemma_ov_index_unique(s, id@, j as int);
            }
            return Some(&tech.override_by_product[j].1);
        }
        j = j + 1;
    }
    proof {
        lemma_ov_index_unique(s, id@, n as int);
    }
    None
}

/// Index of the catalog item with identifier `id`, if any.
fn find_product(catalog: &Vec<Product>, id: &str) -> (r: Option<usize>)
    ensures
        match r {
            Some(k) => k < catalog@.len() && product_index(catalog_view(catalog@), id@)
                == k as int,
            None => product_index(catalog_view(catalog@), id@) == catalog@.len(),
        },
{
    let ghost cat = catalog_view(catalog@);
    let n = catalog.len();
    let mut j: usize = 0;
    while j < n
        invariant
            0 <= j <= n == catalog@.len(),
            cat == catalog_view(catalog@),
            forall|i: int| 0 <= i < j ==> cat[i].id != id@,
        decreases n - j,
    {
        if str_eq(catalog[j].id.as_str(), id) {
            proof {
                lemma_product_index_unique(cat, id@, j as int);
            }
            return Some(j);
        }
        j = j + 1;
    }
    proof {
        lemma_product_index_unique(cat, id@, n as int);
    }
    None
}

/// The productivity divisor for a dependency on `id`.
fn productivity_for(tech: &CraftTechStatus, catalog: &Vec<Product>, id: &str) -> (r: Ratio)
    requires
        tech.wf(),
    ensures
        r.wf(),
        r@ == spec_productivity_for(*tech, catalog_view(catalog@), id@),
        r@.num >= 1,
{
    match override_for(tech, id) {
        Some(t) => t.productivity(),
        None => {
            match find_product(catalog, id) {
                Some(k) => {
                    let t = catalog[k].craft_type.craft_tech(tech);
                    t.productivity()
                },
                None => Ratio::one(),
            }
        },
    }
}

/// `x * y / d1 / q`, reduced at every step; `None` exactly when an
/// intermediate result cannot be represented.
pub open spec fn spec_scaled_rate(x: Frac, y: Frac, d1: Frac, q: int) -> Option<Frac> {
    let m1 = canon(fmul(x, y));
    if !frac_fits(m1) {
        None
    } else {
        let m2 = canon(fdiv(m1, d1));
        if !frac_fits(m2) {
            None
        } else {
            let m3 = canon(fdiv(m2, frac_int(q)));
            if !frac_fits(m3) {
                None
            } else {
                Some(m3)
            }
        }
    }
}

/// Compute `x * y / d1 / q` exactly.
fn scaled_rate(x: &Ratio, y: &Ratio, d1: &Ratio, q: u32) -> (r: Option<Ratio>)
    requires
        x.wf(),
        y.wf(),
        d1.wf(),
        d1@.num >= 1,
        q >= 1,
    ensures
        r is Some <==> spec_scaled_rate(x@, y@, d1@, q as int) is Some,
        r matches Some(v) ==> v.wf() && Some(v@) == spec_scaled_rate(x@, y@, d1@, q as int),
{
    let m1 = match x.checked_mul(y) {
        Some(v) => v,
        None => {
            return None;
        },
    };
    let m2 = match m1.checked_div(d1) {
        Some(v) => v,
        None => {
            return None;
        },
    };
    let qr = Ratio::from_int(q);
    match m2.checked_div(&qr) {
        Some(v) => Some(v),
        None => None,
    }
}

/// `amount * qty / q`: the flow one consumer pulls.
pub open spec fn spec_flow(amount: Frac, qty: Frac, q: int) -> Option<Frac> {
    let m1 = canon(fmul(amount, qty));
    if !frac_fits(m1) {
        None
    } else {
        let m2 = canon(fdiv(m1, frac_int(q)));
        if !frac_fits(m2) {
            None
        } else {
            Some(m2)
        }
    }
}

/// Compute `amount * qty / q` exactly.
fn flow_rate(amount: &Ratio, qty: &Ratio, q: u32) -> (r: Option<Ratio>)
    requires
        amount.wf(),
        qty.wf(),
        q >= 1,
    ensures
        r is Some <==> spec_flow(amount@, qty@, q as int) is Some,
        r matches Some(v) ==> v.wf() && Some(v@) == spec_flow(amount@, qty@, q as int),
{
    let m1 = match amount.checked_mul(qty) {
        Some(v) => v,
        None => {
            return None;
        },
    };
    let qr = Ratio::from_int(q);
    match m1.checked_div(&qr) {
        Some(v) => Some(v),
        None => None,
    }
}

/// Push the first `j` dependencies of `p` onto the running demand `d`, with
/// `amount` the demand of `p` itself; `None` on a value out of range.
pub open spec fn spec_apply_deps(
    d: Seq<(Seq<char>, Frac)>,
    p: ProductV,
    amount: Frac,
    tech: CraftTechStatus,
    cat: Seq<ProductV>,
    j: nat,
) -> Option<Seq<(Seq<char>, Frac)>>
    decreases j,
{
    if j == 0 {
        Some(d)
    } else {
        match spec_apply_deps(d, p, amount, tech, cat, (j - 1) as nat) {
            None => None,
            Some(d1) => {
                let dep = p.dependencies[j - 1];
                let prod = spec_productivity_for(tech, cat, dep.id);
                match spec_scaled_rate(dep.quantity, amount, prod, p.quantity) {
                    None => None,
                    Some(delta) => {
                        let sum = canon(fadd(demand_of(d1, dep.id), delta));
                        if !frac_fits(sum) {
                            None
                        } else {
                            Some(amt_upsert(d1, dep.id, sum))
                        }
                    },
                }
            },
        }
    }
}

/// Once a dependency pass fails, it stays failed.
pub proof fn lemma_apply_deps_none(
    d: Seq<(Seq<char>, Frac)>,
    p: ProductV,
    amount: Frac,
    tech: CraftTechStatus,
    cat: Seq<ProductV>,
    j: nat,
    j2: nat,
)
    requires
        j <= j2,
        spec_apply_deps(d, p, amount, tech, cat, j) is None,
    ensures
        spec_apply_deps(d, p, amount, tech, cat, j2) is None,
    decreases j2,
{
    if j < j2 {
        lemma_apply_deps_none(d, p, amount, tech, cat, j, (j2 - 1) as nat);
    }
}

/// The demand vector after the last `k` items of the sorted order have
/// pushed their pulls; `None` on a value out of range.
pub open spec fn spec_propagate_upto(
    sorted: Seq<ProductV>,
    tech: CraftTechStatus,
    seed: Seq<(Seq<char>, Frac)>,
    k: nat,
) -> Option<Seq<(Seq<char>, Frac)>>
    decreases k,
{
    if k == 0 {
        Some(seed)
    } else {
        match spec_propagate_upto(sorted, tech, seed, (k - 1) as nat) {
            None => None,
            Some(d) => {
                let p = sorted[sorted.len() - k];
                spec_apply_deps(d, p, demand_of(d, p.id), tech, sorted, p.dependencies.len())
            },
        }
    }
}

/// Once propagation fails, it stays failed.
pub proof fn lemma_propagate_none(
    sorted: Seq<ProductV>,
    tech: CraftTechStatus,
    seed: Seq<(Seq<char>, Frac)>,
    k: nat,
    k2: nat,
)
    requires
        k <= k2,
        spec_propagate_upto(sorted, tech, seed, k) is None,
    ensures
        spec_propagate_upto(sorted, tech, seed, k2) is None,
    decreases k2,
{
    if k < k2 {
        lemma_propagate_none(sorted, tech, seed, k, (k2 - 1) as nat);
    }
}

/// The fully expanded demand vector of a sorted catalog.
pub open spec fn spec_propagate(
    sorted: Seq<ProductV>,
    tech: CraftTechStatus,
    seed: Seq<(Seq<char>, Frac)>,
) -> Option<Seq<(Seq<char>, Frac)>> {
    spec_propagate_upto(sorted, tech, seed, sorted.len())
}

/// Expand the seed demand over the sorted order, in reverse: every item's
/// own demand is final when its pulls are pushed onto its inputs. Unknown
/// dependency identifiers simply accumulate demand under their own name.
/// Fails, with nothing else reported, exactly when an exact rate leaves the
/// representable range.
pub fn propagate(sorted: &Vec<Product>, tech: &CraftTechStatus, seed: &Demand) -> (r: Result<
    Demand,
    Error,
>)
    requires
        tech.wf(),
        seed.wf(),
        forall|i: int|
            0 <= i < sorted@.len() ==> crate::product::product_wf(
                #[trigger] catalog_view(sorted@)[i],
            ),
    ensures
        ({
            let sv = catalog_view(sorted@);
            &&& (r is Ok <==> spec_propagate(sv, *tech, seed@) is Some)
            &&& (r matches Ok(d) ==> Some(d@) == spec_propagate(sv, *tech, seed@) && d.wf())
            &&& (r matches Err(e) ==> e is ValueOverflow)
        }),
{
    let ghost sv = catalog_view(sorted@);
    let n = sorted.len();
    let mut amounts = seed.duplicate();
    let mut idx: usize = 0;
    while idx < n
        invariant
            0 <= idx <= n == sorted@.len(),
            sv == catalog_view(sorted@),
            tech.wf(),
            forall|i: int|
                0 <= i < sorted@.len() ==> crate::product::product_wf(
                    #[trigger] catalog_view(sorted@)[i],
                ),
            amounts.wf(),
            Some(amounts@) == spec_propagate_upto(sv, *tech, seed@, idx as nat),
        decreases n - idx,
    {
        let p = &sorted[n - 1 - idx];
        let ghost pv = sv[sv.len() - (idx + 1)];
        proof {
            assert(pv == p@);
        }
        let amount = amounts.get(p.id.as_str());
        let ghost d_start = amounts@;
        let m = p.dependencies.len();
        let mut j: usize = 0;
        while j < m
            invariant
                0 <= j <= m == p.dependencies@.len(),
                0 <= idx < n == sorted@.len(),
                sv == catalog_view(sorted@),
                tech.wf(),
                pv == p@,
                pv == sv[sv.len() - (idx + 1)],
                amount.wf(),
                amount@ == demand_of(d_start, pv.id),
                crate::product::product_wf(pv),
                amounts.wf(),
                Some(d_start) == spec_propagate_upto(sv, *tech, seed@, idx as nat),
                Some(amounts@) == spec_apply_deps(d_start, pv, amount@, *tech, sv, j as nat),
            decreases m - j,
        {
            let dep = &p.dependencies[j];
            proof {
                assert(dep@ == pv.dependencies[j as int]);
                assert(crate::rat::frac_canonical(dep@.quantity));
            }
            let prod = productivity_for(tech, sorted, dep.id.as_str());
            let delta = match scaled_rate(&dep.quantity, &amount, &prod, p.quantity) {
                Some(v) => v,
                None => {
                    proof {
                        lemma_apply_deps_none(
                            d_start,
                            pv,
                            amount@,
                            *tech,
                            sv,
                            (j + 1) as nat,
                            pv.dependencies.len(),
                        );
                        lemma_propagate_none(sv, *tech, seed@, (idx + 1) as nat, sv.len());
                    }
                    return Err(Error::ValueOverflow);
                },
            };
            match amounts.add_to(dep.id.as_str(), delta) {
                Ok(_) => {},
                Err(_) => {
                    proof {
                        lemma_apply_deps_none(
                            d_start,
                            pv,
                            amount@,
                            *tech,
                            sv,
                            (j + 1) as nat,
                            pv.dependencies.len(),
                        );
                        lemma_propagate_none(sv, *tech, seed@, (idx + 1) as nat, sv.len());
                    }
                    return Err(Error::ValueOverflow);
                },
            }
            j = j + 1;
        }
        idx = idx + 1;
    }
    Ok(amounts)
}

/// The display color of an item's node, by craft type.
pub open spec fn spec_node_color(ct: CraftType) -> Color {
    match ct {
        CraftType::Ore => Color::Yellow,
        CraftType::Smelt => Color::Red,
        CraftType::Assemble => Color::Blue,
        CraftType::Chemical => Color::Green,
        CraftType::Silo => Color::Black,
        CraftType::Launch => Color::Black,
    }
}

fn node_color(ct: CraftType) -> (c: Color)
    ensures
        c == spec_node_color(ct),
{
    match ct {
        CraftType::Ore => Color::Yellow,
        CraftType::Smelt => Color::Red,
        CraftType::Assemble => Color::Blue,
        CraftType::Chemical => Color::Green,
        CraftType::Silo => Color::Black,
        CraftType::Launch => Color::Black,
    }
}

/// What building the edges of one item can come to.
pub enum EdgesOutcome {
    Edges(Seq<EdgeV>),
    ZeroSpeed(Seq<char>),
    TooBig,
}

/// The edges into item `c` contributed by the first `t` items of the sorted
/// order: one edge per consumer whose pull on `c` is positive.
pub open spec fn spec_child_edges(
    sorted: Seq<ProductV>,
    tech: CraftTechStatus,
    d: Seq<(Seq<char>, Frac)>,
    c: ProductV,
    t: nat,
) -> EdgesOutcome
    decreases t,
{
    if t == 0 {
        EdgesOutcome::Edges(Seq::empty())
    } else {
        match spec_child_edges(sorted, tech, d, c, (t - 1) as nat) {
            EdgesOutcome::Edges(es) => {
                let parent = sorted[t - 1];
                let di = dep_index(parent.dependencies, c.id);
                if di == parent.dependencies.len() {
                    EdgesOutcome::Edges(es)
                } else {
                    let pamt = demand_of(d, parent.id);
                    let qty = parent.dependencies[di].quantity;
                    match spec_flow(pamt, qty, parent.quantity) {
                        None => EdgesOutcome::TooBig,
                        Some(afp) => {
                            if afp.num == 0 {
                                EdgesOutcome::Edges(es)
                            } else {
                                let speed = spec_best_craft_speed(tech, c.craft_type);
                                if speed.num == 0 {
                                    EdgesOutcome::ZeroSpeed(c.id)
                                } else {
                                    match spec_scaled_rate(
                                        afp,
                                        c.craft_duration,
                                        speed,
                                        c.quantity,
                                    ) {
                                        None => EdgesOutcome::TooBig,
                                        Some(sa) => EdgesOutcome::Edges(
                                            es.push(
                                                EdgeV {
                                                    from: c.id,
                                                    to: parent.id,
                                                    amount: afp,
                                                    source_amount: sa,
                                                    color: spec_classify_edge(
                                                        afp,
                                                        demand_of(d, c.id),
                                                    ),
                                                },
                                            ),
                                        ),
                                    }
                                }
                            }
                        },
                    }
                }
            },
            other => other,
        }
    }
}

/// Once edge building fails, it stays failed.
pub proof fn lemma_child_edges_stuck(
    sorted: Seq<ProductV>,
    tech: CraftTechStatus,
    d: Seq<(Seq<char>, Frac)>,
    c: ProductV,
    t: nat,
    t2: nat,
)
    requires
        t <= t2,
        !(spec_child_edges(sorted, tech, d, c, t) is Edges),
    ensures
        spec_child_edges(sorted, tech, d, c, t2) == spec_child_edges(sorted, tech, d, c, t),
    decreases t2,
{
    if t < t2 {
        lemma_child_edges_stuck(sorted, tech, d, c, t, (t2 - 1) as nat);
    }
}

/// What building the plan can come to.
pub enum PlanOutcome {
    Plan(Seq<NodeV>, Seq<EdgeV>),
    ZeroSpeed(Seq<char>),
    TooBig,
}

/// The plan after the first `k` items of the sorted order: one node per item
/// with positive throughput, its edges appended in order.
pub open spec fn spec_plan_upto(
    sorted: Seq<ProductV>,
    tech: CraftTechStatus,
    d: Seq<(Seq<char>, Frac)>,
    k: nat,
) -> PlanOutcome
    decreases k,
{
    if k == 0 {
        PlanOutcome::Plan(Seq::empty(), Seq::empty())
    } else {
        match spec_plan_upto(sorted, tech, d, (k - 1) as nat) {
            PlanOutcome::Plan(ns, es) => {
                let c = sorted[k - 1];
                let amount = demand_of(d, c.id);
                if amount.num == 0 {
                    PlanOutcome::Plan(ns, es)
                } else {
                    let t = tech.spec_tech_for(c.id, c.craft_type);
                    let speed = spec_tech_speed(t);
                    if speed.num == 0 {
                        PlanOutcome::ZeroSpeed(c.id)
                    } else {
                        match spec_scaled_rate(amount, c.craft_duration, speed, c.quantity) {
                            None => PlanOutcome::TooBig,
                            Some(sa) => {
                                let node = NodeV {
                                    id: c.id,
                                    name: c.name,
                                    amount,
                                    source_amount: sa,
                                    source_name: spec_tech_name(t),
                                    color: spec_node_color(c.craft_type),
                                };
                                match spec_child_edges(sorted, tech, d, c, sorted.len()) {
                                    EdgesOutcome::Edges(ces) => PlanOutcome::Plan(
                                        ns.push(node),
                                        es + ces,
                                    ),
                                    EdgesOutcome::ZeroSpeed(id) => PlanOutcome::ZeroSpeed(id),
                                    EdgesOutcome::TooBig => PlanOutcome::TooBig,
                                }
                            },
                        }
                    }
                }
            },
            other => other,
        }
    }
}

/// Once plan building fails, it stays failed.
pub proof fn lemma_plan_stuck(
    sorted: Seq<ProductV>,
    tech: CraftTechStatus,
    d: Seq<(Seq<char>, Frac)>,
    k: nat,
    k2: nat,
)
    requires
        k <= k2,
        !(spec_plan_upto(sorted, tech, d, k) is Plan),
    ensures
        spec_plan_upto(sorted, tech, d, k2) == spec_plan_upto(sorted, tech, d, k),
    decreases k2,
{
    if k < k2 {
        lemma_plan_stuck(sorted, tech, d, k, (k2 - 1) as nat);
    }
}

/// The catalog in resolved order: dependencies before dependents.
pub open spec fn spec_sorted(cat: Seq<ProductV>) -> Seq<ProductV>
    recommends
        !has_cycle(cat),
{
    let ord = spec_topo_order(cat);
    Seq::new(cat.len(), |p: int| cat[ord[cat.len() - 1 - p]])
}

/// Everything one resolver run can come to.
pub enum ResolveOutcome {
    /// The recipe graph has a cycle; the identifier of the first item, in
    /// catalog order, left unresolved when the ordering stalled.
    Cycle(Seq<char>),
    /// The plan: nodes in resolved order, edges grouped by produced item.
    Plan(Seq<NodeV>, Seq<EdgeV>),
    /// A facility of speed zero was resolved for the named item.
    ZeroSpeed(Seq<char>),
    /// An exact rate left the representable range.
    TooBig,
}

/// The one-shot resolution of a catalog: order, expand, plan.
pub open spec fn spec_resolve(
    cat: Seq<ProductV>,
    tech: CraftTechStatus,
    seed: Seq<(Seq<char>, Frac)>,
) -> ResolveOutcome {
    if has_cycle(cat) {
        ResolveOutcome::Cycle(cat[first_unretired_from(spec_topo_order(cat), 0, cat.len())].id)
    } else {
        let sorted = spec_sorted(cat);
        match spec_propagate(sorted, tech, seed) {
            None => ResolveOutcome::TooBig,
            Some(d) => match spec_plan_upto(sorted, tech, d, sorted.len()) {
                PlanOutcome::Plan(ns, es) => ResolveOutcome::Plan(ns, es),
                PlanOutcome::ZeroSpeed(id) => ResolveOutcome::ZeroSpeed(id),
                PlanOutcome::TooBig => ResolveOutcome::TooBig,
            },
        }
    }
}

/// Every plan node names an item of the sorted catalog: a phantom
/// identifier — a dependency that names no item — never yields an entry,
/// however much demand accumulates under it.
pub proof fn lemma_plan_nodes_from_catalog(
    sorted: Seq<ProductV>,
    tech: CraftTechStatus,
    d: Seq<(Seq<char>, Frac)>,
    k: nat,
)
    requires
        k <= sorted.len(),
    ensures
        match spec_plan_upto(sorted, tech, d, k) {
            PlanOutcome::Plan(ns, es) => forall|i: int|
                0 <= i < ns.len() ==> exists|j: int|
                    0 <= j < sorted.len() && (#[trigger] ns[i]).id == sorted[j].id,
            _ => true,
        },
    decreases k,
{
    if k > 0 {
        lemma_plan_nodes_from_catalog(sorted, tech, d, (k - 1) as nat);
        match spec_plan_upto(sorted, tech, d, (k - 1) as nat) {
            PlanOutcome::Plan(ns, es) => {
                match spec_plan_upto(sorted, tech, d, k) {
                    PlanOutcome::Plan(ns2, es2) => {
                        assert forall|i: int| 0 <= i < ns2.len() implies exists|j: int|
                            0 <= j < sorted.len() && (#[trigger] ns2[i]).id == sorted[j].id by {
                            if i < ns.len() && ns2[i] == ns[i] {
                            } else if ns2.len() == ns.len() + 1 && i == ns.len() {
                                assert(0 <= k - 1 < sorted.len() && ns2[i].id == sorted[k - 1].id);
                            }
                        }
                    },
                    _ => {},
                }
            },
            _ => {},
        }
    }
}

/// Every entry of a resolved plan names an item of the catalog.
pub proof fn lemma_resolve_nodes_from_catalog(
    cat: Seq<ProductV>,
    tech: CraftTechStatus,
    seed: Seq<(Seq<char>, Frac)>,
)
    ensures
        match spec_resolve(cat, tech, seed) {
            ResolveOutcome::Plan(ns, es) => forall|i: int|
                0 <= i < ns.len() ==> exists|j: int|
                    0 <= j < cat.len() && (#[trigger] ns[i]).id == cat[j].id,
            _ => true,
        },
{
    if !has_cycle(cat) {
        let sorted = spec_sorted(cat);
        crate::toposort::lemma_order_is_permutation(cat);
        match spec_propagate(sorted, tech, seed) {
            None => {},
            Some(d) => {
                lemma_plan_nodes_from_catalog(sorted, tech, d, sorted.len());
                match spec_plan_upto(sorted, tech, d, sorted.len()) {
                    PlanOutcome::Plan(ns, es) => {
                        assert forall|i: int| 0 <= i < ns.len() implies exists|j: int|
                            0 <= j < cat.len() && (#[trigger] ns[i]).id == cat[j].id by {
                            let w = choose|w: int|
                                0 <= w < sorted.len() && (#[trigger] ns[i]).id == sorted[w].id;
                            let ord = spec_topo_order(cat);
                            let oi = ord[cat.len() - 1 - w];
                            assert(sorted[w] == cat[oi]);
                            assert(0 <= oi < cat.len() && ns[i].id == cat[oi].id);
                        }
                    },
                    _ => {},
                }
            },
        }
    }
}

/// The values of a node list.
pub open spec fn nodes_view(s: Seq<Node>) -> Seq<NodeV> {
    Seq::new(s.len(), |i: int| s[i]@)
}

/// The values of an edge list.
pub open spec fn edges_view(s: Seq<Edge>) -> Seq<EdgeV> {
    Seq::new(s.len(), |i: int| s[i]@)
}

/// First dependency of `p` on `id`, if any.
fn find_dep(p: &Product, id: &str) -> (r: Option<usize>)
    ensures
        match r {
            Some(j) => j < p@.dependencies.len() && dep_index(p@.dependencies, id@) == j as int,
            None => dep_index(p@.dependencies, id@) == p@.dependencies.len(),
        },
{
    let n = p.dependencies.len();
    let mut j: usize = 0;
    while j < n
        invariant
            0 <= j <= n == p@.dependencies.len(),
            forall|i: int| 0 <= i < j ==> p@.dependencies[i].id != id@,
        decreases n - j,
    {
        if str_eq(p.dependencies[j].id.as_str(), id) {
            proof {
                lemma_dep_index_unique(p@.dependencies, id@, j as int);
            }
            return Some(j);
        }
        j = j + 1;
    }
    proof {
        lemma_dep_index_unique(p@.dependencies, id@, n as int);
    }
    None
}

/// Resolve a catalog: topologically order it, expand the seed demand, and
/// derive the plan — one node per item with positive throughput and one
/// edge per consuming relation, both in deterministic order.
///
/// The outcome is exactly [`spec_resolve`] of the inputs: a cycle error for
/// a cyclic catalog, a zero-speed error when a needed facility cannot craft,
/// a value-overflow error when an exact rate cannot be represented, and the
/// plan otherwise. Phantom identifiers — dependencies naming no catalog item
/// — never surface among the nodes or edges.
pub fn resolve(products: &Vec<Product>, seed: &Demand, tech: &CraftTechStatus) -> (r: Result<
    (Vec<Node>, Vec<Edge>),
    Error,
>)
    requires
        catalog_wf(catalog_view(products@)),
        seed.wf(),
        tech.wf(),
    ensures
        ({
            let out = spec_resolve(catalog_view(products@), *tech, seed@);
            match out {
                ResolveOutcome::Cycle(id) => r matches Err(e) && e matches Error::Cycle(s) && s@
                    == id,
                ResolveOutcome::Plan(ns, es) => r matches Ok(pair) && nodes_view(pair.0@) == ns
                    && edges_view(pair.1@) == es,
                ResolveOutcome::ZeroSpeed(id) => r matches Err(e) && e matches Error::ZeroSpeed(s)
                    && s@ == id,
                ResolveOutcome::TooBig => r matches Err(e) && e is ValueOverflow,
            }
        }),
        r is Ok <==> spec_resolve(catalog_view(products@), *tech, seed@) is Plan,
        has_cycle(catalog_view(products@)) <==> (r matches Err(e) && e is Cycle),
{
    let ghost cat = catalog_view(products@);
    let sorted = match topological_sort(products) {
        Ok(s) => s,
        Err(e) => {
            return Err(e);
        },
    };
    let ghost sv = catalog_view(sorted@);
    proof {
        crate::toposort::lemma_order_is_permutation(cat);
        assert(sv =~= spec_sorted(cat));
        assert forall|i: int| 0 <= i < sv.len() implies crate::product::product_wf(
            #[trigger] sv[i],
        ) by {
            let ord = spec_topo_order(cat);
            assert(sv[i] == cat[ord[cat.len() - 1 - i]]);
        }
    }
    let expanded = match propagate(&sorted, tech, seed) {
        Ok(d) => d,
        Err(e) => {
            return Err(e);
        },
    };
    let ghost d = expanded@;
    let n = sorted.len();
    let mut nodes: Vec<Node> = Vec::new();
    let mut edges: Vec<Edge> = Vec::new();
    proof {
        assert(nodes_view(nodes@) =~= Seq::<NodeV>::empty());
        assert(edges_view(edges@) =~= Seq::<EdgeV>::empty());
    }
    let mut k: usize = 0;
    while k < n
        invariant
            0 <= k <= n == sorted@.len(),
            sv == catalog_view(sorted@),
            cat == catalog_view(products@),
            !has_cycle(cat),
            sv == spec_sorted(cat),
            seed.wf(),
            Some(d) == spec_propagate(sv, *tech, seed@),
            tech.wf(),
            expanded.wf(),
            d == expanded@,
            forall|i: int|
                0 <= i < sorted@.len() ==> crate::product::product_wf(
                    #[trigger] catalog_view(sorted@)[i],
                ),
            spec_plan_upto(sv, *tech, d, k as nat) == PlanOutcome::Plan(
                nodes_view(nodes@),
                edges_view(edges@),
            ),
        decreases n - k,
    {
        let c = &sorted[k];
        let ghost cv = sv[k as int];
        proof {
            assert(cv == c@);
        }
        let amount = expanded.get(c.id.as_str());
        if !amount.is_zero() {
            let t = tech.tech_for(c);
            let speed = t.speed();
            if speed.is_zero() {
                proof {
                    lemma_plan_stuck(sv, *tech, d, (k + 1) as nat, sv.len());
                }
                return Err(Error::ZeroSpeed(c.id.clone()));
            }
            let sa = match scaled_rate(&amount, &c.craft_duration, &speed, c.quantity) {
                Some(v) => v,
                None => {
                    proof {
                        lemma_plan_stuck(sv, *tech, d, (k + 1) as nat, sv.len());
                    }
                    return Err(Error::ValueOverflow);
                },
            };
            let node = Node::new(
                c.id.as_str(),
                c.name.as_str(),
                amount,
                sa,
                t.name(),
                node_color(c.craft_type),
            );
            // Edges: one per consumer pulling a positive flow of this item,
            // appended behind the edges of earlier items.
            let ghost base = edges@;
            proof {
                assert(edges_view(edges@).skip(base.len() as int) =~= Seq::<EdgeV>::empty());
            }
            let mut tp: usize = 0;
            while tp < n
                invariant
                    0 <= tp <= n == sorted@.len(),
                    0 <= k < n,
                    sv == catalog_view(sorted@),
                    cat == catalog_view(products@),
                    !has_cycle(cat),
                    sv == spec_sorted(cat),
                    seed.wf(),
                    Some(d) == spec_propagate(sv, *tech, seed@),
                    tech.wf(),
                    expanded.wf(),
                    d == expanded@,
                    cv == sorted@[k as int]@,
                    cv == c@,
                    amount.wf(),
                    amount@ == demand_of(d, cv.id),
                    crate::product::product_wf(cv),
                    node@ == (NodeV {
                        id: cv.id,
                        name: cv.name,
                        amount: amount@,
                        source_amount: sa@,
                        source_name: spec_tech_name(tech.spec_tech_for(cv.id, cv.craft_type)),
                        color: spec_node_color(cv.craft_type),
                    }),
                    forall|i: int|
                        0 <= i < sorted@.len() ==> crate::product::product_wf(
                            #[trigger] catalog_view(sorted@)[i],
                        ),
                    amount@.num != 0,
                    sa.wf(),
                    ({
                        let tv = tech.spec_tech_for(cv.id, cv.craft_type);
                        spec_tech_speed(tv).num != 0 && Some(sa@) == spec_scaled_rate(
                            amount@,
                            cv.craft_duration,
                            spec_tech_speed(tv),
                            cv.quantity,
                        )
                    }),
                    spec_plan_upto(sv, *tech, d, k as nat) == PlanOutcome::Plan(
                        nodes_view(nodes@),
                        edges_view(base),
                    ),
                    edges@.len() >= base.len(),
                    forall|i: int| 0 <= i < base.len() ==> edges@[i] == base[i],
                    spec_child_edges(sv, *tech, d, cv, tp as nat) == EdgesOutcome::Edges(
                        edges_view(edges@).skip(base.len() as int),
                    ),
                decreases n - tp,
            {
                let parent = &sorted[tp];
                let ghost pv = sv[tp as int];
                proof {
                    assert(pv == parent@);
                }
                match find_dep(parent, c.id.as_str()) {
                    None => {},
                    Some(di) => {
                        let pamt = expanded.get(parent.id.as_str());
                        let qty = parent.dependencies[di].quantity;
                        proof {
                            assert(qty@ == pv.dependencies[di as int].quantity);
                            assert(crate::rat::frac_canonical(qty@));
                        }
                        let afp = match flow_rate(&pamt, &qty, parent.quantity) {
                            Some(v) => v,
                            None => {
                                proof {
                                    assert(sv[(tp + 1) as nat - 1] == pv);
                                    assert(dep_index(pv.dependencies, cv.id) == di as int);
                                    assert(pamt@ == demand_of(d, pv.id));
                                    assert(qty@ == pv.dependencies[di as int].quantity);
                                    assert(spec_flow(
                                        demand_of(d, pv.id),
                                        pv.dependencies[di as int].quantity,
                                        pv.quantity,
                                    ) is None);
                                    assert(spec_child_edges(sv, *tech, d, cv, (tp + 1) as nat)
                                        == EdgesOutcome::TooBig);
                                    lemma_child_edges_stuck(sv, *tech, d, cv, (tp + 1) as nat, sv.len());
                                    assert(spec_plan_upto(sv, *tech, d, (k + 1) as nat)
                                        == PlanOutcome::TooBig);
                                    lemma_plan_stuck(sv, *tech, d, (k + 1) as nat, sv.len());
                                }
                                return Err(Error::ValueOverflow);
                            },
                        };
                        if !afp.is_zero() {
                            let best = c.craft_type.best_craft_speed(tech);
                            if best.is_zero() {
                                proof {
                                    assert(spec_child_edges(sv, *tech, d, cv, (tp + 1) as nat)
                                        == EdgesOutcome::ZeroSpeed(cv.id));
                                    lemma_child_edges_stuck(sv, *tech, d, cv, (tp + 1) as nat, sv.len());
                                    assert(spec_plan_upto(sv, *tech, d, (k + 1) as nat)
                                        == PlanOutcome::ZeroSpeed(cv.id));
                                    lemma_plan_stuck(sv, *tech, d, (k + 1) as nat, sv.len());
                                }
                                return Err(Error::ZeroSpeed(c.id.clone()));
                            }
                            let esa = match scaled_rate(&afp, &c.craft_duration, &best, c.quantity) {
                                Some(v) => v,
                                None => {
                                    proof {
                                        assert(spec_child_edges(sv, *tech, d, cv, (tp + 1) as nat)
                                            == EdgesOutcome::TooBig);
                                        lemma_child_edges_stuck(sv, *tech, d, cv, (tp + 1) as nat, sv.len());
                                        assert(spec_plan_upto(sv, *tech, d, (k + 1) as nat)
                                            == PlanOutcome::TooBig);
                                        lemma_plan_stuck(sv, *tech, d, (k + 1) as nat, sv.len());
                                    }
                                    return Err(Error::ValueOverflow);
                                },
                            };
                            let color = classify_edge(&afp, &amount);
                            let e = Edge::new(c.id.as_str(), parent.id.as_str(), afp, esa, color);
                            let ghost old_edges_in = edges@;
                            edges.push(e);
                            proof {
                                assert(edges_view(edges@).skip(base.len() as int) =~= edges_view(
                                    old_edges_in,
                                ).skip(base.len() as int).push(e@));
                                assert(spec_child_edges(sv, *tech, d, cv, (tp + 1) as nat)
                                    == EdgesOutcome::Edges(edges_view(edges@).skip(
                                    base.len() as int,
                                )));
                            }
                        }
                    },
                }
                tp = tp + 1;
            }
            let ghost old_nodes = nodes@;
            nodes.push(node);
            proof {
                assert(nodes_view(nodes@) =~= nodes_view(old_nodes).push(node@));
                assert(edges_view(edges@) =~= edges_view(base) + edges_view(edges@).skip(
                    base.len() as int,
                ));
            }
        }
        k = k + 1;
    }
    Ok((nodes, edges))
}

} // verus!
