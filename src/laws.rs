use vstd::prelude::*;
use vstd::arithmetic::div_mod::{lemma_div_is_ordered, lemma_div_multiples_vanish, lemma_fundamental_div_mod};
use crate::entities::{scarcity_of, Material, Order, ProductVariant, EQUILIBRIUM, ORDER_MATERIAL_NOT_AVAILABLE, ORDER_MATERIAL_SCARCE, ORDER_QUEUED, PRIORITIES};
use crate::invariants::{lemma_admit_wf, lemma_best_substitute_feasible, lemma_charge_nonneg, lemma_refresh_wf};
use crate::ledger::{lemma_sum_all_nonneg, lemma_sum_all_zero};
use crate::schedule::{
    admissible, admitted, after_order, best_substitute, cheaper, chosen_variant, drain_class, drain_classes, drained, feasible,
    forecast, manufacture, need, one_fn, order_ok, pledged, product_ok, projected_demand, queued_count, refresh,
    variant_ok, wf, InstanceView,
};

verus! {

/// No balance goes negative: in every well-formed plant, which every operation keeps, a
/// material's supply is at least zero and its demand is exactly what the backlogged orders
/// pledged against it, which is at least zero.
pub proof fn lemma_no_negative_balance(s: InstanceView, m: int)
    requires
        wf(s),
        0 <= m < s.materials.len(),
    ensures
        s.materials[m].supply >= 0,
        s.materials[m].demand as int == pledged(s.products, s.queues, m),
        pledged(s.products, s.queues, m) >= 0,
{
    lemma_charge_nonneg(s.products, m);
    lemma_sum_all_nonneg(s.queues, crate::schedule::charge_fn(s.products, m));
}

/// Scarcity never falls as demand grows on a fixed positive supply.
pub proof fn lemma_scarcity_monotonic(d1: u64, d2: u64, supply: u64)
    requires
        supply > 0,
        d1 <= d2,
    ensures
        scarcity_of(d1, supply) <= scarcity_of(d2, supply),
{
    lemma_div_is_ordered(d1 as int * 50, d2 as int * 50, supply as int);
}

/// On a positive supply, scarcity is exactly `EQUILIBRIUM` when demand equals supply. The
/// quotient is rounded down, so a demand above supply by less than a fiftieth of it rounds
/// to `EQUILIBRIUM` too; such demands are left out.
pub proof fn lemma_scarcity_equilibrium(demand: u64, supply: u64)
    requires
        supply > 0,
        demand <= supply || 51 * (supply as int) <= 50 * (demand as int),
    ensures
        (scarcity_of(demand, supply) == EQUILIBRIUM) == (demand == supply),
{
    let x = demand as int * 50;
    let s = supply as int;
    lemma_fundamental_div_mod(x, s);
    let q = x / s;
    let r = x % s;
    assert(0 <= r < s);
    assert(x == s * q + r);
    if demand == supply {
        lemma_div_multiples_vanish(50, s);
        assert(x == s * 50);
        assert(q == 50);
    } else if demand < supply {
        assert(x < 50 * s);
        assert(q < 50) by (nonlinear_arith)
            requires x == s * q + r, 0 <= r, x < 50 * s, s > 0;
    } else {
        assert(51 * s <= x);
        assert(q > 50) by (nonlinear_arith)
            requires x == s * q + r, r < s, 51 * s <= x, s > 0;
    }
}

/// A plant whose backlogs are empty from class `p` on is what a pass from `p` leaves.
proof fn lemma_drain_rest_empty(s: InstanceView, p: int)
    requires
        0 <= p,
        s.queues.len() == PRIORITIES,
        forall|q: int| p <= q < PRIORITIES ==> (#[trigger] s.queues[q]).len() == 0,
    ensures
        drain_classes(s, p) == s,
    decreases PRIORITIES - p,
{
    if p < PRIORITIES {
        assert(s.queues[p].len() == 0);
        assert(drain_class(s, p, 0) == s);
        lemma_drain_rest_empty(s, p + 1);
    }
}

/// Empty backlogs from `p` up to `pr` are passed over.
proof fn lemma_drain_skip_empty(s: InstanceView, p: int, pr: int)
    requires
        0 <= p <= pr <= PRIORITIES,
        forall|q: int| p <= q < pr ==> (#[trigger] s.queues[q]).len() == 0,
    ensures
        drain_classes(s, p) == drain_classes(s, pr),
    decreases pr - p,
{
    if p < pr {
        assert(s.queues[p].len() == 0);
        assert(drain_class(s, p, 0) == s);
        lemma_drain_skip_empty(s, p + 1, pr);
    }
}

/// What a pass does with entry `i` of backlog `p` when the entry's product has a single
/// variant: it makes the entry if its material covers it, else moves past it.
proof fn lemma_single_variant_step(s: InstanceView, p: int, i: int)
    requires
        wf(s),
        0 <= p < PRIORITIES,
        0 <= i < s.queues[p].len(),
        s.products[s.queues[p][i].product_id as int].variants.len() == 1,
    ensures
        ({
            let o = s.queues[p][i];
            let pid = o.product_id as int;
            let v = s.products[pid].variants[0];
            &&& wf(refresh(s, pid))
            &&& o.preferred_variant == 0
            &&& feasible(s.materials, v, o.product_amount) ==> drain_class(s, p, i) == drain_class(
                manufacture(refresh(s, pid), p, i, 0),
                p,
                i,
            )
            &&& !feasible(s.materials, v, o.product_amount) ==> drain_class(s, p, i) == drain_class(
                refresh(s, pid),
                p,
                i + 1,
            )
        }),
{
    let o = s.queues[p][i];
    let pid = o.product_id as int;
    assert(order_ok(s, o));
    assert(product_ok(s, pid));
    lemma_refresh_wf(s, pid);
    let s1 = refresh(s, pid);
    let v = s.products[pid].variants[0];
    let v1 = s1.products[pid].variants[0];
    assert(variant_ok(s, v, 0));
    assert(v1.components.material_id == v.components.material_id);
    assert(v1.components.material_amount == v.components.material_amount);
    let m = v.components.material_id as int;
    assert(s1.materials[m].supply == s.materials[m].supply);
    assert(feasible(s1.materials, v1, o.product_amount) == feasible(s.materials, v, o.product_amount));
    assert(best_substitute(s1.materials, s1.products[pid].variants, 0, o.product_amount, 0) is None);
    assert(best_substitute(s1.materials, s1.products[pid].variants, 0, o.product_amount, 1) is None);
}

/// A backlog holding one entry of a single-variant product, the others empty: a pass
/// makes the entry exactly when its material covers it, and otherwise only refreshes
/// caches. Scarcity plays no part in it.
pub proof fn lemma_drain_single_entry(s: InstanceView, pr: int)
    requires
        wf(s),
        0 <= pr < PRIORITIES,
        s.queues[pr].len() == 1,
        forall|q: int| 0 <= q < PRIORITIES && q != pr ==> (#[trigger] s.queues[q]).len() == 0,
        s.products[s.queues[pr][0].product_id as int].variants.len() == 1,
    ensures
        ({
            let o = s.queues[pr][0];
            let pid = o.product_id as int;
            let v = s.products[pid].variants[0];
            &&& feasible(s.materials, v, o.product_amount) ==> drained(s) == manufacture(refresh(s, pid), pr, 0, 0)
            &&& !feasible(s.materials, v, o.product_amount) ==> drained(s) == refresh(s, pid)
        }),
{
    let o = s.queues[pr][0];
    let pid = o.product_id as int;
    let v = s.products[pid].variants[0];
    lemma_drain_skip_empty(s, 0, pr);
    assert(drain_classes(s, pr) == drain_classes(drain_class(s, pr, 0), pr + 1));
    lemma_single_variant_step(s, pr, 0);
    let s1 = refresh(s, pid);
    if feasible(s.materials, v, o.product_amount) {
        let t = manufacture(s1, pr, 0, 0);
        assert(t.queues[pr].len() == 0);
        assert(drain_class(t, pr, 0) == t);
        assert forall|q: int| pr + 1 <= q < PRIORITIES implies (#[trigger] t.queues[q]).len() == 0 by {
            assert(t.queues[q] == s.queues[q]);
        }
        lemma_drain_rest_empty(t, pr + 1);
    } else {
        assert(drain_class(s1, pr, 1) == s1);
        assert forall|q: int| pr + 1 <= q < PRIORITIES implies (#[trigger] s1.queues[q]).len() == 0 by {
        }
        lemma_drain_rest_empty(s1, pr + 1);
    }
}

/// The order that `admitted` appends.
pub open spec fn new_order(pid: usize, amount: u64, pref: usize, user_id: usize, allow_substitution: bool) -> Order {
    Order { product_id: pid, product_amount: amount, preferred_variant: pref, user_id, allow_substitution }
}

proof fn lemma_idle_admit(s: InstanceView, pid: usize, amount: u64, user_id: usize, allow_substitution: bool)
    requires
        wf(s),
        forall|q: int| 0 <= q < PRIORITIES ==> (#[trigger] s.queues[q]).len() == 0,
        admissible(s, pid, amount, 0),
        amount > 0,
        s.products[pid as int].variants.len() == 1,
    ensures
        ({
            let a = admitted(s, pid, amount, 0, user_id, allow_substitution);
            let pr = s.products[pid as int].priority as int;
            let m = s.products[pid as int].variants[0].components.material_id as int;
            &&& wf(a)
            &&& 0 <= pr < PRIORITIES
            &&& 0 <= m < s.materials.len()
            &&& s.materials[m].demand == 0
            &&& a.queues[pr] == seq![new_order(pid, amount, 0, user_id, allow_substitution)]
            &&& forall|q: int| 0 <= q < PRIORITIES && q != pr ==> (#[trigger] a.queues[q]).len() == 0
        }),
{
    let a = admitted(s, pid, amount, 0, user_id, allow_substitution);
    let pr = s.products[pid as int].priority as int;
    assert(product_ok(s, pid as int));
    let v = s.products[pid as int].variants[0];
    assert(variant_ok(s, v, 0));
    let m = v.components.material_id as int;
    lemma_admit_wf(s, pid, amount, 0, user_id, allow_substitution);
    lemma_sum_all_zero(s.queues, crate::schedule::charge_fn(s.products, m));
    assert(s.materials[m].demand as int == pledged(s.products, s.queues, m));
    assert(a.queues[pr] =~= seq![new_order(pid, amount, 0, user_id, allow_substitution)]);
}

/// Ordering, from an idle plant, a product that a single variant makes out of a material
/// that covers the order gives the forecast queued; the next pass makes it, puts it with
/// its amount on top of the finished stack, takes exactly what it needs from the material
/// and releases the pledge. A supply of zero, which only an order needing no material
/// could be covered by, is left out: its scarcity is unbounded.
pub proof fn lemma_covered_order_is_made(s: InstanceView, pid: usize, amount: u64, user_id: usize, allow_substitution: bool)
    requires
        wf(s),
        forall|q: int| 0 <= q < PRIORITIES ==> (#[trigger] s.queues[q]).len() == 0,
        admissible(s, pid, amount, 0),
        amount > 0,
        s.products[pid as int].variants.len() == 1,
        feasible(s.materials, s.products[pid as int].variants[0], amount),
        s.materials[s.products[pid as int].variants[0].components.material_id as int].supply > 0,
    ensures
        forecast(s, pid, amount, 0) == ORDER_QUEUED,
        ({
            let d = drained(after_order(s, pid, amount, 0, user_id, allow_substitution));
            let v = s.products[pid as int].variants[0];
            let m = v.components.material_id as int;
            &&& d.finished == s.finished.push(new_order(pid, amount, 0, user_id, allow_substitution))
            &&& d.finished.last().product_amount == amount
            &&& d.materials[m].supply == s.materials[m].supply - need(v, amount)
            &&& d.materials[m].demand == 0
            &&& queued_count(d.queues) == 0
        }),
{
    lemma_idle_admit(s, pid, amount, user_id, allow_substitution);
    let a = admitted(s, pid, amount, 0, user_id, allow_substitution);
    let pr = s.products[pid as int].priority as int;
    let v = s.products[pid as int].variants[0];
    let m = v.components.material_id as int;
    let supply = s.materials[m].supply as int;
    let n = need(v, amount);
    assert(projected_demand(s, pid, amount, 0) == n);
    lemma_div_is_ordered(n * 50, supply * 50, supply);
    lemma_div_multiples_vanish(50, supply);
    assert(supply * 50 == 50 * supply);
    assert(scarcity_of(n as u64, supply as u64) <= EQUILIBRIUM);
    assert(after_order(s, pid, amount, 0, user_id, allow_substitution) == a);
    assert(a.queues[pr][0] == new_order(pid, amount, 0, user_id, allow_substitution));
    lemma_drain_single_entry(a, pr);
    lemma_refresh_wf(a, pid as int);
    let d = drained(a);
    assert forall|q: int| 0 <= q < d.queues.len() implies (#[trigger] d.queues[q]).len() == 0 by {
        if q == pr {
        } else {
            assert(a.queues[q].len() == 0);
        }
    }
    assert forall|q: int, j: int| 0 <= q < d.queues.len() && 0 <= j < d.queues[q].len() implies one_fn()(
        #[trigger] d.queues[q][j],
    ) == 0 by {
        assert(d.queues[q].len() == 0);
    }
    lemma_sum_all_zero(d.queues, one_fn());
}

/// Ordering, from an idle plant, a product that a single variant makes out of a material
/// whose supply falls short of the order gives the forecast not available, and the order
/// stays in its backlog through the pass that follows and through any further pass while
/// supply stays as it is. An order whose projected scarcity exceeds `EQUILIBRIUM` is
/// reported scarce instead and is left out.
pub proof fn lemma_short_order_waits(s: InstanceView, pid: usize, amount: u64, user_id: usize, allow_substitution: bool)
    requires
        wf(s),
        forall|q: int| 0 <= q < PRIORITIES ==> (#[trigger] s.queues[q]).len() == 0,
        admissible(s, pid, amount, 0),
        amount > 0,
        s.products[pid as int].variants.len() == 1,
        !feasible(s.materials, s.products[pid as int].variants[0], amount),
        scarcity_of(
            projected_demand(s, pid, amount, 0) as u64,
            s.materials[s.products[pid as int].variants[0].components.material_id as int].supply,
        ) <= EQUILIBRIUM,
    ensures
        forecast(s, pid, amount, 0) == ORDER_MATERIAL_NOT_AVAILABLE,
        ({
            let a = admitted(s, pid, amount, 0, user_id, allow_substitution);
            let d = after_order(s, pid, amount, 0, user_id, allow_substitution);
            &&& d.queues == a.queues
            &&& d.queues[s.products[pid as int].priority as int] == seq![
                new_order(pid, amount, 0, user_id, allow_substitution),
            ]
            &&& d.finished == s.finished
            &&& drained(d).queues == d.queues
            &&& drained(d).finished == s.finished
        }),
{
    lemma_idle_admit(s, pid, amount, user_id, allow_substitution);
    let a = admitted(s, pid, amount, 0, user_id, allow_substitution);
    let pr = s.products[pid as int].priority as int;
    let v = s.products[pid as int].variants[0];
    let m = v.components.material_id as int;
    assert(a.queues[pr][0] == new_order(pid, amount, 0, user_id, allow_substitution));
    assert(a.materials[m].supply == s.materials[m].supply);
    lemma_drain_single_entry(a, pr);
    let d = drained(a);
    let pidi = pid as int;
    assert(d == refresh(a, pidi));
    lemma_refresh_wf(a, pidi);
    assert(d.products[pidi].variants.len() == 1);
    assert(d.materials[m].supply == a.materials[m].supply);
    assert(d.products[pidi].variants[0].components.material_id == v.components.material_id);
    assert(d.products[pidi].variants[0].components.material_amount == v.components.material_amount);
    lemma_drain_single_entry(d, pr);
}

/// An order whose projected scarcity exceeds `EQUILIBRIUM` while supply covers it is
/// reported scarce, yet admitted: it joins the end of its backlog like any other. Whether
/// a later pass makes it depends on supply alone (see `lemma_drain_single_entry`).
pub proof fn lemma_scarce_order_is_queued(
    s: InstanceView,
    pid: usize,
    amount: u64,
    pref: usize,
    user_id: usize,
    allow_substitution: bool,
)
    requires
        wf(s),
        admissible(s, pid, amount, pref),
        amount > 0,
        feasible(s.materials, s.products[pid as int].variants[pref as int], amount),
        scarcity_of(
            projected_demand(s, pid, amount, pref) as u64,
            s.materials[s.products[pid as int].variants[pref as int].components.material_id as int].supply,
        ) > EQUILIBRIUM,
    ensures
        forecast(s, pid, amount, pref) == ORDER_MATERIAL_SCARCE,
        ({
            let pr = s.products[pid as int].priority as int;
            admitted(s, pid, amount, pref, user_id, allow_substitution).queues[pr] == s.queues[pr].push(
                new_order(pid, amount, pref, user_id, allow_substitution),
            )
        }),
{
    assert(product_ok(s, pid as int));
}

/// `cheaper` compares cost indices, so on positive work complexities it is transitive.
proof fn lemma_cheaper_transitive(a: ProductVariant, b: ProductVariant, c: ProductVariant)
    requires
        a.work_complexity > 0,
        b.work_complexity > 0,
        c.work_complexity > 0,
        cheaper(a, b),
        cheaper(b, c),
    ensures
        cheaper(a, c),
{
    let (sa, wa) = (a.components.scarcity_cache as int, a.work_complexity as int);
    let (sb, wb) = (b.components.scarcity_cache as int, b.work_complexity as int);
    let (sc, wc) = (c.components.scarcity_cache as int, c.work_complexity as int);
    assert(sa * wb * wc < sb * wa * wc) by (nonlinear_arith)
        requires sa * wb < sb * wa, wc > 0;
    assert(sb * wc * wa < sc * wb * wa) by (nonlinear_arith)
        requires sb * wc < sc * wb, wa > 0;
    assert(sa * wc * wb < sc * wa * wb) by (nonlinear_arith)
        requires sa * wb * wc < sb * wa * wc, sb * wc * wa < sc * wb * wa;
    assert(sa * wc < sc * wa) by (nonlinear_arith)
        requires sa * wc * wb < sc * wa * wb, wb > 0;
}

proof fn lemma_best_substitute_cheapest(mats: Seq<Material>, vs: Seq<ProductVariant>, pref: int, amount: u64, n: int)
    requires
        n <= vs.len(),
        forall|j: int| 0 <= j < vs.len() ==> (#[trigger] vs[j]).work_complexity > 0,
    ensures
        best_substitute(mats, vs, pref, amount, n) is None ==> forall|j: int|
            0 <= j < n && j != pref ==> !feasible(mats, #[trigger] vs[j], amount),
        best_substitute(mats, vs, pref, amount, n) matches Some(k) ==> forall|j: int|
            0 <= j < n && j != pref && feasible(mats, #[trigger] vs[j], amount) ==> !cheaper(vs[j], vs[k])
                && (j < k ==> cheaper(vs[k], vs[j])),
    decreases n,
{
    if n > 0 {
        lemma_best_substitute_cheapest(mats, vs, pref, amount, n - 1);
        lemma_best_substitute_feasible(mats, vs, pref, amount, n - 1);
        let b = best_substitute(mats, vs, pref, amount, n - 1);
        let k = n - 1;
        if k != pref && feasible(mats, vs[k], amount) && (b is None || cheaper(vs[k], vs[b->0])) {
            if b is Some {
                let bk = b->0;
                assert forall|j: int| 0 <= j < n && j != pref && feasible(mats, #[trigger] vs[j], amount) implies !cheaper(
                    vs[j],
                    vs[k],
                ) && (j < k ==> cheaper(vs[k], vs[j])) by {
                    if j < k {
                        if cheaper(vs[j], vs[k]) {
                            lemma_cheaper_transitive(vs[j], vs[k], vs[bk]);
                        }
                        if j != bk && !cheaper(vs[k], vs[j]) {
                            // vs[k] beats vs[bk], and vs[bk] does not lose to vs[j]
                            assert(!cheaper(vs[j], vs[bk]));
                            lemma_cheaper_not_reverse(vs[k], vs[bk], vs[j]);
                        }
                    }
                }
            }
        } else if b is Some {
            let bk = b->0;
            assert forall|j: int| 0 <= j < n && j != pref && feasible(mats, #[trigger] vs[j], amount) implies !cheaper(
                vs[j],
                vs[bk],
            ) && (j < bk ==> cheaper(vs[bk], vs[j])) by {
                if j == k {
                    assert(!cheaper(vs[k], vs[bk]));
                }
            }
        }
    }
}

/// If `a` beats `b` and `c` does not beat `b`, then `a` beats `c`.
proof fn lemma_cheaper_not_reverse(a: ProductVariant, b: ProductVariant, c: ProductVariant)
    requires
        a.work_complexity > 0,
        b.work_complexity > 0,
        c.work_complexity > 0,
        cheaper(a, b),
        !cheaper(c, b),
    ensures
        cheaper(a, c),
{
    let (sa, wa) = (a.components.scarcity_cache as int, a.work_complexity as int);
    let (sb, wb) = (b.components.scarcity_cache as int, b.work_complexity as int);
    let (sc, wc) = (c.components.scarcity_cache as int, c.work_complexity as int);
    assert(sa * wb * wc < sb * wa * wc) by (nonlinear_arith)
        requires sa * wb < sb * wa, wc > 0;
    assert(sb * wc * wa <= sc * wb * wa) by (nonlinear_arith)
        requires sb * wc <= sc * wb, wa > 0;
    assert(sa * wc * wb < sc * wa * wb) by (nonlinear_arith)
        requires sa * wb * wc < sb * wa * wc, sb * wc * wa <= sc * wb * wa;
    assert(sa * wc < sc * wa) by (nonlinear_arith)
        requires sa * wc * wb < sc * wa * wb, wb > 0;
}

/// The variant an order is made with, when every work complexity is positive: the
/// preferred variant whenever its material covers the order; otherwise a feasible other
/// variant with the lowest cost index, the earliest of equally cheap ones; none only when
/// no variant is feasible.
pub proof fn lemma_variant_choice(mats: Seq<Material>, vs: Seq<ProductVariant>, pref: int, amount: u64)
    requires
        0 <= pref < vs.len(),
        forall|j: int| 0 <= j < vs.len() ==> (#[trigger] vs[j]).work_complexity > 0,
    ensures
        feasible(mats, vs[pref], amount) ==> chosen_variant(mats, vs, pref, amount) == Some(pref),
        chosen_variant(mats, vs, pref, amount) is None ==> forall|j: int|
            0 <= j < vs.len() ==> !feasible(mats, #[trigger] vs[j], amount),
        chosen_variant(mats, vs, pref, amount) matches Some(k) ==> {
            &&& 0 <= k < vs.len()
            &&& feasible(mats, vs[k], amount)
            &&& k != pref ==> forall|j: int|
                0 <= j < vs.len() && j != pref && feasible(mats, #[trigger] vs[j], amount) ==> !cheaper(vs[j], vs[k])
                    && (j < k ==> cheaper(vs[k], vs[j]))
        },
{
    lemma_best_substitute_feasible(mats, vs, pref, amount, vs.len() as int);
    lemma_best_substitute_cheapest(mats, vs, pref, amount, vs.len() as int);
}

/// The entry a pass reaches second, when two entries wait in backlogs `p1 <= p2`.
pub open spec fn second_entry(s: InstanceView, p1: int, p2: int) -> Order {
    if p1 == p2 {
        s.queues[p1][1]
    } else {
        s.queues[p2][0]
    }
}

/// Two backlogged orders, for different products that a single variant each makes out
/// of the same material, each covered by the supply alone but not both together: one pass
/// makes the one it reaches first and leaves the other queued, and the material's supply
/// never goes below zero.
pub proof fn lemma_shared_material_one_per_pass(s: InstanceView, p1: int, p2: int)
    requires
        wf(s),
        0 <= p1 <= p2 < PRIORITIES,
        p1 == p2 ==> s.queues[p1].len() == 2,
        p1 < p2 ==> s.queues[p1].len() == 1 && s.queues[p2].len() == 1,
        forall|q: int| 0 <= q < PRIORITIES && q != p1 && q != p2 ==> (#[trigger] s.queues[q]).len() == 0,
        ({
            let o1 = s.queues[p1][0];
            let o2 = second_entry(s, p1, p2);
            let v1 = s.products[o1.product_id as int].variants[0];
            let v2 = s.products[o2.product_id as int].variants[0];
            &&& o1.product_id != o2.product_id
            &&& s.products[o1.product_id as int].variants.len() == 1
            &&& s.products[o2.product_id as int].variants.len() == 1
            &&& v1.components.material_id == v2.components.material_id
            &&& feasible(s.materials, v1, o1.product_amount)
            &&& feasible(s.materials, v2, o2.product_amount)
            &&& need(v1, o1.product_amount) + need(v2, o2.product_amount)
                > s.materials[v1.components.material_id as int].supply
        }),
    ensures
        ({
            let d = drained(s);
            let o1 = s.queues[p1][0];
            let v1 = s.products[o1.product_id as int].variants[0];
            let m = v1.components.material_id as int;
            &&& d.finished == s.finished.push(o1)
            &&& d.queues[p2] == seq![second_entry(s, p1, p2)]
            &&& d.materials[m].supply == s.materials[m].supply - need(v1, o1.product_amount)
        }),
{
    let o1 = s.queues[p1][0];
    let o2 = second_entry(s, p1, p2);
    let pid1 = o1.product_id as int;
    let pid2 = o2.product_id as int;
    let v1 = s.products[pid1].variants[0];
    let v2 = s.products[pid2].variants[0];
    let m = v1.components.material_id as int;
    assert(order_ok(s, o1));
    if p1 == p2 {
        assert(o2 == s.queues[p1][1]);
        assert(order_ok(s, o2));
    } else {
        assert(o2 == s.queues[p2][0]);
        assert(order_ok(s, o2));
    }
    assert(product_ok(s, pid1));
    assert(variant_ok(s, v1, 0));
    lemma_drain_skip_empty(s, 0, p1);
    assert(drain_classes(s, p1) == drain_classes(drain_class(s, p1, 0), p1 + 1));
    lemma_single_variant_step(s, p1, 0);
    let s1 = refresh(s, pid1);
    lemma_refresh_wf(s, pid1);
    assert(s1.products[pid1].variants[0].components.material_id == v1.components.material_id);
    assert(s1.products[pid1].variants[0].components.material_amount == v1.components.material_amount);
    crate::invariants::lemma_manufacture_wf(s1, p1, 0, 0);
    let t = manufacture(s1, p1, 0, 0);
    assert(t.products[pid2] == s.products[pid2]);
    assert(t.materials[m].supply == s.materials[m].supply - need(v1, o1.product_amount));
    assert(t.finished == s.finished.push(o1));
    if p1 == p2 {
        assert(t.queues[p1] == seq![o2]);
        assert(t.queues[p1][0] == o2);
        lemma_single_variant_step(t, p1, 0);
        let u = refresh(t, pid2);
        assert(drain_class(u, p1, 1) == u);
        assert(drain_class(s, p1, 0) == u);
        lemma_refresh_wf(t, pid2);
        assert forall|q: int| p1 + 1 <= q < PRIORITIES implies (#[trigger] u.queues[q]).len() == 0 by {
            assert(u.queues[q] == s.queues[q]);
        }
        lemma_drain_rest_empty(u, p1 + 1);
        assert(u.queues[p2] =~= seq![o2]);
    } else {
        assert(t.queues[p1].len() == 0);
        assert(drain_class(t, p1, 0) == t);
        assert(drain_class(s, p1, 0) == t);
        assert forall|q: int| p1 + 1 <= q < p2 implies (#[trigger] t.queues[q]).len() == 0 by {
            assert(t.queues[q] == s.queues[q]);
        }
        lemma_drain_skip_empty(t, p1 + 1, p2);
        assert(drain_classes(t, p2) == drain_classes(drain_class(t, p2, 0), p2 + 1));
        assert(t.queues[p2] == s.queues[p2]);
        assert(t.queues[p2][0] == o2);
        lemma_single_variant_step(t, p2, 0);
        let u = refresh(t, pid2);
        assert(drain_class(u, p2, 1) == u);
        lemma_refresh_wf(t, pid2);
        assert forall|q: int| p2 + 1 <= q < PRIORITIES implies (#[trigger] u.queues[q]).len() == 0 by {
            assert(u.queues[q] == s.queues[q]);
        }
        lemma_drain_rest_empty(u, p2 + 1);
        assert(u.queues[p2] =~= seq![o2]);
    }
}

} // verus!
