use vstd::prelude::*;
use crate::entities::{Material, Order, ProductVariant, ProductView, PRIORITIES};
use crate::ledger::{lemma_sum_all_frame, lemma_sum_all_nonneg, lemma_sum_all_push, lemma_sum_all_remove, lemma_sum_all_zero};
use crate::schedule::{
    amount_fn, best_substitute, charge_fn, chosen_variant, feasible, manufacture, need, one_fn, order_ok, ordered, pledged, product_ok, refresh,
    variant_ok, wf, InstanceView, admissible, admitted, with_material, with_product, with_variant, with_new_supply,
};

verus! {

pub proof fn lemma_charge_nonneg(prods: Seq<ProductView>, m: int)
    ensures
        forall|o: Order| #[trigger] charge_fn(prods, m)(o) >= 0,
{
    assert forall|o: Order| #[trigger] charge_fn(prods, m)(o) >= 0 by {
        let a = o.product_amount as int;
        let b = prods[o.product_id as int].variants[o.preferred_variant as int].components.material_amount as int;
        assert(a * b >= 0) by (nonlinear_arith)
            requires a >= 0, b >= 0;
    }
}

/// A substitute that the rule picks is feasible, other than the preferred one, and exists.
pub proof fn lemma_best_substitute_feasible(mats: Seq<Material>, vs: Seq<ProductVariant>, pref: int, amount: u64, n: int)
    ensures
        best_substitute(mats, vs, pref, amount, n) matches Some(k) ==> {
            &&& 0 <= k < n
            &&& k != pref
            &&& feasible(mats, vs[k], amount)
        },
    decreases n,
{
    if n > 0 {
        lemma_best_substitute_feasible(mats, vs, pref, amount, n - 1);
    }
}

/// The variant that the rule picks is one of the product's and is feasible.
pub proof fn lemma_chosen_feasible(mats: Seq<Material>, vs: Seq<ProductVariant>, pref: int, amount: u64)
    requires
        0 <= pref < vs.len(),
    ensures
        chosen_variant(mats, vs, pref, amount) matches Some(k) ==> {
            &&& 0 <= k < vs.len()
            &&& feasible(mats, vs[k], amount)
        },
{
    lemma_best_substitute_feasible(mats, vs, pref, amount, vs.len() as int);
}

/// Refreshing caches keeps the invariant and touches no quantity.
pub proof fn lemma_refresh_wf(s: InstanceView, pid: int)
    requires
        wf(s),
        0 <= pid < s.products.len(),
    ensures
        wf(refresh(s, pid)),
        refresh(s, pid).queues == s.queues,
        refresh(s, pid).finished == s.finished,
        refresh(s, pid).materials.len() == s.materials.len(),
        refresh(s, pid).products.len() == s.products.len(),
        forall|m: int| 0 <= m < s.materials.len() ==> {
            &&& (#[trigger] refresh(s, pid).materials[m]).supply == s.materials[m].supply
            &&& refresh(s, pid).materials[m].demand == s.materials[m].demand
        },
{
    let s1 = refresh(s, pid);
    let qs = s.queues;
    assert forall|x: int| 0 <= x < s.products.len() implies s1.products[x].variants.len() == s.products[x].variants.len()
        && s1.products[x].demand == s.products[x].demand && s1.products[x].supply == s.products[x].supply
        && s1.products[x].priority == s.products[x].priority
        && forall|k: int| 0 <= k < s.products[x].variants.len() ==> {
            &&& (#[trigger] s1.products[x].variants[k]).id == s.products[x].variants[k].id
            &&& s1.products[x].variants[k].components.material_id == s.products[x].variants[k].components.material_id
            &&& s1.products[x].variants[k].components.material_amount == s.products[x].variants[k].components.material_amount
        } by {
    }
    assert forall|p: int, j: int| 0 <= p < qs.len() && 0 <= j < qs[p].len() implies order_ok(s1, #[trigger] s1.queues[p][j]) by {
        assert(order_ok(s, qs[p][j]));
    }
    assert forall|x: int| 0 <= x < s1.products.len() implies #[trigger] product_ok(s1, x) by {
        assert(product_ok(s, x));
        let vs = s1.products[x].variants;
        assert forall|k: int| 0 <= k < vs.len() implies variant_ok(s1, #[trigger] vs[k], k) by {
            assert(variant_ok(s, s.products[x].variants[k], k));
        }
    }
    assert forall|m: int| 0 <= m < s1.materials.len() implies #[trigger] s1.materials[m].demand as int
        == pledged(s1.products, s1.queues, m) by {
        assert(s.materials[m].demand as int == pledged(s.products, s.queues, m));
        assert forall|p: int, j: int| 0 <= p < qs.len() && 0 <= j < qs[p].len() implies charge_fn(s.products, m)(
            #[trigger] qs[p][j],
        ) == charge_fn(s1.products, m)(qs[p][j]) by {
            assert(order_ok(s, qs[p][j]));
        }
        lemma_sum_all_frame(qs, charge_fn(s.products, m), charge_fn(s1.products, m));
    }
}

/// Making entry `i` of backlog `p` with a feasible variant `k` keeps the invariant, and
/// what it takes away was there: the preferred material's demand covers the pledge and
/// the product's demand covers the amount.
pub proof fn lemma_manufacture_wf(s: InstanceView, p: int, i: int, k: int)
    requires
        wf(s),
        0 <= p < s.queues.len(),
        0 <= i < s.queues[p].len(),
        0 <= k < s.products[s.queues[p][i].product_id as int].variants.len(),
        feasible(
            s.materials,
            s.products[s.queues[p][i].product_id as int].variants[k],
            s.queues[p][i].product_amount,
        ),
    ensures
        wf(manufacture(s, p, i, k)),
        ({
            let o = s.queues[p][i];
            let prod = s.products[o.product_id as int];
            let pref = prod.variants[o.preferred_variant as int];
            &&& s.materials[pref.components.material_id as int].demand >= need(pref, o.product_amount)
            &&& prod.demand >= o.product_amount
        }),
{
    let o = s.queues[p][i];
    let pid = o.product_id as int;
    let qs = s.queues;
    let qs2 = qs.update(p, qs[p].remove(i));
    let s2 = manufacture(s, p, i, k);
    assert(order_ok(s, o));
    assert(product_ok(s, pid));
    let prod = s.products[pid];
    let pref = prod.variants[o.preferred_variant as int];
    let pm = pref.components.material_id as int;
    assert(variant_ok(s, pref, o.preferred_variant as int));
    assert(variant_ok(s, prod.variants[k], k));
    assert(s2.queues == qs2);
    assert forall|p2: int, j2: int| 0 <= p2 < qs2.len() && 0 <= j2 < qs2[p2].len() implies order_ok(s, #[trigger] qs2[p2][j2]) by {
        if p2 == p {
            if j2 < i {
                assert(qs2[p2][j2] == qs[p][j2]);
            } else {
                assert(qs2[p2][j2] == qs[p][j2 + 1]);
            }
        } else {
            assert(qs2[p2][j2] == qs[p2][j2]);
        }
    }
    assert forall|p2: int, j2: int| 0 <= p2 < qs2.len() && 0 <= j2 < qs2[p2].len() implies order_ok(s2, #[trigger] s2.queues[p2][j2]) by {
        assert(order_ok(s, qs2[p2][j2]));
    }
    lemma_sum_all_nonneg(qs2, amount_fn(pid));
    lemma_sum_all_remove(qs, p, i, amount_fn(pid));
    assert(prod.demand as int == ordered(qs, pid));
    // product demands
    assert forall|x: int| 0 <= x < s2.products.len() implies #[trigger] product_ok(s2, x) by {
        assert(product_ok(s, x));
        lemma_sum_all_remove(qs, p, i, amount_fn(x));
        let vs = s2.products[x].variants;
        assert(vs == s.products[x].variants);
        assert forall|kk: int| 0 <= kk < vs.len() implies variant_ok(s2, #[trigger] vs[kk], kk) by {
            assert(variant_ok(s, s.products[x].variants[kk], kk));
        }
    }
    lemma_sum_all_nonneg(qs2, amount_fn(pid));
    lemma_sum_all_remove(qs, p, i, amount_fn(pid));
    // material demands
    assert forall|m: int| 0 <= m < s2.materials.len() implies #[trigger] s2.materials[m].demand as int
        == pledged(s2.products, s2.queues, m) by {
        assert(s.materials[m].demand as int == pledged(s.products, s.queues, m));
        assert forall|p2: int, j2: int| 0 <= p2 < qs2.len() && 0 <= j2 < qs2[p2].len() implies charge_fn(s.products, m)(
            #[trigger] qs2[p2][j2],
        ) == charge_fn(s2.products, m)(qs2[p2][j2]) by {
            assert(order_ok(s, qs2[p2][j2]));
        }
        lemma_sum_all_frame(qs2, charge_fn(s.products, m), charge_fn(s2.products, m));
        lemma_sum_all_remove(qs, p, i, charge_fn(s.products, m));
        lemma_charge_nonneg(s.products, pm);
        lemma_sum_all_nonneg(qs2, charge_fn(s.products, pm));
        lemma_sum_all_remove(qs, p, i, charge_fn(s.products, pm));
    }
    assert(s.materials[pm].demand as int == pledged(s.products, s.queues, pm));
    lemma_charge_nonneg(s.products, pm);
    lemma_sum_all_nonneg(qs2, charge_fn(s.products, pm));
    lemma_sum_all_remove(qs, p, i, charge_fn(s.products, pm));
    lemma_sum_all_remove(qs, p, i, one_fn());
    assert(s2.queues.len() == PRIORITIES);
}

/// Admitting an order keeps the invariant.
pub proof fn lemma_admit_wf(s: InstanceView, pid: usize, amount: u64, pref: usize, user_id: usize, allow_substitution: bool)
    requires
        wf(s),
        admissible(s, pid, amount, pref),
        amount > 0,
    ensures
        wf(admitted(s, pid, amount, pref, user_id, allow_substitution)),
{
    let s2 = admitted(s, pid, amount, pref, user_id, allow_substitution);
    let prod = s.products[pid as int];
    assert(product_ok(s, pid as int));
    let v = prod.variants[pref as int];
    assert(variant_ok(s, v, pref as int));
    let m0 = v.components.material_id as int;
    let pr = prod.priority as int;
    let qs = s.queues;
    let qs2 = s2.queues;
    let o = qs2[pr].last();
    assert(qs2[pr] == qs[pr].push(o));
    assert forall|p2: int, j2: int| 0 <= p2 < qs2.len() && 0 <= j2 < qs2[p2].len() implies order_ok(s2, #[trigger] qs2[p2][j2]) by {
        if p2 == pr && j2 == qs[pr].len() {
            assert(qs2[p2][j2] == o);
        } else {
            assert(qs2[p2][j2] == qs[p2][j2]);
            assert(order_ok(s, qs[p2][j2]));
        }
    }
    assert forall|x: int| 0 <= x < s2.products.len() implies #[trigger] product_ok(s2, x) by {
        assert(product_ok(s, x));
        lemma_sum_all_push(qs, pr, o, amount_fn(x));
        let vs = s2.products[x].variants;
        assert(vs == s.products[x].variants);
        assert forall|kk: int| 0 <= kk < vs.len() implies variant_ok(s2, #[trigger] vs[kk], kk) by {
            assert(variant_ok(s, s.products[x].variants[kk], kk));
        }
    }
    assert forall|m: int| 0 <= m < s2.materials.len() implies #[trigger] s2.materials[m].demand as int
        == pledged(s2.products, s2.queues, m) by {
        assert(s.materials[m].demand as int == pledged(s.products, s.queues, m));
        assert forall|p2: int, j2: int| 0 <= p2 < qs2.len() && 0 <= j2 < qs2[p2].len() implies charge_fn(s.products, m)(
            #[trigger] qs2[p2][j2],
        ) == charge_fn(s2.products, m)(qs2[p2][j2]) by {
            assert(order_ok(s2, qs2[p2][j2]));
        }
        lemma_sum_all_frame(qs2, charge_fn(s.products, m), charge_fn(s2.products, m));
        lemma_sum_all_push(qs, pr, o, charge_fn(s.products, m));
    }
    lemma_sum_all_push(qs, pr, o, one_fn());
}

/// Adding a material keeps the invariant: nothing is pledged against it yet.
pub proof fn lemma_add_material_wf(s: InstanceView, supply: u64)
    requires
        wf(s),
    ensures
        wf(with_material(s, supply)),
{
    let s2 = with_material(s, supply);
    let qs = s.queues;
    assert forall|p: int, j: int| 0 <= p < qs.len() && 0 <= j < qs[p].len() implies order_ok(s2, #[trigger] s2.queues[p][j]) by {
        assert(order_ok(s, qs[p][j]));
    }
    assert forall|x: int| 0 <= x < s2.products.len() implies #[trigger] product_ok(s2, x) by {
        assert(product_ok(s, x));
        let vs = s2.products[x].variants;
        assert forall|kk: int| 0 <= kk < vs.len() implies variant_ok(s2, #[trigger] vs[kk], kk) by {
            assert(variant_ok(s, vs[kk], kk));
        }
    }
    let n = s.materials.len() as int;
    assert forall|p: int, j: int| 0 <= p < qs.len() && 0 <= j < qs[p].len() implies charge_fn(s.products, n)(
        #[trigger] qs[p][j],
    ) == 0 by {
        let o = qs[p][j];
        assert(order_ok(s, o));
        assert(product_ok(s, o.product_id as int));
        assert(variant_ok(s, s.products[o.product_id as int].variants[o.preferred_variant as int], o.preferred_variant as int));
    }
    lemma_sum_all_zero(qs, charge_fn(s.products, n));
    assert forall|m: int| 0 <= m < s2.materials.len() implies #[trigger] s2.materials[m].demand as int
        == pledged(s2.products, s2.queues, m) by {
        if m < n {
            assert(s.materials[m].demand as int == pledged(s.products, s.queues, m));
        }
    }
}

/// Adding a product keeps the invariant: nothing is ordered of it yet.
pub proof fn lemma_add_product_wf(s: InstanceView, material_id: usize, material_amount: u64, priority: usize, work_complexity: u64)
    requires
        wf(s),
        (material_id as int) < s.materials.len(),
        priority < PRIORITIES,
    ensures
        wf(with_product(s, material_id, material_amount, priority, work_complexity)),
{
    let s2 = with_product(s, material_id, material_amount, priority, work_complexity);
    let qs = s.queues;
    let n = s.products.len() as int;
    assert forall|p: int, j: int| 0 <= p < qs.len() && 0 <= j < qs[p].len() implies order_ok(s2, #[trigger] s2.queues[p][j]) by {
        assert(order_ok(s, qs[p][j]));
    }
    assert forall|p: int, j: int| 0 <= p < qs.len() && 0 <= j < qs[p].len() implies amount_fn(n)(#[trigger] qs[p][j]) == 0 by {
        assert(order_ok(s, qs[p][j]));
    }
    lemma_sum_all_zero(qs, amount_fn(n));
    assert forall|x: int| 0 <= x < s2.products.len() implies #[trigger] product_ok(s2, x) by {
        if x < n {
            assert(product_ok(s, x));
            let vs = s2.products[x].variants;
            assert forall|kk: int| 0 <= kk < vs.len() implies variant_ok(s2, #[trigger] vs[kk], kk) by {
                assert(variant_ok(s, vs[kk], kk));
            }
        } else {
            let vs = s2.products[x].variants;
            assert forall|kk: int| 0 <= kk < vs.len() implies variant_ok(s2, #[trigger] vs[kk], kk) by {
                assert(kk == 0);
            }
        }
    }
    assert forall|m: int| 0 <= m < s2.materials.len() implies #[trigger] s2.materials[m].demand as int
        == pledged(s2.products, s2.queues, m) by {
        assert(s.materials[m].demand as int == pledged(s.products, s.queues, m));
        assert forall|p: int, j: int| 0 <= p < qs.len() && 0 <= j < qs[p].len() implies charge_fn(s.products, m)(
            #[trigger] qs[p][j],
        ) == charge_fn(s2.products, m)(qs[p][j]) by {
            assert(order_ok(s, qs[p][j]));
        }
        lemma_sum_all_frame(qs, charge_fn(s.products, m), charge_fn(s2.products, m));
    }
}

/// Adding a variant keeps the invariant: the existing variants keep their numbers.
pub proof fn lemma_add_variant_wf(s: InstanceView, pid: int, material_id: usize, material_amount: u64, work_complexity: u64)
    requires
        wf(s),
        0 <= pid < s.products.len(),
        s.products[pid].variants.len() <= usize::MAX,
        (material_id as int) < s.materials.len(),
    ensures
        wf(with_variant(s, pid, material_id, material_amount, work_complexity)),
{
    let s2 = with_variant(s, pid, material_id, material_amount, work_complexity);
    let qs = s.queues;
    assert forall|p: int, j: int| 0 <= p < qs.len() && 0 <= j < qs[p].len() implies order_ok(s2, #[trigger] s2.queues[p][j]) by {
        assert(order_ok(s, qs[p][j]));
    }
    assert forall|x: int| 0 <= x < s2.products.len() implies #[trigger] product_ok(s2, x) by {
        assert(product_ok(s, x));
        let vs = s2.products[x].variants;
        assert forall|kk: int| 0 <= kk < vs.len() implies variant_ok(s2, #[trigger] vs[kk], kk) by {
            if x != pid || kk < s.products[x].variants.len() {
                assert(variant_ok(s, s.products[x].variants[kk], kk));
            }
        }
    }
    assert forall|m: int| 0 <= m < s2.materials.len() implies #[trigger] s2.materials[m].demand as int
        == pledged(s2.products, s2.queues, m) by {
        assert(s.materials[m].demand as int == pledged(s.products, s.queues, m));
        assert forall|p: int, j: int| 0 <= p < qs.len() && 0 <= j < qs[p].len() implies charge_fn(s.products, m)(
            #[trigger] qs[p][j],
        ) == charge_fn(s2.products, m)(qs[p][j]) by {
            assert(order_ok(s, qs[p][j]));
        }
        lemma_sum_all_frame(qs, charge_fn(s.products, m), charge_fn(s2.products, m));
    }
}

/// The invariant does not look at the finished stack.
pub proof fn lemma_wf_finished(s: InstanceView, finished: Seq<Order>)
    requires
        wf(s),
    ensures
        wf(InstanceView { finished, ..s }),
{
    let s2 = InstanceView { finished, ..s };
    let qs = s.queues;
    assert forall|p: int, j: int| 0 <= p < qs.len() && 0 <= j < qs[p].len() implies order_ok(s2, #[trigger] s2.queues[p][j]) by {
        assert(order_ok(s, qs[p][j]));
    }
    assert forall|x: int| 0 <= x < s2.products.len() implies #[trigger] product_ok(s2, x) by {
        assert(product_ok(s, x));
        let vs = s2.products[x].variants;
        assert forall|kk: int| 0 <= kk < vs.len() implies variant_ok(s2, #[trigger] vs[kk], kk) by {
            assert(variant_ok(s, vs[kk], kk));
        }
    }
    assert forall|m: int| 0 <= m < s2.materials.len() implies #[trigger] s2.materials[m].demand as int
        == pledged(s2.products, s2.queues, m) by {
        assert(s.materials[m].demand as int == pledged(s.products, s.queues, m));
    }
}

/// Setting a material's supply keeps the invariant.
pub proof fn lemma_new_supply_wf(s: InstanceView, id: int, amount: u64)
    requires
        wf(s),
        0 <= id < s.materials.len(),
    ensures
        wf(with_new_supply(s, id, amount)),
{
    let s2 = with_new_supply(s, id, amount);
    let qs = s.queues;
    assert forall|p: int, j: int| 0 <= p < qs.len() && 0 <= j < qs[p].len() implies order_ok(s2, #[trigger] s2.queues[p][j]) by {
        assert(order_ok(s, qs[p][j]));
    }
    assert forall|x: int| 0 <= x < s2.products.len() implies #[trigger] product_ok(s2, x) by {
        assert(product_ok(s, x));
        let vs = s2.products[x].variants;
        assert forall|kk: int| 0 <= kk < vs.len() implies variant_ok(s2, #[trigger] vs[kk], kk) by {
            assert(variant_ok(s, vs[kk], kk));
        }
    }
    assert forall|m: int| 0 <= m < s2.materials.len() implies #[trigger] s2.materials[m].demand as int
        == pledged(s2.products, s2.queues, m) by {
        assert(s.materials[m].demand as int == pledged(s.products, s.queues, m));
    }
}

} // verus!
