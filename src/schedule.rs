use vstd::prelude::*;
use crate::entities::{
    scarcity_of, Component, Material, Order, ProductVariant, ProductView, EQUILIBRIUM, ORDER_MATERIAL_NOT_AVAILABLE,
    ORDER_MATERIAL_SCARCE, ORDER_QUEUED, PRIORITIES,
};

verus! {

/// The whole state of a plant as plain values.
pub struct InstanceView {
    pub materials: Seq<Material>,
    pub products: Seq<ProductView>,
    pub queues: Seq<Seq<Order>>,
    pub finished: Seq<Order>,
}

// ---------------------------------------------------------------------------
// Sums over backlogs

/// Sum of `f` over the entries of one backlog.
pub open spec fn sum_of(q: Seq<Order>, f: spec_fn(Order) -> int) -> int
    decreases q.len(),
{
    if q.len() == 0 {
        0
    } else {
        sum_of(q.drop_last(), f) + f(q.last())
    }
}

/// Sum of `f` over the entries of every backlog.
pub open spec fn sum_all(qs: Seq<Seq<Order>>, f: spec_fn(Order) -> int) -> int
    decreases qs.len(),
{
    if qs.len() == 0 {
        0
    } else {
        sum_all(qs.drop_last(), f) + sum_of(qs.last(), f)
    }
}

/// Material quantity that an order pledged against material `m` when it was admitted:
/// its amount times what its preferred variant needs, if that variant uses `m`.
pub open spec fn charge(prods: Seq<ProductView>, o: Order, m: int) -> int {
    let v = prods[o.product_id as int].variants[o.preferred_variant as int];
    if v.components.material_id as int == m {
        o.product_amount as int * v.components.material_amount as int
    } else {
        0
    }
}

pub open spec fn charge_fn(prods: Seq<ProductView>, m: int) -> spec_fn(Order) -> int {
    |o: Order| charge(prods, o, m)
}

pub open spec fn amount_of(o: Order, pid: int) -> int {
    if o.product_id as int == pid {
        o.product_amount as int
    } else {
        0
    }
}

pub open spec fn amount_fn(pid: int) -> spec_fn(Order) -> int {
    |o: Order| amount_of(o, pid)
}

pub open spec fn one_fn() -> spec_fn(Order) -> int {
    |o: Order| 1int
}

/// Everything pledged against material `m` by the orders in the backlogs.
pub open spec fn pledged(prods: Seq<ProductView>, qs: Seq<Seq<Order>>, m: int) -> int {
    sum_all(qs, charge_fn(prods, m))
}

/// Units of product `pid` ordered and not yet delivered.
pub open spec fn ordered(qs: Seq<Seq<Order>>, pid: int) -> int {
    sum_all(qs, amount_fn(pid))
}

/// Number of entries over all backlogs.
pub open spec fn queued_count(qs: Seq<Seq<Order>>) -> int {
    sum_all(qs, one_fn())
}

// ---------------------------------------------------------------------------
// Well-formedness

pub open spec fn variant_ok(s: InstanceView, v: ProductVariant, k: int) -> bool {
    &&& v.id as int == k
    &&& (v.components.material_id as int) < s.materials.len()
}

pub open spec fn product_ok(s: InstanceView, pid: int) -> bool {
    let p = s.products[pid];
    &&& p.supply == 0
    &&& p.demand as int == ordered(s.queues, pid)
    &&& p.priority < PRIORITIES
    &&& p.variants.len() > 0
    &&& forall|k: int| 0 <= k < p.variants.len() ==> variant_ok(s, #[trigger] p.variants[k], k)
}

pub open spec fn order_ok(s: InstanceView, o: Order) -> bool {
    &&& (o.product_id as int) < s.products.len()
    &&& (o.preferred_variant as int) < s.products[o.product_id as int].variants.len()
    &&& o.product_amount > 0
}

/// The invariant of a plant: every product has a variant, every variant and order
/// refers to what exists, no product holds stock, and each material's and product's
/// demand is exactly what the backlogged orders pledged.
pub open spec fn wf(s: InstanceView) -> bool {
    &&& s.queues.len() == PRIORITIES
    &&& forall|p: int, j: int|
        0 <= p < s.queues.len() && 0 <= j < s.queues[p].len() ==> order_ok(s, #[trigger] s.queues[p][j])
    &&& forall|pid: int| 0 <= pid < s.products.len() ==> #[trigger] product_ok(s, pid)
    &&& forall|m: int|
        0 <= m < s.materials.len() ==> #[trigger] s.materials[m].demand as int == pledged(s.products, s.queues, m)
    &&& queued_count(s.queues) <= usize::MAX
}

// ---------------------------------------------------------------------------
// One drain pass

pub open spec fn with_cache(m: Material, c: u64) -> Material {
    Material { scarcity_cache: c, demand: m.demand, supply: m.supply }
}

pub open spec fn with_supply(m: Material, supply: u64) -> Material {
    Material { scarcity_cache: m.scarcity_cache, demand: m.demand, supply }
}

pub open spec fn with_demand(m: Material, demand: u64) -> Material {
    Material { scarcity_cache: m.scarcity_cache, demand, supply: m.supply }
}

pub open spec fn variant_with_cache(v: ProductVariant, c: u64) -> ProductVariant {
    ProductVariant {
        id: v.id,
        components: Component {
            material_id: v.components.material_id,
            material_amount: v.components.material_amount,
            scarcity_cache: c,
        },
        work_complexity: v.work_complexity,
    }
}

pub open spec fn uses_material(vs: Seq<ProductVariant>, m: int) -> bool {
    exists|k: int| 0 <= k < vs.len() && (#[trigger] vs[k]).components.material_id as int == m
}

/// Materials after refreshing the scarcity cache of each one that a variant in `vs` uses.
pub open spec fn refreshed_materials(mats: Seq<Material>, vs: Seq<ProductVariant>) -> Seq<Material> {
    Seq::new(
        mats.len(),
        |m: int|
            if uses_material(vs, m) {
                with_cache(mats[m], mats[m].scarcity())
            } else {
                mats[m]
            },
    )
}

/// Variants whose cached scarcity is that of their material.
pub open spec fn refreshed_variants(mats: Seq<Material>, vs: Seq<ProductVariant>) -> Seq<ProductVariant> {
    Seq::new(
        vs.len(),
        |k: int| variant_with_cache(vs[k], mats[vs[k].components.material_id as int].scarcity()),
    )
}

/// Refreshes the caches that the decision on an order for product `pid` reads.
pub open spec fn refresh(s: InstanceView, pid: int) -> InstanceView {
    let p = s.products[pid];
    InstanceView {
        materials: refreshed_materials(s.materials, p.variants),
        products: s.products.update(
            pid,
            ProductView {
                variants: refreshed_variants(s.materials, p.variants),
                supply: p.supply,
                demand: p.demand,
                priority: p.priority,
            },
        ),
        queues: s.queues,
        finished: s.finished,
    }
}

/// Material that `amount` units made by variant `v` consume.
pub open spec fn need(v: ProductVariant, amount: u64) -> int {
    amount as int * v.components.material_amount as int
}

pub open spec fn feasible(mats: Seq<Material>, v: ProductVariant, amount: u64) -> bool {
    mats[v.components.material_id as int].supply as int >= need(v, amount)
}

/// `a` has a strictly lower cost index (cached scarcity over work complexity) than `b`.
pub open spec fn cheaper(a: ProductVariant, b: ProductVariant) -> bool {
    (a.components.scarcity_cache as int) * (b.work_complexity as int)
        < (b.components.scarcity_cache as int) * (a.work_complexity as int)
}

/// Among the first `n` variants, the feasible one other than `pref` with the lowest
/// cost index; of equally cheap ones, the first.
pub open spec fn best_substitute(
    mats: Seq<Material>,
    vs: Seq<ProductVariant>,
    pref: int,
    amount: u64,
    n: int,
) -> Option<int>
    decreases n,
{
    if n <= 0 {
        None
    } else {
        let b = best_substitute(mats, vs, pref, amount, n - 1);
        let k = n - 1;
        if k != pref && feasible(mats, vs[k], amount) && (b is None || cheaper(vs[k], vs[b->0])) {
            Some(k)
        } else {
            b
        }
    }
}

/// The variant an order is made with: the preferred one if its material suffices,
/// else the cheapest feasible other one, else none.
pub open spec fn chosen_variant(mats: Seq<Material>, vs: Seq<ProductVariant>, pref: int, amount: u64) -> Option<int> {
    if feasible(mats, vs[pref], amount) {
        Some(pref)
    } else {
        best_substitute(mats, vs, pref, amount, vs.len() as int)
    }
}

/// Makes and delivers entry `i` of backlog `p` with variant `k`: the material of `k`
/// gives up what it consumes, the preferred variant's material is released of what the
/// order pledged, the product's demand drops by the amount, and the entry moves to the
/// top of the finished stack.
pub open spec fn manufacture(s: InstanceView, p: int, i: int, k: int) -> InstanceView {
    let o = s.queues[p][i];
    let pid = o.product_id as int;
    let prod = s.products[pid];
    let used = prod.variants[k];
    let pref = prod.variants[o.preferred_variant as int];
    let um = used.components.material_id as int;
    let pm = pref.components.material_id as int;
    let mats1 = s.materials.update(um, with_supply(s.materials[um], (s.materials[um].supply - need(used, o.product_amount)) as u64));
    let mats2 = mats1.update(pm, with_demand(mats1[pm], (mats1[pm].demand - need(pref, o.product_amount)) as u64));
    InstanceView {
        materials: mats2,
        products: s.products.update(
            pid,
            ProductView {
                variants: prod.variants,
                supply: prod.supply,
                demand: (prod.demand - o.product_amount) as u64,
                priority: prod.priority,
            },
        ),
        queues: s.queues.update(p, s.queues[p].remove(i)),
        finished: s.finished.push(o),
    }
}

/// The rest of a pass over backlog `p`, from entry `i` on.
pub open spec fn drain_class(s: InstanceView, p: int, i: int) -> InstanceView
    decreases s.queues[p].len() - i,
{
    if 0 <= p < s.queues.len() && 0 <= i < s.queues[p].len() {
        let o = s.queues[p][i];
        let s1 = refresh(s, o.product_id as int);
        match chosen_variant(
            s1.materials,
            s1.products[o.product_id as int].variants,
            o.preferred_variant as int,
            o.product_amount,
        ) {
            Some(k) => drain_class(manufacture(s1, p, i, k), p, i),
            None => drain_class(s1, p, i + 1),
        }
    } else {
        s
    }
}

/// The rest of a pass, from backlog `p` on.
pub open spec fn drain_classes(s: InstanceView, p: int) -> InstanceView
    decreases PRIORITIES - p,
{
    if 0 <= p < PRIORITIES {
        drain_classes(drain_class(s, p, 0), p + 1)
    } else {
        s
    }
}

/// One full drain pass: each backlog in class order, each entry in arrival order.
pub open spec fn drained(s: InstanceView) -> InstanceView {
    drain_classes(s, 0)
}

// ---------------------------------------------------------------------------
// Admission

/// The variant an order for product `pid` names.
pub open spec fn ordered_variant(s: InstanceView, pid: usize, pref: usize) -> ProductVariant {
    s.products[pid as int].variants[pref as int]
}

/// Demand of the named variant's material once the order is admitted.
pub open spec fn projected_demand(s: InstanceView, pid: usize, amount: u64, pref: usize) -> int {
    let v = ordered_variant(s, pid, pref);
    s.materials[v.components.material_id as int].demand as int + need(v, amount)
}

/// An order of `amount` units of `pid` by variant `pref` refers to what exists and its
/// pledges fit the counters.
pub open spec fn admissible(s: InstanceView, pid: usize, amount: u64, pref: usize) -> bool {
    &&& (pid as int) < s.products.len()
    &&& (pref as int) < s.products[pid as int].variants.len()
    &&& projected_demand(s, pid, amount, pref) <= u64::MAX
    &&& s.products[pid as int].demand as int + amount as int <= u64::MAX
    &&& queued_count(s.queues) < usize::MAX
}

/// The forecast that admission reports: scarce if the projected scarcity exceeds
/// `EQUILIBRIUM`, else not available if the material's supply is short of the order's
/// need, else queued.
pub open spec fn forecast(s: InstanceView, pid: usize, amount: u64, pref: usize) -> u8 {
    let v = ordered_variant(s, pid, pref);
    let mat = s.materials[v.components.material_id as int];
    if scarcity_of(projected_demand(s, pid, amount, pref) as u64, mat.supply) > EQUILIBRIUM {
        ORDER_MATERIAL_SCARCE
    } else if (mat.supply as int) < need(v, amount) {
        ORDER_MATERIAL_NOT_AVAILABLE
    } else {
        ORDER_QUEUED
    }
}

/// The plant after admitting an order: the product's and the material's demand grow by
/// what the order pledges, the material's scarcity is cached anew, and the order joins
/// the end of its product's backlog.
pub open spec fn admitted(s: InstanceView, pid: usize, amount: u64, pref: usize, user_id: usize, allow_substitution: bool) -> InstanceView {
    let prod = s.products[pid as int];
    let m = ordered_variant(s, pid, pref).components.material_id as int;
    let mat = s.materials[m];
    let d = projected_demand(s, pid, amount, pref) as u64;
    let o = Order {
        product_id: pid,
        product_amount: amount,
        preferred_variant: pref,
        user_id,
        allow_substitution,
    };
    InstanceView {
        materials: s.materials.update(m, Material { scarcity_cache: scarcity_of(d, mat.supply), demand: d, supply: mat.supply }),
        products: s.products.update(
            pid as int,
            ProductView {
                variants: prod.variants,
                supply: prod.supply,
                demand: (prod.demand + amount) as u64,
                priority: prod.priority,
            },
        ),
        queues: s.queues.update(prod.priority as int, s.queues[prod.priority as int].push(o)),
        finished: s.finished,
    }
}

/// The plant after an order call that admitted the order: a drain pass follows a
/// forecast other than queued.
pub open spec fn after_order(s: InstanceView, pid: usize, amount: u64, pref: usize, user_id: usize, allow_substitution: bool) -> InstanceView {
    let a = admitted(s, pid, amount, pref, user_id, allow_substitution);
    if forecast(s, pid, amount, pref) == ORDER_QUEUED {
        a
    } else {
        drained(a)
    }
}

/// The plant after material `id`'s supply is set to `amount`, before the drain.
pub open spec fn with_new_supply(s: InstanceView, id: int, amount: u64) -> InstanceView {
    InstanceView {
        materials: s.materials.update(id, with_supply(s.materials[id], amount)),
        products: s.products,
        queues: s.queues,
        finished: s.finished,
    }
}

/// The plant with one more material, of the given supply and no demand.
pub open spec fn with_material(s: InstanceView, supply: u64) -> InstanceView {
    InstanceView {
        materials: s.materials.push(Material { scarcity_cache: 0, demand: 0, supply }),
        products: s.products,
        queues: s.queues,
        finished: s.finished,
    }
}

pub open spec fn new_variant(id: int, material_id: usize, material_amount: u64, work_complexity: u64) -> ProductVariant {
    ProductVariant {
        id: id as usize,
        components: Component { material_id, material_amount, scarcity_cache: 0 },
        work_complexity,
    }
}

/// The plant with one more product, made by a single variant, with no stock or demand.
pub open spec fn with_product(s: InstanceView, material_id: usize, material_amount: u64, priority: usize, work_complexity: u64) -> InstanceView {
    InstanceView {
        materials: s.materials,
        products: s.products.push(
            ProductView {
                variants: seq![new_variant(0, material_id, material_amount, work_complexity)],
                supply: 0,
                demand: 0,
                priority,
            },
        ),
        queues: s.queues,
        finished: s.finished,
    }
}

/// The plant with one more variant of product `pid`, numbered after the existing ones.
pub open spec fn with_variant(s: InstanceView, pid: int, material_id: usize, material_amount: u64, work_complexity: u64) -> InstanceView {
    let prod = s.products[pid];
    InstanceView {
        materials: s.materials,
        products: s.products.update(
            pid,
            ProductView {
                variants: prod.variants.push(new_variant(prod.variants.len() as int, material_id, material_amount, work_complexity)),
                supply: prod.supply,
                demand: prod.demand,
                priority: prod.priority,
            },
        ),
        queues: s.queues,
        finished: s.finished,
    }
}

/// The empty plant.
pub open spec fn empty_plant() -> InstanceView {
    InstanceView {
        materials: Seq::empty(),
        products: Seq::empty(),
        queues: Seq::new(PRIORITIES as nat, |p: int| Seq::<Order>::empty()),
        finished: Seq::empty(),
    }
}

} // verus!
