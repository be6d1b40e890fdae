mod entities;
mod invariants;
pub mod laws;
mod ledger;
mod schedule;

pub use entities::{
    scarcity_of, COption, Component, Material, Order, Product, ProductVariant, ProductView, EQUILIBRIUM,
    MATERIAL_ADDED, MATERIAL_ZERO_SUPPLY, ORDER_MATERIAL_NOT_AVAILABLE, ORDER_MATERIAL_SCARCE, ORDER_NO_SUCH_MATERIAL,
    ORDER_QUEUED, ORDER_ZERO_AMOUNT, PRIORITIES, PRODUCT_ADDED, PRODUCT_NO_SUCH_MATERIAL, PRODUCT_ZERO_MATERIAL,
    VARIANT_ADDED, VARIANT_NO_SUCH_MATERIAL, VARIANT_NO_SUCH_PRODUCT,
};
pub use schedule::{
    admissible, admitted, after_order, chosen_variant, drained, empty_plant, forecast, queued_count, wf,
    with_material, with_new_supply, with_product, with_variant, InstanceView,
};

use vstd::prelude::*;
use crate::invariants::{
    lemma_add_material_wf, lemma_add_product_wf, lemma_add_variant_wf, lemma_admit_wf, lemma_chosen_feasible,
    lemma_manufacture_wf, lemma_new_supply_wf, lemma_refresh_wf, lemma_wf_finished,
};
use crate::ledger::{lemma_sum_all_prefix, lemma_sum_all_zero, lemma_sum_of_count};
use crate::schedule::{
    best_substitute, drain_class, drain_classes, feasible, manufacture, one_fn, refresh, refreshed_variants,
    uses_material, variant_with_cache, with_cache,
};

verus! {

/// A plant: its materials, its products, one backlog per priority class and the stack
/// of finished orders.
pub struct Instance {
    materials: Vec<Material>,
    products: Vec<Product>,
    production_queue: Vec<Vec<Order>>,
    finished_products: Vec<Order>,
}

impl View for Instance {
    type V = InstanceView;

    closed spec fn view(&self) -> InstanceView {
        InstanceView {
            materials: self.materials@,
            products: self.products@.map_values(|p: Product| p@),
            queues: self.production_queue@.map_values(|q: Vec<Order>| q@),
            finished: self.finished_products@,
        }
    }
}

spec fn opt_index(r: Option<usize>) -> Option<int> {
    match r {
        Some(k) => Some(k as int),
        None => None,
    }
}

impl Instance {
    fn is_feasible(&self, v: &ProductVariant, amount: u64) -> (r: bool)
        requires
            (v.components.material_id as int) < self@.materials.len(),
        ensures
            r == feasible(self@.materials, *v, amount),
    {
        proof {
            let a = amount as int;
            let b = v.components.material_amount as int;
            assert(0 <= a * b <= u64::MAX as int * u64::MAX as int) by (nonlinear_arith)
                requires 0 <= a <= u64::MAX as int, 0 <= b <= u64::MAX as int;
        }
        let supply = self.materials[v.components.material_id].supply;
        (amount as u128) * (v.components.material_amount as u128) <= supply as u128
    }

    /// The variant to make an order with, by the rule of `chosen_variant`.
    fn choose_variant(&self, pid: usize, pref: usize, amount: u64) -> (r: Option<usize>)
        requires
            wf(self@),
            (pid as int) < self@.products.len(),
            (pref as int) < self@.products[pid as int].variants.len(),
        ensures
            opt_index(r) == chosen_variant(self@.materials, self@.products[pid as int].variants, pref as int, amount),
            r matches Some(k) ==> (k as int) < self@.products[pid as int].variants.len(),
    {
        let ghost s = self@;
        let vs = &self.products[pid].variants;
        assert(vs@ == s.products[pid as int].variants);
        assert(schedule::product_ok(s, pid as int));
        assert(schedule::variant_ok(s, vs@[pref as int], pref as int));
        if self.is_feasible(&vs[pref], amount) {
            return Some(pref);
        }
        let mut best: Option<usize> = None;
        let mut k: usize = 0;
        while k < vs.len()
            invariant
                k <= vs@.len(),
                vs@ == s.products[pid as int].variants,
                s == self@,
                schedule::product_ok(s, pid as int),
                opt_index(best) == best_substitute(s.materials, vs@, pref as int, amount, k as int),
                best matches Some(b) ==> b < k,
            decreases vs@.len() - k,
        {
            let v = &vs[k];
            assert(schedule::variant_ok(s, vs@[k as int], k as int));
            if k != pref && self.is_feasible(v, amount) {
                match best {
                    None => {
                        best = Some(k);
                    },
                    Some(b) => {
                        let w = &vs[b];
                        proof {
                            let x = v.components.scarcity_cache as int;
                            let y = w.work_complexity as int;
                            let z = w.components.scarcity_cache as int;
                            let t = v.work_complexity as int;
                            assert(0 <= x * y <= u64::MAX as int * u64::MAX as int) by (nonlinear_arith)
                                requires 0 <= x <= u64::MAX as int, 0 <= y <= u64::MAX as int;
                            assert(0 <= z * t <= u64::MAX as int * u64::MAX as int) by (nonlinear_arith)
                                requires 0 <= z <= u64::MAX as int, 0 <= t <= u64::MAX as int;
                        }
                        if (v.components.scarcity_cache as u128) * (w.work_complexity as u128)
                            < (w.components.scarcity_cache as u128) * (v.work_complexity as u128) {
                            best = Some(k);
                        }
                    },
                }
            }
            k += 1;
        }
        best
    }

    /// Refreshes the scarcity caches that a decision on product `pid` reads.
    fn refresh_caches(&mut self, pid: usize)
        requires
            wf(old(self)@),
            (pid as int) < old(self)@.products.len(),
        ensures
            final(self)@ == refresh(old(self)@, pid as int),
    {
        let ghost s = self@;
        let ghost vs = s.products[pid as int].variants;
        let n = self.products[pid].variants.len();
        assert(schedule::product_ok(s, pid as int));
        let mut k: usize = 0;
        while k < n
            invariant
                k <= n,
                n == vs.len(),
                (pid as int) < s.products.len(),
                vs == s.products[pid as int].variants,
                schedule::product_ok(s, pid as int),
                self.production_queue@ == old(self).production_queue@,
                self.finished_products@ == old(self).finished_products@,
                self.products@.len() == s.products.len(),
                forall|x: int| 0 <= x < s.products.len() && x != pid ==> self.products@[x]@ == s.products[x],
                self.products@[pid as int].supply == s.products[pid as int].supply,
                self.products@[pid as int].demand == s.products[pid as int].demand,
                self.products@[pid as int].priority == s.products[pid as int].priority,
                self.products@[pid as int].variants@.len() == n,
                forall|j: int| 0 <= j < k ==> self.products@[pid as int].variants@[j]
                    == variant_with_cache(vs[j], s.materials[vs[j].components.material_id as int].scarcity()),
                forall|j: int| k <= j < n ==> self.products@[pid as int].variants@[j] == vs[j],
                self.materials@.len() == s.materials.len(),
                forall|m: int| 0 <= m < s.materials.len() ==> self.materials@[m] == if uses_material(vs.take(k as int), m) {
                    with_cache(s.materials[m], s.materials[m].scarcity())
                } else {
                    s.materials[m]
                },
            decreases n - k,
        {
            assert(schedule::variant_ok(s, vs[k as int], k as int));
            let m = self.products[pid].variants[k].components.material_id;
            let c = self.materials[m].get_scarcity();
            assert(c == s.materials[m as int].scarcity());
            self.materials.set(m, Material { scarcity_cache: c, demand: self.materials[m].demand, supply: self.materials[m].supply });
            self.products[pid].variants[k].components.scarcity_cache = c;
            proof {
                assert forall|mm: int| 0 <= mm < s.materials.len() implies self.materials@[mm] == if uses_material(vs.take(k + 1), mm) {
                    with_cache(s.materials[mm], s.materials[mm].scarcity())
                } else {
                    s.materials[mm]
                } by {
                    if uses_material(vs.take(k as int), mm) {
                        let w = choose|w: int| 0 <= w < k && (#[trigger] vs.take(k as int)[w]).components.material_id as int == mm;
                        assert(vs.take(k + 1)[w] == vs.take(k as int)[w]);
                    }
                    if mm == m as int {
                        assert(vs.take(k + 1)[k as int] == vs[k as int]);
                    }
                    if uses_material(vs.take(k + 1), mm) && mm != m as int {
                        let w = choose|w: int| 0 <= w < k + 1 && (#[trigger] vs.take(k + 1)[w]).components.material_id as int == mm;
                        assert(vs.take(k as int)[w] == vs.take(k + 1)[w]);
                    }
                }
            }
            k += 1;
        }
        proof {
            assert(vs.take(n as int) =~= vs);
            let t = refresh(s, pid as int);
            assert(self@.materials =~= t.materials);
            assert(self@.products[pid as int].variants =~= refreshed_variants(s.materials, vs));
            assert(self@.products =~= t.products);
            assert(self@.queues =~= t.queues);
        }
    }

    /// Makes entry `i` of backlog `p` with variant `k` and moves it to the finished stack.
    fn make(&mut self, p: usize, i: usize, k: usize)
        requires
            wf(old(self)@),
            (p as int) < old(self)@.queues.len(),
            (i as int) < old(self)@.queues[p as int].len(),
            (k as int) < old(self)@.products[old(self)@.queues[p as int][i as int].product_id as int].variants.len(),
            feasible(
                old(self)@.materials,
                old(self)@.products[old(self)@.queues[p as int][i as int].product_id as int].variants[k as int],
                old(self)@.queues[p as int][i as int].product_amount,
            ),
        ensures
            final(self)@ == manufacture(old(self)@, p as int, i as int, k as int),
            wf(final(self)@),
    {
        let ghost s = self@;
        proof {
            lemma_manufacture_wf(s, p as int, i as int, k as int);
        }
        let o = self.production_queue[p][i];
        assert(o == s.queues[p as int][i as int]);
        assert(schedule::order_ok(s, o));
        let pid = o.product_id;
        assert(schedule::product_ok(s, pid as int));
        let used = self.products[pid].variants[k];
        let pref = self.products[pid].variants[o.preferred_variant];
        assert(schedule::variant_ok(s, used, k as int));
        assert(schedule::variant_ok(s, pref, o.preferred_variant as int));
        let um = used.components.material_id;
        let pm = pref.components.material_id;
        let mut material = self.materials[um];
        self.products[pid].manufacture(&mut material, o.product_amount, &used);
        self.materials.set(um, material);
        proof {
            let a = o.product_amount as int;
            let b = pref.components.material_amount as int;
            assert(0 <= a * b) by (nonlinear_arith)
                requires 0 <= a, 0 <= b;
        }
        let released = o.product_amount * pref.components.material_amount;
        let mut charged = self.materials[pm];
        charged.demand = charged.demand - released;
        self.materials.set(pm, charged);
        self.products[pid].deliver(o.product_amount);
        let done = self.production_queue[p].remove(i);
        self.finished_products.push(done);
        proof {
            let t = manufacture(s, p as int, i as int, k as int);
            assert(self@.materials =~= t.materials);
            assert(self@.products[pid as int].variants =~= t.products[pid as int].variants);
            assert(self@.products =~= t.products);
            assert(self@.queues[p as int] =~= t.queues[p as int]);
            assert(self@.queues =~= t.queues);
            assert(self@.finished =~= t.finished);
        }
    }

    /// Decides on entry `i` of backlog `p`: refreshes the caches, then makes the entry
    /// if some variant is feasible. Returns whether the entry left the backlog.
    fn step(&mut self, p: usize, i: usize) -> (removed: bool)
        requires
            wf(old(self)@),
            (p as int) < old(self)@.queues.len(),
            (i as int) < old(self)@.queues[p as int].len(),
        ensures
            wf(final(self)@),
            drain_class(old(self)@, p as int, i as int) == drain_class(
                final(self)@,
                p as int,
                if removed { i as int } else { i as int + 1 },
            ),
            final(self)@.queues.len() == old(self)@.queues.len(),
            removed ==> final(self)@.queues[p as int].len() == old(self)@.queues[p as int].len() - 1,
            !removed ==> final(self)@.queues[p as int].len() == old(self)@.queues[p as int].len(),
    {
        let ghost s = self@;
        let o = self.production_queue[p][i];
        assert(o == s.queues[p as int][i as int]);
        assert(schedule::order_ok(s, o));
        proof {
            lemma_refresh_wf(s, o.product_id as int);
        }
        self.refresh_caches(o.product_id);
        let ghost s1 = self@;
        assert(s1.products[o.product_id as int].variants.len() == s.products[o.product_id as int].variants.len());
        let choice = self.choose_variant(o.product_id, o.preferred_variant, o.product_amount);
        proof {
            lemma_chosen_feasible(
                s1.materials,
                s1.products[o.product_id as int].variants,
                o.preferred_variant as int,
                o.product_amount,
            );
        }
        match choice {
            Some(k) => {
                self.make(p, i, k);
                true
            },
            None => false,
        }
    }

    /// One drain pass over every backlog.
    fn drain(&mut self)
        requires
            wf(old(self)@),
        ensures
            wf(final(self)@),
            final(self)@ == drained(old(self)@),
    {
        let ghost target = drained(self@);
        let mut p: usize = 0;
        while p < PRIORITIES
            invariant
                p <= PRIORITIES,
                wf(self@),
                drain_classes(self@, p as int) == target,
            decreases PRIORITIES - p,
        {
            let mut i: usize = 0;
            assert(self@.queues[p as int] == self.production_queue@[p as int]@);
            while i < self.production_queue[p].len()
                invariant
                    p < PRIORITIES,
                    wf(self@),
                    i <= self@.queues[p as int].len(),
                    drain_classes(drain_class(self@, p as int, i as int), p as int + 1) == target,
                decreases self@.queues[p as int].len() - i,
            {
                assert(self@.queues[p as int] == self.production_queue@[p as int]@);
                if !self.step(p, i) {
                    i += 1;
                }
                assert(self@.queues[p as int] == self.production_queue@[p as int]@);
            }
            p += 1;
        }
    }
}

} // verus!

verus! {

impl Instance {
    pub fn get_product(&self, id: usize) -> (r: &Product)
        requires
            (id as int) < self@.products.len(),
        ensures
            r@ == self@.products[id as int],
    {
        &self.products[id]
    }

    pub fn get_products(&self) -> (r: &Vec<Product>)
        ensures
            r@.map_values(|p: Product| p@) == self@.products,
    {
        &self.products
    }

    pub fn get_material(&self, id: usize) -> (r: &Material)
        requires
            (id as int) < self@.materials.len(),
        ensures
            *r == self@.materials[id as int],
    {
        &self.materials[id]
    }

    pub fn get_materials(&self) -> (r: &Vec<Material>)
        ensures
            r@ == self@.materials,
    {
        &self.materials
    }
}

/// A new, empty plant.
pub fn init() -> (r: Box<Instance>)
    ensures
        (*r)@ == empty_plant(),
        wf((*r)@),
        queued_count((*r)@.queues) == 0,
{
    let mut production_queue: Vec<Vec<Order>> = Vec::new();
    let mut p: usize = 0;
    while p < PRIORITIES
        invariant
            p <= PRIORITIES,
            production_queue@.len() == p,
            forall|j: int| 0 <= j < p ==> (#[trigger] production_queue@[j])@.len() == 0,
        decreases PRIORITIES - p,
    {
        production_queue.push(Vec::new());
        p += 1;
    }
    let r = Box::new(Instance {
        materials: Vec::new(),
        products: Vec::new(),
        production_queue,
        finished_products: Vec::new(),
    });
    proof {
        let s = (*r)@;
        assert(s.queues =~~= empty_plant().queues);
        assert(s.materials =~= empty_plant().materials);
        assert(s.products =~= empty_plant().products);
        lemma_sum_all_zero(s.queues, one_fn());
    }
    r
}

/// Adds a material with the given supply; its id is its position. A zero supply is refused.
pub fn add_material(instance: &mut Instance, supply: u64) -> (r: u8)
    requires
        wf(old(instance)@),
    ensures
        wf(final(instance)@),
        supply == 0 ==> r == MATERIAL_ZERO_SUPPLY && final(instance)@ == old(instance)@,
        supply > 0 ==> r == MATERIAL_ADDED && final(instance)@ == with_material(old(instance)@, supply),
{
    if supply == 0 {
        return MATERIAL_ZERO_SUPPLY;
    }
    proof {
        lemma_add_material_wf(instance@, supply);
    }
    instance.materials.push(Material { scarcity_cache: 0, demand: 0, supply });
    MATERIAL_ADDED
}

/// Adds a product made by a single variant (id 0) that takes `material_amount` of
/// material `material_id` per unit; its id is its position. A zero amount and an unknown
/// material are refused.
pub fn add_product(
    instance: &mut Instance,
    material_id: usize,
    material_amount: u64,
    priority: usize,
    work_complexity: u64,
) -> (r: u8)
    requires
        wf(old(instance)@),
        priority < PRIORITIES,
    ensures
        wf(final(instance)@),
        material_amount == 0 ==> r == PRODUCT_ZERO_MATERIAL && final(instance)@ == old(instance)@,
        material_amount > 0 && material_id as int >= old(instance)@.materials.len() ==> r == PRODUCT_NO_SUCH_MATERIAL
            && final(instance)@ == old(instance)@,
        material_amount > 0 && (material_id as int) < old(instance)@.materials.len() ==> r == PRODUCT_ADDED
            && final(instance)@ == with_product(old(instance)@, material_id, material_amount, priority, work_complexity),
{
    if material_amount == 0 {
        return PRODUCT_ZERO_MATERIAL;
    }
    if material_id >= instance.materials.len() {
        return PRODUCT_NO_SUCH_MATERIAL;
    }
    let ghost s = instance@;
    proof {
        lemma_add_product_wf(s, material_id, material_amount, priority, work_complexity);
    }
    let variants = vec![ProductVariant {
        id: 0,
        components: Component { material_id, material_amount, scarcity_cache: 0 },
        work_complexity,
    }];
    instance.products.push(Product { variants, supply: 0, demand: 0, priority });
    proof {
        let t = with_product(s, material_id, material_amount, priority, work_complexity);
        assert(instance@.products[s.products.len() as int].variants =~= t.products[s.products.len() as int].variants);
        assert(instance@.products =~= t.products);
    }
    PRODUCT_ADDED
}

/// Admits an order for `amount` units of product `id`, made preferably by variant
/// `variant_id`, and reports the forecast. A forecast other than queued is followed by a
/// drain pass. A zero amount is refused.
pub fn order_product(
    instance: &mut Instance,
    id: usize,
    amount: u64,
    variant_id: usize,
    user_id: usize,
    allow_substitution: bool,
) -> (r: u8)
    requires
        wf(old(instance)@),
        amount > 0 ==> admissible(old(instance)@, id, amount, variant_id),
    ensures
        wf(final(instance)@),
        amount == 0 ==> r == ORDER_ZERO_AMOUNT && final(instance)@ == old(instance)@,
        amount > 0 ==> r == forecast(old(instance)@, id, amount, variant_id) && final(instance)@ == after_order(
            old(instance)@,
            id,
            amount,
            variant_id,
            user_id,
            allow_substitution,
        ),
{
    if amount == 0 {
        return ORDER_ZERO_AMOUNT;
    }
    let ghost s = instance@;
    assert(schedule::product_ok(s, id as int));
    let variant = *instance.products[id].get_variant(variant_id);
    assert(schedule::variant_ok(s, variant, variant_id as int));
    let mid = variant.components.material_id;
    // Variants are only created against existing materials, so a well-formed plant
    // never takes this branch; it guards the lookup below all the same.
    if mid >= instance.materials.len() {
        return ORDER_NO_SUCH_MATERIAL;
    }
    proof {
        lemma_admit_wf(s, id, amount, variant_id, user_id, allow_substitution);
        let a = amount as int;
        let b = variant.components.material_amount as int;
        assert(0 <= a * b) by (nonlinear_arith)
            requires 0 <= a, 0 <= b;
    }
    let need = amount * variant.components.material_amount;
    instance.products[id].demand = instance.products[id].demand + amount;
    let mut material = instance.materials[mid];
    material.demand = material.demand + need;
    material.scarcity_cache = material.get_scarcity();
    instance.materials.set(mid, material);

    // Products hold no stock (see `wf`), so no order is served from stock: every admitted
    // order joins its backlog, whatever the forecast.
    let mut code = ORDER_QUEUED;
    if material.supply < need {
        code = ORDER_MATERIAL_NOT_AVAILABLE;
    }
    if material.scarcity_cache > EQUILIBRIUM {
        code = ORDER_MATERIAL_SCARCE;
    }
    let priority = instance.products[id].priority;
    instance.production_queue[priority].push(Order {
        product_id: id,
        product_amount: amount,
        preferred_variant: variant_id,
        user_id,
        allow_substitution,
    });
    proof {
        let t = admitted(s, id, amount, variant_id, user_id, allow_substitution);
        assert(instance@.materials =~= t.materials);
        assert(instance@.products[id as int].variants =~= t.products[id as int].variants);
        assert(instance@.products =~= t.products);
        assert(instance@.queues[priority as int] =~= t.queues[priority as int]);
        assert(instance@.queues =~= t.queues);
    }
    if code != ORDER_QUEUED {
        instance.drain();
    }
    code
}

/// One drain pass over every backlog.
pub fn process_queue(instance: &mut Instance)
    requires
        wf(old(instance)@),
    ensures
        wf(final(instance)@),
        final(instance)@ == drained(old(instance)@),
{
    instance.drain();
}

/// Sets the supply of material `id` and runs a drain pass. Returns false, changing
/// nothing, when there is no such material.
pub fn update_supply(instance: &mut Instance, id: usize, amount: u64) -> (r: bool)
    requires
        wf(old(instance)@),
    ensures
        wf(final(instance)@),
        r == ((id as int) < old(instance)@.materials.len()),
        r ==> final(instance)@ == drained(with_new_supply(old(instance)@, id as int, amount)),
        !r ==> final(instance)@ == old(instance)@,
{
    if id >= instance.materials.len() {
        return false;
    }
    let ghost s = instance@;
    proof {
        lemma_new_supply_wf(s, id as int, amount);
    }
    let mut material = instance.materials[id];
    material.supply = amount;
    instance.materials.set(id, material);
    assert(instance@.materials =~= with_new_supply(s, id as int, amount).materials);
    instance.drain();
    true
}

/// Appends a variant to product `product_id`, numbered after the existing ones.
/// An unknown product or material is refused.
pub fn add_product_variant(
    instance: &mut Instance,
    product_id: usize,
    material_id: usize,
    material_amount: u64,
    work_complexity: u64,
) -> (r: u8)
    requires
        wf(old(instance)@),
    ensures
        wf(final(instance)@),
        product_id as int >= old(instance)@.products.len() ==> r == VARIANT_NO_SUCH_PRODUCT && final(instance)@
            == old(instance)@,
        (product_id as int) < old(instance)@.products.len() && material_id as int >= old(instance)@.materials.len()
            ==> r == VARIANT_NO_SUCH_MATERIAL && final(instance)@ == old(instance)@,
        (product_id as int) < old(instance)@.products.len() && (material_id as int) < old(instance)@.materials.len()
            ==> r == VARIANT_ADDED && final(instance)@ == with_variant(
            old(instance)@,
            product_id as int,
            material_id,
            material_amount,
            work_complexity,
        ),
{
    if product_id >= instance.products.len() {
        return VARIANT_NO_SUCH_PRODUCT;
    }
    if material_id >= instance.materials.len() {
        return VARIANT_NO_SUCH_MATERIAL;
    }
    let ghost s = instance@;
    let variant_id = instance.products[product_id].variants.len();
    proof {
        lemma_add_variant_wf(s, product_id as int, material_id, material_amount, work_complexity);
    }
    instance.products[product_id].variants.push(ProductVariant {
        id: variant_id,
        components: Component { material_id, material_amount, scarcity_cache: 0 },
        work_complexity,
    });
    proof {
        let t = with_variant(s, product_id as int, material_id, material_amount, work_complexity);
        assert(instance@.products[product_id as int].variants =~= t.products[product_id as int].variants);
        assert(instance@.products =~= t.products);
    }
    VARIANT_ADDED
}

pub fn get_material_count(instance: &Instance) -> (r: usize)
    ensures
        r == instance@.materials.len(),
{
    instance.materials.len()
}

/// Demand of material `id`; none when there is no such material.
pub fn get_material_demand(instance: &Instance, id: usize) -> (r: Option<u64>)
    ensures
        r == if (id as int) < instance@.materials.len() {
            Some(instance@.materials[id as int].demand)
        } else {
            None
        },
{
    if id < instance.materials.len() {
        Some(instance.materials[id].demand)
    } else {
        None
    }
}

/// Supply of material `id`; none when there is no such material.
pub fn get_material_supply(instance: &Instance, id: usize) -> (r: Option<u64>)
    ensures
        r == if (id as int) < instance@.materials.len() {
            Some(instance@.materials[id as int].supply)
        } else {
            None
        },
{
    if id < instance.materials.len() {
        Some(instance.materials[id].supply)
    } else {
        None
    }
}

/// Scarcity of material `id` as last cached; none when there is no such material.
pub fn get_material_scarcity(instance: &Instance, id: usize) -> (r: Option<u64>)
    ensures
        r == if (id as int) < instance@.materials.len() {
            Some(instance@.materials[id as int].scarcity_cache)
        } else {
            None
        },
{
    if id < instance.materials.len() {
        Some(instance.materials[id].scarcity_cache)
    } else {
        None
    }
}

pub fn get_product_count(instance: &Instance) -> (r: usize)
    ensures
        r == instance@.products.len(),
{
    instance.products.len()
}

/// Stock of product `id`; none when there is no such product.
pub fn get_product_supply(instance: &Instance, id: usize) -> (r: Option<u64>)
    ensures
        r == if (id as int) < instance@.products.len() {
            Some(instance@.products[id as int].supply)
        } else {
            None
        },
{
    if id < instance.products.len() {
        Some(instance.products[id].supply)
    } else {
        None
    }
}

/// Outstanding demand of product `id`; none when there is no such product.
pub fn get_product_demand(instance: &Instance, id: usize) -> (r: Option<u64>)
    ensures
        r == if (id as int) < instance@.products.len() {
            Some(instance@.products[id as int].demand)
        } else {
            None
        },
{
    if id < instance.products.len() {
        Some(instance.products[id].demand)
    } else {
        None
    }
}

/// Priority class of product `id`; none when there is no such product.
pub fn get_product_priority(instance: &Instance, id: usize) -> (r: Option<usize>)
    ensures
        r == if (id as int) < instance@.products.len() {
            Some(instance@.products[id as int].priority)
        } else {
            None
        },
{
    if id < instance.products.len() {
        Some(instance.products[id].priority)
    } else {
        None
    }
}

/// Recipe of variant `variant_id` of product `product_id`; none when either is unknown.
pub fn get_product_variant(instance: &Instance, product_id: usize, variant_id: usize) -> (r: Option<Component>)
    ensures
        r == if (product_id as int) < instance@.products.len() && (variant_id as int)
            < instance@.products[product_id as int].variants.len() {
            Some(instance@.products[product_id as int].variants[variant_id as int].components)
        } else {
            None
        },
{
    if product_id < instance.products.len() && variant_id < instance.products[product_id].variants.len() {
        Some(instance.products[product_id].variants[variant_id].components)
    } else {
        None
    }
}

/// Takes the most recently finished order off the finished stack.
pub fn get_next_finished(instance: &mut Instance) -> (r: COption<Order>)
    requires
        wf(old(instance)@),
    ensures
        wf(final(instance)@),
        old(instance)@.finished.len() == 0 ==> !r.is_some && final(instance)@ == old(instance)@,
        old(instance)@.finished.len() > 0 ==> r.is_some && r.data == old(instance)@.finished.last()
            && final(instance)@ == (InstanceView { finished: old(instance)@.finished.drop_last(), ..old(instance)@ }),
{
    let ghost s = instance@;
    let r = instance.finished_products.pop();
    proof {
        lemma_wf_finished(s, instance@.finished);
        assert(instance@ == (InstanceView { finished: instance@.finished, ..s }));
    }
    match r {
        Some(p) => COption { is_some: true, data: p },
        None => COption {
            is_some: false,
            data: Order {
                product_id: 0,
                product_amount: 0,
                preferred_variant: 0,
                user_id: 0,
                allow_substitution: false,
            },
        },
    }
}

pub fn get_finished_count(instance: &Instance) -> (r: usize)
    ensures
        r == instance@.finished.len(),
{
    instance.finished_products.len()
}

/// Number of backlogged orders over all priority classes.
pub fn get_queue_len(instance: &Instance) -> (r: usize)
    requires
        wf(instance@),
    ensures
        r == queued_count(instance@.queues),
{
    let ghost qs = instance@.queues;
    let mut total: usize = 0;
    let mut p: usize = 0;
    proof {
        assert(qs.take(0) =~= Seq::<Seq<Order>>::empty());
    }
    while p < instance.production_queue.len()
        invariant
            qs == instance@.queues,
            p <= qs.len(),
            qs.len() == instance.production_queue@.len(),
            wf(instance@),
            total as int == queued_count(qs.take(p as int)),
        decreases qs.len() - p,
    {
        proof {
            assert(qs.take(p + 1).drop_last() =~= qs.take(p as int));
            assert(qs[p as int] == instance.production_queue@[p as int]@);
            lemma_sum_of_count(qs[p as int]);
            lemma_sum_all_prefix(qs, p + 1, one_fn());
        }
        total = total + instance.production_queue[p].len();
        p += 1;
    }
    proof {
        assert(qs.take(p as int) =~= qs);
    }
    total
}

/// The variants of product `id`.
pub fn get_product_variants(instance: &Instance, id: usize) -> (r: &Vec<ProductVariant>)
    requires
        (id as int) < instance@.products.len(),
    ensures
        r@ == instance@.products[id as int].variants,
{
    &instance.products[id].variants
}

/// A copy of material `id`.
pub fn tst_get_material(instance: &Instance, id: usize) -> (r: Material)
    requires
        (id as int) < instance@.materials.len(),
    ensures
        r == instance@.materials[id as int],
{
    instance.materials[id]
}

pub fn tst_get_materials(instance: &Instance) -> (r: &Vec<Material>)
    ensures
        r@ == instance@.materials,
{
    &instance.materials
}

pub fn tst_get_products(instance: &Instance) -> (r: &Vec<Product>)
    ensures
        r@.map_values(|p: Product| p@) == instance@.products,
{
    &instance.products
}

} // verus!
