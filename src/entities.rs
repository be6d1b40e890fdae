use vstd::prelude::*;

verus! {

/// Number of priority classes, each with its own backlog.
pub const PRIORITIES: usize = 4;

/// Scarcity of a material whose demand equals its supply.
pub const EQUILIBRIUM: u64 = 50;

/// Result codes of `add_material`.
pub const MATERIAL_ADDED: u8 = 0;
pub const MATERIAL_ZERO_SUPPLY: u8 = 2;

/// Result codes of `add_product`.
pub const PRODUCT_ADDED: u8 = 0;
pub const PRODUCT_ZERO_MATERIAL: u8 = 3;
pub const PRODUCT_NO_SUCH_MATERIAL: u8 = 4;

/// Result codes of `add_product_variant`.
pub const VARIANT_ADDED: u8 = 0;
pub const VARIANT_NO_SUCH_PRODUCT: u8 = 1;
pub const VARIANT_NO_SUCH_MATERIAL: u8 = 2;

/// Result codes of `order_product`. The first and the last two are forecasts of an
/// admitted order; the other two are refusals.
pub const ORDER_QUEUED: u8 = 1;
pub const ORDER_ZERO_AMOUNT: u8 = 2;
pub const ORDER_NO_SUCH_MATERIAL: u8 = 3;
pub const ORDER_MATERIAL_NOT_AVAILABLE: u8 = 4;
pub const ORDER_MATERIAL_SCARCE: u8 = 5;

/// Scarcity as a pure function of demand and supply: `demand * EQUILIBRIUM / supply`
/// rounded down, capped at `u64::MAX`; `u64::MAX` when there is no supply at all.
pub open spec fn scarcity_of(demand: u64, supply: u64) -> u64 {
    if supply == 0 {
        u64::MAX
    } else if demand as int * EQUILIBRIUM as int / supply as int > u64::MAX as int {
        u64::MAX
    } else {
        (demand as int * EQUILIBRIUM as int / supply as int) as u64
    }
}

/// One recipe ingredient: how much of which material a unit of product consumes.
#[derive(Copy, Clone)]
pub struct Component {
    pub material_id: usize,
    pub material_amount: u64,
    pub scarcity_cache: u64,
}

/// A recipe for a product. `id` is the variant's position in its product.
#[derive(Copy, Clone)]
pub struct ProductVariant {
    pub id: usize,
    pub components: Component,
    pub work_complexity: u64,
}

#[derive(Copy, Clone, Debug)]
pub struct Material {
    pub scarcity_cache: u64,
    pub demand: u64,
    pub supply: u64,
}

impl Material {
    pub open spec fn scarcity(self) -> u64 {
        scarcity_of(self.demand, self.supply)
    }

    /// The material's current scarcity, computed afresh from demand and supply.
    #[must_use]
    pub fn get_scarcity(&self) -> (r: u64)
        ensures
            r == self.scarcity(),
    {
        if self.supply != 0 {
            proof {
                let d = self.demand as int;
                assert(0 <= d * 50 <= u64::MAX as int * 50) by (nonlinear_arith)
                    requires 0 <= d <= u64::MAX as int;
            }
            let s: u128 = (self.demand as u128) * (EQUILIBRIUM as u128) / (self.supply as u128);
            if s > u64::MAX as u128 {
                u64::MAX
            } else {
                s as u64
            }
        } else {
            u64::MAX
        }
    }
}

/// A backlog entry: a client's order for `product_amount` units of a product.
#[derive(Copy, Clone)]
pub struct Order {
    pub product_id: usize,
    pub product_amount: u64,
    pub preferred_variant: usize,
    pub user_id: usize,
    pub allow_substitution: bool,
}

/// An optional value in a fixed layout: `data` is meaningful only when `is_some`.
pub struct COption<T> {
    pub is_some: bool,
    pub data: T,
}

pub struct ProductView {
    pub variants: Seq<ProductVariant>,
    pub supply: u64,
    pub demand: u64,
    pub priority: usize,
}

pub struct Product {
    pub variants: Vec<ProductVariant>,
    pub supply: u64,
    pub demand: u64,
    pub priority: usize,
}

impl View for Product {
    type V = ProductView;

    open spec fn view(&self) -> ProductView {
        ProductView {
            variants: self.variants@,
            supply: self.supply,
            demand: self.demand,
            priority: self.priority,
        }
    }
}

impl Product {
    /// Makes `amount` units with `variant` out of `material`, whose supply must cover them.
    pub fn manufacture(&mut self, material: &mut Material, amount: u64, variant: &ProductVariant)
        requires
            old(material).supply as int >= amount as int * variant.components.material_amount as int,
            old(self).supply as int + amount as int <= u64::MAX as int,
        ensures
            final(material).supply as int == old(material).supply as int - amount as int
                * variant.components.material_amount as int,
            final(material).demand == old(material).demand,
            final(material).scarcity_cache == old(material).scarcity_cache,
            final(self).supply == old(self).supply + amount,
            final(self).demand == old(self).demand,
            final(self).priority == old(self).priority,
            final(self).variants@ == old(self).variants@,
    {
        proof {
            let a = amount as int;
            let b = variant.components.material_amount as int;
            assert(a * b >= 0) by (nonlinear_arith)
                requires a >= 0, b >= 0;
        }
        let material_amount = amount * variant.components.material_amount;
        material.supply = material.supply - material_amount;
        self.supply = self.supply + amount;
    }

    /// Hands `amount` units from stock to the client who asked for them.
    pub fn deliver(&mut self, amount: u64)
        requires
            old(self).supply >= amount,
            old(self).demand >= amount,
        ensures
            final(self).supply == old(self).supply - amount,
            final(self).demand == old(self).demand - amount,
            final(self).priority == old(self).priority,
            final(self).variants@ == old(self).variants@,
    {
        self.supply = self.supply - amount;
        self.demand = self.demand - amount;
    }

    /// The variant with the given id; ids are positions.
    pub fn get_variant(&self, variant_id: usize) -> (r: &ProductVariant)
        requires
            variant_id < self.variants@.len(),
        ensures
            *r == self.variants@[variant_id as int],
    {
        &self.variants[variant_id]
    }
}

} // verus!
