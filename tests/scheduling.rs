use resource_mng::{
    add_material, add_product, add_product_variant, get_finished_count, get_material_demand, get_material_scarcity,
    get_material_supply, get_next_finished, get_product_count, get_product_demand, get_product_priority,
    get_product_supply, get_product_variant, get_queue_len, init, order_product, process_queue, update_supply,
    Material, MATERIAL_ADDED, MATERIAL_ZERO_SUPPLY, ORDER_MATERIAL_NOT_AVAILABLE, ORDER_MATERIAL_SCARCE,
    ORDER_QUEUED, ORDER_ZERO_AMOUNT, PRODUCT_ADDED, PRODUCT_NO_SUCH_MATERIAL, PRODUCT_ZERO_MATERIAL,
    VARIANT_ADDED, VARIANT_NO_SUCH_MATERIAL, VARIANT_NO_SUCH_PRODUCT,
};

fn material(demand: u64, supply: u64) -> Material {
    Material { scarcity_cache: 0, demand, supply }
}

#[test]
fn scarcity_formula() {
    assert_eq!(material(80, 80).get_scarcity(), 50);
    assert_eq!(material(70, 80).get_scarcity(), 43);
    assert_eq!(material(0, 80).get_scarcity(), 0);
    assert_eq!(material(160, 80).get_scarcity(), 100);
    assert_eq!(material(1, 0).get_scarcity(), u64::MAX);
    assert_eq!(material(0, 0).get_scarcity(), u64::MAX);
    assert_eq!(material(u64::MAX, 1).get_scarcity(), u64::MAX);
}

#[test]
fn scarcity_grows_with_demand() {
    let mut last = 0;
    for d in 0..200u64 {
        let s = material(d, 37).get_scarcity();
        assert!(s >= last);
        last = s;
    }
    for s in 1..300u64 {
        assert_eq!(material(s, s).get_scarcity(), 50);
    }
}

#[test]
fn add_material_codes() {
    let instance = &mut init();
    assert_eq!(add_material(instance, 0), MATERIAL_ZERO_SUPPLY);
    assert_eq!(instance.get_materials().len(), 0);
    assert_eq!(add_material(instance, 5), MATERIAL_ADDED);
    assert_eq!(get_material_supply(instance, 0), Some(5));
    assert_eq!(get_material_demand(instance, 0), Some(0));
    assert_eq!(get_material_supply(instance, 1), None);
}

#[test]
fn add_product_codes() {
    let instance = &mut init();
    add_material(instance, 5);
    assert_eq!(add_product(instance, 0, 0, 0, 1), PRODUCT_ZERO_MATERIAL);
    assert_eq!(add_product(instance, 1, 3, 0, 1), PRODUCT_NO_SUCH_MATERIAL);
    assert_eq!(get_product_count(instance), 0);
    assert_eq!(add_product(instance, 0, 3, 2, 1), PRODUCT_ADDED);
    assert_eq!(get_product_count(instance), 1);
    assert_eq!(get_product_priority(instance, 0), Some(2));
    assert_eq!(get_product_supply(instance, 0), Some(0));
    assert_eq!(get_product_demand(instance, 0), Some(0));
    assert_eq!(get_product_priority(instance, 1), None);
}

#[test]
fn add_variant_codes() {
    let instance = &mut init();
    add_material(instance, 5);
    add_material(instance, 6);
    add_product(instance, 0, 3, 0, 1);
    assert_eq!(add_product_variant(instance, 1, 0, 2, 1), VARIANT_NO_SUCH_PRODUCT);
    assert_eq!(add_product_variant(instance, 0, 2, 2, 1), VARIANT_NO_SUCH_MATERIAL);
    assert_eq!(add_product_variant(instance, 0, 1, 2, 7), VARIANT_ADDED);
    assert_eq!(add_product_variant(instance, 0, 0, 4, 7), VARIANT_ADDED);
    let v = instance.get_product(0).variants.clone();
    assert_eq!(v.len(), 3);
    assert_eq!(v[1].id, 1);
    assert_eq!(v[2].id, 2);
    let c = get_product_variant(instance, 0, 1).unwrap();
    assert_eq!(c.material_id, 1);
    assert_eq!(c.material_amount, 2);
    assert!(get_product_variant(instance, 0, 3).is_none());
}

#[test]
fn order_zero_amount_changes_nothing() {
    let instance = &mut init();
    add_material(instance, 10);
    add_product(instance, 0, 1, 0, 1);
    assert_eq!(order_product(instance, 0, 0, 0, 0, false), ORDER_ZERO_AMOUNT);
    assert_eq!(get_queue_len(instance), 0);
    assert_eq!(get_material_demand(instance, 0), Some(0));
}

#[test]
fn queued_then_drained() {
    let instance = &mut init();
    add_material(instance, 100);
    add_product(instance, 0, 4, 1, 1);
    assert_eq!(order_product(instance, 0, 5, 0, 9, true), ORDER_QUEUED);
    assert_eq!(get_queue_len(instance), 1);
    assert_eq!(get_finished_count(instance), 0);
    assert_eq!(get_material_demand(instance, 0), Some(20));
    assert_eq!(get_product_demand(instance, 0), Some(5));
    assert_eq!(get_material_scarcity(instance, 0), Some(10));
    process_queue(instance);
    assert_eq!(get_queue_len(instance), 0);
    assert_eq!(get_finished_count(instance), 1);
    assert_eq!(get_material_supply(instance, 0), Some(80));
    assert_eq!(get_material_demand(instance, 0), Some(0));
    assert_eq!(get_product_demand(instance, 0), Some(0));
    let f = get_next_finished(instance);
    assert!(f.is_some);
    assert_eq!(f.data.product_id, 0);
    assert_eq!(f.data.product_amount, 5);
    assert_eq!(f.data.user_id, 9);
}

#[test]
fn not_available_stays_until_supply_rises() {
    let instance = &mut init();
    add_material(instance, 79);
    add_product(instance, 0, 10, 0, 1);
    assert_eq!(order_product(instance, 0, 8, 0, 0, true), ORDER_MATERIAL_NOT_AVAILABLE);
    assert_eq!(get_queue_len(instance), 1);
    assert_eq!(get_finished_count(instance), 0);
    process_queue(instance);
    assert_eq!(get_queue_len(instance), 1);
    assert!(update_supply(instance, 0, 80));
    assert_eq!(get_queue_len(instance), 0);
    assert_eq!(get_finished_count(instance), 1);
    assert_eq!(get_material_supply(instance, 0), Some(0));
    assert_eq!(get_material_demand(instance, 0), Some(0));
}

#[test]
fn scarce_order_is_queued_and_drained_later() {
    let instance = &mut init();
    add_material(instance, 10);
    add_product(instance, 0, 1, 0, 1);
    add_product(instance, 0, 1, 0, 1);
    // pledges 9 of 10: healthy
    assert_eq!(order_product(instance, 0, 9, 0, 0, true), ORDER_QUEUED);
    // pledges 11 of 10 though this order alone fits: scarce, and a drain follows
    assert_eq!(order_product(instance, 1, 2, 0, 0, true), ORDER_MATERIAL_SCARCE);
    assert_eq!(get_finished_count(instance), 1);
    assert_eq!(get_queue_len(instance), 1);
    // the healthy entry came first and left too little behind
    assert_eq!(get_material_supply(instance, 0), Some(1));
    assert_eq!(get_material_demand(instance, 0), Some(2));
    assert!(update_supply(instance, 0, 9));
    assert_eq!(get_queue_len(instance), 0);
    assert_eq!(get_finished_count(instance), 2);
    assert_eq!(get_material_supply(instance, 0), Some(7));
    assert_eq!(get_material_demand(instance, 0), Some(0));
}

#[test]
fn scarcity_rounds_down() {
    let instance = &mut init();
    add_material(instance, 100);
    add_product(instance, 0, 10, 0, 1);
    add_product(instance, 0, 1, 0, 1);
    assert_eq!(order_product(instance, 0, 10, 0, 0, true), ORDER_QUEUED);
    // 101 pledged against 100: 5050 / 100 rounds down to the equilibrium
    assert_eq!(order_product(instance, 1, 1, 0, 0, true), ORDER_QUEUED);
    assert_eq!(get_material_scarcity(instance, 0), Some(50));
    assert_eq!(get_finished_count(instance), 0);
    assert_eq!(get_queue_len(instance), 2);
}

#[test]
fn shared_material_only_one_per_pass() {
    let instance = &mut init();
    add_material(instance, 50);
    add_product(instance, 0, 10, 0, 1);
    add_product(instance, 0, 10, 0, 1);
    assert_eq!(order_product(instance, 0, 4, 0, 0, true), ORDER_QUEUED);
    assert_eq!(order_product(instance, 1, 4, 0, 0, true), ORDER_MATERIAL_SCARCE);
    assert_eq!(get_finished_count(instance), 1);
    assert_eq!(get_queue_len(instance), 1);
    let f = get_next_finished(instance);
    assert_eq!(f.data.product_id, 0);
    assert_eq!(get_material_supply(instance, 0), Some(10));
    assert_eq!(get_material_demand(instance, 0), Some(40));
    process_queue(instance);
    assert_eq!(get_queue_len(instance), 1);
    assert!(update_supply(instance, 0, 40));
    assert_eq!(get_queue_len(instance), 0);
    assert_eq!(get_material_demand(instance, 0), Some(0));
}

#[test]
fn example_material_one() {
    let instance = &mut init();
    add_material(instance, 5);
    add_material(instance, 80);
    add_product(instance, 1, 10, 0, 1);
    assert_eq!(order_product(instance, 0, 8, 0, 0, true), ORDER_QUEUED);
    process_queue(instance);
    assert_eq!(get_finished_count(instance), 1);
    let f = get_next_finished(instance);
    assert!(f.is_some);
    assert_eq!(f.data.product_id, 0);
    assert_eq!(f.data.product_amount, 8);
    assert_eq!(get_material_supply(instance, 1), Some(0));
    assert_eq!(get_material_demand(instance, 1), Some(0));
}

#[test]
fn pop_next_finished() {
    let instance = &mut init();
    let none = get_next_finished(instance);
    assert!(!none.is_some);
    assert_eq!(get_finished_count(instance), 0);
    add_material(instance, 100);
    add_product(instance, 0, 1, 0, 1);
    order_product(instance, 0, 3, 0, 0, true);
    process_queue(instance);
    let one = get_next_finished(instance);
    assert!(one.is_some);
    assert_eq!(one.data.product_amount, 3);
    assert!(!get_next_finished(instance).is_some);
}

#[test]
fn finished_is_a_stack() {
    let instance = &mut init();
    add_material(instance, 100);
    add_product(instance, 0, 1, 0, 1);
    order_product(instance, 0, 1, 0, 1, true);
    order_product(instance, 0, 2, 0, 2, true);
    process_queue(instance);
    assert_eq!(get_next_finished(instance).data.user_id, 2);
    assert_eq!(get_next_finished(instance).data.user_id, 1);
}

#[test]
fn lower_class_drained_first() {
    let instance = &mut init();
    add_material(instance, 10);
    add_product(instance, 0, 10, 3, 1);
    add_product(instance, 0, 10, 0, 1);
    order_product(instance, 0, 1, 0, 1, true);
    order_product(instance, 1, 1, 0, 2, true);
    process_queue(instance);
    assert_eq!(get_finished_count(instance), 1);
    assert_eq!(get_next_finished(instance).data.user_id, 2);
}

#[test]
fn blocked_entry_keeps_its_place() {
    let instance = &mut init();
    add_material(instance, 10);
    add_product(instance, 0, 10, 0, 1);
    add_product(instance, 0, 1, 0, 1);
    order_product(instance, 0, 2, 0, 1, true);
    order_product(instance, 1, 3, 0, 2, true);
    // the first entry needs 20 and stays; the one behind it is made
    assert_eq!(get_finished_count(instance), 1);
    assert_eq!(get_next_finished(instance).data.user_id, 2);
    assert_eq!(get_queue_len(instance), 1);
}

#[test]
fn preferred_variant_first_then_cheapest() {
    let instance = &mut init();
    add_material(instance, 1);
    add_material(instance, 100);
    add_material(instance, 100);
    add_product(instance, 0, 5, 0, 1);
    add_product_variant(instance, 0, 1, 1, 1);
    add_product_variant(instance, 0, 2, 1, 1);
    // material 2 carries demand, so its scarcity is higher
    add_product(instance, 2, 1, 1, 1);
    order_product(instance, 1, 50, 0, 0, true);
    // preferred variant 0 is short of material; variant 1 is cheaper than variant 2
    assert_eq!(order_product(instance, 0, 10, 0, 7, true), ORDER_MATERIAL_SCARCE);
    assert_eq!(get_material_supply(instance, 1), Some(90));
    // the same pass then made the class 1 order out of material 2
    assert_eq!(get_material_supply(instance, 2), Some(50));
    assert_eq!(get_finished_count(instance), 2);
    // the pledge on the preferred material is released
    assert_eq!(get_material_demand(instance, 0), Some(0));
    assert_eq!(get_material_demand(instance, 1), Some(0));
    assert_eq!(get_material_demand(instance, 2), Some(0));
}

#[test]
fn preferred_variant_wins_when_feasible() {
    let instance = &mut init();
    add_material(instance, 100);
    add_material(instance, 100);
    add_product(instance, 0, 5, 0, 1);
    add_product_variant(instance, 0, 1, 1, 1);
    assert_eq!(order_product(instance, 0, 10, 0, 0, true), ORDER_QUEUED);
    process_queue(instance);
    assert_eq!(get_material_supply(instance, 0), Some(50));
    assert_eq!(get_material_supply(instance, 1), Some(100));
}

#[test]
fn equal_cost_takes_lower_id() {
    let instance = &mut init();
    add_material(instance, 1);
    add_material(instance, 100);
    add_material(instance, 100);
    add_product(instance, 0, 5, 0, 1);
    add_product_variant(instance, 0, 2, 1, 1);
    add_product_variant(instance, 0, 1, 1, 1);
    assert_eq!(order_product(instance, 0, 10, 0, 0, true), ORDER_MATERIAL_SCARCE);
    assert_eq!(get_material_supply(instance, 2), Some(90));
    assert_eq!(get_material_supply(instance, 1), Some(100));
}

#[test]
fn update_supply_unknown_material() {
    let instance = &mut init();
    add_material(instance, 10);
    assert!(!update_supply(instance, 3, 5));
    assert_eq!(get_material_supply(instance, 0), Some(10));
    assert!(update_supply(instance, 0, 0));
    assert_eq!(get_material_supply(instance, 0), Some(0));
}
