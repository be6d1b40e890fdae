use resource_mng::{add_material, add_product, init, order_product};

#[test]
fn add_same_material() {
    let instance = &mut init();
    add_material(instance, 8);
    add_material(instance, 1);
    assert_eq!(instance.get_material(0).supply, 8);
}

#[test]
fn add_product_without_material() {
    let instance = &mut init();
    assert_ne!(!add_product(instance, 12345, 10, 0, 1), 0);
}

#[test]
fn add_same_product() {
    let instance = &mut init();
    add_material(instance, 8);
    add_product(instance, 0, 10, 0, 1);
    add_product(instance, 0, 5, 0, 1);
    assert_eq!(instance.get_product(0).variants.first().unwrap().components.material_amount, 10);
}

#[test]
fn add_prod_zero_mat() {
    let instance = &mut init();
    add_material(instance, 8);
    assert_ne!(add_product(instance, 0, 0, 0, 1), 0);
}

#[test]
fn order_zero_products() {
    let instance = &mut init();
    assert_eq!(order_product(instance, 0, 0, 0, 0, true), 2);
}
