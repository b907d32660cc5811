use inventory_ledger::errors::InventoryError;
use inventory_ledger::items::Product;
use inventory_ledger::ledger::Inventory;

fn product(id: u32, name: &str, description: &str, price: u32, quantity: u32) -> Product {
    Product {
        id,
        name: name.to_string(),
        description: description.to_string(),
        price,
        quantity,
    }
}

fn quantity_of(inv: &Inventory, name: &str, id: u32) -> u32 {
    for g in inv.groups() {
        if g.name == name {
            for p in &g.products {
                if p.id == id {
                    return p.quantity;
                }
            }
        }
    }
    panic!("no product {} under {}", id, name);
}

#[test]
fn new_ledger_is_empty() {
    let inv = Inventory::new();
    assert!(inv.list_products().is_empty());
    assert!(inv.groups().is_empty());
    assert!(inv.sales().is_empty());
    assert!(inv.purchases().is_empty());
}

#[test]
fn add_two_products_same_name_lists_both() {
    let mut inv = Inventory::new();
    assert_eq!(inv.add_product(product(1, "Laptop", "Gaming Laptop", 80000, 5)), Ok(()));
    assert_eq!(inv.add_product(product(2, "Laptop", "Business Laptop", 60000, 3)), Ok(()));
    let groups = inv.groups();
    assert_eq!(groups.len(), 1);
    assert_eq!(groups[0].name, "Laptop");
    assert_eq!(groups[0].products.len(), 2);
    assert_eq!(groups[0].products[0].id, 1);
    assert_eq!(groups[0].products[1].id, 2);
    let listed = inv.list_products();
    assert_eq!(listed.len(), 2);
    assert!(listed.iter().all(|p| p.name == "Laptop"));
}

#[test]
fn deleting_last_product_removes_group() {
    let mut inv = Inventory::new();
    assert_eq!(inv.add_product(product(1, "Laptop", "Gaming Laptop", 80000, 5)), Ok(()));
    assert_eq!(inv.delete_product("Laptop", 1), Ok(()));
    assert!(inv.groups().is_empty());
    assert_eq!(inv.delete_product("Laptop", 1), Err(InventoryError::NotFoundName));
    assert_eq!(inv.edit_product("Laptop", 1, 100, 1), Err(InventoryError::NotFoundName));
}

#[test]
fn deleting_one_of_two_keeps_group() {
    let mut inv = Inventory::new();
    assert_eq!(inv.add_product(product(1, "Laptop", "Gaming Laptop", 80000, 5)), Ok(()));
    assert_eq!(inv.add_product(product(2, "Laptop", "Business Laptop", 60000, 3)), Ok(()));
    assert_eq!(inv.delete_product("Laptop", 2), Ok(()));
    let groups = inv.groups();
    assert_eq!(groups.len(), 1);
    assert_eq!(groups[0].products.len(), 1);
    assert_eq!(groups[0].products[0].id, 1);
}

#[test]
fn delete_missing_name_and_id() {
    let mut inv = Inventory::new();
    assert_eq!(inv.delete_product("Laptop", 1), Err(InventoryError::NotFoundName));
    assert_eq!(inv.add_product(product(1, "Laptop", "Gaming Laptop", 80000, 5)), Ok(()));
    assert_eq!(inv.delete_product("Laptop", 2), Err(InventoryError::NotFoundId));
    assert_eq!(quantity_of(&inv, "Laptop", 1), 5);
}

#[test]
fn edit_missing_id_is_not_found_id() {
    let mut inv = Inventory::new();
    assert_eq!(inv.add_product(product(1, "Laptop", "Gaming Laptop", 80000, 5)), Ok(()));
    assert_eq!(inv.edit_product("Laptop", 2, 75000, 6), Err(InventoryError::NotFoundId));
}

#[test]
fn edit_overwrites_price_and_quantity_exactly() {
    let mut inv = Inventory::new();
    assert_eq!(inv.add_product(product(1, "Laptop", "Gaming Laptop", 80000, 5)), Ok(()));
    assert_eq!(inv.edit_product("Laptop", 1, 75000, 6), Ok(()));
    let groups = inv.groups();
    assert_eq!(groups[0].products[0].price, 75000);
    assert_eq!(groups[0].products[0].quantity, 6);
    assert_eq!(groups[0].products[0].description, "Gaming Laptop");
}

#[test]
fn duplicate_ids_in_group_first_match_wins() {
    let mut inv = Inventory::new();
    assert_eq!(inv.add_product(product(7, "Cable", "red", 100, 1)), Ok(()));
    assert_eq!(inv.add_product(product(7, "Cable", "blue", 200, 2)), Ok(()));
    assert_eq!(inv.edit_product("Cable", 7, 150, 9), Ok(()));
    let groups = inv.groups();
    assert_eq!(groups[0].products[0].price, 150);
    assert_eq!(groups[0].products[0].quantity, 9);
    assert_eq!(groups[0].products[1].price, 200);
    assert_eq!(groups[0].products[1].quantity, 2);
}

#[test]
fn sale_exceeding_stock_is_rejected() {
    let mut inv = Inventory::new();
    assert_eq!(inv.add_product(product(1, "Laptop", "Gaming Laptop", 80000, 5)), Ok(()));
    assert_eq!(inv.record_sale("Laptop", 1, 6, 85000), Err(InventoryError::InsufficientStock));
    assert_eq!(quantity_of(&inv, "Laptop", 1), 5);
    assert!(inv.sales().is_empty());
}

#[test]
fn sale_of_exact_stock_leaves_zero() {
    let mut inv = Inventory::new();
    assert_eq!(inv.add_product(product(1, "Laptop", "Gaming Laptop", 80000, 5)), Ok(()));
    assert_eq!(inv.record_sale("Laptop", 1, 5, 85000), Ok(()));
    assert_eq!(quantity_of(&inv, "Laptop", 1), 0);
    assert_eq!(inv.sales().len(), 1);
}

#[test]
fn totals_are_quantity_times_unit_price() {
    let mut inv = Inventory::new();
    assert_eq!(inv.add_product(product(1, "Laptop", "Gaming Laptop", 80000, 5)), Ok(()));
    assert_eq!(inv.record_sale("Laptop", 1, 2, 85000), Ok(()));
    let sale = &inv.sales()[0];
    assert_eq!(sale.quantity_sold, 2);
    assert_eq!(sale.sale_price, 85000);
    assert_eq!(sale.total_price, 170000);
    assert_eq!(inv.record_purchase("Laptop", 1, 3, 1400), Ok(()));
    let purchase = &inv.purchases()[0];
    assert_eq!(purchase.quantity_purchase, 3);
    assert_eq!(purchase.buy_price, 1400);
    assert_eq!(purchase.total_price, 4200);
}

#[test]
fn sale_records_carry_product_name_and_id() {
    let mut inv = Inventory::new();
    assert_eq!(inv.add_product(product(4, "Mouse", "Wireless", 1500, 10)), Ok(()));
    assert_eq!(inv.record_sale("Mouse", 4, 1, 1400), Ok(()));
    let sale = &inv.sales()[0];
    assert_eq!(sale.product_name, "Mouse");
    assert_eq!(sale.product_id, 4);
    assert_eq!(inv.delete_product("Mouse", 4), Ok(()));
    assert_eq!(inv.sales()[0].product_name, "Mouse");
}

#[test]
fn sale_against_unknown_name_appends_nothing() {
    let mut inv = Inventory::new();
    assert_eq!(inv.add_product(product(1, "Laptop", "Gaming Laptop", 80000, 5)), Ok(()));
    assert_eq!(inv.record_sale("Mouse", 2, 3, 1400), Err(InventoryError::NotFoundName));
    assert!(inv.sales().is_empty());
    assert_eq!(inv.record_purchase("Mouse", 2, 3, 1400), Err(InventoryError::NotFoundName));
    assert!(inv.purchases().is_empty());
    assert_eq!(quantity_of(&inv, "Laptop", 1), 5);
}

#[test]
fn sale_against_unknown_id_appends_nothing() {
    let mut inv = Inventory::new();
    assert_eq!(inv.add_product(product(1, "Laptop", "Gaming Laptop", 80000, 5)), Ok(()));
    assert_eq!(inv.record_sale("Laptop", 9, 1, 85000), Err(InventoryError::NotFoundId));
    assert!(inv.sales().is_empty());
    assert_eq!(inv.record_purchase("Laptop", 9, 1, 85000), Err(InventoryError::NotFoundId));
    assert!(inv.purchases().is_empty());
}

#[test]
fn stock_of_resolves_like_the_operations() {
    let mut inv = Inventory::new();
    assert_eq!(inv.stock_of("Laptop", 1), None);
    assert_eq!(inv.add_product(product(1, "Laptop", "Gaming Laptop", 80000, 5)), Ok(()));
    assert_eq!(inv.stock_of("Laptop", 1), Some(5));
    assert_eq!(inv.stock_of("Laptop", 2), None);
    assert_eq!(inv.stock_of("Mouse", 1), None);
}

#[test]
fn purchase_increments_stock_unconditionally() {
    let mut inv = Inventory::new();
    assert_eq!(inv.add_product(product(1, "Laptop", "Gaming Laptop", 80000, 5)), Ok(()));
    assert_eq!(inv.record_purchase("Laptop", 1, 2, 85000), Ok(()));
    assert_eq!(quantity_of(&inv, "Laptop", 1), 7);
    assert_eq!(inv.purchases().len(), 1);
}

#[test]
fn laptop_scenario() {
    let mut inv = Inventory::new();
    assert_eq!(inv.add_product(product(1, "Laptop", "Gaming Laptop", 80000, 5)), Ok(()));
    assert_eq!(inv.record_sale("Laptop", 1, 2, 85000), Ok(()));
    assert_eq!(quantity_of(&inv, "Laptop", 1), 3);
    assert_eq!(inv.sales().len(), 1);
    assert_eq!(inv.sales()[0].total_price, 170000);
    assert_eq!(inv.record_sale("Laptop", 1, 10, 85000), Err(InventoryError::InsufficientStock));
    assert_eq!(quantity_of(&inv, "Laptop", 1), 3);
    assert_eq!(inv.sales().len(), 1);
}

#[test]
fn error_messages_describe_each_failure() {
    assert_eq!(InventoryError::NotFoundName.message(), "no product group with that name");
    assert_eq!(InventoryError::NotFoundId.message(), "no product with that id in the group");
    assert_eq!(InventoryError::InsufficientStock.message(), "not enough stock for the sale");
}

#[test]
fn groups_keep_creation_order() {
    let mut inv = Inventory::new();
    assert_eq!(inv.add_product(product(1, "Laptop", "Gaming Laptop", 80000, 5)), Ok(()));
    assert_eq!(inv.add_product(product(2, "Mouse", "Wireless", 1500, 10)), Ok(()));
    assert_eq!(inv.add_product(product(3, "Laptop", "Business Laptop", 60000, 3)), Ok(()));
    let groups = inv.groups();
    assert_eq!(groups.len(), 2);
    assert_eq!(groups[0].name, "Laptop");
    assert_eq!(groups[0].products.len(), 2);
    assert_eq!(groups[1].name, "Mouse");
    let listed = inv.list_products();
    assert_eq!(listed.len(), 3);
    assert_eq!(listed[0].id, 1);
    assert_eq!(listed[1].id, 3);
    assert_eq!(listed[2].id, 2);
}
