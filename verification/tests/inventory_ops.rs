use rareships::inventory;
use rareships::{Armor, Inventory, Item, Resource, ResourceType, Weapon};

fn quantities(inv: &Inventory) -> Vec<(ResourceType, u32)> {
    let mut out = Vec::new();
    for item in &inv.items {
        if let Item::Resource(r) = item {
            out.push((r.resource_type, r.quantity));
        }
    }
    out
}

#[test]
fn resource_merges_into_existing_stack() {
    let mut inv = Inventory::new(4);
    assert!(inv.add_item(Item::Resource(Resource::new(ResourceType::Iron, 30))).is_ok());
    assert!(inv.add_item(Item::Resource(Resource::new(ResourceType::Iron, 20))).is_ok());
    assert_eq!(quantities(&inv), vec![(ResourceType::Iron, 50)]);
    assert_eq!(inv.items.len(), 1);
}

#[test]
fn overflowing_merge_clamps_and_spills() {
    let mut inv = Inventory::new(4);
    assert!(inv.add_item(Item::Resource(Resource::new(ResourceType::Iron, 50))).is_ok());
    assert!(inv.add_item(Item::Resource(Resource::new(ResourceType::Iron, 50))).is_ok());
    assert_eq!(
        quantities(&inv),
        vec![(ResourceType::Iron, 64), (ResourceType::Iron, 36)]
    );
}

#[test]
fn stacking_cap_holds_over_many_adds() {
    let mut inv = Inventory::new(8);
    for q in [30u32, 40, 50, 64, 10, 64] {
        assert!(inv.add_item(Item::Resource(Resource::new(ResourceType::Copper, q))).is_ok());
    }
    assert!(!inv.items.is_empty());
    for (_, q) in quantities(&inv) {
        assert!(q <= 64);
    }
}

#[test]
fn full_inventory_rejects_even_a_mergeable_item() {
    let mut inv = Inventory::new(1);
    assert!(inv.add_item(Item::Resource(Resource::new(ResourceType::Iron, 10))).is_ok());
    let res = inv.add_item(Item::Resource(Resource::new(ResourceType::Iron, 1)));
    assert!(matches!(res, Err(inventory::Error::InventoryFull)));
    assert_eq!(quantities(&inv), vec![(ResourceType::Iron, 10)]);
}

#[test]
fn distinct_types_take_distinct_slots() {
    let mut inv = Inventory::new(4);
    assert!(inv.add_item(Item::Resource(Resource::new(ResourceType::Iron, 5))).is_ok());
    assert!(inv.add_item(Item::Resource(Resource::new(ResourceType::Gold, 7))).is_ok());
    assert_eq!(
        quantities(&inv),
        vec![(ResourceType::Iron, 5), (ResourceType::Gold, 7)]
    );
}

#[test]
fn merge_into_full_stack_of_zero_units_changes_nothing() {
    let mut inv = Inventory::new(4);
    assert!(inv.add_item(Item::Resource(Resource::new(ResourceType::Silver, 64))).is_ok());
    assert!(inv.add_item(Item::Resource(Resource::new(ResourceType::Silver, 0))).is_ok());
    assert_eq!(quantities(&inv), vec![(ResourceType::Silver, 64)]);
}

#[test]
fn non_resource_items_never_merge() {
    let mut inv = Inventory::new(2);
    let sword = Item::Weapon(Weapon { id: 1, damage: 5, range: 2, energy_cost: 3 });
    let plate = Item::Armor(Armor { id: 2, defense: 9 });
    assert!(inv.add_item(sword).is_ok());
    assert!(inv.add_item(plate).is_ok());
    assert_eq!(inv.items.len(), 2);
    let third = Item::Armor(Armor { id: 3, defense: 1 });
    assert!(matches!(inv.add_item(third), Err(inventory::Error::InventoryFull)));
}

#[test]
fn remainder_cascades_across_stacks_in_order() {
    let mut inv = Inventory::new(8);
    assert!(inv.add_item(Item::Resource(Resource::new(ResourceType::Iron, 60))).is_ok());
    assert!(inv.add_item(Item::Resource(Resource::new(ResourceType::Gold, 5))).is_ok());
    assert!(inv.add_item(Item::Resource(Resource::new(ResourceType::Iron, 60))).is_ok());
    assert_eq!(
        quantities(&inv),
        vec![
            (ResourceType::Iron, 64),
            (ResourceType::Gold, 5),
            (ResourceType::Iron, 56),
        ]
    );
    assert!(inv.add_item(Item::Resource(Resource::new(ResourceType::Iron, 10))).is_ok());
    assert_eq!(
        quantities(&inv),
        vec![
            (ResourceType::Iron, 64),
            (ResourceType::Gold, 5),
            (ResourceType::Iron, 64),
            (ResourceType::Iron, 2),
        ]
    );
}

#[test]
fn item_id_reads_the_carried_id() {
    assert_eq!(Item::Weapon(Weapon { id: 11, damage: 0, range: 0, energy_cost: 0 }).id(), 11);
    assert_eq!(Item::Armor(Armor { id: 12, defense: 0 }).id(), 12);
    assert_eq!(Item::Resource(Resource::new(ResourceType::Gold, 3)).id(), 0);
}
