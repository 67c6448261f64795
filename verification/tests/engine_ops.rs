use rareships::{
    AccountId, Direction, Error, Inventory, Item, Order, Planet, PlanetLevel, Rareships,
    ResourceType,
};

fn admin() -> AccountId {
    AccountId(1)
}

fn pilot() -> AccountId {
    AccountId(2)
}

fn stranger() -> AccountId {
    AccountId(3)
}

#[test]
fn spawn_and_queries() {
    let mut rs = Rareships::new(admin());
    assert_eq!(rs.spawn(pilot(), 7, 0), Ok(()));
    assert_eq!(rs.get_ships(), vec![7]);
    let ship = rs.get_ship(7).expect("spawned ship");
    assert_eq!(ship.id, 7);
    assert_eq!(ship.owner, pilot());
    assert_eq!(ship.position, (0, 0));
    assert_eq!(ship.energy, 1000);
    assert_eq!(ship.max_energy, 1000);
    assert_eq!(ship.max_speed, 10000);
    assert_eq!(ship.recharge_rate, 10);
    assert_eq!(ship.last_recharge, 0);
    assert!(ship.orders.is_empty());
    assert!(ship.inventory.items.is_empty());
    assert!(ship.cargo.items.is_empty());
    assert!(rs.get_ship(8).is_none());
}

#[test]
fn spawn_rejects_duplicate_id() {
    let mut rs = Rareships::new(admin());
    assert_eq!(rs.spawn(pilot(), 7, 0), Ok(()));
    assert_eq!(rs.spawn(stranger(), 7, 3), Err(Error::ShipAlreadyExists));
    assert_eq!(rs.get_ships(), vec![7]);
}

#[test]
fn settle_unknown_ship_fails() {
    let mut rs = Rareships::new(admin());
    assert_eq!(rs.settle(42, 5), Err(Error::ShipNotFound));
    assert_eq!(rs.settle_recharge_only(42, 5), Err(Error::ShipNotFound));
}

#[test]
fn mint_planet_is_admin_gated_and_unique() {
    let mut rs = Rareships::new(admin());
    assert_eq!(rs.mint_planet(stranger(), 1, (3, 4)), Err(Error::NotAuthorized));
    assert_eq!(rs.mint_planet(admin(), 1, (3, 4)), Ok(()));
    assert_eq!(rs.mint_planet(admin(), 1, (9, 9)), Err(Error::PlanetAlreadyExists));
    let planet = rs.get_planet(1).expect("minted planet");
    assert_eq!(planet.get_id(), 1);
    assert_eq!(planet.get_level(), PlanetLevel::Basic);
    assert_eq!(planet.get_position(), (3, 4));
    assert_eq!(planet.get_owner(), None);
    assert_eq!(planet.get_resources(), vec![ResourceType::Iron]);
    assert_eq!(planet.get_mining_rates(), vec![1]);
    assert_eq!(planet.get_mining_rate(&ResourceType::Iron), 1);
    assert_eq!(planet.get_mining_rate(&ResourceType::Gold), 0);
    assert!(rs.get_planet(2).is_none());
}

#[test]
fn order_validation_rejects_bad_parameters() {
    let mut rs = Rareships::new(admin());
    assert_eq!(rs.mint_planet(admin(), 1, (0, 0)), Ok(()));
    assert_eq!(rs.spawn(pilot(), 7, 0), Ok(()));
    let mv = |speed, distance| Order::Move((Direction::East, speed, distance));
    assert_eq!(rs.order(pilot(), 9, mv(100, 1), 0), Err(Error::ShipNotFound));
    assert_eq!(rs.order(stranger(), 7, mv(100, 1), 0), Err(Error::NotShipOwner));
    assert_eq!(rs.order(pilot(), 7, mv(-1, 1), 0), Err(Error::InvalidOrder));
    assert_eq!(rs.order(pilot(), 7, mv(10001, 1), 0), Err(Error::InvalidOrder));
    assert_eq!(rs.order(pilot(), 7, mv(100, 0), 0), Err(Error::InvalidOrder));
    assert_eq!(
        rs.order(pilot(), 7, Order::Mine((1, ResourceType::Iron, 0)), 0),
        Err(Error::InvalidOrder)
    );
    assert_eq!(
        rs.order(pilot(), 7, Order::Mine((2, ResourceType::Iron, 5)), 0),
        Err(Error::PlanetNotFound)
    );
    assert_eq!(
        rs.order(pilot(), 7, Order::Mine((1, ResourceType::Copper, 5)), 0),
        Err(Error::InvalidOrder)
    );
    assert!(rs.get_ship(7).unwrap().orders.is_empty());
}

#[test]
fn orders_are_stamped_only_at_the_head() {
    let mut rs = Rareships::new(admin());
    assert_eq!(rs.spawn(pilot(), 7, 0), Ok(()));
    let m1 = Order::Move((Direction::East, 1000, 5));
    let m2 = Order::Move((Direction::West, 1000, 5));
    assert_eq!(rs.order(pilot(), 7, m1, 4), Ok(()));
    assert_eq!(rs.order(pilot(), 7, m2, 6), Ok(()));
    let ship = rs.get_ship(7).unwrap();
    assert_eq!(ship.orders.len(), 2);
    assert_eq!(ship.orders[0], (m1, Some(4)));
    assert_eq!(ship.orders[1], (m2, None));
}

#[test]
fn drop_order_checks_owner_and_bounds() {
    let mut rs = Rareships::new(admin());
    assert_eq!(rs.spawn(pilot(), 7, 0), Ok(()));
    let m1 = Order::Move((Direction::East, 1000, 5));
    assert_eq!(rs.order(pilot(), 7, m1, 0), Ok(()));
    assert_eq!(rs.drop_order(stranger(), 7, 0), Err(Error::NotShipOwner));
    assert_eq!(rs.drop_order(pilot(), 7, 1), Err(Error::InvalidOrder));
    assert_eq!(rs.drop_order(pilot(), 9, 0), Err(Error::ShipNotFound));
    assert_eq!(rs.drop_order(pilot(), 7, 0), Ok(()));
    assert!(rs.get_ship(7).unwrap().orders.is_empty());
}

#[test]
fn dropping_the_head_leaves_the_next_order_unstamped() {
    let mut rs = Rareships::new(admin());
    assert_eq!(rs.spawn(pilot(), 7, 0), Ok(()));
    let m1 = Order::Move((Direction::East, 1000, 5));
    let m2 = Order::Move((Direction::West, 1000, 5));
    assert_eq!(rs.order(pilot(), 7, m1, 0), Ok(()));
    assert_eq!(rs.order(pilot(), 7, m2, 0), Ok(()));
    assert_eq!(rs.drop_order(pilot(), 7, 0), Ok(()));
    let ship = rs.get_ship(7).unwrap();
    assert_eq!(ship.orders, vec![(m2, None)]);
    // An unstamped head cannot be advanced; the failed settlement changes
    // nothing, the recharge included.
    assert_eq!(rs.settle(7, 5), Err(Error::InvalidOrder));
    let after = rs.get_ship(7).unwrap();
    assert_eq!(after.orders, vec![(m2, None)]);
    assert_eq!(after.energy, 1000);
    assert_eq!(after.last_recharge, 0);
}

#[test]
fn order_split_determinism() {
    let mut rs = Rareships::new(admin());
    assert_eq!(rs.spawn(pilot(), 7, 0), Ok(()));
    let mv = Order::Move((Direction::East, 1000, 5));
    assert_eq!(rs.order(pilot(), 7, mv, 0), Ok(()));
    assert_eq!(rs.settle(7, 3), Ok(()));
    let ship = rs.get_ship(7).unwrap();
    assert_eq!(ship.position, (3, 0));
    assert_eq!(ship.energy, 970);
    assert_eq!(
        ship.orders,
        vec![(Order::Move((Direction::East, 1000, 2)), Some(3))]
    );
}

#[test]
fn settlement_is_idempotent_at_the_same_tick() {
    let mut rs = Rareships::new(admin());
    assert_eq!(rs.spawn(pilot(), 7, 0), Ok(()));
    assert_eq!(rs.order(pilot(), 7, Order::Move((Direction::East, 1000, 5)), 0), Ok(()));
    assert_eq!(rs.order(pilot(), 7, Order::Move((Direction::West, 1000, 5)), 0), Ok(()));
    assert_eq!(rs.settle(7, 3), Ok(()));
    // The first order finishes here; its successor is stamped with the tick,
    // and the recharge stamp moves to the tick as well.
    assert_eq!(rs.settle(7, 10), Ok(()));
    let first = rs.get_ship(7).unwrap();
    assert_eq!(rs.settle(7, 10), Ok(()));
    let second = rs.get_ship(7).unwrap();
    assert_eq!(first.position, second.position);
    assert_eq!(first.energy, second.energy);
    assert_eq!(first.last_recharge, second.last_recharge);
    assert_eq!(first.orders, second.orders);
    assert_eq!(first.cargo.items, second.cargo.items);
}

#[test]
fn movement_is_clamped_to_affordable_tiles() {
    let mut rs = Rareships::new(admin());
    assert_eq!(rs.spawn(pilot(), 7, 0), Ok(()));
    // Full speed costs 100 energy per tile; 1000 energy pays for 10 of the
    // 20 requested tiles.
    assert_eq!(rs.order(pilot(), 7, Order::Move((Direction::East, 10000, 20)), 0), Ok(()));
    assert_eq!(rs.settle(7, 20), Ok(()));
    let ship = rs.get_ship(7).unwrap();
    assert_eq!(ship.energy, 0);
    assert_eq!(ship.position, (10, 0));
    assert_eq!(
        ship.orders,
        vec![(Order::Move((Direction::East, 10000, 10)), Some(20))]
    );
}

#[test]
fn movement_wraps_around_the_grid() {
    let mut rs = Rareships::new(admin());
    assert_eq!(rs.spawn(pilot(), 7, 0), Ok(()));
    assert_eq!(rs.order(pilot(), 7, Order::Move((Direction::West, 1000, 1)), 0), Ok(()));
    assert_eq!(rs.settle(7, 1), Ok(()));
    let ship = rs.get_ship(7).unwrap();
    assert_eq!(ship.position, (9999, 0));
    assert_eq!(ship.energy, 990);
    assert!(ship.orders.is_empty());
}

#[test]
fn mining_atomicity() {
    let mut rs = Rareships::new(admin());
    assert_eq!(rs.mint_planet(admin(), 1, (0, 0)), Ok(()));
    assert_eq!(rs.spawn(pilot(), 7, 5), Ok(()));
    let mine = Order::Mine((1, ResourceType::Iron, 10));
    assert_eq!(rs.order(pilot(), 7, mine, 5), Ok(()));
    // One tick short of the duration: a full no-op.
    assert_eq!(rs.settle(7, 14), Ok(()));
    let early = rs.get_ship(7).unwrap();
    assert_eq!(early.energy, 1000);
    assert!(early.cargo.items.is_empty());
    assert_eq!(early.orders, vec![(mine, Some(5))]);
    // The full duration elapsed: the order completes in one step.
    assert_eq!(rs.settle(7, 15), Ok(()));
    let done = rs.get_ship(7).unwrap();
    assert_eq!(done.energy, 0);
    assert!(done.orders.is_empty());
    assert_eq!(done.cargo.items.len(), 1);
    match done.cargo.items[0] {
        Item::Resource(r) => {
            assert_eq!(r.resource_type, ResourceType::Iron);
            assert_eq!(r.quantity, 10);
        },
        _ => panic!("expected a resource stack"),
    }
}

#[test]
fn mining_defers_until_energy_suffices_and_recharge_clamps() {
    let mut rs = Rareships::new(admin());
    assert_eq!(rs.mint_planet(admin(), 2, (10, 0)), Ok(()));
    assert_eq!(rs.spawn(pilot(), 7, 0), Ok(()));
    assert_eq!(rs.order(pilot(), 7, Order::Move((Direction::East, 10000, 10)), 0), Ok(()));
    assert_eq!(rs.settle(7, 1), Ok(()));
    assert_eq!(rs.get_ship(7).unwrap().energy, 0);
    assert_eq!(rs.get_ship(7).unwrap().position, (10, 0));
    assert_eq!(rs.order(pilot(), 7, Order::Mine((2, ResourceType::Iron, 10)), 1), Ok(()));
    // Enough time has passed but energy is short: mining defers, while the
    // recharge is applied and persisted.
    assert_eq!(rs.settle(7, 11), Ok(()));
    let waiting = rs.get_ship(7).unwrap();
    assert_eq!(waiting.energy, 110);
    assert_eq!(waiting.last_recharge, 11);
    assert!(waiting.cargo.items.is_empty());
    assert_eq!(waiting.orders.len(), 1);
    // Much later the recharge clamps exactly at capacity and mining goes
    // through.
    assert_eq!(rs.settle(7, 100), Ok(()));
    let done = rs.get_ship(7).unwrap();
    assert_eq!(done.energy, 0);
    assert_eq!(done.last_recharge, 100);
    assert!(done.orders.is_empty());
    assert_eq!(done.cargo.items.len(), 1);
}

#[test]
fn recharge_only_settlement() {
    let mut rs = Rareships::new(admin());
    assert_eq!(rs.spawn(pilot(), 7, 0), Ok(()));
    assert_eq!(rs.order(pilot(), 7, Order::Move((Direction::East, 10000, 10)), 0), Ok(()));
    assert_eq!(rs.settle(7, 1), Ok(()));
    assert_eq!(rs.get_ship(7).unwrap().energy, 0);
    assert_eq!(rs.settle_recharge_only(7, 5), Ok(()));
    let ship = rs.get_ship(7).unwrap();
    assert_eq!(ship.energy, 50);
    assert_eq!(ship.last_recharge, 5);
    // At the same tick nothing more accrues.
    assert_eq!(rs.settle_recharge_only(7, 5), Ok(()));
    assert_eq!(rs.get_ship(7).unwrap().energy, 50);
    // Far later the recharge clamps at capacity.
    assert_eq!(rs.settle_recharge_only(7, 500), Ok(()));
    assert_eq!(rs.get_ship(7).unwrap().energy, 1000);
}

#[test]
fn mining_away_from_the_site_fails_and_changes_nothing() {
    let mut rs = Rareships::new(admin());
    assert_eq!(rs.mint_planet(admin(), 1, (5, 5)), Ok(()));
    assert_eq!(rs.spawn(pilot(), 7, 0), Ok(()));
    assert_eq!(rs.order(pilot(), 7, Order::Mine((1, ResourceType::Iron, 1)), 0), Ok(()));
    assert_eq!(rs.settle(7, 1), Err(Error::ResourceNotFound));
    let ship = rs.get_ship(7).unwrap();
    assert_eq!(ship.energy, 1000);
    assert_eq!(ship.orders.len(), 1);
    assert!(ship.cargo.items.is_empty());
}

#[test]
fn mining_an_owned_site_of_another_is_refused() {
    let mut rs = Rareships::new(admin());
    assert_eq!(rs.mint_planet(admin(), 1, (0, 0)), Ok(()));
    assert_eq!(rs.spawn(pilot(), 7, 0), Ok(()));
    assert_eq!(rs.order(pilot(), 7, Order::Mine((1, ResourceType::Iron, 1)), 0), Ok(()));
    let mut planet = rs.get_planet(1).unwrap();
    planet.set_owner(stranger());
    rs.planets.insert(1, planet);
    assert_eq!(rs.settle(7, 1), Err(Error::NotPlanetOwner));
}

#[test]
fn missing_resource_takes_precedence_over_ownership() {
    let mut rs = Rareships::new(admin());
    rs.planets.insert(1, Planet::new(1, PlanetLevel::Advanced, (0, 0)));
    assert_eq!(rs.spawn(pilot(), 7, 0), Ok(()));
    assert_eq!(rs.order(pilot(), 7, Order::Mine((1, ResourceType::Copper, 1)), 0), Ok(()));
    // The site becomes someone else's and loses copper from its catalogue
    // before the order settles: the missing resource is reported, not the
    // foreign ownership.
    let mut swapped = Planet::new(1, PlanetLevel::Basic, (0, 0));
    swapped.set_owner(stranger());
    rs.planets.insert(1, swapped);
    assert_eq!(rs.settle(7, 1), Err(Error::ResourceNotFound));
}

#[test]
fn mining_a_vanished_site_is_not_found() {
    let mut rs = Rareships::new(admin());
    assert_eq!(rs.mint_planet(admin(), 1, (0, 0)), Ok(()));
    assert_eq!(rs.spawn(pilot(), 7, 0), Ok(()));
    assert_eq!(rs.order(pilot(), 7, Order::Mine((1, ResourceType::Iron, 1)), 0), Ok(()));
    rs.planets.remove(&1);
    assert_eq!(rs.settle(7, 1), Err(Error::PlanetNotFound));
}

#[test]
fn mining_into_a_full_cargo_reports_missing_space() {
    let mut rs = Rareships::new(admin());
    assert_eq!(rs.mint_planet(admin(), 1, (0, 0)), Ok(()));
    assert_eq!(rs.spawn(pilot(), 7, 0), Ok(()));
    assert_eq!(rs.order(pilot(), 7, Order::Mine((1, ResourceType::Iron, 1)), 0), Ok(()));
    let mut ship = rs.get_ship(7).unwrap();
    ship.cargo = Inventory::new(0);
    rs.ships.insert(7, ship);
    assert_eq!(rs.settle(7, 1), Err(Error::NotEnoughInventorySpace));
    // The failed settlement left the stored ship untouched.
    assert_eq!(rs.get_ship(7).unwrap().energy, 1000);
}

#[test]
fn planet_levels_fix_catalogue_rates_and_storage() {
    let advanced = Planet::new(5, PlanetLevel::Advanced, (1, 2));
    assert_eq!(
        advanced.get_resources(),
        vec![ResourceType::Iron, ResourceType::Copper]
    );
    assert_eq!(advanced.get_mining_rates(), vec![1, 1]);
    assert_eq!(advanced.get_mining_rate(&ResourceType::Copper), 1);
    assert_eq!(advanced.get_mining_rate(&ResourceType::Silver), 0);
    let fortress = Planet::new(6, PlanetLevel::Fortress, (0, 0));
    assert_eq!(
        fortress.get_resources(),
        vec![ResourceType::Iron, ResourceType::Copper, ResourceType::Silver]
    );
    assert_eq!(fortress.get_mining_rates(), vec![1, 1, 1]);
}

#[test]
fn mining_a_type_the_site_no_longer_offers_is_not_found() {
    let mut rs = Rareships::new(admin());
    rs.planets.insert(1, Planet::new(1, PlanetLevel::Advanced, (0, 0)));
    assert_eq!(rs.spawn(pilot(), 7, 0), Ok(()));
    assert_eq!(rs.order(pilot(), 7, Order::Mine((1, ResourceType::Copper, 1)), 0), Ok(()));
    // The site is swapped for one whose catalogue lacks copper before the
    // order settles.
    rs.planets.insert(1, Planet::new(1, PlanetLevel::Basic, (0, 0)));
    assert_eq!(rs.settle(7, 1), Err(Error::ResourceNotFound));
}

#[test]
fn economy_constants() {
    assert_eq!(rareships::move_energy_per_tile(1000, 10000), 10);
    assert_eq!(rareships::move_energy_per_tile(9999, 10000), 99);
    assert_eq!(rareships::move_energy_per_tile(10000, 10000), 100);
    assert_eq!(rareships::move_energy_per_tile(50, 10000), 0);
    assert_eq!(rareships::move_energy_per_tile(0, 10000), 0);
    assert_eq!(rareships::mine_energy_per_block(), 100);
}
