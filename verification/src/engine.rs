//! The settlement engine: ships and resource sites in keyed maps, queued
//! orders advanced lazily against a caller-supplied tick, an energy
//! economy, and the validation performed when orders are placed.
//!
//! The host environment supplies the current tick (monotonically
//! non-decreasing) and the caller's identity as plain arguments; nothing
//! here reads a clock.

use std::collections::HashMap;

use vstd::prelude::*;

use crate::grid::{moved_position, step_and_wrap, Direction, MAX_X, MAX_Y};
use crate::inventory;
use crate::inventory::{
    add_item_spec, type_total, Inventory, InventoryV, Item, Resource, ResourceType,
};
use crate::planets::{mining_rate_of, new_planet, Planet, PlanetId, PlanetLevel, PlanetV};
use crate::ship::{order_wf, AccountId, Block, Distance, Duration, Order, Ship, ShipId, ShipV, Speed};

verus! {

broadcast use vstd::std_specs::hash::group_hash_axioms;

/// Everything a call into the engine can fail with.
#[derive(Debug, PartialEq, Eq)]
pub enum Error {
    ShipNotFound,
    ShipAlreadyExists,
    NotEnoughEnergy,
    NotEnoughHealth,
    NotEnoughInventorySpace,
    NotEnoughCargoSpace,
    NotEnoughResources,
    NotShipOwner,
    NothingToSettle,
    InvalidOrder,
    PlanetAlreadyExists,
    NotAuthorized,
    PlanetNotFound,
    ResourceNotFound,
    NotPlanetOwner,
}

impl From<inventory::Error> for Error {
    /// A full inventory surfaces as a lack of inventory space.
    fn from(error: inventory::Error) -> (res: Self) {
        match error {
            inventory::Error::InventoryFull => Error::NotEnoughInventorySpace,
        }
    }
}

impl vstd::std_specs::convert::FromSpecImpl<inventory::Error> for Error {
    open spec fn obeys_from_spec() -> bool {
        true
    }

    open spec fn from_spec(error: inventory::Error) -> Self {
        Error::NotEnoughInventorySpace
    }
}

/// Energy burned per tile moved at `speed`, scaled against the ship's top
/// speed: `100 * speed / max_speed`, truncating.
pub open spec fn move_cost(speed: int, max_speed: int) -> int {
    100 * speed / max_speed
}

/// Energy burned per tile moved; executable form of [`move_cost`].
pub fn move_energy_per_tile(speed: i32, max_speed: i32) -> (res: i32)
    requires
        max_speed >= 1,
        0 <= speed <= max_speed,
    ensures
        res == move_cost(speed as int, max_speed as int),
        0 <= res <= 100,
{
    let res64: i64 = 100i64 * (speed as i64) / (max_speed as i64);
    proof {
        assert(100 * speed <= 100 * max_speed);
        assert((100 * speed) / (max_speed as int) <= (100 * max_speed) / (max_speed as int)) by {
            vstd::arithmetic::div_mod::lemma_div_is_ordered(
                100 * speed,
                100 * max_speed,
                max_speed as int,
            );
        };
        assert((100 * max_speed) / (max_speed as int) == 100) by {
            vstd::arithmetic::div_mod::lemma_div_multiples_vanish(100, max_speed as int);
        };
        assert(res64 >= 0) by {
            vstd::arithmetic::div_mod::lemma_div_pos_is_pos(100 * speed, max_speed as int);
        };
    }
    res64 as i32
}

/// Energy burned per block of mining: a fixed constant in this engine; the
/// site's level does not affect it.
pub fn mine_energy_per_block() -> (res: u32)
    ensures
        res == 100,
{
    100
}

/// The energy after a recharge at `now`: elapsed time times the recharge
/// rate is added and the result clamped at capacity; nothing happens when
/// no time has passed or the ship is already full.
pub open spec fn recharged(s: ShipV, now: Block) -> ShipV {
    let elapsed = now - s.last_recharge;
    if elapsed > 0 && s.energy < s.max_energy {
        let filled = s.energy + elapsed * s.recharge_rate;
        let e = if filled > s.max_energy {
            s.max_energy as int
        } else {
            filled
        };
        ShipV { energy: e as u32, last_recharge: now, ..s }
    } else {
        s
    }
}

/// An order queue after its head completed: the head is removed and the
/// next order, if any, is stamped as started at `now`.
pub open spec fn popped_and_restamped(orders: Seq<(Order, Option<Block>)>, now: Block) -> Seq<
    (Order, Option<Block>),
> {
    let rest = orders.drop_first();
    if rest.len() > 0 {
        rest.update(0, (rest[0].0, Some(now)))
    } else {
        rest
    }
}

/// Whole tiles of progress at `speed` milli-tiles per block over `elapsed`
/// blocks, capped by the remaining distance.
pub open spec fn raw_tiles(elapsed: int, speed: int, distance: int) -> int {
    let t = elapsed * speed / 1000;
    if t > distance {
        distance
    } else {
        t
    }
}

/// Tiles clamped to what the stored energy can pay for: a ship that cannot
/// afford the full step moves as far as its energy allows, possibly zero.
pub open spec fn affordable_tiles(t: int, cost: int, energy: int) -> int {
    if cost * t > energy {
        energy / cost
    } else {
        t
    }
}

/// What settling a head `Move` order at `now` does to the ship: no effect
/// until a whole tile of progress has accrued; otherwise the affordable
/// tiles are paid for and walked, and the order is either consumed (head
/// popped, successor stamped) or rewritten with the remaining distance and
/// a fresh start tick.
pub open spec fn moved_ship(
    s: ShipV,
    dir: Direction,
    speed: Speed,
    distance: Distance,
    start: Block,
    now: Block,
) -> ShipV {
    let elapsed = now - start;
    if elapsed == 0 || elapsed * speed < 1000 {
        s
    } else {
        let t = raw_tiles(elapsed, speed as int, distance as int);
        if t <= 0 {
            s
        } else {
            let cost = move_cost(speed as int, s.max_speed as int);
            let tiles = affordable_tiles(t, cost, s.energy as int);
            let new_energy = s.energy - cost * tiles;
            let new_position = moved_position(s.position, dir, tiles);
            let rest = distance - tiles;
            if rest == 0 {
                ShipV {
                    energy: new_energy as u32,
                    position: new_position,
                    orders: popped_and_restamped(s.orders, now),
                    ..s
                }
            } else {
                ShipV {
                    energy: new_energy as u32,
                    position: new_position,
                    orders: s.orders.update(
                        0,
                        (Order::Move((dir, speed, rest as i32)), Some(now)),
                    ),
                    ..s
                }
            }
        }
    }
}

/// What settling a head `Mine` order at `now` does to the ship, and the
/// outcome: nothing before the duration has fully elapsed or while energy
/// is short (mining defers, it does not fail); then the site is checked
/// for existence, then for co-location and catalogue (either failing is a
/// missing resource, and both precede the ownership check), then for
/// ownership; on success the energy is paid, the mined amount is stacked
/// into the cargo (a full cargo fails the settlement after the energy was
/// deducted) and the order is consumed.
pub open spec fn mined_ship(
    s: ShipV,
    planets: Map<PlanetId, PlanetV>,
    planet_id: PlanetId,
    ty: ResourceType,
    duration: Duration,
    start: Block,
    now: Block,
) -> (ShipV, Result<(), Error>) {
    let elapsed = now - start;
    if elapsed < duration {
        (s, Ok(()))
    } else {
        let cost = 100 * duration;
        if cost > s.energy {
            (s, Ok(()))
        } else if !planets.contains_key(planet_id) {
            (s, Err(Error::PlanetNotFound))
        } else {
            let p = planets[planet_id];
            if p.position != s.position || !p.resources.contains(ty) {
                (s, Err(Error::ResourceNotFound))
            } else if match p.owner {
                Some(o) => o != s.owner,
                None => false,
            } {
                (s, Err(Error::NotPlanetOwner))
            } else {
                let s1 = ShipV { energy: (s.energy - cost) as u32, ..s };
                let amount = (mining_rate_of(p, ty) * duration) as u32;
                let item = Item::Resource(Resource { id: 0, resource_type: ty, quantity: amount });
                match add_item_spec(s1.cargo, item) {
                    Ok(c2) => (
                        ShipV {
                            cargo: c2,
                            orders: popped_and_restamped(s1.orders, now),
                            ..s1
                        },
                        Ok(()),
                    ),
                    Err(_) => (s1, Err(Error::NotEnoughInventorySpace)),
                }
            }
        }
    }
}

/// Settling the head order: dispatch on its tag; a head without a start
/// tick cannot be advanced and is an invalid order.
pub open spec fn top_order_settled(s: ShipV, planets: Map<PlanetId, PlanetV>, now: Block) -> (
    ShipV,
    Result<(), Error>,
) {
    if s.orders.len() == 0 {
        (s, Ok(()))
    } else {
        match s.orders[0] {
            (Order::Move((dir, speed, distance)), Some(start)) => (
                moved_ship(s, dir, speed, distance, start, now),
                Ok(()),
            ),
            (Order::Mine((planet_id, ty, duration)), Some(start)) => mined_ship(
                s,
                planets,
                planet_id,
                ty,
                duration,
                start,
                now,
            ),
            (_, None) => (s, Err(Error::InvalidOrder)),
        }
    }
}

/// Settling a ship at `now`: a no-op on an empty order queue; otherwise
/// recharge first, then advance the head order.
pub open spec fn ship_settled(s: ShipV, planets: Map<PlanetId, PlanetV>, now: Block) -> (
    ShipV,
    Result<(), Error>,
) {
    if s.orders.len() == 0 {
        (s, Ok(()))
    } else {
        top_order_settled(recharged(s, now), planets, now)
    }
}

/// The model of the ship a spawn call creates: the fixed spawn attributes,
/// full energy and health, empty inventories and order queue, at the
/// origin, with the recharge stamp set to `now`.
pub open spec fn spawned_ship(ship_id: ShipId, owner: AccountId, now: Block) -> ShipV {
    ShipV {
        id: ship_id,
        name: Seq::<char>::empty(),
        owner,
        max_speed: 10000,
        max_inventory_size: 4,
        max_cargo_size: 4,
        max_energy: 1000,
        max_health: 100,
        recharge_rate: 10,
        position: (0, 0),
        energy: 1000,
        health: 100,
        inventory: InventoryV { items: Seq::<Item>::empty(), max_size: 4 },
        cargo: InventoryV { items: Seq::<Item>::empty(), max_size: 32 },
        orders: Seq::<(Order, Option<Block>)>::empty(),
        last_recharge: now,
    }
}

/// What order validation checks before enqueueing, in the order the checks
/// are made: a move must have a speed within the ship's top speed and a
/// positive distance; a mine must have a positive duration, an existing
/// site, and a type the site's catalogue includes.
pub open spec fn order_check(o: Order, max_speed: i32, planets: Map<PlanetId, PlanetV>) -> Result<
    (),
    Error,
> {
    match o {
        Order::Move((dir, speed, distance)) => if speed < 0 || speed > max_speed || distance <= 0 {
            Err(Error::InvalidOrder)
        } else {
            Ok(())
        },
        Order::Mine((planet_id, ty, duration)) => if duration <= 0 {
            Err(Error::InvalidOrder)
        } else if !planets.contains_key(planet_id) {
            Err(Error::PlanetNotFound)
        } else if !planets[planet_id].resources.contains(ty) {
            Err(Error::InvalidOrder)
        } else {
            Ok(())
        },
    }
}

/// The view of a map of ships.
pub open spec fn ships_view(m: Map<ShipId, Ship>) -> Map<ShipId, ShipV> {
    m.map_values(|s: Ship| s@)
}

/// The view of a map of sites.
pub open spec fn planets_view(m: Map<PlanetId, Planet>) -> Map<PlanetId, PlanetV> {
    m.map_values(|p: Planet| p@)
}

/// The engine's state: ships and sites in maps keyed by their ids, the
/// append-only list of spawned ship ids, and the administrator allowed to
/// mint sites.
pub struct Rareships {
    pub ships: HashMap<ShipId, Ship>,
    pub ship_ids: Vec<ShipId>,
    pub planets: HashMap<PlanetId, Planet>,
    pub admin: AccountId,
}

/// The mathematical model of the engine's state.
#[verifier::ext_equal]
pub ghost struct RareshipsV {
    pub ships: Map<ShipId, ShipV>,
    pub ship_ids: Seq<ShipId>,
    pub planets: Map<PlanetId, PlanetV>,
    pub admin: AccountId,
}

impl View for Rareships {
    type V = RareshipsV;

    open spec fn view(&self) -> RareshipsV {
        RareshipsV {
            ships: ships_view(self.ships@),
            ship_ids: self.ship_ids@,
            planets: planets_view(self.planets@),
            admin: self.admin,
        }
    }
}

impl RareshipsV {
    /// The engine invariant: every ship and site is well formed and stored
    /// under its own id, and the id list names exactly the spawned ships,
    /// each once.
    pub open spec fn wf(self) -> bool {
        &&& forall|id: ShipId|
            self.ships.contains_key(id) ==> (#[trigger] self.ships[id]).wf() && self.ships[id].id
                == id
        &&& forall|id: PlanetId| self.planets.contains_key(id) ==> (#[trigger] self.planets[id]).wf()
        &&& self.ship_ids.no_duplicates()
        &&& forall|id: ShipId| #![auto] self.ships.contains_key(id) <==> self.ship_ids.contains(id)
    }

    /// Every tick stored in any ship lies at or before `now`: the state
    /// was produced by calls at ticks at or before `now`, and the host
    /// tick never decreases.
    pub open spec fn settled_by(self, now: Block) -> bool {
        forall|id: ShipId|
            self.ships.contains_key(id) ==> (#[trigger] self.ships[id]).settled_by(now)
    }
}

/// Machine bound under which settling cannot overflow a cargo stack: if
/// the head order mines `ty`, the mined units (at most the duration, since
/// rates are at most 1) plus the units of `ty` already in the cargo must
/// fit in a stack's quantity field.
pub open spec fn head_mine_fits(s: ShipV) -> bool {
    s.orders.len() > 0 ==> match s.orders[0].0 {
        Order::Mine((planet_id, ty, duration)) => duration + type_total(s.cargo.items, ty)
            <= u32::MAX,
        _ => true,
    }
}

/// What a settlement call does to the whole engine state: an unknown id
/// fails; otherwise the ship is settled against the current tick, and the
/// result is stored only when settlement succeeded — a failed settlement
/// leaves the stored state untouched, recharge included.
pub open spec fn settle_transition(rs: RareshipsV, ship_id: ShipId, now: Block) -> (
    RareshipsV,
    Result<(), Error>,
) {
    if !rs.ships.contains_key(ship_id) {
        (rs, Err(Error::ShipNotFound))
    } else {
        let (s2, r) = ship_settled(rs.ships[ship_id], rs.planets, now);
        match r {
            Ok(_) => (RareshipsV { ships: rs.ships.insert(ship_id, s2), ..rs }, Ok(())),
            Err(e) => (rs, Err(e)),
        }
    }
}

/// What a recharge-only settlement does: an unknown id fails; otherwise
/// the recharged ship is stored unconditionally.
pub open spec fn recharge_transition(rs: RareshipsV, ship_id: ShipId, now: Block) -> (
    RareshipsV,
    Result<(), Error>,
) {
    if !rs.ships.contains_key(ship_id) {
        (rs, Err(Error::ShipNotFound))
    } else {
        (
            RareshipsV {
                ships: rs.ships.insert(ship_id, recharged(rs.ships[ship_id], now)),
                ..rs
            },
            Ok(()),
        )
    }
}

/// What placing an order does: ownership is checked, the order validated
/// against the ship and the sites, and on success the order is appended,
/// stamped as started at `now` only when the queue was empty.
pub open spec fn order_transition(
    rs: RareshipsV,
    caller: AccountId,
    ship_id: ShipId,
    o: Order,
    now: Block,
) -> (RareshipsV, Result<(), Error>) {
    if !rs.ships.contains_key(ship_id) {
        (rs, Err(Error::ShipNotFound))
    } else if rs.ships[ship_id].owner != caller {
        (rs, Err(Error::NotShipOwner))
    } else {
        let s = rs.ships[ship_id];
        match order_check(o, s.max_speed, rs.planets) {
            Err(e) => (rs, Err(e)),
            Ok(_) => {
                let start = if s.orders.len() == 0 {
                    Some(now)
                } else {
                    None::<Block>
                };
                (
                    RareshipsV {
                        ships: rs.ships.insert(ship_id, ShipV { orders: s.orders.push((o, start)), ..s }),
                        ..rs
                    },
                    Ok(()),
                )
            },
        }
    }
}

/// What dropping an order does: ownership and bounds are checked, then the
/// order at the index is removed. Removing the head does not re-stamp the
/// new head's start tick; the new head starts unstamped.
pub open spec fn drop_order_transition(
    rs: RareshipsV,
    caller: AccountId,
    ship_id: ShipId,
    order_index: u32,
) -> (RareshipsV, Result<(), Error>) {
    if !rs.ships.contains_key(ship_id) {
        (rs, Err(Error::ShipNotFound))
    } else if rs.ships[ship_id].owner != caller {
        (rs, Err(Error::NotShipOwner))
    } else if order_index >= rs.ships[ship_id].orders.len() {
        (rs, Err(Error::InvalidOrder))
    } else {
        let s = rs.ships[ship_id];
        (
            RareshipsV {
                ships: rs.ships.insert(
                    ship_id,
                    ShipV { orders: s.orders.remove(order_index as int), ..s },
                ),
                ..rs
            },
            Ok(()),
        )
    }
}

/// Every stored site is well formed.
pub open spec fn planets_all_wf(planets: Map<PlanetId, PlanetV>) -> bool {
    forall|k: PlanetId| planets.contains_key(k) ==> (#[trigger] planets[k]).wf()
}

/// Applies the energy recharge for the blocks elapsed since the last one:
/// the result never exceeds capacity, and strictly grows whenever time has
/// passed, the ship is below capacity and its recharge rate is positive.
fn settle_recharge(ship: &mut Ship, now: Block) -> (res: Result<(), Error>)
    requires
        old(ship)@.last_recharge <= now,
        old(ship)@.energy <= old(ship)@.max_energy,
    ensures
        final(ship)@ == recharged(old(ship)@, now),
        final(ship)@.energy <= old(ship)@.max_energy,
        (now > old(ship)@.last_recharge && old(ship)@.energy < old(ship)@.max_energy && old(
            ship,
        )@.recharge_rate >= 1) ==> final(ship)@.energy > old(ship)@.energy,
        res == Ok::<(), Error>(()),
{
    proof {
        lemma_recharge_clamp(old(ship)@, now);
    }
    let elapsed: u32 = now - ship.last_recharge;
    if elapsed > 0 && ship.energy < ship.max_energy {
        proof {
            assert((elapsed as int) * (ship.recharge_rate as int) <= 0xffff_ffff * 0xffff_ffff)
                by (nonlinear_arith)
                requires
                    0 <= elapsed as int <= 0xffff_ffff,
                    0 <= ship.recharge_rate as int <= 0xffff_ffff,
            ;
        }
        let amount: u64 = (elapsed as u64) * (ship.recharge_rate as u64);
        let filled: u64 = (ship.energy as u64) + amount;
        if filled > ship.max_energy as u64 {
            ship.energy = ship.max_energy;
        } else {
            ship.energy = filled as u32;
        }
        ship.last_recharge = now;
    }
    proof {
        assert(ship@ =~= recharged(old(ship)@, now));
    }
    Ok(())
}

/// The cost of the affordable tiles never exceeds the stored energy.
proof fn lemma_affordable_tiles(t: int, cost: int, energy: int)
    requires
        t >= 1,
        cost >= 0,
        energy >= 0,
    ensures
        ({
            let tiles = affordable_tiles(t, cost, energy);
            0 <= tiles <= t && cost * tiles <= energy
        }),
{
    if cost * t > energy {
        assert(cost >= 1) by {
            if cost == 0 {
                assert(cost * t == 0);
            }
        };
        assert(energy / cost >= 0) by {
            vstd::arithmetic::div_mod::lemma_div_pos_is_pos(energy, cost);
        };
        assert(cost * (energy / cost) <= energy) by {
            vstd::arithmetic::div_mod::lemma_fundamental_div_mod(energy, cost);
            vstd::arithmetic::div_mod::lemma_mod_division_less_than_divisor(energy, cost);
        };
        assert(energy / cost < t) by {
            vstd::arithmetic::div_mod::lemma_multiply_divide_lt(energy, cost, t);
        };
    }
}

/// Advances a head `Move` order; never an error.
fn settle_movement(
    ship: &mut Ship,
    direction: Direction,
    speed: i32,
    distance: i32,
    start: Block,
    now: Block,
) -> (res: Result<(), Error>)
    requires
        old(ship)@.wf(),
        start <= now,
        0 <= speed <= old(ship)@.max_speed,
        distance >= 1,
        old(ship)@.orders.len() >= 1,
    ensures
        final(ship)@ == moved_ship(old(ship)@, direction, speed, distance, start, now),
        res == Ok::<(), Error>(()),
{
    let elapsed: u32 = now - start;
    if elapsed == 0 {
        return Ok(());
    }
    proof {
        assert((elapsed as int) * (speed as int) <= 0xffff_ffff * 0x7fff_ffff) by (nonlinear_arith)
            requires
                0 <= elapsed as int <= 0xffff_ffff,
                0 <= speed as int <= 0x7fff_ffff,
        ;
    }
    let prog: u64 = (elapsed as u64) * (speed as u64);
    if prog < 1000 {
        return Ok(());
    }
    let mut tiles: u64 = prog / 1000;
    proof {
        assert(1 == 1000int / 1000);
        assert(prog / 1000 >= 1) by {
            vstd::arithmetic::div_mod::lemma_div_is_ordered(1000, prog as int, 1000);
        };
    }
    if tiles > distance as u64 {
        tiles = distance as u64;
    }
    let ghost t_raw = raw_tiles(elapsed as int, speed as int, distance as int);
    proof {
        assert(tiles == t_raw);
        assert(t_raw >= 1);
    }
    let cost_i: i32 = move_energy_per_tile(speed, ship.max_speed);
    let cost: u64 = cost_i as u64;
    proof {
        lemma_affordable_tiles(t_raw, cost as int, ship.energy as int);
        assert((cost as int) * (tiles as int) <= 100 * 0x7fff_ffff) by (nonlinear_arith)
            requires
                0 <= cost as int <= 100,
                0 <= tiles as int <= 0x7fff_ffff,
        ;
    }
    if cost * tiles > ship.energy as u64 {
        tiles = (ship.energy as u64) / cost;
    }
    proof {
        assert(tiles == affordable_tiles(t_raw, cost as int, old(ship)@.energy as int));
    }
    let spent: u64 = cost * tiles;
    ship.energy = ship.energy - (spent as u32);
    let pos = step_and_wrap(ship.position, direction, tiles);
    ship.position = pos;
    let rest: i32 = distance - (tiles as i32);
    if rest == 0 {
        ship.orders.remove(0);
        if ship.orders.len() > 0 {
            let (head, _) = ship.orders[0];
            ship.orders[0] = (head, Some(now));
        }
        proof {
            assert(ship@.orders =~= popped_and_restamped(old(ship)@.orders, now));
        }
    } else {
        ship.orders[0] = (Order::Move((direction, speed, rest)), Some(now));
    }
    proof {
        assert(ship@ =~= moved_ship(old(ship)@, direction, speed, distance, start, now));
    }
    Ok(())
}

/// Advances a head `Mine` order: defers while time or energy is short,
/// then checks the site and pays, stacks the mined units into the cargo
/// and consumes the order.
fn settle_mining(
    ship: &mut Ship,
    planets: &HashMap<PlanetId, Planet>,
    planet_id: PlanetId,
    resource_type: ResourceType,
    duration: Duration,
    start: Block,
    now: Block,
) -> (res: Result<(), Error>)
    requires
        old(ship)@.wf(),
        start <= now,
        duration >= 1,
        planets_all_wf(planets_view(planets@)),
        duration + type_total(old(ship)@.cargo.items, resource_type) <= u32::MAX,
        old(ship)@.orders.len() >= 1,
    ensures
        ({
            let (s2, r) = mined_ship(
                old(ship)@,
                planets_view(planets@),
                planet_id,
                resource_type,
                duration,
                start,
                now,
            );
            final(ship)@ == s2 && res == r
        }),
{
    let elapsed: u32 = now - start;
    if elapsed < duration {
        return Ok(());
    }
    let cost64: u64 = (mine_energy_per_block() as u64) * (duration as u64);
    if cost64 > ship.energy as u64 {
        return Ok(());
    }
    let cost: u32 = cost64 as u32;
    let planet = match planets.get(&planet_id) {
        Some(p) => p,
        None => {
            return Err(Error::PlanetNotFound);
        },
    };
    proof {
        assert(planets_view(planets@).contains_key(planet_id));
        assert(planets_view(planets@)[planet_id] == planet@);
    }
    let planet_position = planet.get_position();
    if planet_position.0 != ship.position.0 || planet_position.1 != ship.position.1
        || !planet.has_resource(&resource_type) {
        return Err(Error::ResourceNotFound);
    }
    match planet.get_owner() {
        Some(owner) => {
            if owner != ship.owner {
                return Err(Error::NotPlanetOwner);
            }
        },
        None => {},
    }
    ship.energy = ship.energy - cost;
    proof {
        crate::planets::lemma_planet_wf_lens(planet@);
        crate::planets::lemma_mining_rate_wf(planet@, resource_type);
    }
    let rate: u32 = planet.get_mining_rate(&resource_type);
    let amount: u32 = rate * duration;
    let item = Item::Resource(Resource::new(resource_type, amount));
    match ship.cargo.add_item(item) {
        Ok(_) => {},
        Err(e) => {
            return Err(Error::from(e));
        },
    }
    ship.orders.remove(0);
    if ship.orders.len() > 0 {
        let (head, _) = ship.orders[0];
        ship.orders[0] = (head, Some(now));
    }
    proof {
        assert(ship@.orders =~= popped_and_restamped(old(ship)@.orders, now));
        let (s2, r) = mined_ship(
            old(ship)@,
            planets_view(planets@),
            planet_id,
            resource_type,
            duration,
            start,
            now,
        );
        assert(ship@ =~= s2);
    }
    Ok(())
}

/// Advances the head order, dispatched on its tag; a head without a start
/// tick cannot be advanced.
fn settle_top_order(ship: &mut Ship, planets: &HashMap<PlanetId, Planet>, now: Block) -> (res:
    Result<(), Error>)
    requires
        old(ship)@.wf(),
        old(ship)@.settled_by(now),
        head_mine_fits(old(ship)@),
        planets_all_wf(planets_view(planets@)),
    ensures
        ({
            let (s2, r) = top_order_settled(old(ship)@, planets_view(planets@), now);
            final(ship)@ == s2 && res == r
        }),
{
    if ship.orders.len() == 0 {
        return Ok(());
    }
    let head = ship.orders[0];
    proof {
        assert(order_wf(old(ship)@.orders[0].0, old(ship)@.max_speed));
    }
    match head {
        (Order::Move((direction, speed, distance)), Some(start)) => settle_movement(
            ship,
            direction,
            speed,
            distance,
            start,
            now,
        ),
        (Order::Mine((planet_id, resource_type, duration)), Some(start)) => settle_mining(
            ship,
            planets,
            planet_id,
            resource_type,
            duration,
            start,
            now,
        ),
        (_, None) => Err(Error::InvalidOrder),
    }
}

/// Storing a ship is, in the model, a map insertion of its view.
proof fn lemma_ships_view_insert(m: Map<ShipId, Ship>, id: ShipId, s: Ship)
    ensures
        ships_view(m.insert(id, s)) == ships_view(m).insert(id, s@),
{
    assert(ships_view(m.insert(id, s)) =~= ships_view(m).insert(id, s@));
}

/// Storing a site is, in the model, a map insertion of its view.
proof fn lemma_planets_view_insert(m: Map<PlanetId, Planet>, id: PlanetId, p: Planet)
    ensures
        planets_view(m.insert(id, p)) == planets_view(m).insert(id, p@),
{
    assert(planets_view(m.insert(id, p)) =~= planets_view(m).insert(id, p@));
}

/// A state whose stored ticks lie at or before `t1` also has them at or
/// before any later `t2`; a caller carries the tick bound of one call
/// forward to the next, later one with this, as the host tick never
/// decreases.
pub proof fn lemma_settled_by_monotone(rs: RareshipsV, t1: Block, t2: Block)
    requires
        rs.settled_by(t1),
        t1 <= t2,
    ensures
        rs.settled_by(t2),
{
    assert forall|id: ShipId| rs.ships.contains_key(id) implies (
    #[trigger] rs.ships[id]).settled_by(t2) by {
        assert(rs.ships[id].settled_by(t1));
    };
}

/// Recharging preserves the ship invariant and stamps nothing later than
/// `now`.
proof fn lemma_recharged_wf(s: ShipV, now: Block)
    requires
        s.wf(),
        s.settled_by(now),
    ensures
        recharged(s, now).wf(),
        recharged(s, now).settled_by(now),
        recharged(s, now).orders == s.orders,
        recharged(s, now).cargo == s.cargo,
{
}

/// An order queue whose head completed stays well formed: the successor is
/// stamped with `now` and every later order stays unstamped.
proof fn lemma_popped_wf(orders: Seq<(Order, Option<Block>)>, now: Block, max_speed: i32)
    requires
        orders.len() >= 1,
        forall|i: int| 0 <= i < orders.len() ==> order_wf(#[trigger] orders[i].0, max_speed),
        forall|i: int| 1 <= i < orders.len() ==> (#[trigger] orders[i]).1 is None,
    ensures
        ({
            let rest = popped_and_restamped(orders, now);
            &&& rest.len() == orders.len() - 1
            &&& forall|i: int| 0 <= i < rest.len() ==> order_wf(#[trigger] rest[i].0, max_speed)
            &&& forall|i: int| 1 <= i < rest.len() ==> (#[trigger] rest[i]).1 is None
            &&& (rest.len() > 0 ==> rest[0].1 == Some(now))
        }),
{
    let rest = popped_and_restamped(orders, now);
    assert forall|i: int| 0 <= i < rest.len() implies order_wf(#[trigger] rest[i].0, max_speed) by {
        assert(rest[i].0 == orders[i + 1].0);
    };
    assert forall|i: int| 1 <= i < rest.len() implies (#[trigger] rest[i]).1 is None by {
        assert(rest[i] == orders[i + 1]);
    };
}

/// Settling a move preserves the ship invariant, leaves no stamp later
/// than `now`, and touches neither the statics nor the inventories.
proof fn lemma_moved_ship_wf(
    s: ShipV,
    dir: Direction,
    speed: Speed,
    distance: Distance,
    start: Block,
    now: Block,
)
    requires
        s.wf(),
        s.settled_by(now),
        0 <= speed <= s.max_speed,
        distance >= 1,
        s.orders.len() >= 1,
    ensures
        ({
            let m = moved_ship(s, dir, speed, distance, start, now);
            &&& m.wf()
            &&& m.settled_by(now)
            &&& m.last_recharge == s.last_recharge
            &&& m.cargo == s.cargo
        }),
{
    let elapsed = now - start;
    if elapsed == 0 || elapsed * speed < 1000 {
    } else {
        let t = raw_tiles(elapsed, speed as int, distance as int);
        if t <= 0 {
        } else {
            let cost = move_cost(speed as int, s.max_speed as int);
            assert(cost >= 0) by {
                vstd::arithmetic::div_mod::lemma_div_pos_is_pos(
                    100 * speed,
                    s.max_speed as int,
                );
            };
            lemma_affordable_tiles(t, cost, s.energy as int);
            let tiles = affordable_tiles(t, cost, s.energy as int);
            let o = crate::grid::offset_from_cube(
                crate::grid::stepped_cube(
                    crate::grid::cube_from_offset(s.position.0 as int, s.position.1 as int),
                    dir,
                    tiles,
                ).0,
                crate::grid::stepped_cube(
                    crate::grid::cube_from_offset(s.position.0 as int, s.position.1 as int),
                    dir,
                    tiles,
                ).1,
            );
            crate::grid::lemma_wrap_coord_bounds(o.0, MAX_X as int);
            crate::grid::lemma_wrap_coord_bounds(o.1, MAX_Y as int);
            let rest = distance - tiles;
            if rest == 0 {
                lemma_popped_wf(s.orders, now, s.max_speed);
            } else {
                let m = moved_ship(s, dir, speed, distance, start, now);
                assert forall|i: int| 0 <= i < m.orders.len() implies order_wf(
                    #[trigger] m.orders[i].0,
                    m.max_speed,
                ) by {
                    if i > 0 {
                        assert(m.orders[i] == s.orders[i]);
                    }
                };
                assert forall|i: int| 1 <= i < m.orders.len() implies (#[trigger] m.orders[i]).1
                    is None by {
                    assert(m.orders[i] == s.orders[i]);
                };
            }
        }
    }
}

/// Settling a mine preserves the ship invariant whatever the outcome, and
/// leaves no stamp later than `now`.
proof fn lemma_mined_ship_wf(
    s: ShipV,
    planets: Map<PlanetId, PlanetV>,
    planet_id: PlanetId,
    ty: ResourceType,
    duration: Duration,
    start: Block,
    now: Block,
)
    requires
        s.wf(),
        s.settled_by(now),
        s.orders.len() >= 1,
        planets_all_wf(planets),
    ensures
        ({
            let (s2, r) = mined_ship(s, planets, planet_id, ty, duration, start, now);
            &&& s2.wf()
            &&& s2.settled_by(now)
            &&& s2.last_recharge == s.last_recharge
        }),
{
    let elapsed = now - start;
    if elapsed >= duration && 100 * duration <= s.energy && planets.contains_key(planet_id) {
        let p = planets[planet_id];
        let owner_blocks = match p.owner {
            Some(o) => o != s.owner,
            None => false,
        };
        if p.position == s.position && !owner_blocks && p.resources.contains(ty) {
            let s1 = ShipV { energy: (s.energy - 100 * duration) as u32, ..s };
            let amount = (mining_rate_of(p, ty) * duration) as u32;
            let item = Item::Resource(Resource { id: 0, resource_type: ty, quantity: amount });
            crate::inventory::lemma_add_item_wf(s1.cargo, item);
            match add_item_spec(s1.cargo, item) {
                Ok(c2) => {
                    lemma_popped_wf(s.orders, now, s.max_speed);
                },
                Err(_) => {},
            }
        }
    }
}

/// Settling a ship preserves the invariant, leaves no stamp later than
/// `now`, and keeps the ship's identity.
proof fn lemma_ship_settled_wf(s: ShipV, planets: Map<PlanetId, PlanetV>, now: Block)
    requires
        s.wf(),
        s.settled_by(now),
        planets_all_wf(planets),
    ensures
        ({
            let (s2, r) = ship_settled(s, planets, now);
            &&& s2.wf()
            &&& s2.settled_by(now)
            &&& s2.id == s.id
        }),
{
    if s.orders.len() == 0 {
    } else {
        lemma_recharged_wf(s, now);
        let s1 = recharged(s, now);
        match s.orders[0] {
            (Order::Move((dir, speed, distance)), Some(start)) => {
                assert(order_wf(s.orders[0].0, s.max_speed));
                lemma_moved_ship_wf(s1, dir, speed, distance, start, now);
            },
            (Order::Mine((planet_id, ty, duration)), Some(start)) => {
                lemma_mined_ship_wf(s1, planets, planet_id, ty, duration, start, now);
            },
            (_, None) => {},
        }
    }
}

/// Recharge clamp: the recharged energy never exceeds capacity, and it
/// strictly increases whenever time has passed, the ship is below capacity
/// and its recharge rate is positive.
pub proof fn lemma_recharge_clamp(s: ShipV, now: Block)
    requires
        s.energy <= s.max_energy,
        s.last_recharge <= now,
    ensures
        recharged(s, now).energy <= s.max_energy,
        s.last_recharge < now && s.energy < s.max_energy && s.recharge_rate >= 1 ==> recharged(
            s,
            now,
        ).energy > s.energy,
{
    let elapsed = now - s.last_recharge;
    if elapsed > 0 && s.energy < s.max_energy && s.recharge_rate >= 1 {
        assert(elapsed * s.recharge_rate >= 1) by (nonlinear_arith)
            requires
                elapsed >= 1,
                s.recharge_rate >= 1,
        ;
    }
}

/// The energy a move settlement charges: the cost per tile times the tiles
/// actually moved, zero when no whole tile of progress has accrued.
pub open spec fn move_spent(s: ShipV, speed: Speed, distance: Distance, start: Block, now: Block) -> int {
    let elapsed = now - start;
    if elapsed == 0 || elapsed * speed < 1000 {
        0
    } else {
        let t = raw_tiles(elapsed, speed as int, distance as int);
        if t <= 0 {
            0
        } else {
            let cost = move_cost(speed as int, s.max_speed as int);
            cost * affordable_tiles(t, cost, s.energy as int)
        }
    }
}

/// Movement energy clamp: the tiles actually moved never cost more energy
/// than the ship holds, exactly that cost is deducted, and so the energy
/// never goes negative.
pub proof fn lemma_movement_energy_clamp(
    s: ShipV,
    dir: Direction,
    speed: Speed,
    distance: Distance,
    start: Block,
    now: Block,
)
    requires
        s.max_speed >= 1,
        0 <= speed <= s.max_speed,
    ensures
        0 <= move_spent(s, speed, distance, start, now) <= s.energy,
        moved_ship(s, dir, speed, distance, start, now).energy == s.energy - move_spent(
            s,
            speed,
            distance,
            start,
            now,
        ),
{
    let elapsed = now - start;
    if elapsed == 0 || elapsed * speed < 1000 {
    } else {
        let t = raw_tiles(elapsed, speed as int, distance as int);
        if t <= 0 {
        } else {
            let cost = move_cost(speed as int, s.max_speed as int);
            assert(cost >= 0) by {
                vstd::arithmetic::div_mod::lemma_div_pos_is_pos(100 * speed, s.max_speed as int);
            };
            lemma_affordable_tiles(t, cost, s.energy as int);
        }
    }
}

/// Idempotent settlement of a ship: once a settlement at `now` succeeded,
/// settling the result at the same `now` again succeeds and changes
/// nothing. The hypothesis on the recharge stamp rules out the one state
/// the engine cannot re-stamp: a ship at full energy whose stamp is stale
/// skips the recharge, and an order that then drains energy re-arms it.
pub proof fn lemma_settle_idempotent(s: ShipV, planets: Map<PlanetId, PlanetV>, now: Block)
    requires
        s.wf(),
        s.settled_by(now),
        planets_all_wf(planets),
        s.last_recharge == now || s.energy < s.max_energy,
    ensures
        ({
            let (s1, r) = ship_settled(s, planets, now);
            r == Ok::<(), Error>(()) ==> ship_settled(s1, planets, now) == (
                s1,
                Ok::<(), Error>(()),
            )
        }),
{
    let (s1, r) = ship_settled(s, planets, now);
    if s.orders.len() == 0 || r != Ok::<(), Error>(()) {
    } else {
        lemma_recharged_wf(s, now);
        lemma_ship_settled_wf(s, planets, now);
        let sr = recharged(s, now);
        assert(sr.last_recharge == now);
        match s.orders[0] {
            (Order::Move((dir, speed, distance)), Some(start)) => {
                assert(order_wf(s.orders[0].0, s.max_speed));
                lemma_moved_ship_wf(sr, dir, speed, distance, start, now);
                let elapsed = now - start;
                if elapsed == 0 || elapsed * speed < 1000 {
                    assert(s1 == sr);
                    assert(recharged(s1, now) == s1);
                    assert(ship_settled(s1, planets, now) == (s1, Ok::<(), Error>(())));
                } else {
                    let t = raw_tiles(elapsed, speed as int, distance as int);
                    assert(elapsed * speed / 1000 >= 1) by {
                        vstd::arithmetic::div_mod::lemma_div_is_ordered(
                            1000,
                            elapsed * speed,
                            1000,
                        );
                    };
                    assert(t >= 1);
                    assert(s1.last_recharge == now);
                    assert(recharged(s1, now) == s1);
                    if s1.orders.len() == 0 {
                    } else {
                        assert(s1.orders[0].1 == Some(now));
                        assert(order_wf(s1.orders[0].0, s1.max_speed));
                        match s1.orders[0] {
                            (Order::Move((d2, sp2, di2)), Some(st2)) => {
                                assert(moved_ship(s1, d2, sp2, di2, st2, now) == s1);
                            },
                            (Order::Mine((p2, t2, du2)), Some(st2)) => {
                                assert(now - st2 < du2);
                            },
                            (_, None) => {},
                        }
                        assert(ship_settled(s1, planets, now) == (s1, Ok::<(), Error>(())));
                    }
                }
            },
            (Order::Mine((planet_id, ty, duration)), Some(start)) => {
                assert(order_wf(s.orders[0].0, s.max_speed));
                lemma_mined_ship_wf(sr, planets, planet_id, ty, duration, start, now);
                let elapsed = now - start;
                if elapsed < duration || 100 * duration > sr.energy {
                    assert(s1 == sr);
                    assert(recharged(s1, now) == s1);
                    assert(ship_settled(s1, planets, now) == (s1, Ok::<(), Error>(())));
                } else {
                    assert(s1.last_recharge == now);
                    assert(recharged(s1, now) == s1);
                    if s1.orders.len() == 0 {
                    } else {
                        assert(s1.orders[0].1 == Some(now));
                        assert(order_wf(s1.orders[0].0, s1.max_speed));
                        match s1.orders[0] {
                            (Order::Move((d2, sp2, di2)), Some(st2)) => {
                                assert(moved_ship(s1, d2, sp2, di2, st2, now) == s1);
                            },
                            (Order::Mine((p2, t2, du2)), Some(st2)) => {
                                assert(now - st2 < du2);
                            },
                            (_, None) => {},
                        }
                        assert(ship_settled(s1, planets, now) == (s1, Ok::<(), Error>(())));
                    }
                }
            },
            (_, None) => {},
        }
    }
}

/// Idempotent settlement of the engine: calling `settle` twice at the same
/// tick gives, the second time, the same outcome and exactly the state the
/// first call left. The hypothesis on the recharge stamp is as in
/// [`lemma_settle_idempotent`].
pub proof fn lemma_settle_transition_idempotent(rs: RareshipsV, ship_id: ShipId, now: Block)
    requires
        rs.wf(),
        rs.settled_by(now),
        rs.ships.contains_key(ship_id) ==> (rs.ships[ship_id].last_recharge == now
            || rs.ships[ship_id].energy < rs.ships[ship_id].max_energy),
    ensures
        ({
            let (rs1, r1) = settle_transition(rs, ship_id, now);
            settle_transition(rs1, ship_id, now) == (rs1, r1)
        }),
{
    if rs.ships.contains_key(ship_id) {
        let s = rs.ships[ship_id];
        let (s1, r) = ship_settled(s, rs.planets, now);
        lemma_settle_idempotent(s, rs.planets, now);
        match r {
            Ok(_) => {
                let rs1 = RareshipsV { ships: rs.ships.insert(ship_id, s1), ..rs };
                assert(rs1.ships[ship_id] == s1);
                assert(ship_settled(s1, rs.planets, now) == (s1, Ok::<(), Error>(())));
                assert(rs1.ships.insert(ship_id, s1) =~= rs1.ships);
                assert((RareshipsV { ships: rs1.ships.insert(ship_id, s1), ..rs1 }) =~= rs1);
            },
            Err(_) => {},
        }
    }
}

impl Rareships {
    /// A fresh engine with no ships and no sites, administered by `admin`.
    pub fn new(admin: AccountId) -> (res: Rareships)
        ensures
            res@ == (RareshipsV {
                ships: Map::<ShipId, ShipV>::empty(),
                ship_ids: Seq::<ShipId>::empty(),
                planets: Map::<PlanetId, PlanetV>::empty(),
                admin,
            }),
            res@.wf(),
    {
        let res = Rareships {
            ships: HashMap::new(),
            ship_ids: Vec::new(),
            planets: HashMap::new(),
            admin,
        };
        proof {
            assert(res@.ships =~= Map::<ShipId, ShipV>::empty());
            assert(res@.planets =~= Map::<PlanetId, PlanetV>::empty());
            assert(res@.ship_ids =~= Seq::<ShipId>::empty());
        }
        res
    }

    /// The same fresh engine; kept beside `new` as the second constructor.
    pub fn default(admin: AccountId) -> (res: Rareships)
        ensures
            res@ == (RareshipsV {
                ships: Map::<ShipId, ShipV>::empty(),
                ship_ids: Seq::<ShipId>::empty(),
                planets: Map::<PlanetId, PlanetV>::empty(),
                admin,
            }),
            res@.wf(),
    {
        Rareships::new(admin)
    }

    /// Mints a basic resource site at a position; only the administrator
    /// may mint, and an id can be minted only once.
    pub fn mint_planet(&mut self, caller: AccountId, planet_id: PlanetId, position: (i32, i32)) -> (res:
        Result<(), Error>)
        requires
            old(self)@.wf(),
        ensures
            ({
                let rs = old(self)@;
                if caller != rs.admin {
                    res == Err::<(), Error>(Error::NotAuthorized) && final(self)@ == rs
                } else if rs.planets.contains_key(planet_id) {
                    res == Err::<(), Error>(Error::PlanetAlreadyExists) && final(self)@ == rs
                } else {
                    res == Ok::<(), Error>(()) && final(self)@ == (RareshipsV {
                        planets: rs.planets.insert(
                            planet_id,
                            new_planet(planet_id, PlanetLevel::Basic, position),
                        ),
                        ..rs
                    })
                }
            }),
            final(self)@.wf(),
            forall|t: Block| #[trigger] old(self)@.settled_by(t) ==> final(self)@.settled_by(t),
    {
        if caller != self.admin {
            return Err(Error::NotAuthorized);
        }
        if self.planets.contains_key(&planet_id) {
            return Err(Error::PlanetAlreadyExists);
        }
        let planet = Planet::new(planet_id, PlanetLevel::Basic, position);
        proof {
            lemma_planets_view_insert(self.planets@, planet_id, planet);
        }
        self.planets.insert(planet_id, planet);
        proof {
            assert(final(self)@ =~= (RareshipsV {
                planets: old(self)@.planets.insert(
                    planet_id,
                    new_planet(planet_id, PlanetLevel::Basic, position),
                ),
                ..old(self)@
            }));
            assert forall|id: PlanetId| final(self)@.planets.contains_key(id) implies (
            #[trigger] final(self)@.planets[id]).wf() by {
                if id != planet_id {
                    assert(final(self)@.planets[id] == old(self)@.planets[id]);
                }
            };
        }
        Ok(())
    }

    /// Spawns a ship under a fresh id, owned by the caller, with the fixed
    /// spawn attributes, at the origin, recharged as of `now`.
    pub fn spawn(&mut self, caller: AccountId, ship_id: ShipId, now: Block) -> (res: Result<
        (),
        Error,
    >)
        requires
            old(self)@.wf(),
            old(self)@.settled_by(now),
        ensures
            ({
                let rs = old(self)@;
                if rs.ships.contains_key(ship_id) {
                    res == Err::<(), Error>(Error::ShipAlreadyExists) && final(self)@ == rs
                } else {
                    res == Ok::<(), Error>(()) && final(self)@ == (RareshipsV {
                        ships: rs.ships.insert(ship_id, spawned_ship(ship_id, caller, now)),
                        ship_ids: rs.ship_ids.push(ship_id),
                        ..rs
                    })
                }
            }),
            final(self)@.wf(),
            final(self)@.settled_by(now),
    {
        if self.ships.contains_key(&ship_id) {
            return Err(Error::ShipAlreadyExists);
        }
        let ship = Ship {
            id: ship_id,
            name: String::new(),
            owner: caller,
            max_speed: 10000,
            max_inventory_size: 4,
            max_cargo_size: 4,
            max_energy: 1000,
            max_health: 100,
            recharge_rate: 10,
            position: (0, 0),
            energy: 1000,
            health: 100,
            inventory: Inventory::new(4),
            cargo: Inventory::new(32),
            orders: Vec::new(),
            last_recharge: now,
        };
        proof {
            assert(ship@ =~= spawned_ship(ship_id, caller, now));
            lemma_ships_view_insert(self.ships@, ship_id, ship);
        }
        self.ships.insert(ship_id, ship);
        self.ship_ids.push(ship_id);
        proof {
            assert(final(self)@ =~= (RareshipsV {
                ships: old(self)@.ships.insert(ship_id, spawned_ship(ship_id, caller, now)),
                ship_ids: old(self)@.ship_ids.push(ship_id),
                ..old(self)@
            }));
            assert forall|id: ShipId| final(self)@.ships.contains_key(id) implies (
            #[trigger] final(self)@.ships[id]).wf() && final(self)@.ships[id].id == id by {
                if id != ship_id {
                    assert(final(self)@.ships[id] == old(self)@.ships[id]);
                }
            };
            assert forall|id: ShipId| final(self)@.ships.contains_key(id) implies (
            #[trigger] final(self)@.ships[id]).settled_by(now) by {
                if id != ship_id {
                    assert(final(self)@.ships[id] == old(self)@.ships[id]);
                }
            };
            assert(final(self)@.ship_ids.no_duplicates()) by {
                assert(!old(self)@.ship_ids.contains(ship_id));
                assert forall|i: int, j: int|
                    0 <= i < final(self)@.ship_ids.len() && 0 <= j < final(self)@.ship_ids.len()
                        && i != j implies final(self)@.ship_ids[i] != final(self)@.ship_ids[j] by {
                    if i < old(self)@.ship_ids.len() && j < old(self)@.ship_ids.len() {
                        assert(old(self)@.ship_ids[i] != old(self)@.ship_ids[j]);
                    } else if i < old(self)@.ship_ids.len() {
                        assert(old(self)@.ship_ids.contains(old(self)@.ship_ids[i]));
                    } else if j < old(self)@.ship_ids.len() {
                        assert(old(self)@.ship_ids.contains(old(self)@.ship_ids[j]));
                    }
                };
            };
            assert forall|id: ShipId| #![auto] final(self)@.ships.contains_key(id)
                <==> final(self)@.ship_ids.contains(id) by {
                if final(self)@.ships.contains_key(id) {
                    if id == ship_id {
                        assert(final(self)@.ship_ids[final(self)@.ship_ids.len() - 1] == id);
                    } else {
                        assert(old(self)@.ships.contains_key(id));
                        assert(old(self)@.ship_ids.contains(id));
                        let w = choose|k: int|
                            0 <= k < old(self)@.ship_ids.len() && old(self)@.ship_ids[k] == id;
                        assert(final(self)@.ship_ids[w] == old(self)@.ship_ids[w]);
                        assert(final(self)@.ship_ids[w] == id);
                    }
                } else {
                    if final(self)@.ship_ids.contains(id) {
                        let w = choose|k: int|
                            0 <= k < final(self)@.ship_ids.len() && final(self)@.ship_ids[k] == id;
                        if w < old(self)@.ship_ids.len() {
                            assert(old(self)@.ship_ids.contains(id));
                        }
                    }
                }
            };
        }
        Ok(())
    }

    /// Validates and enqueues an order for a ship the caller owns; the
    /// order is stamped as started at `now` only when the queue was empty.
    pub fn order(&mut self, caller: AccountId, ship_id: ShipId, new_order: Order, now: Block) -> (res:
        Result<(), Error>)
        requires
            old(self)@.wf(),
            old(self)@.settled_by(now),
        ensures
            ({
                let (rs2, r) = order_transition(old(self)@, caller, ship_id, new_order, now);
                final(self)@ == rs2 && res == r
            }),
            final(self)@.wf(),
            final(self)@.settled_by(now),
    {
        let mut ship: Ship;
        match self.ships.get(&ship_id) {
            Some(s) => {
                ship = s.clone();
            },
            None => {
                return Err(Error::ShipNotFound);
            },
        }
        let ghost s0 = old(self)@.ships[ship_id];
        proof {
            assert(ship@ == s0);
        }
        if ship.owner != caller {
            return Err(Error::NotShipOwner);
        }
        match &new_order {
            Order::Move((_, speed, distance)) => {
                if *speed < 0 || *speed > ship.max_speed || *distance <= 0 {
                    return Err(Error::InvalidOrder);
                }
            },
            Order::Mine((planet_id, resource_type, duration)) => {
                if *duration == 0 {
                    return Err(Error::InvalidOrder);
                }
                let planet = match self.planets.get(planet_id) {
                    Some(p) => p,
                    None => {
                        return Err(Error::PlanetNotFound);
                    },
                };
                proof {
                    assert(planets_view(self.planets@)[*planet_id] == planet@);
                }
                if !planet.has_resource(resource_type) {
                    return Err(Error::InvalidOrder);
                }
            },
        }
        let start: Option<Block> = if ship.orders.len() == 0 {
            Some(now)
        } else {
            None
        };
        ship.orders.push((new_order, start));
        proof {
            lemma_ships_view_insert(self.ships@, ship_id, ship);
        }
        self.ships.insert(ship_id, ship);
        proof {
            let (rs2, r) = order_transition(old(self)@, caller, ship_id, new_order, now);
            assert(final(self)@ =~= rs2);
            let s2 = ShipV { orders: s0.orders.push((new_order, if s0.orders.len() == 0 { Some(now) } else { None }), ), ..s0 };
            assert forall|id: ShipId| final(self)@.ships.contains_key(id) implies (
            #[trigger] final(self)@.ships[id]).wf() && final(self)@.ships[id].id == id by {
                if id != ship_id {
                    assert(final(self)@.ships[id] == old(self)@.ships[id]);
                } else {
                    assert forall|i: int| 0 <= i < s2.orders.len() implies order_wf(
                        #[trigger] s2.orders[i].0,
                        s2.max_speed,
                    ) by {
                        if i < s0.orders.len() {
                            assert(s2.orders[i] == s0.orders[i]);
                        }
                    };
                    assert forall|i: int| 1 <= i < s2.orders.len() implies (
                    #[trigger] s2.orders[i]).1 is None by {
                        if i < s0.orders.len() {
                            assert(s2.orders[i] == s0.orders[i]);
                        }
                    };
                }
            };
            assert forall|id: ShipId| final(self)@.ships.contains_key(id) implies (
            #[trigger] final(self)@.ships[id]).settled_by(now) by {
                if id != ship_id {
                    assert(final(self)@.ships[id] == old(self)@.ships[id]);
                }
            };
            assert forall|id: ShipId| #![auto] final(self)@.ships.contains_key(id)
                <==> final(self)@.ship_ids.contains(id) by {
                assert(final(self)@.ships.contains_key(id) == old(self)@.ships.contains_key(id));
            };
        }
        Ok(())
    }

    /// Removes the order at an index from a ship the caller owns. Removing
    /// the head does not re-stamp the new head's start tick: the new head
    /// starts unstamped.
    pub fn drop_order(&mut self, caller: AccountId, ship_id: ShipId, order_index: u32) -> (res:
        Result<(), Error>)
        requires
            old(self)@.wf(),
        ensures
            ({
                let (rs2, r) = drop_order_transition(old(self)@, caller, ship_id, order_index);
                final(self)@ == rs2 && res == r
            }),
            final(self)@.wf(),
            forall|t: Block| #[trigger] old(self)@.settled_by(t) ==> final(self)@.settled_by(t),
    {
        let mut ship: Ship;
        match self.ships.get(&ship_id) {
            Some(s) => {
                ship = s.clone();
            },
            None => {
                return Err(Error::ShipNotFound);
            },
        }
        let ghost s0 = old(self)@.ships[ship_id];
        proof {
            assert(ship@ == s0);
        }
        if ship.owner != caller {
            return Err(Error::NotShipOwner);
        }
        if order_index as usize >= ship.orders.len() {
            return Err(Error::InvalidOrder);
        }
        ship.orders.remove(order_index as usize);
        proof {
            lemma_ships_view_insert(self.ships@, ship_id, ship);
        }
        self.ships.insert(ship_id, ship);
        proof {
            let (rs2, r) = drop_order_transition(old(self)@, caller, ship_id, order_index);
            assert(final(self)@ =~= rs2);
            let s2 = ShipV { orders: s0.orders.remove(order_index as int), ..s0 };
            assert forall|id: ShipId| final(self)@.ships.contains_key(id) implies (
            #[trigger] final(self)@.ships[id]).wf() && final(self)@.ships[id].id == id by {
                if id != ship_id {
                    assert(final(self)@.ships[id] == old(self)@.ships[id]);
                } else {
                    assert forall|i: int| 0 <= i < s2.orders.len() implies order_wf(
                        #[trigger] s2.orders[i].0,
                        s2.max_speed,
                    ) by {
                        if i < order_index {
                            assert(s2.orders[i] == s0.orders[i]);
                        } else {
                            assert(s2.orders[i] == s0.orders[i + 1]);
                        }
                    };
                    assert forall|i: int| 1 <= i < s2.orders.len() implies (
                    #[trigger] s2.orders[i]).1 is None by {
                        if i < order_index {
                            assert(s2.orders[i] == s0.orders[i]);
                        } else {
                            assert(s2.orders[i] == s0.orders[i + 1]);
                        }
                    };
                }
            };
            assert forall|t: Block| #[trigger] old(self)@.settled_by(t) implies final(self)@.settled_by(
                t,
            ) by {
                assert forall|id: ShipId| final(self)@.ships.contains_key(id) implies (
                #[trigger] final(self)@.ships[id]).settled_by(t) by {
                    if id != ship_id {
                        assert(final(self)@.ships[id] == old(self)@.ships[id]);
                    } else {
                        assert(old(self)@.ships[id].settled_by(t));
                        if s2.orders.len() > 0 {
                            if order_index == 0 {
                                assert(s2.orders[0] == s0.orders[1]);
                            } else {
                                assert(s2.orders[0] == s0.orders[0]);
                            }
                        }
                    }
                };
            };
            assert forall|id: ShipId| #![auto] final(self)@.ships.contains_key(id)
                <==> final(self)@.ship_ids.contains(id) by {
                assert(final(self)@.ships.contains_key(id) == old(self)@.ships.contains_key(id));
            };
        }
        Ok(())
    }

    /// Settles a ship against the current tick `now`: recharge, then
    /// advance the head order. A no-op on an empty order queue; on an
    /// error the stored state is left untouched, recharge included.
    pub fn settle_ship(&mut self, ship_id: ShipId, now: Block) -> (res: Result<(), Error>)
        requires
            old(self)@.wf(),
            old(self)@.settled_by(now),
            old(self)@.ships.contains_key(ship_id) ==> head_mine_fits(
                old(self)@.ships[ship_id],
            ),
        ensures
            ({
                let (rs2, r) = settle_transition(old(self)@, ship_id, now);
                final(self)@ == rs2 && res == r
            }),
            final(self)@.wf(),
            final(self)@.settled_by(now),
    {
        let mut ship: Ship;
        match self.ships.get(&ship_id) {
            Some(s) => {
                ship = s.clone();
            },
            None => {
                return Err(Error::ShipNotFound);
            },
        }
        let ghost s0 = old(self)@.ships[ship_id];
        proof {
            assert(old(self)@.ships.contains_key(ship_id));
            assert(ship@ == s0);
        }
        if ship.orders.len() == 0 {
            proof {
                assert(old(self)@.ships.insert(ship_id, s0) =~= old(self)@.ships);
                assert(settle_transition(old(self)@, ship_id, now).0 =~= old(self)@);
            }
            return Ok(());
        }
        proof {
            lemma_recharged_wf(s0, now);
            lemma_ship_settled_wf(s0, old(self)@.planets, now);
        }
        match settle_recharge(&mut ship, now) {
            Ok(_) => {},
            Err(e) => {
                return Err(e);
            },
        }
        match settle_top_order(&mut ship, &self.planets, now) {
            Ok(_) => {},
            Err(e) => {
                return Err(e);
            },
        }
        proof {
            lemma_ships_view_insert(self.ships@, ship_id, ship);
        }
        self.ships.insert(ship_id, ship);
        proof {
            let (rs2, r) = settle_transition(old(self)@, ship_id, now);
            assert(final(self)@ =~= rs2);
            assert forall|id: ShipId| final(self)@.ships.contains_key(id) implies (
            #[trigger] final(self)@.ships[id]).wf() && final(self)@.ships[id].id == id by {
                if id != ship_id {
                    assert(final(self)@.ships[id] == old(self)@.ships[id]);
                }
            };
            assert forall|id: ShipId| final(self)@.ships.contains_key(id) implies (
            #[trigger] final(self)@.ships[id]).settled_by(now) by {
                if id != ship_id {
                    assert(final(self)@.ships[id] == old(self)@.ships[id]);
                }
            };
            assert forall|id: ShipId| #![auto] final(self)@.ships.contains_key(id)
                <==> final(self)@.ship_ids.contains(id) by {
                assert(final(self)@.ships.contains_key(id) == old(self)@.ships.contains_key(id));
            };
        }
        Ok(())
    }

    /// Settles a ship: the public settlement entry point.
    pub fn settle(&mut self, ship_id: ShipId, now: Block) -> (res: Result<(), Error>)
        requires
            old(self)@.wf(),
            old(self)@.settled_by(now),
            old(self)@.ships.contains_key(ship_id) ==> head_mine_fits(
                old(self)@.ships[ship_id],
            ),
        ensures
            ({
                let (rs2, r) = settle_transition(old(self)@, ship_id, now);
                final(self)@ == rs2 && res == r
            }),
            final(self)@.wf(),
            final(self)@.settled_by(now),
    {
        match self.settle_ship(ship_id, now) {
            Ok(_) => Ok(()),
            Err(e) => Err(e),
        }
    }

    /// Applies only the energy recharge to a ship and stores the result,
    /// whatever its order queue holds.
    pub fn settle_recharge_only(&mut self, ship_id: ShipId, now: Block) -> (res: Result<(), Error>)
        requires
            old(self)@.wf(),
            old(self)@.settled_by(now),
        ensures
            ({
                let (rs2, r) = recharge_transition(old(self)@, ship_id, now);
                final(self)@ == rs2 && res == r
            }),
            final(self)@.wf(),
            final(self)@.settled_by(now),
    {
        let mut ship: Ship;
        match self.ships.get(&ship_id) {
            Some(s) => {
                ship = s.clone();
            },
            None => {
                return Err(Error::ShipNotFound);
            },
        }
        let ghost s0 = old(self)@.ships[ship_id];
        proof {
            assert(ship@ == s0);
            lemma_recharged_wf(s0, now);
        }
        match settle_recharge(&mut ship, now) {
            Ok(_) => {},
            Err(e) => {
                return Err(e);
            },
        }
        proof {
            lemma_ships_view_insert(self.ships@, ship_id, ship);
        }
        self.ships.insert(ship_id, ship);
        proof {
            let (rs2, r) = recharge_transition(old(self)@, ship_id, now);
            assert(final(self)@ =~= rs2);
            assert forall|id: ShipId| final(self)@.ships.contains_key(id) implies (
            #[trigger] final(self)@.ships[id]).wf() && final(self)@.ships[id].id == id by {
                if id != ship_id {
                    assert(final(self)@.ships[id] == old(self)@.ships[id]);
                }
            };
            assert forall|id: ShipId| final(self)@.ships.contains_key(id) implies (
            #[trigger] final(self)@.ships[id]).settled_by(now) by {
                if id != ship_id {
                    assert(final(self)@.ships[id] == old(self)@.ships[id]);
                }
            };
            assert forall|id: ShipId| #![auto] final(self)@.ships.contains_key(id)
                <==> final(self)@.ship_ids.contains(id) by {
                assert(final(self)@.ships.contains_key(id) == old(self)@.ships.contains_key(id));
            };
        }
        Ok(())
    }

    /// The ids of all ships ever spawned, in spawn order.
    pub fn get_ships(&self) -> (res: Vec<ShipId>)
        ensures
            res@ == self@.ship_ids,
    {
        let mut res: Vec<ShipId> = Vec::new();
        let mut i: usize = 0;
        while i < self.ship_ids.len()
            invariant
                i <= self.ship_ids@.len(),
                res@ == self.ship_ids@.subrange(0, i as int),
            decreases self.ship_ids@.len() - i,
        {
            res.push(self.ship_ids[i]);
            i = i + 1;
        }
        proof {
            assert(res@ =~= self.ship_ids@);
        }
        res
    }

    /// The stored state of a ship, if it exists.
    pub fn get_ship(&self, ship_id: ShipId) -> (res: Option<Ship>)
        ensures
            match res {
                Some(s) => self@.ships.contains_key(ship_id) && s@ == self@.ships[ship_id],
                None => !self@.ships.contains_key(ship_id),
            },
    {
        match self.ships.get(&ship_id) {
            Some(s) => Some(s.clone()),
            None => None,
        }
    }

    /// The stored state of a site, if it exists.
    pub fn get_planet(&self, planet_id: PlanetId) -> (res: Option<Planet>)
        ensures
            match res {
                Some(p) => self@.planets.contains_key(planet_id) && p@ == self@.planets[planet_id],
                None => !self@.planets.contains_key(planet_id),
            },
    {
        match self.planets.get(&planet_id) {
            Some(p) => Some(p.clone()),
            None => None,
        }
    }
}

} // verus!
