//! Ships: static attributes fixed at spawn, dynamic state (position,
//! energy, health, inventories, order queue) advanced only by settlement.

use vstd::prelude::*;

use crate::grid::{Direction, MAX_X, MAX_Y};
use crate::inventory::{Inventory, InventoryV, ResourceType};
use crate::planets::PlanetId;

verus! {

pub type ShipId = u32;

/// Speed in milli-tiles per block.
pub type Speed = i32;

/// Distance in whole tiles.
pub type Distance = i32;

/// The host's monotonically non-decreasing progress counter.
pub type Block = u32;

/// A tick count a mining operation requires.
pub type Duration = u32;

/// An opaque, comparable identity supplied by the host environment; used
/// only for ownership checks.
#[derive(Debug, PartialEq, Eq, Structural, Clone, Copy)]
pub struct AccountId(pub u64);

/// An instruction for what a ship should do next.
///
/// `Move` carries a direction, a speed in milli-tiles per block and a
/// remaining distance in whole tiles; the distance decreases over time and
/// the order is removed when it reaches zero. `Mine` carries the target
/// site, the resource type and a fixed duration in blocks; the duration
/// never decreases, the engine compares elapsed time against it and
/// completes atomically.
#[derive(Debug, PartialEq, Eq, Clone, Copy)]
pub enum Order {
    Move((Direction, Speed, Distance)),
    Mine((PlanetId, ResourceType, Duration)),
}

/// A ship. The attributes above `position` are immutable after spawn; the
/// rest is dynamic state. Each order queue slot pairs the order with the
/// block at which it became head (`None` for any order behind the head).
#[derive(Debug)]
pub struct Ship {
    pub id: ShipId,
    pub name: String,
    pub owner: AccountId,
    pub max_speed: i32,
    pub max_inventory_size: u32,
    pub max_cargo_size: u32,
    pub max_energy: u32,
    pub max_health: u32,
    pub recharge_rate: u32,
    pub position: (i32, i32),
    pub energy: u32,
    pub health: u32,
    pub inventory: Inventory,
    pub cargo: Inventory,
    pub orders: Vec<(Order, Option<Block>)>,
    pub last_recharge: Block,
}

/// The mathematical model of a ship.
#[verifier::ext_equal]
pub ghost struct ShipV {
    pub id: ShipId,
    pub name: Seq<char>,
    pub owner: AccountId,
    pub max_speed: i32,
    pub max_inventory_size: u32,
    pub max_cargo_size: u32,
    pub max_energy: u32,
    pub max_health: u32,
    pub recharge_rate: u32,
    pub position: (i32, i32),
    pub energy: u32,
    pub health: u32,
    pub inventory: InventoryV,
    pub cargo: InventoryV,
    pub orders: Seq<(Order, Option<Block>)>,
    pub last_recharge: Block,
}

impl View for Ship {
    type V = ShipV;

    open spec fn view(&self) -> ShipV {
        ShipV {
            id: self.id,
            name: self.name@,
            owner: self.owner,
            max_speed: self.max_speed,
            max_inventory_size: self.max_inventory_size,
            max_cargo_size: self.max_cargo_size,
            max_energy: self.max_energy,
            max_health: self.max_health,
            recharge_rate: self.recharge_rate,
            position: self.position,
            energy: self.energy,
            health: self.health,
            inventory: self.inventory@,
            cargo: self.cargo@,
            orders: self.orders@,
            last_recharge: self.last_recharge,
        }
    }
}

/// What order validation guarantees of every queued order: a move's speed
/// lies within the ship's top speed and its distance is positive; a mine's
/// duration is positive.
pub open spec fn order_wf(o: Order, max_speed: i32) -> bool {
    match o {
        Order::Move((direction, speed, distance)) => 0 <= speed <= max_speed && distance >= 1,
        Order::Mine((planet_id, resource_type, duration)) => duration >= 1,
    }
}

impl ShipV {
    /// The ship invariant: energy within capacity, a usable top speed,
    /// position within one grid length of the canonical range, well-formed
    /// inventories, validated orders, and a start tick only on the head
    /// order.
    pub open spec fn wf(self) -> bool {
        &&& self.energy <= self.max_energy
        &&& self.max_speed >= 1
        &&& -MAX_X < self.position.0 < MAX_X
        &&& -MAX_Y < self.position.1 < MAX_Y
        &&& self.inventory.wf()
        &&& self.cargo.wf()
        &&& forall|i: int|
            0 <= i < self.orders.len() ==> order_wf(#[trigger] self.orders[i].0, self.max_speed)
        &&& forall|i: int| 1 <= i < self.orders.len() ==> (#[trigger] self.orders[i]).1 is None
    }

    /// Every tick stored in the ship lies at or before `now`; holds of any
    /// state the engine has produced with a tick at or before `now`, since
    /// the host tick never decreases.
    pub open spec fn settled_by(self, now: Block) -> bool {
        &&& self.last_recharge <= now
        &&& (self.orders.len() > 0 ==> match self.orders[0].1 {
            Some(t) => t <= now,
            None => true,
        })
    }
}

/// An exact copy of an order queue.
fn clone_orders(v: &Vec<(Order, Option<Block>)>) -> (res: Vec<(Order, Option<Block>)>)
    ensures
        res@ == v@,
{
    let mut res: Vec<(Order, Option<Block>)> = Vec::new();
    let mut i: usize = 0;
    while i < v.len()
        invariant
            i <= v@.len(),
            res@ == v@.subrange(0, i as int),
        decreases v@.len() - i,
    {
        res.push(v[i]);
        i = i + 1;
    }
    proof {
        assert(res@ =~= v@);
    }
    res
}

impl Clone for Ship {
    /// A deep copy with the same model.
    fn clone(&self) -> (res: Self)
        ensures
            res@ == self@,
    {
        Ship {
            id: self.id,
            name: self.name.clone(),
            owner: self.owner,
            max_speed: self.max_speed,
            max_inventory_size: self.max_inventory_size,
            max_cargo_size: self.max_cargo_size,
            max_energy: self.max_energy,
            max_health: self.max_health,
            recharge_rate: self.recharge_rate,
            position: self.position,
            energy: self.energy,
            health: self.health,
            inventory: self.inventory.clone(),
            cargo: self.cargo.clone(),
            orders: clone_orders(&self.orders),
            last_recharge: self.last_recharge,
        }
    }
}

} // verus!
