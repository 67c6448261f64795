//! Resource sites ("planets"): passive extraction targets with a level
//! that fixes their catalogue of extractable resource types, per-type
//! extraction rates and internal storage capacity, plus an optional owner
//! that gates mining.

use vstd::prelude::*;

use crate::inventory::{Inventory, InventoryV, Item, ResourceType};
use crate::ship::AccountId;

verus! {

pub type PlanetId = u32;

/// The level of a site, fixed at minting.
#[derive(Debug, PartialEq, Eq, Structural, Clone, Copy)]
pub enum PlanetLevel {
    Basic,
    Advanced,
    Fortress,
}

/// A resource site. Level, position and catalogue are immutable after
/// minting; only the owner may change.
#[derive(Debug)]
pub struct Planet {
    id: PlanetId,
    level: PlanetLevel,
    position: (i32, i32),
    owner: Option<AccountId>,
    resources: Vec<ResourceType>,
    mining_rates: Vec<u32>,
    inventory: Inventory,
}

/// The mathematical model of a site.
#[verifier::ext_equal]
pub ghost struct PlanetV {
    pub id: PlanetId,
    pub level: PlanetLevel,
    pub position: (i32, i32),
    pub owner: Option<AccountId>,
    pub resources: Seq<ResourceType>,
    pub mining_rates: Seq<u32>,
    pub inventory: InventoryV,
}

impl View for Planet {
    type V = PlanetV;

    closed spec fn view(&self) -> PlanetV {
        PlanetV {
            id: self.id,
            level: self.level,
            position: self.position,
            owner: self.owner,
            resources: self.resources@,
            mining_rates: self.mining_rates@,
            inventory: self.inventory@,
        }
    }
}

/// The catalogue of extractable resource types of a level.
pub open spec fn level_resources(level: PlanetLevel) -> Seq<ResourceType> {
    match level {
        PlanetLevel::Basic => seq![ResourceType::Iron],
        PlanetLevel::Advanced => seq![ResourceType::Iron, ResourceType::Copper],
        PlanetLevel::Fortress => seq![
            ResourceType::Iron,
            ResourceType::Copper,
            ResourceType::Silver,
        ],
    }
}

/// The per-type extraction rates of a level, aligned with its catalogue.
pub open spec fn level_rates(level: PlanetLevel) -> Seq<u32> {
    match level {
        PlanetLevel::Basic => seq![1u32],
        PlanetLevel::Advanced => seq![1u32, 1u32],
        PlanetLevel::Fortress => seq![1u32, 1u32, 1u32],
    }
}

/// The internal storage capacity of a level, in slots.
pub open spec fn level_inventory_size(level: PlanetLevel) -> u32 {
    match level {
        PlanetLevel::Basic => 1u32,
        PlanetLevel::Advanced => 3u32,
        PlanetLevel::Fortress => 5u32,
    }
}

/// The model of a freshly minted site: unowned, with the catalogue, rates
/// and empty storage of its level.
pub open spec fn new_planet(id: PlanetId, level: PlanetLevel, position: (i32, i32)) -> PlanetV {
    PlanetV {
        id,
        level,
        position,
        owner: None,
        resources: level_resources(level),
        mining_rates: level_rates(level),
        inventory: InventoryV { items: Seq::<Item>::empty(), max_size: level_inventory_size(level) },
    }
}

impl PlanetV {
    /// The site invariant: catalogue and rates are exactly those of the
    /// level, and the storage respects its capacity.
    pub open spec fn wf(self) -> bool {
        &&& self.resources == level_resources(self.level)
        &&& self.mining_rates == level_rates(self.level)
        &&& self.inventory.wf()
    }
}

/// What scanning the catalogue for a rate returns: the rate aligned with
/// the last matching entry, or the accumulator if none matches from `i`
/// on. Mirrors the scan in `get_mining_rate`, which starts with 0.
pub open spec fn rate_scan(
    resources: Seq<ResourceType>,
    rates: Seq<u32>,
    ty: ResourceType,
    i: int,
    acc: u32,
) -> u32
    decreases resources.len() - i,
{
    if i < 0 || i >= resources.len() {
        acc
    } else {
        rate_scan(
            resources,
            rates,
            ty,
            i + 1,
            if resources[i] == ty {
                rates[i]
            } else {
                acc
            },
        )
    }
}

/// The extraction rate of a site for a type: the rate aligned with the
/// last catalogue entry of that type, or 0 when the catalogue lacks it.
pub open spec fn mining_rate_of(p: PlanetV, ty: ResourceType) -> u32 {
    rate_scan(p.resources, p.mining_rates, ty, 0, 0)
}

/// On a well-formed site the rates align with the catalogue.
pub proof fn lemma_planet_wf_lens(p: PlanetV)
    requires
        p.wf(),
    ensures
        p.mining_rates.len() == p.resources.len(),
{
    match p.level {
        PlanetLevel::Basic => {},
        PlanetLevel::Advanced => {},
        PlanetLevel::Fortress => {},
    }
}

/// On a well-formed site the rate is 1 for a catalogued type and 0 for any
/// other.
pub proof fn lemma_mining_rate_wf(p: PlanetV, ty: ResourceType)
    requires
        p.wf(),
    ensures
        mining_rate_of(p, ty) == if p.resources.contains(ty) {
            1u32
        } else {
            0u32
        },
{
    let res = p.resources;
    let rates = p.mining_rates;
    reveal_with_fuel(rate_scan, 5);
    match p.level {
        PlanetLevel::Basic => {
            if res.contains(ty) {
                let w = choose|j: int| 0 <= j < res.len() && res[j] == ty;
                assert(res[0] == ty);
            } else {
                assert(res[0] != ty);
            }
        },
        PlanetLevel::Advanced => {
            if res.contains(ty) {
                let w = choose|j: int| 0 <= j < res.len() && res[j] == ty;
                assert(res[w] == ty);
            } else {
                assert(res[0] != ty && res[1] != ty);
            }
        },
        PlanetLevel::Fortress => {
            if res.contains(ty) {
                let w = choose|j: int| 0 <= j < res.len() && res[j] == ty;
                assert(res[w] == ty);
            } else {
                assert(res[0] != ty && res[1] != ty && res[2] != ty);
            }
        },
    }
}

impl Clone for Planet {
    /// A deep copy with the same model.
    fn clone(&self) -> (res: Self)
        ensures
            res@ == self@,
    {
        Planet {
            id: self.id,
            level: self.level,
            position: self.position,
            owner: self.owner,
            resources: self.get_resources(),
            mining_rates: self.get_mining_rates(),
            inventory: self.inventory.clone(),
        }
    }
}

impl Planet {
    /// Mints a site of the given level at the given position: unowned,
    /// with the catalogue, rates and empty storage of the level.
    pub fn new(id: PlanetId, level: PlanetLevel, position: (i32, i32)) -> (res: Planet)
        ensures
            res@ == new_planet(id, level, position),
            res@.wf(),
    {
        let resources: Vec<ResourceType> = match level {
            PlanetLevel::Basic => vec![ResourceType::Iron],
            PlanetLevel::Advanced => vec![ResourceType::Iron, ResourceType::Copper],
            PlanetLevel::Fortress => vec![
                ResourceType::Iron,
                ResourceType::Copper,
                ResourceType::Silver,
            ],
        };
        let mining_rates: Vec<u32> = match level {
            PlanetLevel::Basic => vec![1],
            PlanetLevel::Advanced => vec![1, 1],
            PlanetLevel::Fortress => vec![1, 1, 1],
        };
        let inventory_size: u32 = match level {
            PlanetLevel::Basic => 1,
            PlanetLevel::Advanced => 3,
            PlanetLevel::Fortress => 5,
        };
        let res = Planet {
            id,
            level,
            position,
            owner: None,
            resources,
            mining_rates,
            inventory: Inventory::new(inventory_size),
        };
        proof {
            assert(res@.resources =~= level_resources(level));
            assert(res@.mining_rates =~= level_rates(level));
        }
        res
    }

    pub fn get_id(&self) -> (res: PlanetId)
        ensures
            res == self@.id,
    {
        self.id
    }

    pub fn get_level(&self) -> (res: PlanetLevel)
        ensures
            res == self@.level,
    {
        self.level
    }

    pub fn get_position(&self) -> (res: (i32, i32))
        ensures
            res == self@.position,
    {
        self.position
    }

    pub fn get_owner(&self) -> (res: Option<AccountId>)
        ensures
            res == self@.owner,
    {
        self.owner
    }

    /// The catalogue of extractable types, in order.
    pub fn get_resources(&self) -> (res: Vec<ResourceType>)
        ensures
            res@ == self@.resources,
    {
        let mut res: Vec<ResourceType> = Vec::new();
        let mut i: usize = 0;
        while i < self.resources.len()
            invariant
                i <= self.resources@.len(),
                res@ == self.resources@.subrange(0, i as int),
            decreases self.resources@.len() - i,
        {
            res.push(self.resources[i]);
            i = i + 1;
        }
        proof {
            assert(res@ =~= self.resources@);
        }
        res
    }

    /// The per-type extraction rates, aligned with the catalogue.
    pub fn get_mining_rates(&self) -> (res: Vec<u32>)
        ensures
            res@ == self@.mining_rates,
    {
        let mut res: Vec<u32> = Vec::new();
        let mut i: usize = 0;
        while i < self.mining_rates.len()
            invariant
                i <= self.mining_rates@.len(),
                res@ == self.mining_rates@.subrange(0, i as int),
            decreases self.mining_rates@.len() - i,
        {
            res.push(self.mining_rates[i]);
            i = i + 1;
        }
        proof {
            assert(res@ =~= self.mining_rates@);
        }
        res
    }

    pub fn set_owner(&mut self, owner: AccountId)
        ensures
            final(self)@ == (PlanetV { owner: Some(owner), ..old(self)@ }),
    {
        self.owner = Some(owner);
    }

    /// Whether the catalogue includes the type.
    pub fn has_resource(&self, resource_type: &ResourceType) -> (res: bool)
        ensures
            res == self@.resources.contains(*resource_type),
    {
        let mut i: usize = 0;
        while i < self.resources.len()
            invariant
                i <= self.resources@.len(),
                forall|j: int| 0 <= j < i ==> self.resources@[j] != *resource_type,
            decreases self.resources@.len() - i,
        {
            if self.resources[i] == *resource_type {
                return true;
            }
            i = i + 1;
        }
        false
    }

    /// The extraction rate for a type: the rate aligned with the last
    /// matching catalogue entry, 0 when the catalogue lacks the type.
    pub fn get_mining_rate(&self, resource_type: &ResourceType) -> (res: u32)
        requires
            self@.mining_rates.len() == self@.resources.len(),
        ensures
            res == mining_rate_of(self@, *resource_type),
    {
        let mut mining_rate: u32 = 0;
        let mut i: usize = 0;
        while i < self.resources.len()
            invariant
                i <= self.resources@.len(),
                self@.mining_rates.len() == self@.resources.len(),
                mining_rate_of(self@, *resource_type) == rate_scan(
                    self@.resources,
                    self@.mining_rates,
                    *resource_type,
                    i as int,
                    mining_rate,
                ),
            decreases self.resources@.len() - i,
        {
            if self.resources[i] == *resource_type {
                mining_rate = self.mining_rates[i];
            }
            i = i + 1;
        }
        mining_rate
    }
}

} // verus!
