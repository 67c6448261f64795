//! A bounded, order-preserving container of items with automatic same-type
//! resource stacking up to a fixed cap of 64 units per stack.
//!
//! Capacity is checked before any merge is considered: an inventory whose
//! slot count has reached `max_size` rejects every item, even one that
//! would have merged into an existing stack. This ordering is deliberate
//! and load-bearing.

use vstd::prelude::*;

verus! {

pub type ItemId = u32;

/// A resource stack never holds more than this many units after stacking.
pub const MAX_STACK_SIZE: u32 = 64;

/// The closed set of extractable resource kinds; equality is by tag only.
#[derive(Debug, PartialEq, Eq, Structural, Clone, Copy)]
pub enum ResourceType {
    Iron,
    Copper,
    Silver,
    Gold,
    Uranium,
}

/// A weapon: atomic (non-stackable), identified by its id.
#[derive(Debug, PartialEq, Eq, Structural, Clone, Copy)]
pub struct Weapon {
    pub id: ItemId,
    pub damage: u32,
    pub range: u32,
    pub energy_cost: u32,
}

/// An armor: atomic (non-stackable), identified by its id.
#[derive(Debug, PartialEq, Eq, Structural, Clone, Copy)]
pub struct Armor {
    pub id: ItemId,
    pub defense: u32,
}

/// A stack of a single resource type; the stack itself is the identity.
#[derive(Debug, PartialEq, Eq, Structural, Clone, Copy)]
pub struct Resource {
    pub id: ItemId,
    pub resource_type: ResourceType,
    pub quantity: u32,
}

/// An inventory slot: a weapon, an armor, or a resource stack.
#[derive(Debug, PartialEq, Eq, Structural, Clone, Copy)]
pub enum Item {
    Weapon(Weapon),
    Armor(Armor),
    Resource(Resource),
}

/// Inventory failure: the slot count has reached `max_size`.
#[derive(Debug, PartialEq, Eq)]
pub enum Error {
    InventoryFull,
}

/// An ordered sequence of items plus a slot capacity, counted in stacks,
/// not units.
#[derive(Debug, PartialEq, Eq)]
pub struct Inventory {
    pub items: Vec<Item>,
    pub max_size: u32,
}

/// The mathematical model of an inventory: its slots in order, and its
/// slot capacity.
#[verifier::ext_equal]
pub ghost struct InventoryV {
    pub items: Seq<Item>,
    pub max_size: u32,
}

impl View for Inventory {
    type V = InventoryV;

    open spec fn view(&self) -> InventoryV {
        InventoryV { items: self.items@, max_size: self.max_size }
    }
}

impl InventoryV {
    /// The slot count never exceeds the capacity.
    pub open spec fn wf(self) -> bool {
        self.items.len() <= self.max_size
    }
}

impl Item {
    /// The id of the item: the unique id of a weapon or an armor, the
    /// opaque id carried by a resource stack.
    pub open spec fn spec_id(&self) -> ItemId {
        match self {
            Item::Weapon(weapon) => weapon.id,
            Item::Armor(armor) => armor.id,
            Item::Resource(resource) => resource.id,
        }
    }

    #[verifier::when_used_as_spec(spec_id)]
    pub fn id(&self) -> (res: ItemId)
        ensures
            res == self.spec_id(),
    {
        match self {
            Item::Weapon(weapon) => weapon.id,
            Item::Armor(armor) => armor.id,
            Item::Resource(resource) => resource.id,
        }
    }
}

impl Resource {
    /// A fresh resource stack; the id of a stack carries no identity and
    /// starts at zero.
    pub fn new(resource_type: ResourceType, quantity: u32) -> (res: Resource)
        ensures
            res == (Resource { id: 0, resource_type, quantity }),
    {
        Resource { id: 0, resource_type, quantity }
    }
}

/// The units of resource `ty` held in slots `i` and later.
pub open spec fn type_total_from(items: Seq<Item>, i: int, ty: ResourceType) -> int
    decreases items.len() - i,
{
    if i < 0 || i >= items.len() {
        0
    } else {
        (match items[i] {
            Item::Resource(r) => if r.resource_type == ty {
                r.quantity as int
            } else {
                0
            },
            _ => 0,
        }) + type_total_from(items, i + 1, ty)
    }
}

/// The units of resource `ty` held anywhere in `items`.
pub open spec fn type_total(items: Seq<Item>, ty: ResourceType) -> int {
    type_total_from(items, 0, ty)
}

/// The slots that result from inserting a resource stack `(id, ty, q)`
/// into `items`, scanning from slot `i` on: the first same-type stack
/// found absorbs the quantity; whatever exceeds the cap of 64 is clamped
/// off and continues scanning as the remainder; a remainder that finds no
/// further stack is appended as a new slot.
pub open spec fn stacked_from(items: Seq<Item>, i: int, id: ItemId, ty: ResourceType, q: u32) -> Seq<
    Item,
>
    decreases items.len() - i,
{
    if i < 0 || i >= items.len() {
        items.push(Item::Resource(Resource { id, resource_type: ty, quantity: q }))
    } else {
        match items[i] {
            Item::Resource(r) => if r.resource_type == ty {
                if r.quantity + q > MAX_STACK_SIZE {
                    stacked_from(
                        items.update(i, Item::Resource(Resource { quantity: MAX_STACK_SIZE, ..r })),
                        i + 1,
                        id,
                        ty,
                        (r.quantity + q - MAX_STACK_SIZE) as u32,
                    )
                } else {
                    items.update(
                        i,
                        Item::Resource(Resource { quantity: (r.quantity + q) as u32, ..r }),
                    )
                }
            } else {
                stacked_from(items, i + 1, id, ty, q)
            },
            _ => stacked_from(items, i + 1, id, ty, q),
        }
    }
}

/// What `add_item` does: rejection when the inventory is already at
/// capacity (before any merge is considered), stacking for a resource,
/// a plain append for anything else.
pub open spec fn add_item_spec(inv: InventoryV, item: Item) -> Result<InventoryV, Error> {
    if inv.items.len() >= inv.max_size {
        Err(Error::InventoryFull)
    } else {
        match item {
            Item::Resource(r) => Ok(
                InventoryV {
                    items: stacked_from(inv.items, 0, r.id, r.resource_type, r.quantity),
                    ..inv
                },
            ),
            _ => Ok(InventoryV { items: inv.items.push(item), ..inv }),
        }
    }
}

/// Machine bound under which `add_item` is free of arithmetic overflow:
/// for a resource, the incoming quantity plus every unit of the same type
/// already held must fit in the quantity field.
pub open spec fn add_item_fits(inv: InventoryV, item: Item) -> bool {
    match item {
        Item::Resource(r) => r.quantity + type_total(inv.items, r.resource_type) <= u32::MAX,
        _ => true,
    }
}

impl Inventory {
    /// An empty inventory with the given slot capacity.
    pub fn new(max_size: u32) -> (inv: Inventory)
        ensures
            inv@ == (InventoryV { items: Seq::<Item>::empty(), max_size }),
            inv@.wf(),
    {
        let inv = Inventory { items: Vec::new(), max_size };
        proof {
            assert(inv@.items =~= Seq::<Item>::empty());
        }
        inv
    }

    /// Adds `item`, stacking a resource into existing same-type stacks up
    /// to 64 units each; fails with `InventoryFull` exactly when the slot
    /// count has already reached `max_size`, merge or no merge.
    pub fn add_item(&mut self, item: Item) -> (res: Result<(), Error>)
        requires
            add_item_fits(old(self)@, item),
        ensures
            match add_item_spec(old(self)@, item) {
                Ok(v) => res == Ok::<(), Error>(()) && final(self)@ == v,
                Err(_) => res == Err::<(), Error>(Error::InventoryFull) && final(self)@ == old(
                    self,
                )@,
            },
    {
        if self.items.len() >= self.max_size as usize {
            return Err(Error::InventoryFull);
        }
        match item {
            Item::Resource(resource) => {
                let id = resource.id;
                let ty = resource.resource_type;
                let mut q: u32 = resource.quantity;
                let mut i: usize = 0;
                let mut found = false;
                let ghost orig = self.items@;
                let ghost max_size = self.max_size;
                while i < self.items.len() && !found
                    invariant
                        i <= self.items@.len(),
                        self.items@.len() == orig.len(),
                        self.max_size == max_size,
                        q + type_total_from(self.items@, i as int, ty) <= u32::MAX,
                        if found {
                            self.items@ == stacked_from(orig, 0, id, ty, resource.quantity)
                        } else {
                            stacked_from(self.items@, i as int, id, ty, q) == stacked_from(
                                orig,
                                0,
                                id,
                                ty,
                                resource.quantity,
                            )
                        },
                    decreases self.items@.len() - i,
                {
                    let ghost pre = self.items@;
                    let slot = self.items[i];
                    match slot {
                        Item::Resource(r) => {
                            if r.resource_type == ty {
                                proof {
                                    lemma_type_total_from_nonneg(pre, i as int + 1, ty);
                                }
                                let total: u64 = r.quantity as u64 + q as u64;
                                if total > MAX_STACK_SIZE as u64 {
                                    self.items[i] = Item::Resource(
                                        Resource {
                                            id: r.id,
                                            resource_type: r.resource_type,
                                            quantity: MAX_STACK_SIZE,
                                        },
                                    );
                                    q = (total - MAX_STACK_SIZE as u64) as u32;
                                } else {
                                    self.items[i] = Item::Resource(
                                        Resource {
                                            id: r.id,
                                            resource_type: r.resource_type,
                                            quantity: total as u32,
                                        },
                                    );
                                    found = true;
                                }
                                proof {
                                    lemma_type_total_from_update_before(
                                        pre,
                                        self.items@,
                                        i as int + 1,
                                        ty,
                                    );
                                }
                            }
                        },
                        _ => {},
                    }
                    i = i + 1;
                }
                if !found {
                    self.items.push(Item::Resource(Resource { id, resource_type: ty, quantity: q }));
                }
                Ok(())
            },
            _ => {
                self.items.push(item);
                Ok(())
            },
        }
    }
}

/// An exact copy of a slot sequence.
fn clone_items(v: &Vec<Item>) -> (res: Vec<Item>)
    ensures
        res@ == v@,
{
    let mut res: Vec<Item> = Vec::new();
    let mut i: usize = 0;
    while i < v.len()
        invariant
            i <= v@.len(),
            res@ == v@.subrange(0, i as int),
        decreases v@.len() - i,
    {
        res.push(v[i]);
        i = i + 1;
    }
    proof {
        assert(res@ =~= v@);
    }
    res
}

impl Clone for Inventory {
    /// A deep copy with the same model.
    fn clone(&self) -> (res: Self)
        ensures
            res@ == self@,
    {
        Inventory { items: clone_items(&self.items), max_size: self.max_size }
    }
}

/// A type's unit total over a suffix is never negative.
proof fn lemma_type_total_from_nonneg(items: Seq<Item>, i: int, ty: ResourceType)
    ensures
        type_total_from(items, i, ty) >= 0,
    decreases items.len() - i,
{
    if 0 <= i < items.len() {
        lemma_type_total_from_nonneg(items, i + 1, ty);
    }
}

/// Updating a slot below `i` leaves a type's unit total from `i` on
/// unchanged, as long as lengths agree.
proof fn lemma_type_total_from_update_before(a: Seq<Item>, b: Seq<Item>, i: int, ty: ResourceType)
    requires
        a.len() == b.len(),
        forall|k: int| i <= k < a.len() ==> a[k] == b[k],
    ensures
        type_total_from(a, i, ty) == type_total_from(b, i, ty),
    decreases a.len() - i,
{
    if 0 <= i < a.len() {
        lemma_type_total_from_update_before(a, b, i + 1, ty);
    }
}

/// Every resource stack among `items` holds at most `cap` units.
pub open spec fn all_stacks_at_most(items: Seq<Item>, cap: int) -> bool {
    forall|i: int|
        0 <= i < items.len() ==> (#[trigger] items[i] matches Item::Resource(r) ==> r.quantity
            <= cap)
}

/// Stacking a quantity of at most one full stack into slots whose stacks
/// all respect the cap yields slots whose stacks all respect the cap.
proof fn lemma_stacked_from_cap(items: Seq<Item>, i: int, id: ItemId, ty: ResourceType, q: u32)
    requires
        all_stacks_at_most(items, MAX_STACK_SIZE as int),
        q <= MAX_STACK_SIZE,
    ensures
        all_stacks_at_most(stacked_from(items, i, id, ty, q), MAX_STACK_SIZE as int),
    decreases items.len() - i,
{
    if i < 0 || i >= items.len() {
        assert(all_stacks_at_most(
            items.push(Item::Resource(Resource { id, resource_type: ty, quantity: q })),
            MAX_STACK_SIZE as int,
        ));
    } else {
        match items[i] {
            Item::Resource(r) => {
                if r.resource_type == ty {
                    if r.quantity + q > MAX_STACK_SIZE {
                        let updated = items.update(
                            i,
                            Item::Resource(Resource { quantity: MAX_STACK_SIZE, ..r }),
                        );
                        assert(all_stacks_at_most(updated, MAX_STACK_SIZE as int));
                        lemma_stacked_from_cap(
                            updated,
                            i + 1,
                            id,
                            ty,
                            (r.quantity + q - MAX_STACK_SIZE) as u32,
                        );
                    } else {
                        let updated = items.update(
                            i,
                            Item::Resource(Resource { quantity: (r.quantity + q) as u32, ..r }),
                        );
                        assert(all_stacks_at_most(updated, MAX_STACK_SIZE as int));
                    }
                } else {
                    lemma_stacked_from_cap(items, i + 1, id, ty, q);
                }
            },
            _ => {
                lemma_stacked_from_cap(items, i + 1, id, ty, q);
            },
        }
    }
}

/// Stacking cap: after any sequence of `add_item` calls whose resource
/// quantities are at most one full stack, every resulting stack holds at
/// most 64 units. This is the inductive step: one call preserves the
/// bound, whatever the item.
pub proof fn lemma_add_item_stack_cap(inv: InventoryV, item: Item)
    requires
        all_stacks_at_most(inv.items, MAX_STACK_SIZE as int),
        item matches Item::Resource(r) ==> r.quantity <= MAX_STACK_SIZE,
    ensures
        match add_item_spec(inv, item) {
            Ok(v) => all_stacks_at_most(v.items, MAX_STACK_SIZE as int),
            Err(_) => true,
        },
{
    if inv.items.len() < inv.max_size {
        match item {
            Item::Resource(r) => {
                lemma_stacked_from_cap(inv.items, 0, r.id, r.resource_type, r.quantity);
            },
            _ => {
                assert(all_stacks_at_most(inv.items.push(item), MAX_STACK_SIZE as int));
            },
        }
    }
}

/// Capacity enforcement: adding to an inventory whose slot count has
/// reached its capacity always fails with `InventoryFull`, even when the
/// item would have merged into an existing stack.
pub proof fn lemma_add_item_full(inv: InventoryV, item: Item)
    requires
        inv.items.len() >= inv.max_size,
    ensures
        add_item_spec(inv, item) == Err::<InventoryV, Error>(Error::InventoryFull),
{
}

/// Stacking adds at most one slot, and never removes one.
proof fn lemma_stacked_from_len(items: Seq<Item>, i: int, id: ItemId, ty: ResourceType, q: u32)
    ensures
        items.len() <= stacked_from(items, i, id, ty, q).len() <= items.len() + 1,
    decreases items.len() - i,
{
    if i < 0 || i >= items.len() {
    } else {
        match items[i] {
            Item::Resource(r) => {
                if r.resource_type == ty {
                    if r.quantity + q > MAX_STACK_SIZE {
                        lemma_stacked_from_len(
                            items.update(
                                i,
                                Item::Resource(Resource { quantity: MAX_STACK_SIZE, ..r }),
                            ),
                            i + 1,
                            id,
                            ty,
                            (r.quantity + q - MAX_STACK_SIZE) as u32,
                        );
                    }
                } else {
                    lemma_stacked_from_len(items, i + 1, id, ty, q);
                }
            },
            _ => {
                lemma_stacked_from_len(items, i + 1, id, ty, q);
            },
        }
    }
}

/// A well-formed inventory stays well formed across a successful add.
pub proof fn lemma_add_item_wf(inv: InventoryV, item: Item)
    requires
        inv.wf(),
    ensures
        match add_item_spec(inv, item) {
            Ok(v) => v.wf() && v.max_size == inv.max_size,
            Err(_) => true,
        },
{
    if inv.items.len() < inv.max_size {
        match item {
            Item::Resource(r) => {
                lemma_stacked_from_len(inv.items, 0, r.id, r.resource_type, r.quantity);
            },
            _ => {},
        }
    }
}

} // verus!
