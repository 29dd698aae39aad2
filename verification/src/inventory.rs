//! Resources, stacks and the per-actor inventory.
//!
//! An inventory is an ordered list of stacks with a slot limit. Its model is
//! [`InventoryView`]: the slot limit and the sequence of stacks. The totals that
//! the game reads are sums over that sequence ([`total_of`]).

use vstd::prelude::*;

verus! {

/// Slot limit of an inventory that the simulation creates for a new actor.
pub const DEFAULT_INVENTORY_MAX_SLOTS: u8 = 24;

#[derive(Debug, Clone, Copy, PartialEq, Eq, Structural, Hash, PartialOrd, Ord)]
pub enum ResourceKind {
    IronOre,
    CopperOre,
    Coal,
    Stone,
    IronPlate,
    CopperPlate,
    Gear,
}

#[derive(Debug, Clone, Copy, PartialEq, Eq, Structural)]
pub struct ResourceStack {
    pub resource: ResourceKind,
    pub amount: u32,
}

impl ResourceStack {
    pub fn new(resource: ResourceKind, amount: u32) -> (stack: Self)
        ensures
            stack == (ResourceStack { resource, amount }),
    {
        Self { resource, amount }
    }
}

#[derive(Debug, Clone, Copy, PartialEq, Eq, Structural)]
pub enum InventoryOpError {
    InvalidAmount,
    NoFreeSlot,
    InsufficientResource { resource: ResourceKind, required: u32, available: u32 },
}

#[derive(Debug, Clone, PartialEq, Eq)]
pub struct InventoryState {
    pub max_slots: u8,
    pub stacks: Vec<ResourceStack>,
}

/// The mathematical content of an inventory.
pub struct InventoryView {
    pub max_slots: u8,
    pub stacks: Seq<ResourceStack>,
}

impl View for InventoryState {
    type V = InventoryView;

    open spec fn view(&self) -> InventoryView {
        InventoryView { max_slots: self.max_slots, stacks: self.stacks@ }
    }
}

/// The empty inventory with `max_slots` slots.
pub open spec fn empty_inventory(max_slots: u8) -> InventoryView {
    InventoryView { max_slots, stacks: Seq::empty() }
}

/// What one stack adds to the total of `resource`.
pub open spec fn stack_share(stack: ResourceStack, resource: ResourceKind) -> nat {
    if stack.resource == resource {
        stack.amount as nat
    } else {
        0
    }
}

/// The sum of the amounts of all stacks of `resource`.
pub open spec fn total_of(stacks: Seq<ResourceStack>, resource: ResourceKind) -> nat
    decreases stacks.len(),
{
    if stacks.len() == 0 {
        0
    } else {
        stack_share(stacks[0], resource) + total_of(stacks.drop_first(), resource)
    }
}

/// No two stacks hold the same resource.
pub open spec fn stacks_unique(stacks: Seq<ResourceStack>) -> bool {
    forall|i: int, j: int|
        0 <= i < j < stacks.len() ==> stacks[i].resource != stacks[j].resource
}

/// The index of the first stack of `resource`, or -1 when there is none.
pub open spec fn first_index_of(stacks: Seq<ResourceStack>, resource: ResourceKind) -> int
    decreases stacks.len(),
{
    if stacks.len() == 0 {
        -1
    } else if stacks[0].resource == resource {
        0
    } else {
        let k = first_index_of(stacks.drop_first(), resource);
        if k < 0 {
            -1
        } else {
            k + 1
        }
    }
}

/// Every requirement's resource can be counted without leaving `u32`.
pub open spec fn requirements_countable(
    stacks: Seq<ResourceStack>,
    requirements: Seq<ResourceStack>,
) -> bool {
    forall|i: int|
        0 <= i < requirements.len() ==> total_of(stacks, #[trigger] requirements[i].resource)
            <= u32::MAX
}

/// The inventory holds at least the required amount of every requirement.
pub open spec fn affordable(stacks: Seq<ResourceStack>, requirements: Seq<ResourceStack>) -> bool {
    forall|i: int|
        0 <= i < requirements.len() ==> total_of(stacks, #[trigger] requirements[i].resource)
            >= requirements[i].amount
}

/// The index of the first requirement the inventory cannot cover, or -1.
pub open spec fn first_unaffordable(
    stacks: Seq<ResourceStack>,
    requirements: Seq<ResourceStack>,
) -> int
    decreases requirements.len(),
{
    if requirements.len() == 0 {
        -1
    } else if total_of(stacks, requirements[0].resource) < requirements[0].amount {
        0
    } else {
        let k = first_unaffordable(stacks, requirements.drop_first());
        if k < 0 {
            -1
        } else {
            k + 1
        }
    }
}

/// Adding `amount` of `resource`: merge into the first stack of that resource
/// (saturating at `u32::MAX`), or open a new stack if a slot is free.
pub open spec fn add_spec(inv: InventoryView, resource: ResourceKind, amount: u32) -> (
    InventoryView,
    Result<(), InventoryOpError>,
) {
    if amount == 0 {
        (inv, Err(InventoryOpError::InvalidAmount))
    } else {
        let i = first_index_of(inv.stacks, resource);
        if i >= 0 {
            let merged = ResourceStack {
                resource,
                amount: inv.stacks[i].amount.saturating_add(amount),
            };
            (InventoryView { max_slots: inv.max_slots, stacks: inv.stacks.update(i, merged) }, Ok(()))
        } else if inv.stacks.len() >= inv.max_slots {
            (inv, Err(InventoryOpError::NoFreeSlot))
        } else {
            (
                InventoryView {
                    max_slots: inv.max_slots,
                    stacks: inv.stacks.push(ResourceStack { resource, amount }),
                },
                Ok(()),
            )
        }
    }
}

/// Takes up to `remaining` of `resource` from the stacks of that resource, in order.
pub open spec fn take_amount(stacks: Seq<ResourceStack>, resource: ResourceKind, remaining: nat) -> Seq<
    ResourceStack,
>
    decreases stacks.len(),
{
    if stacks.len() == 0 {
        Seq::empty()
    } else {
        let head = stacks[0];
        let rest = stacks.drop_first();
        if head.resource == resource && remaining > 0 {
            let taken: nat = if (head.amount as nat) < remaining {
                head.amount as nat
            } else {
                remaining
            };
            seq![ResourceStack { resource: head.resource, amount: (head.amount - taken) as u32 }]
                + take_amount(rest, resource, (remaining - taken) as nat)
        } else {
            seq![head] + take_amount(rest, resource, remaining)
        }
    }
}

/// The stacks whose amount is not zero, in order.
pub open spec fn drop_empty(stacks: Seq<ResourceStack>) -> Seq<ResourceStack>
    decreases stacks.len(),
{
    if stacks.len() == 0 {
        Seq::empty()
    } else if stacks[0].amount > 0 {
        seq![stacks[0]] + drop_empty(stacks.drop_first())
    } else {
        drop_empty(stacks.drop_first())
    }
}

/// Removing `amount` of `resource`: refused when the amount is zero or more
/// than the inventory holds; otherwise taken from the stacks in order, and
/// every empty stack is dropped.
pub open spec fn remove_spec(inv: InventoryView, resource: ResourceKind, amount: u32) -> (
    InventoryView,
    Result<(), InventoryOpError>,
) {
    if amount == 0 {
        (inv, Err(InventoryOpError::InvalidAmount))
    } else if total_of(inv.stacks, resource) < amount {
        (
            inv,
            Err(
                InventoryOpError::InsufficientResource {
                    resource,
                    required: amount,
                    available: total_of(inv.stacks, resource) as u32,
                },
            ),
        )
    } else {
        (
            InventoryView {
                max_slots: inv.max_slots,
                stacks: drop_empty(take_amount(inv.stacks, resource, amount as nat)),
            },
            Ok(()),
        )
    }
}

/// Removes each requirement in turn; stops at the first removal that fails.
pub open spec fn remove_all(inv: InventoryView, requirements: Seq<ResourceStack>) -> (
    InventoryView,
    Result<(), InventoryOpError>,
)
    decreases requirements.len(),
{
    if requirements.len() == 0 {
        (inv, Ok(()))
    } else {
        let (next, res) = remove_spec(inv, requirements[0].resource, requirements[0].amount);
        if res is Err {
            (next, res)
        } else {
            remove_all(next, requirements.drop_first())
        }
    }
}

/// Consuming a list of requirements: refused, with the first requirement that
/// cannot be covered, when the inventory cannot afford them all; otherwise the
/// requirements are removed one after another.
pub open spec fn consume_spec(inv: InventoryView, requirements: Seq<ResourceStack>) -> (
    InventoryView,
    Result<(), InventoryOpError>,
) {
    if !affordable(inv.stacks, requirements) {
        let i = first_unaffordable(inv.stacks, requirements);
        (
            inv,
            Err(
                InventoryOpError::InsufficientResource {
                    resource: requirements[i].resource,
                    required: requirements[i].amount,
                    available: total_of(inv.stacks, requirements[i].resource) as u32,
                },
            ),
        )
    } else {
        remove_all(inv, requirements)
    }
}

// ---------------------------------------------------------------------------
// Lemmas about totals and the stack operations.
// ---------------------------------------------------------------------------

pub proof fn lemma_total_skip_step(stacks: Seq<ResourceStack>, resource: ResourceKind, i: int)
    requires
        0 <= i < stacks.len(),
    ensures
        total_of(stacks.skip(i), resource) == stack_share(stacks[i], resource) + total_of(
            stacks.skip(i + 1),
            resource,
        ),
{
    assert(stacks.skip(i).drop_first() =~= stacks.skip(i + 1));
}

pub proof fn lemma_total_append(a: Seq<ResourceStack>, b: Seq<ResourceStack>, resource: ResourceKind)
    ensures
        total_of(a + b, resource) == total_of(a, resource) + total_of(b, resource),
    decreases a.len(),
{
    if a.len() == 0 {
        assert(a + b =~= b);
    } else {
        assert((a + b).drop_first() =~= a.drop_first() + b);
        lemma_total_append(a.drop_first(), b, resource);
    }
}

/// With no two stacks of one resource, every total is the amount of a single stack.
pub proof fn lemma_unique_total_fits(stacks: Seq<ResourceStack>, resource: ResourceKind)
    requires
        stacks_unique(stacks),
    ensures
        total_of(stacks, resource) <= u32::MAX,
        first_index_of(stacks, resource) < 0 ==> total_of(stacks, resource) == 0,
        first_index_of(stacks, resource) >= 0 ==> total_of(stacks, resource)
            == stacks[first_index_of(stacks, resource)].amount,
    decreases stacks.len(),
{
    lemma_first_index_of(stacks, resource);
    if stacks.len() > 0 {
        let rest = stacks.drop_first();
        assert(stacks_unique(rest)) by {
            assert forall|i: int, j: int| 0 <= i < j < rest.len() implies rest[i].resource
                != rest[j].resource by {
                assert(rest[i] == stacks[i + 1]);
                assert(rest[j] == stacks[j + 1]);
            }
        }
        lemma_unique_total_fits(rest, resource);
        lemma_first_index_of(rest, resource);
        if stacks[0].resource == resource {
            let k = first_index_of(rest, resource);
            if k >= 0 {
                assert(stacks[k + 1].resource == resource);
            }
        }
    }
}

/// `first_index_of` finds exactly the first stack of the resource.
pub proof fn lemma_first_index_of(stacks: Seq<ResourceStack>, resource: ResourceKind)
    ensures
        -1 <= first_index_of(stacks, resource) < stacks.len(),
        first_index_of(stacks, resource) < 0 <==> forall|j: int|
            0 <= j < stacks.len() ==> stacks[j].resource != resource,
        first_index_of(stacks, resource) >= 0 ==> stacks[first_index_of(stacks, resource)].resource
            == resource,
        forall|j: int|
            0 <= j < first_index_of(stacks, resource) ==> stacks[j].resource != resource,
    decreases stacks.len(),
{
    if stacks.len() > 0 {
        let rest = stacks.drop_first();
        lemma_first_index_of(rest, resource);
        if stacks[0].resource != resource {
            assert forall|j: int| 1 <= j < stacks.len() implies stacks[j] == rest[j - 1] by {}
            if first_index_of(rest, resource) < 0 {
                assert forall|j: int| 0 <= j < stacks.len() implies stacks[j].resource
                    != resource by {
                    if j > 0 {
                        assert(stacks[j] == rest[j - 1]);
                    }
                }
            }
        }
    }
}

/// Zero-amount stacks contribute nothing, so dropping them keeps every total.
pub proof fn lemma_total_drop_empty(stacks: Seq<ResourceStack>, resource: ResourceKind)
    ensures
        total_of(drop_empty(stacks), resource) == total_of(stacks, resource),
    decreases stacks.len(),
{
    if stacks.len() > 0 {
        lemma_total_drop_empty(stacks.drop_first(), resource);
        if stacks[0].amount > 0 {
            let d = drop_empty(stacks.drop_first());
            assert((seq![stacks[0]] + d).drop_first() =~= d);
        }
    }
}

/// Taking `remaining` removes exactly that much of the resource (when there is
/// enough) and leaves every other resource as it was.
pub proof fn lemma_total_take_amount(
    stacks: Seq<ResourceStack>,
    resource: ResourceKind,
    remaining: nat,
    other: ResourceKind,
)
    ensures
        take_amount(stacks, resource, remaining).len() == stacks.len(),
        forall|i: int|
            0 <= i < stacks.len() ==> (#[trigger] take_amount(stacks, resource, remaining)[i]).resource
                == stacks[i].resource,
        remaining <= total_of(stacks, resource) ==> total_of(
            take_amount(stacks, resource, remaining),
            resource,
        ) == total_of(stacks, resource) - remaining,
        remaining > total_of(stacks, resource) ==> total_of(
            take_amount(stacks, resource, remaining),
            resource,
        ) == 0,
        other != resource ==> total_of(take_amount(stacks, resource, remaining), other) == total_of(
            stacks,
            other,
        ),
    decreases stacks.len(),
{
    if stacks.len() > 0 {
        let head = stacks[0];
        let rest = stacks.drop_first();
        let t = take_amount(stacks, resource, remaining);
        if head.resource == resource && remaining > 0 {
            let taken: nat = if (head.amount as nat) < remaining {
                head.amount as nat
            } else {
                remaining
            };
            let tail = take_amount(rest, resource, (remaining - taken) as nat);
            lemma_total_take_amount(rest, resource, (remaining - taken) as nat, other);
            assert(t.drop_first() =~= tail);
            assert forall|i: int| 0 <= i < stacks.len() implies (#[trigger] t[i]).resource
                == stacks[i].resource by {
                if i > 0 {
                    assert(t[i] == tail[i - 1]);
                }
            }
        } else {
            let tail = take_amount(rest, resource, remaining);
            lemma_total_take_amount(rest, resource, remaining, other);
            assert(t.drop_first() =~= tail);
            assert forall|i: int| 0 <= i < stacks.len() implies (#[trigger] t[i]).resource
                == stacks[i].resource by {
                if i > 0 {
                    assert(t[i] == tail[i - 1]);
                }
            }
        }
    }
}

/// Every stack of `drop_empty(s)` is a stack of `s`, and order is kept, so
/// uniqueness of resources carries over.
pub proof fn lemma_drop_empty_unique(stacks: Seq<ResourceStack>)
    ensures
        forall|i: int|
            0 <= i < drop_empty(stacks).len() ==> exists|j: int|
                0 <= j < stacks.len() && stacks[j] == #[trigger] drop_empty(stacks)[i],
        stacks_unique(stacks) ==> stacks_unique(drop_empty(stacks)),
        drop_empty(stacks).len() <= stacks.len(),
    decreases stacks.len(),
{
    if stacks.len() > 0 {
        let rest = stacks.drop_first();
        lemma_drop_empty_unique(rest);
        let d = drop_empty(rest);
        let full = drop_empty(stacks);
        assert forall|i: int| 0 <= i < d.len() implies exists|j: int|
            0 <= j < stacks.len() && stacks[j] == #[trigger] d[i] by {
            let j = choose|j: int| 0 <= j < rest.len() && rest[j] == d[i];
            assert(stacks[j + 1] == d[i]);
        }
        if stacks[0].amount > 0 {
            assert(full =~= seq![stacks[0]] + d);
            assert forall|i: int| 0 <= i < full.len() implies exists|j: int|
                0 <= j < stacks.len() && stacks[j] == #[trigger] full[i] by {
                if i == 0 {
                    assert(stacks[0] == full[0]);
                } else {
                    assert(full[i] == d[i - 1]);
                }
            }
            if stacks_unique(stacks) {
                assert(stacks_unique(rest)) by {
                    assert forall|i: int, j: int| 0 <= i < j < rest.len() implies rest[i].resource
                        != rest[j].resource by {
                        assert(rest[i] == stacks[i + 1]);
                        assert(rest[j] == stacks[j + 1]);
                    }
                }
                assert forall|i: int, j: int| 0 <= i < j < full.len() implies full[i].resource
                    != full[j].resource by {
                    assert(full[j] == d[j - 1]);
                    let jj = choose|jj: int| 0 <= jj < stacks.len() && stacks[jj] == d[j - 1];
                    if i == 0 {
                        assert(jj != 0) by {
                            if jj == 0 {
                                let k = choose|k: int| 0 <= k < rest.len() && rest[k] == d[j - 1];
                                assert(stacks[k + 1] == d[j - 1]);
                            }
                        }
                    } else {
                        assert(full[i] == d[i - 1]);
                    }
                }
            }
        } else {
            if stacks_unique(stacks) {
                assert(stacks_unique(rest)) by {
                    assert forall|i: int, j: int| 0 <= i < j < rest.len() implies rest[i].resource
                        != rest[j].resource by {
                        assert(rest[i] == stacks[i + 1]);
                        assert(rest[j] == stacks[j + 1]);
                    }
                }
            }
        }
    }
}

/// `first_unaffordable` points at a requirement that cannot be covered exactly
/// when the requirements are not affordable.
pub proof fn lemma_first_unaffordable(stacks: Seq<ResourceStack>, requirements: Seq<ResourceStack>)
    ensures
        -1 <= first_unaffordable(stacks, requirements) < requirements.len(),
        first_unaffordable(stacks, requirements) < 0 <==> affordable(stacks, requirements),
        first_unaffordable(stacks, requirements) >= 0 ==> total_of(
            stacks,
            requirements[first_unaffordable(stacks, requirements)].resource,
        ) < requirements[first_unaffordable(stacks, requirements)].amount,
        forall|j: int|
            0 <= j < first_unaffordable(stacks, requirements) ==> total_of(
                stacks,
                #[trigger] requirements[j].resource,
            ) >= requirements[j].amount,
    decreases requirements.len(),
{
    if requirements.len() > 0 {
        let rest = requirements.drop_first();
        lemma_first_unaffordable(stacks, rest);
        assert forall|j: int| 1 <= j < requirements.len() implies requirements[j] == rest[j - 1] by {}
        if total_of(stacks, requirements[0].resource) >= requirements[0].amount {
            if affordable(stacks, rest) {
                assert forall|j: int| 0 <= j < requirements.len() implies total_of(
                    stacks,
                    #[trigger] requirements[j].resource,
                ) >= requirements[j].amount by {
                    if j > 0 {
                        assert(requirements[j] == rest[j - 1]);
                    }
                }
            } else {
                let k = first_unaffordable(stacks, rest);
                assert(requirements[k + 1] == rest[k]);
            }
        }
    }
}

impl Default for InventoryState {
    fn default() -> (inv: Self)
        ensures
            inv@ == empty_inventory(DEFAULT_INVENTORY_MAX_SLOTS),
    {
        Self { max_slots: DEFAULT_INVENTORY_MAX_SLOTS, stacks: Vec::new() }
    }
}

impl InventoryState {
    pub fn new(max_slots: u8) -> (inv: Self)
        ensures
            inv@ == empty_inventory(max_slots),
    {
        Self { max_slots, stacks: Vec::new() }
    }

    /// The total amount of `resource` over all stacks.
    pub fn count(&self, resource: ResourceKind) -> (n: u32)
        requires
            total_of(self.stacks@, resource) <= u32::MAX,
        ensures
            n == total_of(self.stacks@, resource),
    {
        let mut sum: u32 = 0;
        let mut i: usize = 0;
        proof {
            assert(self.stacks@.skip(0) =~= self.stacks@);
        }
        while i < self.stacks.len()
            invariant
                i <= self.stacks@.len(),
                sum + total_of(self.stacks@.skip(i as int), resource) == total_of(
                    self.stacks@,
                    resource,
                ),
                total_of(self.stacks@, resource) <= u32::MAX,
            decreases self.stacks@.len() - i,
        {
            proof {
                lemma_total_skip_step(self.stacks@, resource, i as int);
            }
            if self.stacks[i].resource == resource {
                sum = sum + self.stacks[i].amount;
            }
            i += 1;
        }
        sum
    }

    /// The total amount of `resource`, in a type wide enough that the sum
    /// cannot overflow, however many stacks hold it.
    fn total(&self, resource: ResourceKind) -> (n: u128)
        ensures
            n == total_of(self.stacks@, resource),
    {
        let mut sum: u128 = 0;
        let mut i: usize = 0;
        proof {
            assert(self.stacks@.skip(0) =~= self.stacks@);
        }
        while i < self.stacks.len()
            invariant
                i <= self.stacks@.len(),
                sum + total_of(self.stacks@.skip(i as int), resource) == total_of(
                    self.stacks@,
                    resource,
                ),
                sum <= i * 0xFFFF_FFFFu128,
            decreases self.stacks@.len() - i,
        {
            proof {
                lemma_total_skip_step(self.stacks@, resource, i as int);
            }
            if self.stacks[i].resource == resource {
                sum = sum + self.stacks[i].amount as u128;
            }
            i += 1;
        }
        sum
    }

    /// Whether the inventory covers every requirement on its own.
    pub fn can_afford(&self, requirements: &[ResourceStack]) -> (ok: bool)
        ensures
            ok == affordable(self.stacks@, requirements@),
    {
        let mut i: usize = 0;
        while i < requirements.len()
            invariant
                i <= requirements@.len(),
                forall|j: int|
                    0 <= j < i ==> total_of(self.stacks@, #[trigger] requirements@[j].resource)
                        >= requirements@[j].amount,
            decreases requirements@.len() - i,
        {
            let requirement = requirements[i];
            if self.total(requirement.resource) < requirement.amount as u128 {
                return false;
            }
            i += 1;
        }
        true
    }

    /// Adds `amount` of `resource` (see [`add_spec`]).
    pub fn add_resource(&mut self, resource: ResourceKind, amount: u32) -> (res: Result<
        (),
        InventoryOpError,
    >)
        ensures
            (final(self)@, res) == add_spec(old(self)@, resource, amount),
    {
        if amount == 0 {
            return Err(InventoryOpError::InvalidAmount);
        }
        let mut i: usize = 0;
        while i < self.stacks.len()
            invariant
                i <= self.stacks@.len(),
                amount > 0,
                self@ == old(self)@,
                forall|j: int| 0 <= j < i ==> self.stacks@[j].resource != resource,
            decreases self.stacks@.len() - i,
        {
            if self.stacks[i].resource == resource {
                proof {
                    lemma_first_index_of(self.stacks@, resource);
                    let f = first_index_of(self.stacks@, resource);
                    assert(f >= 0);
                    if f < i {
                        assert(self.stacks@[f].resource != resource);
                    }
                    if f > i {
                        assert(self.stacks@[i as int].resource != resource);
                    }
                    assert(f == i);
                }
                let mut stack = self.stacks[i];
                stack.amount = stack.amount.saturating_add(amount);
                self.stacks.set(i, stack);
                proof {
                    let merged = ResourceStack {
                        resource,
                        amount: old(self).stacks@[i as int].amount.saturating_add(amount),
                    };
                    assert(self.stacks@ =~= old(self).stacks@.update(i as int, merged));
                }
                return Ok(());
            }
            i += 1;
        }
        proof {
            lemma_first_index_of(self.stacks@, resource);
        }
        if self.stacks.len() >= self.max_slots as usize {
            return Err(InventoryOpError::NoFreeSlot);
        }
        self.stacks.push(ResourceStack::new(resource, amount));
        Ok(())
    }

    /// Removes `amount` of `resource` (see [`remove_spec`]).
    pub fn remove_resource(&mut self, resource: ResourceKind, amount: u32) -> (res: Result<
        (),
        InventoryOpError,
    >)
        ensures
            (final(self)@, res) == remove_spec(old(self)@, resource, amount),
    {
        if amount == 0 {
            return Err(InventoryOpError::InvalidAmount);
        }
        let available = self.total(resource);
        if available < amount as u128 {
            return Err(
                InventoryOpError::InsufficientResource {
                    resource,
                    required: amount,
                    available: available as u32,
                },
            );
        }
        let ghost initial = self.stacks@;
        let mut remaining = amount;
        let mut i: usize = 0;
        proof {
            assert(initial.skip(0) =~= initial);
            assert(self.stacks@.take(0) =~= Seq::<ResourceStack>::empty());
        }
        while i < self.stacks.len()
            invariant
                i <= self.stacks@.len(),
                self.stacks@.len() == initial.len(),
                self.max_slots == old(self).max_slots,
                initial == old(self).stacks@,
                self.stacks@.skip(i as int) =~= initial.skip(i as int),
                take_amount(initial, resource, amount as nat) =~= self.stacks@.take(i as int)
                    + take_amount(initial.skip(i as int), resource, remaining as nat),
            decreases self.stacks@.len() - i,
        {
            let ghost before = self.stacks@;
            let stack = self.stacks[i];
            proof {
                assert(initial.skip(i as int)[0] == initial[i as int]);
                assert(initial.skip(i as int).drop_first() =~= initial.skip(i + 1));
                assert(stack == initial[i as int]);
            }
            if stack.resource == resource && remaining > 0 {
                let to_take = if stack.amount < remaining {
                    stack.amount
                } else {
                    remaining
                };
                self.stacks.set(i, ResourceStack::new(stack.resource, stack.amount - to_take));
                remaining = remaining - to_take;
            }
            proof {
                assert(self.stacks@.take(i + 1) =~= before.take(i as int).push(self.stacks@[i as int]));
                assert(self.stacks@.skip(i + 1) =~= initial.skip(i + 1));
            }
            i += 1;
        }
        proof {
            assert(self.stacks@.take(i as int) =~= self.stacks@);
            assert(initial.skip(i as int) =~= Seq::<ResourceStack>::empty());
            assert(take_amount(initial.skip(i as int), resource, remaining as nat)
                =~= Seq::<ResourceStack>::empty());
        }
        let ghost taken = self.stacks@;
        let mut kept: Vec<ResourceStack> = Vec::new();
        let mut j: usize = 0;
        proof {
            assert(taken.skip(0) =~= taken);
        }
        while j < self.stacks.len()
            invariant
                j <= self.stacks@.len(),
                self.stacks@ == taken,
                drop_empty(taken) =~= kept@ + drop_empty(taken.skip(j as int)),
            decreases self.stacks@.len() - j,
        {
            proof {
                assert(taken.skip(j as int)[0] == taken[j as int]);
                assert(taken.skip(j as int).drop_first() =~= taken.skip(j + 1));
            }
            if self.stacks[j].amount > 0 {
                kept.push(self.stacks[j]);
            }
            j += 1;
        }
        proof {
            assert(taken.skip(j as int) =~= Seq::<ResourceStack>::empty());
        }
        self.stacks = kept;
        Ok(())
    }

    /// Consumes all requirements (see [`consume_spec`]).
    pub fn consume_requirements(&mut self, requirements: &[ResourceStack]) -> (res: Result<
        (),
        InventoryOpError,
    >)
        ensures
            (final(self)@, res) == consume_spec(old(self)@, requirements@),
    {
        if !self.can_afford(requirements) {
            proof {
                lemma_first_unaffordable(self.stacks@, requirements@);
            }
            let mut k: usize = 0;
            while k < requirements.len()
                invariant
                    k <= requirements@.len(),
                    self@ == old(self)@,
                    !affordable(self.stacks@, requirements@),
                    first_unaffordable(self.stacks@, requirements@) >= k,
                decreases requirements@.len() - k,
            {
                proof {
                    lemma_first_unaffordable(self.stacks@, requirements@);
                }
                let missing = requirements[k];
                let have = self.total(missing.resource);
                if have < missing.amount as u128 {
                    return Err(
                        InventoryOpError::InsufficientResource {
                            resource: missing.resource,
                            required: missing.amount,
                            available: have as u32,
                        },
                    );
                }
                k += 1;
            }
            return Err(InventoryOpError::InvalidAmount);
        }
        let ghost start = self@;
        let mut i: usize = 0;
        proof {
            assert(requirements@.skip(0) =~= requirements@);
        }
        while i < requirements.len()
            invariant
                i <= requirements@.len(),
                start == old(self)@,
                affordable(start.stacks, requirements@),
                remove_all(start, requirements@) == remove_all(
                    self@,
                    requirements@.skip(i as int),
                ),
            decreases requirements@.len() - i,
        {
            let requirement = requirements[i];
            let ghost before = self@;
            proof {
                assert(requirements@.skip(i as int).len() > 0);
                assert(requirements@.skip(i as int)[0] == requirement);
                assert(requirements@.skip(i as int).drop_first() =~= requirements@.skip(i + 1));
            }
            match self.remove_resource(requirement.resource, requirement.amount) {
                Ok(()) => {},
                Err(error) => {
                    return Err(error);
                },
            }
            i += 1;
        }
        proof {
            assert(requirements@.skip(i as int) =~= Seq::<ResourceStack>::empty());
        }
        Ok(())
    }
}

} // verus!
