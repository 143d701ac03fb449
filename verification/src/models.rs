//! Domain model of the barter platform: items, demands, swap cycles and users.
//!
//! Identifiers are 128-bit values (the numeric form of a UUID) and timestamps are
//! microseconds since the UNIX epoch.
use vstd::prelude::*;

use crate::text::str_eq;

verus! {

/// Lifecycle of an item offered for barter.
#[derive(Debug, Clone, Copy, PartialEq, Eq, Structural)]
pub enum ItemStatus {
    Idle,
    Matching,
    Completed,
    Archived,
}

/// Whether the lifecycle allows moving from `from` to `to`: an idle item may start
/// matching, a matching item may complete or fall back to idle, and a completed item
/// may be archived. An archived item stays archived.
pub open spec fn transition_allowed(from: ItemStatus, to: ItemStatus) -> bool {
    ||| (from == ItemStatus::Idle && to == ItemStatus::Matching)
    ||| (from == ItemStatus::Matching && to == ItemStatus::Completed)
    ||| (from == ItemStatus::Matching && to == ItemStatus::Idle)
    ||| (from == ItemStatus::Completed && to == ItemStatus::Archived)
}

/// The next statuses that are offered to a user for a given status.
pub open spec fn offered_transitions(s: ItemStatus) -> Seq<ItemStatus> {
    match s {
        ItemStatus::Idle => seq![ItemStatus::Matching],
        ItemStatus::Matching => seq![ItemStatus::Completed, ItemStatus::Idle],
        ItemStatus::Completed => seq![ItemStatus::Archived],
        ItemStatus::Archived => seq![],
    }
}

/// The textual name of a status, as it is stored.
pub open spec fn status_name(s: ItemStatus) -> Seq<char> {
    match s {
        ItemStatus::Idle => "Idle"@,
        ItemStatus::Matching => "Matching"@,
        ItemStatus::Completed => "Completed"@,
        ItemStatus::Archived => "Archived"@,
    }
}

/// The status a stored name denotes; any unknown name denotes `Idle`.
pub open spec fn status_from_name(name: Seq<char>) -> ItemStatus {
    if name == "Matching"@ {
        ItemStatus::Matching
    } else if name == "Completed"@ {
        ItemStatus::Completed
    } else if name == "Archived"@ {
        ItemStatus::Archived
    } else {
        ItemStatus::Idle
    }
}

impl ItemStatus {
    /// Checks whether the status may change to `target`.
    pub fn can_transition_to(&self, target: &ItemStatus) -> (ok: bool)
        ensures
            ok == transition_allowed(*self, *target),
    {
        match (self, target) {
            (ItemStatus::Idle, ItemStatus::Matching) => true,
            (ItemStatus::Matching, ItemStatus::Completed) => true,
            (ItemStatus::Matching, ItemStatus::Idle) => true,
            (ItemStatus::Completed, ItemStatus::Archived) => true,
            _ => false,
        }
    }

    /// The next statuses offered for this status.
    pub fn available_transitions(&self) -> (v: Vec<ItemStatus>)
        ensures
            v@ == offered_transitions(*self),
    {
        match self {
            ItemStatus::Idle => vec![ItemStatus::Matching],
            ItemStatus::Matching => vec![ItemStatus::Completed, ItemStatus::Idle],
            ItemStatus::Completed => vec![ItemStatus::Archived],
            ItemStatus::Archived => vec![],
        }
    }

    /// The name under which the status is stored.
    pub fn name(&self) -> (s: &'static str)
        ensures
            s@ == status_name(*self),
    {
        match self {
            ItemStatus::Idle => "Idle",
            ItemStatus::Matching => "Matching",
            ItemStatus::Completed => "Completed",
            ItemStatus::Archived => "Archived",
        }
    }

    /// Reads a stored status name back; unknown names read as `Idle`.
    pub fn from_name(name: &str) -> (s: ItemStatus)
        ensures
            s == status_from_name(name@),
    {
        if str_eq(name, "Matching") {
            ItemStatus::Matching
        } else if str_eq(name, "Completed") {
            ItemStatus::Completed
        } else if str_eq(name, "Archived") {
            ItemStatus::Archived
        } else {
            ItemStatus::Idle
        }
    }
}

/// The allowed transitions are exactly the next steps offered for a status.
pub proof fn lemma_offered_transitions_allowed(from: ItemStatus, to: ItemStatus)
    ensures
        transition_allowed(from, to) <==> offered_transitions(from).contains(to),
{
    if transition_allowed(from, to) {
        assert(offered_transitions(from)[if from == ItemStatus::Matching && to == ItemStatus::Idle {
            1int
        } else {
            0int
        }] == to);
    }
}

/// Only a completed item may be archived, and an archived item changes no more.
pub proof fn lemma_archived_is_final(s: ItemStatus)
    ensures
        transition_allowed(s, ItemStatus::Archived) <==> s == ItemStatus::Completed,
        !transition_allowed(ItemStatus::Archived, s),
{
}

/// A status that is stored under its name reads back as the same status.
pub proof fn lemma_status_name_roundtrip(s: ItemStatus)
    ensures
        status_from_name(status_name(s)) == s,
{
    reveal_strlit("Idle");
    reveal_strlit("Matching");
    reveal_strlit("Completed");
    reveal_strlit("Archived");
    assert("Idle"@.len() == 4 && "Matching"@.len() == 8);
    assert("Completed"@.len() == 9 && "Archived"@.len() == 8);
    assert("Matching"@[0] != "Archived"@[0]);
}

/// An item offered for barter.
#[derive(Debug, Clone)]
pub struct Item {
    pub id: u128,
    pub owner_id: u128,
    pub title: String,
    pub description: String,
    pub image_url: String,
    pub tags: Vec<String>,
    pub value_tier: u8,
    pub status: ItemStatus,
    pub created_at: i64,
}

/// An intention to trade: the user offers one item (described by `offer_tags`) and
/// wants an item described by `target_tags`.
#[derive(Debug, Clone)]
pub struct Demand {
    pub id: u128,
    pub user_id: u128,
    pub offer_item_id: u128,
    pub offer_tags: Vec<String>,
    pub target_tags: Vec<String>,
    pub created_at: i64,
}

/// One leg of a swap: `from_user_id` hands `offer_item_id` to `to_user_id` and
/// receives `want_item_id`.
#[derive(Debug, Clone, Copy, PartialEq, Eq, Structural)]
pub struct SwapLeg {
    pub from_user_id: u128,
    pub to_user_id: u128,
    pub offer_item_id: u128,
    pub want_item_id: u128,
}

/// A closed chain of swaps: A gives to B, B gives to C, C gives to A.
#[derive(Debug, Clone)]
pub struct SwapCycle {
    pub id: u128,
    pub swaps: Vec<SwapLeg>,
    pub created_at: i64,
}

/// A registered user.
#[derive(Debug, Clone)]
pub struct User {
    pub id: u128,
    pub username: String,
    pub password_hash: String,
    pub created_at: i64,
}

/// The position after `i` on a ring of `n` positions.
pub open spec fn ring_next(i: int, n: int) -> int {
    if i + 1 == n {
        0
    } else {
        i + 1
    }
}

/// The position before `i` on a ring of `n` positions.
pub open spec fn ring_prev(i: int, n: int) -> int {
    if i == 0 {
        n - 1
    } else {
        i - 1
    }
}

/// The legs close into a ring: at least two legs, and each leg hands its item to the
/// user of the following leg (the last one to the user of the first).
pub open spec fn legs_form_cycle(swaps: Seq<SwapLeg>) -> bool {
    &&& swaps.len() >= 2
    &&& forall|i: int|
        0 <= i < swaps.len() ==> #[trigger] swaps[i].to_user_id == swaps[ring_next(
            i,
            swaps.len() as int,
        )].from_user_id
}

impl SwapCycle {
    /// Checks that the swaps close into a ring of at least two legs.
    pub fn is_valid(&self) -> (ok: bool)
        ensures
            ok == legs_form_cycle(self.swaps@),
    {
        let n = self.swaps.len();
        if n < 2 {
            return false;
        }
        let mut i: usize = 0;
        while i < n
            invariant
                n == self.swaps@.len(),
                n >= 2,
                i <= n,
                forall|k: int|
                    0 <= k < i ==> #[trigger] self.swaps@[k].to_user_id == self.swaps@[ring_next(
                        k,
                        n as int,
                    )].from_user_id,
            decreases n - i,
        {
            let next: usize = if i + 1 == n {
                0
            } else {
                i + 1
            };
            if self.swaps[i].to_user_id != self.swaps[next].from_user_id {
                assert(!(self.swaps@[i as int].to_user_id == self.swaps@[ring_next(
                    i as int,
                    n as int,
                )].from_user_id));
                return false;
            }
            i = i + 1;
        }
        true
    }
}

} // verus!
