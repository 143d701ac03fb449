//! Matching an item into swap cycles and confirming a cycle.
use vstd::prelude::*;

use crate::error::AppError;
use crate::matcher::{
    all_cycles_sound, cycle_leg, cycle_legs, cycles_in_search_order, found_in, ids_distinct,
    ids_random, is_simple_cycle, listed_walks, trades_distinct, users_distinct, Matcher,
};
use crate::models::{legs_form_cycle, Demand, Item, SwapCycle};
use crate::text::{decimal, json_string, push_decimal, push_json_string, uuid_text, uuid_text_spec};
use crate::ws::WsNotification;

verus! {

/// The most demands a swap cycle may involve.
pub const MAX_CYCLE_LEN: usize = 4;

/// Checks that `requester` may start matching for `item` (absent when no such item is
/// stored): `NotFound` without an item, `Forbidden` when the requester does not own it.
pub fn check_match_request(item: Option<&Item>, requester: u128) -> (r: Result<(), AppError>)
    ensures
        match item {
            None => r matches Err(AppError::NotFound),
            Some(it) => if it.owner_id != requester {
                r matches Err(AppError::Forbidden(m)) && m@ == "无权为他人物品发起匹配"@
            } else {
                r is Ok
            },
        },
{
    match item {
        None => Err(AppError::NotFound),
        Some(it) => {
            if it.owner_id != requester {
                Err(AppError::Forbidden(String::from_str("无权为他人物品发起匹配")))
            } else {
                Ok(())
            }
        },
    }
}

/// The swap cycles among all stored demands, of at most `MAX_CYCLE_LEN` demands; none
/// when fewer than two demands are stored.
pub fn match_cycles(demands: &[Demand]) -> (cycles: Vec<SwapCycle>)
    ensures
        demands@.len() < 2 ==> cycles@.len() == 0,
        all_cycles_sound(demands@, MAX_CYCLE_LEN as int, cycles@),
        forall|k: int| 0 <= k < cycles@.len() ==> legs_form_cycle(#[trigger] cycles@[k].swaps@),
        trades_distinct(cycles@),
        forall|p: Seq<usize>|
            #[trigger] is_simple_cycle(demands@, p, MAX_CYCLE_LEN as int) && users_distinct(
                demands@,
                p,
            ) ==> found_in(cycles@, cycle_legs(demands@, p)),
        cycles_in_search_order(demands@, MAX_CYCLE_LEN as int, cycles@),
        ids_distinct(cycles@),
        ids_random(cycles@),
{
    if demands.len() < 2 {
        proof {
            assert(listed_walks(
                demands@,
                MAX_CYCLE_LEN as int,
                Seq::<SwapCycle>::empty(),
                Seq::<Seq<usize>>::empty(),
            ));
        }
        return Vec::new();
    }
    Matcher::find_cycles(demands, MAX_CYCLE_LEN)
}

/// The outcome of a request by `requester` to match the item `item_id` (absent when no
/// such item is stored) against the stored demands: the cycles found, and the
/// notification to send when there is any. `NotFound` without an item, `Forbidden` when
/// the requester does not own it.
pub fn match_item(item_id: u128, item: Option<&Item>, requester: u128, demands: &[Demand]) -> (r: Result<
    (Vec<SwapCycle>, Option<WsNotification>),
    AppError,
>)
    ensures
        item is None ==> r matches Err(AppError::NotFound),
        item matches Some(it) && it.owner_id != requester ==> (r matches Err(
            AppError::Forbidden(m),
        ) && m@ == "无权为他人物品发起匹配"@),
        item matches Some(it) && it.owner_id == requester ==> (r matches Ok((cycles, note)) && {
            &&& demands@.len() < 2 ==> cycles@.len() == 0
            &&& all_cycles_sound(demands@, MAX_CYCLE_LEN as int, cycles@)
            &&& trades_distinct(cycles@)
            &&& forall|p: Seq<usize>|
                #[trigger] is_simple_cycle(demands@, p, MAX_CYCLE_LEN as int) && users_distinct(
                    demands@,
                    p,
                ) ==> found_in(cycles@, cycle_legs(demands@, p))
            &&& cycles_in_search_order(demands@, MAX_CYCLE_LEN as int, cycles@)
            &&& ids_distinct(cycles@)
            &&& ids_random(cycles@)
            &&& cycles@.len() == 0 ==> note is None
            &&& cycles@.len() > 0 ==> (note matches Some(n) && n.event@ == "match_found"@ && n.data@
                == match_found_data(item_id, cycles@.len() as u64))
        }),
{
    check_match_request(item, requester)?;
    let cycles = match_cycles(demands);
    let note = match_notification(item_id, cycles.len());
    Ok((cycles, note))
}

/// The data of a "match_found" notification: `{"cycles_count": n, "item_id": id}`.
pub open spec fn match_found_data(item_id: u128, count: u64) -> Seq<char> {
    "{"@ + json_string("cycles_count"@) + ":"@ + decimal(count as nat) + ","@ + json_string(
        "item_id"@,
    ) + ":"@ + json_string(uuid_text_spec(item_id)) + "}"@
}

/// The notification that matching an item found `count` cycles; none when it found
/// no cycle.
pub fn match_notification(item_id: u128, count: usize) -> (n: Option<WsNotification>)
    ensures
        count == 0 ==> n is None,
        count > 0 ==> (n matches Some(note) && note.event@ == "match_found"@ && note.data@
            == match_found_data(item_id, count as u64)),
{
    if count == 0 {
        return None;
    }
    let mut data = String::from_str("{");
    push_json_string(&mut data, "cycles_count");
    data.append(":");
    push_decimal(&mut data, count as u64);
    data.append(",");
    push_json_string(&mut data, "item_id");
    data.append(":");
    let id = uuid_text(item_id);
    push_json_string(&mut data, id.as_str());
    data.append("}");
    Some(WsNotification { event: String::from_str("match_found"), data })
}

/// `requester` takes part in the cycle: some leg is theirs.
pub open spec fn takes_part(c: SwapCycle, requester: u128) -> bool {
    exists|i: int| 0 <= i < c.swaps@.len() && #[trigger] c.swaps@[i].from_user_id == requester
}

/// The users that take part in the cycle of a closed walk are exactly the users of its
/// demands: only they may confirm it, and each of them may.
pub proof fn lemma_cycle_participants(demands: Seq<Demand>, p: Seq<usize>, c: SwapCycle, user: u128)
    requires
        c.swaps@ == cycle_legs(demands, p),
    ensures
        takes_part(c, user) <==> exists|k: int|
            0 <= k < p.len() && #[trigger] demands[p[k] as int].user_id == user,
{
    if takes_part(c, user) {
        let i = choose|i: int| 0 <= i < c.swaps@.len() && #[trigger] c.swaps@[i].from_user_id == user;
        assert(c.swaps@[i] == cycle_leg(demands, p, i));
        assert(demands[p[i] as int].user_id == user);
    }
    if exists|k: int| 0 <= k < p.len() && #[trigger] demands[p[k] as int].user_id == user {
        let k = choose|k: int| 0 <= k < p.len() && #[trigger] demands[p[k] as int].user_id == user;
        assert(c.swaps@[k] == cycle_leg(demands, p, k));
        assert(c.swaps@[k].from_user_id == user);
    }
}

/// The position of the first cycle with identifier `id`.
pub open spec fn first_cycle_with_id(cycles: Seq<SwapCycle>, id: u128, k: int) -> bool {
    &&& 0 <= k < cycles.len()
    &&& cycles[k].id == id
    &&& forall|j: int| 0 <= j < k ==> cycles[j].id != id
}

/// Among cycles that carry pairwise different identifiers, as one search finds them,
/// confirming by the identifier of a cycle reaches that very cycle.
pub proof fn lemma_cycle_reached_by_its_id(cycles: Seq<SwapCycle>, k: int)
    requires
        ids_distinct(cycles),
        0 <= k < cycles.len(),
    ensures
        first_cycle_with_id(cycles, cycles[k].id, k),
{
}

/// Checks that `requester` may confirm the cycle `cycle_id` among the stored cycles and
/// gives the items that the confirmation completes: the item offered in each leg, in
/// order. `NotFound` when no cycle has the identifier, `Forbidden` when the requester
/// takes part in none of its legs.
pub fn confirm_swap(cycles: &[SwapCycle], cycle_id: u128, requester: u128) -> (r: Result<Vec<u128>, AppError>)
    ensures
        (forall|k: int| 0 <= k < cycles@.len() ==> cycles@[k].id != cycle_id) ==> r matches Err(
            AppError::NotFound,
        ),
        forall|k: int|
            #[trigger] first_cycle_with_id(cycles@, cycle_id, k) ==> if takes_part(
                cycles@[k],
                requester,
            ) {
                r matches Ok(items) && items@.len() == cycles@[k].swaps@.len() && forall|i: int|
                    0 <= i < items@.len() ==> #[trigger] items@[i]
                        == cycles@[k].swaps@[i].offer_item_id
            } else {
                r matches Err(AppError::Forbidden(m)) && m@ == "只有交换环参与者可以确认"@
            },
{
    let mut k: usize = 0;
    while k < cycles.len()
        invariant
            k <= cycles@.len(),
            forall|j: int| 0 <= j < k ==> cycles@[j].id != cycle_id,
        decreases cycles@.len() - k,
    {
        if cycles[k].id == cycle_id {
            proof {
                assert(first_cycle_with_id(cycles@, cycle_id, k as int));
                assert forall|k2: int| #[trigger] first_cycle_with_id(cycles@, cycle_id, k2) implies k2
                    == k by {
                    if k2 < k {
                    } else if k2 > k {
                        assert(cycles@[k as int].id != cycle_id);
                    }
                }
            }
            let cycle = &cycles[k];
            let n = cycle.swaps.len();
            let mut i: usize = 0;
            let mut part = false;
            while i < n
                invariant
                    n == cycle.swaps@.len(),
                    i <= n,
                    part == exists|j: int| 0 <= j < i && #[trigger] cycle.swaps@[j].from_user_id
                        == requester,
                decreases n - i,
            {
                if cycle.swaps[i].from_user_id == requester {
                    part = true;
                }
                i = i + 1;
            }
            if !part {
                return Err(AppError::Forbidden(String::from_str("只有交换环参与者可以确认")));
            }
            let mut items: Vec<u128> = Vec::new();
            let mut i: usize = 0;
            while i < n
                invariant
                    n == cycle.swaps@.len(),
                    i <= n,
                    items@.len() == i,
                    forall|j: int| 0 <= j < i ==> #[trigger] items@[j] == cycle.swaps@[j].offer_item_id,
                decreases n - i,
            {
                items.push(cycle.swaps[i].offer_item_id);
                i = i + 1;
            }
            return Ok(items);
        }
        k = k + 1;
    }
    Err(AppError::NotFound)
}

/// The data of a "swap_confirmed" notification: `{"cycle_id": id, "items_completed": n}`.
pub open spec fn swap_confirmed_data(cycle_id: u128, count: u64) -> Seq<char> {
    "{"@ + json_string("cycle_id"@) + ":"@ + json_string(uuid_text_spec(cycle_id)) + ","@
        + json_string("items_completed"@) + ":"@ + decimal(count as nat) + "}"@
}

/// The notification that a cycle was confirmed and `count` items completed.
pub fn confirm_notification(cycle_id: u128, count: usize) -> (n: WsNotification)
    ensures
        n.event@ == "swap_confirmed"@,
        n.data@ == swap_confirmed_data(cycle_id, count as u64),
{
    let mut data = String::from_str("{");
    push_json_string(&mut data, "cycle_id");
    data.append(":");
    let id = uuid_text(cycle_id);
    push_json_string(&mut data, id.as_str());
    data.append(",");
    push_json_string(&mut data, "items_completed");
    data.append(":");
    push_decimal(&mut data, count as u64);
    data.append("}");
    WsNotification { event: String::from_str("swap_confirmed"), data }
}

/// The answer to a confirmation:
/// `{"cycle_id": id, "items_completed": n, "status": "confirmed"}`.
pub open spec fn confirm_body(cycle_id: u128, count: u64) -> Seq<char> {
    "{"@ + json_string("cycle_id"@) + ":"@ + json_string(uuid_text_spec(cycle_id)) + ","@
        + json_string("items_completed"@) + ":"@ + decimal(count as nat) + ","@ + json_string(
        "status"@,
    ) + ":"@ + json_string("confirmed"@) + "}"@
}

/// The answer to a confirmation of `count` items.
pub fn confirm_response(cycle_id: u128, count: usize) -> (body: String)
    ensures
        body@ == confirm_body(cycle_id, count as u64),
{
    let mut body = String::from_str("{");
    push_json_string(&mut body, "cycle_id");
    body.append(":");
    let id = uuid_text(cycle_id);
    push_json_string(&mut body, id.as_str());
    body.append(",");
    push_json_string(&mut body, "items_completed");
    body.append(":");
    push_decimal(&mut body, count as u64);
    body.append(",");
    push_json_string(&mut body, "status");
    body.append(":");
    push_json_string(&mut body, "confirmed");
    body.append("}");
    body
}

} // verus!
