//! How stored rows are read back into the domain model.
use vstd::prelude::*;

use crate::models::{status_from_name, Item, ItemStatus, SwapCycle, SwapLeg};

verus! {

/// The item that a stored row describes. The value tier is stored as a 16-bit number
/// and read back as its low byte; the status is stored by name, and an unknown name
/// reads as `Idle`.
pub fn item_from_row(
    id: u128,
    owner_id: u128,
    title: String,
    description: String,
    image_url: String,
    tags: Vec<String>,
    value_tier: i16,
    status: &str,
    created_at: i64,
) -> (item: Item)
    ensures
        item.id == id,
        item.owner_id == owner_id,
        item.title == title,
        item.description == description,
        item.image_url == image_url,
        item.tags == tags,
        item.value_tier == value_tier as u8,
        item.status == status_from_name(status@),
        item.created_at == created_at,
{
    Item {
        id,
        owner_id,
        title,
        description,
        image_url,
        tags,
        value_tier: value_tier as u8,
        status: ItemStatus::from_name(status),
        created_at,
    }
}

/// The value tier as it is stored.
pub fn stored_value_tier(value_tier: u8) -> (v: i16)
    ensures
        v == value_tier as int,
{
    value_tier as i16
}

/// A value tier written as a 16-bit number reads back as the same tier.
pub proof fn lemma_value_tier_roundtrip(v: u8)
    ensures
        (v as i16) as u8 == v,
{
}

/// The cycles read back from stored rows, in order: each row holds the cycle's
/// identifier and its decoded data, absent when the data did not decode. Rows whose
/// data did not decode are skipped; the others take the identifier of their row.
pub fn restore_cycles(rows: Vec<(u128, Option<SwapCycle>)>) -> (cycles: Vec<SwapCycle>)
    ensures
        cycles@.len() == restored_count(rows@),
        forall|i: int|
            0 <= i < cycles@.len() ==> #[trigger] restored(rows@)[i] == (
                cycles@[i].id,
                cycles@[i].swaps@,
                cycles@[i].created_at,
            ),
{
    let ghost rows0 = rows@;
    let mut cycles: Vec<SwapCycle> = Vec::new();
    let mut i: usize = 0;
    let n = rows.len();
    let mut rest = rows;
    while i < n
        invariant
            n == rows0.len(),
            rest@ == rows0.subrange(i as int, n as int),
            i <= n,
            cycles@.len() == restored(rows0.subrange(0, i as int)).len(),
            forall|k: int|
                0 <= k < cycles@.len() ==> #[trigger] restored(rows0.subrange(0, i as int))[k] == (
                    cycles@[k].id,
                    cycles@[k].swaps@,
                    cycles@[k].created_at,
                ),
        decreases n - i,
    {
        let (id, data) = rest.remove(0);
        proof {
            assert(rest@ =~= rows0.subrange(i + 1, n as int));
        }
        let ghost before = cycles@;
        proof {
            let sub = rows0.subrange(0, i + 1);
            assert(sub.drop_last() =~= rows0.subrange(0, i as int));
            assert(sub.last() == rows0[i as int]);
        }
        match data {
            Some(c) => {
                let mut cycle = c;
                cycle.id = id;
                cycles.push(cycle);
            },
            None => {},
        }
        proof {
            let sub = rows0.subrange(0, i + 1);
            assert forall|k: int| 0 <= k < cycles@.len() implies #[trigger] restored(sub)[k] == (
                cycles@[k].id,
                cycles@[k].swaps@,
                cycles@[k].created_at,
            ) by {
                if k < before.len() {
                    assert(cycles@[k] == before[k]);
                }
            }
        }
        i = i + 1;
    }
    proof {
        assert(rows0.subrange(0, n as int) =~= rows0);
    }
    cycles
}

/// The (identifier, swaps, creation time) of the cycles that rows decode to, in order.
pub open spec fn restored(rows: Seq<(u128, Option<SwapCycle>)>) -> Seq<(u128, Seq<SwapLeg>, i64)>
    decreases rows.len(),
{
    if rows.len() == 0 {
        Seq::empty()
    } else {
        let rest = restored(rows.drop_last());
        match rows.last().1 {
            Some(c) => rest.push((rows.last().0, c.swaps@, c.created_at)),
            None => rest,
        }
    }
}

/// How many rows decode to a cycle.
pub open spec fn restored_count(rows: Seq<(u128, Option<SwapCycle>)>) -> nat {
    restored(rows).len()
}

} // verus!
