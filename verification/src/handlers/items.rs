//! Creating items and changing their status.
use vstd::prelude::*;

use crate::clock::{is_v4_id, new_id, now_micros};
use crate::error::AppError;
use crate::models::{status_name, transition_allowed, Item, ItemStatus};
use crate::text::{is_blank, is_blank_spec};

verus! {

/// The answer to a health check: `{"name": "木桃 Mutao", "status": "ok"}`.
pub fn health() -> (body: String)
    ensures
        body@ == "{\"name\":\"木桃 Mutao\",\"status\":\"ok\"}"@,
{
    String::from_str("{\"name\":\"木桃 Mutao\",\"status\":\"ok\"}")
}

/// A request to offer a new item.
#[derive(Debug, Clone)]
pub struct CreateItemReq {
    pub title: String,
    pub description: Option<String>,
    pub image_url: Option<String>,
    pub tags: Vec<String>,
    pub value_tier: u8,
}

/// A request to change the status of an item.
#[derive(Debug, Clone, Copy)]
pub struct UpdateStatusReq {
    pub status: ItemStatus,
}

/// Why a request to offer an item is refused, if it is: a blank title, no tags, or a
/// value tier outside 1 to 5, checked in that order.
pub open spec fn create_item_refusal(req: CreateItemReq) -> Option<Seq<char>> {
    if is_blank_spec(req.title@) {
        Some("title 不能为空"@)
    } else if req.tags@.len() == 0 {
        Some("tags 不能为空"@)
    } else if req.value_tier == 0 || req.value_tier > 5 {
        Some("value_tier 必须在 1-5 之间"@)
    } else {
        None
    }
}

/// The text of an optional field, empty when it is absent.
pub open spec fn text_or_empty(s: Option<String>) -> Seq<char> {
    match s {
        Some(t) => t@,
        None => Seq::empty(),
    }
}

/// Checks a request to offer an item and makes the item: idle, owned by `owner_id`,
/// with a fresh random (version 4) identifier and the current time.
pub fn create_item(req: CreateItemReq, owner_id: u128) -> (r: Result<Item, AppError>)
    ensures
        match create_item_refusal(req) {
            Some(m) => r matches Err(AppError::BadRequest(msg)) && msg@ == m,
            None => r matches Ok(item) && item.owner_id == owner_id && item.title == req.title
                && item.description@ == text_or_empty(req.description) && item.image_url@
                == text_or_empty(req.image_url) && item.tags == req.tags && item.value_tier
                == req.value_tier && item.status == ItemStatus::Idle && is_v4_id(item.id),
        },
{
    if is_blank(req.title.as_str()) {
        return Err(AppError::BadRequest(String::from_str("title 不能为空")));
    }
    if req.tags.len() == 0 {
        return Err(AppError::BadRequest(String::from_str("tags 不能为空")));
    }
    if req.value_tier == 0 || req.value_tier > 5 {
        return Err(AppError::BadRequest(String::from_str("value_tier 必须在 1-5 之间")));
    }
    let description = match req.description {
        Some(d) => d,
        None => String::new(),
    };
    let image_url = match req.image_url {
        Some(u) => u,
        None => String::new(),
    };
    Ok(
        Item {
            id: new_id(),
            owner_id,
            title: req.title,
            description,
            image_url,
            tags: req.tags,
            value_tier: req.value_tier,
            status: ItemStatus::Idle,
            created_at: now_micros(),
        },
    )
}

/// The refusal of a status change that the lifecycle does not allow.
pub open spec fn transition_refusal(from: ItemStatus, to: ItemStatus) -> Seq<char> {
    "不能从 "@ + status_name(from) + " 转换到 "@ + status_name(to)
}

/// Checks a request by `requester` to set the status of `item` to `target`, and gives
/// the item with its new status: `NotFound` when there is no such item, `Forbidden`
/// when the requester does not own it, `BadRequest` when the lifecycle does not allow
/// the change.
pub fn update_item_status(item: Option<Item>, requester: u128, target: ItemStatus) -> (r: Result<Item, AppError>)
    ensures
        match item {
            None => r matches Err(AppError::NotFound),
            Some(it) => if it.owner_id != requester {
                r matches Err(AppError::Forbidden(m)) && m@ == "无权修改他人物品"@
            } else if !transition_allowed(it.status, target) {
                r matches Err(AppError::BadRequest(m)) && m@ == transition_refusal(it.status, target)
            } else {
                r == Ok::<Item, AppError>(Item { status: target, ..it })
            },
        },
{
    match item {
        None => Err(AppError::NotFound),
        Some(it) => {
            if it.owner_id != requester {
                return Err(AppError::Forbidden(String::from_str("无权修改他人物品")));
            }
            if !it.status.can_transition_to(&target) {
                let mut m = String::from_str("不能从 ");
                m.append(it.status.name());
                m.append(" 转换到 ");
                m.append(target.name());
                return Err(AppError::BadRequest(m));
            }
            let mut updated = it;
            updated.status = target;
            Ok(updated)
        },
    }
}

} // verus!
