//! Creating demands.
use vstd::prelude::*;

use crate::clock::{is_v4_id, new_id, now_micros};
use crate::error::AppError;
use crate::models::Demand;

verus! {

/// A request to register a demand; the demand belongs to the user who makes it.
#[derive(Debug, Clone)]
pub struct CreateDemandReq {
    pub offer_item_id: u128,
    pub offer_tags: Vec<String>,
    pub target_tags: Vec<String>,
}

/// Checks a request by `user_id` to register a demand and makes the demand of that
/// user, with a fresh identifier and the current time: both tag lists must be
/// non-empty.
pub fn create_demand(req: CreateDemandReq, user_id: u128) -> (r: Result<Demand, AppError>)
    ensures
        req.offer_tags@.len() == 0 ==> (r matches Err(AppError::BadRequest(m)) && m@
            == "offer_tags 不能为空"@),
        req.offer_tags@.len() != 0 && req.target_tags@.len() == 0 ==> (r matches Err(
            AppError::BadRequest(m),
        ) && m@ == "target_tags 不能为空"@),
        req.offer_tags@.len() != 0 && req.target_tags@.len() != 0 ==> (r matches Ok(d)
            && d.user_id == user_id && d.offer_item_id == req.offer_item_id && d.offer_tags
            == req.offer_tags && d.target_tags == req.target_tags && is_v4_id(d.id)),
{
    if req.offer_tags.len() == 0 {
        return Err(AppError::BadRequest(String::from_str("offer_tags 不能为空")));
    }
    if req.target_tags.len() == 0 {
        return Err(AppError::BadRequest(String::from_str("target_tags 不能为空")));
    }
    Ok(
        Demand {
            id: new_id(),
            user_id,
            offer_item_id: req.offer_item_id,
            offer_tags: req.offer_tags,
            target_tags: req.target_tags,
            created_at: now_micros(),
        },
    )
}

} // verus!
