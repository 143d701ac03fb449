//! The rules of the HTTP handlers: what each request is checked against and what it
//! produces. Storage, the network and the runtime stay with the caller.

pub mod ai;
pub mod auth_handler;
pub mod blockchain_handler;
pub mod cycles;
pub mod demands;
pub mod items;
pub mod upload;
