//! TaylorChat core: the pure, verified logic of a peer-to-peer messenger.

pub mod text;
pub mod order;
pub mod identity;
pub mod crypto;
pub mod notify;
pub mod pairing;
pub mod json;
pub mod storage;
pub mod media;
pub mod db;
pub mod net;
pub mod ratchet;
pub mod dates;
pub mod wire;
pub mod llm;
