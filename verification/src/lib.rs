//! Verified core of the personal game service: MessagePack number
//! normalization, character experience progression and the pure rules of
//! the service endpoints.

pub mod error;
pub mod random;
pub mod msgpack;
pub mod http;
pub mod text;
pub mod expod;
pub mod counts;
pub mod gacha;
pub mod mission;
pub mod mail;
pub mod multiplayer;
pub mod mana;
pub mod multi;
pub mod party;
pub mod accounts;
pub mod player;
pub mod profile;
pub mod special_exchange;
pub mod stamina;
pub mod purchase;
