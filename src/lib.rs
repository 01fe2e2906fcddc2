//! A cache that keeps the values of reactive cells across renders and
//! reloads: values are encoded as text and kept in a storage medium under a
//! key, entries write their changes through, and scopes that watch a key are
//! told when another writer changes it.

pub mod hex;
pub mod codec;
pub mod backend;
pub mod entry;
pub mod hub;
pub mod slots;
pub mod identity;
