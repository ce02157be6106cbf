//! Thread search over a message store: composable author selectors, a
//! public/private partition, and cursor pagination with opaque tokens.

pub mod cursor;
pub mod laws;
pub mod page;
pub mod query;
pub mod store;
