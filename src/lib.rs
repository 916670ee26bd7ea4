//! Kitties: collectible tokens whose genes are bred from two parents, an
//! owner index kept as a linked list per account, a proof-of-existence claim
//! registry, the helpers of a price feed and a single stored number.
pub mod dna;
pub mod linked_item;
pub mod kitties;
pub mod poe;
pub mod price_feed;
pub mod template;
