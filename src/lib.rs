//! Double-ended lists kept in a key-value store: the record envelope, the
//! order-preserving encoding of slot indices, and the list metadata that maps
//! logical positions to storage keys.
pub mod error;
pub mod index;
pub mod meta;
pub mod record;
