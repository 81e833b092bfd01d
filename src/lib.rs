//! A content-addressed document store: each blob is keyed by the hex form of
//! its SHA3-512 digest, stored beside an encoded metadata record, and listed
//! through a tag or annotation filter.
pub mod codec;
pub mod hash;
pub mod ingest;
pub mod listing;
pub mod metadata;
pub mod store;
pub mod text;
