//! Incremental mirror of a remote, paginated block-list feed into a local
//! durable store: checkpoint derivation, cursor-based pagination, record
//! filtering, address encoding, and idempotent persistence.

pub mod addr;
pub mod record;
pub mod store;
pub mod strorder;
pub mod sync;
