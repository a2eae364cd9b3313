//! A verified domain-name registry: an authoritative ledger mapping names to
//! ownership records and auxiliary DNS key/value data, enforcing paid
//! registration, time-bounded expiry, renewal, ownership transfer, and record
//! mutation. Every operation is an atomic state transition: it either fully
//! applies or leaves the store untouched and returns a typed error.

pub mod domain;
pub mod error;
pub mod event;
pub mod laws;
pub mod fee;
pub mod registry;
pub mod store;
