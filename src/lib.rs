//! A DNS protocol engine: the wire-format codec and SVCB/HTTPS record data,
//! DNSSEC public keys and chain-of-trust checks, and the decisions of an
//! iterative resolver with its record cache, each with its contract.
//!
//! - `codec`, `name`, `message`: length-bounded readers and writers,
//!   domain names, whole messages (with `message_laws`).
//! - `svcb`: SVCB/HTTPS parameters and records (with `svcb_laws`).
//! - `crypto`, `public_key`, `dnssec`, `rrsig`: signature primitives, key
//!   layouts, key tags, DS digests, validity windows and signed data.
//! - `resolver`, `cache`, `dns_request`: trust-chain status, outcomes,
//!   referrals, the hop budget, spoofing checks and the RRset cache.

pub mod cache;
pub mod codec;
pub mod crypto;
pub mod dns_request;
pub mod dnssec;
pub mod error;
pub mod message;
pub mod message_laws;
pub mod name;
pub mod public_key;
pub mod resolver;
pub mod rrsig;
pub mod svcb;
pub mod svcb_laws;
pub mod text;
