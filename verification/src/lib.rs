//! Verified core of the harness: an append-only, per-writer event log that
//! is the record of every change, and a cache rebuilt from it.
//!
//! - `fnv`, `ulid`, `calendar`, `events`: hashing, event ids, timestamps,
//!   writer identities and canonical log lines.
//! - `replay`, `order`, `log`, `lww`: log lines as values, the replay order,
//!   appends with their causal snapshot, per-field last-writer-wins with the
//!   concurrency audit.
//! - `cache`, `sync`, `genesis`, `repository`: what each event writes to the
//!   cache, incremental replay by watermark, the move of a legacy cache onto
//!   the log and its proof, rebuild results, migrations and `info`.
//! - `markdown`, `imports`, `views`, `diagrams`: brownfield markdown import,
//!   the generated views, and the diagram review gate on verification.
//! - `audit`, `tools`, `mutations`: improvement proposals, the tool registry's
//!   stored arguments and probes, and update payloads.
//! - `text`, `error`: text helpers and the error type.

pub mod audit;
pub mod diagrams;
pub mod cache;
pub mod calendar;
pub mod error;
pub mod events;
pub mod fnv;
pub mod genesis;
pub mod imports;
pub mod log;
pub mod lww;
pub mod markdown;
pub mod mutations;
pub mod order;
pub mod replay;
pub mod repository;
pub mod sync;
pub mod text;
pub mod timestamps;
pub mod tools;
pub mod ulid;
pub mod views;

pub use calendar::{
    civil_from_days, days_from_civil, rfc3339_from_unix, rfc3339_utc_now,
    unix_from_sqlite_datetime,
};
pub use events::{sanitize_writer, EventLog, EVENT_SCHEMA_VERSION};
pub use fnv::{fnv1a64, fnv1a64_continue};
pub use ulid::{encode_ulid, genesis_ulid, mint_ulid, UlidMinter};
