//! Supervision and reliability core of a long-running agent daemon.
//!
//! Every module here is verified: the contracts of its functions state what
//! they return over mathematical models (`Seq`, `Set`, `Map`, integers), and
//! the calls into outside crates stand behind small trusted wrappers whose
//! contracts say what those crates document.

pub mod backoff;
pub mod channels;
pub mod clock;
pub mod compression;
pub mod daemon;
pub mod entropy;
pub mod health;
pub mod http_client;
pub mod memory;
pub mod observability;
pub mod pairing;
pub mod reliable;
pub mod supervisor;
pub mod text;
pub mod tools;
pub mod tunnel;
