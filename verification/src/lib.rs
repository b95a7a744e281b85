//! The logic of a mail client: messages and what is sent of them, the bundle
//! that says where the mail server is and which key it has, the course of a
//! delivery, and the ledger of the identities that bundles are issued to.
//!
//! Everything here is a function of plain values. Files, sockets and the
//! database belong to the caller, which carries out the steps that
//! [`delivery`] and [`worker`] ask for and stores the rows that [`ledger`]
//! works on.

pub mod bundle;
pub mod container;
pub mod delivery;
pub mod digest;
pub mod draws;
pub mod email;
pub mod error;
pub mod issuance;
pub mod json;
pub mod keys;
pub mod ledger;
pub mod order;
pub mod text;
pub mod worker;

pub use bundle::{MailBundle, MailServerConfig};
pub use email::Email;
pub use issuance::BundleChunkOptions;
pub use ledger::{IdentitySummary, Ledger, UsageEvent, UsageRecord};
pub use worker::LedgerWorker;
