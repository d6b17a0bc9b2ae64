//! A tamper-evident, hash-chained ledger of Ed25519-signed entries.
//!
//! `encoding` holds the byte and text formats (big-endian integers, base64,
//! lower-case hex), `crypto` the calls into the hashing, signing and base64
//! crates, `ledger` the entries, the chain rules and the keypair helpers,
//! `text` the blank lines of the ledger file, `form` an append form for an
//! interactive front end, and `laws` the properties that hold across the
//! ledger's operations.
pub mod crypto;
pub mod encoding;
pub mod form;
pub mod laws;
pub mod ledger;
pub mod text;

pub use ledger::{
    AppendRequest, EntryView, Fault, Keypair, Ledger, LedgerEntry, LedgerError, RequestView,
    SignableContent,
};
