//! An encrypted credential vault.
//!
//! The library holds the verified core of the vault: the cipher engine that
//! turns a master password into a key and seals the stored blob, the
//! credential record, the lock/unlock state machine with the
//! load-modify-save protocol over the whole record set, and the password
//! generator. Reading and writing the vault file is left to the caller,
//! which hands the file's text in and writes the returned text back.
pub mod cipher;
pub mod generator;
pub mod passthrough;
pub mod record;
pub mod record_set;
pub mod store;
