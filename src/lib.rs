//! Command engine of an SMS contact book: command grammar, card import with
//! deduplication, and the two timed workflows (number picking, deletion
//! confirmation), over an owned in-memory store.

pub mod text;
pub mod command;
pub mod phone;
pub mod store;
pub mod workflow;
pub mod deletion;
pub mod dispatch;
pub mod engine;
pub mod import;
pub mod pick;
pub mod report;
