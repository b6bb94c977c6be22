//! An embedded document store kept free of I/O.
//!
//! Documents are serialized records grouped into named collections. Every
//! collection owns two partitions of an ordered key-value engine: a primary
//! partition from identifier to body and an index partition from
//! fingerprint to identifier. Relations between documents live in a ledger
//! stored beside the source document.
//!
//! The crate decides *what* is read and written; the caller owns the engine
//! and carries the reads and writes out. Every operation is therefore a
//! function from plain values to plain values, and its contract is stated
//! over a mathematical model of the partitions.

pub mod error;
pub mod layout;
pub mod fingerprint;
pub mod generator;
pub mod engine;
pub mod ledger;
pub mod resolution;
pub mod index;
pub mod collection;
mod views;
pub mod adapter;
pub mod records;
