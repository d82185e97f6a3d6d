//! Plans the transactions that inscribe a satoshi: a commit transaction
//! that brings the satoshi to the head of a Taproot output, and the reveal
//! transactions that spend such outputs and show the inscriptions in their
//! witnesses.
//!
//! The planner is [`inscribe::Inscribe::create_inscription_transactions`].
//! It works on plain values: transactions, scripts and keys are held as
//! integers and byte strings, and what only the `bitcoin` crate can
//! compute is asked of it through the functions of [`consensus`],
//! [`keys`], [`recovery`] and [`script`], whose contracts are taken on
//! trust, as is that of the one function of [`text`] that has the
//! standard library decode a message.

pub mod bytes;
pub mod commitment;
pub mod consensus;
pub mod error;
pub mod fee_rate;
pub mod find;
pub mod inscribe;
pub mod inscribed;
pub mod inscription;
pub mod keys;
pub mod outpoint;
pub mod plan;
pub mod recovery;
pub mod rest;
pub mod reveal_tx;
pub mod script;
pub mod simplehttp;
pub mod text;
pub mod transaction;
pub mod transaction_builder;
pub mod utxo;
