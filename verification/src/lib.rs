//! Shared events with a funding ceiling.
//!
//! Users create time-boxed events; other users join an event by committing
//! an amount of money. The crate holds the rules of that ledger: which
//! commitments are admitted under an event's cap, which fields of an event
//! may still change, and who may see the roster of members.
//!
//! - [`model`] holds the plain data.
//! - [`policy`] decides what a new event must satisfy and which changes an
//!   existing event still accepts.
//! - [`ledger`] holds the arithmetic of commitments and caps.
//! - [`projection`] builds what a viewer is shown of an event.
//! - [`tables`] describes the content of a store and how it changes;
//!   [`db`] is a store in memory with the operations on its rows.
//! - [`service`] offers the operations of the ledger on a store, each with
//!   the checks that come before it.
//! - [`api`] holds the decisions of a request handler that keeps its rows
//!   elsewhere, and the answers it gives.
//! - [`laws`] states what holds of the ledger whatever is asked of it.

pub mod model;
mod outside;
pub mod api;
pub mod db;
pub mod laws;
pub mod ledger;
pub mod policy;
pub mod projection;
pub mod service;
pub mod tables;
