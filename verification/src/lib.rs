//! An interaction-net rewriting engine.
//!
//! A program is a graph of small typed agents joined by wires. Two agents
//! whose principal ports face each other form an active pair, and reduction
//! rewrites active pairs one at a time until none is left.
//!
//! The executable part:
//!
//! * [`net`] holds the graph store: agents in an append-only arena, the
//!   table of named definitions and the queue of pending active pairs.
//! * [`copy`] duplicates the part of the graph that hangs off one agent.
//! * [`interaction`] is the rule engine.
//! * [`runtime`] drives reduction and keeps statistics.
//! * [`text`] renders agents and whole nets for diagnostics.
//!
//! What the contracts speak of:
//!
//! * [`model`] is a net as a mathematical value, with the wiring primitive
//!   and the wiring invariant.
//! * [`rules`] defines each rewrite rule as a function on that value.
//!
//! What is proved of them:
//!
//! * [`wiring`]: what the wiring primitive keeps and what it changes.
//! * [`laws`]: what each rewrite rule adds and how it rewires.
//! * [`copy_laws`]: that a copy has the shape of what it copies and shares
//!   no agent with it or with another copy.

pub mod copy;
pub mod copy_laws;
pub mod interaction;
pub mod laws;
pub mod model;
pub mod net;
pub mod rules;
pub mod runtime;
pub mod text;
pub mod wiring;
