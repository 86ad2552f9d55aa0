//! A path-sensitive symbolic execution engine.
//!
//! The engine walks a typed program tree and keeps, scope by scope, a log of
//! what is declared and assumed on the path that it is on. Branches and
//! inlined calls run in scopes of their own and are merged back when they
//! are done. For each assertion of the program the engine writes down the
//! solver query that decides it; it never runs a solver itself.
//!
//! - `tree`: the program tree that a front end hands in;
//! - `text`: the building blocks of symbolic names and constraints;
//! - `lir`, `context`: the entries of a path log, and a scope;
//! - `analyze`: the analyser, with the model that says what it computes;
//! - `solver`: what the answers to the queries amount to;
//! - `laws`: what holds of the engine for every input.
pub mod analyze;
pub mod context;
pub mod error;
pub mod laws;
pub mod lir;
pub mod solver;
pub mod text;
pub mod tree;
