//! Security guards for a gateway of the Model Context Protocol.
//!
//! The gateway stands between one client and the tool servers of a backend.
//! On every message that crosses it, a chain of guards decides whether the
//! message may pass, must be changed, or is denied. This crate holds the
//! guards and what runs them:
//!
//! - [`pii`]: recognizers of personally identifiable information;
//! - [`native`]: the built-in guards against tool poisoning, rug pulls, tool
//!   shadowing, servers that are not whitelisted, and leaks of personal data;
//! - [`wasm`]: what surrounds a guard that runs as a WebAssembly component;
//! - [`guard`] and [`executor`]: guard configurations, and the chain that
//!   runs the guards of a backend in order of priority;
//! - [`registry`]: the executors of all backends, which can be reloaded
//!   while sessions are open;
//! - [`relay`]: naming, merging and the fate of messages between a client
//!   and several upstream servers;
//! - [`schema`]: the schemas that guest guards publish.
//!
//! Every function states what it returns in a contract, and every contract
//! is proved. What is taken on trust is the regular-expression engine, in
//! [`pattern`], and the conversion of bytes to text, in [`text`]; the
//! functions that call them say so.
#![verifier::loop_isolation(false)]

pub mod decision;
pub mod executor;
pub mod guard;
pub mod json;
pub mod luhn;
pub mod native;
pub mod order;
pub mod pattern;
pub mod pii;
pub mod registry;
pub mod relay;
pub mod schema;
pub mod text;
pub mod tool;
pub mod wasm;
