//! A hygiene pass for JSON documents: it trims every text and key, drops
//! what is `null`, and writes the containers that this empties as the caller's
//! policy says. Every step is verified against a mathematical model of the
//! document.
//!
//! - [`node`] holds the document tree and its model;
//! - [`text`] says what trimming leaves of a text;
//! - [`normalize`] says what cleaning makes of a tree, and does it;
//! - [`traversal`] walks a document without recursion;
//! - [`pipeline`] goes from JSON text to cleaned JSON text;
//! - [`bridge`] and [`convert`] are the seam to `serde_json`, which parses and
//!   prints;
//! - [`laws`] proves what holds of cleaning, whatever the document.

pub mod bridge;
pub mod convert;
pub mod laws;
pub mod node;
pub mod normalize;
pub mod pipeline;
pub mod text;
pub mod traversal;

pub use node::{Node, Tree};
pub use normalize::{clean_value, EmptyContainerPolicy};
pub use pipeline::{clean_document, clean_json, CleanError};
