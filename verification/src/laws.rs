//! What holds of cleaning, whatever the document.

pub mod mapping;
pub mod members;
pub mod nulls;
pub mod order;
pub mod settled;
pub mod trimming;
