//! Owned string parts handed out by the string type.
pub mod drain;
