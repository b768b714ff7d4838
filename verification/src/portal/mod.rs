//! Portal connection handling.

pub mod conn;
