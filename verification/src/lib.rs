//! A tiny command language: one line of free-form text is parsed into an
//! action name plus an ordered list of typed argument values.

pub mod command;
pub mod executor;
pub mod laws;
pub mod scan;
