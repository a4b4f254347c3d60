//! Reading of CodeView type information: the TPI / IPI type streams of a PDB file and the
//! `LF_FIELDLIST` records within them.

pub mod bytes;

pub mod parser;
pub mod types;
pub mod fields;
pub mod tpi;
pub mod field_chain;
pub mod text;
