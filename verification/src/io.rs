//! Reading a container from bytes.
pub mod parser;
