//! An offline store of labelled secrets: a tree of encrypted records kept in
//! one container file with a fixed byte layout.
//!
//! The crate holds the container's object graph ([`entity`]), the byte
//! layout as mathematical functions ([`wire`]), the reader that turns bytes
//! into a container ([`io::parser`]), and the registries that bind the names
//! written in a container to the digest and cipher that they stand for
//! ([`hash`], [`cipher`]).
pub mod cipher;
pub mod entity;
pub mod error;
pub mod hash;
pub mod io;
pub mod registry;
pub mod util;
pub mod wire;

