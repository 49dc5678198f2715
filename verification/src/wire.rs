//! The container's byte layout, as mathematical functions.
//!
//! [`encode`] says which bytes stand for a value, [`decode`] says which value
//! a byte string stands for and why another is refused, [`roundtrip`] proves
//! that the second undoes the first, and [`refusal`] proves which inputs are
//! refused for which reason.
pub mod decode;
pub mod encode;
pub mod refusal;
pub mod roundtrip;
