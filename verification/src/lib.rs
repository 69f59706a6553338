//! Verified kernels of a tensor processor with two clusters of 256 slices.
//!
//! A kernel moves numbers between the slices of data memory (`tensor`), applies the operations of an
//! arithmetic to them (`arith`) and adds commands to a stream (`context`). Its contract says which
//! formula ends up in which cell and which commands were added.

pub mod arith;
pub mod context;
pub mod error;
pub mod exact;
pub mod ffn7;
pub mod hidden;
pub mod ideal;
pub mod nearest;
pub mod output31;
pub mod precise;
pub mod qkv;
pub mod quant;
pub mod rounded;
pub mod rounding;
pub mod run;
pub mod symbolic;
pub mod tensor;
