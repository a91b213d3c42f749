//! Model files, caches and decoding state for a mixture-of-experts language
//! model, with their behaviour stated and proved.

pub mod bits;
pub mod cli;
pub mod config;
pub mod engine;
pub mod float;
pub mod gguf;
pub mod le;
pub mod model;
pub mod mtp;
pub mod ops;
pub mod quant;
pub mod session;
pub mod speculative;
pub mod tensor;
pub mod text;
pub mod utf8;
