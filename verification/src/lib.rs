//! Conclave: a deterministic workflow language — lexer, parser, normalizer,
//! lowerer to Plan IR, canonical JSON hashing, manifest sealing rules and
//! artifact packing.

pub mod text;
pub mod hash;
pub mod json;
pub mod lang;
pub mod ir;
pub mod manifest;
pub mod pack;
pub mod fetch;
pub mod replay;
