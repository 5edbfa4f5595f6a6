//! A benchmark harness that compares BLAKE3 and BLAKE2 hash backends over
//! input sizes and data patterns, with every rule of the methodology stated
//! as a contract and proved.

pub mod buffer;
pub mod clock;
pub mod cpuinfo;
pub mod digest;
pub mod driver;
pub mod measure;
pub mod median;
pub mod metadata;
pub mod report;
pub mod rows;
pub mod selector;
pub mod text;
