//! A typed, ordered name-value list with two wire encodings.
//!
//! A list holds entries in insertion order. Each entry has a name and a value
//! of one of a closed set of kinds, nested lists among them. A list can be
//! asked for the first entry of a name, walked from its first entry to its
//! last, copied, written in a native or a portable encoding, and read back
//! from either.

pub mod data;
pub mod decode;
pub mod encode;
pub mod equal;
pub mod error;
pub mod format;
pub mod insert;
pub mod laws;
pub mod list;
pub mod measure;
pub mod model;
pub mod name;
pub mod owned;
pub mod parse;
pub mod put;
pub mod roundtrip;
pub mod sound;
pub mod typed;
pub mod wire;

pub use data::{NvData, NvList, NvListRef, NvPair};
pub use error::NvError;
pub use format::NvEncoding;
pub use list::NvListIter;
pub use model::{NvType, Unique};
pub use put::NvEncode;
