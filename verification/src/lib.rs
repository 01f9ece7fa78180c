//! Physical value types of a columnar format and their PLAIN binary codec.
//!
//! The library holds the value types (`int96`, `byte_array`, `decimal`,
//! `scalars`), the contract that every physical type meets (`data_type`),
//! the codecs behind it (`fixed_width`, `length_prefixed`, `fixed_length`,
//! `bit_packed`) with the cursor they advance (`cursor`), and the
//! overflow-checked slicing and searching that readers of byte buffers need
//! (`utils`). Every function states what it returns, and every statement is
//! proved; the few dealings with code from outside are in `buffer`,
//! `byte_order` and `utils`, each marked as such.

pub mod as_bytes;
pub mod bit_packed;
pub mod buffer;
pub mod byte_array;
pub mod byte_order;
pub mod cursor;
pub mod data_type;
pub mod decimal;
pub mod errors;
pub mod fixed_length;
pub mod fixed_width;
pub mod int96;
pub mod length_prefixed;
pub mod scalars;
mod sealed;
pub mod utils;
