//! A compact binary codec: a cursor-backed byte buffer, a fixed big-endian
//! wire format for primitive and composite values, and a pair of traits that
//! compose encoders and decoders for structured types.
//!
//! - `buffer`: the buffer, its mathematical view, and the wire primitives.
//! - `wire`: the arithmetic of the fixed-width integers and packed booleans.
//! - `encodable`, `decodable`: the two traits, their contracts, and their
//!   implementations for integers, booleans, strings, sequences and
//!   optional values.
//! - `bounds`: the least and greatest sizes of encodings, and the admission
//!   check that holds the length of a buffer against them.
//! - `message`: structs and enums as values, encoded and decoded by a
//!   description of their type.
//! - `laws`: what holds of the codec as a whole.
//! - `codegen`: the Rust source of the implementations of the two traits
//!   for a struct or an enum.
//! - `typescript`: TypeScript definitions and decoders for the types of
//!   messages.
//! - `convert`, `text`, `error`: conversions, text for people, failures.

pub mod bounds;
pub mod buffer;
pub mod codegen;
pub mod convert;
pub mod decodable;
pub mod encodable;
pub mod error;
pub mod laws;
pub mod message;
pub mod text;
pub mod typescript;
pub mod wire;

pub use buffer::{BufferView, Bufferfish, DEFAULT_MAX_CAPACITY};
pub use decodable::{decode_with_id, Decodable};
pub use encodable::{encode_with_id, Encodable};
pub use error::{BufferfishError, IoFailure};
pub use message::{FieldType, FieldValue, MessageType};
