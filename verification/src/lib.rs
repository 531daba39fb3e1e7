//! Codec between typed host values and Erlang external term format trees.
//!
//! The encoder walks a typed value and produces a term tree; the decoder
//! walks a term tree under a target-shape hint and reconstructs the typed
//! value.  The byte-level wire layout is owned by an external term library,
//! which exchanges fully materialized trees with this crate.
pub mod casing;
pub mod de;
pub mod error;
pub mod laws;
pub mod ser;
pub mod shape;
pub mod term;
pub mod text;
pub mod value;

pub use de::decode_any;
pub use de::decode_bool;
pub use de::decode_bytes;
pub use de::decode_char;
pub use de::decode_f64_bits;
pub use de::decode_i16;
pub use de::decode_i32;
pub use de::decode_i64;
pub use de::decode_i8;
pub use de::decode_identifier;
pub use de::decode_string;
pub use de::decode_u16;
pub use de::decode_u32;
pub use de::decode_u64;
pub use de::decode_u8;
pub use de::decode_unit;
pub use de::decode_value;
pub use de::is_nil;
pub use de::variant_parts;
pub use de::MapAccess;
pub use de::SeqAccess;
pub use error::Error;
pub use error::ErrorV;
pub use ser::encode_bool;
pub use ser::encode_bytes;
pub use ser::encode_char;
pub use ser::encode_f64_bits;
pub use ser::encode_i16;
pub use ser::encode_i32;
pub use ser::encode_i64;
pub use ser::encode_i8;
pub use ser::encode_newtype_variant;
pub use ser::encode_none;
pub use ser::encode_str;
pub use ser::encode_u16;
pub use ser::encode_u32;
pub use ser::encode_u64;
pub use ser::encode_u8;
pub use ser::encode_unit;
pub use ser::encode_unit_struct;
pub use ser::encode_unit_variant;
pub use ser::encode_value;
pub use ser::MapBuilder;
pub use ser::NamedMapBuilder;
pub use ser::NamedSequenceBuilder;
pub use ser::SequenceBuilder;
pub use shape::Shape;
pub use shape::ShapeV;
pub use shape::Variant;
pub use shape::VariantKind;
pub use term::Term;
pub use term::TermV;
pub use value::Value;
pub use value::ValueV;
