//! A schema-driven, bidirectional codec between structured records and
//! fixed-layout ASCII text.
//!
//! A [`Schema`] lists the fields of a record in the order of the text. Each
//! field has a shape: a fixed width, a literal, nothing at all, or a group
//! of elements that goes on until a lookahead predicate says that it ends.
//! [`decode`] walks a text by a schema and gives the record; [`encode`]
//! walks the record and gives the text back.

pub mod decode;
pub mod encode;
pub mod error;
pub mod laws;
pub mod number;
pub mod roundtrip;
pub mod scalar;
pub mod schema;
pub mod text;
pub mod until;
pub mod value;

pub use crate::decode::{decode, decode_field, decode_prefix, decode_value};
pub use crate::encode::{encode, encode_field, encode_value};
pub use crate::error::{AsciiPackError, CharErrorKind, PackReason, ParseFailure, UnpackReason};
pub use crate::number::IntErrorKind;
pub use crate::scalar::{decode_scalar, encode_scalar, AsciiPack};
pub use crate::schema::{Field, FieldSpec, FieldType, ScalarType, Schema, SchemaError};
pub use crate::until::StopPredicate;
pub use crate::value::{Static, Value};
