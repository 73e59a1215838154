//! Typed values, their byte encodings and the order of encoded keys.
pub mod bytes;
pub mod codec;
pub mod compare;
pub mod encode;
pub mod order;
pub mod text;
pub mod tuple;
pub mod value;
