//! Schemas of the types of the language and of the standard library.
pub mod addr;
pub mod array;
pub mod basic;
pub mod byte;
pub mod cow;
pub mod float;
pub mod guard;
pub mod ints;
pub mod nonzero;
pub mod pointer;
pub mod range;
pub mod tagged;
pub mod text;
pub mod time;
pub mod tuple;
pub mod variants;
