//! Binary serialization in place: schemas say how a value is laid out as bytes.
pub mod config;
pub mod error;
pub mod io;
pub mod laws;
pub mod layout;
pub mod len;
pub mod model;
pub mod schema;
pub mod serde;

pub use crate::error::{Error, ReadError, ReadResult, WriteError, WriteResult};
pub use crate::schema::{
    containers, context, int_encoding, tag_encoding, SchemaRead, SchemaReadContext,
    SchemaReadOwned, SchemaWrite, TypeMeta, ZeroCopy,
};
pub use crate::serde::{
    deserialize, deserialize_exact, deserialize_from, serialize, serialize_into, serialized_size,
    Deserialize, Serialize,
};
