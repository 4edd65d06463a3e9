//! Containers whose length encoding, and whose reaction to a repeated key, can be chosen.
pub mod boxed;
pub mod collections;
pub mod decode;
pub mod heap;
pub mod heap_schema;
pub mod iter;
pub mod keyed;
pub mod list;
pub mod map_rules;
pub mod maps;
pub mod policy;
pub mod sealed;
pub mod seq;
pub mod set_rules;
pub mod sets;
pub mod walked;

pub use crate::schema::external::ordered_schema::{OrderedMapSeq, OrderedSetSeq};
pub use boxed::{Arc, Box, Rc};
pub use decode::decode_into_slice_t;
pub use heap_schema::BinaryHeap;
pub use iter::{encode_from_iter, encode_from_iter_prealloc_check};
pub use maps::{BTreeMap, HashMap};
pub use policy::{AllowDuplicateKeys, CheckUniqueKeys, DuplicateKeyPolicy};
pub use seq::{Vec, VecDeque};
pub use sets::{BTreeSet, HashSet};
pub use walked::FromIntoIterator;
