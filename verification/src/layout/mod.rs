//! What the bytes are: the layout of every kind of value, in terms of the values it is made of.
pub mod addresses;
pub mod basics;
pub mod borrowed;
pub mod composites;
pub mod gathered;
pub mod held;
pub mod insertion;
pub mod integers;
pub mod iterators;
pub mod key_order;
pub mod keyed;
pub mod lengths;
pub mod sequences;
pub mod streams;
pub mod text;
