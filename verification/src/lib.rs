//! A low level NBT decoding library that maps NBT structures onto
//! standard library containers.
//!
//! NBT (Named Binary Tag) is a tagged, self-describing binary tree format:
//! scalars, byte and integer arrays, homogeneous lists and string-keyed
//! compounds, written big-endian and length-prefixed. [`decode::Decoder`]
//! reads a named tag tree out of bytes, [`encode::Encoder`] flattens one
//! back, and [`grammar`] states the wire format both sides meet — with the
//! proof that decoding an encoding returns the tree unchanged.

pub mod codec;
pub mod decode;
pub mod encode;
pub mod grammar;
pub mod strings;
pub mod traits;
pub mod types;
pub mod util;

pub use types::Compression;
pub use types::CompoundData;
pub use types::Error;
pub use types::ListData;
pub use types::Result;
pub use types::Tag;
pub use types::TagModel;
pub use types::TagType;
