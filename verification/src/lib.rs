//! Dynamic property reflection.
//!
//! A runtime type registry maps short type names to per-type decode
//! descriptors.  A self-describing text format carries an optional type-name
//! annotation in front of each property bag; decoding captures that
//! annotation, resolves it against the registry, and materialises an owned,
//! dynamically typed property value.  A small draw-target module turns a
//! pipeline's entity assignments into an explicit render command sequence.

pub mod assigned_meshes_draw_target;
pub mod bytes_util;
pub mod decode;
pub mod property;
pub mod reader;
pub mod round_trip;
pub mod type_registry;
pub mod writer;
