//! Mesh ingestion: OBJ text and glTF buffers into packed, GPU-ready vertex data.
//!
//! Floating-point values are carried as their IEEE-754 bit patterns (`u32`), so
//! decoding and packing are exact byte manipulations.
pub mod bytes;
pub mod error;
pub mod gltf;
pub mod layout;
pub mod mesh;
pub mod obj;
pub mod resources;
pub mod shader_source;
pub mod text;
