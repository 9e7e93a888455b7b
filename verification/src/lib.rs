//! Texture definitions of a WAD archive: decoding the packed records of a
//! texture section, compositing each texture from its patches, and keeping
//! the finished textures in a registry keyed by name.

pub mod compose;
pub mod definition;
pub mod layering;
pub mod le;
pub mod textures;
