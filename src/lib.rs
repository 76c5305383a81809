//! Decoding of Draco-compressed glTF primitives, re-described as plain glTF:
//! the compression extension is read and its attribute names classified, the
//! compressed bytes located, and the decoder's output layout turned into a
//! document of one buffer, its views and accessors, and one primitive.
use vstd::prelude::*;

pub mod khr_draco_mesh_compression;
pub mod semantic;

verus! {

/// The plugin that installs the compressed-mesh handler into a host application.
pub struct GltfDracoDecoderPlugin;

} // verus!
