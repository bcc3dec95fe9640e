//! The byte layout shared with the compute kernel.
//!
//! Every record the kernel reads is serialized on the host as a sequence of
//! little-endian 32-bit words, with explicit padding words where the kernel's
//! alignment rules demand them. The strides and binding slots below are the
//! wire contract between host and kernel.

use vstd::prelude::*;

verus! {

/// Bytes per vertex record: three position words and one padding word.
pub const VERTEX_STRIDE: usize = 16;

/// Bytes per mesh-offset record: a vertex offset and an index offset.
pub const MESH_INFO_STRIDE: usize = 8;

/// Bytes per material record: ambient rgb + padding, diffuse rgb + padding.
pub const COLORS_STRIDE: usize = 32;

/// Bytes of the scalar record holding the mesh and light counts.
pub const COMPUTE_INFO_SIZE: usize = 8;

/// Bytes of the accumulation metadata record: width, height, sample count
/// and one padding word.
pub const PT_INFO_SIZE: usize = 16;

/// Bytes of the camera record.
pub const CAMERA_SIZE: usize = 96;

/// Bytes per pixel of the accumulation buffer (one rgba32float texel).
pub const PIXEL_SIZE: usize = 16;

/// Binding slots of the scene group, in the order the kernel declares them.
pub const SCENE_BINDING_VERTICES: u32 = 0;
pub const SCENE_BINDING_INDICES: u32 = 1;
pub const SCENE_BINDING_MESH_INFO: u32 = 2;
pub const SCENE_BINDING_COLORS: u32 = 3;
pub const SCENE_BINDING_COMPUTE_INFO: u32 = 4;

/// Binding slots of the accumulation group.
pub const ACCUM_BINDING_BUFFER: u32 = 0;
pub const ACCUM_BINDING_META: u32 = 1;

/// Binding slot of the camera group.
pub const CAMERA_BINDING: u32 = 0;

/// The four little-endian bytes of a 32-bit word, least significant first.
pub open spec fn le4(v: u32) -> Seq<u8> {
    seq![
        (v & 0xff) as u8,
        ((v >> 8) & 0xff) as u8,
        ((v >> 16) & 0xff) as u8,
        ((v >> 24) & 0xff) as u8,
    ]
}

/// Append the little-endian bytes of `v` to `out`.
pub fn push_le4(out: &mut Vec<u8>, v: u32)
    ensures
        final(out)@ == old(out)@ + le4(v),
{
    out.push((v & 0xff) as u8);
    out.push(((v >> 8) & 0xff) as u8);
    out.push(((v >> 16) & 0xff) as u8);
    out.push(((v >> 24) & 0xff) as u8);
    assert(out@ =~= old(out)@ + le4(v));
}

} // verus!
