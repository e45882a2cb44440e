//! Handles of an off-screen render target, as the renderer creates them.
use vstd::prelude::*;

verus! {

/// A framebuffer object and the texture attached to it.
pub struct FrameBuffer {
    pub framebuffer_id: u32,
    pub texture_id: u32,
}

} // verus!
