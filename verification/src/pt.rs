//! The progressive accumulation engine.
//!
//! A `Pt` value is the engine's whole observable state: the live
//! accumulation buffer's dimensions and the number of samples per pixel
//! integrated into it so far. Resizing replaces the buffer and restarts
//! accumulation; every displayed frame integrates exactly one more sample
//! per pixel and issues exactly one kernel dispatch sized one invocation
//! per pixel, so the cost of a frame is proportional to the pixel count and
//! independent of how many samples have accumulated.

use vstd::prelude::*;

use crate::layout::{le4, push_le4, CAMERA_SIZE, PIXEL_SIZE, PT_INFO_SIZE};

verus! {

/// The accumulation state: the live buffer's dimensions and how many
/// samples per pixel have been integrated into it.
#[derive(Clone, Copy, Debug, PartialEq, Eq, Structural)]
pub struct Pt {
    pub width: u32,
    pub height: u32,
    pub samples_per_pixel: u32,
}

/// What a resize does: a zero-area request is ignored; any other request
/// replaces the buffer and restarts accumulation from zero samples.
pub open spec fn spec_resize(s: Pt, width: u32, height: u32) -> Pt {
    if width == 0 || height == 0 {
        s
    } else {
        Pt { width, height, samples_per_pixel: 0 }
    }
}

/// What a displayed frame does: one more sample per pixel is integrated.
pub open spec fn spec_next_frame(s: Pt) -> Pt {
    Pt { samples_per_pixel: (s.samples_per_pixel + 1) as u32, ..s }
}

/// The accumulation metadata record's bytes: width, height, sample count
/// and one padding word.
pub open spec fn spec_pt_info_bytes(s: Pt) -> Seq<u8> {
    le4(s.width) + le4(s.height) + le4(s.samples_per_pixel) + le4(0)
}

/// What one displayed frame tells the GPU, in order: write the updated
/// metadata record, then dispatch the kernel with these workgroup counts.
pub struct FrameCommands {
    pub meta: Vec<u8>,
    pub dispatch: (u32, u32, u32),
}

impl Pt {
    /// A freshly allocated accumulation state: no samples integrated yet.
    pub fn new(width: u32, height: u32) -> (s: Pt)
        ensures
            s == (Pt { width, height, samples_per_pixel: 0 }),
    {
        Pt { width, height, samples_per_pixel: 0 }
    }

    /// Replace the buffer for a new surface size. A zero-area request is
    /// ignored and the previous state kept; any other request restarts
    /// accumulation from zero samples. Returns whether the buffer was
    /// replaced, in which case the caller must rebuild the allocation and
    /// everything bound to it (a same-size request still replaces, which is
    /// how a lost surface is recovered).
    pub fn resize(&mut self, width: u32, height: u32) -> (rebuilt: bool)
        ensures
            *final(self) == spec_resize(*old(self), width, height),
            rebuilt == (width != 0 && height != 0),
            !rebuilt ==> *final(self) == *old(self),
    {
        if width == 0 || height == 0 {
            false
        } else {
            self.width = width;
            self.height = height;
            self.samples_per_pixel = 0;
            true
        }
    }

    /// Advance to the next displayed frame: integrate one more sample per
    /// pixel and emit that frame's commands — the updated metadata record,
    /// then exactly one dispatch, one invocation per pixel of the live
    /// buffer.
    pub fn next_frame(&mut self) -> (c: FrameCommands)
        requires
            old(self).samples_per_pixel < u32::MAX,
        ensures
            *final(self) == spec_next_frame(*old(self)),
            c.meta@ == spec_pt_info_bytes(*final(self)),
            c.meta@.len() == PT_INFO_SIZE,
            c.dispatch == (old(self).width, old(self).height, 1u32),
    {
        self.samples_per_pixel = self.samples_per_pixel + 1;
        let meta = self.pt_info_bytes();
        FrameCommands { meta, dispatch: (self.width, self.height, 1) }
    }

    /// The metadata record's bytes for the current state.
    pub fn pt_info_bytes(&self) -> (r: Vec<u8>)
        ensures
            r@ == spec_pt_info_bytes(*self),
            r@.len() == PT_INFO_SIZE,
    {
        let mut out: Vec<u8> = Vec::new();
        push_le4(&mut out, self.width);
        push_le4(&mut out, self.height);
        push_le4(&mut out, self.samples_per_pixel);
        push_le4(&mut out, 0);
        proof {
            assert(out@ =~= spec_pt_info_bytes(*self));
        }
        out
    }

    /// How many bytes the accumulation buffer needs: one rgba32float texel
    /// per pixel. `None` when that leaves the 64-bit range a buffer size
    /// can hold.
    pub fn buffer_size_bytes(&self) -> (r: Option<u64>)
        ensures
            match r {
                Some(n) => n == PIXEL_SIZE * self.width * self.height,
                None => PIXEL_SIZE * self.width * self.height > u64::MAX,
            },
    {
        proof {
            assert(self.width as u128 * self.height as u128 <= 0xffff_ffff_ffff_ffff) by (nonlinear_arith)
                requires
                    self.width <= 0xffff_ffffu32,
                    self.height <= 0xffff_ffffu32,
            ;
        }
        let n: u128 = (PIXEL_SIZE as u128) * ((self.width as u128) * (self.height as u128));
        proof {
            let a = PIXEL_SIZE as int;
            let w = self.width as int;
            let h = self.height as int;
            assert(a * (w * h) == a * w * h) by (nonlinear_arith);
        }
        if n > u64::MAX as u128 {
            None
        } else {
            Some(n as u64)
        }
    }

    /// The dispatch a frame issues: one workgroup per pixel, depth one.
    pub fn dispatch_size(&self) -> (d: (u32, u32, u32))
        ensures
            d == (self.width, self.height, 1u32),
    {
        (self.width, self.height, 1)
    }
}

// ---------------------------------------------------------------------------
// The frame loop's reaction to presentation-surface faults.
// ---------------------------------------------------------------------------

/// The presentation-surface faults the frame loop must react to.
#[derive(Clone, Copy, Debug, PartialEq, Eq, Structural)]
pub enum SurfaceFault {
    Lost,
    Outdated,
    OutOfMemory,
    Timeout,
}

/// How the frame loop reacts to a surface fault.
#[derive(Clone, Copy, Debug, PartialEq, Eq, Structural)]
pub enum FaultAction {
    /// Rebuild the surface and the accumulation buffer at the current size.
    Rebuild,
    /// Resource exhaustion: stop the frame loop.
    Exit,
    /// Skip this frame and keep going.
    Skip,
}

/// The recovery policy: a lost or outdated surface is rebuilt at the same
/// size, resource exhaustion ends the loop, a timeout skips the frame.
pub open spec fn spec_fault_action(f: SurfaceFault) -> FaultAction {
    match f {
        SurfaceFault::Lost => FaultAction::Rebuild,
        SurfaceFault::Outdated => FaultAction::Rebuild,
        SurfaceFault::OutOfMemory => FaultAction::Exit,
        SurfaceFault::Timeout => FaultAction::Skip,
    }
}

/// Decide how the frame loop reacts to a surface fault.
pub fn fault_action(f: &SurfaceFault) -> (a: FaultAction)
    ensures
        a == spec_fault_action(*f),
{
    match f {
        SurfaceFault::Lost => FaultAction::Rebuild,
        SurfaceFault::Outdated => FaultAction::Rebuild,
        SurfaceFault::OutOfMemory => FaultAction::Exit,
        SurfaceFault::Timeout => FaultAction::Skip,
    }
}

// ---------------------------------------------------------------------------
// Laws of the accumulation history.
// ---------------------------------------------------------------------------

/// One event of the frame loop's history.
#[derive(Clone, Copy, Debug, PartialEq, Eq, Structural)]
pub enum PtEvent {
    /// A resize request from the presentation surface.
    Resize { width: u32, height: u32 },
    /// One displayed frame.
    Frame,
}

/// One event applied to the state.
pub open spec fn spec_step(s: Pt, e: PtEvent) -> Pt {
    match e {
        PtEvent::Resize { width, height } => spec_resize(s, width, height),
        PtEvent::Frame => spec_next_frame(s),
    }
}

/// The state after a whole history of events.
pub open spec fn spec_run(s: Pt, evs: Seq<PtEvent>) -> Pt
    decreases evs.len(),
{
    if evs.len() == 0 {
        s
    } else {
        spec_step(spec_run(s, evs.drop_last()), evs.last())
    }
}

/// True for a resize that actually replaces the buffer.
pub open spec fn effective_resize(e: PtEvent) -> bool {
    e matches PtEvent::Resize { width, height } && width != 0 && height != 0
}

/// Whether any event of the history replaced the buffer.
pub open spec fn has_reset(evs: Seq<PtEvent>) -> bool
    decreases evs.len(),
{
    evs.len() > 0 && (effective_resize(evs.last()) || has_reset(evs.drop_last()))
}

/// The frames displayed since the buffer was last replaced (or ever, when
/// it never was).
pub open spec fn frames_since_reset(evs: Seq<PtEvent>) -> int
    decreases evs.len(),
{
    if evs.len() == 0 {
        0
    } else if evs.last() is Frame {
        frames_since_reset(evs.drop_last()) + 1
    } else if effective_resize(evs.last()) {
        0
    } else {
        frames_since_reset(evs.drop_last())
    }
}

/// The dimensions of the most recent effective resize, or the initial ones.
pub open spec fn last_dims(s0: Pt, evs: Seq<PtEvent>) -> (u32, u32)
    decreases evs.len(),
{
    if evs.len() == 0 {
        (s0.width, s0.height)
    } else if effective_resize(evs.last()) {
        (evs.last()->Resize_width, evs.last()->Resize_height)
    } else {
        last_dims(s0, evs.drop_last())
    }
}

/// Law: after any history of resizes and frames, the reported dimensions
/// are those of the most recent non-zero-area resize (or the initial ones
/// if there was none), and the sample count is exactly the number of frames
/// displayed since the buffer was last replaced — zero immediately after
/// any effective resize, one more per frame — as long as that count stays
/// within the 32-bit counter.
pub proof fn lemma_resize_frame_history(s0: Pt, evs: Seq<PtEvent>)
    ensures
        frames_since_reset(evs) >= 0,
        (spec_run(s0, evs).width, spec_run(s0, evs).height) == last_dims(s0, evs),
        has_reset(evs) && frames_since_reset(evs) <= u32::MAX ==> spec_run(
            s0,
            evs,
        ).samples_per_pixel == frames_since_reset(evs),
        !has_reset(evs) && s0.samples_per_pixel + frames_since_reset(evs) <= u32::MAX
            ==> spec_run(s0, evs).samples_per_pixel == s0.samples_per_pixel + frames_since_reset(
            evs,
        ),
    decreases evs.len(),
{
    if evs.len() > 0 {
        lemma_resize_frame_history(s0, evs.drop_last());
    }
}

/// Law: a zero-area resize is a no-op — the state, and with it the buffer
/// and its metadata, stay exactly as they were.
pub proof fn lemma_zero_resize_noop(s: Pt, width: u32, height: u32)
    requires
        width == 0 || height == 0,
    ensures
        spec_resize(s, width, height) == s,
{
}

/// Law: starting from a freshly allocated buffer, a history of frames with
/// no intervening resize integrates exactly one sample per pixel per frame
/// — after `N` frames the count is `N` — and never touches the dimensions.
pub proof fn lemma_progressive_accumulation(s0: Pt, evs: Seq<PtEvent>)
    requires
        s0.samples_per_pixel == 0,
        forall|i: int| 0 <= i < evs.len() ==> evs[i] is Frame,
        evs.len() <= u32::MAX,
    ensures
        spec_run(s0, evs).samples_per_pixel == evs.len(),
        spec_run(s0, evs).width == s0.width,
        spec_run(s0, evs).height == s0.height,
    decreases evs.len(),
{
    if evs.len() > 0 {
        lemma_progressive_accumulation(s0, evs.drop_last());
    }
}

// ---------------------------------------------------------------------------
// The camera record.
// ---------------------------------------------------------------------------

/// The bit pattern of a binary32 one, for the identity rotation.
pub const F32_ONE_BITS: u32 = 0x3f80_0000;

/// The camera record the kernel reads, every scalar held as the bit
/// pattern of a binary32 value. The rotation matrix is column-major.
#[derive(Clone, Copy, Debug)]
pub struct Camera {
    pub position: [u32; 3],
    pub yaw: u32,
    pub pitch: u32,
    pub rot: [u32; 9],
    pub aspect: u32,
    pub focal_length: u32,
    pub znear: u32,
    pub zfar: u32,
}

/// The camera record's bytes: position padded to four words, yaw and
/// pitch, the rotation matrix, padding to a four-word boundary, the four
/// projection scalars, and trailing padding to the record's stride.
pub open spec fn spec_camera_bytes(c: Camera) -> Seq<u8> {
    le4(c.position@[0]) + le4(c.position@[1]) + le4(c.position@[2]) + le4(0) + le4(c.yaw) + le4(
        c.pitch,
    ) + le4(c.rot@[0]) + le4(c.rot@[1]) + le4(c.rot@[2]) + le4(c.rot@[3]) + le4(c.rot@[4]) + le4(
        c.rot@[5],
    ) + le4(c.rot@[6]) + le4(c.rot@[7]) + le4(c.rot@[8]) + le4(0) + le4(0) + le4(0) + le4(c.aspect)
        + le4(c.focal_length) + le4(c.znear) + le4(c.zfar) + le4(0) + le4(0)
}

/// The identity rotation, column-major, as bit patterns.
pub fn identity_rot() -> (r: [u32; 9])
    ensures
        r@ == seq![
            F32_ONE_BITS, 0u32, 0u32,
            0u32, F32_ONE_BITS, 0u32,
            0u32, 0u32, F32_ONE_BITS,
        ],
{
    [F32_ONE_BITS, 0, 0, 0, F32_ONE_BITS, 0, 0, 0, F32_ONE_BITS]
}

impl Camera {
    /// The record's bytes, exactly as the kernel's alignment rules lay
    /// them out.
    #[verifier::rlimit(50)]
    pub fn to_bytes(&self) -> (r: Vec<u8>)
        ensures
            r@ == spec_camera_bytes(*self),
            r@.len() == CAMERA_SIZE,
    {
        let mut out: Vec<u8> = Vec::new();
        push_le4(&mut out, self.position[0]);
        push_le4(&mut out, self.position[1]);
        push_le4(&mut out, self.position[2]);
        push_le4(&mut out, 0);
        push_le4(&mut out, self.yaw);
        push_le4(&mut out, self.pitch);
        push_le4(&mut out, self.rot[0]);
        push_le4(&mut out, self.rot[1]);
        push_le4(&mut out, self.rot[2]);
        push_le4(&mut out, self.rot[3]);
        push_le4(&mut out, self.rot[4]);
        push_le4(&mut out, self.rot[5]);
        push_le4(&mut out, self.rot[6]);
        push_le4(&mut out, self.rot[7]);
        push_le4(&mut out, self.rot[8]);
        push_le4(&mut out, 0);
        push_le4(&mut out, 0);
        push_le4(&mut out, 0);
        push_le4(&mut out, self.aspect);
        push_le4(&mut out, self.focal_length);
        push_le4(&mut out, self.znear);
        push_le4(&mut out, self.zfar);
        push_le4(&mut out, 0);
        push_le4(&mut out, 0);
        proof {
            assert(out@ =~= spec_camera_bytes(*self));
        }
        out
    }
}

} // verus!
