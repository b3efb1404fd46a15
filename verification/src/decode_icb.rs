//! Replay of recorded dispatches from a compute indirect command buffer (ICB).
//!
//! A recording becomes a tape of commands. By default every command's buffer
//! addresses are frozen into an argument table, equal tables are shared, and
//! replay switches tables. With frozen binds the buffers sit in the ICB itself
//! and replay touches no argument table; consecutive commands between barrier
//! markers can then run as one range.

use vstd::prelude::*;

use crate::dispatch::capture_of;
use crate::runtime::GpuRuntime;
use crate::state::RuntimeState;

pub mod addresses;
pub mod graph;
pub mod holding;
pub mod laws;
pub mod recording;
pub mod replay;
pub mod tape;

pub use crate::capture::{DecodeIcbBind, DecodeIcbCapture, DecodeIcbCommand, TapeHold};
pub use crate::decode_icb::graph::{pipeline_icb, DecodeIcb, MIN_LAYER_GRAPH_COMMANDS};
pub use crate::icb_flags::{
    binder_encode_nop, decode_icb_enabled, icb_coarse_ranges_enabled, icb_freeze_binds_enabled,
    icb_pipelines_enabled, icb_range_batch_enabled, set_binder_encode_nop, set_decode_icb,
    set_icb_coarse_ranges, set_icb_freeze_binds, set_icb_pipelines, set_icb_range_batch,
    BinderEncodeNopGuard,
};

verus! {

/// Begins a recording; one in progress is dropped and lets its buffers go.
pub fn begin_decode_icb_capture(rt: &mut GpuRuntime)
    requires
        old(rt).inv(),
    ensures
        final(rt).inv(),
        final(rt)@ == old(rt)@.capture_begun(),
{
    rt.begin_capture();
}

/// Ends the recording and returns it with its handles of the buffers it binds;
/// `None` where there is none.
pub fn take_decode_icb_capture(rt: &mut GpuRuntime) -> (r: Option<DecodeIcbCapture>)
    requires
        old(rt).inv(),
    ensures
        final(rt).inv(),
        capture_of(r) == old(rt)@.capture,
        final(rt)@ == (RuntimeState { capture: None, ..old(rt)@ }),
{
    rt.take_capture()
}

/// A recording is in progress.
pub fn decode_icb_capture_active(rt: &GpuRuntime) -> (r: bool)
    ensures
        r == (rt@.capture is Some),
{
    rt.capture_active()
}

} // verus!
