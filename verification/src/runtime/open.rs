//! Opening a runtime: what came of finding the device, the kernel library and
//! the encode package decides what the caller gets.

use vstd::prelude::*;

use crate::ab_flags::AbFlags;
use crate::device::{DeviceInfo, Kernel};
use crate::icb_flags::IcbFlags;
use crate::infer_trace::InferTrace;
use crate::runtime::{fresh_runtime, GpuRuntime};
use crate::state::RuntimeState;
use crate::text::{owned, Msg};

verus! {

/// How far opening the device and its kernel library came.
pub enum Opened {
    /// The system has no default device.
    NoDevice,
    /// The library's path is not UTF-8; quoted as the host shows it.
    BadPath { quoted: String },
    /// Nothing is at the library's path.
    Missing { path: String },
    /// The library did not load.
    LoadFailed { error: String },
    /// The device has no Metal 4 encode package.
    NoEncodePackage { error: String },
    /// Everything is there.
    Ready { info: DeviceInfo, kernels: Vec<Kernel>, wired_budget: u64 },
}

impl Opened {
    /// What is wrong, in words.
    pub open spec fn problem(self) -> Option<Seq<char>> {
        match self {
            Opened::NoDevice => Some("MTLCreateSystemDefaultDevice returned nil"@),
            Opened::BadPath { quoted } => Some("non-utf8 metallib path: "@ + quoted@),
            Opened::Missing { path } => Some(
                "metallib missing at "@ + path@ + " (build.rs AOT failed?)"@,
            ),
            Opened::LoadFailed { error } => Some("load metallib: "@ + error@),
            Opened::NoEncodePackage { error } => Some(
                "Metal 4 encode package unavailable ("@ + error@
                    + "); metal-runtime requires Metal 4"@,
            ),
            Opened::Ready { .. } => None,
        }
    }
}

/// The runtime that an opening gives.
pub open spec fn opened_runtime(
    id: u64,
    opened: Opened,
    ab: AbFlags,
    icb: IcbFlags,
    trace: InferTrace,
) -> RuntimeState {
    fresh_runtime(
        id,
        opened->Ready_info,
        opened->Ready_kernels@,
        opened->Ready_wired_budget,
        ab,
        icb,
        trace,
    )
}

impl GpuRuntime {
    /// A runtime from what opening the device and its kernel library came to.
    pub fn from_metallib_path_opts(
        id: u64,
        opened: Opened,
        ab: AbFlags,
        icb: IcbFlags,
        trace: InferTrace,
    ) -> (r: Result<GpuRuntime, String>)
        ensures
            match opened.problem() {
                Some(m) => r is Err && r->Err_0@ == m,
                None => r is Ok && r->Ok_0.inv() && r->Ok_0@ == opened_runtime(
                    id,
                    opened,
                    ab,
                    icb,
                    trace,
                ),
            },
    {
        match opened {
            Opened::NoDevice => Err(owned("MTLCreateSystemDefaultDevice returned nil")),
            Opened::BadPath { quoted } => Err(
                Msg::new("non-utf8 metallib path: ").text(quoted.as_str()).done(),
            ),
            Opened::Missing { path } => Err(
                Msg::new("metallib missing at ").text(path.as_str()).text(
                    " (build.rs AOT failed?)",
                ).done(),
            ),
            Opened::LoadFailed { error } => Err(
                Msg::new("load metallib: ").text(error.as_str()).done(),
            ),
            Opened::NoEncodePackage { error } => Err(
                Msg::new("Metal 4 encode package unavailable (").text(error.as_str()).text(
                    "); metal-runtime requires Metal 4",
                ).done(),
            ),
            Opened::Ready { info, kernels, wired_budget } => Ok(
                GpuRuntime::new(id, info, kernels, wired_budget, ab, icb, trace),
            ),
        }
    }
}

} // verus!
