//! Native quantized tensors: which element types the device's tensor interface
//! has, what a tensor descriptor may hold, and binding a tensor to a slot.

use vstd::prelude::*;

use crate::device::ARGUMENT_TABLE_MAX_BUFFERS;
use crate::dispatch::Binder;
use crate::runtime::GpuRuntime;
use crate::tensor::{copy_shape, GpuBuffer, Storage};
use crate::text::{decimal, first, owned, reports, unless, Msg};

verus! {

/// Quantized element type.
#[derive(Clone, Copy, Debug, PartialEq, Eq, Structural)]
pub enum QuantDType {
    /// The device's tensor interface has it.
    Int8,
    /// It has no host-side name for it yet.
    Int4,
    /// Scale planes; it has no host-side name for them yet.
    Fp8E8M0,
}

/// Element types of the device's tensor interface that are in use.
#[derive(Clone, Copy, Debug, PartialEq, Eq, Structural)]
pub enum TensorDataType {
    Int8,
}

impl QuantDType {
    /// What keeps the type from the device's tensor interface.
    pub open spec fn problem(self) -> Option<Seq<char>> {
        match self {
            QuantDType::Int8 => None,
            QuantDType::Int4 => Some(
                "MTLTensorDataType Int4 is not in objc2-metal 0.3 (WWDC26-330), so a host-created Int4 MTLTensor cannot be described. Note this gates only the host descriptor path: TensorOps itself accepts int4b_format, and kernels building tensors from device pointers are unaffected."@,
            ),
            QuantDType::Fp8E8M0 => Some(
                "FP8 E8M0 MTLTensor scale planes require newer Metal SDK (macOS 27+ notes)"@,
            ),
        }
    }

    /// The type in the device's tensor interface.
    pub fn to_mtl(self) -> (r: Result<TensorDataType, String>)
        ensures
            reports(r, self.problem()),
    {
        match self {
            QuantDType::Int8 => Ok(TensorDataType::Int8),
            QuantDType::Int4 => Err(
                owned(
                    "MTLTensorDataType Int4 is not in objc2-metal 0.3 (WWDC26-330), so a host-created Int4 MTLTensor cannot be described. Note this gates only the host descriptor path: TensorOps itself accepts int4b_format, and kernels building tensors from device pointers are unaffected.",
                ),
            ),
            QuantDType::Fp8E8M0 => Err(
                owned("FP8 E8M0 MTLTensor scale planes require newer Metal SDK (macOS 27+ notes)"),
            ),
        }
    }

    /// Bits one element takes.
    pub open spec fn bits(self) -> int {
        match self {
            QuantDType::Int8 => 8,
            QuantDType::Int4 => 4,
            QuantDType::Fp8E8M0 => 8,
        }
    }

    /// Bytes one element takes, as the bit pattern of a float: 1, or a half.
    pub fn bytes_per_elem_hint(self) -> (r: u32)
        ensures
            r == (if self.bits() == 8 {
                0x3f80_0000int
            } else {
                0x3f00_0000
            }),
    {
        match self {
            QuantDType::Int8 => 0x3f80_0000,
            QuantDType::Int4 => 0x3f00_0000,
            QuantDType::Fp8E8M0 => 0x3f80_0000,
        }
    }
}

/// A quantized prefill GEMM exists over host-created tensors. It does not: the
/// int8 GEMM of [`crate::nn`] builds its tensors from device pointers.
pub const QUANT_PREFILL_GEMM_WIRED: bool = false;

/// Which element types and paths are ready.
#[derive(Debug)]
pub struct NaxVerifyReadiness {
    pub int8_tensorops_dtype: bool,
    pub int4_tensorops_dtype: bool,
    pub fp8_e8m0_tensorops_dtype: bool,
    pub quant_prefill_gemm_wired: bool,
    pub note: &'static str,
}

/// Which element types and paths are ready. Asks nothing of the device.
pub fn nax_verify_readiness() -> (r: NaxVerifyReadiness)
    ensures
        r.int8_tensorops_dtype == (QuantDType::Int8.problem() is None),
        r.int4_tensorops_dtype == (QuantDType::Int4.problem() is None),
        r.fp8_e8m0_tensorops_dtype == (QuantDType::Fp8E8M0.problem() is None),
        r.quant_prefill_gemm_wired == QUANT_PREFILL_GEMM_WIRED,
        r.note@
            == "Int4 unbound in objc2-metal 0.3; verify(M) = hand simdgroup Q4; TensorOps Q4 not shipped"@,
{
    NaxVerifyReadiness {
        int8_tensorops_dtype: QuantDType::Int8.to_mtl().is_ok(),
        int4_tensorops_dtype: QuantDType::Int4.to_mtl().is_ok(),
        fp8_e8m0_tensorops_dtype: QuantDType::Fp8E8M0.to_mtl().is_ok(),
        quant_prefill_gemm_wired: QUANT_PREFILL_GEMM_WIRED,
        note: "Int4 unbound in objc2-metal 0.3; verify(M) = hand simdgroup Q4; TensorOps Q4 not shipped",
    }
}

/// Most dimensions of a tensor.
pub const MAX_TENSOR_RANK: usize = 16;

/// What a tensor is made from: shared storage, for compute.
#[derive(Debug)]
pub struct TensorDescriptor {
    pub dims: Vec<usize>,
    pub dtype: TensorDataType,
}

/// What keeps extents from being a tensor's.
pub open spec fn rank_problem(rank: nat) -> Option<Seq<char>> {
    unless(
        1 <= rank <= MAX_TENSOR_RANK,
        "MTLTensor rank "@ + decimal(rank) + " out of range 1..=16"@,
    )
}

/// A descriptor of these extents.
pub fn make_descriptor(dims: &[usize], dtype: TensorDataType) -> (r: Result<
    TensorDescriptor,
    String,
>)
    ensures
        reports(r, rank_problem(dims@.len())),
        r matches Ok(d) ==> d.dims@ == dims@ && d.dtype == dtype,
{
    if dims.len() == 0 || dims.len() > MAX_TENSOR_RANK {
        return Err(
            Msg::new("MTLTensor rank ").num(dims.len()).text(" out of range 1..=16").done(),
        );
    }
    Ok(TensorDescriptor { dims: copy_shape(dims), dtype })
}

/// A descriptor for a quantized tensor, to size or to make it by.
pub fn plan_tensor(dims: &[usize], dtype: QuantDType) -> (r: Result<TensorDescriptor, String>)
    ensures
        reports(r, first(dtype.problem(), rank_problem(dims@.len()))),
        r matches Ok(d) ==> d.dims@ == dims@,
{
    let mtl = dtype.to_mtl()?;
    make_descriptor(dims, mtl)
}

/// A tensor of the device.
pub struct GpuTensor {
    /// How the device names it.
    pub resource: u64,
    pub dtype: TensorDataType,
    pub dims: Vec<usize>,
    /// The buffer it views, where it has no storage of its own.
    pub storage: Option<GpuBuffer>,
    pub runtime: u64,
}

/// The tensor that `made` is the device's answer for.
pub open spec fn tensor_made(
    r: Result<GpuTensor, String>,
    made: Result<u64, String>,
    call: Seq<char>,
    desc: TensorDescriptor,
    storage: Option<Storage>,
    runtime: u64,
) -> bool {
    match made {
        Err(e) => r is Err && r->Err_0@ == call + ": "@ + e@,
        Ok(resource) => {
            &&& r is Ok
            &&& r->Ok_0.resource == resource
            &&& r->Ok_0.dtype == desc.dtype
            &&& r->Ok_0.dims@ == desc.dims@
            &&& match storage {
                Some(s) => r->Ok_0.storage is Some && r->Ok_0.storage->0@ == s,
                None => r->Ok_0.storage is None,
            }
            &&& r->Ok_0.runtime == runtime
        },
    }
}

/// The tensor the device made with storage of its own, from its answer.
pub fn alloc_device_tensor(
    rt: &GpuRuntime,
    desc: TensorDescriptor,
    made: Result<u64, String>,
) -> (r: Result<GpuTensor, String>)
    ensures
        tensor_made(r, made, "newTensorWithDescriptor"@, desc, None, rt@.id),
{
    match made {
        Err(e) => Err(Msg::new("newTensorWithDescriptor").text(": ").text(e.as_str()).done()),
        Ok(resource) => Ok(
            GpuTensor {
                resource,
                dtype: desc.dtype,
                dims: desc.dims,
                storage: None,
                runtime: rt.id(),
            },
        ),
    }
}

/// Refuses an offset that the device's alignment for the descriptor does not
/// divide.
pub fn check_tensor_offset(byte_offset: usize, align: usize) -> (r: Result<(), String>)
    requires
        align > 0,
    ensures
        reports(
            r,
            unless(
                byte_offset % align == 0,
                "tensor buffer offset "@ + decimal(byte_offset as nat) + " not aligned to "@
                    + decimal(align as nat),
            ),
        ),
{
    if byte_offset % align != 0 {
        return Err(
            Msg::new("tensor buffer offset ").num(byte_offset).text(" not aligned to ").num(
                align,
            ).done(),
        );
    }
    Ok(())
}

/// The tensor the device made over a buffer, from its answer. The tensor has a
/// handle of the buffer.
pub fn tensor_from_buffer(
    rt: &mut GpuRuntime,
    buf: &GpuBuffer,
    desc: TensorDescriptor,
    made: Result<u64, String>,
) -> (r: Result<GpuTensor, String>)
    requires
        old(rt).inv(),
        buf@.runtime == old(rt)@.id,
    ensures
        final(rt).inv(),
        tensor_made(r, made, "buffer.newTensor"@, desc, Some(buf@), old(rt)@.id),
        final(rt)@ == if made is Ok {
            old(rt)@.shared(buf@)
        } else {
            old(rt)@
        },
{
    proof {
        crate::runtime::lemma_handles_frame(rt@, buf@);
    }
    match made {
        Err(e) => Err(Msg::new("buffer.newTensor").text(": ").text(e.as_str()).done()),
        Ok(resource) => Ok(
            GpuTensor {
                resource,
                dtype: desc.dtype,
                dims: desc.dims,
                storage: Some(rt.share_buffer(buf)),
                runtime: rt.id(),
            },
        ),
    }
}

impl GpuTensor {
    /// How the device names the tensor.
    pub fn gpu_resource_id(&self) -> (r: u64)
        ensures
            r == self.resource,
    {
        self.resource
    }

    /// Element type.
    pub fn data_type(&self) -> (r: TensorDataType)
        ensures
            r == self.dtype,
    {
        self.dtype
    }
}

/// What refuses a slot for a tensor.
pub open spec fn slot_problem(index: usize) -> Option<Seq<char>> {
    unless(
        index < ARGUMENT_TABLE_MAX_BUFFERS,
        "MTLTensor bind index "@ + decimal(index as nat)
            + " out of range: argument table has "@ + decimal(
            ARGUMENT_TABLE_MAX_BUFFERS as nat,
        ) + " buffer slots (0..="@ + decimal((ARGUMENT_TABLE_MAX_BUFFERS - 1) as nat) + ")"@,
    )
}

/// Binds a tensor to a slot of the argument table. A slot past the table is
/// refused and nothing is bound.
pub fn bind_mtl_tensor(bnd: &mut Binder, t: &GpuTensor, index: usize) -> (r: Result<(), String>)
    ensures
        reports(r, slot_problem(index)),
        final(bnd)@ == if slot_problem(index) is None {
            old(bnd)@.bound_resource(t.resource, index)
        } else {
            old(bnd)@
        },
{
    if index >= ARGUMENT_TABLE_MAX_BUFFERS {
        return Err(
            Msg::new("MTLTensor bind index ").num(index).text(
                " out of range: argument table has ",
            ).num(ARGUMENT_TABLE_MAX_BUFFERS).text(" buffer slots (0..=").num(
                ARGUMENT_TABLE_MAX_BUFFERS - 1,
            ).text(")").done(),
        );
    }
    bnd.bind_resource_id(t.gpu_resource_id(), index);
    Ok(())
}

} // verus!
