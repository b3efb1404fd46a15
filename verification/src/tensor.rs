//! Device buffers and the tensors that view them: shape, dtype and byte offset
//! over one allocation. No autodiff, no graph.

use vstd::prelude::*;

use crate::runtime::GpuRuntime;
use crate::sizes::{checked_product, ints, product, product_fits};
use crate::text::{first, owned, reports, unless};

pub mod copy;

pub use crate::tensor::copy::gpu_copy;

verus! {

/// Element type of a tensor.
#[derive(Clone, Copy, Debug, PartialEq, Eq, Structural)]
pub enum DType {
    F32,
    BF16,
    F16,
}

impl DType {
    /// Bytes per element.
    pub open spec fn bytes(self) -> int {
        match self {
            DType::F32 => 4,
            DType::BF16 => 2,
            DType::F16 => 2,
        }
    }

    /// Bytes per element.
    pub fn size_of(self) -> (r: usize)
        ensures
            r == self.bytes(),
    {
        match self {
            DType::F32 => 4,
            DType::BF16 => 2,
            DType::F16 => 2,
        }
    }
}

/// Residency / recycle policy for pooled buffers.
#[derive(Clone, Copy, Debug, PartialEq, Eq, Structural)]
pub enum BufferKind {
    /// Mid-step temporaries: recycled once the device has caught up.
    Cold,
    /// Long-lived storage: stays resident for the run.
    Hot,
    /// Bump slab: retired after its last owner lets go.
    Bump,
}

/// One piece of device storage.
#[derive(Clone, Copy, Debug, PartialEq, Eq, Structural)]
pub struct Slab {
    pub id: u64,
    pub length: usize,
    /// Where the device sees the first byte.
    pub address: u64,
}

/// What a buffer handle names: `nbytes` requested bytes on a slab that may be
/// longer. Plain data; holding it keeps nothing alive.
#[derive(Clone, Copy, Debug, PartialEq, Eq, Structural)]
pub struct Storage {
    pub slab: Slab,
    pub nbytes: usize,
    pub kind: BufferKind,
    /// Runtime that owns the storage.
    pub runtime: u64,
}

impl Storage {
    /// The slab has a rounded length and covers the request.
    pub open spec fn wf(self) -> bool {
        crate::pool::is_bucket(self.slab.length as int) && self.nbytes <= self.slab.length
    }

    /// Both name the same slab.
    pub fn aliases(&self, other: &Storage) -> (r: bool)
        ensures
            r == (self.slab.id == other.slab.id),
    {
        self.slab.id == other.slab.id
    }
}

/// Owning handle to a device allocation. Its runtime counts the handles of every
/// slab: another one is made by [`crate::runtime::GpuRuntime::share_buffer`], and
/// one is given up by [`crate::runtime::GpuRuntime::recycle_buffer`], which takes
/// it. A handle that is merely dropped stays counted.
#[derive(Debug)]
pub struct GpuBuffer {
    at: Storage,
}

impl View for GpuBuffer {
    type V = Storage;

    closed spec fn view(&self) -> Storage {
        self.at
    }
}

impl GpuBuffer {
    /// A handle of `at`; the runtime that makes it has counted it.
    pub(crate) fn handle(at: Storage) -> (r: GpuBuffer)
        ensures
            r@ == at,
    {
        GpuBuffer { at }
    }

    /// What the handle names.
    pub fn at(&self) -> (r: Storage)
        ensures
            r == self@,
    {
        self.at
    }

    /// Requested size in bytes.
    pub fn nbytes(&self) -> (r: usize)
        ensures
            r == self@.nbytes,
    {
        self.at.nbytes
    }

    /// Which residency pool this buffer came from.
    pub fn kind(&self) -> (r: BufferKind)
        ensures
            r == self@.kind,
    {
        self.at.kind
    }

    /// Both handles name the same device storage.
    pub fn aliases(&self, other: &GpuBuffer) -> (r: bool)
        ensures
            r == (self@.slab.id == other@.slab.id),
    {
        self.at.slab.id == other.at.slab.id
    }

    /// The buffer's storage belongs to the runtime numbered `runtime`.
    pub fn belongs_to(&self, runtime: u64) -> (r: bool)
        ensures
            r == (self@.runtime == runtime),
    {
        self.at.runtime == runtime
    }
}

/// What is wrong with a shape of `bytes`-sized elements: nothing, or its
/// element count or byte size overflows.
pub open spec fn shape_problem(shape: Seq<usize>, bytes: int) -> Option<Seq<char>> {
    first(
        unless(product_fits(ints(shape)), "tensor element count overflow"@),
        unless(product(ints(shape)) * bytes <= isize::MAX, "tensor byte size overflow"@),
    )
}

/// Checked storage size shared by allocation, views, and kernel validation.
pub fn checked_nbytes(shape: &[usize], dtype: DType) -> (r: Result<usize, String>)
    ensures
        reports(r, shape_problem(shape@, dtype.bytes())),
        r matches Ok(n) ==> n == product(ints(shape@)) * dtype.bytes() && n <= isize::MAX,
{
    let n: usize = match checked_product(shape) {
        Some(n) => n,
        None => {
            return Err(owned("tensor element count overflow"));
        },
    };
    match n.checked_mul(dtype.size_of()) {
        Some(bytes) => {
            if bytes <= isize::MAX as usize {
                Ok(bytes)
            } else {
                Err(owned("tensor byte size overflow"))
            }
        },
        None => Err(owned("tensor byte size overflow")),
    }
}

/// Logical tensor: shape + dtype over a buffer (row-major, contiguous view).
pub struct Tensor {
    pub buffer: GpuBuffer,
    pub shape: Vec<usize>,
    pub dtype: DType,
    /// Byte offset into `buffer` for bank / slice views.
    pub byte_offset: usize,
    /// Runtime the tensor belongs to.
    pub runtime: u64,
}

/// Copy of a shape.
pub fn copy_shape(shape: &[usize]) -> (r: Vec<usize>)
    ensures
        r@ == shape@,
{
    let mut r: Vec<usize> = Vec::new();
    let mut i: usize = 0;
    while i < shape.len()
        invariant
            i <= shape@.len(),
            r@ == shape@.take(i as int),
        decreases shape@.len() - i,
    {
        r.push(shape[i]);
        assert(shape@.take(i + 1) == shape@.take(i as int).push(shape@[i as int]));
        i += 1;
    }
    assert(shape@.take(i as int) == shape@);
    r
}

impl Tensor {
    /// Elements in the view.
    pub open spec fn count(&self) -> int {
        product(ints(self.shape@))
    }

    /// Bytes the view spans.
    pub open spec fn span(&self) -> int {
        self.count() * self.dtype.bytes()
    }

    /// What is wrong with the tensor's metadata, if anything: its size
    /// overflows, its view is misaligned or leaves the buffer, or the buffer is
    /// another runtime's.
    pub open spec fn problem(&self) -> Option<Seq<char>> {
        first(
            shape_problem(self.shape@, self.dtype.bytes()),
            first(
                unless(
                    self.byte_offset as int % self.dtype.bytes() == 0 && self.byte_offset
                        + self.span() <= self.buffer@.nbytes,
                    "tensor view is misaligned or out of bounds"@,
                ),
                unless(
                    self.buffer@.runtime == self.runtime,
                    "tensor buffer belongs to a different runtime"@,
                ),
            ),
        )
    }

    /// The metadata describes an aligned view inside the buffer.
    pub open spec fn valid(&self) -> bool {
        self.problem() is None
    }

    /// Elements in the view.
    pub fn numel(&self) -> (r: usize)
        requires
            product_fits(ints(self.shape@)),
        ensures
            r == self.count(),
    {
        match checked_product(self.shape.as_slice()) {
            Some(n) => n,
            None => 0,
        }
    }

    /// Bytes the view spans.
    pub fn nbytes_logical(&self) -> (r: usize)
        requires
            product_fits(ints(self.shape@)),
            self.span() <= usize::MAX,
        ensures
            r == self.span(),
    {
        self.numel() * self.dtype.size_of()
    }

    /// Runtime the tensor belongs to.
    pub fn runtime(&self) -> (r: u64)
        ensures
            r == self.runtime,
    {
        self.runtime
    }

    /// Builds a tensor over an existing buffer at `byte_offset`, running the
    /// validation every dispatch relies on. A refused buffer is given up.
    pub fn from_buffer(
        rt: &mut GpuRuntime,
        buffer: GpuBuffer,
        shape: &[usize],
        dtype: DType,
        byte_offset: usize,
    ) -> (r: Result<Tensor, String>)
        requires
            old(rt).inv(),
        ensures
            final(rt).inv(),
            ({
                let bytes = product(ints(shape@)) * dtype.bytes();
                reports(
                    r,
                    first(
                        shape_problem(shape@, dtype.bytes()),
                        first(
                            unless(
                                byte_offset as int % dtype.bytes() == 0 && byte_offset + bytes
                                    <= buffer@.nbytes,
                                "tensor view is misaligned or out of bounds"@,
                            ),
                            unless(
                                buffer@.runtime == old(rt)@.id,
                                "tensor buffer belongs to a different runtime"@,
                            ),
                        ),
                    ),
                )
            }),
            r matches Ok(t) ==> t.buffer == buffer && t.shape@ == shape@ && t.dtype == dtype
                && t.byte_offset == byte_offset && t.runtime == old(rt)@.id && t.valid(),
            final(rt)@ == if r is Ok {
                old(rt)@
            } else {
                old(rt)@.retired(buffer@)
            },
    {
        let t = Tensor { buffer, shape: copy_shape(shape), dtype, byte_offset, runtime: rt.id() };
        match t.validate() {
            Ok(()) => Ok(t),
            Err(e) => {
                rt.recycle_buffer(t.buffer);
                Err(e)
            },
        }
    }

    /// A view of `shape` at `elem_offset` elements into this one lies inside
    /// the buffer.
    pub open spec fn admits_view(&self, shape: Seq<usize>, elem_offset: int) -> bool {
        &&& self.valid()
        &&& shape_problem(shape, self.dtype.bytes()) is None
        &&& self.byte_offset + elem_offset * self.dtype.bytes() + product(ints(shape))
            * self.dtype.bytes() <= self.buffer@.nbytes
    }

    /// View into the same buffer at an element offset (same dtype), with a handle
    /// of its own.
    pub fn view(&self, rt: &mut GpuRuntime, shape: &[usize], elem_offset: usize) -> (t: Tensor)
        requires
            old(rt).inv(),
            self.runtime == old(rt)@.id,
            self.admits_view(shape@, elem_offset as int),
        ensures
            final(rt).inv(),
            final(rt)@ == old(rt)@.shared(self.buffer@),
            t.buffer@ == self.buffer@,
            t.shape@ == shape@,
            t.dtype == self.dtype,
            t.byte_offset == self.byte_offset + elem_offset * self.dtype.bytes(),
            t.runtime == self.runtime,
            t.valid(),
    {
        proof {
            lemma_view_fits(*self, shape@, elem_offset as int);
        }
        let off: usize = self.byte_offset + elem_offset * self.dtype.size_of();
        Tensor {
            buffer: rt.share_buffer(&self.buffer),
            shape: copy_shape(shape),
            dtype: self.dtype,
            byte_offset: off,
            runtime: self.runtime,
        }
    }

    /// [`Self::view`] where it is admitted, `None` elsewhere.
    pub fn try_view(&self, rt: &mut GpuRuntime, shape: &[usize], elem_offset: usize) -> (r: Option<
        Tensor,
    >)
        requires
            old(rt).inv(),
        ensures
            final(rt).inv(),
            final(rt)@ == if r is Some {
                old(rt)@.shared(self.buffer@)
            } else {
                old(rt)@
            },
            match r {
                Some(t) => {
                    &&& self.admits_view(shape@, elem_offset as int)
                    &&& self.runtime == old(rt)@.id
                    &&& t.buffer@ == self.buffer@
                    &&& t.shape@ == shape@
                    &&& t.dtype == self.dtype
                    &&& t.byte_offset == self.byte_offset + elem_offset * self.dtype.bytes()
                    &&& t.runtime == self.runtime
                    &&& t.valid()
                },
                None => !(self.admits_view(shape@, elem_offset as int) && self.runtime
                    == old(rt)@.id),
            },
    {
        if self.validate().is_err() {
            return None;
        }
        let bytes: usize = match checked_nbytes(shape, self.dtype) {
            Ok(n) => n,
            Err(_) => {
                return None;
            },
        };
        proof {
            vstd::arithmetic::mul::lemma_mul_nonnegative(elem_offset as int, self.dtype.bytes());
        }
        let shift: usize = match elem_offset.checked_mul(self.dtype.size_of()) {
            Some(n) => n,
            None => {
                return None;
            },
        };
        let off: usize = match self.byte_offset.checked_add(shift) {
            Some(n) => n,
            None => {
                return None;
            },
        };
        match off.checked_add(bytes) {
            Some(end) => {
                if end <= self.buffer.nbytes() && self.runtime == rt.id() {
                    Some(self.view(rt, shape, elem_offset))
                } else {
                    None
                }
            },
            None => None,
        }
    }

    /// Validates public metadata before passing a view to a kernel.
    pub fn validate(&self) -> (r: Result<(), String>)
        ensures
            reports(r, self.problem()),
    {
        let bytes: usize = match checked_nbytes(self.shape.as_slice(), self.dtype) {
            Ok(n) => n,
            Err(e) => {
                return Err(e);
            },
        };
        let inside = match self.byte_offset.checked_add(bytes) {
            Some(end) => end <= self.buffer.nbytes(),
            None => false,
        };
        if self.byte_offset % self.dtype.size_of() != 0 || !inside {
            return Err(owned("tensor view is misaligned or out of bounds"));
        }
        if !self.buffer.belongs_to(self.runtime) {
            return Err(owned("tensor buffer belongs to a different runtime"));
        }
        Ok(())
    }

    /// The two views share at least one byte of one allocation.
    pub open spec fn meets(&self, other: &Tensor) -> bool {
        &&& self.buffer@.slab.id == other.buffer@.slab.id
        &&& self.byte_offset < other.byte_offset + other.span()
        &&& other.byte_offset < self.byte_offset + self.span()
    }

    /// The two views share at least one byte of one allocation.
    pub fn overlaps(&self, other: &Tensor) -> (r: bool)
        requires
            self.valid(),
            other.valid(),
        ensures
            r == self.meets(other),
    {
        proof {
            lemma_span(*self);
            lemma_span(*other);
        }
        self.buffer.aliases(&other.buffer) && self.byte_offset < other.byte_offset
            + other.nbytes_logical() && other.byte_offset < self.byte_offset
            + self.nbytes_logical()
    }
}

/// A valid tensor's span is not negative and ends inside the buffer.
pub proof fn lemma_span(t: Tensor)
    requires
        t.valid(),
    ensures
        0 <= t.count(),
        0 <= t.span(),
        t.byte_offset + t.span() <= t.buffer@.nbytes,
        product_fits(ints(t.shape@)),
        t.count() <= usize::MAX,
{
    crate::sizes::lemma_product_nonneg(ints(t.shape@), t.shape@.len() as int);
    assert(product_to_last(t.shape@));
    assert(t.count() * t.dtype.bytes() >= 0) by (nonlinear_arith)
        requires
            t.count() >= 0,
            t.dtype.bytes() >= 0,
    ;
}

spec fn product_to_last(shape: Seq<usize>) -> bool {
    crate::sizes::product_to(ints(shape), shape.len() as int) == product(ints(shape))
}

proof fn lemma_view_fits(t: Tensor, shape: Seq<usize>, elem_offset: int)
    requires
        t.admits_view(shape, elem_offset),
        elem_offset >= 0,
    ensures
        0 <= elem_offset * t.dtype.bytes() <= usize::MAX,
        t.byte_offset + elem_offset * t.dtype.bytes() <= usize::MAX,
        product(ints(shape)) * t.dtype.bytes() >= 0,
        (t.byte_offset + elem_offset * t.dtype.bytes()) % t.dtype.bytes() == 0,
{
    crate::sizes::lemma_product_nonneg(ints(shape), shape.len() as int);
    let b = t.dtype.bytes();
    let n = product(ints(shape));
    assert(n * b >= 0) by (nonlinear_arith)
        requires
            n >= 0,
            b >= 0,
    ;
    assert(elem_offset * b >= 0) by (nonlinear_arith)
        requires
            elem_offset >= 0,
            b >= 0,
    ;
    let o = t.byte_offset as int;
    vstd::arithmetic::div_mod::lemma_mod_multiples_vanish(elem_offset, o, b);
    assert(b * elem_offset + o == o + elem_offset * b) by (nonlinear_arith);
}

/// A view of a valid tensor never leaves the buffer the tensor views, and a
/// view taken of a view reaches no byte outside it.
pub proof fn law_views_stay_inside(t: Tensor, shape: Seq<usize>, elem_offset: int)
    requires
        t.admits_view(shape, elem_offset),
        elem_offset >= 0,
    ensures
        t.byte_offset + elem_offset * t.dtype.bytes() + product(ints(shape)) * t.dtype.bytes()
            <= t.buffer@.nbytes,
        0 <= t.byte_offset + elem_offset * t.dtype.bytes(),
        (t.byte_offset + elem_offset * t.dtype.bytes()) % t.dtype.bytes() == 0,
{
    lemma_view_fits(t, shape, elem_offset);
}

/// Overlap does not depend on the order in which two views are named.
pub proof fn law_overlap_is_symmetric(a: Tensor, b: Tensor)
    ensures
        a.meets(&b) == b.meets(&a),
{
}

/// Views that do not overlap share no byte: no byte position of the common
/// allocation lies in both.
pub proof fn law_disjoint_views_share_no_byte(a: Tensor, b: Tensor, at: int)
    requires
        a.buffer@.slab.id == b.buffer@.slab.id,
        !a.meets(&b),
        a.span() > 0,
        b.span() > 0,
    ensures
        !(a.byte_offset <= at < a.byte_offset + a.span() && b.byte_offset <= at < b.byte_offset
            + b.span()),
{
}

// ---------------------------------------------------------------- bf16 -----

/// An `f32` bit pattern is a NaN.
pub open spec fn is_nan_bits(bits: u32) -> bool {
    bits as int % 0x8000_0000 > 0x7f80_0000
}

/// A bf16 bit pattern is a NaN.
pub open spec fn is_nan_bf16(b: u16) -> bool {
    b as int % 0x8000 > 0x7f80
}

/// The bf16 pattern nearest to an `f32` pattern, ties to even; a NaN keeps its
/// upper half and is made quiet.
pub open spec fn bf16_of(bits: u32) -> u16 {
    let upper = bits / 0x1_0000;
    let lower = bits % 0x1_0000;
    if is_nan_bits(bits) {
        (upper as u16) | 0x0040
    } else if lower > 0x8000 || (lower == 0x8000 && upper % 2 == 1) {
        (upper + 1) as u16
    } else {
        upper as u16
    }
}

/// `f32` bit pattern to bf16 bit pattern (round to nearest, ties to even).
pub fn f32_to_bf16_bits(bits: u32) -> (r: u16)
    ensures
        r == bf16_of(bits),
{
    assert(bits & 0x7fff_ffff == bits % 0x8000_0000u32) by (bit_vector);
    assert(bits >> 16 == bits / 0x1_0000u32) by (bit_vector);
    if bits & 0x7fff_ffff > 0x7f80_0000 {
        return ((bits >> 16) as u16) | 0x0040;
    }
    let half: u32 = (bits >> 16) & 1;
    assert(half == (bits / 0x1_0000u32) % 2) by (bit_vector)
        requires
            half == (bits >> 16) & 1,
    ;
    let sum: u32 = bits + 0x7FFF + half;
    assert(sum >> 16 == sum / 0x1_0000u32) by (bit_vector);
    let round: u32 = sum >> 16;
    round as u16
}

/// bf16 bit pattern to the `f32` bit pattern of the same value.
pub fn bf16_bits_to_f32(b: u16) -> (r: u32)
    ensures
        r == b * 0x1_0000,
{
    let wide: u32 = b as u32;
    assert(wide < 0x1_0000 ==> wide << 16 == wide * 0x1_0000) by (bit_vector);
    wide << 16
}

/// Element-wise [`f32_to_bf16_bits`].
pub fn f32_slice_to_bf16(data: &[u32]) -> (r: Vec<u16>)
    ensures
        r@.len() == data@.len(),
        forall|i: int| 0 <= i < data@.len() ==> r@[i] == bf16_of(#[trigger] data@[i]),
{
    let mut r: Vec<u16> = Vec::new();
    let mut i: usize = 0;
    while i < data.len()
        invariant
            i <= data@.len(),
            r@.len() == i,
            forall|k: int| 0 <= k < i ==> r@[k] == bf16_of(#[trigger] data@[k]),
        decreases data@.len() - i,
    {
        r.push(f32_to_bf16_bits(data[i]));
        i += 1;
    }
    r
}

/// Every bf16 value that is not a NaN survives the trip to `f32` and back.
pub proof fn law_bf16_round_trip(b: u16)
    requires
        !is_nan_bf16(b),
    ensures
        bf16_of((b * 0x1_0000) as u32) == b,
{
    let bits = (b * 0x1_0000) as u32;
    assert(bits == b * 0x1_0000);
    assert(bits / 0x1_0000 == b as u32);
    assert(bits % 0x1_0000 == 0);
    assert(bits as int % 0x8000_0000 == (b as int % 0x8000) * 0x1_0000);
}

/// A NaN stays a NaN when narrowed, and nothing else becomes one.
pub proof fn law_bf16_preserves_nan(bits: u32)
    ensures
        is_nan_bits((bf16_of(bits) * 0x1_0000) as u32) == is_nan_bits(bits),
{
    let r = bf16_of(bits);
    assert((r * 0x1_0000) as u32 as int % 0x8000_0000 == (r as int % 0x8000) * 0x1_0000);
    let upper = (bits / 0x1_0000) as u16;
    assert(upper as int == bits as int / 0x1_0000);
    assert(bits as int % 0x8000_0000 == (upper as int % 0x8000) * 0x1_0000 + bits as int % 0x1_0000);
    if is_nan_bits(bits) {
        assert((upper | 0x0040) % 0x8000u16 > 0x7f80) by (bit_vector)
            requires
                upper % 0x8000u16 >= 0x7f80,
        ;
    }
}

/// Rounding is to nearest: a finite pattern moves by at most half a bf16 step.
pub proof fn law_bf16_rounds_to_nearest(bits: u32)
    requires
        !is_nan_bits(bits),
    ensures
        -0x8000 <= bf16_of(bits) * 0x1_0000 - bits <= 0x8000,
        bits % 0x1_0000 == 0x8000 ==> bf16_of(bits) % 2 == 0,
{
}

} // verus!
