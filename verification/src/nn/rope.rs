//! Fused per-head RMSNorm, QKV scaling and rotary embedding.

use vstd::prelude::*;

use crate::device::Pipeline;
use crate::dispatch::{launch_groups, Bind};
use crate::nn::check::{
    at, at_opt, bind_list, buf, disjoint_problem, elems, encodes, float, float_at, indexing_problem,
    nonnegative, overflow_message, positive, require, require_1d_indexable,
    require_disjoint_writes, require_problem, storage_of, word, word_at, WORD,
};
use crate::runtime::GpuRuntime;
use crate::sizes::{ceil_div, div_ceil, least, min_usize};
use crate::state::RuntimeState;
use crate::tensor::{GpuBuffer, Storage};
use crate::text::{decimal, first, join, owned, reports, unless, Msg};
use crate::nn::rope_laws::{law_rope, rope_seen};
use crate::seen::in_view;

verus! {

// ------------------------------------------------------------ dimensions ---

/// Shapes and scalars of the fused normalization and rotary embedding.
#[derive(Clone, Copy, Debug, PartialEq, Eq, Structural)]
pub struct QkvRopeDims {
    /// Positions of the dispatch.
    pub t: u32,
    /// Query heads.
    pub heads_q: u32,
    /// Key/value heads.
    pub heads_kv: u32,
    /// Head dimension.
    pub head_dim: u32,
    /// Leading slice of each head that is rotated.
    pub rotary_dim: u32,
    /// Base frequency, as a float's bit pattern.
    pub theta: u32,
    /// Normalization epsilon, as a float's bit pattern.
    pub eps: u32,
}

impl QkvRopeDims {
    /// What is wrong with the dimensions.
    pub open spec fn problem(self, what: Seq<char>) -> Option<Seq<char>> {
        first(
            unless(self.head_dim != 0, what + ": head_dim must be non-zero"@),
            first(
                unless(
                    self.rotary_dim <= self.head_dim,
                    what + ": rotary_dim "@ + decimal(self.rotary_dim as nat)
                        + " exceeds head_dim "@ + decimal(self.head_dim as nat)
                        + " — RoPE would rotate past the end of each head"@,
                ),
                first(
                    unless(
                        self.rotary_dim % 2 == 0,
                        what + ": rotary_dim "@ + decimal(self.rotary_dim as nat)
                            + " is odd; RoPE rotates (even, odd) pairs"@,
                    ),
                    first(
                        unless(positive(self.theta), what + ": theta must be finite and positive"@),
                        unless(
                            nonnegative(self.eps),
                            what + ": eps must be finite and non-negative"@,
                        ),
                    ),
                ),
            ),
        )
    }

    fn validate(&self, what: &str) -> (r: Result<(), String>)
        ensures
            reports(r, self.problem(what@)),
    {
        if self.head_dim == 0 {
            return Err(join(what, ": head_dim must be non-zero"));
        }
        if self.rotary_dim > self.head_dim {
            return Err(
                Msg::new(what).text(": rotary_dim ").num(self.rotary_dim as usize).text(
                    " exceeds head_dim ",
                ).num(self.head_dim as usize).text(
                    " — RoPE would rotate past the end of each head",
                ).done(),
            );
        }
        if self.rotary_dim % 2 != 0 {
            return Err(
                Msg::new(what).text(": rotary_dim ").num(self.rotary_dim as usize).text(
                    " is odd; RoPE rotates (even, odd) pairs",
                ).done(),
            );
        }
        if !(0 < self.theta && self.theta < 0x7f80_0000) {
            return Err(join(what, ": theta must be finite and positive"));
        }
        if !(self.eps < 0x7f80_0000 || self.eps == 0x8000_0000) {
            return Err(join(what, ": eps must be finite and non-negative"));
        }
        Ok(())
    }

    /// Head rows of a dispatch: all of Q, plus K and V when they are written.
    pub open spec fn rows(self, q_only: bool) -> int {
        if q_only {
            self.t * self.heads_q
        } else {
            self.t * self.heads_q + self.t * self.heads_kv * 2
        }
    }

    /// Where the head rows overflow.
    pub open spec fn rows_problem(self, q_only: bool) -> Option<Seq<char>> {
        unless(
            self.t * self.heads_q <= usize::MAX && self.t * self.heads_kv <= usize::MAX
                && self.rows(q_only) <= usize::MAX,
            "qkv_rope: head count overflows usize"@,
        )
    }

    fn head_count(&self, q_only: bool) -> (r: Result<usize, String>)
        ensures
            reports(r, self.rows_problem(q_only)),
            r matches Ok(n) ==> n == self.rows(q_only),
    {
        proof {
            vstd::arithmetic::mul::lemma_mul_nonnegative(self.t as int, self.heads_q as int);
            vstd::arithmetic::mul::lemma_mul_nonnegative(self.t as int, self.heads_kv as int);
        }
        let q = (self.t as usize).checked_mul(self.heads_q as usize);
        let kv = (self.t as usize).checked_mul(self.heads_kv as usize);
        match (q, kv) {
            (Some(q), Some(kv)) => {
                if q_only {
                    return Ok(q);
                }
                match kv.checked_mul(2) {
                    Some(twice) => match q.checked_add(twice) {
                        Some(n) => Ok(n),
                        None => Err(owned("qkv_rope: head count overflows usize")),
                    },
                    None => Err(owned("qkv_rope: head count overflows usize")),
                }
            },
            _ => Err(owned("qkv_rope: head count overflows usize")),
        }
    }
}

/// Which fused entry point to encode.
#[derive(Clone, Copy, Debug, PartialEq, Eq, Structural)]
pub enum QkvRopeVariant {
    /// The position offset is a constant.
    PosConst,
    /// The position offset is read from a device word.
    PosBuffer,
    /// As [`QkvRopeVariant::PosBuffer`], and the rotated K and V also go to the
    /// KV cache.
    PosBufferKvStore,
}

impl QkvRopeVariant {
    /// Kernel of the variant.
    pub open spec fn kernel(self) -> Seq<char> {
        match self {
            QkvRopeVariant::PosConst => "rms_qkv_rope"@,
            QkvRopeVariant::PosBuffer => "rms_qkv_rope_posbuf"@,
            QkvRopeVariant::PosBufferKvStore => "rms_qkv_rope_kv_store"@,
        }
    }

    fn entry(self) -> (r: &'static str)
        ensures
            r@ == self.kernel(),
    {
        match self {
            QkvRopeVariant::PosConst => "rms_qkv_rope",
            QkvRopeVariant::PosBuffer => "rms_qkv_rope_posbuf",
            QkvRopeVariant::PosBufferKvStore => "rms_qkv_rope_kv_store",
        }
    }
}

/// Destination of [`QkvRopeVariant::PosBufferKvStore`].
#[derive(Clone, Copy, Debug)]
pub struct KvStoreTarget<'a> {
    /// Key cache.
    pub dst_k: &'a GpuBuffer,
    /// Value cache.
    pub dst_v: &'a GpuBuffer,
    /// Device word: element offset into both caches.
    pub dst_offset: &'a GpuBuffer,
    /// Logical capacity of each cache, in floats.
    pub capacity: u32,
}

impl View for KvStoreTarget<'_> {
    type V = KvStoreTargetAt;

    open spec fn view(&self) -> KvStoreTargetAt {
        KvStoreTargetAt {
            dst_k: self.dst_k@,
            dst_v: self.dst_v@,
            dst_offset: self.dst_offset@,
            capacity: self.capacity,
        }
    }
}

impl KvStoreTarget<'_> {
    /// What the handles name.
    pub fn at(&self) -> (r: KvStoreTargetAt)
        ensures
            r == self@,
    {
        KvStoreTargetAt {
            dst_k: self.dst_k.at(),
            dst_v: self.dst_v.at(),
            dst_offset: self.dst_offset.at(),
            capacity: self.capacity,
        }
    }
}

/// What an optional target's handles name.
pub open spec fn target_of(t: Option<KvStoreTarget>) -> Option<KvStoreTargetAt> {
    match t {
        Some(t) => Some(t@),
        None => None,
    }
}

/// What an optional target's handles name.
pub fn target_at(t: Option<KvStoreTarget>) -> (r: Option<KvStoreTargetAt>)
    ensures
        r == target_of(t),
{
    match t {
        Some(t) => Some(t.at()),
        None => None,
    }
}

/// What the buffers of a [`KvStoreTarget`] name.
#[derive(Clone, Copy, Debug, PartialEq, Eq, Structural)]
pub struct KvStoreTargetAt {
    /// Key cache.
    pub dst_k: Storage,
    /// Value cache.
    pub dst_v: Storage,
    /// Device word: element offset into both caches.
    pub dst_offset: Storage,
    /// Logical capacity of each cache, in floats.
    pub capacity: u32,
}

/// The buffers every fused entry point takes; the first three are rewritten in
/// place.
#[derive(Clone, Copy, Debug)]
pub struct QkvBuffers<'a> {
    /// Query activations.
    pub q: &'a GpuBuffer,
    /// Key activations.
    pub k: &'a GpuBuffer,
    /// Value activations.
    pub v: &'a GpuBuffer,
    /// Per-channel weight for Q.
    pub q_weight: &'a GpuBuffer,
    /// Per-channel weight for K.
    pub k_weight: &'a GpuBuffer,
    /// Per-channel weight for V.
    pub v_weight: &'a GpuBuffer,
}

impl View for QkvBuffers<'_> {
    type V = QkvBuffersAt;

    open spec fn view(&self) -> QkvBuffersAt {
        QkvBuffersAt {
            q: self.q@,
            k: self.k@,
            v: self.v@,
            q_weight: self.q_weight@,
            k_weight: self.k_weight@,
            v_weight: self.v_weight@,
        }
    }
}

impl QkvBuffers<'_> {
    /// What the handles name.
    pub fn at(&self) -> (r: QkvBuffersAt)
        ensures
            r == self@,
    {
        QkvBuffersAt {
            q: self.q.at(),
            k: self.k.at(),
            v: self.v.at(),
            q_weight: self.q_weight.at(),
            k_weight: self.k_weight.at(),
            v_weight: self.v_weight.at(),
        }
    }
}

/// What the buffers of [`QkvBuffers`] name.
#[derive(Clone, Copy, Debug, PartialEq, Eq, Structural)]
pub struct QkvBuffersAt {
    /// Query activations.
    pub q: Storage,
    /// Key activations.
    pub k: Storage,
    /// Value activations.
    pub v: Storage,
    /// Per-channel weight for Q.
    pub q_weight: Storage,
    /// Per-channel weight for K.
    pub k_weight: Storage,
    /// Per-channel weight for V.
    pub v_weight: Storage,
}

// ------------------------------------------------------------ validation ---

/// Where the variant and its operands do not match. The cache-store variant
/// cannot run Q alone: its cache guard can suppress Q.
pub open spec fn variant_problem(
    rt: u64,
    variant: QkvRopeVariant,
    pos: Option<Storage>,
    store: Option<KvStoreTargetAt>,
    q_only: bool,
) -> Option<Seq<char>> {
    first(
        unless(
            !(q_only && variant == QkvRopeVariant::PosBufferKvStore),
            "rms_qkv_rope: q_only cannot use PosBufferKvStore because its cache guard can suppress Q"@,
        ),
        first(
            match (variant, pos) {
                (QkvRopeVariant::PosConst, Some(_)) => Some(
                    "rms_qkv_rope: PosConst takes a constant offset, not a buffer"@,
                ),
                (QkvRopeVariant::PosConst, None) => None,
                (_, None) => Some("rms_qkv_rope: PosBuffer variants require pos_offset_buf"@),
                (_, Some(b)) => require_problem(rt, b, 1, 4, "rms_qkv_rope pos_offset_buf"@),
            },
            match (variant, store is Some) {
                (QkvRopeVariant::PosBufferKvStore, false) => Some(
                    "rms_qkv_rope: PosBufferKvStore requires a KvStoreTarget"@,
                ),
                (QkvRopeVariant::PosBufferKvStore, true) => None,
                (_, false) => None,
                (_, true) => Some("rms_qkv_rope: only PosBufferKvStore writes the KV cache"@),
            },
        ),
    )
}

fn check_variant(
    rt: u64,
    variant: QkvRopeVariant,
    pos: &Option<Storage>,
    store: &Option<KvStoreTargetAt>,
    q_only: bool,
) -> (r: Result<(), String>)
    ensures
        reports(r, variant_problem(rt, variant, *pos, *store, q_only)),
{
    if q_only && variant == QkvRopeVariant::PosBufferKvStore {
        return Err(
            owned(
                "rms_qkv_rope: q_only cannot use PosBufferKvStore because its cache guard can suppress Q",
            ),
        );
    }
    match (variant, pos) {
        (QkvRopeVariant::PosConst, Some(_)) => {
            return Err(owned("rms_qkv_rope: PosConst takes a constant offset, not a buffer"));
        },
        (QkvRopeVariant::PosConst, None) => {},
        (_, None) => {
            return Err(owned("rms_qkv_rope: PosBuffer variants require pos_offset_buf"));
        },
        (_, Some(b)) => {
            require(rt, b, 1, WORD, "rms_qkv_rope pos_offset_buf")?;
        },
    }
    match (variant, store.is_some()) {
        (QkvRopeVariant::PosBufferKvStore, false) => Err(
            owned("rms_qkv_rope: PosBufferKvStore requires a KvStoreTarget"),
        ),
        (QkvRopeVariant::PosBufferKvStore, true) => Ok(()),
        (_, false) => Ok(()),
        (_, true) => Err(owned("rms_qkv_rope: only PosBufferKvStore writes the KV cache")),
    }
}

/// Elements of K, and of V.
pub open spec fn kv_span(dims: QkvRopeDims) -> int {
    dims.t * dims.heads_kv * dims.head_dim
}

/// Where the extents overflow or a buffer is too small for them.
pub open spec fn extent_problem(
    rt: u64,
    qkv: QkvBuffersAt,
    dims: QkvRopeDims,
    store: Option<KvStoreTargetAt>,
    q_only: bool,
) -> Option<Seq<char>> {
    let d = dims.head_dim as int;
    first(
        unless(
            dims.t * dims.heads_q <= usize::MAX,
            overflow_message("rms_qkv_rope q heads"@),
        ),
        first(
            unless(
                dims.t * dims.heads_kv <= usize::MAX,
                overflow_message("rms_qkv_rope kv heads"@),
            ),
            first(
                unless(
                    dims.t * dims.heads_q * d <= usize::MAX,
                    "rms_qkv_rope q extent overflows usize"@,
                ),
                first(
                    unless(
                        kv_span(dims) <= usize::MAX,
                        "rms_qkv_rope kv extent overflows usize"@,
                    ),
                    first(
                        require_problem(
                            rt,
                            qkv.q,
                            dims.t * dims.heads_q * d,
                            4,
                            "rms_qkv_rope q"@,
                        ),
                        first(
                            require_problem(rt, qkv.q_weight, d, 4, "rms_qkv_rope q_weight"@),
                            first(
                                if q_only {
                                    None
                                } else {
                                    kv_extent_problem(rt, qkv, dims)
                                },
                                store_extent_problem(rt, dims, store),
                            ),
                        ),
                    ),
                ),
            ),
        ),
    )
}

/// Where a K or V buffer is too small.
pub open spec fn kv_extent_problem(rt: u64, qkv: QkvBuffersAt, dims: QkvRopeDims) -> Option<
    Seq<char>,
> {
    let d = dims.head_dim as int;
    first(
        require_problem(rt, qkv.k, kv_span(dims), 4, "rms_qkv_rope k"@),
        first(
            require_problem(rt, qkv.v, kv_span(dims), 4, "rms_qkv_rope v"@),
            first(
                require_problem(rt, qkv.k_weight, d, 4, "rms_qkv_rope k_weight"@),
                require_problem(rt, qkv.v_weight, d, 4, "rms_qkv_rope v_weight"@),
            ),
        ),
    )
}

/// Where a cache is too small.
pub open spec fn store_extent_problem(
    rt: u64,
    dims: QkvRopeDims,
    store: Option<KvStoreTargetAt>,
) -> Option<Seq<char>> {
    match store {
        None => None,
        Some(t) => first(
            unless(
                t.capacity >= kv_span(dims),
                "rms_qkv_rope: cache capacity "@ + decimal(t.capacity as nat)
                    + " is smaller than the K/V span "@ + decimal(kv_span(dims) as nat),
            ),
            first(
                require_problem(
                    rt,
                    t.dst_k,
                    t.capacity as int,
                    4,
                    "rms_qkv_rope dst_k capacity"@,
                ),
                first(
                    require_problem(
                        rt,
                        t.dst_v,
                        t.capacity as int,
                        4,
                        "rms_qkv_rope dst_v capacity"@,
                    ),
                    require_problem(rt, t.dst_offset, 1, 4, "rms_qkv_rope kv_dst_offset"@),
                ),
            ),
        ),
    }
}

fn check_extents(
    rt: u64,
    qkv: &QkvBuffersAt,
    dims: &QkvRopeDims,
    store: &Option<KvStoreTargetAt>,
    q_only: bool,
) -> (r: Result<(), String>)
    ensures
        reports(r, extent_problem(rt, *qkv, *dims, *store, q_only)),
{
    let d: usize = dims.head_dim as usize;
    let q_heads: usize = elems(dims.t, dims.heads_q, "rms_qkv_rope q heads")?;
    let kv_heads: usize = elems(dims.t, dims.heads_kv, "rms_qkv_rope kv heads")?;
    let q_elems: usize = match q_heads.checked_mul(d) {
        Some(n) => n,
        None => {
            return Err(owned("rms_qkv_rope q extent overflows usize"));
        },
    };
    let kv_elems: usize = match kv_heads.checked_mul(d) {
        Some(n) => n,
        None => {
            return Err(owned("rms_qkv_rope kv extent overflows usize"));
        },
    };
    require(rt, &qkv.q, q_elems, WORD, "rms_qkv_rope q")?;
    require(rt, &qkv.q_weight, d, WORD, "rms_qkv_rope q_weight")?;
    if !q_only {
        require(rt, &qkv.k, kv_elems, WORD, "rms_qkv_rope k")?;
        require(rt, &qkv.v, kv_elems, WORD, "rms_qkv_rope v")?;
        require(rt, &qkv.k_weight, d, WORD, "rms_qkv_rope k_weight")?;
        require(rt, &qkv.v_weight, d, WORD, "rms_qkv_rope v_weight")?;
    }
    match store {
        None => Ok(()),
        Some(t) => {
            if (t.capacity as usize) < kv_elems {
                return Err(
                    Msg::new("rms_qkv_rope: cache capacity ").num(t.capacity as usize).text(
                        " is smaller than the K/V span ",
                    ).num(kv_elems).done(),
                );
            }
            require(rt, &t.dst_k, t.capacity as usize, WORD, "rms_qkv_rope dst_k capacity")?;
            require(rt, &t.dst_v, t.capacity as usize, WORD, "rms_qkv_rope dst_v capacity")?;
            require(rt, &t.dst_offset, 1, WORD, "rms_qkv_rope kv_dst_offset")
        },
    }
}

/// The active buffers that are rewritten, with their names.
pub open spec fn active_writes(
    qkv: QkvBuffersAt,
    store: Option<KvStoreTargetAt>,
    q_only: bool,
) -> Seq<(&'static str, &'static Storage)> {
    if q_only {
        seq![("q", &qkv.q)]
    } else {
        match store {
            None => seq![("q", &qkv.q), ("k", &qkv.k), ("v", &qkv.v)],
            Some(t) => seq![
                ("q", &qkv.q),
                ("k", &qkv.k),
                ("v", &qkv.v),
                ("dst_k", &t.dst_k),
                ("dst_v", &t.dst_v),
            ],
        }
    }
}

/// The active buffers that are only read, with their names.
pub open spec fn active_reads(
    qkv: QkvBuffersAt,
    pos: Option<Storage>,
    store: Option<KvStoreTargetAt>,
    q_only: bool,
) -> Seq<(&'static str, &'static Storage)> {
    let weights = if q_only {
        seq![("q_weight", &qkv.q_weight)]
    } else {
        seq![
            ("q_weight", &qkv.q_weight),
            ("k_weight", &qkv.k_weight),
            ("v_weight", &qkv.v_weight),
        ]
    };
    let positioned = match pos {
        None => weights,
        Some(b) => weights.push(("pos_offset_buf", &b)),
    };
    match store {
        Some(t) => if q_only {
            positioned
        } else {
            positioned.push(("dst_offset", &t.dst_offset))
        },
        None => positioned,
    }
}

/// The first clash of an active written buffer.
pub open spec fn rope_clash(
    qkv: QkvBuffersAt,
    pos: Option<Storage>,
    store: Option<KvStoreTargetAt>,
    q_only: bool,
) -> Option<Seq<char>> {
    disjoint_problem(
        "rms_qkv_rope"@,
        active_writes(qkv, store, q_only),
        active_reads(qkv, pos, store, q_only),
    )
}

fn check_clash(
    qkv: &QkvBuffersAt,
    pos: &Option<Storage>,
    store: &Option<KvStoreTargetAt>,
    q_only: bool,
) -> (r: Result<(), String>)
    ensures
        reports(r, rope_clash(*qkv, *pos, *store, q_only)),
{
    let mut writes: Vec<(&str, &Storage)> = Vec::new();
    let mut reads: Vec<(&str, &Storage)> = Vec::new();
    writes.push(("q", &qkv.q));
    reads.push(("q_weight", &qkv.q_weight));
    if !q_only {
        writes.push(("k", &qkv.k));
        writes.push(("v", &qkv.v));
        reads.push(("k_weight", &qkv.k_weight));
        reads.push(("v_weight", &qkv.v_weight));
    }
    match pos {
        Some(b) => reads.push(("pos_offset_buf", b)),
        None => {},
    }
    match store {
        Some(t) => {
            if !q_only {
                writes.push(("dst_k", &t.dst_k));
                writes.push(("dst_v", &t.dst_v));
                reads.push(("dst_offset", &t.dst_offset));
            }
        },
        None => {},
    }
    assert(writes@ =~= active_writes(*qkv, *store, q_only));
    assert(reads@ =~= active_reads(*qkv, *pos, *store, q_only));
    require_disjoint_writes("rms_qkv_rope", writes.as_slice(), reads.as_slice())
}

/// What refuses a fused call.
pub open spec fn rope_problem(
    rt: u64,
    variant: QkvRopeVariant,
    qkv: QkvBuffersAt,
    dims: QkvRopeDims,
    pos: Option<Storage>,
    store: Option<KvStoreTargetAt>,
    q_only: bool,
) -> Option<Seq<char>> {
    first(
        dims.problem("rms_qkv_rope"@),
        first(
            variant_problem(rt, variant, pos, store, q_only),
            first(
                extent_problem(rt, qkv, dims, store, q_only),
                first(
                    dims.rows_problem(q_only),
                    first(
                        indexing_problem(dims.rows(q_only), "rms_qkv_rope head grid"@),
                        if dims.rows(q_only) == 0 {
                            None
                        } else {
                            rope_clash(qkv, pos, store, q_only)
                        },
                    ),
                ),
            ),
        ),
    )
}

/// Validates the storage and the variant of a fused call, without looking up a
/// pipeline or encoding anything.
pub fn validate_rms_qkv_rope(
    rt: &GpuRuntime,
    variant: QkvRopeVariant,
    qkv: QkvBuffers,
    dims: QkvRopeDims,
    pos_offset_buf: Option<&GpuBuffer>,
    kv_store: Option<KvStoreTarget>,
    q_only: bool,
) -> (r: Result<(), String>)
    ensures
        reports(
            r,
            rope_problem(rt@.id, variant, qkv@, dims, storage_of(pos_offset_buf), target_of(kv_store), q_only),
        ),
{
    let pos_offset_buf = at_opt(pos_offset_buf);
    let qkv = qkv.at();
    let kv_store = target_at(kv_store);
    let id: u64 = rt.id();
    dims.validate("rms_qkv_rope")?;
    check_variant(id, variant, &pos_offset_buf, &kv_store, q_only)?;
    check_extents(id, &qkv, &dims, &kv_store, q_only)?;
    let n: usize = dims.head_count(q_only)?;
    require_1d_indexable(n, "rms_qkv_rope head grid")?;
    if n == 0 {
        return Ok(());
    }
    check_clash(&qkv, &pos_offset_buf, &kv_store, q_only)
}

// --------------------------------------------------------------- launch ----

/// Lanes of the simdgroup that takes one head row.
pub const ROPE_SIMD_WIDTH: usize = 32;

/// Head rows of one threadgroup.
pub const ROPE_ROWS_PER_TG: usize = 8;

/// Head rows of one threadgroup on a pipeline of `max_threads`.
pub open spec fn rope_rows(max_threads: usize) -> int {
    least(max_threads as int / 32, 8)
}

/// Where a pipeline cannot run one simdgroup of 32 lanes per row.
pub open spec fn rope_geometry_problem(p: Pipeline) -> Option<Seq<char>> {
    first(
        unless(
            p.thread_execution_width == 32,
            "rms_qkv_rope: kernel assumes a "@ + decimal(32)
                + "-lane simdgroup, pipeline reports an execution width of "@ + decimal(
                p.thread_execution_width as nat,
            ),
        ),
        unless(
            p.max_threads >= 32,
            "rms_qkv_rope: pipeline allows "@ + decimal(p.max_threads as nat)
                + " threads per threadgroup, fewer than one simdgroup"@,
        ),
    )
}

/// Rows and threads of one threadgroup.
fn rope_row_geometry(p: &Pipeline) -> (r: Result<(usize, usize), String>)
    ensures
        reports(r, rope_geometry_problem(*p)),
        r matches Ok(g) ==> g.0 == rope_rows(p.max_threads) && g.1 == g.0 * 32 && 1 <= g.0 <= 8,
{
    let width: usize = p.thread_execution_width;
    if width != ROPE_SIMD_WIDTH {
        return Err(
            Msg::new("rms_qkv_rope: kernel assumes a ").num(ROPE_SIMD_WIDTH).text(
                "-lane simdgroup, pipeline reports an execution width of ",
            ).num(width).done(),
        );
    }
    let max_threads: usize = p.max_threads;
    if max_threads < ROPE_SIMD_WIDTH {
        return Err(
            Msg::new("rms_qkv_rope: pipeline allows ").num(max_threads).text(
                " threads per threadgroup, fewer than one simdgroup",
            ).done(),
        );
    }
    let rows: usize = min_usize(max_threads / ROPE_SIMD_WIDTH, ROPE_ROWS_PER_TG);
    Ok((rows, rows * ROPE_SIMD_WIDTH))
}

/// Buffer binds of a fused call. A Q-only grid never reaches the K and V
/// branches, whose slots are filled with Q's storage.
pub open spec fn rope_buffer_binds(
    qkv: QkvBuffersAt,
    pos: Option<Storage>,
    store: Option<KvStoreTargetAt>,
    q_only: bool,
) -> Seq<Bind> {
    let data = seq![at(qkv.q, 0), at(qkv.q_weight, 3)] + if q_only {
        seq![at(qkv.q, 1), at(qkv.q, 2), at(qkv.q_weight, 4), at(qkv.q_weight, 5)]
    } else {
        seq![at(qkv.k, 1), at(qkv.v, 2), at(qkv.k_weight, 4), at(qkv.v_weight, 5)]
    };
    let positioned = match pos {
        Some(b) => data.push(at(b, 11)),
        None => data,
    };
    match store {
        Some(t) => positioned.push(at(t.dst_k, 14)).push(at(t.dst_v, 15)).push(
            at(t.dst_offset, 16),
        ),
        None => positioned,
    }
}

fn rope_buffers(
    qkv: &QkvBuffersAt,
    pos: &Option<Storage>,
    store: &Option<KvStoreTargetAt>,
    q_only: bool,
) -> (r: Vec<Bind>)
    ensures
        r@ == rope_buffer_binds(*qkv, *pos, *store, q_only),
{
    let mut r: Vec<Bind> = Vec::new();
    r.push(buf(&qkv.q, 0));
    r.push(buf(&qkv.q_weight, 3));
    if q_only {
        r.push(buf(&qkv.q, 1));
        r.push(buf(&qkv.q, 2));
        r.push(buf(&qkv.q_weight, 4));
        r.push(buf(&qkv.q_weight, 5));
    } else {
        r.push(buf(&qkv.k, 1));
        r.push(buf(&qkv.v, 2));
        r.push(buf(&qkv.k_weight, 4));
        r.push(buf(&qkv.v_weight, 5));
    }
    match pos {
        Some(b) => r.push(buf(b, 11)),
        None => {},
    }
    match store {
        Some(t) => {
            r.push(buf(&t.dst_k, 14));
            r.push(buf(&t.dst_v, 15));
            r.push(buf(&t.dst_offset, 16));
        },
        None => {},
    }
    assert(r@ =~= rope_buffer_binds(*qkv, *pos, *store, q_only));
    r
}

/// What the wrapper binds after the caller's scalars: a Q-only call counts no
/// K/V heads, so that the padding rows of its last threadgroup stay idle.
pub open spec fn rope_tail(q_only: bool) -> Seq<Bind> {
    if q_only {
        seq![word_at(0, 8)]
    } else {
        Seq::empty()
    }
}

/// Launch of an accepted fused call.
pub open spec fn rope_launched(
    rt: RuntimeState,
    variant: QkvRopeVariant,
    qkv: QkvBuffersAt,
    dims: QkvRopeDims,
    pos: Option<Storage>,
    store: Option<KvStoreTargetAt>,
    q_only: bool,
    scalars: Seq<Bind>,
) -> (RuntimeState, Option<Seq<char>>) {
    let n = dims.rows(q_only);
    let (s, r) = rt.piped(variant.kernel());
    if n == 0 {
        (rt, None)
    } else {
        match r {
            Err(m) => (s, Some(m)),
            Ok(p) => match rope_geometry_problem(p) {
                Some(m) => (s, Some(m)),
                None => s.launched_groups(
                    p,
                    rope_buffer_binds(qkv, pos, store, q_only) + scalars + rope_tail(q_only),
                    None,
                    ceil_div(n, rope_rows(p.max_threads)) as usize,
                    1,
                    (rope_rows(p.max_threads) * 32) as usize,
                ),
            },
        }
    }
}

fn launch_rope(
    rt: &mut GpuRuntime,
    variant: QkvRopeVariant,
    qkv: &QkvBuffersAt,
    dims: &QkvRopeDims,
    pos: &Option<Storage>,
    store: &Option<KvStoreTargetAt>,
    q_only: bool,
    scalars: &[Bind],
) -> (r: Result<(), String>)
    requires
        old(rt).inv(),
        dims.rows_problem(q_only) is None,
    ensures
        final(rt).inv(),
        encodes(
            old(rt)@,
            final(rt)@,
            r,
            rope_launched(
                old(rt)@,
                variant,
                *qkv,
                *dims,
                *pos,
                *store,
                q_only,
                scalars@,
            ),
        ),
{
    let n: usize = dims.head_count(q_only)?;
    if n == 0 {
        return Ok(());
    }
    let p = rt.pipeline(variant.entry())?;
    let (rows, threads): (usize, usize) = rope_row_geometry(&p)?;
    let head = rope_buffers(qkv, pos, store, q_only);
    let mut binds = bind_list(head.as_slice(), scalars);
    if q_only {
        binds.push(word(0, 8));
    }
    assert(binds@ =~= rope_buffer_binds(*qkv, *pos, *store, q_only) + scalars@ + rope_tail(q_only));
    launch_groups(rt, &p, binds.as_slice(), None, div_ceil(n, rows), 1, threads)
}

/// The capacity of a cache target.
pub open spec fn target_capacity(store: Option<KvStoreTargetAt>) -> Option<u32> {
    match store {
        Some(t) => Some(t.capacity),
        None => None,
    }
}

fn store_capacity(store: &Option<KvStoreTargetAt>) -> (r: Option<u32>)
    ensures
        r == target_capacity(*store),
{
    match store {
        Some(t) => Some(t.capacity),
        None => None,
    }
}

/// [`rms_qkv_rope`] with the scalar binds that `scalars` gives for the validated
/// cache capacity: 6 = `t`, 7 = `heads_q`, 8 = `heads_kv`, 9 = `head_dim`,
/// 10 = `rotary_dim`, 11 = the constant offset, 12 = `theta`, 13 = `eps`,
/// 17 = the capacity where there is one. A Q-only call binds slot 8 to zero
/// afterwards.
pub fn rms_qkv_rope_with_scalars<F: FnOnce(Option<u32>) -> Vec<Bind>>(
    rt: &mut GpuRuntime,
    variant: QkvRopeVariant,
    qkv: QkvBuffers,
    dims: QkvRopeDims,
    pos_offset_buf: Option<&GpuBuffer>,
    kv_store: Option<KvStoreTarget>,
    q_only: bool,
    scalars: F,
) -> (r: Result<(), String>)
    requires
        old(rt).inv(),
        forall|kv_capacity: Option<u32>| scalars.requires((kv_capacity,)),
    ensures
        final(rt).inv(),
        match rope_problem(
            old(rt)@.id,
            variant,
            qkv@,
            dims,
            storage_of(pos_offset_buf),
            target_of(kv_store),
            q_only,
        ) {
            Some(m) => final(rt)@ == old(rt)@ && reports(r, Some(m)),
            None => exists|binds: Vec<Bind>| #[trigger]
                scalars.ensures((target_capacity(target_of(kv_store)),), binds) && encodes(
                    old(rt)@,
                    final(rt)@,
                    r,
                    rope_launched(
                        old(rt)@,
                        variant,
                        qkv@,
                        dims,
                        storage_of(pos_offset_buf),
                        target_of(kv_store),
                        q_only,
                        binds@,
                    ),
                ),
        },
{
    validate_rms_qkv_rope(rt, variant, qkv, dims, pos_offset_buf, kv_store, q_only)?;
    let qkv = qkv.at();
    let pos_offset_buf = at_opt(pos_offset_buf);
    let kv_store = target_at(kv_store);
    let binds = scalars(store_capacity(&kv_store));
    assert(scalars.ensures((target_capacity(kv_store),), binds));
    launch_rope(
        rt,
        variant,
        &qkv,
        &dims,
        &pos_offset_buf,
        &kv_store,
        q_only,
        binds.as_slice(),
    )
}

/// Scalar binds of a fused call.
pub open spec fn rope_scalars(
    variant: QkvRopeVariant,
    dims: QkvRopeDims,
    pos_offset: u32,
    kv_capacity: Option<u32>,
) -> Seq<Bind> {
    let shape = seq![
        word_at(dims.t, 6),
        word_at(dims.heads_q, 7),
        word_at(dims.heads_kv, 8),
        word_at(dims.head_dim, 9),
        word_at(dims.rotary_dim, 10),
    ];
    let positioned = if variant == QkvRopeVariant::PosConst {
        shape.push(word_at(pos_offset, 11))
    } else {
        shape
    };
    let floats = positioned.push(float_at(dims.theta, 12)).push(float_at(dims.eps, 13));
    match kv_capacity {
        Some(c) => floats.push(word_at(c, 17)),
        None => floats,
    }
}

fn rope_scalar_binds(
    variant: QkvRopeVariant,
    dims: &QkvRopeDims,
    pos_offset: u32,
    kv_capacity: Option<u32>,
) -> (r: Vec<Bind>)
    ensures
        r@ == rope_scalars(variant, *dims, pos_offset, kv_capacity),
{
    let mut r: Vec<Bind> = Vec::new();
    r.push(word(dims.t, 6));
    r.push(word(dims.heads_q, 7));
    r.push(word(dims.heads_kv, 8));
    r.push(word(dims.head_dim, 9));
    r.push(word(dims.rotary_dim, 10));
    if variant == QkvRopeVariant::PosConst {
        r.push(word(pos_offset, 11));
    }
    r.push(float(dims.theta, 12));
    r.push(float(dims.eps, 13));
    match kv_capacity {
        Some(c) => r.push(word(c, 17)),
        None => {},
    }
    assert(r@ =~= rope_scalars(variant, *dims, pos_offset, kv_capacity));
    r
}

/// Effect of [`rms_qkv_rope`].
pub open spec fn rope_step(
    rt: RuntimeState,
    variant: QkvRopeVariant,
    qkv: QkvBuffersAt,
    dims: QkvRopeDims,
    pos_offset: u32,
    pos: Option<Storage>,
    store: Option<KvStoreTargetAt>,
    q_only: bool,
) -> (RuntimeState, Option<Seq<char>>) {
    rt.guarded(
        rope_problem(rt.id, variant, qkv, dims, pos, store, q_only),
        false,
        None,
        rope_launched(
            rt,
            variant,
            qkv,
            dims,
            pos,
            store,
            q_only,
            rope_scalars(variant, dims, pos_offset, target_capacity(store)),
        ),
    )
}

/// Fused per-head RMSNorm, scaling and rotary embedding: `q`, `k` and `v` arrive
/// holding the projections and leave normalized and rotated. The position is
/// the constant for [`QkvRopeVariant::PosConst`] and the buffer for the others.
pub fn rms_qkv_rope(
    rt: &mut GpuRuntime,
    variant: QkvRopeVariant,
    qkv: QkvBuffers,
    dims: QkvRopeDims,
    pos_offset: u32,
    pos_offset_buf: Option<&GpuBuffer>,
    kv_store: Option<KvStoreTarget>,
    q_only: bool,
) -> (r: Result<(), String>)
    requires
        old(rt).inv(),
    ensures
        final(rt).inv(),
        encodes(
            old(rt)@,
            final(rt)@,
            r,
            rope_step(
                old(rt)@,
                variant,
                qkv@,
                dims,
                pos_offset,
                storage_of(pos_offset_buf),
                target_of(kv_store),
                q_only,
            ),
        ),
        r is Ok && dims.t > 0 && dims.heads_q > 0 && in_view(old(rt)@, final(rt)@) ==> rope_seen(
            old(rt)@,
            final(rt)@,
            variant,
            qkv@,
            dims,
            pos_offset,
            storage_of(pos_offset_buf),
            target_of(kv_store),
            q_only,
        ),
{
    proof {
        let step = rope_step(
            old(rt)@,
            variant,
            qkv@,
            dims,
            pos_offset,
            storage_of(pos_offset_buf),
            target_of(kv_store),
            q_only,
        );
        if dims.t > 0 && dims.heads_q > 0 && step.1 is None && in_view(old(rt)@, step.0) {
            law_rope(
                old(rt)@,
                variant,
                qkv@,
                dims,
                pos_offset,
                storage_of(pos_offset_buf),
                target_of(kv_store),
                q_only,
            );
        }
    }
    validate_rms_qkv_rope(rt, variant, qkv, dims, pos_offset_buf, kv_store, q_only)?;
    let qkv = qkv.at();
    let pos_offset_buf = at_opt(pos_offset_buf);
    let kv_store = target_at(kv_store);
    let scalars = rope_scalar_binds(variant, &dims, pos_offset, store_capacity(&kv_store));
    launch_rope(
        rt,
        variant,
        &qkv,
        &dims,
        &pos_offset_buf,
        &kv_store,
        q_only,
        scalars.as_slice(),
    )
}

// ----------------------------------------------------------------- laws ----

/// The grid covers every head row, in whole simdgroups of 32 lanes, within the
/// pipeline's limit.
pub proof fn law_rope_grid_covers_rows(p: Pipeline, n: int)
    requires
        rope_geometry_problem(p) is None,
        n >= 0,
    ensures
        1 <= rope_rows(p.max_threads) <= 8,
        ceil_div(n, rope_rows(p.max_threads)) * rope_rows(p.max_threads) >= n,
        rope_rows(p.max_threads) * 32 <= p.max_threads,
{
    crate::sizes::lemma_ceil_div_covers(n, rope_rows(p.max_threads));
}

/// An accepted call rewrites storage that backs every element it touches, and
/// the cache holds at least the K/V span.
pub proof fn law_accepted_rope_is_backed(
    rt: u64,
    variant: QkvRopeVariant,
    qkv: QkvBuffersAt,
    dims: QkvRopeDims,
    pos: Option<Storage>,
    store: Option<KvStoreTargetAt>,
    q_only: bool,
)
    requires
        rope_problem(rt, variant, qkv, dims, pos, store, q_only) is None,
    ensures
        dims.t * dims.heads_q * dims.head_dim * 4 <= qkv.q.nbytes,
        !q_only ==> kv_span(dims) * 4 <= qkv.k.nbytes && kv_span(dims) * 4 <= qkv.v.nbytes,
        store matches Some(t) ==> kv_span(dims) <= t.capacity && t.capacity * 4 <= t.dst_k.nbytes
            && t.capacity * 4 <= t.dst_v.nbytes && !q_only,
        dims.rotary_dim <= dims.head_dim,
        dims.rotary_dim % 2 == 0,
        pos is Some <==> variant != QkvRopeVariant::PosConst,
        store is Some <==> variant == QkvRopeVariant::PosBufferKvStore,
{
}

} // verus!
