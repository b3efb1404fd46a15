//! Attention shapes, tuning tables, routing and validation.

use vstd::prelude::*;

use crate::nn::check::{
    capacity, capacity_of, capacity_problem, elems, elems_problem, elems_product, finite,
    is_finite, nonfinite_str, nonfinite_text, overflow_message, require, require_capacity,
    require_problem, require_runtime, runtime_problem, same_storage, HALF, WORD,
};
use crate::sizes::{ints32, product};
use crate::tensor::{GpuBuffer, Storage};
use crate::text::{
    debug_string, debug_text, decimal, first, join, refusal, refusal_text, reports, same_text,
    unless, Msg,
};

verus! {

// -------------------------------------------------------------- tables -----

/// Head dimension a sliding-window kernel is compiled for.
#[derive(Clone, Copy, Debug, PartialEq, Eq, Structural)]
pub enum AttnHeadDim {
    D128,
    D256,
}

impl AttnHeadDim {
    /// The dimension.
    pub open spec fn size(self) -> u32 {
        match self {
            AttnHeadDim::D128 => 128,
            AttnHeadDim::D256 => 256,
        }
    }

    /// Name of the kernel.
    pub open spec fn name(self) -> Seq<char> {
        match self {
            AttnHeadDim::D128 => "flash_attn_swa_h128"@,
            AttnHeadDim::D256 => "flash_attn_swa_h256"@,
        }
    }

    pub(crate) fn dim(self) -> (r: u32)
        ensures
            r == self.size(),
    {
        match self {
            AttnHeadDim::D128 => 128,
            AttnHeadDim::D256 => 256,
        }
    }

    /// The kernel this head dimension dispatches to.
    pub fn kernel(self) -> (r: &'static str)
        ensures
            r@ == self.name(),
    {
        match self {
            AttnHeadDim::D128 => "flash_attn_swa_h128",
            AttnHeadDim::D256 => "flash_attn_swa_h256",
        }
    }
}

/// The chunk size the decode shader declares by default; the router's choice
/// comes from [`decode_chunk_for`].
pub const DECODE_KV_CHUNK: usize = 256;

/// Keys per chunk of a decode dispatch.
#[derive(Clone, Copy, Debug, PartialEq, Eq, Structural)]
pub enum DecodeChunk {
    C64,
    C128,
    C256,
}

impl DecodeChunk {
    /// Keys of the chunk.
    pub open spec fn len(self) -> usize {
        match self {
            DecodeChunk::C64 => 64,
            DecodeChunk::C128 => 128,
            DecodeChunk::C256 => 256,
        }
    }

    /// Keys of the chunk.
    pub fn keys(self) -> (r: usize)
        ensures
            r == self.len(),
    {
        match self {
            DecodeChunk::C64 => 64,
            DecodeChunk::C128 => 128,
            DecodeChunk::C256 => 256,
        }
    }

    /// The chunk written `v`.
    pub open spec fn named(v: Seq<char>) -> Option<DecodeChunk> {
        if v == "64"@ {
            Some(DecodeChunk::C64)
        } else if v == "128"@ {
            Some(DecodeChunk::C128)
        } else if v == "256"@ {
            Some(DecodeChunk::C256)
        } else {
            None
        }
    }

    /// The chunk written `v`, or a refusal that quotes it.
    pub fn parse(v: &str) -> (r: Result<DecodeChunk, String>)
        ensures
            match r {
                Ok(c) => DecodeChunk::named(v@) == Some(c),
                Err(e) => DecodeChunk::named(v@) is None && e@ == refusal_text(
                    "decode chunk must be 64, 128 or 256"@,
                    debug_text(v@),
                ),
            },
    {
        if same_text(v, "64") {
            Ok(DecodeChunk::C64)
        } else if same_text(v, "128") {
            Ok(DecodeChunk::C128)
        } else if same_text(v, "256") {
            Ok(DecodeChunk::C256)
        } else {
            Err(refusal("decode chunk must be 64, 128 or 256", debug_string(v).as_str()))
        }
    }
}

/// Which query heads share a threadgroup in the decode partial pass.
#[derive(Clone, Copy, Debug, PartialEq, Eq, Structural)]
pub enum DecodeHeadBlock {
    /// One query head per threadgroup.
    One,
    /// The heads that share a KV head.
    Group,
    /// Every head of a batch item.
    AllHeads,
}

impl DecodeHeadBlock {
    /// Heads the policy asks to put in one threadgroup.
    pub open spec fn asked(self, heads: usize, group: usize) -> usize {
        match self {
            DecodeHeadBlock::One => 1,
            DecodeHeadBlock::Group => group,
            DecodeHeadBlock::AllHeads => heads,
        }
    }

    /// Simdgroups per threadgroup, where the width divides the heads and fits a
    /// threadgroup.
    pub open spec fn width(self, heads: usize, group: usize) -> Option<usize> {
        let n = self.asked(heads, group);
        if 1 <= n <= 32 && heads % n == 0 {
            Some(n)
        } else {
            None
        }
    }

    /// Simdgroups per threadgroup for this shape, or `None` if the width does
    /// not divide the heads or does not fit a threadgroup.
    pub fn simdgroups(self, heads: usize, group: usize) -> (r: Option<usize>)
        ensures
            r == self.width(heads, group),
    {
        let n: usize = match self {
            DecodeHeadBlock::One => 1,
            DecodeHeadBlock::Group => group,
            DecodeHeadBlock::AllHeads => heads,
        };
        if 1 <= n && n <= 32 && heads % n == 0 {
            Some(n)
        } else {
            None
        }
    }

    /// The policy written `v`.
    pub open spec fn named(v: Seq<char>) -> Option<DecodeHeadBlock> {
        if v == "one"@ {
            Some(DecodeHeadBlock::One)
        } else if v == "group"@ {
            Some(DecodeHeadBlock::Group)
        } else if v == "all"@ {
            Some(DecodeHeadBlock::AllHeads)
        } else {
            None
        }
    }

    /// The policy written `v`, or a refusal that quotes it.
    pub fn parse(v: &str) -> (r: Result<DecodeHeadBlock, String>)
        ensures
            match r {
                Ok(c) => DecodeHeadBlock::named(v@) == Some(c),
                Err(e) => DecodeHeadBlock::named(v@) is None && e@ == refusal_text(
                    "decode head block must be one, group or all"@,
                    debug_text(v@),
                ),
            },
    {
        if same_text(v, "one") {
            Ok(DecodeHeadBlock::One)
        } else if same_text(v, "group") {
            Ok(DecodeHeadBlock::Group)
        } else if same_text(v, "all") {
            Ok(DecodeHeadBlock::AllHeads)
        } else {
            Err(refusal("decode head block must be one, group or all", debug_string(v).as_str()))
        }
    }
}

/// A head block's width divides the heads exactly, so that no block addresses a
/// head of another, and never exceeds the 32 simdgroups of a threadgroup.
pub proof fn law_head_blocks_divide_the_heads(block: DecodeHeadBlock, heads: usize, group: usize)
    ensures
        block.width(heads, group) matches Some(n) ==> {
            &&& 1 <= n <= 32
            &&& heads as int == n * (heads as int / n as int)
        },
        DecodeHeadBlock::One.width(heads, group) == Some(1usize),
{
    match block.width(heads, group) {
        Some(n) => {
            vstd::arithmetic::div_mod::lemma_fundamental_div_mod(heads as int, n as int);
        },
        None => {},
    }
}

pub const DECODE_HEAD_BLOCK_D128: DecodeHeadBlock = DecodeHeadBlock::Group;

pub const DECODE_HEAD_BLOCK_D256: DecodeHeadBlock = DecodeHeadBlock::Group;

pub const DECODE_HEAD_BLOCK_D512: DecodeHeadBlock = DecodeHeadBlock::AllHeads;

/// Head block chosen for a head dimension.
pub open spec fn head_block_of(d: u32) -> DecodeHeadBlock {
    if d == 512 {
        DecodeHeadBlock::AllHeads
    } else {
        DecodeHeadBlock::Group
    }
}

/// Head block chosen for a head dimension.
pub fn decode_head_block_for(d: u32) -> (r: DecodeHeadBlock)
    ensures
        r == head_block_of(d),
{
    match d {
        512 => DECODE_HEAD_BLOCK_D512,
        256 => DECODE_HEAD_BLOCK_D256,
        _ => DECODE_HEAD_BLOCK_D128,
    }
}

/// Threads per threadgroup of the decode reduce pass.
pub const DECODE_REDUCE_THREADS: usize = 256;

pub const DECODE_CHUNK_D128: DecodeChunk = DecodeChunk::C256;

pub const DECODE_CHUNK_D256: DecodeChunk = DecodeChunk::C128;

pub const DECODE_CHUNK_D512: DecodeChunk = DecodeChunk::C128;

/// Chunk size chosen for a head dimension.
pub open spec fn chunk_of(d: u32) -> DecodeChunk {
    if d == 512 || d == 256 {
        DecodeChunk::C128
    } else {
        DecodeChunk::C256
    }
}

/// Chunk size chosen for a head dimension.
pub fn decode_chunk_for(d: u32) -> (r: DecodeChunk)
    ensures
        r == chunk_of(d),
{
    match d {
        512 => DECODE_CHUNK_D512,
        256 => DECODE_CHUNK_D256,
        _ => DECODE_CHUNK_D128,
    }
}

/// Lanes per query row, or per key, of the row-parallel kernels.
#[derive(Clone, Copy, Debug, PartialEq, Eq, Structural)]
pub enum RowsLanes {
    R8,
    R16,
    R32,
}

impl RowsLanes {
    /// Lanes.
    pub open spec fn len(self) -> usize {
        match self {
            RowsLanes::R8 => 8,
            RowsLanes::R16 => 16,
            RowsLanes::R32 => 32,
        }
    }

    /// Lanes.
    pub fn width(self) -> (r: usize)
        ensures
            r == self.len(),
    {
        match self {
            RowsLanes::R8 => 8,
            RowsLanes::R16 => 16,
            RowsLanes::R32 => 32,
        }
    }

    /// The lane count written `v`.
    pub open spec fn named(v: Seq<char>) -> Option<RowsLanes> {
        if v == "8"@ {
            Some(RowsLanes::R8)
        } else if v == "16"@ {
            Some(RowsLanes::R16)
        } else if v == "32"@ {
            Some(RowsLanes::R32)
        } else {
            None
        }
    }

    /// The lane count written `v`, or a refusal that quotes it.
    pub fn parse(v: &str) -> (r: Result<RowsLanes, String>)
        ensures
            match r {
                Ok(c) => RowsLanes::named(v@) == Some(c),
                Err(e) => RowsLanes::named(v@) is None && e@ == refusal_text(
                    "rows lanes-per-row must be 8, 16 or 32"@,
                    debug_text(v@),
                ),
            },
    {
        if same_text(v, "8") {
            Ok(RowsLanes::R8)
        } else if same_text(v, "16") {
            Ok(RowsLanes::R16)
        } else if same_text(v, "32") {
            Ok(RowsLanes::R32)
        } else {
            Err(refusal("rows lanes-per-row must be 8, 16 or 32", debug_string(v).as_str()))
        }
    }
}

pub const DECODE_LANES_D128: RowsLanes = RowsLanes::R8;

pub const DECODE_LANES_D256: RowsLanes = RowsLanes::R16;

pub const DECODE_LANES_D512: RowsLanes = RowsLanes::R32;

/// Lanes chosen for a head dimension, in decode and in the row kernels alike.
pub open spec fn lanes_of(d: u32) -> RowsLanes {
    if d == 512 {
        RowsLanes::R32
    } else if d == 256 {
        RowsLanes::R16
    } else {
        RowsLanes::R8
    }
}

/// Lanes per key of the decode partial pass.
pub fn decode_lanes_for(d: u32) -> (r: RowsLanes)
    ensures
        r == lanes_of(d),
{
    match d {
        512 => DECODE_LANES_D512,
        256 => DECODE_LANES_D256,
        _ => DECODE_LANES_D128,
    }
}

/// Simdgroups per threadgroup of the row-parallel kernels.
#[derive(Clone, Copy, Debug, PartialEq, Eq, Structural)]
pub enum RowsGroups {
    G8,
    G16,
    G32,
}

impl RowsGroups {
    /// Simdgroups.
    pub open spec fn len(self) -> usize {
        match self {
            RowsGroups::G8 => 8,
            RowsGroups::G16 => 16,
            RowsGroups::G32 => 32,
        }
    }

    /// Simdgroups.
    pub fn count(self) -> (r: usize)
        ensures
            r == self.len(),
    {
        match self {
            RowsGroups::G8 => 8,
            RowsGroups::G16 => 16,
            RowsGroups::G32 => 32,
        }
    }

    /// The count written `v`.
    pub open spec fn named(v: Seq<char>) -> Option<RowsGroups> {
        if v == "8"@ {
            Some(RowsGroups::G8)
        } else if v == "16"@ {
            Some(RowsGroups::G16)
        } else if v == "32"@ {
            Some(RowsGroups::G32)
        } else {
            None
        }
    }

    /// The count written `v`, or a refusal that quotes it.
    pub fn parse(v: &str) -> (r: Result<RowsGroups, String>)
        ensures
            match r {
                Ok(c) => RowsGroups::named(v@) == Some(c),
                Err(e) => RowsGroups::named(v@) is None && e@ == refusal_text(
                    "rows simdgroups-per-threadgroup must be 8, 16 or 32"@,
                    debug_text(v@),
                ),
            },
    {
        if same_text(v, "8") {
            Ok(RowsGroups::G8)
        } else if same_text(v, "16") {
            Ok(RowsGroups::G16)
        } else if same_text(v, "32") {
            Ok(RowsGroups::G32)
        } else {
            Err(
                refusal(
                    "rows simdgroups-per-threadgroup must be 8, 16 or 32",
                    debug_string(v).as_str(),
                ),
            )
        }
    }
}

pub const ROWS_LANES_D128: RowsLanes = RowsLanes::R8;

pub const ROWS_LANES_D256: RowsLanes = RowsLanes::R16;

pub const ROWS_LANES_D512: RowsLanes = RowsLanes::R32;

/// Lanes per row of the row kernels.
pub fn rows_lanes_for(d: u32) -> (r: RowsLanes)
    ensures
        r == lanes_of(d),
{
    match d {
        512 => ROWS_LANES_D512,
        256 => ROWS_LANES_D256,
        _ => ROWS_LANES_D128,
    }
}

/// The row kernels' lane choice gives every lane sixteen dimensions at each head
/// dimension they are compiled for.
pub proof fn law_rows_lanes_take_sixteen_dims(d: u32)
    requires
        has_kernel(d),
    ensures
        d == 16 * lanes_of(d).len(),
{
}

pub const ROWS_GROUPS_D128: RowsGroups = RowsGroups::G8;

pub const ROWS_GROUPS_D256: RowsGroups = RowsGroups::G32;

pub const ROWS_GROUPS_D512: RowsGroups = RowsGroups::G32;

/// Simdgroups chosen for a head dimension.
pub open spec fn groups_of(d: u32) -> RowsGroups {
    if d == 512 || d == 256 {
        RowsGroups::G32
    } else {
        RowsGroups::G8
    }
}

/// Simdgroups per threadgroup of the row kernels.
pub fn rows_groups_for(d: u32) -> (r: RowsGroups)
    ensures
        r == groups_of(d),
{
    match d {
        512 => ROWS_GROUPS_D512,
        256 => ROWS_GROUPS_D256,
        _ => ROWS_GROUPS_D128,
    }
}

/// Head dimensions the decode and row kernels are compiled for.
pub open spec fn has_kernel(d: u32) -> bool {
    d == 128 || d == 256 || d == 512
}

/// Names of the decode kernels: partial pass and reduce pass.
pub open spec fn decode_names(d: u32, c: DecodeChunk, r: RowsLanes) -> (Seq<char>, Seq<char>) {
    (
        "flash_attn_decode_partial_h"@ + decimal(d as nat) + "_c"@ + decimal(c.len() as nat)
            + "_r"@ + decimal(r.len() as nat),
        "flash_attn_decode_reduce_h"@ + decimal(d as nat) + "_c"@ + decimal(c.len() as nat),
    )
}

/// Names of the decode kernels, where the head dimension has any.
pub fn decode_entries(d: u32, c: DecodeChunk, r: RowsLanes) -> (n: Option<(String, String)>)
    ensures
        match n {
            Some((partial, reduce)) => has_kernel(d) && (partial@, reduce@) == decode_names(
                d,
                c,
                r,
            ),
            None => !has_kernel(d),
        },
{
    if !(d == 128 || d == 256 || d == 512) {
        return None;
    }
    Some(
        (
            Msg::new("flash_attn_decode_partial_h").num(d as usize).text("_c").num(c.keys()).text(
                "_r",
            ).num(r.width()).done(),
            Msg::new("flash_attn_decode_reduce_h").num(d as usize).text("_c").num(c.keys()).done(),
        ),
    )
}

/// Name of a row kernel.
pub open spec fn rows_name(d: u32, r: RowsLanes, g: RowsGroups) -> Seq<char> {
    "flash_attn_rows_h"@ + decimal(d as nat) + "_r"@ + decimal(r.len() as nat) + "_g"@ + decimal(
        g.len() as nat,
    )
}

/// Name of a row kernel, where the head dimension has one.
pub fn rows_entry(d: u32, r: RowsLanes, g: RowsGroups) -> (n: Option<String>)
    ensures
        match n {
            Some(s) => has_kernel(d) && s@ == rows_name(d, r, g),
            None => !has_kernel(d),
        },
{
    if !(d == 128 || d == 256 || d == 512) {
        return None;
    }
    Some(
        Msg::new("flash_attn_rows_h").num(d as usize).text("_r").num(r.width()).text("_g").num(
            g.count(),
        ).done(),
    )
}

// -------------------------------------------------------------- routing ----

/// Which kernel an attention dispatch routes to.
#[derive(Clone, Copy, Debug, PartialEq, Eq, Structural)]
pub enum AttnKernel {
    /// Split over the KV sequence, plus a reduce pass.
    SplitKv,
    /// One simdgroup per query row, single pass.
    Rows,
}

/// The routing rule.
pub open spec fn route(tq: u32, kv_capacity: usize) -> AttnKernel {
    if tq == 1 && kv_capacity > 0 {
        AttnKernel::SplitKv
    } else {
        AttnKernel::Rows
    }
}

/// The routing rule: every single-query dispatch with some backed position is
/// split over the KV sequence.
pub fn attn_kernel_for(tq: u32, kv_capacity: usize) -> (r: AttnKernel)
    ensures
        r == route(tq, kv_capacity),
{
    if tq == 1 && kv_capacity > 0 {
        AttnKernel::SplitKv
    } else {
        AttnKernel::Rows
    }
}

// ------------------------------------------------------------ dimensions ---

/// Shapes and scalars shared by the attention entry points.
#[derive(Clone, Copy, Debug, PartialEq, Eq, Structural)]
pub struct AttnDims {
    /// Batch size.
    pub batch: u32,
    /// Query positions of the dispatch.
    pub tq: u32,
    /// Query heads.
    pub heads: u32,
    /// Key/value heads; `heads` is a multiple of this.
    pub heads_kv: u32,
    /// Sliding-window span; zero is global, and the global entry point ignores
    /// it.
    pub window: u32,
    /// Softmax scale, as a float's bit pattern.
    pub scale: u32,
}

impl AttnDims {
    /// Some output element is computed.
    pub open spec fn has_work(self) -> bool {
        self.batch != 0 && self.tq != 0 && self.heads != 0
    }

    /// Extents of the query and of the output.
    pub open spec fn extents(self, d: u32) -> Seq<int> {
        ints32(seq![self.batch, self.tq, self.heads, d])
    }

    /// Elements of the query and of the output.
    pub open spec fn elements(self, d: u32) -> int {
        product(self.extents(d))
    }
}

/// What is wrong with the dimensions, or with the extents of query and output.
pub open spec fn dims_problem(
    dims: AttnDims,
    d: u32,
    q: Storage,
    o: Storage,
    what: Seq<char>,
    out_bf16: bool,
) -> Option<Seq<char>> {
    first(
        unless(d != 0, what + ": head_dim must be non-zero"@),
        first(
            unless(dims.heads_kv != 0, what + ": heads_kv must be non-zero"@),
            first(
                unless(
                    dims.heads % dims.heads_kv == 0,
                    what + ": heads "@ + decimal(dims.heads as nat)
                        + " is not a multiple of heads_kv "@ + decimal(dims.heads_kv as nat)
                        + " — grouped-query attention maps a whole number of query heads onto each kv head"@,
                ),
                first(
                    unless(
                        finite(dims.scale),
                        what + ": scale must be finite, got "@ + nonfinite_text(dims.scale),
                    ),
                    first(
                        unless(dims.batch * dims.heads <= usize::MAX, overflow_message(what)),
                        first(
                            unless(
                                dims.batch * dims.heads <= u32::MAX,
                                what + ": B*H grid extent "@ + decimal(
                                    (dims.batch * dims.heads) as nat,
                                ) + " exceeds Metal uint indexing"@,
                            ),
                            first(
                                elems_problem(dims.extents(d), what),
                                first(
                                    capacity_problem(q, dims.elements(d), 4, what + " q"@),
                                    if out_bf16 {
                                        capacity_problem(
                                            o,
                                            dims.elements(d),
                                            2,
                                            what + " o (bf16)"@,
                                        )
                                    } else {
                                        capacity_problem(o, dims.elements(d), 4, what + " o"@)
                                    },
                                ),
                            ),
                        ),
                    ),
                ),
            ),
        ),
    )
}

fn validate_attn_dims(
    dims: &AttnDims,
    d: u32,
    q: &Storage,
    o: &Storage,
    what: &str,
    out_bf16: bool,
) -> (r: Result<(), String>)
    ensures
        reports(r, dims_problem(*dims, d, *q, *o, what@, out_bf16)),
{
    if d == 0 {
        return Err(join(what, ": head_dim must be non-zero"));
    }
    if dims.heads_kv == 0 {
        return Err(join(what, ": heads_kv must be non-zero"));
    }
    if dims.heads % dims.heads_kv != 0 {
        return Err(
            Msg::new(what).text(": heads ").num(dims.heads as usize).text(
                " is not a multiple of heads_kv ",
            ).num(dims.heads_kv as usize).text(
                " — grouped-query attention maps a whole number of query heads onto each kv head",
            ).done(),
        );
    }
    if !is_finite(dims.scale) {
        return Err(
            Msg::new(what).text(": scale must be finite, got ").text(
                nonfinite_str(dims.scale),
            ).done(),
        );
    }
    let grid_y: usize = elems(dims.batch, dims.heads, what)?;
    if grid_y > u32::MAX as usize {
        return Err(
            Msg::new(what).text(": B*H grid extent ").num(grid_y).text(
                " exceeds Metal uint indexing",
            ).done(),
        );
    }
    let extents: [u32; 4] = [dims.batch, dims.tq, dims.heads, d];
    assert(extents@ =~= seq![dims.batch, dims.tq, dims.heads, d]);
    let n: usize = elems_product(&extents, what)?;
    require_capacity(q, n, WORD, join(what, " q").as_str())?;
    if out_bf16 {
        require_capacity(o, n, HALF, join(what, " o (bf16)").as_str())
    } else {
        require_capacity(o, n, WORD, join(what, " o").as_str())
    }
}

// ---------------------------------------------------------- KV capacity ----

/// Elements one KV position takes across the batch.
pub open spec fn position_elems(batch: u32, heads_kv: u32, head_dim: u32) -> int {
    product(ints32(seq![batch, heads_kv, head_dim]))
}

/// Whole KV positions a buffer backs; none where a position is empty.
pub open spec fn positions(b: Storage, batch: u32, heads_kv: u32, head_dim: u32) -> int {
    if position_elems(batch, heads_kv, head_dim) == 0 {
        0
    } else {
        capacity(b, 4) / position_elems(batch, heads_kv, head_dim)
    }
}

/// What refuses a KV capacity.
pub open spec fn kv_problem(
    k: Storage,
    v: Storage,
    batch: u32,
    heads_kv: u32,
    head_dim: u32,
    what: Seq<char>,
) -> Option<Seq<char>> {
    let kp = positions(k, batch, heads_kv, head_dim);
    let vp = positions(v, batch, heads_kv, head_dim);
    first(
        unless(heads_kv != 0, what + ": heads_kv must be non-zero"@),
        first(
            unless(head_dim != 0, what + ": head_dim must be non-zero"@),
            first(
                elems_problem(ints32(seq![batch, heads_kv, head_dim]), what),
                first(
                    unless(
                        kp == vp,
                        what + ": K and V imply different fixed capacities ("@ + decimal(kp as nat)
                            + " vs "@ + decimal(vp as nat) + " positions)"@,
                    ),
                    unless(
                        kp <= u32::MAX,
                        what + ": KV capacity "@ + decimal(kp as nat)
                            + " exceeds the device u32 range"@,
                    ),
                ),
            ),
        ),
    )
}

pub(crate) fn attn_kv_capacity_for(
    k: &Storage,
    v: &Storage,
    batch: u32,
    heads_kv: u32,
    head_dim: u32,
    what: &str,
) -> (r: Result<u32, String>)
    ensures
        reports(r, kv_problem(*k, *v, batch, heads_kv, head_dim, what@)),
        r matches Ok(c) ==> c == positions(*k, batch, heads_kv, head_dim),
{
    if heads_kv == 0 {
        return Err(join(what, ": heads_kv must be non-zero"));
    }
    if head_dim == 0 {
        return Err(join(what, ": head_dim must be non-zero"));
    }
    let extents: [u32; 3] = [batch, heads_kv, head_dim];
    assert(extents@ =~= seq![batch, heads_kv, head_dim]);
    let per_position: usize = elems_product(&extents, what)?;
    if per_position == 0 {
        return Ok(0);
    }
    let k_positions: usize = capacity_of(k, WORD) / per_position;
    let v_positions: usize = capacity_of(v, WORD) / per_position;
    if k_positions != v_positions {
        return Err(
            Msg::new(what).text(": K and V imply different fixed capacities (").num(
                k_positions,
            ).text(" vs ").num(v_positions).text(" positions)").done(),
        );
    }
    if k_positions > u32::MAX as usize {
        return Err(
            Msg::new(what).text(": KV capacity ").num(k_positions).text(
                " exceeds the device u32 range",
            ).done(),
        );
    }
    Ok(k_positions as u32)
}

/// The whole positions K and V both back: the kernels' batch stride and the
/// bound on their live length.
pub fn attn_kv_capacity(
    k: &GpuBuffer,
    v: &GpuBuffer,
    batch: u32,
    heads_kv: u32,
    head_dim: u32,
) -> (r: Result<u32, String>)
    ensures
        reports(r, kv_problem(k@, v@, batch, heads_kv, head_dim, "attention"@)),
        r matches Ok(c) ==> c == positions(k@, batch, heads_kv, head_dim),
{
    let k = &k.at();
    let v = &v.at();
    attn_kv_capacity_for(k, v, batch, heads_kv, head_dim, "attention")
}

// -------------------------------------------------------------- storage ----

/// What refuses the storage of an attention call. A float output may share the
/// query's storage; a bf16 one may not, and none may share K's or V's.
pub open spec fn storage_problem(
    dims: AttnDims,
    d: u32,
    q: Storage,
    k: Storage,
    v: Storage,
    o: Storage,
    what: Seq<char>,
    out_bf16: bool,
) -> Option<Seq<char>> {
    first(
        dims_problem(dims, d, q, o, what, out_bf16),
        first(
            kv_problem(k, v, dims.batch, dims.heads_kv, d, what),
            if !dims.has_work() {
                None
            } else {
                first(
                    unless(
                        !(out_bf16 && same_storage(o, q)),
                        what + ": bf16 output must not alias the f32 q input"@,
                    ),
                    first(
                        unless(
                            !same_storage(o, k),
                            what + ": output must not alias read-only "@ + "k"@ + " input"@,
                        ),
                        first(
                            unless(
                                !same_storage(o, v),
                                what + ": output must not alias read-only "@ + "v"@ + " input"@,
                            ),
                            unless(
                                positions(k, dims.batch, dims.heads_kv, d) != 0,
                                what
                                    + ": K/V buffers do not jointly back one complete KV position"@,
                            ),
                        ),
                    ),
                )
            },
        ),
    )
}

pub(crate) fn validate_attn_storage_for(
    dims: &AttnDims,
    d: u32,
    q: &Storage,
    k: &Storage,
    v: &Storage,
    o: &Storage,
    what: &str,
    out_bf16: bool,
) -> (r: Result<u32, String>)
    ensures
        reports(r, storage_problem(*dims, d, *q, *k, *v, *o, what@, out_bf16)),
        r matches Ok(c) ==> c == positions(*k, dims.batch, dims.heads_kv, d),
{
    validate_attn_dims(dims, d, q, o, what, out_bf16)?;
    let kv_capacity: u32 = attn_kv_capacity_for(k, v, dims.batch, dims.heads_kv, d, what)?;
    let has_work = dims.batch != 0 && dims.tq != 0 && dims.heads != 0;
    if !has_work {
        return Ok(kv_capacity);
    }
    if out_bf16 && o.aliases(q) {
        return Err(join(what, ": bf16 output must not alias the f32 q input"));
    }
    if o.aliases(k) {
        return Err(
            Msg::new(what).text(": output must not alias read-only ").text("k").text(
                " input",
            ).done(),
        );
    }
    if o.aliases(v) {
        return Err(
            Msg::new(what).text(": output must not alias read-only ").text("v").text(
                " input",
            ).done(),
        );
    }
    if kv_capacity == 0 {
        return Err(join(what, ": K/V buffers do not jointly back one complete KV position"));
    }
    Ok(kv_capacity)
}

/// Validates attention storage and returns the fixed KV capacity, for callers
/// that bind the kernels themselves.
pub fn validate_attn_storage(
    dims: &AttnDims,
    d: u32,
    q: &GpuBuffer,
    k: &GpuBuffer,
    v: &GpuBuffer,
    o: &GpuBuffer,
    out_bf16: bool,
) -> (r: Result<u32, String>)
    ensures
        reports(r, storage_problem(*dims, d, q@, k@, v@, o@, "attention"@, out_bf16)),
        r matches Ok(c) ==> c == positions(k@, dims.batch, dims.heads_kv, d),
{
    let q = &q.at();
    let k = &k.at();
    let v = &v.at();
    let o = &o.at();
    validate_attn_storage_for(dims, d, q, k, v, o, "attention", out_bf16)
}

/// The first scalar from `i` on that shares the output's storage.
pub open spec fn scalar_clash(
    o: Storage,
    scalars: Seq<(&str, &Storage)>,
    what: Seq<char>,
    i: int,
) -> Option<Seq<char>>
    decreases scalars.len() - i,
{
    if i >= scalars.len() || i < 0 {
        None
    } else if same_storage(o, *scalars[i].1) {
        Some(what + ": output must not alias live "@ + scalars[i].0@ + " scalar"@)
    } else {
        scalar_clash(o, scalars, what, i + 1)
    }
}

/// Where an output shares the storage of a live scalar; a call without work
/// takes any placeholder.
pub open spec fn scalar_problem(
    dims: AttnDims,
    o: Storage,
    scalars: Seq<(&str, &Storage)>,
    what: Seq<char>,
) -> Option<Seq<char>> {
    if dims.has_work() {
        scalar_clash(o, scalars, what, 0)
    } else {
        None
    }
}

fn validate_attn_output_scalar_aliases_for(
    dims: &AttnDims,
    o: &Storage,
    scalars: &[(&str, &Storage)],
    what: &str,
) -> (r: Result<(), String>)
    ensures
        reports(r, scalar_problem(*dims, *o, scalars@, what@)),
{
    if dims.batch == 0 || dims.tq == 0 || dims.heads == 0 {
        return Ok(());
    }
    let mut i: usize = 0;
    while i < scalars.len()
        invariant
            i <= scalars@.len(),
            dims.has_work(),
            scalar_clash(*o, scalars@, what@, 0) == scalar_clash(*o, scalars@, what@, i as int),
        decreases scalars@.len() - i,
    {
        let (name, scalar) = scalars[i];
        if o.aliases(scalar) {
            return Err(
                Msg::new(what).text(": output must not alias live ").text(name).text(
                    " scalar",
                ).done(),
            );
        }
        i += 1;
    }
    Ok(())
}

/// Named handles, by what they name.
pub open spec fn named_storage<'a>(scalars: Seq<(&'a str, &'a GpuBuffer)>) -> Seq<
    (&'a str, &'a Storage),
> {
    Seq::new(scalars.len(), |i: int| (scalars[i].0, &scalars[i].1@))
}

/// Refuses an output that shares storage with a live scalar, for callers that
/// bind the kernels themselves.
pub fn validate_attn_output_scalar_aliases(
    dims: &AttnDims,
    o: &GpuBuffer,
    scalars: &[(&str, &GpuBuffer)],
) -> (r: Result<(), String>)
    ensures
        reports(r, scalar_problem(*dims, o@, named_storage(scalars@), "attention"@)),
{
    let at = o.at();
    let mut i: usize = 0;
    while i < scalars.len()
        invariant
            i <= scalars@.len(),
            at == o@,
            scalar_problem(*dims, at, named_storage(scalars@), "attention"@) == if dims.has_work() {
                scalar_clash(at, named_storage(scalars@), "attention"@, i as int)
            } else {
                None
            },
        decreases scalars@.len() - i,
    {
        let (name, scalar) = scalars[i];
        let one = scalar.at();
        let list = [(name, &one)];
        proof {
            assert(named_storage(scalars@)[i as int] == (name, &one));
            reveal_with_fuel(scalar_clash, 2);
            assert(list@.len() == 1 && list@[0] == (name, &one));
        }
        validate_attn_output_scalar_aliases_for(dims, &at, &list, "attention")?;
        i += 1;
    }
    Ok(())
}

// ------------------------------------------------------------ admission ----

/// The buffers of an attention call. The last three hold one word each that the
/// device reads when it runs.
#[derive(Clone, Copy, Debug, PartialEq, Eq, Structural)]
pub struct AttnOperands {
    pub q: Storage,
    pub k: Storage,
    pub v: Storage,
    pub o: Storage,
    pub tkv: Storage,
    pub q_pos_offset: Storage,
    pub kv_pos_offset: Storage,
}

impl AttnOperands {
    /// The live scalars with their names.
    pub open spec fn live(&self) -> Seq<(&str, &Storage)> {
        seq![
            ("tkv", &self.tkv),
            ("q_pos_offset", &self.q_pos_offset),
            ("kv_pos_offset", &self.kv_pos_offset),
        ]
    }

    /// What refuses the operands: another runtime's buffer, storage, a live
    /// scalar that the output overwrites, or a scalar without a word.
    pub open spec fn problem(
        &self,
        rt: u64,
        dims: AttnDims,
        d: u32,
        what: Seq<char>,
        out_bf16: bool,
    ) -> Option<Seq<char>> {
        first(
            runtime_problem(rt, self.q, what + " "@ + "q"@),
            first(
                runtime_problem(rt, self.k, what + " "@ + "k"@),
                first(
                    runtime_problem(rt, self.v, what + " "@ + "v"@),
                    first(
                        runtime_problem(rt, self.o, what + " "@ + "o"@),
                        first(
                            storage_problem(
                                dims,
                                d,
                                self.q,
                                self.k,
                                self.v,
                                self.o,
                                what,
                                out_bf16,
                            ),
                            first(
                                scalar_problem(dims, self.o, self.live(), what),
                                first(
                                    require_problem(rt, self.tkv, 1, 4, what + " tkv"@),
                                    first(
                                        require_problem(
                                            rt,
                                            self.q_pos_offset,
                                            1,
                                            4,
                                            what + " q_pos_offset"@,
                                        ),
                                        require_problem(
                                            rt,
                                            self.kv_pos_offset,
                                            1,
                                            4,
                                            what + " kv_pos_offset"@,
                                        ),
                                    ),
                                ),
                            ),
                        ),
                    ),
                ),
            ),
        )
    }

    /// Whole KV positions that K backs.
    pub open spec fn kv_capacity(&self, dims: AttnDims, d: u32) -> int {
        positions(self.k, dims.batch, dims.heads_kv, d)
    }

    /// The KV capacity of admitted operands.
    pub(crate) fn accept(&self, rt: u64, dims: &AttnDims, d: u32, what: &str, out_bf16: bool) -> (r:
        Result<u32, String>)
        ensures
            reports(r, self.problem(rt, *dims, d, what@, out_bf16)),
            r matches Ok(c) ==> c == self.kv_capacity(*dims, d),
    {
        let named = join(what, " ");
        require_runtime(rt, &self.q, join(named.as_str(), "q").as_str())?;
        require_runtime(rt, &self.k, join(named.as_str(), "k").as_str())?;
        require_runtime(rt, &self.v, join(named.as_str(), "v").as_str())?;
        require_runtime(rt, &self.o, join(named.as_str(), "o").as_str())?;
        let kv_capacity: u32 = validate_attn_storage_for(
            dims,
            d,
            &self.q,
            &self.k,
            &self.v,
            &self.o,
            what,
            out_bf16,
        )?;
        let live = [
            ("tkv", &self.tkv),
            ("q_pos_offset", &self.q_pos_offset),
            ("kv_pos_offset", &self.kv_pos_offset),
        ];
        assert(live@ =~= self.live());
        validate_attn_output_scalar_aliases_for(dims, &self.o, &live, what)?;
        require(rt, &self.tkv, 1, WORD, join(what, " tkv").as_str())?;
        require(rt, &self.q_pos_offset, 1, WORD, join(what, " q_pos_offset").as_str())?;
        require(rt, &self.kv_pos_offset, 1, WORD, join(what, " kv_pos_offset").as_str())?;
        Ok(kv_capacity)
    }
}

/// Admitted storage backs every element the kernels touch: query and output in
/// full, and every KV position below the returned capacity.
pub proof fn law_admitted_attention_is_backed(
    dims: AttnDims,
    d: u32,
    q: Storage,
    k: Storage,
    v: Storage,
    o: Storage,
    what: Seq<char>,
    out_bf16: bool,
)
    requires
        storage_problem(dims, d, q, k, v, o, what, out_bf16) is None,
    ensures
        dims.elements(d) * 4 <= q.nbytes,
        dims.elements(d) * (if out_bf16 {
            2int
        } else {
            4int
        }) <= o.nbytes,
        positions(k, dims.batch, dims.heads_kv, d) * position_elems(dims.batch, dims.heads_kv, d)
            * 4 <= k.nbytes,
        positions(k, dims.batch, dims.heads_kv, d) * position_elems(dims.batch, dims.heads_kv, d)
            * 4 <= v.nbytes,
        dims.heads as int == dims.heads_kv * (dims.heads / dims.heads_kv),
        dims.has_work() ==> positions(k, dims.batch, dims.heads_kv, d) > 0,
{
    let per = position_elems(dims.batch, dims.heads_kv, d);
    crate::sizes::lemma_product_nonneg(
        ints32(seq![dims.batch, dims.heads_kv, d]),
        3,
    );
    vstd::arithmetic::div_mod::lemma_fundamental_div_mod(dims.heads as int, dims.heads_kv as int);
    if per > 0 {
        vstd::arithmetic::div_mod::lemma_fundamental_div_mod(capacity(k, 4), per);
        vstd::arithmetic::div_mod::lemma_fundamental_div_mod(capacity(v, 4), per);
        let kp = capacity(k, 4) / per;
        assert(kp * per == per * kp) by (nonlinear_arith);
        vstd::arithmetic::div_mod::lemma_div_pos_is_pos(capacity(k, 4), per);
    }
}

} // verus!
