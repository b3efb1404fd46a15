//! Softcap, argmax and sampling.

use vstd::prelude::*;

use crate::device::Pipeline;
use crate::dispatch::{launch_1d, launch_groups, Bind};
use crate::nn::check::{
    at, at_opt, bind_list, buf, disjoint_problem, encodes, reduction_lanes, reduction_tptg, require,
    require_disjoint_writes, require_problem, storage_of, word, word_at, WORD,
};
use crate::runtime::GpuRuntime;
use crate::sizes::{ceil_div, div_ceil, next_pow2_within, pow2_ceil};
use crate::state::RuntimeState;
use crate::tensor::{BufferKind, GpuBuffer, Storage};
use crate::text::{decimal, first, owned, unless, Msg};
use crate::seen::{beside, carried, dispatch, from_slot, in_view, rising};
use crate::nn::attention_laws::{bit};
use crate::nn::cache_laws::{argmax_seen, capped_seen, law_argmax_one_pass, law_argmax_pass, law_sample, law_softcap_logits, one_pass_seen, sample_seen};

verus! {

/// Effect of [`softcap_logits_with_scalars`].
pub open spec fn softcap_logits_step(
    rt: RuntimeState,
    logits: Storage,
    softcap: Storage,
    n: u32,
    scalars: Seq<Bind>,
) -> (RuntimeState, Option<Seq<char>>) {
    rt.guarded(
        first(
            require_problem(rt.id, logits, n as int, 4, "softcap_logits logits"@),
            require_problem(rt.id, softcap, 1, 4, "softcap_logits softcap"@),
        ),
        false,
        disjoint_problem("softcap_logits"@, seq![("logits", &logits)], seq![("softcap", &softcap)]),
        rt.kernel_1d("softcap_logits"@, n as usize, seq![at(logits, 0), at(softcap, 1)] + scalars),
    )
}

/// [`softcap_logits`] with caller-supplied scalar binds: 2 = `n`.
pub fn softcap_logits_with_scalars(
    rt: &mut GpuRuntime,
    logits: &GpuBuffer,
    softcap: &GpuBuffer,
    n: u32,
    scalars: &[Bind],
) -> (r: Result<(), String>)
    requires
        old(rt).inv(),
    ensures
        final(rt).inv(),
        encodes(
            old(rt)@,
            final(rt)@,
            r,
            softcap_logits_step(old(rt)@, logits@, softcap@, n, scalars@),
        ),
        r is Ok && n > 0 && from_slot(scalars@, 2) && in_view(old(rt)@, final(rt)@) ==> capped_seen(
            old(rt)@,
            final(rt)@,
            logits@,
            softcap@,
            n,
            scalars@,
        ),
{
    broadcast use law_softcap_logits;

    let logits = &logits.at();
    let softcap = &softcap.at();
    let id: u64 = rt.id();
    require(id, logits, n as usize, WORD, "softcap_logits logits")?;
    require(id, softcap, 1, WORD, "softcap_logits softcap")?;
    let writes = [("logits", logits)];
    let reads = [("softcap", softcap)];
    assert(writes@ =~= seq![("logits", logits)]);
    assert(reads@ =~= seq![("softcap", softcap)]);
    require_disjoint_writes("softcap_logits", &writes, &reads)?;
    let p = rt.pipeline("softcap_logits")?;
    let head = [buf(logits, 0), buf(softcap, 1)];
    assert(head@ =~= seq![at(*logits, 0), at(*softcap, 1)]);
    let binds = bind_list(&head, scalars);
    launch_1d(rt, &p, n as usize, binds.as_slice())
}

/// `logits[i] = softcap * tanh(logits[i] / softcap)`, in place. `softcap` is a
/// device float.
pub fn softcap_logits(
    rt: &mut GpuRuntime,
    logits: &GpuBuffer,
    softcap: &GpuBuffer,
    n: u32,
) -> (r: Result<(), String>)
    requires
        old(rt).inv(),
    ensures
        final(rt).inv(),
        encodes(
            old(rt)@,
            final(rt)@,
            r,
            softcap_logits_step(old(rt)@, logits@, softcap@, n, seq![word_at(n, 2)]),
        ),
        r is Ok && n > 0 && in_view(old(rt)@, final(rt)@) ==> ({
                let l = dispatch(old(rt)@, final(rt)@);
                &&& capped_seen(
                    old(rt)@,
                    final(rt)@,
                    logits@,
                    softcap@,
                    n,
                    Seq::empty(),
                )
                &&& l.reads(2, n)
            }),
{
    proof {
        reveal_with_fuel(rising, 8);
        reveal(carried);
    }
    let scalars = [word(n, 2)];
    assert(scalars@ =~= seq![word_at(n, 2)]);
    softcap_logits_with_scalars(rt, logits, softcap, n, &scalars)
}

/// Effect of [`softcap_argmax_one_pass_with_scalars`].
pub open spec fn softcap_argmax_one_pass_step(
    rt: RuntimeState,
    logits: Storage,
    out_token: Storage,
    softcap: Storage,
    n: u32,
    scalars: Seq<Bind>,
) -> (RuntimeState, Option<Seq<char>>) {
    rt.guarded(
        first(
            unless(n != 0, "softcap_argmax_one_pass: n must be non-zero"@),
            first(
                require_problem(rt.id, logits, n as int, 4, "softcap_argmax_one_pass logits"@),
                first(
                    require_problem(rt.id, out_token, 1, 4, "softcap_argmax_one_pass out_token"@),
                    require_problem(rt.id, softcap, 1, 4, "softcap_argmax_one_pass softcap"@),
                ),
            ),
        ),
        false,
        disjoint_problem(
            "softcap_argmax_one_pass"@,
            seq![("out_token", &out_token)],
            seq![("logits", &logits), ("softcap", &softcap)],
        ),
        rt.kernel_groups(
            "softcap_argmax_one_pass"@,
            seq![at(logits, 0), at(out_token, 1), at(softcap, 2)] + scalars,
            None,
            1,
            1,
            |p: Pipeline| reduction_lanes(p.max_threads as int, 1024, 1024) as usize,
        ),
    )
}

/// [`softcap_argmax_one_pass`] with caller-supplied scalar binds: 3 =
/// `n`.
pub fn softcap_argmax_one_pass_with_scalars(
    rt: &mut GpuRuntime,
    logits: &GpuBuffer,
    out_token: &GpuBuffer,
    softcap: &GpuBuffer,
    n: u32,
    scalars: &[Bind],
) -> (r: Result<(), String>)
    requires
        old(rt).inv(),
    ensures
        final(rt).inv(),
        encodes(
            old(rt)@,
            final(rt)@,
            r,
            softcap_argmax_one_pass_step(old(rt)@, logits@, out_token@, softcap@, n, scalars@),
        ),
        r is Ok && from_slot(scalars@, 3) && in_view(old(rt)@, final(rt)@) ==> one_pass_seen(
            old(rt)@,
            final(rt)@,
            logits@,
            out_token@,
            softcap@,
            n,
            scalars@,
        ),
{
    broadcast use law_argmax_one_pass;

    let logits = &logits.at();
    let out_token = &out_token.at();
    let softcap = &softcap.at();
    let id: u64 = rt.id();
    if n == 0 {
        return Err(owned("softcap_argmax_one_pass: n must be non-zero"));
    }
    require(id, logits, n as usize, WORD, "softcap_argmax_one_pass logits")?;
    require(id, out_token, 1, WORD, "softcap_argmax_one_pass out_token")?;
    require(id, softcap, 1, WORD, "softcap_argmax_one_pass softcap")?;
    let writes = [("out_token", out_token)];
    let reads = [("logits", logits), ("softcap", softcap)];
    assert(writes@ =~= seq![("out_token", out_token)]);
    assert(reads@ =~= seq![("logits", logits), ("softcap", softcap)]);
    require_disjoint_writes("softcap_argmax_one_pass", &writes, &reads)?;
    let p = rt.pipeline("softcap_argmax_one_pass")?;
    let head = [buf(logits, 0), buf(out_token, 1), buf(softcap, 2)];
    assert(head@ =~= seq![at(*logits, 0), at(*out_token, 1), at(*softcap, 2)]);
    let binds = bind_list(&head, scalars);
    let tptg: usize = reduction_tptg(p.max_threads, 1024, 1024);
    launch_groups(rt, &p, binds.as_slice(), None, 1, 1, tptg)
}

/// Softcap-and-argmax over an arbitrarily large `logits`, in one dispatch of one
/// threadgroup whose lanes each scan a strided slice. `logits` is not rewritten.
pub fn softcap_argmax_one_pass(
    rt: &mut GpuRuntime,
    logits: &GpuBuffer,
    out_token: &GpuBuffer,
    softcap: &GpuBuffer,
    n: u32,
) -> (r: Result<(), String>)
    requires
        old(rt).inv(),
    ensures
        final(rt).inv(),
        encodes(
            old(rt)@,
            final(rt)@,
            r,
            softcap_argmax_one_pass_step(
                old(rt)@,
                logits@,
                out_token@,
                softcap@,
                n,
                seq![word_at(n, 3)],
            ),
        ),
        r is Ok && in_view(old(rt)@, final(rt)@) ==> ({
                let l = dispatch(old(rt)@, final(rt)@);
                &&& one_pass_seen(
                    old(rt)@,
                    final(rt)@,
                    logits@,
                    out_token@,
                    softcap@,
                    n,
                    Seq::empty(),
                )
                &&& l.reads(3, n)
            }),
{
    proof {
        reveal_with_fuel(rising, 8);
        reveal(carried);
    }
    let scalars = [word(n, 3)];
    assert(scalars@ =~= seq![word_at(n, 3)]);
    softcap_argmax_one_pass_with_scalars(rt, logits, out_token, softcap, n, &scalars)
}
/// Threads per group of the argmax reduction.
pub const ARGMAX_TG: usize = 256;

/// Groups, and so partial results, of an argmax pass over `n` inputs.
pub open spec fn argmax_groups(n: u32) -> usize {
    ceil_div(n as int, 256) as usize
}

/// Threadgroups [`argmax_f32_pass`] launches for `n` inputs, and therefore the
/// number of partial results it writes.
pub fn argmax_pass_groups(n: u32) -> (r: usize)
    ensures
        r == argmax_groups(n),
{
    div_ceil(n as usize, ARGMAX_TG)
}

/// Passes shrink: more than one input leaves fewer partial results than inputs,
/// so repeated passes end with one group.
pub proof fn law_argmax_passes_shrink(n: u32)
    ensures
        n > 1 ==> argmax_groups(n) < n,
        n > 0 ==> argmax_groups(n) > 0,
        0 < n <= 256 ==> argmax_groups(n) == 1,
{
    crate::sizes::lemma_ceil_div_covers(n as int, 256);
}

/// What refuses an argmax pass.
pub open spec fn argmax_problem(
    id: u64,
    logits: Storage,
    out_idx: Storage,
    out_val: Storage,
    idx_in: Option<Storage>,
    softcap: Storage,
    n: u32,
) -> Option<Seq<char>> {
    let groups = argmax_groups(n) as int;
    first(
        unless(n != 0, "argmax_f32_pass: n must be non-zero"@),
        first(
            require_problem(id, logits, n as int, 4, "argmax_f32_pass logits"@),
            first(
                require_problem(id, out_idx, groups, 4, "argmax_f32_pass out_idx"@),
                first(
                    require_problem(id, out_val, groups, 4, "argmax_f32_pass out_val"@),
                    first(
                        require_problem(id, softcap, 1, 4, "argmax_f32_pass softcap"@),
                        first(
                            match idx_in {
                                Some(b) => require_problem(
                                    id,
                                    b,
                                    n as int,
                                    4,
                                    "argmax_f32_pass idx_in"@,
                                ),
                                None => None,
                            },
                            match idx_in {
                                Some(b) => disjoint_problem(
                                    "argmax_f32_pass"@,
                                    seq![("out_idx", &out_idx), ("out_val", &out_val)],
                                    seq![
                                        ("logits", &logits),
                                        ("idx_in", &b),
                                        ("softcap", &softcap),
                                    ],
                                ),
                                None => disjoint_problem(
                                    "argmax_f32_pass"@,
                                    seq![("out_idx", &out_idx), ("out_val", &out_val)],
                                    seq![("logits", &logits), ("softcap", &softcap)],
                                ),
                            },
                        ),
                    ),
                ),
            ),
        ),
    )
}

/// Effect of [`argmax_f32_pass_with_scalars`]. A first pass has no indices to
/// read and binds a placeholder of its own in their slot.
pub open spec fn argmax_f32_pass_step(
    rt: RuntimeState,
    logits: Storage,
    out_idx: Storage,
    out_val: Storage,
    idx_in: Option<Storage>,
    softcap: Storage,
    n: u32,
    scalars: Seq<Bind>,
) -> (RuntimeState, Option<Seq<char>>) {
    let head = seq![at(logits, 0), at(out_idx, 1), at(out_val, 2)] + scalars;
    match argmax_problem(rt.id, logits, out_idx, out_val, idx_in, softcap, n) {
        Some(m) => (rt, Some(m)),
        None => {
            let (s, r) = rt.piped("argmax_f32"@);
            match r {
                Err(m) => (s, Some(m)),
                Ok(p) => match idx_in {
                    Some(b) => s.launched_groups(
                        p,
                        head + seq![at(b, 4), at(softcap, 6)],
                        None,
                        argmax_groups(n),
                        1,
                        256,
                    ),
                    None => {
                        let (t, a) = s.allocated(4, BufferKind::Cold);
                        match a {
                            Err(m) => (t, Some(m)),
                            Ok(b) => {
                                let (u, o) = t.launched_groups(
                                    p,
                                    head + seq![at(b, 4), at(softcap, 6)],
                                    None,
                                    argmax_groups(n),
                                    1,
                                    256,
                                );
                                (u.retired(b), o)
                            },
                        }
                    },
                },
            }
        },
    }
}

/// [`argmax_f32_pass`] with caller-supplied scalar binds: 3 = `n`,
/// 5 = whether `idx_in` is given.
pub fn argmax_f32_pass_with_scalars(
    rt: &mut GpuRuntime,
    logits: &GpuBuffer,
    out_idx: &GpuBuffer,
    out_val: &GpuBuffer,
    idx_in: Option<&GpuBuffer>,
    softcap: &GpuBuffer,
    n: u32,
    scalars: &[Bind],
) -> (r: Result<(), String>)
    requires
        old(rt).inv(),
    ensures
        final(rt).inv(),
        encodes(
            old(rt)@,
            final(rt)@,
            r,
            argmax_f32_pass_step(
                old(rt)@,
                logits@,
                out_idx@,
                out_val@,
                storage_of(idx_in),
                softcap@,
                n,
                scalars@,
            ),
        ),
        r is Ok && beside(scalars@, 3, 4, 6) && in_view(old(rt)@, final(rt)@) ==> argmax_seen(
            old(rt)@,
            final(rt)@,
            logits@,
            out_idx@,
            out_val@,
            storage_of(idx_in),
            softcap@,
            n,
            scalars@,
        ),
{
    broadcast use law_argmax_pass;

    let logits = &logits.at();
    let out_idx = &out_idx.at();
    let out_val = &out_val.at();
    let softcap = &softcap.at();
    let idx_in = at_opt(idx_in);
    let id: u64 = rt.id();
    if n == 0 {
        return Err(owned("argmax_f32_pass: n must be non-zero"));
    }
    let groups: usize = argmax_pass_groups(n);
    require(id, logits, n as usize, WORD, "argmax_f32_pass logits")?;
    require(id, out_idx, groups, WORD, "argmax_f32_pass out_idx")?;
    require(id, out_val, groups, WORD, "argmax_f32_pass out_val")?;
    require(id, softcap, 1, WORD, "argmax_f32_pass softcap")?;
    match &idx_in {
        Some(b) => require(id, b, n as usize, WORD, "argmax_f32_pass idx_in")?,
        None => {},
    }
    let writes = [("out_idx", out_idx), ("out_val", out_val)];
    assert(writes@ =~= seq![("out_idx", out_idx), ("out_val", out_val)]);
    match &idx_in {
        Some(b) => {
            let reads = [("logits", logits), ("idx_in", b), ("softcap", softcap)];
            assert(reads@ =~= seq![("logits", logits), ("idx_in", b), ("softcap", softcap)]);
            require_disjoint_writes("argmax_f32_pass", &writes, &reads)?;
        },
        None => {
            let reads = [("logits", logits), ("softcap", softcap)];
            assert(reads@ =~= seq![("logits", logits), ("softcap", softcap)]);
            require_disjoint_writes("argmax_f32_pass", &writes, &reads)?;
        },
    }
    let p = rt.pipeline("argmax_f32")?;
    let head = [buf(logits, 0), buf(out_idx, 1), buf(out_val, 2)];
    assert(head@ =~= seq![at(*logits, 0), at(*out_idx, 1), at(*out_val, 2)]);
    let binds = bind_list(&head, scalars);
    match idx_in {
        Some(b) => {
            let tail = [buf(&b, 4), buf(softcap, 6)];
            assert(tail@ =~= seq![at(b, 4), at(*softcap, 6)]);
            let binds = bind_list(binds.as_slice(), &tail);
            launch_groups(rt, &p, binds.as_slice(), None, groups, 1, ARGMAX_TG)
        },
        None => {
            let unused = rt.alloc_buffer(4)?;
            let b = unused.at();
            let tail = [buf(&b, 4), buf(softcap, 6)];
            assert(tail@ =~= seq![at(b, 4), at(*softcap, 6)]);
            let binds = bind_list(binds.as_slice(), &tail);
            let r = launch_groups(rt, &p, binds.as_slice(), None, groups, 1, ARGMAX_TG);
            rt.recycle_buffer(unused);
            r
        },
    }
}

/// One reduction pass of a multi-pass argmax: one `(index, value)` pair per
/// threadgroup goes to `out_idx` / `out_val`, which hold [`argmax_pass_groups`]
/// elements each. The first pass gives no `idx_in`; later passes give the
/// previous pass's `out_idx`.
pub fn argmax_f32_pass(
    rt: &mut GpuRuntime,
    logits: &GpuBuffer,
    out_idx: &GpuBuffer,
    out_val: &GpuBuffer,
    idx_in: Option<&GpuBuffer>,
    softcap: &GpuBuffer,
    n: u32,
) -> (r: Result<(), String>)
    requires
        old(rt).inv(),
    ensures
        final(rt).inv(),
        encodes(
            old(rt)@,
            final(rt)@,
            r,
            argmax_f32_pass_step(
                old(rt)@,
                logits@,
                out_idx@,
                out_val@,
                storage_of(idx_in),
                softcap@,
                n,
                seq![
                    word_at(n, 3),
                    word_at(
                        if storage_of(idx_in) is Some {
                            1
                        } else {
                            0
                        },
                        5,
                    ),
                ],
            ),
        ),
        r is Ok && in_view(old(rt)@, final(rt)@) ==> ({
                let l = dispatch(old(rt)@, final(rt)@);
                &&& argmax_seen(
                    old(rt)@,
                    final(rt)@,
                    logits@,
                    out_idx@,
                    out_val@,
                    storage_of(idx_in),
                    softcap@,
                    n,
                    Seq::empty(),
                )
                &&& l.reads(3, n)
                &&& l.reads(5, bit(storage_of(idx_in) is Some))
            }),
{
    proof {
        reveal_with_fuel(rising, 8);
        reveal(carried);
    }
    let has: u32 = if idx_in.is_some() {
        1
    } else {
        0
    };
    let scalars = [word(n, 3), word(has, 5)];
    assert(scalars@ =~= seq![word_at(n, 3), word_at(has, 5)]);
    argmax_f32_pass_with_scalars(rt, logits, out_idx, out_val, idx_in, softcap, n, &scalars)
}

/// Lanes of [`softcap_sample`] on a pipeline of `max_threads`.
pub open spec fn sample_lanes(max_threads: usize, n: u32) -> usize {
    reduction_lanes(max_threads as int, pow2_ceil(n as int), 256) as usize
}

/// Where one threadgroup cannot hold every logit.
pub open spec fn sample_problem(max_threads: usize, n: u32) -> Option<Seq<char>> {
    let tptg = sample_lanes(max_threads, n);
    unless(
        n <= tptg,
        "softcap_sample: n = "@ + decimal(n as nat) + " exceeds the "@ + decimal(tptg as nat)
            + "-lane threadgroup this kernel reduces over; logits past lane "@ + decimal(
            tptg as nat,
        ) + " would be ignored. Use softcap_argmax_one_pass for a full vocabulary."@,
    )
}

/// Effect of [`softcap_sample_with_scalars`].
pub open spec fn softcap_sample_step(
    rt: RuntimeState,
    logits: Storage,
    out_token: Storage,
    softcap: Storage,
    n: u32,
    scalars: Seq<Bind>,
) -> (RuntimeState, Option<Seq<char>>) {
    let problem = first(
        unless(n != 0, "softcap_sample: n must be non-zero"@),
        first(
            require_problem(rt.id, logits, n as int, 4, "softcap_sample logits"@),
            first(
                require_problem(rt.id, out_token, 1, 4, "softcap_sample out_token"@),
                first(
                    require_problem(rt.id, softcap, 1, 4, "softcap_sample softcap"@),
                    disjoint_problem(
                        "softcap_sample"@,
                        seq![("logits", &logits), ("out_token", &out_token)],
                        seq![("softcap", &softcap)],
                    ),
                ),
            ),
        ),
    );
    match problem {
        Some(m) => (rt, Some(m)),
        None => {
            let (s, r) = rt.piped("softcap_sample"@);
            match r {
                Err(m) => (s, Some(m)),
                Ok(p) => match sample_problem(p.max_threads, n) {
                    Some(m) => (s, Some(m)),
                    None => s.launched_groups(
                        p,
                        seq![at(logits, 0), at(out_token, 1), at(softcap, 2)] + scalars,
                        None,
                        1,
                        1,
                        sample_lanes(p.max_threads, n),
                    ),
                },
            }
        },
    }
}

/// [`softcap_sample`] with caller-supplied scalar binds: 3 = `n`.
pub fn softcap_sample_with_scalars(
    rt: &mut GpuRuntime,
    logits: &GpuBuffer,
    out_token: &GpuBuffer,
    softcap: &GpuBuffer,
    n: u32,
    scalars: &[Bind],
) -> (r: Result<(), String>)
    requires
        old(rt).inv(),
    ensures
        final(rt).inv(),
        encodes(
            old(rt)@,
            final(rt)@,
            r,
            softcap_sample_step(old(rt)@, logits@, out_token@, softcap@, n, scalars@),
        ),
        r is Ok && from_slot(scalars@, 3) && in_view(old(rt)@, final(rt)@) ==> sample_seen(
            old(rt)@,
            final(rt)@,
            logits@,
            out_token@,
            softcap@,
            n,
            scalars@,
        ),
{
    broadcast use law_sample;

    let logits = &logits.at();
    let out_token = &out_token.at();
    let softcap = &softcap.at();
    let id: u64 = rt.id();
    if n == 0 {
        return Err(owned("softcap_sample: n must be non-zero"));
    }
    require(id, logits, n as usize, WORD, "softcap_sample logits")?;
    require(id, out_token, 1, WORD, "softcap_sample out_token")?;
    require(id, softcap, 1, WORD, "softcap_sample softcap")?;
    let writes = [("logits", logits), ("out_token", out_token)];
    let reads = [("softcap", softcap)];
    assert(writes@ =~= seq![("logits", logits), ("out_token", out_token)]);
    assert(reads@ =~= seq![("softcap", softcap)]);
    require_disjoint_writes("softcap_sample", &writes, &reads)?;
    let p = rt.pipeline("softcap_sample")?;
    proof {
        crate::sizes::lemma_pow2_ceil(n as int);
        crate::sizes::lemma_pow2_floor(
            crate::sizes::most(
                crate::sizes::least(
                    crate::sizes::least(p.max_threads as int, 256),
                    pow2_ceil(n as int),
                ),
                1,
            ),
        );
    }
    let want: usize = match next_pow2_within(n as usize, 256) {
        Some(w) => w,
        None => 256,
    };
    let tptg: usize = reduction_tptg(p.max_threads, want, 256);
    if (n as usize) > tptg {
        return Err(
            Msg::new("softcap_sample: n = ").num(n as usize).text(" exceeds the ").num(tptg).text(
                "-lane threadgroup this kernel reduces over; logits past lane ",
            ).num(tptg).text(
                " would be ignored. Use softcap_argmax_one_pass for a full vocabulary.",
            ).done(),
        );
    }
    let head = [buf(logits, 0), buf(out_token, 1), buf(softcap, 2)];
    assert(head@ =~= seq![at(*logits, 0), at(*out_token, 1), at(*softcap, 2)]);
    let binds = bind_list(&head, scalars);
    launch_groups(rt, &p, binds.as_slice(), None, 1, 1, tptg)
}

/// Softcaps `logits` in place and writes the argmax index to `out_token`. One
/// threadgroup holds every logit, one per lane; a longer vector is refused.
pub fn softcap_sample(
    rt: &mut GpuRuntime,
    logits: &GpuBuffer,
    out_token: &GpuBuffer,
    softcap: &GpuBuffer,
    n: u32,
) -> (r: Result<(), String>)
    requires
        old(rt).inv(),
    ensures
        final(rt).inv(),
        encodes(
            old(rt)@,
            final(rt)@,
            r,
            softcap_sample_step(
                old(rt)@,
                logits@,
                out_token@,
                softcap@,
                n,
                seq![word_at(n, 3)],
            ),
        ),
        r is Ok && in_view(old(rt)@, final(rt)@) ==> ({
                let l = dispatch(old(rt)@, final(rt)@);
                &&& sample_seen(
                    old(rt)@,
                    final(rt)@,
                    logits@,
                    out_token@,
                    softcap@,
                    n,
                    Seq::empty(),
                )
                &&& l.reads(3, n)
            }),
{
    proof {
        reveal_with_fuel(rising, 8);
        reveal(carried);
    }
    let scalars = [word(n, 3)];
    assert(scalars@ =~= seq![word_at(n, 3)]);
    softcap_sample_with_scalars(rt, logits, out_token, softcap, n, &scalars)
}

} // verus!
