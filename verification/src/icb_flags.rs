//! Switches of the indirect-command-buffer replay path. Each is off until the
//! environment or a caller turns it on; the first read latches.

use vstd::prelude::*;

use crate::ab_flags::{env_truthy, Env};

verus! {

/// Names deciding [`decode_icb_enabled`].
pub const ENV_DECODE_ICB: [&'static str; 3] = [
    "TESSL_DECODE_ICB",
    "METAL_RUNTIME_DECODE_ICB",
    "GEMMA_METAL_DECODE_ICB",
];

/// Names deciding [`prebuilt_tables_enabled`].
pub const ENV_ICB_PREBUILT_TABLES: [&'static str; 3] = [
    "TESSL_ICB_PREBUILT_TABLES",
    "METAL_RUNTIME_ICB_PREBUILT_TABLES",
    "GEMMA_METAL_ICB_PREBUILT_TABLES",
];

/// Names deciding [`icb_freeze_binds_enabled`].
pub const ENV_ICB_FREEZE_BINDS: [&'static str; 3] = [
    "TESSL_ICB_FREEZE_BINDS",
    "METAL_RUNTIME_ICB_FREEZE_BINDS",
    "GEMMA_METAL_ICB_FREEZE_BINDS",
];

/// Names deciding [`icb_range_batch_enabled`].
pub const ENV_ICB_RANGE_BATCH: [&'static str; 3] = [
    "TESSL_ICB_RANGE_BATCH",
    "METAL_RUNTIME_ICB_RANGE_BATCH",
    "GEMMA_METAL_ICB_RANGE_BATCH",
];

/// Names deciding [`icb_coarse_ranges_enabled`].
pub const ENV_ICB_COARSE_RANGES: [&'static str; 3] = [
    "TESSL_ICB_COARSE_RANGES",
    "METAL_RUNTIME_ICB_COARSE_RANGES",
    "GEMMA_METAL_ICB_COARSE_RANGES",
];

/// Names deciding [`icb_pipelines_enabled`].
pub const ENV_ICB_PIPELINES: [&'static str; 3] = [
    "TESSL_ICB_PIPELINES",
    "METAL_RUNTIME_ICB_PIPELINES",
    "GEMMA_METAL_ICB_PIPELINES",
];

/// Names deciding [`icb_execute_enabled`].
pub const ENV_ICB_EXECUTE: [&'static str; 3] = [
    "TESSL_ICB_EXECUTE",
    "METAL_RUNTIME_ICB_EXECUTE",
    "GEMMA_METAL_ICB_EXECUTE",
];

/// Names deciding [`icb_triage_enabled`].
pub const ENV_ICB_TRIAGE: [&'static str; 2] = ["TESSL_ICB_TRIAGE", "GEMMA_METAL_ICB_TRIAGE"];

/// The latches.
#[derive(Clone, Copy, Debug, PartialEq, Eq, Structural)]
pub struct IcbFlags {
    pub decode_icb: Option<bool>,
    pub freeze_binds: Option<bool>,
    pub range_batch: Option<bool>,
    pub coarse_ranges: Option<bool>,
    pub pipelines: Option<bool>,
    pub encode_nop: bool,
}

/// A latch's value: what it holds, else what the environment says, else `false`.
pub open spec fn latched(latch: Option<bool>, env: Env, names: Seq<&str>) -> bool {
    match latch {
        Some(b) => b,
        None => crate::ab_flags::env_or(env, names, false),
    }
}

fn read_latch(latch: &mut Option<bool>, env: &Env, names: &[&str]) -> (r: bool)
    ensures
        r == latched(*old(latch), *env, names@),
        *final(latch) == Some(r),
{
    match *latch {
        Some(b) => b,
        None => {
            let b = match env_truthy(env, names) {
                Some(b) => b,
                None => false,
            };
            *latch = Some(b);
            b
        },
    }
}

impl IcbFlags {
    /// Nothing latched, encoding live.
    pub fn new() -> (f: IcbFlags)
        ensures
            f == (IcbFlags {
                decode_icb: None,
                freeze_binds: None,
                range_batch: None,
                coarse_ranges: None,
                pipelines: None,
                encode_nop: false,
            }),
    {
        IcbFlags {
            decode_icb: None,
            freeze_binds: None,
            range_batch: None,
            coarse_ranges: None,
            pipelines: None,
            encode_nop: false,
        }
    }

    /// Replay opt-in.
    pub open spec fn decode_icb_value(self, env: Env) -> bool {
        latched(self.decode_icb, env, ENV_DECODE_ICB@)
    }

    /// Freeze-binds opt-in.
    pub open spec fn freeze_binds_value(self, env: Env) -> bool {
        latched(self.freeze_binds, env, ENV_ICB_FREEZE_BINDS@)
    }

    /// Range-batch opt-in.
    pub open spec fn range_batch_value(self, env: Env) -> bool {
        latched(self.range_batch, env, ENV_ICB_RANGE_BATCH@)
    }

    /// Coarse ranges: latched, else set by the environment, else follows
    /// range-batch.
    pub open spec fn coarse_ranges_value(self, env: Env) -> bool {
        match self.coarse_ranges {
            Some(b) => b,
            None => match crate::ab_flags::decided(env, ENV_ICB_COARSE_RANGES@) {
                Some(b) => b,
                None => self.range_batch_value(env),
            },
        }
    }

    /// ICB-capable pipelines opt-in.
    pub open spec fn pipelines_value(self, env: Env) -> bool {
        latched(self.pipelines, env, ENV_ICB_PIPELINES@)
    }

    /// These flags after [`icb_coarse_ranges_enabled`]: an environment answer
    /// latches here, a followed one latches range-batch instead.
    pub open spec fn with_coarse_ranges_read(self, env: Env) -> IcbFlags {
        match self.coarse_ranges {
            Some(_) => self,
            None => match crate::ab_flags::decided(env, ENV_ICB_COARSE_RANGES@) {
                Some(b) => IcbFlags { coarse_ranges: Some(b), ..self },
                None => IcbFlags { range_batch: Some(self.range_batch_value(env)), ..self },
            },
        }
    }
}

/// Forces the replay opt-in, over the environment.
pub fn set_decode_icb(f: &mut IcbFlags, on: bool)
    ensures
        *final(f) == (IcbFlags { decode_icb: Some(on), ..*old(f) }),
{
    f.decode_icb = Some(on);
}

/// Opt-in gate for replay. Default: off.
pub fn decode_icb_enabled(f: &mut IcbFlags, env: &Env) -> (r: bool)
    ensures
        r == old(f).decode_icb_value(*env),
        *final(f) == (IcbFlags { decode_icb: Some(r), ..*old(f) }),
{
    read_latch(&mut f.decode_icb, env, &ENV_DECODE_ICB)
}

/// Opt-out of frozen argument tables. Default: on. Read anew each time.
pub fn prebuilt_tables_enabled(env: &Env) -> (r: bool)
    ensures
        r == crate::ab_flags::env_or(*env, ENV_ICB_PREBUILT_TABLES@, true),
{
    match env_truthy(env, &ENV_ICB_PREBUILT_TABLES) {
        Some(b) => b,
        None => true,
    }
}

/// Opt-in to true ICB execution. Default: off. Read anew each time.
pub fn icb_execute_enabled(env: &Env) -> (r: bool)
    ensures
        r == crate::ab_flags::env_or(*env, ENV_ICB_EXECUTE@, false),
{
    match env_truthy(env, &ENV_ICB_EXECUTE) {
        Some(b) => b,
        None => false,
    }
}

/// Opt-in to per-command triage. Default: off. Read anew each time.
pub fn icb_triage_enabled(env: &Env) -> (r: bool)
    ensures
        r == crate::ab_flags::env_or(*env, ENV_ICB_TRIAGE@, false),
{
    match env_truthy(env, &ENV_ICB_TRIAGE) {
        Some(b) => b,
        None => false,
    }
}

/// Forces the freeze-binds opt-in, over the environment.
pub fn set_icb_freeze_binds(f: &mut IcbFlags, on: bool)
    ensures
        *final(f) == (IcbFlags { freeze_binds: Some(on), ..*old(f) }),
{
    f.freeze_binds = Some(on);
}

/// Opt-in: freeze buffer binds into the ICB. Default: off.
pub fn icb_freeze_binds_enabled(f: &mut IcbFlags, env: &Env) -> (r: bool)
    ensures
        r == old(f).freeze_binds_value(*env),
        *final(f) == (IcbFlags { freeze_binds: Some(r), ..*old(f) }),
{
    read_latch(&mut f.freeze_binds, env, &ENV_ICB_FREEZE_BINDS)
}

/// Forces the range-batch opt-in, over the environment.
pub fn set_icb_range_batch(f: &mut IcbFlags, on: bool)
    ensures
        *final(f) == (IcbFlags { range_batch: Some(on), ..*old(f) }),
{
    f.range_batch = Some(on);
}

/// Opt-in: batch safe command ranges between barrier markers. Default: off.
pub fn icb_range_batch_enabled(f: &mut IcbFlags, env: &Env) -> (r: bool)
    ensures
        r == old(f).range_batch_value(*env),
        *final(f) == (IcbFlags { range_batch: Some(r), ..*old(f) }),
{
    read_latch(&mut f.range_batch, env, &ENV_ICB_RANGE_BATCH)
}

/// Forces coarse-range barrier elision, over the environment.
pub fn set_icb_coarse_ranges(f: &mut IcbFlags, on: bool)
    ensures
        *final(f) == (IcbFlags { coarse_ranges: Some(on), ..*old(f) }),
{
    f.coarse_ranges = Some(on);
}

/// Elide non-interfering barrier markers before range-batch. Default: on when
/// range-batch is on.
pub fn icb_coarse_ranges_enabled(f: &mut IcbFlags, env: &Env) -> (r: bool)
    ensures
        r == old(f).coarse_ranges_value(*env),
        *final(f) == old(f).with_coarse_ranges_read(*env),
{
    match f.coarse_ranges {
        Some(b) => b,
        None => match env_truthy(env, &ENV_ICB_COARSE_RANGES) {
            Some(b) => {
                f.coarse_ranges = Some(b);
                b
            },
            None => icb_range_batch_enabled(f, env),
        },
    }
}

/// Forces ICB-capable pipelines, over the environment.
pub fn set_icb_pipelines(f: &mut IcbFlags, on: bool)
    ensures
        *final(f) == (IcbFlags { pipelines: Some(on), ..*old(f) }),
{
    f.pipelines = Some(on);
}

/// Opt-in: build ICB-capable pipelines. Default: off.
pub fn icb_pipelines_enabled(f: &mut IcbFlags, env: &Env) -> (r: bool)
    ensures
        r == old(f).pipelines_value(*env),
        *final(f) == (IcbFlags { pipelines: Some(r), ..*old(f) }),
{
    read_latch(&mut f.pipelines, env, &ENV_ICB_PIPELINES)
}

/// Makes encoding a no-op, or live again.
pub fn set_binder_encode_nop(f: &mut IcbFlags, on: bool)
    ensures
        *final(f) == (IcbFlags { encode_nop: on, ..*old(f) }),
{
    f.encode_nop = on;
}

/// Whether encoding is a no-op.
pub fn binder_encode_nop(f: &IcbFlags) -> (r: bool)
    ensures
        r == f.encode_nop,
{
    f.encode_nop
}

/// Witness that encoding was made a no-op; [`Self::leave`] makes it live again.
pub struct BinderEncodeNopGuard {}

impl BinderEncodeNopGuard {
    /// Makes encoding a no-op.
    pub fn enter(f: &mut IcbFlags) -> (g: BinderEncodeNopGuard)
        ensures
            *final(f) == (IcbFlags { encode_nop: true, ..*old(f) }),
    {
        set_binder_encode_nop(f, true);
        BinderEncodeNopGuard {  }
    }

    /// Makes encoding live again.
    pub fn leave(self, f: &mut IcbFlags)
        ensures
            *final(f) == (IcbFlags { encode_nop: false, ..*old(f) }),
    {
        set_binder_encode_nop(f, false);
    }
}

/// A forced value is what every later read returns, whatever the environment
/// holds.
pub proof fn law_forced_flags_win(f: IcbFlags, env: Env, on: bool)
    ensures
        (IcbFlags { decode_icb: Some(on), ..f }).decode_icb_value(env) == on,
        (IcbFlags { freeze_binds: Some(on), ..f }).freeze_binds_value(env) == on,
        (IcbFlags { range_batch: Some(on), ..f }).range_batch_value(env) == on,
        (IcbFlags { coarse_ranges: Some(on), ..f }).coarse_ranges_value(env) == on,
        (IcbFlags { pipelines: Some(on), ..f }).pipelines_value(env) == on,
{
}

} // verus!
