//! GEMM / encode A/B flags: read from the environment once, then overridable.
//!
//! Names are canonically `TESSL_*`. The legacy `METAL_RUNTIME_*`,
//! `METAL_NATIVE_*` and (for coarse barriers only) `GEMMA_METAL_*` spellings are
//! read after the canonical one. The first name whose value *parses* wins; a
//! name set to anything outside the recognised spellings is skipped, and if no
//! name parses the compiled-in default applies. The recognised spellings are
//! exact and case-sensitive (`1/true/TRUE/yes` and `0/false/FALSE/no`).
//!
//! The environment enters as an [`Env`] value and the latches are fields of an
//! [`AbFlags`] value, so every rule here is a function of plain data.

use vstd::prelude::*;

use crate::text::same_text;

verus! {

/// Names deciding [`gemm_interior_offsets`], canonical first.
pub const ENV_GEMM_INTERIOR: [&'static str; 3] = [
    "TESSL_GEMM_INTERIOR",
    "METAL_RUNTIME_GEMM_INTERIOR",
    "METAL_NATIVE_GEMM_INTERIOR",
];

/// Names deciding [`gemm_accum`], canonical first.
pub const ENV_GEMM_ACCUM: [&'static str; 3] = [
    "TESSL_GEMM_ACCUM",
    "METAL_RUNTIME_GEMM_ACCUM",
    "METAL_NATIVE_GEMM_ACCUM",
];

/// Names deciding [`gemm_accum_dx`], canonical first.
pub const ENV_GEMM_ACCUM_DX: [&'static str; 3] = [
    "TESSL_GEMM_ACCUM_DX",
    "METAL_RUNTIME_GEMM_ACCUM_DX",
    "METAL_NATIVE_GEMM_ACCUM_DX",
];

/// Names deciding [`hazard_barriers`], canonical first.
pub const ENV_HAZARD_BARRIERS: [&'static str; 3] = [
    "TESSL_HAZARD_BARRIERS",
    "METAL_RUNTIME_HAZARD_BARRIERS",
    "METAL_NATIVE_HAZARD_BARRIERS",
];

/// Names deciding [`coarse_barriers`], canonical first.
pub const ENV_COARSE_BARRIERS: [&'static str; 3] = [
    "TESSL_COARSE_BARRIERS",
    "GEMMA_METAL_COARSE_BARRIERS",
    "METAL_RUNTIME_COARSE_BARRIERS",
];

/// One environment variable.
pub struct EnvVar {
    pub name: String,
    pub value: String,
}

/// A snapshot of the process environment.
pub struct Env {
    pub vars: Vec<EnvVar>,
}

/// The value under `name`: that of the first entry so named, from entry `i` on.
pub open spec fn lookup_from(vars: Seq<EnvVar>, name: Seq<char>, i: int) -> Option<Seq<char>>
    decreases vars.len() - i,
{
    if i < 0 || i >= vars.len() {
        None
    } else if vars[i].name@ == name {
        Some(vars[i].value@)
    } else {
        lookup_from(vars, name, i + 1)
    }
}

impl Env {
    /// An environment that sets nothing.
    pub fn empty() -> (e: Env)
        ensures
            e.vars@.len() == 0,
    {
        Env { vars: Vec::new() }
    }

    /// The value under `name`.
    pub open spec fn value_of(&self, name: Seq<char>) -> Option<Seq<char>> {
        lookup_from(self.vars@, name, 0)
    }

    /// The value under `name`.
    pub fn get(&self, name: &str) -> (r: Option<String>)
        ensures
            match r {
                Some(v) => self.value_of(name@) == Some(v@),
                None => self.value_of(name@) is None,
            },
    {
        let mut i: usize = 0;
        while i < self.vars.len()
            invariant
                i <= self.vars@.len(),
                self.value_of(name@) == lookup_from(self.vars@, name@, i as int),
            decreases self.vars@.len() - i,
        {
            if same_text(self.vars[i].name.as_str(), name) {
                return Some(self.vars[i].value.clone());
            }
            i += 1;
        }
        None
    }
}

/// What a flag value says: the recognised spellings decide it, anything else
/// does not.
pub open spec fn truthy(value: Seq<char>) -> Option<bool> {
    if value == "1"@ || value == "true"@ || value == "TRUE"@ || value == "yes"@ {
        Some(true)
    } else if value == "0"@ || value == "false"@ || value == "FALSE"@ || value == "no"@ {
        Some(false)
    } else {
        None
    }
}

/// What an optional flag value says; an unset one says nothing.
pub open spec fn truthy_opt(value: Option<Seq<char>>) -> Option<bool> {
    match value {
        Some(v) => truthy(v),
        None => None,
    }
}

/// The recognised spellings, exact and case-sensitive. `None` means "this value
/// does not decide the flag", for an unset name and for a set-but-unrecognised
/// one such as `Yes` or `2`.
pub fn parse_truthy(value: Option<&str>) -> (r: Option<bool>)
    ensures
        r == match value {
            Some(v) => truthy(v@),
            None => None,
        },
{
    match value {
        None => None,
        Some(v) => {
            if same_text(v, "1") || same_text(v, "true") || same_text(v, "TRUE") || same_text(v, "yes") {
                Some(true)
            } else if same_text(v, "0") || same_text(v, "false") || same_text(v, "FALSE") || same_text(v, "no") {
                Some(false)
            } else {
                None
            }
        },
    }
}

/// What an owned optional value says.
pub open spec fn truthy_string(value: Option<String>) -> Option<bool> {
    match value {
        Some(v) => truthy(v@),
        None => None,
    }
}

/// `answers` are what `lookup` said of the leading `names`, one call each, and
/// the walk stopped where it had to: the last answer is the only one that
/// parses, or every name was asked and none parses.
pub open spec fn walked<F: Fn(&str) -> Option<String>>(
    names: Seq<&str>,
    lookup: F,
    answers: Seq<Option<String>>,
    r: Option<bool>,
) -> bool {
    &&& answers.len() <= names.len()
    &&& forall|i: int| 0 <= i < answers.len() ==> lookup.ensures((names[i],), #[trigger] answers[i])
    &&& forall|i: int| 0 <= i < answers.len() - 1 ==> truthy_string(#[trigger] answers[i]) is None
    &&& match r {
        Some(b) => answers.len() > 0 && truthy_string(answers.last()) == Some(b),
        None => answers.len() == names.len() && (answers.len() > 0 ==> truthy_string(
            answers.last(),
        ) is None),
    }
}

/// Walks `names` in order and takes the first value that parses; `None` if none
/// does, which leaves the compiled-in default in place. A later name is not
/// even looked up once an earlier one has answered.
pub fn resolve<F: Fn(&str) -> Option<String>>(names: &[&str], lookup: F) -> (r: Option<bool>)
    requires
        forall|s: &str| lookup.requires((s,)),
    ensures
        exists|answers: Seq<Option<String>>| walked(names@, lookup, answers, r),
{
    let ghost mut answers: Seq<Option<String>> = Seq::empty();
    let mut i: usize = 0;
    while i < names.len()
        invariant
            i <= names@.len(),
            forall|s: &str| lookup.requires((s,)),
            answers.len() == i,
            forall|k: int| 0 <= k < i ==> lookup.ensures((names@[k],), #[trigger] answers[k]),
            forall|k: int| 0 <= k < i ==> truthy_string(#[trigger] answers[k]) is None,
        decreases names@.len() - i,
    {
        let value = lookup(names[i]);
        let ghost before = answers;
        proof {
            answers = answers.push(value);
        }
        let decided = match &value {
            Some(v) => parse_truthy(Some(v.as_str())),
            None => None,
        };
        assert forall|k: int| 0 <= k < i + 1 implies lookup.ensures((names@[k],), #[trigger] answers[k]) by {
            if k < i {
                assert(answers[k] == before[k]);
            }
        }
        if decided.is_some() {
            assert forall|k: int| 0 <= k < answers.len() - 1 implies truthy_string(#[trigger] answers[k]) is None by {
                assert(answers[k] == before[k]);
            }
            assert(walked(names@, lookup, answers, decided));
            return decided;
        }
        assert forall|k: int| 0 <= k < i + 1 implies truthy_string(#[trigger] answers[k]) is None by {
            if k < i {
                assert(answers[k] == before[k]);
            }
        }
        i += 1;
    }
    assert(walked(names@, lookup, answers, None));
    None
}

/// The first parsing value of `names` from name `i` on.
pub open spec fn decided_from(env: Env, names: Seq<&str>, i: int) -> Option<bool>
    decreases names.len() - i,
{
    if i < 0 || i >= names.len() {
        None
    } else {
        match truthy_opt(env.value_of(names[i]@)) {
            Some(b) => Some(b),
            None => decided_from(env, names, i + 1),
        }
    }
}

/// The first parsing value of `names`.
pub open spec fn decided(env: Env, names: Seq<&str>) -> Option<bool> {
    decided_from(env, names, 0)
}

/// The first name whose value parses decides, whatever the names after it hold.
pub proof fn law_first_parsing_name_wins(env: Env, names: Seq<&str>, k: int)
    requires
        0 <= k < names.len(),
        forall|j: int| 0 <= j < k ==> truthy_opt(env.value_of(#[trigger] names[j]@)) is None,
        truthy_opt(env.value_of(names[k]@)) is Some,
    ensures
        decided(env, names) == truthy_opt(env.value_of(names[k]@)),
{
    lemma_skip(env, names, k);
}

proof fn lemma_skip(env: Env, names: Seq<&str>, k: int)
    requires
        0 <= k <= names.len(),
        forall|j: int| 0 <= j < k ==> truthy_opt(env.value_of(#[trigger] names[j]@)) is None,
    ensures
        decided(env, names) == decided_from(env, names, k),
    decreases k,
{
    if k > 0 {
        lemma_skip(env, names, k - 1);
        assert(truthy_opt(env.value_of(names[k - 1]@)) is None);
    }
}

/// [`resolve`] against an environment snapshot.
pub fn env_truthy(env: &Env, names: &[&str]) -> (r: Option<bool>)
    ensures
        r == decided(*env, names@),
{
    let lookup = |name: &str| -> (v: Option<String>)
        ensures
            match v {
                Some(s) => env.value_of(name@) == Some(s@),
                None => env.value_of(name@) is None,
            },
    { env.get(name) };
    let r = resolve(names, lookup);
    proof {
        let answers = choose|answers: Seq<Option<String>>| walked(names@, lookup, answers, r);
        let n = answers.len() as int;
        assert forall|j: int| 0 <= j < n implies truthy_opt(env.value_of(#[trigger] names@[j]@))
            == truthy_string(answers[j]) by {
            assert(lookup.ensures((names@[j],), answers[j]));
        }
        let k = if r is Some { n - 1 } else { n };
        assert forall|j: int| 0 <= j < k implies truthy_opt(env.value_of(#[trigger] names@[j]@)) is None by {
            assert(truthy_string(answers[j]) is None);
        }
        lemma_skip(*env, names@, k);
    }
    r
}

/// The latches, with the environment they are read from.
pub struct AbFlags {
    pub env: Env,
    /// GEMM flags (interior, accum, accum-dX) once read.
    pub gemm: Option<(bool, bool, bool)>,
    /// Skip-auto-barrier mode once set or read.
    pub hazard: Option<bool>,
    /// Phase-coarsened barriers once read.
    pub coarse: Option<bool>,
}

/// A flag's value when nothing is latched: the first parsing name, else `default`.
pub open spec fn env_or(env: Env, names: Seq<&str>, default: bool) -> bool {
    match decided(env, names) {
        Some(b) => b,
        None => default,
    }
}

fn env_flag(env: &Env, names: &[&str], default: bool) -> (r: bool)
    ensures
        r == env_or(*env, names@, default),
{
    match env_truthy(env, names) {
        Some(b) => b,
        None => default,
    }
}

impl AbFlags {
    /// Nothing latched yet.
    pub fn new(env: Env) -> (f: AbFlags)
        ensures
            f.env == env,
            f.gemm is None,
            f.hazard is None,
            f.coarse is None,
    {
        AbFlags { env, gemm: None, hazard: None, coarse: None }
    }

    /// The three GEMM flags, latched or as the environment has them.
    pub open spec fn gemm_value(&self) -> (bool, bool, bool) {
        match self.gemm {
            Some(t) => t,
            None => (
                env_or(self.env, ENV_GEMM_INTERIOR@, false),
                env_or(self.env, ENV_GEMM_ACCUM@, false),
                env_or(self.env, ENV_GEMM_ACCUM_DX@, false),
            ),
        }
    }

    /// Hazard mode, latched or as the environment has it.
    pub open spec fn hazard_value(&self) -> bool {
        match self.hazard {
            Some(b) => b,
            None => env_or(self.env, ENV_HAZARD_BARRIERS@, false),
        }
    }

    /// Coarse mode, latched or as the environment has it; with no name set it
    /// inherits hazard mode.
    pub open spec fn coarse_value(&self) -> bool {
        match self.coarse {
            Some(b) => b,
            None => env_or(self.env, ENV_COARSE_BARRIERS@, self.hazard_value()),
        }
    }

    /// These flags after hazard mode was read.
    pub open spec fn with_hazard_read(self) -> AbFlags {
        AbFlags { hazard: Some(self.hazard_value()), ..self }
    }

    /// These flags after coarse mode was read.
    pub open spec fn with_coarse_read(self) -> AbFlags {
        match self.coarse {
            Some(_) => self,
            None => AbFlags {
                hazard: Some(self.hazard_value()),
                coarse: Some(self.coarse_value()),
                ..self
            },
        }
    }
}

fn flags(f: &mut AbFlags) -> (r: (bool, bool, bool))
    ensures
        r == old(f).gemm_value(),
        *final(f) == (AbFlags { gemm: Some(old(f).gemm_value()), ..*old(f) }),
{
    match f.gemm {
        Some(t) => t,
        None => {
            let interior = env_flag(&f.env, &ENV_GEMM_INTERIOR, false);
            let accum = env_flag(&f.env, &ENV_GEMM_ACCUM, false);
            let accum_dx = env_flag(&f.env, &ENV_GEMM_ACCUM_DX, false);
            f.gemm = Some((interior, accum, accum_dx));
            (interior, accum, accum_dx)
        },
    }
}

/// Forces the always-on device barrier off (`skip_auto`) or on. With it off,
/// explicit barriers are owed at every read-after-write edge.
pub fn set_hazard_barriers(f: &mut AbFlags, skip_auto: bool)
    ensures
        *final(f) == (AbFlags { hazard: Some(skip_auto), ..*old(f) }),
{
    f.hazard = Some(skip_auto);
}

/// True once [`set_hazard_barriers`] was called or [`hazard_barriers`] has read
/// the environment.
pub fn hazard_barriers_explicitly_set(f: &AbFlags) -> (r: bool)
    ensures
        r == (f.hazard is Some),
{
    f.hazard.is_some()
}

/// Use interior offset tile extents in f32 GEMM. Default: false.
pub fn gemm_interior_offsets(f: &mut AbFlags) -> (r: bool)
    ensures
        r == old(f).gemm_value().0,
        *final(f) == (AbFlags { gemm: Some(old(f).gemm_value()), ..*old(f) }),
{
    flags(f).0
}

/// Skip the always-on barrier after every dispatch. Default: false. The value
/// latches on first read.
pub fn hazard_barriers(f: &mut AbFlags) -> (r: bool)
    ensures
        r == old(f).hazard_value(),
        *final(f) == old(f).with_hazard_read(),
{
    match f.hazard {
        Some(b) => b,
        None => {
            let b = env_flag(&f.env, &ENV_HAZARD_BARRIERS, false);
            f.hazard = Some(b);
            b
        },
    }
}

/// Use `multiply_accumulate` for accumulate GEMMs. Default: false.
pub fn gemm_accum(f: &mut AbFlags) -> (r: bool)
    ensures
        r == old(f).gemm_value().1,
        *final(f) == (AbFlags { gemm: Some(old(f).gemm_value()), ..*old(f) }),
{
    flags(f).1
}

/// Accumulate mode for the dX path only.
pub fn gemm_accum_dx(f: &mut AbFlags) -> (r: bool)
    ensures
        r == old(f).gemm_value().2,
        *final(f) == (AbFlags { gemm: Some(old(f).gemm_value()), ..*old(f) }),
{
    flags(f).2
}

/// Default when no coarse name parses: inherit hazard mode.
pub fn coarse_default(from_env: Option<bool>, hazard: bool) -> (r: bool)
    ensures
        r == match from_env {
            Some(b) => b,
            None => hazard,
        },
{
    match from_env {
        Some(b) => b,
        None => hazard,
    }
}

/// Coarsen decode barriers to phase edges. Default: on when [`hazard_barriers`]
/// is. The value latches on first read.
pub fn coarse_barriers(f: &mut AbFlags) -> (r: bool)
    ensures
        r == old(f).coarse_value(),
        *final(f) == old(f).with_coarse_read(),
{
    match f.coarse {
        Some(b) => b,
        None => {
            let from_env = env_truthy(&f.env, &ENV_COARSE_BARRIERS);
            let hazard = hazard_barriers(f);
            let on = coarse_default(from_env, hazard);
            f.coarse = Some(on);
            on
        },
    }
}

/// Whether an explicit barrier is owed: never without hazard mode, at phase
/// edges in coarse mode, always in fine mode. `coarse` is consulted only in
/// hazard mode.
pub fn need_barrier_from<F: FnOnce() -> bool>(hazard: bool, coarse: F, phase_edge: bool) -> (r: bool)
    requires
        hazard ==> coarse.requires(()),
    ensures
        !hazard ==> !r,
        hazard ==> exists|c: bool| #[trigger] coarse.ensures((), c) && r == (!c || phase_edge),
{
    if !hazard {
        return false;
    }
    let c = coarse();
    if c {
        phase_edge
    } else {
        true
    }
}

/// Explicit barrier needed for an edge. In fine mode: always when hazard. In
/// coarse mode: only at a phase edge. Coarse mode is not read, and so not
/// latched, while hazard mode is off.
pub fn need_barrier(f: &mut AbFlags, phase_edge: bool) -> (r: bool)
    ensures
        r == (old(f).hazard_value() && (!old(f).coarse_value() || phase_edge)),
        *final(f) == if old(f).hazard_value() {
            old(f).with_hazard_read().with_coarse_read()
        } else {
            old(f).with_hazard_read()
        },
{
    let hazard = hazard_barriers(f);
    if hazard {
        let c = coarse_barriers(f);
        let read = || -> (r: bool)
            ensures
                r == c,
        { c };
        need_barrier_from(hazard, read, phase_edge)
    } else {
        let unread = || -> (r: bool) { false };
        need_barrier_from(hazard, unread, phase_edge)
    }
}

/// Reading a latch leaves its value what it was: hazard mode, coarse mode and
/// the GEMM flags are stable from their first read on.
pub proof fn law_latches_are_stable(f: AbFlags)
    ensures
        f.with_hazard_read().hazard_value() == f.hazard_value(),
        f.with_hazard_read().with_hazard_read() == f.with_hazard_read(),
        f.with_coarse_read().coarse_value() == f.coarse_value(),
        f.with_coarse_read().with_coarse_read() == f.with_coarse_read(),
        (AbFlags { gemm: Some(f.gemm_value()), ..f }).gemm_value() == f.gemm_value(),
{
}

/// Every flag's list leads with its `TESSL_*` name, so that name, when it
/// parses, decides the flag whatever the legacy names say.
pub proof fn law_canonical_name_wins(env: Env)
    ensures
        truthy_opt(env.value_of("TESSL_GEMM_INTERIOR"@)) is Some ==> decided(env, ENV_GEMM_INTERIOR@)
            == truthy_opt(env.value_of("TESSL_GEMM_INTERIOR"@)),
        truthy_opt(env.value_of("TESSL_GEMM_ACCUM"@)) is Some ==> decided(env, ENV_GEMM_ACCUM@)
            == truthy_opt(env.value_of("TESSL_GEMM_ACCUM"@)),
        truthy_opt(env.value_of("TESSL_GEMM_ACCUM_DX"@)) is Some ==> decided(env, ENV_GEMM_ACCUM_DX@)
            == truthy_opt(env.value_of("TESSL_GEMM_ACCUM_DX"@)),
        truthy_opt(env.value_of("TESSL_HAZARD_BARRIERS"@)) is Some ==> decided(
            env,
            ENV_HAZARD_BARRIERS@,
        ) == truthy_opt(env.value_of("TESSL_HAZARD_BARRIERS"@)),
        truthy_opt(env.value_of("TESSL_COARSE_BARRIERS"@)) is Some ==> decided(
            env,
            ENV_COARSE_BARRIERS@,
        ) == truthy_opt(env.value_of("TESSL_COARSE_BARRIERS"@)),
{
}

} // verus!
