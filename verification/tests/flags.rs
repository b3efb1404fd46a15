//! Environment flags: spellings, precedence, latching and the barrier rule.

use std::cell::Cell;

use tessl::ab_flags::{
    coarse_barriers, coarse_default, env_truthy, gemm_accum, gemm_accum_dx, gemm_interior_offsets,
    hazard_barriers, hazard_barriers_explicitly_set, need_barrier, need_barrier_from, parse_truthy,
    resolve, set_hazard_barriers, AbFlags, Env, EnvVar, ENV_COARSE_BARRIERS, ENV_GEMM_ACCUM,
    ENV_GEMM_ACCUM_DX, ENV_GEMM_INTERIOR, ENV_HAZARD_BARRIERS,
};
use tessl::icb_flags::{
    binder_encode_nop, decode_icb_enabled, icb_coarse_ranges_enabled, icb_execute_enabled,
    icb_freeze_binds_enabled, icb_pipelines_enabled, icb_range_batch_enabled, set_decode_icb,
    set_icb_coarse_ranges, set_icb_freeze_binds, set_icb_range_batch, BinderEncodeNopGuard,
    IcbFlags,
};

fn table<'a>(
    entries: &'a [(&'a str, &'a str)],
    seen: &'a Cell<usize>,
) -> impl Fn(&str) -> Option<String> + 'a {
    move |name| {
        seen.set(seen.get() + 1);
        entries
            .iter()
            .find(|(k, _)| *k == name)
            .map(|(_, v)| (*v).to_string())
    }
}

fn env(vars: &[(&str, &str)]) -> Env {
    Env {
        vars: vars
            .iter()
            .map(|(n, v)| EnvVar {
                name: n.to_string(),
                value: v.to_string(),
            })
            .collect(),
    }
}

#[test]
fn parse_truthy_accepts_only_the_documented_spellings() {
    let cases: &[(Option<&str>, Option<bool>)] = &[
        (Some("1"), Some(true)),
        (Some("true"), Some(true)),
        (Some("TRUE"), Some(true)),
        (Some("yes"), Some(true)),
        (Some("0"), Some(false)),
        (Some("false"), Some(false)),
        (Some("FALSE"), Some(false)),
        (Some("no"), Some(false)),
        (Some("True"), None),
        (Some("Yes"), None),
        (Some("YES"), None),
        (Some("NO"), None),
        (Some("2"), None),
        (Some("on"), None),
        (Some(""), None),
        (None, None),
    ];
    for (value, expected) in cases {
        assert_eq!(parse_truthy(*value), *expected, "parse_truthy({value:?})");
    }
}

#[test]
fn resolve_takes_the_first_name_that_parses() {
    const NAMES: &[&str] = &["FIRST", "SECOND", "THIRD"];
    type Case<'a> = (&'a [(&'a str, &'a str)], Option<bool>);
    let cases: &[Case] = &[
        (&[("FIRST", "0"), ("SECOND", "1")], Some(false)),
        (&[("FIRST", "1"), ("SECOND", "0")], Some(true)),
        (&[("SECOND", "1")], Some(true)),
        (&[("THIRD", "0")], Some(false)),
        (&[("FIRST", "junk"), ("SECOND", "0")], Some(false)),
        (&[("FIRST", "junk"), ("THIRD", "1")], Some(true)),
        (&[("FIRST", "junk")], None),
        (&[("FIRST", "junk"), ("SECOND", "Yes")], None),
        (&[], None),
    ];
    for (entries, expected) in cases {
        let seen = Cell::new(0);
        assert_eq!(
            resolve(NAMES, table(entries, &seen)),
            *expected,
            "resolve over {entries:?}"
        );
    }
}

#[test]
fn resolve_stops_at_the_first_parsing_name() {
    const NAMES: &[&str] = &["FIRST", "SECOND", "THIRD"];
    let seen = Cell::new(0);
    assert_eq!(resolve(NAMES, table(&[("FIRST", "1")], &seen)), Some(true));
    assert_eq!(seen.get(), 1, "later names must not be looked up");

    let seen = Cell::new(0);
    assert_eq!(
        resolve(NAMES, table(&[("SECOND", "0")], &seen)),
        Some(false)
    );
    assert_eq!(seen.get(), 2, "must stop once SECOND answers");

    let seen = Cell::new(0);
    assert_eq!(resolve(NAMES, table(&[], &seen)), None);
    assert_eq!(seen.get(), 3, "with no answer every name must be tried");
}

#[test]
fn every_flag_reads_its_canonical_tessl_name_first() {
    let lists: &[(&str, &[&str])] = &[
        ("gemm_interior", &ENV_GEMM_INTERIOR),
        ("gemm_accum", &ENV_GEMM_ACCUM),
        ("gemm_accum_dx", &ENV_GEMM_ACCUM_DX),
        ("hazard_barriers", &ENV_HAZARD_BARRIERS),
        ("coarse_barriers", &ENV_COARSE_BARRIERS),
    ];
    for (flag, names) in lists {
        assert!(!names.is_empty(), "{flag} has no env names");
        assert!(
            names[0].starts_with("TESSL_"),
            "{flag} reads {} before its canonical TESSL_* name",
            names[0]
        );
        for (i, name) in names.iter().enumerate() {
            assert!(
                !names[i + 1..].contains(name),
                "{flag} lists {name} twice; the duplicate can never win"
            );
            assert!(
                i == 0 || !name.starts_with("TESSL_"),
                "{flag} has a second canonical name {name}; only slot 0 is canonical"
            );
        }
    }
}

#[test]
fn coarse_default_inherits_hazard_and_yields_to_an_explicit_value() {
    assert!(
        coarse_default(None, true),
        "hazard on must coarsen by default"
    );
    assert!(
        !coarse_default(None, false),
        "with always-on barriers there is nothing to coarsen"
    );
    assert!(!coarse_default(Some(false), true), "explicit 0 must disarm");
    assert!(coarse_default(Some(true), false), "explicit 1 must arm");
}

#[test]
fn need_barrier_truth_table() {
    for phase_edge in [false, true] {
        assert!(
            !need_barrier_from(false, || true, phase_edge),
            "hazard off: the always-on barrier already covers this edge"
        );
        assert!(
            !need_barrier_from(false, || false, phase_edge),
            "hazard off: the always-on barrier already covers this edge"
        );
        assert!(
            need_barrier_from(true, || false, phase_edge),
            "hazard + fine grained: every RAW edge needs an explicit barrier"
        );
        assert_eq!(
            need_barrier_from(true, || true, phase_edge),
            phase_edge,
            "hazard + coarse: only major producer->consumer edges"
        );
    }
}

#[test]
fn need_barrier_does_not_read_coarse_when_hazard_is_off() {
    let read = Cell::new(false);
    let probe = || {
        read.set(true);
        true
    };
    assert!(!need_barrier_from(false, probe, true));
    assert!(
        !read.get(),
        "need_barrier latched COARSE_BARRIERS while hazard mode was off"
    );

    let read_on = Cell::new(false);
    let probe_on = || {
        read_on.set(true);
        true
    };
    assert!(need_barrier_from(true, probe_on, true));
    assert!(read_on.get(), "hazard on must consult the coarse flag");
}

#[test]
fn hazard_barriers_latches_once_and_reports_itself_set() {
    for vars in [
        env(&[]),
        env(&[("TESSL_HAZARD_BARRIERS", "1")]),
        env(&[("METAL_NATIVE_HAZARD_BARRIERS", "yes")]),
    ] {
        let expected = env_truthy(&vars, &ENV_HAZARD_BARRIERS).unwrap_or(false);
        let mut f = AbFlags::new(vars);
        let first = hazard_barriers(&mut f);
        assert_eq!(
            first, expected,
            "hazard_barriers disagrees with its own env name list"
        );
        assert!(
            hazard_barriers_explicitly_set(&f),
            "reading the flag must latch it; GPU init keys off this"
        );
        assert_eq!(hazard_barriers(&mut f), first, "latched value must be stable");
    }
}

#[test]
fn coarse_barriers_live_path_matches_its_pure_default() {
    for vars in [
        &[][..],
        &[("TESSL_HAZARD_BARRIERS", "1")][..],
        &[("TESSL_HAZARD_BARRIERS", "1"), ("TESSL_COARSE_BARRIERS", "0")][..],
        &[("GEMMA_METAL_COARSE_BARRIERS", "1")][..],
    ] {
        let mut f = AbFlags::new(env(vars));
        let hazard = hazard_barriers(&mut f);
        let expected = coarse_default(env_truthy(&env(vars), &ENV_COARSE_BARRIERS), hazard);
        let first = coarse_barriers(&mut f);
        assert_eq!(
            first, expected,
            "live coarse_barriers diverged from coarse_default"
        );
        assert_eq!(coarse_barriers(&mut f), first, "latched value must be stable");
        assert_eq!(
            need_barrier(&mut f, true),
            hazard,
            "phase edge: hazard mode decides, in both coarse and fine mode"
        );
        assert_eq!(
            need_barrier(&mut f, false),
            hazard && !first,
            "non-phase edge: only fine-grained hazard mode needs a barrier"
        );
    }
}

#[test]
fn canonical_name_wins_over_a_legacy_one() {
    let vars = [
        ("METAL_RUNTIME_GEMM_ACCUM", "1"),
        ("TESSL_GEMM_ACCUM", "0"),
        ("METAL_NATIVE_GEMM_INTERIOR", "TRUE"),
    ];
    let mut f = AbFlags::new(env(&vars));
    assert!(!gemm_accum(&mut f));
    assert!(gemm_interior_offsets(&mut f));
    assert!(!gemm_accum_dx(&mut f));
}

#[test]
fn need_barrier_leaves_coarse_unlatched_without_hazard() {
    let mut f = AbFlags::new(env(&[]));
    assert!(!need_barrier(&mut f, true));
    assert!(f.coarse.is_none());
    set_hazard_barriers(&mut f, true);
    assert!(need_barrier(&mut f, true));
    assert_eq!(f.coarse, Some(true));
    assert!(!need_barrier(&mut f, false));
}

#[test]
fn decode_icb_flag_default_off() {
    let vars = env(&[]);
    let mut f = IcbFlags::new();
    assert!(!decode_icb_enabled(&mut f, &vars));
    set_decode_icb(&mut f, false);
    assert!(!decode_icb_enabled(&mut f, &vars));
    set_decode_icb(&mut f, true);
    assert!(decode_icb_enabled(&mut f, &vars));
    set_decode_icb(&mut f, false);
    assert!(!decode_icb_enabled(&mut f, &vars));
}

#[test]
fn forced_icb_flags_win_over_the_environment() {
    let vars = env(&[]);
    let mut f = IcbFlags::new();
    set_icb_freeze_binds(&mut f, true);
    set_icb_range_batch(&mut f, true);
    set_icb_coarse_ranges(&mut f, true);
    assert!(icb_freeze_binds_enabled(&mut f, &vars));
    assert!(icb_range_batch_enabled(&mut f, &vars));
    assert!(icb_coarse_ranges_enabled(&mut f, &vars));
    set_icb_freeze_binds(&mut f, false);
    assert!(!icb_freeze_binds_enabled(&mut f, &vars));
    let _ = icb_pipelines_enabled(&mut f, &vars);
    let _ = icb_execute_enabled(&vars);
}

#[test]
fn leaving_a_nop_guard_switches_encoding_back_on() {
    let mut f = IcbFlags::new();
    assert!(!binder_encode_nop(&f));
    let g = BinderEncodeNopGuard::enter(&mut f);
    assert!(binder_encode_nop(&f));
    g.leave(&mut f);
    assert!(!binder_encode_nop(&f));
}
