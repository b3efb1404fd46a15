//! The ping-pong ledger of recorded command buffers, without a device.

use tessl::ab_flags::{AbFlags, Env};
use tessl::device::DeviceInfo;
use tessl::icb_flags::IcbFlags;
use tessl::infer_trace::InferTrace;
use tessl::{
    cb_replay_api_gap_summary, survey_cb_replay_api_gaps, ArgTableSlotPlan, CbReplayApiGap,
    CbReplayError, CbReplayPhase, CbSlot, GpuRuntime, IcbReplayStub, IcbStubPhase,
    PingPongCbReplay,
};

fn bare_runtime() -> GpuRuntime {
    GpuRuntime::new(
        1,
        DeviceInfo {
            max_buffer_length: 1 << 30,
            max_threadgroup_memory: 32768,
            arena_address: 0x1_0000_0000,
            recommended_working_set: 1 << 34,
            memory_size: 1 << 35,
            counter_heap: false,
        },
        Vec::new(),
        0,
        AbFlags::new(Env { vars: Vec::new() }),
        IcbFlags::new(),
        InferTrace::new(),
    )
}

#[test]
fn ping_pong_record_ready_dry_replay() {
    let mut pp = PingPongCbReplay::new().with_dry_run(true);
    pp.begin_record(CbSlot::A, "mini_graph").unwrap();
    assert_eq!(pp.slot(CbSlot::A).phase, CbReplayPhase::Recording);
    pp.finish_record(CbSlot::A).unwrap();
    assert_eq!(pp.slot(CbSlot::A).phase, CbReplayPhase::Ready);
    pp.try_replay(CbSlot::A).unwrap();
    assert_eq!(pp.slot(CbSlot::A).phase, CbReplayPhase::InFlight);
    pp.on_gpu_complete(CbSlot::A);
    assert_eq!(pp.slot(CbSlot::A).phase, CbReplayPhase::Idle);
}

#[test]
fn try_replay_not_wired_by_default() {
    let mut pp = PingPongCbReplay::new();
    pp.begin_record(CbSlot::B, "x").unwrap();
    pp.finish_record(CbSlot::B).unwrap();
    assert_eq!(pp.try_replay(CbSlot::B), Err(CbReplayError::NotWired));
    assert_eq!(pp.not_wired_hits(), 1);
    assert_eq!(pp.icb_stub().execute_attempts, 1);
}

#[test]
fn mark_live_step_advances_ping_pong() {
    let mut pp = PingPongCbReplay::new();
    assert_eq!(pp.active_slot(), CbSlot::A);
    pp.mark_live_step("step0").unwrap();
    assert_eq!(pp.live_encodes(), 1);
    assert_eq!(pp.active_slot(), CbSlot::B);
    assert_eq!(pp.slot(CbSlot::A).phase, CbReplayPhase::Ready);
    assert_eq!(pp.icb_stub().phase, IcbStubPhase::Planned);
    pp.mark_live_step("step1").unwrap();
    assert_eq!(pp.live_encodes(), 2);
    assert_eq!(pp.active_slot(), CbSlot::A);
    // Nothing is attached and nothing is dry: there is still no replay.
    assert_eq!(pp.try_replay(CbSlot::B), Err(CbReplayError::NotWired));
}

#[test]
fn api_gap_survey_names_mtl4_and_icb() {
    let gaps = survey_cb_replay_api_gaps();
    assert!(gaps.contains(&CbReplayApiGap::Mtl4CbHasNoReplayApi));
    assert!(gaps.contains(&CbReplayApiGap::IcbDecodeGraphNotMigrated));
    assert!(gaps.contains(&CbReplayApiGap::IcbClassicBindsVsMtl4ArgumentTable));
    let summary = cb_replay_api_gap_summary();
    assert!(summary.contains("MTL4CommandBuffer"));
    assert!(summary.contains("inheritBuffers") || summary.contains("arg-table"));
    assert!(summary.contains("DecodeIcb") || summary.contains("execute_icb"));
    assert!(!summary.contains('\n'));
    assert!(summary.starts_with(CbReplayApiGap::Mtl4CbHasNoReplayApi.as_str()));
}

#[test]
fn icb_stub_allocate_stays_not_wired() {
    let mut stub = IcbReplayStub::new();
    assert_eq!(stub.try_allocate(), Err(CbReplayError::NotWired));
    assert_eq!(stub.phase, IcbStubPhase::Planned);
    assert_eq!(stub.allocate_attempts, 1);
    assert_eq!(stub.plan.stable_count(), 5);
    assert!(stub.plan.ephemeral_count() >= 1);
}

#[test]
fn try_replay_ready_not_wired_after_live() {
    let mut pp = PingPongCbReplay::new();
    assert_eq!(pp.try_replay_ready(), Err(CbReplayError::NotReady));
    pp.mark_live_step("s0").unwrap();
    assert_eq!(pp.try_replay_ready(), Err(CbReplayError::NotWired));
    assert!(pp.not_wired_hits() >= 1);
}

#[test]
fn slots_pair_up() {
    assert_eq!(CbSlot::A.peer(), CbSlot::B);
    assert_eq!(CbSlot::B.peer(), CbSlot::A);
    assert_eq!(CbSlot::A.peer().peer(), CbSlot::A);
    assert_eq!((CbSlot::A.index(), CbSlot::B.index()), (0, 1));
    let mut pp = PingPongCbReplay::new();
    pp.flip_active();
    assert_eq!(pp.active_slot(), CbSlot::B);
    pp.flip_active();
    assert_eq!(pp.active_slot(), CbSlot::A);
}

#[test]
fn recording_is_refused_out_of_turn() {
    let mut pp = PingPongCbReplay::new().with_dry_run(true);
    assert_eq!(pp.finish_record(CbSlot::A), Err(CbReplayError::NotRecording));
    assert_eq!(pp.try_replay(CbSlot::A), Err(CbReplayError::NotReady));
    pp.begin_record(CbSlot::A, "first").unwrap();
    assert_eq!(
        pp.begin_record(CbSlot::A, "second"),
        Err(CbReplayError::AlreadyRecording)
    );
    assert_eq!(pp.slot(CbSlot::A).label, "first");
    pp.finish_record(CbSlot::A).unwrap();
    assert!(pp.has_ready_slot());
    pp.try_replay(CbSlot::A).unwrap();
    assert!(!pp.has_ready_slot());
    assert_eq!(
        pp.begin_record(CbSlot::A, "third"),
        Err(CbReplayError::InFlight)
    );
    assert_eq!(pp.slot(CbSlot::A).phase, CbReplayPhase::InFlight);
    // The other slot is free meanwhile, and its recording has a later number.
    let first = pp.slot(CbSlot::A).generation;
    pp.begin_record(CbSlot::B, "other").unwrap();
    assert_eq!(pp.slot(CbSlot::B).generation, first + 1);
    assert_eq!(pp.slot(CbSlot::A).phase, CbReplayPhase::InFlight);
}

#[test]
fn generations_only_grow() {
    let mut pp = PingPongCbReplay::new().with_dry_run(true);
    let mut latest = 0;
    for round in 0..6 {
        let slot = if round % 3 == 0 { CbSlot::B } else { CbSlot::A };
        pp.begin_record(slot, "x").unwrap();
        let given = pp.slot(slot).generation;
        assert!(given > latest, "{given} after {latest}");
        assert!(pp.slot(slot.peer()).generation < given);
        latest = given;
        if round % 2 == 0 {
            pp.finish_record(slot).unwrap();
            pp.try_replay(slot).unwrap();
        }
        pp.on_gpu_complete(slot);
    }
}

#[test]
fn completion_frees_the_slot() {
    let mut pp = PingPongCbReplay::new();
    pp.begin_record(CbSlot::A, "x").unwrap();
    pp.on_gpu_complete(CbSlot::A);
    assert_eq!(pp.slot(CbSlot::A).phase, CbReplayPhase::Idle);
    assert_eq!(pp.slot(CbSlot::B).phase, CbReplayPhase::Idle);
    assert_eq!(pp.finish_record(CbSlot::A), Err(CbReplayError::NotRecording));
}

#[test]
fn replay_without_a_graph_changes_no_slot() {
    let mut rt = bare_runtime();
    let mut pp = PingPongCbReplay::new();
    pp.mark_live_step("s0").unwrap();
    assert_eq!(
        pp.try_replay_icb(CbSlot::A, &mut rt),
        Err(CbReplayError::NotWired)
    );
    assert_eq!(pp.slot(CbSlot::A).phase, CbReplayPhase::Ready);
    assert_eq!(pp.icb_replays(), 0);
    assert!(!pp.decode_icb_wired());
    assert!(pp.execute_decode_icb(&mut rt).is_err());
    assert_eq!(
        pp.try_replay_icb(CbSlot::B, &mut rt),
        Err(CbReplayError::NotReady)
    );
}

#[test]
fn error_messages_read_as_documented() {
    assert_eq!(
        CbReplayError::AlreadyRecording.message(),
        "CB slot already recording"
    );
    assert_eq!(CbReplayError::NotRecording.message(), "CB slot not recording");
    assert_eq!(
        CbReplayError::NotReady.message(),
        "CB slot not Ready for replay"
    );
    assert_eq!(CbReplayError::InFlight.message(), "CB slot still in flight");
    assert!(CbReplayError::NotWired
        .message()
        .starts_with("encode-once replay not wired: "));
    assert_eq!(
        CbReplayError::IcbExecuteFailed("boom".to_string()).message(),
        "decode ICB execute failed: boom"
    );
}

#[test]
fn stub_phases_advance_and_report() {
    let mut stub = IcbReplayStub::new();
    assert_eq!(stub.phase, IcbStubPhase::Idle);
    stub.mark_planned();
    assert_eq!(stub.phase, IcbStubPhase::Planned);
    stub.mark_smoke_proven();
    assert_eq!(stub.phase, IcbStubPhase::SmokeProven);
    assert!(stub.smoke_proven);
    assert_eq!(stub.try_execute(), Err(CbReplayError::NotWired));
    assert_eq!(stub.execute_attempts, 1);
    stub.mark_mini_execute_ok();
    assert_eq!(stub.phase, IcbStubPhase::Allocated);
    assert_eq!(
        stub.status_line(),
        "icb_stub phase=Allocated cmds=64 stable=5/6 alloc_attempts=0 exec_attempts=2 \
         smoke_proven=true decode_mini_wired=true"
    );
}

#[test]
fn mini_plan_counts_its_slots() {
    let plan = ArgTableSlotPlan::encode_once_v0_mini();
    assert_eq!(
        plan.stable_count() + plan.ephemeral_count(),
        plan.slots.len()
    );
    assert_eq!(plan.stable_count(), 5);
}

#[test]
fn ledger_status_names_both_slots() {
    let mut pp = PingPongCbReplay::new();
    pp.mark_live_step("s0").unwrap();
    let line = pp.status_line();
    assert!(line.starts_with("cb_replay active="), "{line}");
    assert!(line.contains(" live_encodes=1"), "{line}");
    assert!(line.contains(" not_wired=0"), "{line}");
    assert!(line.contains(" icb_replays=0"), "{line}");
}
