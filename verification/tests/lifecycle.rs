//! The life of a runtime: storage, command buffers, scopes, counters, and
//! recording.

use tessl::ab_flags::{AbFlags, Env, EnvVar};
use tessl::decode_icb::{
    begin_decode_icb_capture, decode_icb_capture_active, take_decode_icb_capture,
};
use tessl::device::{mtl_size, DeviceInfo, DeviceOp, Kernel};
use tessl::dispatch::{dispatch_1d, set_gpu_buf, set_u32, validate_dispatch_geometry};
use tessl::icb_flags::{BinderEncodeNopGuard, IcbFlags};
use tessl::infer_trace::{set_enabled, snapshot, InferTrace};
use tessl::pool::{BufferPool, Grant};
use tessl::runtime::{mid_commit_threshold, GpuRuntime};
use tessl::sizes::{checked_product, div_ceil, next_pow2_within, prev_pow2};
use tessl::tensor::{BufferKind, Slab};
use tessl::{set_icb_range_batch, DecodeIcb, DecodeIcbBind, DecodeIcbCommand, Storage};

fn env(vars: &[(&str, &str)]) -> Env {
    Env {
        vars: vars
            .iter()
            .map(|(n, v)| EnvVar { name: n.to_string(), value: v.to_string() })
            .collect(),
    }
}

fn runtime_in(vars: &[(&str, &str)], counter_heap: bool) -> GpuRuntime {
    runtime_with(1, vars, counter_heap)
}

fn runtime_of(id: u64) -> GpuRuntime {
    runtime_with(id, &[], false)
}

fn runtime_with(id: u64, vars: &[(&str, &str)], counter_heap: bool) -> GpuRuntime {
    let kernels = ["copy_f32", "zero_f32"]
        .iter()
        .map(|name| Kernel {
            name: name.to_string(),
            library: 0,
            thread_execution_width: 32,
            max_threads: 1024,
            icb_capable: *name == "copy_f32",
        })
        .collect();
    GpuRuntime::new(
        id,
        DeviceInfo {
            max_buffer_length: 1 << 20,
            max_threadgroup_memory: 32768,
            arena_address: 0x1_0000_0000,
            recommended_working_set: 1 << 34,
            memory_size: 1 << 35,
            counter_heap,
        },
        kernels,
        1 << 33,
        AbFlags::new(env(vars)),
        IcbFlags::new(),
        InferTrace::new(),
    )
}

fn runtime() -> GpuRuntime {
    runtime_in(&[], false)
}

fn ops(rt: &mut GpuRuntime) -> Vec<DeviceOp> {
    rt.take_ops().0
}

fn copy(rt: &mut GpuRuntime, n: usize) {
    let src = rt.alloc_buffer_hot(n * 4).unwrap();
    let dst = rt.alloc_buffer_hot(n * 4).unwrap();
    let p = rt.pipeline("copy_f32").unwrap();
    dispatch_1d(rt, &p, n, |b| {
        set_gpu_buf(b, &src, 0);
        set_gpu_buf(b, &dst, 1);
        set_u32(b, n as u32, 2);
    })
    .unwrap();
}

// ------------------------------------------------------------------ sizes --

#[test]
fn sizes_round_as_documented() {
    assert_eq!((div_ceil(0, 8), div_ceil(1, 8), div_ceil(16, 8)), (0, 1, 2));
    assert_eq!(div_ceil(usize::MAX, 2), usize::MAX / 2 + 1);
    assert_eq!(next_pow2_within(300, 4096), Some(512));
    assert_eq!(next_pow2_within(300, 511), None);
    assert_eq!(next_pow2_within(0, 1), Some(1));
    assert_eq!((prev_pow2(1), prev_pow2(1000)), (1, 512));
    assert_eq!(checked_product(&[3, 4, 5]), Some(60));
    assert_eq!(checked_product(&[]), Some(1));
    assert_eq!(checked_product(&[usize::MAX, 2]), None);
}

// ------------------------------------------------------------------- pool --

fn slab(id: u64, length: usize) -> Slab {
    Slab { id, length, address: id << 32 }
}

#[test]
fn pools_round_requests_and_reuse_the_newest() {
    let mut pool = BufferPool::new(4096);
    assert_eq!(pool.request(1, 1 << 20), Ok(Grant::Create(256)));
    assert_eq!(pool.request(257, 1 << 20), Ok(Grant::Create(512)));
    pool.recycle(slab(1, 512));
    pool.recycle(slab(2, 512));
    assert_eq!(pool.request(300, 1 << 20), Ok(Grant::Reuse(slab(2, 512))));
    assert_eq!(pool.request(300, 1 << 20), Ok(Grant::Reuse(slab(1, 512))));
    assert_eq!(pool.request(300, 1 << 20), Ok(Grant::Create(512)));
    assert_eq!(
        pool.request(2000, 1999).unwrap_err(),
        "buffer request 2000 exceeds host/device allocation limit"
    );
    assert_eq!(
        pool.request(2000, 2000).unwrap_err(),
        "rounded buffer size exceeds device limit"
    );
}

#[test]
fn pools_keep_to_their_cap() {
    let mut pool = BufferPool::new(1024);
    assert_eq!(pool.cached_bytes(), 0);
    pool.recycle(slab(1, 512));
    pool.recycle(slab(2, 256));
    pool.recycle(slab(3, 512)); // would not fit
    assert_eq!(pool.cached_bytes(), 768);
    assert_eq!(pool.request(512, 1 << 20), Ok(Grant::Reuse(slab(1, 512))));
    assert_eq!(pool.request(512, 1 << 20), Ok(Grant::Create(512)));
    pool.recycle(slab(1, 512));
    // Trimming drops the longest first.
    pool.set_max_cache_bytes(256);
    assert_eq!(pool.cached_bytes(), 256);
    assert_eq!(pool.request(512, 1 << 20), Ok(Grant::Create(512)));
    assert_eq!(pool.request(256, 1 << 20), Ok(Grant::Reuse(slab(2, 256))));
    pool.recycle(slab(2, 256));
    pool.clear();
    assert_eq!(pool.request(256, 1 << 20), Ok(Grant::Create(256)));
}

#[test]
fn storage_waits_for_the_device_before_reuse() {
    let mut rt = runtime();
    rt.set_async_encode(true).unwrap();
    let a = rt.alloc_buffer(1000).unwrap();
    let first = a.at().slab.id;
    copy(&mut rt, 8);
    rt.recycle_buffer(a);
    let b = rt.alloc_buffer(1000).unwrap();
    assert_ne!(b.at().slab.id, first, "still in use");
    rt.synchronize().unwrap();
    let c = rt.alloc_buffer(1000).unwrap();
    assert_eq!(c.at().slab.id, first, "free again");
    // Hot storage is never recycled.
    let h = rt.alloc_buffer_hot(1000).unwrap();
    let hot = h.at().slab.id;
    assert_eq!(h.kind(), BufferKind::Hot);
    rt.recycle_buffer(h);
    rt.synchronize().unwrap();
    assert_ne!(rt.alloc_buffer(1000).unwrap().at().slab.id, hot);
}

#[test]
fn storage_stays_until_its_last_handle_goes() {
    let mut rt = runtime();
    let a = rt.alloc_buffer(1000).unwrap();
    let id = a.at().slab.id;
    let twin = rt.share_buffer(&a);
    assert!(twin.aliases(&a));
    rt.recycle_buffer(a);
    rt.synchronize().unwrap();
    assert_ne!(rt.alloc_buffer(1000).unwrap().at().slab.id, id, "one handle is left");
    rt.recycle_buffer(twin);
    rt.synchronize().unwrap();
    assert_eq!(rt.alloc_buffer(1000).unwrap().at().slab.id, id);
}

#[test]
fn views_hold_the_storage_they_look_into() {
    let mut rt = runtime();
    let t = rt.alloc_tensor_f32(&[64]).unwrap();
    let id = t.buffer.at().slab.id;
    let half = t.view(&mut rt, &[32], 32);
    rt.recycle_buffer(t.buffer);
    rt.synchronize().unwrap();
    let other = rt.alloc_tensor_f32(&[64]).unwrap();
    assert_ne!(other.buffer.at().slab.id, id);
    rt.recycle_buffer(half.buffer);
    rt.synchronize().unwrap();
    assert_eq!(rt.alloc_tensor_f32(&[64]).unwrap().buffer.at().slab.id, id);
}

#[test]
fn storage_of_another_runtime_is_left_alone() {
    let mut rt = runtime();
    let mut other = runtime_of(2);
    let mine = rt.alloc_buffer(1000).unwrap();
    let foreign = other.alloc_buffer(1000).unwrap();
    assert_eq!(mine.at().slab.id, foreign.at().slab.id);
    rt.recycle_buffer(foreign);
    rt.synchronize().unwrap();
    assert!(!rt.alloc_buffer(1000).unwrap().aliases(&mine), "the number alone names no storage");
    // Its own runtime still counts the handle.
    let again = other.alloc_buffer(1000).unwrap();
    assert_ne!(again.at().slab.id, mine.at().slab.id);
}

#[test]
fn recordings_and_graphs_hold_what_they_bind() {
    let mut rt = runtime();
    let src = rt.alloc_buffer(32).unwrap();
    let dst = rt.alloc_buffer(32).unwrap();
    let count = rt.alloc_buffer(4).unwrap();
    let id = dst.at().slab.id;
    let p = tessl::pipeline_icb(&mut rt, "copy_f32").unwrap();
    begin_decode_icb_capture(&mut rt);
    dispatch_1d(&mut rt, &p, 8, |b| {
        set_gpu_buf(b, &src, 0);
        set_gpu_buf(b, &dst, 1);
        set_gpu_buf(b, &count, 2);
    })
    .unwrap();
    let capture = take_decode_icb_capture(&mut rt).unwrap();
    assert_eq!(capture.commands().len(), 1);
    rt.recycle_buffer(dst);
    rt.synchronize().unwrap();
    assert_ne!(rt.alloc_buffer(32).unwrap().at().slab.id, id, "the recording holds it");
    let (commands, hold) = capture.into_commands();
    let graph = DecodeIcb::from_commands_ex(&mut rt, commands, true).unwrap();
    rt.let_go(hold);
    rt.synchronize().unwrap();
    assert_ne!(rt.alloc_buffer(32).unwrap().at().slab.id, id, "the graph holds it");
    graph.let_go(&mut rt);
    rt.synchronize().unwrap();
    assert_eq!(rt.alloc_buffer(32).unwrap().at().slab.id, id);
}

#[test]
fn tapes_of_storage_that_was_given_up_are_refused() {
    let mut rt = runtime();
    let gone = rt.alloc_buffer(32).unwrap();
    let kept = rt.alloc_buffer(32).unwrap();
    let p = tessl::pipeline_icb(&mut rt, "copy_f32").unwrap();
    let at = gone.at();
    assert!(rt.holds_storage(&at));
    rt.recycle_buffer(gone);
    assert!(!rt.holds_storage(&at));
    let tape = |buf: Storage| {
        vec![DecodeIcbCommand {
            pipeline: p,
            threadgroups: mtl_size(1, 1, 1),
            threads_per_tg: mtl_size(8, 1, 1),
            binds: vec![DecodeIcbBind::Buf {
                index: 0,
                buf,
                byte_offset: 0,
                gpu_addr: buf.slab.address,
            }],
            tg_mem: None,
            owned_immediates: Vec::new(),
            barrier_after: true,
        }]
    };
    match DecodeIcb::from_commands_ex(&mut rt, tape(at), true) {
        Err(e) => assert_eq!(e, "DecodeIcb: a command binds storage that was given up"),
        Ok(_) => panic!("built over storage that nobody holds"),
    }
    assert!(DecodeIcb::from_commands_ex(&mut rt, tape(kept.at()), true).is_ok());
}

#[test]
fn slabs_do_not_overlap() {
    let mut rt = runtime();
    let mut slabs: Vec<Slab> = (1..40)
        .map(|i| rt.alloc_buffer(i * 100).unwrap().at().slab)
        .collect();
    slabs.sort_by_key(|s| s.address);
    for pair in slabs.windows(2) {
        assert!(pair[0].address + pair[0].length as u64 <= pair[1].address);
    }
}

#[test]
fn bump_views_pack_one_slab() {
    let mut rt = runtime();
    assert!(!rt.bump_enabled());
    rt.ensure_bump(4096).unwrap();
    assert!(rt.bump_enabled());
    let a = rt.bump_alloc_f32(&[3]).unwrap();
    let b = rt.bump_alloc_f32(&[5]).unwrap();
    assert!(a.buffer.aliases(&b.buffer));
    assert!(a.byte_offset + a.nbytes_logical() <= b.byte_offset || a.byte_offset == 0);
    assert!(!a.overlaps(&b));
    // With views about, a reset goes on in other storage.
    let (first, start) = (a.buffer.at().slab.id, a.byte_offset);
    assert!(rt.try_bump_reset());
    let c = rt.bump_alloc_f32(&[3]).unwrap();
    assert_ne!(c.buffer.at().slab.id, first);
    // Without any it starts over in the same.
    let second = c.buffer.at().slab.id;
    rt.recycle_buffer(c.buffer);
    assert!(rt.try_bump_reset());
    let d = rt.bump_alloc_f32(&[3]).unwrap();
    assert_eq!((d.buffer.at().slab.id, d.byte_offset), (second, start));
}

// ------------------------------------------------------ refused creations --

#[test]
fn a_refused_buffer_leaves_the_runtime_usable() {
    let mut rt = runtime();
    let a = rt.alloc_buffer(1000).unwrap();
    let made = a.at().slab;
    let asked = DeviceOp::CreateBuffer { made };
    assert!(ops(&mut rt).contains(&asked));
    rt.creation_refused(asked);
    // Nothing holds the slab any more, and it is never handed out.
    rt.recycle_buffer(a);
    rt.synchronize().unwrap();
    for _ in 0..4 {
        assert_ne!(rt.alloc_buffer(1000).unwrap().at().slab.id, made.id);
    }
    copy(&mut rt, 8);
}

#[test]
fn a_refused_arena_is_made_anew() {
    let mut rt = runtime();
    rt.ensure_bump(4096).unwrap();
    let asked = ops(&mut rt)
        .into_iter()
        .find(|op| matches!(op, DeviceOp::CreateBuffer { .. }))
        .unwrap();
    rt.creation_refused(asked);
    assert!(!rt.bump_enabled());
    rt.ensure_bump(4096).unwrap();
    assert!(rt.bump_alloc_f32(&[3]).is_ok());
}

/// The creation of a buffer that was asked for last.
fn creation(rt: &mut GpuRuntime) -> DeviceOp {
    ops(rt)
        .into_iter()
        .rfind(|op| matches!(op, DeviceOp::CreateBuffer { .. }))
        .unwrap()
}

#[test]
fn a_refused_growth_keeps_the_arena() {
    let mut rt = runtime();
    rt.ensure_bump(256).unwrap();
    let asked = creation(&mut rt);
    rt.creation_confirmed(asked);
    let a = rt.bump_alloc_f32(&[12]).unwrap();
    let old = a.buffer.at();
    rt.ensure_bump(4096).unwrap();
    let asked = creation(&mut rt);
    let early = rt.bump_alloc_f32(&[3]).unwrap();
    assert!(!early.buffer.aliases(&a.buffer));
    rt.creation_refused(asked);
    // The old arena goes on behind what was allocated in it.
    assert!(rt.bump_enabled());
    let b = rt.bump_alloc_f32(&[4]).unwrap();
    assert_eq!((b.buffer.at(), b.byte_offset), (old, 48));
    assert!(!a.overlaps(&b));
    assert_eq!(
        rt.bump_alloc_f32(&[64]).err().unwrap(),
        "bump arena exhausted: need 256 more bytes (cursor=64, cap=256)"
    );
    // The refused slab's handle is of no effect, and the growth can be tried again.
    rt.recycle_buffer(early.buffer);
    rt.ensure_bump(4096).unwrap();
    assert!(rt.bump_alloc_f32(&[64]).is_ok());
}

#[test]
fn a_confirmed_growth_lets_the_old_arena_go() {
    let mut rt = runtime();
    rt.ensure_bump(256).unwrap();
    let a = rt.bump_alloc_f32(&[12]).unwrap();
    let old = a.buffer.at();
    rt.recycle_buffer(a.buffer);
    rt.ensure_bump(4096).unwrap();
    let asked = creation(&mut rt);
    assert!(rt.holds_storage(&old), "the device may still refuse");
    rt.creation_confirmed(asked);
    assert!(!rt.holds_storage(&old));
    rt.synchronize().unwrap();
    assert_eq!(rt.alloc_buffer(256).unwrap().at().slab, old.slab);
    // A slab from the cache needs no answer.
    let cached = rt.alloc_buffer(8192).unwrap();
    rt.recycle_buffer(cached);
    rt.synchronize().unwrap();
    let before = rt.bump_alloc_f32(&[3]).unwrap();
    let replaced = before.buffer.at();
    rt.recycle_buffer(before.buffer);
    rt.ensure_bump(8192).unwrap();
    assert!(!rt.holds_storage(&replaced));
}

#[test]
fn arenas_fall_back_past_a_refusal_in_between() {
    let mut rt = runtime();
    rt.ensure_bump(256).unwrap();
    let first = creation(&mut rt);
    rt.ensure_bump(512).unwrap();
    let second = creation(&mut rt);
    rt.ensure_bump(1024).unwrap();
    let third = creation(&mut rt);
    rt.creation_confirmed(first);
    rt.creation_refused(second);
    rt.creation_refused(third);
    let t = rt.bump_alloc_f32(&[3]).unwrap();
    assert_eq!(DeviceOp::CreateBuffer { made: t.buffer.at().slab }, first);
    // With the first one refused too, none is left.
    rt.creation_refused(first);
    assert!(!rt.bump_enabled());
}

#[test]
fn a_refused_reset_keeps_the_arena() {
    let mut rt = runtime();
    rt.ensure_bump(256).unwrap();
    let asked = creation(&mut rt);
    rt.creation_confirmed(asked);
    let a = rt.bump_alloc_f32(&[12]).unwrap();
    assert!(rt.try_bump_reset());
    let asked = creation(&mut rt);
    rt.creation_refused(asked);
    let b = rt.bump_alloc_f32(&[4]).unwrap();
    assert!(b.buffer.aliases(&a.buffer));
    assert_eq!(b.byte_offset, 48);
}

#[test]
fn a_refused_pipeline_is_asked_for_again() {
    let mut rt = runtime();
    let p = rt.pipeline("copy_f32").unwrap();
    let asked = DeviceOp::BuildPipeline { kernel: p.kernel, indirect: false };
    assert!(ops(&mut rt).contains(&asked));
    rt.pipeline("copy_f32").unwrap();
    assert!(!ops(&mut rt).contains(&asked), "built once");
    rt.creation_refused(asked);
    rt.pipeline("copy_f32").unwrap();
    assert!(ops(&mut rt).contains(&asked));
}

#[test]
fn a_refused_command_list_leaves_the_runtime_usable() {
    let mut rt = runtime();
    let (graph, _out) = DecodeIcb::mini_copy_chain(&mut rt, 8).unwrap();
    let asked = ops(&mut rt)
        .into_iter()
        .find(|op| matches!(op, DeviceOp::CreateIcb { .. }))
        .unwrap();
    rt.creation_refused(asked);
    graph.let_go(&mut rt);
    copy(&mut rt, 8);
    assert!(DecodeIcb::mini_copy_chain(&mut rt, 8).is_ok());
}

// -------------------------------------------------------- command buffers --

#[test]
fn a_synchronous_dispatch_runs_to_completion() {
    let mut rt = runtime();
    copy(&mut rt, 8);
    let log = ops(&mut rt);
    let at = |want: fn(&DeviceOp) -> bool| log.iter().position(want).unwrap();
    let begin = at(|o| matches!(o, DeviceOp::BeginCommands { .. }));
    let open = at(|o| matches!(o, DeviceOp::OpenEncoder));
    let pipeline = at(|o| matches!(o, DeviceOp::SetPipeline { .. }));
    let dispatch = at(|o| matches!(o, DeviceOp::Dispatch { .. }));
    let barrier = at(|o| matches!(o, DeviceOp::Barrier));
    let end = at(|o| matches!(o, DeviceOp::EndEncoding));
    let submit = at(|o| matches!(o, DeviceOp::Submit));
    let wait = at(|o| matches!(o, DeviceOp::Wait { .. }));
    assert!(begin < open && open < pipeline && pipeline < dispatch);
    assert!(dispatch < barrier && barrier < end && end < submit && submit < wait);
    assert_eq!(rt.take_dispatch_count(), 1);
    assert_eq!(rt.take_dispatch_count(), 0);
    // A second wait finds nothing to do.
    rt.synchronize().unwrap();
    assert_eq!(ops(&mut rt), []);
}

#[test]
fn allocators_alternate_and_are_waited_for() {
    let mut rt = runtime();
    rt.set_async_encode(true).unwrap();
    let mut used = Vec::new();
    let mut waits = 0;
    for _ in 0..4 {
        copy(&mut rt, 8);
        rt.commit(false).unwrap();
        for op in ops(&mut rt) {
            match op {
                DeviceOp::BeginCommands { allocator } => used.push(allocator),
                DeviceOp::WaitAllocator { .. } => waits += 1,
                _ => {}
            }
        }
    }
    assert_eq!(used, [0, 1, 0, 1]);
    assert_eq!(waits, 2, "the third and fourth wait for the first and second");
}

#[test]
fn batches_commit_at_the_threshold() {
    assert_eq!(mid_commit_threshold(&env(&[])), 0);
    assert_eq!(mid_commit_threshold(&env(&[("METAL_RUNTIME_MID_COMMIT", "3")])), 3);
    assert_eq!(
        mid_commit_threshold(&env(&[
            ("TESSL_MID_COMMIT", "junk"),
            ("METAL_RUNTIME_MID_COMMIT", "3")
        ])),
        0
    );
    let mut rt = runtime_in(&[("TESSL_MID_COMMIT", "2")], false);
    rt.set_async_encode(true).unwrap();
    copy(&mut rt, 8);
    assert!(!ops(&mut rt).contains(&DeviceOp::Submit));
    copy(&mut rt, 8);
    assert!(ops(&mut rt).contains(&DeviceOp::Submit));
}

#[test]
fn timestamps_bracket_a_waited_batch() {
    let mut rt = runtime_in(&[], true);
    assert!(rt.metal4_counter_heap_available());
    copy(&mut rt, 8);
    let log = ops(&mut rt);
    assert!(log.contains(&DeviceOp::Timestamp { index: 0 }));
    assert!(log.contains(&DeviceOp::Timestamp { index: 1 }));
    assert!(log.contains(&DeviceOp::ResolveTimestamps));
    rt.record_stamps(10, 25);
    assert_eq!(rt.take_metal4_stamps(), Some((10, 25)));
    assert_eq!(rt.take_metal4_stamps(), None);
}

#[test]
fn hazard_mode_leaves_barriers_to_the_caller() {
    let mut rt = runtime_in(&[("TESSL_HAZARD_BARRIERS", "1")], false);
    copy(&mut rt, 8);
    assert!(!ops(&mut rt).contains(&DeviceOp::Barrier));
    rt.with_binder_barriers(Some(false), |b| {
        assert!(!b.needs_explicit_barriers());
        Ok(())
    })
    .unwrap();
    rt.with_binder(|b| {
        assert!(b.needs_explicit_barriers());
        Ok(())
    })
    .unwrap();
}

#[test]
fn pipelines_are_built_once() {
    let mut rt = runtime();
    let a = rt.pipeline("copy_f32").unwrap();
    let b = rt.pipeline("copy_f32").unwrap();
    assert_eq!(a, b);
    let builds = ops(&mut rt)
        .into_iter()
        .filter(|o| matches!(o, DeviceOp::BuildPipeline { .. }))
        .count();
    assert_eq!(builds, 1);
    // Overlays are searched after the primary library.
    let narrow = |name: &str| Kernel {
        name: name.to_string(),
        library: 0,
        thread_execution_width: 16,
        max_threads: 64,
        icb_capable: false,
    };
    assert_eq!(
        rt.pipeline("extra").unwrap_err(),
        "kernel 'extra' not found in metallib"
    );
    rt.add_metallib(vec![narrow("zero_f32"), narrow("extra")]);
    assert_eq!(rt.pipeline("zero_f32").unwrap().thread_execution_width, 32);
    assert_eq!(rt.pipeline("extra").unwrap().thread_execution_width, 16);
}

#[test]
fn geometry_is_checked_before_the_device_sees_it() {
    let one = mtl_size(1, 1, 1);
    assert!(validate_dispatch_geometry(one, mtl_size(1024, 1, 1), Some(1024)).is_ok());
    for (groups, threads, max) in [
        (one, mtl_size(1025, 1, 1), Some(1024)),
        (one, mtl_size(0, 1, 1), Some(1024)),
        (mtl_size(0, 1, 1), one, Some(1024)),
        (mtl_size(u32::MAX as usize + 1, 1, 1), one, Some(1024)),
        (one, mtl_size(usize::MAX, usize::MAX, 0), Some(1024)),
        (one, one, None),
    ] {
        assert_eq!(
            validate_dispatch_geometry(groups, threads, max).unwrap_err(),
            "invalid dispatch geometry or missing pipeline"
        );
    }
    let mut rt = runtime();
    let err = rt
        .with_binder(|b| {
            b.dispatch(mtl_size(1, 1, 1), mtl_size(1, 1, 1));
            Ok(())
        })
        .unwrap_err();
    assert_eq!(err, "invalid dispatch geometry or missing pipeline");
}

// --------------------------------------------------------------- counters --

#[test]
fn traces_count_only_while_enabled() {
    let mut rt = runtime();
    copy(&mut rt, 8);
    assert_eq!(snapshot(rt.infer_trace()).dispatches, 0);
    set_enabled(rt.infer_trace(), true);
    copy(&mut rt, 8);
    let s = snapshot(rt.infer_trace());
    assert_eq!((s.dispatches, s.barriers, s.commits), (1, 1, 1));
}

#[test]
fn no_op_encoding_changes_nothing() {
    let mut rt = runtime();
    rt.pipeline("copy_f32").unwrap();
    let buf = rt.alloc_buffer_hot(64).unwrap();
    ops(&mut rt);
    let guard = BinderEncodeNopGuard::enter(rt.icb_flags());
    let p = rt.pipeline("zero_f32").unwrap();
    let mut ran = false;
    rt.with_binder(|_| {
        ran = true;
        Ok(())
    })
    .unwrap();
    dispatch_1d(&mut rt, &p, 4, |b| set_gpu_buf(b, &buf, 0)).unwrap();
    assert!(!ran);
    assert_eq!(ops(&mut rt), []);
    guard.leave(rt.icb_flags());
    rt.with_binder(|_| {
        ran = true;
        Ok(())
    })
    .unwrap();
    assert!(ran);
}

// -------------------------------------------------------------- recording --

#[test]
fn recording_keeps_commands_in_order() {
    let mut rt = runtime();
    assert!(!decode_icb_capture_active(&rt));
    begin_decode_icb_capture(&mut rt);
    assert!(decode_icb_capture_active(&rt));
    copy(&mut rt, 8);
    copy(&mut rt, 40);
    let capture = take_decode_icb_capture(&mut rt).unwrap();
    assert!(!decode_icb_capture_active(&rt));
    assert!(capture.is_complete());
    let (commands, hold) = capture.into_commands();
    rt.let_go(hold);
    assert_eq!(commands.len(), 2);
    assert_eq!(commands[0].threads_per_tg, mtl_size(8, 1, 1));
    assert_eq!(commands[1].threadgroups, mtl_size(2, 1, 1));
    assert!(commands.iter().all(|c| c.barrier_after && c.binds.len() == 3));
    match &commands[1].binds[2] {
        DecodeIcbBind::Immediate { index, bytes } => {
            assert_eq!((*index, bytes.as_slice()), (2, &40u32.to_le_bytes()[..]));
        }
        DecodeIcbBind::Buf { .. } => panic!("a word was recorded as a buffer"),
    }
}

#[test]
fn only_beginning_and_taking_change_whether_a_recording_runs() {
    let mut rt = runtime();
    for active in [false, true] {
        if active {
            begin_decode_icb_capture(&mut rt);
        }
        let buf = rt.alloc_buffer(64).unwrap();
        let t = rt.alloc_tensor_f32(&[16]).unwrap();
        copy(&mut rt, 8);
        rt.commit(false).unwrap();
        rt.synchronize().unwrap();
        rt.ensure_bump(if active { 4096 } else { 256 }).unwrap();
        let asked = creation(&mut rt);
        rt.creation_refused(asked);
        let (mut graph, out) = DecodeIcb::mini_copy_chain(&mut rt, 8).unwrap();
        graph.execute(&mut rt).unwrap();
        graph.let_go(&mut rt);
        buf.zero(&mut rt).unwrap();
        let twin = t.deep_copy(&mut rt).unwrap();
        for b in [buf, t.buffer, twin.buffer, out] {
            rt.recycle_buffer(b);
        }
        assert_eq!(decode_icb_capture_active(&rt), active);
    }
    assert!(take_decode_icb_capture(&mut rt).is_some());
    assert!(!decode_icb_capture_active(&rt));
    assert!(take_decode_icb_capture(&mut rt).is_none());
}

#[test]
fn the_first_run_with_ranges_is_reported() {
    let mut rt = runtime();
    set_icb_range_batch(rt.icb_flags(), true);
    let (mut graph, _out) = DecodeIcb::mini_copy_chain_ex(&mut rt, 32, true).unwrap();
    let report = |rt: &mut GpuRuntime| {
        ops(rt)
            .into_iter()
            .filter(|op| matches!(op, DeviceOp::ReportRanges { .. }))
            .collect::<Vec<_>>()
    };
    graph.execute(&mut rt).unwrap();
    assert_eq!(
        report(&mut rt),
        [DeviceOp::ReportRanges {
            commands: 2,
            barriers: 1,
            elided: 0,
            calls: 2,
            covered: 2,
            tables: 0,
        }]
    );
    graph.execute(&mut rt).unwrap();
    assert_eq!(report(&mut rt), [], "only the first");
    set_icb_range_batch(rt.icb_flags(), false);
    let (mut other, _out) = DecodeIcb::mini_copy_chain_ex(&mut rt, 32, true).unwrap();
    other.execute(&mut rt).unwrap();
    assert_eq!(report(&mut rt), [], "only with ranges");
}

#[test]
fn bare_storage_makes_a_recording_incomplete() {
    let mut rt = runtime();
    let buf = rt.alloc_buffer_hot(64).unwrap();
    let p = rt.pipeline("copy_f32").unwrap();
    begin_decode_icb_capture(&mut rt);
    rt.with_binder(|b| {
        b.set_pipeline(&p);
        b.bind_buf(&buf.at().slab, 0, 0);
        b.dispatch(mtl_size(1, 1, 1), mtl_size(1, 1, 1));
        Ok(())
    })
    .unwrap();
    assert!(!take_decode_icb_capture(&mut rt).unwrap().is_complete());
}

#[test]
fn graphs_are_refused_without_commands_or_builds() {
    let mut rt = runtime();
    assert!(DecodeIcb::from_commands(&mut rt, Vec::new()).is_err());
    begin_decode_icb_capture(&mut rt);
    copy(&mut rt, 8);
    let (commands, _hold) = take_decode_icb_capture(&mut rt).unwrap().into_commands();
    // Frozen binds need pipelines that were built for them.
    assert!(DecodeIcb::from_commands_ex(&mut rt, commands, true).is_err());
    assert!(tessl::pipeline_icb(&mut rt, "zero_f32").is_err());
    assert!(tessl::pipeline_icb(&mut rt, "copy_f32").unwrap().icb);
}

#[test]
fn buffers_that_are_not_cached_are_let_go() {
    let mut rt = runtime();
    let (a, b) = (rt.alloc_buffer(512).unwrap(), rt.alloc_buffer(1024).unwrap());
    let (short, long) = (a.at().slab.id, b.at().slab.id);
    rt.recycle_buffer(a);
    rt.recycle_buffer(b);
    rt.synchronize().unwrap();
    ops(&mut rt);
    // Trimming starts with the longest.
    rt.set_pool_cache_cap_bytes(512);
    assert_eq!(
        ops(&mut rt),
        [DeviceOp::DropBuffer { slab: long }]
    );
    // Past the cap nothing is kept.
    let c = rt.alloc_buffer(2048).unwrap();
    let past = c.at().slab.id;
    rt.recycle_buffer(c);
    rt.synchronize().unwrap();
    assert!(ops(&mut rt).contains(&DeviceOp::DropBuffer { slab: past }));
    assert_eq!(rt.alloc_buffer(512).unwrap().at().slab.id, short);
}
