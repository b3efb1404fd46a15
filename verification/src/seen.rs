//! What the device makes of the operations it is asked for. A stretch of them is
//! carried out one by one, over argument tables, the constant arena, the pipeline
//! in force and threadgroup memory; each dispatch is seen with all of these as it
//! finds them.

use vstd::prelude::*;

use crate::bytes::{word_at, word_bytes};
use crate::device::{
    size3, DeviceOp, MtlSize, Pipeline, ARGUMENT_TABLE_MAX_BUFFERS, METAL4_CONST_ARENA_BYTES,
    PERSISTENT_TABLE,
};
use crate::dispatch::{align16, groups_for, lanes_for, padded, pair_fn, Bind, BinderState, PassView};
use crate::runtime::{lemma_committed_frame, lemma_recording_frame};
use crate::sizes::is_pow2;
use crate::state::{
    kernel_from, launch_fn, resets, succ_sat, ActiveBatch, Allocators, RuntimeState,
};
use crate::tensor::Storage;

verus! {

/// What a dispatch finds.
#[verifier::ext_equal]
pub struct Scene {
    /// Pipeline in force.
    pub pipeline: Option<Pipeline>,
    /// Argument table in force.
    pub table: Option<u64>,
    /// Addresses in the slots of the argument tables.
    pub slots: Map<(u64, usize), u64>,
    /// Constants, by the address at which the device sees them.
    pub words: Map<u64, Seq<u8>>,
    /// Threadgroup memory, by its index.
    pub memory: Map<usize, usize>,
    /// Barriers so far.
    pub fences: nat,
}

/// A dispatch and what it finds.
#[verifier::ext_equal]
pub struct Launch {
    pub scene: Scene,
    pub groups: MtlSize,
    pub threads: MtlSize,
}

/// What became of a stretch of operations.
#[verifier::ext_equal]
pub struct Seen {
    pub scene: Scene,
    pub launches: Seq<Launch>,
}

/// A device that was told nothing yet.
pub open spec fn nothing() -> Seen {
    Seen {
        scene: Scene {
            pipeline: None,
            table: None,
            slots: Map::empty(),
            words: Map::empty(),
            memory: Map::empty(),
            fences: 0,
        },
        launches: Seq::empty(),
    }
}

/// Where the device sees byte `offset` of the constant arena.
pub open spec fn arena_address(arena: u64, offset: int) -> u64 {
    ((arena + offset) % 0x1_0000_0000_0000_0000) as u64
}

impl Scene {
    /// After one operation that is no dispatch.
    pub open spec fn after(self, op: DeviceOp, blob: Seq<u8>, arena: u64) -> Scene {
        match op {
            DeviceOp::OpenEncoder => Scene {
                pipeline: None,
                table: None,
                memory: Map::empty(),
                ..self
            },
            DeviceOp::SetPipeline { pipeline } => Scene { pipeline: Some(pipeline), ..self },
            DeviceOp::SetAddress { index, address } => Scene {
                slots: self.slots.insert((PERSISTENT_TABLE, index), address),
                ..self
            },
            DeviceOp::SetResource { index, .. } => Scene {
                slots: self.slots.remove((PERSISTENT_TABLE, index)),
                ..self
            },
            DeviceOp::SetTableAddress { table, index, address } => Scene {
                slots: self.slots.insert((table, index), address),
                ..self
            },
            DeviceOp::UseTable { table } => Scene { table: Some(table), ..self },
            DeviceOp::WriteConst { offset, from, len } => Scene {
                words: self.words.insert(
                    arena_address(arena, offset as int),
                    blob.subrange(from as int, from + len),
                ),
                ..self
            },
            DeviceOp::ThreadgroupMemory { index, length } => Scene {
                memory: self.memory.insert(index, length),
                ..self
            },
            DeviceOp::Barrier => Scene { fences: self.fences + 1, ..self },
            _ => self,
        }
    }
}

impl Seen {
    /// After one operation.
    pub open spec fn after(self, op: DeviceOp, blob: Seq<u8>, arena: u64) -> Seen {
        match op {
            DeviceOp::Dispatch { groups, threads } => Seen {
                launches: self.launches.push(Launch { scene: self.scene, groups, threads }),
                ..self
            },
            _ => Seen { scene: self.scene.after(op, blob, arena), ..self },
        }
    }
}

/// After operations `from` to `to`, with `blob` for their payloads.
pub open spec fn seen(
    start: Seen,
    ops: Seq<DeviceOp>,
    blob: Seq<u8>,
    arena: u64,
    from: int,
    to: int,
) -> Seen
    decreases to - from,
{
    if to <= from {
        start
    } else {
        seen(start, ops, blob, arena, from, to - 1).after(ops[to - 1], blob, arena)
    }
}

/// The dispatches the device carries out between two states of a runtime.
#[verifier::opaque]
pub open spec fn launches(before: RuntimeState, after: RuntimeState) -> Seq<Launch> {
    seen(
        nothing(),
        after.ops,
        after.blob,
        after.info.arena_address,
        before.ops.len() as int,
        after.ops.len() as int,
    ).launches
}

impl Launch {
    /// The address the kernel gets in a slot.
    pub open spec fn at(self, slot: int) -> int {
        self.scene.slots[(self.scene.table->0, slot as usize)] as int
    }

    /// The word the kernel reads through a slot.
    pub open spec fn word(self, slot: int) -> u32 {
        word_at(self.scene.words[self.scene.slots[(self.scene.table->0, slot as usize)]], 0)
    }

    /// The kernel gets byte `offset` of a slab in a slot.
    pub open spec fn gets(self, slot: int, buf: Storage, offset: int) -> bool {
        &&& self.scene.slots.contains_key((self.scene.table->0, slot as usize))
        &&& self.at(slot) == buf.slab.address + offset
        &&& 0 <= offset < buf.slab.length
    }

    /// The kernel reads a word through a slot.
    pub open spec fn reads(self, slot: int, value: u32) -> bool {
        &&& self.scene.slots.contains_key((self.scene.table->0, slot as usize))
        &&& self.word(slot) == value
    }

    /// The kernel has this threadgroup memory, where any is asked for.
    pub open spec fn shares(self, tg_mem: Option<(usize, usize)>) -> bool {
        match tg_mem {
            Some((index, length)) => self.scene.memory.contains_key(index)
                && self.scene.memory[index] == length,
            None => true,
        }
    }

    /// A barrier stands between the two.
    pub open spec fn behind(self, earlier: Launch) -> bool {
        earlier.scene.fences < self.scene.fences
    }

    /// The kernel of this name runs.
    pub open spec fn runs(self, rt: RuntimeState, name: Seq<char>) -> bool {
        &&& self.scene.pipeline is Some
        &&& self.scene.pipeline->0.kernel < rt.kernels.len()
        &&& rt.kernels[self.scene.pipeline->0.kernel as int].name@ == name
    }

    /// Lanes that execute together.
    pub open spec fn width(self) -> int {
        self.scene.pipeline->0.thread_execution_width as int
    }

    /// Threads in all, along each side.
    pub open spec fn across(self) -> int {
        self.groups.width * self.threads.width
    }

    /// A row of threads on a row of groups.
    pub open spec fn flat(self) -> bool {
        &&& self.groups.height == 1
        &&& self.groups.depth == 1
        &&& self.threads.height == 1
        &&& self.threads.depth == 1
    }
}

// ---------------------------------------------------- stretches of work ---

/// Operations that leave dispatches and what they find alone. An encoder that is
/// opened starts with no pipeline, no table and no threadgroup memory.
pub open spec fn quiet(op: DeviceOp) -> bool {
    match op {
        DeviceOp::SetPipeline { .. } => false,
        DeviceOp::SetAddress { .. } => false,
        DeviceOp::SetResource { .. } => false,
        DeviceOp::SetTableAddress { .. } => false,
        DeviceOp::UseTable { .. } => false,
        DeviceOp::WriteConst { .. } => false,
        DeviceOp::ThreadgroupMemory { .. } => false,
        DeviceOp::Dispatch { .. } => false,
        DeviceOp::ExecuteIcb { .. } => false,
        DeviceOp::Barrier => false,
        _ => true,
    }
}

/// `b` is `a` and more operations, all of them quiet.
#[verifier::opaque]
pub open spec fn quietly(a: Seq<DeviceOp>, b: Seq<DeviceOp>) -> bool {
    &&& a.len() <= b.len()
    &&& forall|i: int| 0 <= i < a.len() ==> a[i] == #[trigger] b[i]
    &&& forall|i: int| a.len() <= i < b.len() ==> quiet(#[trigger] b[i])
}

/// `b` starts with `a`.
#[verifier::opaque]
pub open spec fn starts<T>(a: Seq<T>, b: Seq<T>) -> bool {
    &&& a.len() <= b.len()
    &&& forall|i: int| 0 <= i < a.len() ==> a[i] == #[trigger] b[i]
}

pub broadcast proof fn lemma_quietly_itself(a: Seq<DeviceOp>)
    ensures
        #[trigger] quietly(a, a),
{
    reveal(quietly);
}

pub broadcast proof fn lemma_quietly_push(a: Seq<DeviceOp>, b: Seq<DeviceOp>, op: DeviceOp)
    requires
        quietly(a, b),
        quiet(op),
    ensures
        #[trigger] quietly(a, b.push(op)),
{
    reveal(quietly);
}

pub proof fn lemma_quietly_on(a: Seq<DeviceOp>, b: Seq<DeviceOp>, c: Seq<DeviceOp>)
    requires
        quietly(a, b),
        quietly(b, c),
    ensures
        quietly(a, c),
{
    reveal(quietly);
    assert forall|i: int| 0 <= i < a.len() implies a[i] == #[trigger] c[i] by {
        assert(a[i] == b[i]);
    }
    assert forall|i: int| a.len() <= i < c.len() implies quiet(#[trigger] c[i]) by {
        if i < b.len() {
            assert(b[i] == c[i]);
        }
    }
}

pub broadcast proof fn lemma_quietly_resets(a: Seq<DeviceOp>, b: Seq<DeviceOp>, all: Allocators, v: u64)
    requires
        quietly(a, b),
    ensures
        #[trigger] quietly(a, b + resets(all, v)),
{
    reveal(quietly);
}

pub broadcast group group_quietly {
    lemma_quietly_itself,
    lemma_quietly_push,
    lemma_quietly_resets,
}

/// What comes of a stretch depends on its own operations only.
pub proof fn lemma_seen_local(
    start: Seen,
    a: Seq<DeviceOp>,
    b: Seq<DeviceOp>,
    blob: Seq<u8>,
    arena: u64,
    from: int,
    to: int,
)
    requires
        0 <= from,
        to <= a.len(),
        starts(a, b),
    ensures
        seen(start, a, blob, arena, from, to) == seen(start, b, blob, arena, from, to),
    decreases to - from,
{
    if from < to {
        lemma_seen_local(start, a, b, blob, arena, from, to - 1);
        reveal(starts);
        assert(a[to - 1] == b[to - 1]);
    }
}

/// A stretch is its first part and then the rest.
pub proof fn lemma_seen_parts(
    start: Seen,
    ops: Seq<DeviceOp>,
    blob: Seq<u8>,
    arena: u64,
    from: int,
    mid: int,
    to: int,
)
    requires
        from <= mid <= to,
    ensures
        seen(start, ops, blob, arena, from, to) == seen(
            seen(start, ops, blob, arena, from, mid),
            ops,
            blob,
            arena,
            mid,
            to,
        ),
    decreases to - mid,
{
    if mid < to {
        lemma_seen_parts(start, ops, blob, arena, from, mid, to - 1);
    }
}

/// Nothing comes of quiet operations.
pub proof fn lemma_seen_quiet(
    start: Seen,
    ops: Seq<DeviceOp>,
    blob: Seq<u8>,
    arena: u64,
    from: int,
    to: int,
)
    requires
        from <= to,
        forall|i: int| from <= i < to ==> quiet(#[trigger] ops[i]),
    ensures
        seen(start, ops, blob, arena, from, to).launches == start.launches,
        start == nothing() ==> seen(start, ops, blob, arena, from, to) == nothing(),
    decreases to - from,
{
    if from < to {
        lemma_seen_quiet(start, ops, blob, arena, from, to - 1);
        assert(quiet(ops[to - 1]));
        let s = seen(start, ops, blob, arena, from, to - 1);
        if start == nothing() {
            assert(s.after(ops[to - 1], blob, arena) =~= nothing());
        }
    }
}

// ---------------------------------------------------------------- binders ---

/// What became of the operations of a binder from `base` on.
pub open spec fn shown(b: BinderState, full: Seq<u8>, base: int) -> Seen {
    seen(nothing(), b.ops, full, b.arena, base, b.ops.len() as int)
}

pub proof fn lemma_shown_op(b: BinderState, op: DeviceOp, full: Seq<u8>, base: int)
    requires
        0 <= base <= b.ops.len(),
    ensures
        shown(b.with_op(op), full, base) == shown(b, full, base).after(op, full, b.arena),
{
    let more = b.ops.push(op);
    assert(starts(b.ops, more)) by {
        reveal(starts);
    }
    lemma_seen_local(nothing(), b.ops, more, full, b.arena, base, b.ops.len() as int);
    assert(more[more.len() - 1] == op);
}

/// The slot of a bind.
pub open spec fn slot_of(b: Bind) -> usize {
    match b {
        Bind::Buffer { index, .. } => index,
        Bind::BufferAt { index, .. } => index,
        Bind::Bare { index, .. } => index,
        Bind::View { index, .. } => index,
        Bind::U32 { index, .. } => index,
        Bind::F32 { index, .. } => index,
    }
}

/// The scene holds a bind: the address of its byte, or a constant of its own with
/// its word, below `cursor` of the arena.
pub open spec fn holds(s: Scene, arena: u64, cursor: int, b: Bind) -> bool {
    let key = (PERSISTENT_TABLE, slot_of(b));
    &&& s.slots.contains_key(key)
    &&& match b {
        Bind::Buffer { buf, .. } => s.slots[key] == buf.slab.address && buf.slab.length > 0,
        Bind::BufferAt { buf, byte_offset, .. } => s.slots[key] == buf.slab.address + byte_offset
            && byte_offset < buf.slab.length,
        Bind::Bare { slab, byte_offset, .. } => s.slots[key] == slab.address + byte_offset
            && byte_offset < slab.length,
        Bind::View { buf, byte_offset, .. } => s.slots[key] == buf.slab.address + byte_offset
            && byte_offset < buf.slab.length,
        Bind::U32 { value, .. } => kept(s, arena, cursor, key, value),
        Bind::F32 { bits, .. } => kept(s, arena, cursor, key, bits),
    }
}

/// A slot leads to a word in the arena below `cursor`.
pub open spec fn kept(s: Scene, arena: u64, cursor: int, key: (u64, usize), value: u32) -> bool {
    exists|start: int|
        0 <= start < cursor && start <= METAL4_CONST_ARENA_BYTES && s.slots[key] == #[trigger]
            arena_address(arena, start) && s.words.contains_key(arena_address(arena, start))
            && s.words[arena_address(arena, start)] == word_bytes(value)
}

/// What binding and the like leave alone.
pub open spec fn along(a: BinderState, b: BinderState) -> bool {
    &&& b.error is None
    &&& a.error is None
    &&& b.arena == a.arena
    &&& b.latched == a.latched
    &&& b.table == a.table
    &&& b.max_threads == a.max_threads
    &&& b.runtime == a.runtime
    &&& b.skip_auto == a.skip_auto
    &&& a.cursor <= b.cursor
    &&& starts(a.blob, b.blob)
    &&& starts(a.ops, b.ops)
    &&& a.ops.len() <= b.ops.len()
}

/// Every slot but one, and the arena below `cursor`, are as they were.
#[verifier::opaque]
pub open spec fn untouched(s: Scene, t: Scene, arena: u64, cursor: int, slot: usize) -> bool {
    &&& forall|k: (u64, usize)|
        #![auto]
        k != (PERSISTENT_TABLE, slot) ==> t.slots.contains_key(k) == s.slots.contains_key(k)
            && t.slots[k] == s.slots[k]
    &&& forall|start: int|
        #![trigger arena_address(arena, start)]
        0 <= start < cursor && start <= METAL4_CONST_ARENA_BYTES ==> {
            let a = arena_address(arena, start);
            t.words.contains_key(a) == s.words.contains_key(a) && t.words[a] == s.words[a]
        }
}

/// One bind that was accepted.
pub proof fn lemma_bound_shows(b: BinderState, bind: Bind, full: Seq<u8>, base: int)
    requires
        0 <= base <= b.ops.len(),
        b.bound(bind).error is None,
        starts(b.bound(bind).blob, full),
        full.len() <= usize::MAX,
        0 <= b.cursor,
    ensures
        along(b, b.bound(bind)),
        shown(b.bound(bind), full, base).launches == shown(b, full, base).launches,
        ({
            let s = shown(b, full, base).scene;
            let t = shown(b.bound(bind), full, base).scene;
            &&& holds(t, b.arena, b.bound(bind).cursor, bind)
            &&& t.pipeline == s.pipeline
            &&& t.table == s.table
            &&& t.memory == s.memory
            &&& t.fences == s.fences
            &&& untouched(s, t, b.arena, b.cursor, slot_of(bind))
        }),
        slot_of(bind) < ARGUMENT_TABLE_MAX_BUFFERS,
{
    reveal(starts);
    reveal(untouched);
    match bind {
        Bind::Buffer { buf, index } => {
            lemma_shown_op(
                b,
                DeviceOp::SetAddress { index, address: buf.slab.address },
                full,
                base,
            );
        },
        Bind::BufferAt { buf, byte_offset, index } => {
            lemma_shown_op(
                b,
                DeviceOp::SetAddress { index, address: (buf.slab.address + byte_offset) as u64 },
                full,
                base,
            );
        },
        Bind::Bare { slab, byte_offset, index } => {
            lemma_shown_op(
                b,
                DeviceOp::SetAddress { index, address: (slab.address + byte_offset) as u64 },
                full,
                base,
            );
        },
        Bind::View { buf, byte_offset, runtime, index } => {
            lemma_shown_op(
                b,
                DeviceOp::SetAddress { index, address: (buf.slab.address + byte_offset) as u64 },
                full,
                base,
            );
        },
        Bind::U32 { value, index } => {
            lemma_word_shows(b, value, index, full, base);
        },
        Bind::F32 { bits, index } => {
            lemma_word_shows(b, bits, index, full, base);
        },
    }
}

/// One word that was bound.
proof fn lemma_word_shows(b: BinderState, value: u32, index: usize, full: Seq<u8>, base: int)
    requires
        0 <= base <= b.ops.len(),
        b.bound_bytes(word_bytes(value), index).0.error is None,
        starts(b.bound_bytes(word_bytes(value), index).0.blob, full),
        full.len() <= usize::MAX,
        0 <= b.cursor,
    ensures
        ({
            let c = b.bound_bytes(word_bytes(value), index).0;
            let s = shown(b, full, base).scene;
            let t = shown(c, full, base).scene;
            let key = (PERSISTENT_TABLE, index);
            let start = align16(b.cursor);
            let a = arena_address(b.arena, start);
            &&& along(b, c)
            &&& index < ARGUMENT_TABLE_MAX_BUFFERS
            &&& shown(c, full, base).launches == shown(b, full, base).launches
            &&& t == (Scene {
                slots: s.slots.insert(key, a),
                words: s.words.insert(a, word_bytes(value)),
                ..s
            })
            &&& b.cursor <= start < c.cursor
            &&& start <= METAL4_CONST_ARENA_BYTES
            &&& kept(t, b.arena, c.cursor, key, value)
            &&& forall|e: int| #![trigger arena_address(b.arena, e)]
                0 <= e < b.cursor ==> arena_address(b.arena, e) != a
        }),
{
    reveal(starts);
    let bytes = word_bytes(value);
    let start = align16(b.cursor);
    let a = arena_address(b.arena, start);
    assert(padded(bytes) == bytes);
    let w = b.written(bytes).0;
    let op = DeviceOp::WriteConst {
        offset: start as usize,
        from: b.blob.len() as usize,
        len: padded(bytes).len() as usize,
    };
    lemma_shown_op(b, op, full, base);
    let c = b.bound_bytes(bytes, index).0;
    assert(c.blob == w.blob);
    assert(w.blob == b.blob + bytes);
    assert(full.subrange(b.blob.len() as int, b.blob.len() as int + 4) =~= bytes) by {
        assert forall|i: int| 0 <= i < 4 implies full[b.blob.len() + i] == bytes[i] by {
            assert(w.blob[b.blob.len() + i] == full[b.blob.len() + i]);
        }
    }
    assert(start as usize == start);
    lemma_shown_op(w, DeviceOp::SetAddress { index, address: a }, full, base);
    let t = shown(c, full, base).scene;
    assert(kept(t, b.arena, c.cursor, (PERSISTENT_TABLE, index), value));
}

/// The bind is the last of the first `n` for its slot.
pub open spec fn settles(binds: Seq<Bind>, k: int, n: int) -> bool {
    &&& 0 <= k < n
    &&& forall|j: int| k < j < n ==> slot_of(#[trigger] binds[j]) != slot_of(binds[k])
}

/// Every bind of the first `n` that settles its slot is there.
#[verifier::opaque]
pub open spec fn all_held(s: Scene, arena: u64, cursor: int, binds: Seq<Bind>, n: int) -> bool {
    forall|k: int| #[trigger] settles(binds, k, n) ==> holds(s, arena, cursor, binds[k])
}

/// Binds that were accepted.
pub proof fn lemma_binds_show(b: BinderState, binds: Seq<Bind>, n: int, full: Seq<u8>, base: int)
    requires
        0 <= base <= b.ops.len(),
        0 <= n <= binds.len(),
        b.bound_to(binds, n).error is None,
        starts(b.bound_to(binds, n).blob, full),
        full.len() <= usize::MAX,
        0 <= b.cursor,
    ensures
        along(b, b.bound_to(binds, n)),
        shown(b.bound_to(binds, n), full, base).launches == shown(b, full, base).launches,
        ({
            let s = shown(b, full, base).scene;
            let t = shown(b.bound_to(binds, n), full, base).scene;
            &&& t.pipeline == s.pipeline
            &&& t.table == s.table
            &&& t.memory == s.memory
            &&& t.fences == s.fences
            &&& all_held(t, b.arena, b.bound_to(binds, n).cursor, binds, n)
        }),
    decreases n,
{
    if n <= 0 {
        reveal(starts);
        reveal(all_held);
    } else {
        let c = b.bound_to(binds, n - 1);
        lemma_bound_keeps(c, binds[n - 1]);
        lemma_starts_on(c.blob, c.bound(binds[n - 1]).blob, full);
        lemma_binds_show(b, binds, n - 1, full, base);
        lemma_bound_shows(c, binds[n - 1], full, base);
        lemma_binds_step(b, c, c.bound(binds[n - 1]), binds, n, full, base);
    }
}

pub proof fn lemma_starts_on<T>(a: Seq<T>, b: Seq<T>, c: Seq<T>)
    requires
        starts(a, b),
        starts(b, c),
    ensures
        starts(a, c),
{
    reveal(starts);
    assert forall|i: int| 0 <= i < a.len() implies a[i] == #[trigger] c[i] by {
        assert(a[i] == b[i]);
    }
}

/// One more bind.
proof fn lemma_binds_step(
    b: BinderState,
    c: BinderState,
    d: BinderState,
    binds: Seq<Bind>,
    n: int,
    full: Seq<u8>,
    base: int,
)
    requires
        0 < n <= binds.len(),
        along(b, c),
        along(c, d),
        ({
            let s = shown(c, full, base).scene;
            let t = shown(d, full, base).scene;
            &&& all_held(s, b.arena, c.cursor, binds, n - 1)
            &&& holds(t, c.arena, d.cursor, binds[n - 1])
            &&& untouched(s, t, c.arena, c.cursor, slot_of(binds[n - 1]))
        }),
    ensures
        along(b, d),
        all_held(shown(d, full, base).scene, b.arena, d.cursor, binds, n),
{
    lemma_starts_on(b.blob, c.blob, d.blob);
    lemma_starts_on(b.ops, c.ops, d.ops);
    let s = shown(c, full, base).scene;
    let t = shown(d, full, base).scene;
    reveal(all_held);
    assert forall|k: int| #[trigger] settles(binds, k, n) implies holds(
        t,
        b.arena,
        d.cursor,
        binds[k],
    ) by {
        if k < n - 1 {
            assert(settles(binds, k, n - 1));
            assert(slot_of(binds[n - 1]) != slot_of(binds[k]));
            lemma_holds_on(s, t, b.arena, c.cursor, d.cursor, binds[k], slot_of(binds[n - 1]));
        }
    }
}

/// A bind stays where it is while another slot is set.
proof fn lemma_holds_on(
    s: Scene,
    t: Scene,
    arena: u64,
    before: int,
    after: int,
    bind: Bind,
    other: usize,
)
    requires
        holds(s, arena, before, bind),
        other != slot_of(bind),
        before <= after,
        untouched(s, t, arena, before, other),
    ensures
        holds(t, arena, after, bind),
{
    reveal(untouched);
    let key = (PERSISTENT_TABLE, slot_of(bind));
    assert(t.slots.contains_key(key) && t.slots[key] == s.slots[key]);
    match bind {
        Bind::U32 { value, .. } => {
            lemma_kept_on(s, t, arena, before, after, key, value);
        },
        Bind::F32 { bits, .. } => {
            lemma_kept_on(s, t, arena, before, after, key, bits);
        },
        _ => {},
    }
}

proof fn lemma_kept_on(
    s: Scene,
    t: Scene,
    arena: u64,
    before: int,
    after: int,
    key: (u64, usize),
    value: u32,
)
    requires
        kept(s, arena, before, key, value),
        before <= after,
        t.slots[key] == s.slots[key],
        forall|start: int| #![trigger arena_address(arena, start)]
            0 <= start < before && start <= METAL4_CONST_ARENA_BYTES ==> {
                let a = arena_address(arena, start);
                t.words.contains_key(a) == s.words.contains_key(a) && t.words[a] == s.words[a]
            },
    ensures
        kept(t, arena, after, key, value),
{
    let start = choose|start: int|
        0 <= start < before && start <= METAL4_CONST_ARENA_BYTES && s.slots[key] == #[trigger]
            arena_address(arena, start) && s.words.contains_key(arena_address(arena, start))
            && s.words[arena_address(arena, start)] == word_bytes(value);
    let a = arena_address(arena, start);
    assert(t.words.contains_key(a) && t.words[a] == word_bytes(value));
}

/// A bind only adds to the payloads and keeps the first failure.
pub proof fn lemma_bound_keeps(b: BinderState, bind: Bind)
    ensures
        starts(b.blob, b.bound(bind).blob),
        b.cursor <= b.bound(bind).cursor,
        b.bound(bind).error is None ==> b.error is None,
{
    lemma_starts_itself(b.blob);
    match bind {
        Bind::U32 { value, index } => {
            lemma_bytes_keep(b, word_bytes(value), index);
        },
        Bind::F32 { bits, index } => {
            lemma_bytes_keep(b, word_bytes(bits), index);
        },
        _ => {
            assert(b.bound(bind).blob == b.blob);
            assert(b.bound(bind).cursor == b.cursor);
        },
    }
}

pub proof fn lemma_starts_itself<T>(a: Seq<T>)
    ensures
        starts(a, a),
{
    reveal(starts);
}

proof fn lemma_bytes_keep(b: BinderState, bytes: Seq<u8>, index: usize)
    ensures
        starts(b.blob, b.bound_bytes(bytes, index).0.blob),
        b.cursor <= b.bound_bytes(bytes, index).0.cursor,
        b.bound_bytes(bytes, index).0.error is None ==> b.error is None,
{
    lemma_starts_itself(b.blob);
    assert(starts(b.blob, b.blob + padded(bytes))) by {
        reveal(starts);
    }
    let s = b.indexed(index);
    assert(s.blob == b.blob);
    let w = s.written(bytes).0;
    assert(w.blob == b.blob || w.blob == b.blob + padded(bytes));
    assert(b.cursor <= align16(b.cursor) && b.cursor <= w.cursor);
    assert(b.bound_bytes(bytes, index).0.blob == w.blob || b.bound_bytes(bytes, index).0.blob
        == b.blob);
}

// ---------------------------------------------------------------- scopes ---

/// The dispatch carries its binds.
pub open spec fn carries(l: Launch, b: Bind) -> bool {
    let slot = slot_of(b) as int;
    match b {
        Bind::Buffer { buf, .. } => l.gets(slot, buf, 0),
        Bind::BufferAt { buf, byte_offset, .. } => l.gets(slot, buf, byte_offset as int),
        Bind::Bare { slab, byte_offset, .. } => l.scene.slots.contains_key(
            (l.scene.table->0, slot as usize),
        ) && l.at(slot) == slab.address + byte_offset,
        Bind::View { buf, byte_offset, .. } => l.gets(slot, buf, byte_offset as int),
        Bind::U32 { value, .. } => l.reads(slot, value),
        Bind::F32 { bits, .. } => l.reads(slot, bits),
    }
}

/// The dispatch carries every bind that settles its slot.
#[verifier::opaque]
pub open spec fn carries_all(l: Launch, binds: Seq<Bind>) -> bool {
    forall|k: int|
        #[trigger] settles(binds, k, binds.len() as int) ==> carries(l, binds[k])
}

/// The word of four bytes.
proof fn lemma_word_back(v: u32)
    ensures
        word_at(word_bytes(v), 0) == v,
{
    let v1 = v as int / 0x100;
    let v2 = v1 / 0x100;
    let v3 = v2 / 0x100;
    assert(v as int / 0x1_0000 == v2);
    assert(v as int / 0x100_0000 == v3);
    let b = word_bytes(v);
    assert(b[0] == v % 0x100);
    assert(b[1] == v1 % 0x100);
    assert(b[2] == v2 % 0x100);
    assert(b[3] == v3);
    assert(v == v1 * 0x100 + b[0] && v1 == v2 * 0x100 + b[1] && v2 == v3 * 0x100 + b[2]);
}

proof fn lemma_carries(s: Scene, groups: MtlSize, threads: MtlSize, arena: u64, cursor: int, b: Bind)
    requires
        s.table == Some(PERSISTENT_TABLE),
        holds(s, arena, cursor, b),
    ensures
        carries(Launch { scene: s, groups, threads }, b),
{
    match b {
        Bind::U32 { value, .. } => {
            lemma_word_back(value);
        },
        Bind::F32 { bits, .. } => {
            lemma_word_back(bits);
        },
        _ => {},
    }
}

/// One pipeline, its binds and a dispatch that were accepted.
pub proof fn lemma_launch_shows(
    b: BinderState,
    p: Pipeline,
    binds: Seq<Bind>,
    tg_mem: Option<(usize, usize)>,
    groups: MtlSize,
    threads: MtlSize,
    full: Seq<u8>,
    base: int,
)
    requires
        0 <= base <= b.ops.len(),
        (launch_fn(p, binds, tg_mem, groups, threads)(b)).error is None,
        starts(launch_fn(p, binds, tg_mem, groups, threads)(b).blob, full),
        full.len() <= usize::MAX,
        0 <= b.cursor,
        b.latched ==> shown(b, full, base).scene.table == Some(PERSISTENT_TABLE),
    ensures
        ({
            let d = launch_fn(p, binds, tg_mem, groups, threads)(b);
            let s = shown(b, full, base);
            let t = shown(d, full, base);
            let l = t.launches.last();
            &&& b.error is None
            &&& d.arena == b.arena
            &&& d.latched
            &&& d.cursor >= b.cursor
            &&& starts(b.ops, d.ops)
            &&& d.ops.len() >= b.ops.len()
            &&& d.runtime == b.runtime
            &&& starts(b.blob, d.blob)
            &&& d.skip_auto == b.skip_auto
            &&& t.scene.table == Some(PERSISTENT_TABLE)
            &&& t.scene.pipeline == Some(p)
            &&& l.scene.fences == s.scene.fences
            &&& t.scene.fences == s.scene.fences + (if b.skip_auto {
                0nat
            } else {
                1nat
            })
            &&& t.launches == s.launches.push(l)
            &&& l.scene.table == Some(PERSISTENT_TABLE)
            &&& l.scene.pipeline == Some(p)
            &&& l.groups == groups
            &&& l.threads == threads
            &&& carries_all(l, binds)
            &&& l.shares(tg_mem)
        }),
{
    let c0 = b.piped(p);
    let c1 = c0.bound_all(binds);
    let c2 = match tg_mem {
        Some((index, length)) => c1.with_tg_mem(index, length),
        None => c1,
    };
    let d = c2.dispatched(groups, threads);
    assert(d == launch_fn(p, binds, tg_mem, groups, threads)(b));
    assert(c2.error is None && c1.error is None);
    lemma_error_first(c0, binds, binds.len() as int);
    lemma_shown_op(b, DeviceOp::SetPipeline { pipeline: p }, full, base);
    assert(c1.blob == d.blob);
    lemma_binds_show(c0, binds, binds.len() as int, full, base);
    assert(starts(b.blob, d.blob));
    if let Some((index, length)) = tg_mem {
        lemma_shown_op(c1, DeviceOp::ThreadgroupMemory { index, length }, full, base);
    }
    let t2 = shown(c2, full, base);
    let c3 = c2.with_table();
    lemma_shown_op(c2, DeviceOp::UseTable { table: PERSISTENT_TABLE }, full, base);
    lemma_shown_op(c3, DeviceOp::Dispatch { groups, threads }, full, base);
    lemma_shown_op(
        c3.with_op(DeviceOp::Dispatch { groups, threads }),
        DeviceOp::Barrier,
        full,
        base,
    );
    assert(starts(b.ops, d.ops)) by {
        assert(starts(b.ops, c0.ops)) by {
            reveal(starts);
        }
        lemma_starts_on(b.ops, c0.ops, c1.ops);
        assert(starts(c1.ops, d.ops)) by {
            reveal(starts);
        }
        lemma_starts_on(b.ops, c1.ops, d.ops);
    }
    let t = shown(d, full, base);
    let l = t.launches.last();
    assert(t.launches == shown(b, full, base).launches.push(l));
    reveal(all_held);
    reveal(carries_all);
    assert forall|k: int| #[trigger] settles(binds, k, binds.len() as int) implies carries(
        l,
        binds[k],
    ) by {
        let s1 = shown(c1, full, base).scene;
        assert(holds(s1, b.arena, c1.cursor, binds[k]));
        assert(l.scene.slots == s1.slots && l.scene.words == s1.words);
        assert(holds(l.scene, b.arena, c1.cursor, binds[k]));
        lemma_carries(l.scene, groups, threads, b.arena, c1.cursor, binds[k]);
    }
}

/// Binds keep the first failure.
pub proof fn lemma_error_first(b: BinderState, binds: Seq<Bind>, n: int)
    ensures
        b.bound_to(binds, n).error is None ==> b.error is None,
    decreases n,
{
    if n > 0 {
        lemma_error_first(b, binds, n - 1);
        lemma_bound_keeps(b.bound_to(binds, n - 1), binds[n - 1]);
    }
}

// --------------------------------------------------- around the scopes ---

proof fn lemma_flushed_quiet(s: RuntimeState)
    ensures
        quietly(s.ops, s.flushed().ops),
{
    broadcast use group_quietly;

}

proof fn lemma_begun_quiet(s: RuntimeState)
    ensures
        quietly(s.ops, s.begun().ops),
        s.begun().blob == s.blob,
        s.begun().info == s.info,
        s.begun().kernels == s.kernels,
        s.begun().cursor == s.cursor,
        s.begun().capture == s.capture,
        s.begun().id == s.id,
        s.begun().icb == s.icb,
        s.begun().ab == s.ab,
        s.begun().async_encode == s.async_encode,
        s.begun().mid_commit == s.mid_commit,
        s.begun().trace == s.trace,
        s.begun().batch is Some,
{
    broadcast use group_quietly;

    reveal(RuntimeState::begun);
}

proof fn lemma_drained_to_quiet(s: RuntimeState, n: int)
    ensures
        quietly(s.ops, s.drained_to(n).ops),
    decreases n,
{
    broadcast use group_quietly;

    if n > 0 {
        lemma_drained_to_quiet(s, n - 1);
    }
}

proof fn lemma_drained_quiet(s: RuntimeState)
    ensures
        quietly(s.ops, s.drained().ops),
{
    broadcast use group_quietly;

    reveal(RuntimeState::drained);
    let n = s.pending.len() as int;
    lemma_drained_to_quiet(s, n);
    let t = RuntimeState { pending: Seq::empty(), ..s.drained_to(n) };
    lemma_flushed_quiet(t);
    lemma_quietly_on(s.ops, t.ops, t.flushed().ops);
}

/// A commit dispatches nothing.
pub proof fn lemma_committed_quiet(s: RuntimeState, wait: bool)
    ensures
        quietly(s.ops, s.committed(wait).ops),
{
    broadcast use group_quietly;

    reveal(RuntimeState::committed);
    match s.batch {
        None => {
            lemma_drained_quiet(s);
        },
        Some(b) => {
            if !b.cb_open {
                let c = RuntimeState { batch: None, cursor: 0, ..s.caught_up() };
                lemma_drained_quiet(c);
                lemma_quietly_on(s.ops, c.ops, c.drained().ops);
            } else {
                let stamp = wait && b.stamped_t0;
                let w = s.submitted(b, stamp);
                assert(quietly(s.ops, w.ops));
                let x = w.settled(stamp);
                assert(quietly(s.ops, x.ops));
                lemma_drained_quiet(x);
                lemma_quietly_on(s.ops, x.ops, x.drained().ops);
            }
        },
    }
}

/// Opening a scope dispatches nothing.
pub proof fn lemma_scoped_quiet(s: RuntimeState, skip: Option<bool>)
    ensures
        ({
            let (mid, b) = s.scoped(skip);
            &&& quietly(s.ops, b.ops)
            &&& b.blob == s.blob
            &&& b.arena == s.info.arena_address
            &&& b.cursor == s.cursor
            &&& b.runtime == s.id
            &&& b.error is None
            &&& !b.latched
            &&& mid.info == s.info
            &&& mid.kernels == s.kernels
            &&& mid.icb == s.icb
            &&& mid.id == s.id
            &&& mid.batch is Some
            &&& mid.async_encode == s.async_encode
            &&& b.capture == s.capture
        }),
{
    broadcast use group_quietly;

    reveal(RuntimeState::scoped);
    let a = RuntimeState { busy: true, ..s };
    let f = a.flushed();
    lemma_flushed_quiet(a);
    lemma_begun_quiet(f);
    lemma_quietly_on(s.ops, f.ops, f.begun().ops);
    lemma_quietly_push(s.ops, f.begun().ops, DeviceOp::OpenEncoder);
}

/// Closing a scope dispatches nothing.
pub proof fn lemma_unscoped_quiet(s: RuntimeState, b: BinderState)
    requires
        s.unscoped(b, None).1 is None,
    ensures
        b.error is None,
        quietly(b.ops, s.unscoped(b, None).0.ops),
        s.unscoped(b, None).0.blob == b.blob,
        s.unscoped(b, None).0.info == s.info,
        s.unscoped(b, None).0.kernels == s.kernels,
        s.unscoped(b, None).0.icb == s.icb,
        s.unscoped(b, None).0.id == s.id,
        s.unscoped(b, None).0.async_encode == s.async_encode,
        0 <= b.cursor ==> 0 <= s.unscoped(b, None).0.cursor,
{
    broadcast use group_quietly;

    reveal(RuntimeState::unscoped);
    let t = RuntimeState {
        busy: false,
        ops: b.ops,
        blob: b.blob,
        cursor: b.cursor,
        trace: b.trace,
        ..s
    };
    lemma_recording_frame(t, b.capture);
    let r = t.with_recording(b.capture);
    let batch = s.batch->0;
    let grown = ActiveBatch {
        dispatches: succ_sat(batch.dispatches),
        since_commit: succ_sat(batch.since_commit),
        ..batch
    };
    let u = RuntimeState { batch: Some(grown), ..r };
    lemma_committed_frame(u, false);
    lemma_committed_frame(u, true);
    lemma_committed_frame(u.committed(false), true);
    lemma_committed_quiet(u, false);
    lemma_committed_quiet(u, true);
    lemma_committed_quiet(u.committed(false), true);
    lemma_quietly_on(u.ops, u.committed(false).ops, u.committed(false).committed(true).ops);
}

/// What a runtime that encodes does in a scope that was accepted: `b` is the
/// binder the scope got.
pub open spec fn open_binder(rt: RuntimeState, skip: Option<bool>) -> BinderState {
    rt.scoped(skip).1
}

/// The dispatches of a scope are those of its binder.
pub proof fn lemma_scope_shows(
    rt: RuntimeState,
    skip: Option<bool>,
    f: spec_fn(BinderState) -> BinderState,
)
    requires
        !rt.icb.encode_nop,
        rt.encoded(skip, f).1 is None,
        starts(open_binder(rt, skip).ops, f(open_binder(rt, skip)).ops),
        0 <= rt.cursor ==> 0 <= f(open_binder(rt, skip)).cursor,
        starts(open_binder(rt, skip).blob, f(open_binder(rt, skip)).blob),
        f(open_binder(rt, skip)).arena == rt.info.arena_address,
    ensures
        ({
            let b = open_binder(rt, skip);
            let d = f(b);
            let t = rt.encoded(skip, f).0;
            &&& d.error is None
            &&& b.error is None
            &&& !b.latched
            &&& b.cursor == rt.cursor
            &&& b.blob == rt.blob
            &&& b.arena == rt.info.arena_address
            &&& b.runtime == rt.id
            &&& b.ops.len() >= rt.ops.len()
            &&& shown(b, t.blob, rt.ops.len() as int) == nothing()
            &&& t.blob == d.blob
            &&& steady(rt, t)
            &&& starts(rt.ops, t.ops)
            &&& launches(rt, t) == shown(d, t.blob, rt.ops.len() as int).launches
        }),
{
    let (mid, b) = rt.scoped(skip);
    lemma_scoped_quiet(rt, skip);
    let d = f(b);
    lemma_unscoped_quiet(mid, d);
    assert(b.blob.len() <= d.blob.len()) by {
        reveal(starts);
    }
    let t = rt.encoded(skip, f).0;
    assert(t == mid.unscoped(d, None).0);
    let base = rt.ops.len() as int;
    reveal(quietly);
    reveal(launches);
    lemma_seen_quiet(nothing(), b.ops, t.blob, b.arena, base, b.ops.len() as int);
    assert(starts(d.ops, t.ops) && starts(rt.ops, b.ops)) by {
        reveal(starts);
    }
    lemma_starts_on(rt.ops, b.ops, d.ops);
    lemma_starts_on(rt.ops, d.ops, t.ops);
    assert(b.ops.len() <= d.ops.len()) by {
        reveal(starts);
    }
    lemma_seen_local(nothing(), d.ops, t.ops, t.blob, b.arena, base, d.ops.len() as int);
    lemma_seen_parts(
        nothing(),
        t.ops,
        t.blob,
        b.arena,
        base,
        d.ops.len() as int,
        t.ops.len() as int,
    );
    lemma_seen_quiet(
        seen(nothing(), t.ops, t.blob, b.arena, base, d.ops.len() as int),
        t.ops,
        t.blob,
        b.arena,
        d.ops.len() as int,
        t.ops.len() as int,
    );
}

/// What encoding leaves alone.
pub open spec fn steady(rt: RuntimeState, t: RuntimeState) -> bool {
    &&& t.info == rt.info
    &&& t.kernels == rt.kernels
    &&& t.id == rt.id
    &&& t.icb.encode_nop == rt.icb.encode_nop
    &&& 0 <= rt.cursor ==> 0 <= t.cursor
    &&& rt.blob.len() <= t.blob.len()
}

/// One launch that was accepted: exactly one dispatch, of this pipeline and this
/// geometry, and each bind that settles its slot is what the kernel gets there.
pub proof fn law_launch(
    rt: RuntimeState,
    p: Pipeline,
    binds: Seq<Bind>,
    tg_mem: Option<(usize, usize)>,
    groups: MtlSize,
    threads: MtlSize,
)
    requires
        !rt.icb.encode_nop,
        0 <= rt.cursor,
        rt.launched(p, binds, tg_mem, groups, threads).1 is None,
        rt.launched(p, binds, tg_mem, groups, threads).0.blob.len() <= usize::MAX,
    ensures
        ({
            let t = rt.launched(p, binds, tg_mem, groups, threads).0;
            let l = launches(rt, t)[0];
            &&& launches(rt, t).len() == 1
            &&& l.scene.pipeline == Some(p)
            &&& l.groups == groups
            &&& l.threads == threads
            &&& carries_all(l, binds)
            &&& l.shares(tg_mem)
            &&& steady(rt, t)
            &&& starts(rt.ops, t.ops)
        }),
{
    reveal(RuntimeState::launched);
    let f = launch_fn(p, binds, tg_mem, groups, threads);
    let b = open_binder(rt, None);
    let d = f(b);
    lemma_scoped_quiet(rt, None);
    lemma_unscoped_quiet(rt.scoped(None).0, d);
    let t = rt.launched(p, binds, tg_mem, groups, threads).0;
    assert(rt.encoded(None, f).0 == t);
    assert(starts(d.blob, t.blob)) by {
        reveal(starts);
    }
    let base = rt.ops.len() as int;
    assert(base <= b.ops.len()) by {
        reveal(quietly);
    }
    lemma_launch_shows(b, p, binds, tg_mem, groups, threads, t.blob, base);
    lemma_scope_shows(rt, None, f);
}

// ------------------------------------------------------------- pipelines ---

proof fn lemma_kernel_named(kernels: Seq<crate::device::Kernel>, name: Seq<char>, o: Option<bool>, i: int)
    requires
        0 <= i,
    ensures
        ({
            let at = kernel_from(kernels, name, o, i);
            at >= 0 ==> i <= at < kernels.len() && kernels[at].name@ == name
        }),
    decreases kernels.len() - i,
{
    if i < kernels.len() {
        lemma_kernel_named(kernels, name, o, i + 1);
    }
}

/// A pipeline that was asked for by name is the kernel of that name.
pub proof fn law_pipeline(rt: RuntimeState, name: Seq<char>)
    requires
        !rt.icb.encode_nop,
        rt.kernels.len() <= usize::MAX,
    ensures
        quietly(rt.ops, rt.piped(name).0.ops),
        steady(rt, rt.piped(name).0),
        rt.piped(name).0.blob == rt.blob,
        rt.piped(name).1 matches Ok(p) ==> {
            &&& p.kernel < rt.kernels.len()
            &&& rt.kernels[p.kernel as int].name@ == name
            &&& p.thread_execution_width == rt.kernels[p.kernel as int].thread_execution_width
            &&& p.max_threads == rt.kernels[p.kernel as int].max_threads
        },
{
    broadcast use group_quietly;

    reveal(RuntimeState::piped);
    lemma_kernel_named(rt.kernels, name, None, 0);
}

/// Quiet operations before a stretch change nothing of its dispatches.
pub proof fn lemma_launches_after_quiet(rt: RuntimeState, s: RuntimeState, t: RuntimeState)
    requires
        quietly(rt.ops, s.ops),
        starts(s.ops, t.ops),
    ensures
        launches(rt, t) == launches(s, t),
{
    reveal(quietly);
    reveal(starts);
    reveal(launches);
    let a = t.info.arena_address;
    assert forall|i: int| rt.ops.len() <= i < s.ops.len() implies quiet(#[trigger] t.ops[i]) by {
        assert(s.ops[i] == t.ops[i]);
    }
    lemma_seen_quiet(nothing(), t.ops, t.blob, a, rt.ops.len() as int, s.ops.len() as int);
    lemma_seen_parts(
        nothing(),
        t.ops,
        t.blob,
        a,
        rt.ops.len() as int,
        s.ops.len() as int,
        t.ops.len() as int,
    );
}

// ------------------------------------------------------- what laws say ---

/// The runtime encodes, and what it keeps fits in memory: what it asks of the
/// device between the two states can be followed.
pub open spec fn in_view(before: RuntimeState, after: RuntimeState) -> bool {
    &&& !before.icb.encode_nop
    &&& 0 <= before.cursor
    &&& before.kernels.len() <= usize::MAX
    &&& after.blob.len() <= usize::MAX
}

/// Between the two states the device carries out one dispatch, of this kernel.
pub open spec fn ran(before: RuntimeState, after: RuntimeState, name: Seq<char>) -> bool {
    launches(before, after).len() == 1 && launches(before, after)[0].runs(before, name)
}

/// The first dispatch between the two states.
pub open spec fn dispatch(before: RuntimeState, after: RuntimeState) -> Launch {
    launches(before, after)[0]
}

/// The buffer is the runtime's own and has that many bytes.
pub open spec fn has_room(rt: RuntimeState, buf: Storage, bytes: int) -> bool {
    buf.runtime == rt.id && bytes <= buf.nbytes
}

/// A row of threads that reaches `n`, with no group to spare and no group wider
/// than the lanes that execute together.
pub open spec fn covers(l: Launch, n: int) -> bool {
    &&& l.flat()
    &&& 1 <= l.threads.width
    &&& l.threads.width <= l.width() || l.threads.width == 1
    &&& l.threads.width <= n
    &&& l.threads.width == l.width() || l.threads.width == n || l.width() == 0
    &&& n <= l.groups.width * l.threads.width
    &&& (l.groups.width - 1) * l.threads.width < n
}

/// A group for each of `rows`, one row of lanes each: a power of two, no more than
/// the pipeline and the kernel's scratch admit, as many as `cols` columns can use.
pub open spec fn a_group_each(l: Launch, rows: int, cols: int) -> bool {
    let p = l.scene.pipeline->0;
    &&& l.flat()
    &&& l.groups.width == rows
    &&& is_pow2(l.threads.width as int)
    &&& l.threads.width <= 1024
    &&& l.threads.width <= p.max_threads || l.threads.width == 1
    &&& l.threads.width < 2 * cols || l.threads.width == 1
    &&& cols <= l.threads.width || p.max_threads < 2 * l.threads.width || 1024 < 2
        * l.threads.width
}

/// The slots of the first `n` binds rise.
pub open spec fn rising(binds: Seq<Bind>, n: int) -> bool
    decreases n,
{
    n <= 1 || (rising(binds, n - 1) && slot_of(binds[n - 2]) < slot_of(binds[n - 1]))
}

/// The slots rise, from `slot` on.
pub open spec fn from_slot(binds: Seq<Bind>, slot: int) -> bool {
    rising(binds, binds.len() as int) && (binds.len() > 0 ==> slot <= slot_of(binds[0]))
}

/// The slots rise from `from` on and leave out two.
pub open spec fn beside(binds: Seq<Bind>, from: int, a: int, b: int) -> bool {
    &&& rising(binds, binds.len() as int)
    &&& forall|k: int| 0 <= k < binds.len() ==> from <= slot_of(#[trigger] binds[k])
    &&& forall|k: int| 0 <= k < binds.len() ==> slot_of(#[trigger] binds[k]) != a
    &&& forall|k: int| 0 <= k < binds.len() ==> slot_of(#[trigger] binds[k]) != b
}

/// The kernel gets all of them.
#[verifier::opaque]
pub open spec fn carried(l: Launch, binds: Seq<Bind>) -> bool {
    forall|k: int| 0 <= k < binds.len() ==> carries(l, #[trigger] binds[k])
}

pub proof fn lemma_rising_apart(binds: Seq<Bind>, n: int, i: int, j: int)
    requires
        rising(binds, n),
        0 <= i < j < n,
    ensures
        slot_of(binds[i]) < slot_of(binds[j]),
    decreases n,
{
    if j < n - 1 {
        lemma_rising_apart(binds, n - 1, i, j);
    } else if i < n - 2 {
        lemma_rising_apart(binds, n - 1, i, n - 2);
    }
}

pub proof fn lemma_rising_joined(head: Seq<Bind>, tail: Seq<Bind>, n: int)
    requires
        rising(head, head.len() as int),
        rising(tail, tail.len() as int),
        head.len() > 0 && tail.len() > 0 ==> slot_of(head.last()) < slot_of(tail[0]),
        0 <= n <= head.len() + tail.len(),
    ensures
        rising(head + tail, n),
    decreases n,
{
    let all = head + tail;
    if n > 1 {
        lemma_rising_joined(head, tail, n - 1);
        if n <= head.len() {
            lemma_rising_part(head, head.len() as int, n);
            assert(all[n - 1] == head[n - 1] && all[n - 2] == head[n - 2]);
        } else if n - 2 < head.len() {
            assert(all[n - 1] == tail[0] && all[n - 2] == head.last());
        } else {
            let k = n - head.len();
            lemma_rising_part(tail, tail.len() as int, k);
            assert(all[n - 1] == tail[k - 1] && all[n - 2] == tail[k - 2]);
        }
    }
}

proof fn lemma_rising_part(binds: Seq<Bind>, n: int, m: int)
    requires
        rising(binds, n),
        m <= n,
    ensures
        rising(binds, m),
    decreases n,
{
    if m < n && n > 1 {
        lemma_rising_part(binds, n - 1, m);
    }
}

/// Binds to rising slots all arrive.
pub proof fn lemma_carried(l: Launch, binds: Seq<Bind>)
    requires
        carries_all(l, binds),
        rising(binds, binds.len() as int),
    ensures
        carried(l, binds),
{
    reveal(carries_all);
    reveal(carried);
    let n = binds.len() as int;
    assert forall|k: int| 0 <= k < n implies carries(l, #[trigger] binds[k]) by {
        assert forall|j: int| k < j < n implies slot_of(#[trigger] binds[j]) != slot_of(
            binds[k],
        ) by {
            lemma_rising_apart(binds, n, k, j);
        }
        assert(settles(binds, k, n));
    }
}

/// Binds to rising slots and more behind them all arrive.
pub proof fn lemma_carried_joined(l: Launch, head: Seq<Bind>, tail: Seq<Bind>, slot: int)
    requires
        carries_all(l, head + tail),
        head.len() > 0,
        rising(head, head.len() as int),
        slot_of(head.last()) < slot,
        from_slot(tail, slot),
    ensures
        carried(l, head),
        carried(l, tail),
{
    lemma_rising_joined(head, tail, (head.len() + tail.len()) as int);
    lemma_carried(l, head + tail);
    reveal(carried);
    let all = head + tail;
    assert forall|k: int| 0 <= k < head.len() implies carries(l, #[trigger] head[k]) by {
        assert(all[k] == head[k]);
    }
    assert forall|k: int| 0 <= k < tail.len() implies carries(l, #[trigger] tail[k]) by {
        assert(all[head.len() + k] == tail[k]);
    }
}

/// A kernel that is launched by name, in a scope of its own.
pub proof fn lemma_named_launch(
    rt: RuntimeState,
    name: Seq<char>,
    binds: Seq<Bind>,
    tg_mem: Option<(usize, usize)>,
    groups: MtlSize,
    threads: MtlSize,
)
    requires
        !rt.icb.encode_nop,
        0 <= rt.cursor,
        rt.kernels.len() <= usize::MAX,
        rt.piped(name).1 is Ok,
        ({
            let step = rt.piped(name).0.launched(
                rt.piped(name).1->Ok_0,
                binds,
                tg_mem,
                groups,
                threads,
            );
            step.1 is None && step.0.blob.len() <= usize::MAX
        }),
    ensures
        ({
            let p = rt.piped(name).1->Ok_0;
            let t = rt.piped(name).0.launched(p, binds, tg_mem, groups, threads).0;
            let l = dispatch(rt, t);
            &&& ran(rt, t, name)
            &&& l.scene.pipeline == Some(p)
            &&& l.groups == groups
            &&& l.threads == threads
            &&& carries_all(l, binds)
            &&& l.shares(tg_mem)
            &&& steady(rt, t)
            &&& starts(rt.ops, t.ops)
        }),
{
    law_pipeline(rt, name);
    let s = rt.piped(name).0;
    let p = rt.piped(name).1->Ok_0;
    law_launch(s, p, binds, tg_mem, groups, threads);
    let t = s.launched(p, binds, tg_mem, groups, threads).0;
    lemma_launches_after_quiet(rt, s, t);
    assert(starts(rt.ops, s.ops)) by {
        reveal(quietly);
        reveal(starts);
    }
    lemma_starts_on(rt.ops, s.ops, t.ops);
}

/// A one-dimensional launch reaches each of its `n` threads.
pub proof fn lemma_row_covers(l: Launch, width: usize, n: usize)
    requires
        l.scene.pipeline is Some,
        l.scene.pipeline->0.thread_execution_width == width,
        l.groups == size3(groups_for(width, n), 1, 1),
        l.threads == size3(lanes_for(width, n), 1, 1),
        n > 0,
    ensures
        covers(l, n as int),
{
    let w = lanes_for(width, n) as int;
    crate::sizes::lemma_ceil_div_covers(n as int, w);
    let g = crate::sizes::ceil_div(n as int, w);
    assert(0 <= g <= n) by (nonlinear_arith)
        requires
            (g - 1) * w < n,
            g * w >= n,
            n > 0,
            w >= 1,
    ;
}

/// No bind behind the `k`-th, up to the `n`-th, has its slot.
pub open spec fn clear(binds: Seq<Bind>, k: int, n: int) -> bool
    decreases n - k,
{
    n <= k + 1 || (clear(binds, k, n - 1) && slot_of(binds[n - 1]) != slot_of(binds[k]))
}

proof fn lemma_clear_apart(binds: Seq<Bind>, k: int, n: int, j: int)
    requires
        clear(binds, k, n),
        k < j < n,
    ensures
        slot_of(binds[j]) != slot_of(binds[k]),
    decreases n - k,
{
    if j < n - 1 {
        lemma_clear_apart(binds, k, n - 1, j);
    }
}

/// A bind whose slot is not set again arrives.
pub proof fn lemma_pick(l: Launch, binds: Seq<Bind>, k: int)
    requires
        carries_all(l, binds),
        0 <= k < binds.len(),
        clear(binds, k, binds.len() as int),
    ensures
        carries(l, binds[k]),
{
    reveal(carries_all);
    let n = binds.len() as int;
    assert forall|j: int| k < j < n implies slot_of(#[trigger] binds[j]) != slot_of(
        binds[k],
    ) by {
        lemma_clear_apart(binds, k, n, j);
    }
    assert(settles(binds, k, n));
}

/// Of the first `n` binds, those whose slots are not set again all arrive.
pub open spec fn picked(l: Launch, binds: Seq<Bind>, n: int) -> bool
    decreases n,
{
    n <= 0 || (picked(l, binds, n - 1) && (clear(binds, n - 1, binds.len() as int) ==> carries(
        l,
        binds[n - 1],
    )))
}

/// Every bind whose slot is not set again arrives.
pub proof fn lemma_picked(l: Launch, binds: Seq<Bind>, n: int)
    requires
        carries_all(l, binds),
        0 <= n <= binds.len(),
    ensures
        picked(l, binds, n),
    decreases n,
{
    if n > 0 {
        lemma_picked(l, binds, n - 1);
        if clear(binds, n - 1, binds.len() as int) {
            lemma_pick(l, binds, n - 1);
        }
    }
}

/// Two dispatches in one scope.
pub proof fn lemma_pair_shows(rt: RuntimeState, one: PassView, two: PassView)
    requires
        !rt.icb.encode_nop,
        0 <= rt.cursor,
        rt.encoded(None, pair_fn(one, two)).1 is None,
        rt.encoded(None, pair_fn(one, two)).0.blob.len() <= usize::MAX,
    ensures
        ({
            let t = rt.encoded(None, pair_fn(one, two)).0;
            let a = launches(rt, t)[0];
            let b = launches(rt, t)[1];
            &&& launches(rt, t).len() == 2
            &&& a.scene.pipeline == Some(one.pipeline)
            &&& a.groups == one.groups
            &&& a.threads == one.threads
            &&& carries_all(a, one.binds)
            &&& b.scene.pipeline == Some(two.pipeline)
            &&& b.groups == two.groups
            &&& b.threads == two.threads
            &&& carries_all(b, two.binds)
            &&& b.behind(a)
            &&& steady(rt, t)
            &&& starts(rt.ops, t.ops)
        }),
{
    let f = pair_fn(one, two);
    let b = open_binder(rt, None);
    let d = f(b);
    lemma_scoped_quiet(rt, None);
    lemma_unscoped_quiet(rt.scoped(None).0, d);
    let t = rt.encoded(None, f).0;
    assert(base_of(rt) <= b.ops.len()) by {
        reveal(quietly);
    }
    let base = base_of(rt);
    let m = one.on(b);
    let m2 = if m.skip_auto {
        m.with_barrier()
    } else {
        m
    };
    assert(d == two.on(m2));
    let f1 = launch_fn(one.pipeline, one.binds, None, one.groups, one.threads);
    let f2 = launch_fn(two.pipeline, two.binds, None, two.groups, two.threads);
    assert(f1(b) == m);
    assert(f2(m2) == d);
    lemma_launch_keeps(m2, two.pipeline, two.binds, two.groups, two.threads);
    assert(m2.blob == m.blob);
    assert(m.error is None);
    assert(t.blob == d.blob);
    lemma_starts_itself(t.blob);
    lemma_starts_on(m.blob, d.blob, t.blob);
    lemma_launch_shows(b, one.pipeline, one.binds, None, one.groups, one.threads, t.blob, base);
    assert(shown(m2, t.blob, base).scene.table == Some(PERSISTENT_TABLE) && shown(
        m2,
        t.blob,
        base,
    ).launches == shown(m, t.blob, base).launches && shown(m2, t.blob, base).scene.fences > shown(
        b,
        t.blob,
        base,
    ).scene.fences) by {
        if m.skip_auto {
            lemma_shown_op(m, DeviceOp::Barrier, t.blob, base);
        }
    }
    assert(starts(m.ops, m2.ops)) by {
        reveal(starts);
    }
    lemma_starts_on(b.ops, m.ops, m2.ops);
    assert(m2.ops.len() >= m.ops.len() >= b.ops.len()) by {
        reveal(starts);
    }
    lemma_launch_shows(m2, two.pipeline, two.binds, None, two.groups, two.threads, t.blob, base);
    lemma_starts_on(b.ops, m2.ops, d.ops);
    lemma_starts_on(b.blob, m.blob, d.blob);
    lemma_scope_shows(rt, None, f);
    assert(shown(b, t.blob, base).launches.len() == 0);
}

/// Operations asked for so far.
pub open spec fn base_of(rt: RuntimeState) -> int {
    rt.ops.len() as int
}

/// A launch only adds to the payloads and keeps the first failure.
pub proof fn lemma_launch_keeps(
    b: BinderState,
    p: Pipeline,
    binds: Seq<Bind>,
    groups: MtlSize,
    threads: MtlSize,
)
    ensures
        ({
            let d = launch_fn(p, binds, None, groups, threads)(b);
            &&& starts(b.blob, d.blob)
            &&& b.cursor <= d.cursor
            &&& d.error is None ==> b.error is None
        }),
{
    let c = b.piped(p);
    lemma_blob_grows(c, binds, binds.len() as int);
    lemma_error_first(c, binds, binds.len() as int);
    assert(c.blob == b.blob);
    assert(c.error is None ==> b.error is None);
    let e = c.bound_all(binds);
    assert(e.dispatched(groups, threads).blob == e.blob);
    assert(e.dispatched(groups, threads).error is None ==> e.error is None);
}

pub proof fn lemma_blob_grows(b: BinderState, binds: Seq<Bind>, n: int)
    ensures
        starts(b.blob, b.bound_to(binds, n).blob),
        b.cursor <= b.bound_to(binds, n).cursor,
    decreases n,
{
    lemma_starts_itself(b.blob);
    if n > 0 {
        lemma_blob_grows(b, binds, n - 1);
        lemma_bound_keeps(b.bound_to(binds, n - 1), binds[n - 1]);
        lemma_starts_on(
            b.blob,
            b.bound_to(binds, n - 1).blob,
            b.bound_to(binds, n - 1).bound(binds[n - 1]).blob,
        );
    }
}

/// An allocation dispatches nothing.
pub proof fn lemma_allocated_quiet(rt: RuntimeState, nbytes: usize, kind: crate::tensor::BufferKind)
    ensures
        quietly(rt.ops, rt.allocated(nbytes, kind).0.ops),
        rt.allocated(nbytes, kind).0.blob == rt.blob,
        steady(rt, rt.allocated(nbytes, kind).0),
        rt.allocated(nbytes, kind).0.icb == rt.icb,
        rt.allocated(nbytes, kind).1 matches Ok(b) ==> b.nbytes == nbytes && b.runtime == rt.id,
{
    broadcast use group_quietly;

    reveal(RuntimeState::allocated);
}

/// Only operations and payloads count.
pub proof fn lemma_launches_same(rt: RuntimeState, t: RuntimeState, u: RuntimeState)
    requires
        t.ops == u.ops,
        t.blob == u.blob,
        t.info == u.info,
    ensures
        launches(rt, t) == launches(rt, u),
{
    reveal(launches);
}

/// Binds to rising slots, more that leave out two slots, and those two all arrive.
pub proof fn lemma_carried_beside(
    l: Launch,
    head: Seq<Bind>,
    mid: Seq<Bind>,
    tail: Seq<Bind>,
    from: int,
    a: int,
    b: int,
)
    requires
        carries_all(l, head + mid + tail),
        head.len() > 0,
        rising(head, head.len() as int),
        slot_of(head.last()) < from,
        beside(mid, from, a, b),
        rising(tail, tail.len() as int),
        forall|k: int|
            0 <= k < tail.len() ==> (slot_of(#[trigger] tail[k]) == a || slot_of(tail[k]) == b)
                && from <= slot_of(tail[k]),
    ensures
        carried(l, head),
        carried(l, mid),
        carried(l, tail),
{
    let all = head + mid + tail;
    let n = all.len() as int;
    let h = head.len() as int;
    let m = mid.len() as int;
    assert forall|k: int| 0 <= k < n implies #[trigger] settles(all, k, n) by {
        assert forall|j: int| k < j < n implies slot_of(#[trigger] all[j]) != slot_of(all[k]) by {
            if j < h {
                lemma_rising_apart(head, h, k, j);
                assert(all[k] == head[k] && all[j] == head[j]);
            } else {
                if j < h + m {
                    assert(all[j] == mid[j - h]);
                } else {
                    assert(all[j] == tail[j - h - m]);
                }
                if k < h {
                    assert(all[k] == head[k]);
                    if k < h - 1 {
                        lemma_rising_apart(head, h, k, h - 1);
                    }
                } else if k < h + m {
                    assert(all[k] == mid[k - h]);
                    if j < h + m {
                        lemma_rising_apart(mid, m, k - h, j - h);
                    }
                } else {
                    assert(all[k] == tail[k - h - m]);
                    lemma_rising_apart(tail, tail.len() as int, k - h - m, j - h - m);
                }
            }
        }
    }
    reveal(carries_all);
    reveal(carried);
    assert forall|k: int| 0 <= k < h implies carries(l, #[trigger] head[k]) by {
        assert(settles(all, k, n) && all[k] == head[k]);
    }
    assert forall|k: int| 0 <= k < m implies carries(l, #[trigger] mid[k]) by {
        assert(settles(all, h + k, n) && all[h + k] == mid[k]);
    }
    assert forall|k: int| 0 <= k < tail.len() implies carries(l, #[trigger] tail[k]) by {
        assert(settles(all, h + m + k, n) && all[h + m + k] == tail[k]);
    }
}

/// Binds and a dispatch that were accepted, on the pipeline in force.
pub proof fn lemma_pass_shows(
    b: BinderState,
    binds: Seq<Bind>,
    groups: MtlSize,
    threads: MtlSize,
    full: Seq<u8>,
    base: int,
)
    requires
        0 <= base <= b.ops.len(),
        b.bound_all(binds).dispatched(groups, threads).error is None,
        starts(b.bound_all(binds).dispatched(groups, threads).blob, full),
        full.len() <= usize::MAX,
        0 <= b.cursor,
        b.latched ==> shown(b, full, base).scene.table == Some(PERSISTENT_TABLE),
    ensures
        ({
            let d = b.bound_all(binds).dispatched(groups, threads);
            let s = shown(b, full, base);
            let t = shown(d, full, base);
            let l = t.launches.last();
            &&& b.error is None
            &&& d.arena == b.arena
            &&& d.latched
            &&& d.cursor >= b.cursor
            &&& starts(b.ops, d.ops)
            &&& d.ops.len() >= b.ops.len()
            &&& starts(b.blob, d.blob)
            &&& d.skip_auto == b.skip_auto
            &&& t.scene.table == Some(PERSISTENT_TABLE)
            &&& t.scene.pipeline == s.scene.pipeline
            &&& l.scene.fences == s.scene.fences
            &&& t.scene.fences == s.scene.fences + (if b.skip_auto {
                0nat
            } else {
                1nat
            })
            &&& t.launches == s.launches.push(l)
            &&& l.scene.table == Some(PERSISTENT_TABLE)
            &&& l.scene.pipeline == s.scene.pipeline
            &&& l.groups == groups
            &&& l.threads == threads
            &&& carries_all(l, binds)
        }),
{
    let c1 = b.bound_all(binds);
    let d = c1.dispatched(groups, threads);
    assert(c1.error is None);
    lemma_error_first(b, binds, binds.len() as int);
    assert(c1.blob == d.blob);
    lemma_binds_show(b, binds, binds.len() as int, full, base);
    let c3 = c1.with_table();
    lemma_shown_op(c1, DeviceOp::UseTable { table: PERSISTENT_TABLE }, full, base);
    lemma_shown_op(c3, DeviceOp::Dispatch { groups, threads }, full, base);
    lemma_shown_op(
        c3.with_op(DeviceOp::Dispatch { groups, threads }),
        DeviceOp::Barrier,
        full,
        base,
    );
    assert(starts(c1.ops, d.ops)) by {
        reveal(starts);
    }
    lemma_starts_on(b.ops, c1.ops, d.ops);
    let t = shown(d, full, base);
    let l = t.launches.last();
    assert(t.launches == shown(b, full, base).launches.push(l));
    reveal(all_held);
    reveal(carries_all);
    assert forall|k: int| #[trigger] settles(binds, k, binds.len() as int) implies carries(
        l,
        binds[k],
    ) by {
        let s1 = shown(c1, full, base).scene;
        assert(holds(s1, b.arena, c1.cursor, binds[k]));
        assert(l.scene.slots == s1.slots && l.scene.words == s1.words);
        assert(holds(l.scene, b.arena, c1.cursor, binds[k]));
        lemma_carries(l.scene, groups, threads, b.arena, c1.cursor, binds[k]);
    }
}

} // verus!
