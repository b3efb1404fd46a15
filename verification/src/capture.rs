//! Recording of dispatches, for replay from an indirect command buffer.

use vstd::prelude::*;

use crate::device::{MtlSize, Pipeline};
use crate::tensor::{GpuBuffer, Storage};

verus! {

/// One argument-table bind of a recorded command.
pub enum DecodeIcbBind {
    /// Stable storage.
    Buf {
        index: usize,
        buf: Storage,
        byte_offset: usize,
        /// Device address of the bound byte.
        gpu_addr: u64,
    },
    /// Constant bytes, as they were when recorded.
    Immediate { index: usize, bytes: Vec<u8> },
}

/// A bind as data.
#[verifier::ext_equal]
pub enum BindView {
    Buf { index: usize, buf: Storage, byte_offset: usize, gpu_addr: u64 },
    Immediate { index: usize, bytes: Seq<u8> },
}

impl BindView {
    /// Table slot of the bind.
    pub open spec fn slot(self) -> usize {
        match self {
            BindView::Buf { index, .. } => index,
            BindView::Immediate { index, .. } => index,
        }
    }
}

impl View for DecodeIcbBind {
    type V = BindView;

    open spec fn view(&self) -> BindView {
        match *self {
            DecodeIcbBind::Buf { index, buf, byte_offset, gpu_addr } => BindView::Buf {
                index,
                buf,
                byte_offset,
                gpu_addr,
            },
            DecodeIcbBind::Immediate { index, bytes } => BindView::Immediate { index, bytes: bytes@ },
        }
    }
}

/// The binds as data.
pub open spec fn bind_views(binds: Seq<DecodeIcbBind>) -> Seq<BindView> {
    Seq::new(binds.len(), |i: int| binds[i]@)
}

/// One recorded compute dispatch: pipeline, grid and binds.
pub struct DecodeIcbCommand {
    pub pipeline: Pipeline,
    pub threadgroups: MtlSize,
    pub threads_per_tg: MtlSize,
    pub binds: Vec<DecodeIcbBind>,
    pub tg_mem: Option<(usize, usize)>,
    /// Hot buffers made for immediate binds.
    pub owned_immediates: Vec<GpuBuffer>,
    /// A device barrier follows the dispatch.
    pub barrier_after: bool,
}

/// A command as data.
#[verifier::ext_equal]
pub struct CommandView {
    pub pipeline: Pipeline,
    pub threadgroups: MtlSize,
    pub threads_per_tg: MtlSize,
    pub binds: Seq<BindView>,
    pub tg_mem: Option<(usize, usize)>,
    pub owned_immediates: Seq<Storage>,
    pub barrier_after: bool,
}

impl View for DecodeIcbCommand {
    type V = CommandView;

    open spec fn view(&self) -> CommandView {
        CommandView {
            pipeline: self.pipeline,
            threadgroups: self.threadgroups,
            threads_per_tg: self.threads_per_tg,
            binds: bind_views(self.binds@),
            tg_mem: self.tg_mem,
            owned_immediates: storages(self.owned_immediates@),
            barrier_after: self.barrier_after,
        }
    }
}

/// What handles name.
pub open spec fn storages(buffers: Seq<GpuBuffer>) -> Seq<Storage> {
    Seq::new(buffers.len(), |i: int| buffers[i]@)
}

/// The commands as data.
pub open spec fn command_views(commands: Seq<DecodeIcbCommand>) -> Seq<CommandView> {
    Seq::new(commands.len(), |i: int| commands[i]@)
}

/// Device address of byte `byte_offset` of a buffer.
pub open spec fn buf_address(buf: Storage, byte_offset: usize) -> u64 {
    ((buf.slab.address + byte_offset) % 0x1_0000_0000_0000_0000) as u64
}

/// Device address of byte `byte_offset` of a buffer.
pub fn buf_gpu_addr(buf: &Storage, byte_offset: usize) -> (r: u64)
    ensures
        r == buf_address(*buf, byte_offset),
{
    buf.slab.address.wrapping_add(byte_offset as u64)
}

/// A recording in progress, as data.
#[verifier::ext_equal]
pub struct CaptureView {
    pub commands: Seq<CommandView>,
    pub pipeline: Option<Pipeline>,
    pub binds: Seq<BindView>,
    pub tg_mem: Option<(usize, usize)>,
    pub complete: bool,
    /// Buffers bound since the runtime last counted, a handle to be taken of each.
    pub fresh: Seq<Storage>,
    /// Buffers the recording has a handle of.
    pub kept: Seq<Storage>,
}

/// Position of the bind of slot `index` among the first `n`, or -1.
pub open spec fn slot_position(binds: Seq<BindView>, index: usize, i: int) -> int
    decreases binds.len() - i,
{
    if i < 0 || i >= binds.len() {
        -1
    } else if binds[i].slot() == index {
        i
    } else {
        slot_position(binds, index, i + 1)
    }
}

/// `binds` with `bind` in its slot: replacing the first bind of that slot, or
/// appended.
pub open spec fn rebound(binds: Seq<BindView>, bind: BindView) -> Seq<BindView> {
    let at = slot_position(binds, bind.slot(), 0);
    if 0 <= at < binds.len() {
        binds.update(at, bind)
    } else {
        binds.push(bind)
    }
}

/// An empty recording.
pub open spec fn empty_capture() -> CaptureView {
    CaptureView {
        commands: Seq::empty(),
        pipeline: None,
        binds: Seq::empty(),
        tg_mem: None,
        complete: true,
        fresh: Seq::empty(),
        kept: Seq::empty(),
    }
}

impl CaptureView {
    /// After a pipeline was set: binds start over.
    pub open spec fn noted_pipeline(self, p: Pipeline) -> CaptureView {
        CaptureView { pipeline: Some(p), binds: Seq::empty(), tg_mem: None, ..self }
    }

    /// After a bind.
    pub open spec fn noted_bind(self, bind: BindView) -> CaptureView {
        CaptureView {
            binds: rebound(self.binds, bind),
            fresh: match bind {
                BindView::Buf { buf, .. } => self.fresh.push(buf),
                BindView::Immediate { .. } => self.fresh,
            },
            ..self
        }
    }

    /// After a bind that cannot be recorded.
    pub open spec fn noted_unrecordable(self) -> CaptureView {
        CaptureView { complete: false, ..self }
    }

    /// After threadgroup memory was set.
    pub open spec fn noted_tg_mem(self, index: usize, length: usize) -> CaptureView {
        CaptureView { tg_mem: Some((index, length)), ..self }
    }

    /// After a dispatch: a command with the binds so far, which are used up.
    /// Without a pipeline nothing is recorded.
    pub open spec fn noted_dispatch(self, groups: MtlSize, threads: MtlSize) -> CaptureView {
        match self.pipeline {
            None => self,
            Some(p) => CaptureView {
                commands: self.commands.push(
                    CommandView {
                        pipeline: p,
                        threadgroups: groups,
                        threads_per_tg: threads,
                        binds: self.binds,
                        tg_mem: self.tg_mem,
                        owned_immediates: Seq::empty(),
                        barrier_after: false,
                    },
                ),
                binds: Seq::empty(),
                tg_mem: None,
                ..self
            },
        }
    }

    /// After a barrier: it follows the last command, if there is one.
    pub open spec fn noted_barrier(self) -> CaptureView {
        if self.commands.len() == 0 {
            self
        } else {
            let last = self.commands.len() - 1;
            CaptureView {
                commands: self.commands.update(
                    last,
                    CommandView { barrier_after: true, ..self.commands[last] },
                ),
                ..self
            }
        }
    }
}

/// Host-side recording of dispatches.
pub struct DecodeIcbCapture {
    commands: Vec<DecodeIcbCommand>,
    current_pipeline: Option<Pipeline>,
    current_binds: Vec<DecodeIcbBind>,
    current_tg_mem: Option<(usize, usize)>,
    complete: bool,
    fresh: Vec<Storage>,
    kept: Vec<Storage>,
}

/// Handles of the buffers that a tape binds, one for each. Given up by
/// [`crate::runtime::GpuRuntime::let_go`].
#[derive(Debug)]
pub struct TapeHold {
    kept: Vec<Storage>,
}

impl View for TapeHold {
    type V = Seq<Storage>;

    closed spec fn view(&self) -> Seq<Storage> {
        self.kept@
    }
}

impl TapeHold {
    /// The handles the runtime has counted for a tape.
    pub(crate) fn new(kept: Vec<Storage>) -> (r: TapeHold)
        ensures
            r@ == kept@,
    {
        TapeHold { kept }
    }

    /// What the handles name.
    pub(crate) fn into_kept(self) -> (r: Vec<Storage>)
        ensures
            r@ == self@,
    {
        self.kept
    }
}

impl View for DecodeIcbCapture {
    type V = CaptureView;

    closed spec fn view(&self) -> CaptureView {
        CaptureView {
            commands: command_views(self.commands@),
            pipeline: self.current_pipeline,
            binds: bind_views(self.current_binds@),
            tg_mem: self.current_tg_mem,
            complete: self.complete,
            fresh: self.fresh@,
            kept: self.kept@,
        }
    }
}

/// Copy of bytes.
pub fn copy_bytes(bytes: &[u8]) -> (r: Vec<u8>)
    ensures
        r@ == bytes@,
{
    let mut r: Vec<u8> = Vec::new();
    let mut i: usize = 0;
    while i < bytes.len()
        invariant
            i <= bytes@.len(),
            r@ == bytes@.take(i as int),
        decreases bytes@.len() - i,
    {
        r.push(bytes[i]);
        assert(bytes@.take(i + 1) == bytes@.take(i as int).push(bytes@[i as int]));
        i += 1;
    }
    assert(bytes@.take(i as int) == bytes@);
    r
}

impl DecodeIcbBind {
    /// Table slot of the bind.
    pub fn slot(&self) -> (r: usize)
        ensures
            r == self@.slot(),
    {
        match self {
            DecodeIcbBind::Buf { index, .. } => *index,
            DecodeIcbBind::Immediate { index, .. } => *index,
        }
    }

    /// An equal bind.
    pub fn duplicate(&self) -> (r: DecodeIcbBind)
        ensures
            r@ == self@,
    {
        match self {
            DecodeIcbBind::Buf { index, buf, byte_offset, gpu_addr } => DecodeIcbBind::Buf {
                index: *index,
                buf: *buf,
                byte_offset: *byte_offset,
                gpu_addr: *gpu_addr,
            },
            DecodeIcbBind::Immediate { index, bytes } => DecodeIcbBind::Immediate {
                index: *index,
                bytes: copy_bytes(bytes.as_slice()),
            },
        }
    }
}

impl DecodeIcbCapture {
    /// An empty recording.
    pub fn new() -> (c: DecodeIcbCapture)
        ensures
            c@ == empty_capture(),
    {
        let c = DecodeIcbCapture {
            commands: Vec::new(),
            current_pipeline: None,
            current_binds: Vec::new(),
            current_tg_mem: None,
            complete: true,
            fresh: Vec::new(),
            kept: Vec::new(),
        };
        assert(c@ =~= empty_capture());
        c
    }

    /// Every bind so far could be recorded.
    pub fn is_complete(&self) -> (r: bool)
        ensures
            r == self@.complete,
    {
        self.complete
    }

    /// The recorded commands.
    pub fn commands(&self) -> (r: &Vec<DecodeIcbCommand>)
        ensures
            command_views(r@) == self@.commands,
    {
        &self.commands
    }

    /// The recorded commands, and the handles of the buffers they bind.
    pub fn into_commands(self) -> (r: (Vec<DecodeIcbCommand>, TapeHold))
        ensures
            command_views(r.0@) == self@.commands,
            r.1@ == self@.kept,
    {
        let DecodeIcbCapture { commands, kept, .. } = self;
        (commands, TapeHold::new(kept))
    }

    /// The handles of what was bound so far have been taken.
    pub(crate) fn settle(&mut self, taken: &mut Vec<Storage>)
        ensures
            final(self)@ == (CaptureView {
                fresh: Seq::empty(),
                kept: old(self)@.kept + old(taken)@,
                ..old(self)@
            }),
    {
        self.fresh = Vec::new();
        self.kept.append(taken);
        assert(self@ =~= (CaptureView {
            fresh: Seq::empty(),
            kept: old(self)@.kept + old(taken)@,
            ..old(self)@
        }));
    }

    /// What was bound since the runtime last counted.
    pub(crate) fn fresh(&self) -> (r: &Vec<Storage>)
        ensures
            r@ == self@.fresh,
    {
        &self.fresh
    }

    /// Records a pipeline change.
    pub fn note_pipeline(&mut self, p: Pipeline)
        ensures
            final(self)@ == old(self)@.noted_pipeline(p),
    {
        self.current_pipeline = Some(p);
        self.current_binds = Vec::new();
        self.current_tg_mem = None;
        assert(self@ =~= old(self)@.noted_pipeline(p));
    }

    fn rebind(&mut self, bind: DecodeIcbBind)
        ensures
            final(self)@ == old(self)@.noted_bind(bind@),
    {
        let index: usize = bind.slot();
        match &bind {
            DecodeIcbBind::Buf { buf, .. } => self.fresh.push(*buf),
            DecodeIcbBind::Immediate { .. } => {},
        }
        let ghost noted = *self;
        let ghost views = bind_views(self.current_binds@);
        let mut i: usize = 0;
        while i < self.current_binds.len()
            invariant
                *self == noted,
                noted == (DecodeIcbCapture { fresh: noted.fresh, ..*old(self) }),
                noted.fresh@ == old(self)@.noted_bind(bind@).fresh,
                i <= self.current_binds@.len(),
                index == bind@.slot(),
                views == bind_views(self.current_binds@),
                slot_position(views, index, 0) == slot_position(views, index, i as int),
            decreases self.current_binds@.len() - i,
        {
            if self.current_binds[i].slot() == index {
                let ghost b = bind@;
                self.current_binds[i] = bind;
                assert(bind_views(self.current_binds@) =~= views.update(i as int, b));
                assert(self@ =~= old(self)@.noted_bind(b));
                return;
            }
            i += 1;
        }
        let ghost b = bind@;
        self.current_binds.push(bind);
        assert(bind_views(self.current_binds@) =~= views.push(b));
        assert(self@ =~= old(self)@.noted_bind(b));
    }

    /// Records a buffer bind.
    pub fn note_bind(&mut self, index: usize, buf: &GpuBuffer, byte_offset: usize)
        ensures
            final(self)@ == old(self)@.noted_bind(
                BindView::Buf {
                    index,
                    buf: buf@,
                    byte_offset,
                    gpu_addr: buf_address(buf@, byte_offset),
                },
            ),
    {
        self.note_storage(index, buf.at(), byte_offset);
    }

    /// Records a bind of what a handle names.
    pub(crate) fn note_storage(&mut self, index: usize, buf: Storage, byte_offset: usize)
        ensures
            final(self)@ == old(self)@.noted_bind(
                BindView::Buf {
                    index,
                    buf,
                    byte_offset,
                    gpu_addr: buf_address(buf, byte_offset),
                },
            ),
    {
        let gpu_addr: u64 = buf_gpu_addr(&buf, byte_offset);
        self.rebind(DecodeIcbBind::Buf { index, buf, byte_offset, gpu_addr });
    }

    /// Records constant bytes.
    pub fn note_immediate(&mut self, index: usize, bytes: &[u8])
        ensures
            final(self)@ == old(self)@.noted_bind(BindView::Immediate { index, bytes: bytes@ }),
    {
        let bytes = copy_bytes(bytes);
        self.rebind(DecodeIcbBind::Immediate { index, bytes });
    }

    /// Records that a bind happened which the tape cannot hold.
    pub fn note_unrecordable(&mut self)
        ensures
            final(self)@ == old(self)@.noted_unrecordable(),
    {
        self.complete = false;
    }

    /// Records threadgroup memory.
    pub fn note_tg_mem(&mut self, index: usize, length: usize)
        ensures
            final(self)@ == old(self)@.noted_tg_mem(index, length),
    {
        self.current_tg_mem = Some((index, length));
    }

    /// Records a dispatch.
    pub fn note_dispatch(&mut self, threadgroups: MtlSize, threads_per_tg: MtlSize)
        ensures
            final(self)@ == old(self)@.noted_dispatch(threadgroups, threads_per_tg),
    {
        let pipeline = match self.current_pipeline {
            Some(p) => p,
            None => {
                return;
            },
        };
        let mut binds: Vec<DecodeIcbBind> = Vec::new();
        std::mem::swap(&mut binds, &mut self.current_binds);
        let command = DecodeIcbCommand {
            pipeline,
            threadgroups,
            threads_per_tg,
            binds,
            tg_mem: self.current_tg_mem,
            owned_immediates: Vec::new(),
            barrier_after: false,
        };
        self.current_tg_mem = None;
        let ghost c = command@;
        self.commands.push(command);
        proof {
            assert(c.owned_immediates =~= Seq::<Storage>::empty());
            assert(self@ =~= old(self)@.noted_dispatch(threadgroups, threads_per_tg));
        }
    }

    /// Records a barrier after the last command.
    pub fn note_barrier_after(&mut self)
        ensures
            final(self)@ == old(self)@.noted_barrier(),
    {
        let n: usize = self.commands.len();
        if n > 0 {
            let mut last = self.commands.pop().unwrap();
            last.barrier_after = true;
            self.commands.push(last);
        }
        proof {
            assert(self@ =~= old(self)@.noted_barrier());
        }
    }
}

/// Rebinding a slot leaves one bind in it, and every other slot's bind where it
/// was.
pub proof fn law_rebinding_is_last_write_wins(binds: Seq<BindView>, bind: BindView, i: int)
    requires
        0 <= i < binds.len(),
        binds[i].slot() != bind.slot(),
    ensures
        i < rebound(binds, bind).len(),
        rebound(binds, bind)[i] == binds[i],
        exists|k: int| 0 <= k < rebound(binds, bind).len() && rebound(binds, bind)[k] == bind,
{
    lemma_slot_position(binds, bind.slot(), 0);
    let at = slot_position(binds, bind.slot(), 0);
    if 0 <= at < binds.len() {
        assert(rebound(binds, bind)[at] == bind);
    } else {
        assert(rebound(binds, bind)[binds.len() as int] == bind);
    }
}

proof fn lemma_slot_position(binds: Seq<BindView>, index: usize, i: int)
    requires
        0 <= i,
    ensures
        ({
            let at = slot_position(binds, index, i);
            at == -1 || (i <= at < binds.len() && binds[at].slot() == index)
        }),
    decreases binds.len() - i,
{
    if i < binds.len() && binds[i].slot() != index {
        lemma_slot_position(binds, index, i + 1);
    }
}

} // verus!
