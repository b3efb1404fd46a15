//! Ping-pong ledger for encode-once replay: two slots of bookkeeping, the plan
//! of stable argument slots, and the bridge to a recorded graph.
//!
//! Recording a command buffer again starts it afresh, so a prior encoding can be
//! replayed only from an indirect command buffer. While no graph is attached,
//! [`PingPongCbReplay::try_replay`] says so and callers encode live.

use vstd::prelude::*;

use crate::decode_icb::graph::{DecodeIcb, GraphView};
use crate::decode_icb::replay::execute_step;
use crate::decode_icb::tape::{bump, bumped};
use crate::icb_flags::IcbFlags;
use crate::runtime::GpuRuntime;
use crate::state::RuntimeState;
use crate::text::{bool_str, bool_text, decimal, owned, reports, Msg};

verus! {

// ---------------------------------------------------------------- survey ---

/// What keeps a plain replay of a prior encoding out of reach.
#[derive(Clone, Copy, Debug, PartialEq, Eq, Structural)]
pub enum CbReplayApiGap {
    /// A command buffer has begin, end and commit, and no replay.
    Mtl4CbHasNoReplayApi,
    /// The largest decode graphs are not recorded yet.
    IcbDecodeGraphNotMigrated,
    /// Every command pays a table switch by default; frozen binds do not, and
    /// are opt-in.
    IcbClassicBindsVsMtl4ArgumentTable,
}

impl CbReplayApiGap {
    /// The gap in words.
    pub open spec fn text(self) -> Seq<char> {
        match self {
            CbReplayApiGap::Mtl4CbHasNoReplayApi =>
                "MTL4CommandBuffer has no replay-prior-encoding API (begin+allocator re-records); path is compute ICB only"@,
            CbReplayApiGap::IcbDecodeGraphNotMigrated =>
                "mini+E4B Hot DecodeIcb layer-graph capture→from_commands+skip landed (flags default OFF); 31B session graph not migrated"@,
            CbReplayApiGap::IcbClassicBindsVsMtl4ArgumentTable =>
                "DecodeIcb default: inheritBuffers+prebuilt arg-tables (setArgumentTable × cmds; last_setAddress=0). Opt-in freeze/range/coarse (v0.5.7–0.5.9) PARKED: setArgTable=0 + execute_icb ranges, but product tok/s loses vs prebuilt — prefer prebuilt; flags default OFF"@,
        }
    }

    /// The gap in words.
    pub fn as_str(self) -> (r: &'static str)
        ensures
            r@ == self.text(),
    {
        match self {
            CbReplayApiGap::Mtl4CbHasNoReplayApi => {
                "MTL4CommandBuffer has no replay-prior-encoding API (begin+allocator re-records); path is compute ICB only"
            },
            CbReplayApiGap::IcbDecodeGraphNotMigrated => {
                "mini+E4B Hot DecodeIcb layer-graph capture→from_commands+skip landed (flags default OFF); 31B session graph not migrated"
            },
            CbReplayApiGap::IcbClassicBindsVsMtl4ArgumentTable => {
                "DecodeIcb default: inheritBuffers+prebuilt arg-tables (setArgumentTable × cmds; last_setAddress=0). Opt-in freeze/range/coarse (v0.5.7–0.5.9) PARKED: setArgTable=0 + execute_icb ranges, but product tok/s loses vs prebuilt — prefer prebuilt; flags default OFF"
            },
        }
    }
}

/// The gaps, hardest first.
pub fn survey_cb_replay_api_gaps() -> (r: [CbReplayApiGap; 3])
    ensures
        r@ == seq![
            CbReplayApiGap::Mtl4CbHasNoReplayApi,
            CbReplayApiGap::IcbDecodeGraphNotMigrated,
            CbReplayApiGap::IcbClassicBindsVsMtl4ArgumentTable,
        ],
{
    [
        CbReplayApiGap::Mtl4CbHasNoReplayApi,
        CbReplayApiGap::IcbDecodeGraphNotMigrated,
        CbReplayApiGap::IcbClassicBindsVsMtl4ArgumentTable,
    ]
}

/// The texts of all gaps, hardest first.
pub open spec fn gap_summary() -> Seq<char> {
    CbReplayApiGap::Mtl4CbHasNoReplayApi.text() + "; "@
        + CbReplayApiGap::IcbDecodeGraphNotMigrated.text() + "; "@
        + CbReplayApiGap::IcbClassicBindsVsMtl4ArgumentTable.text()
}

/// The gaps in one line, hardest first.
pub fn cb_replay_api_gap_summary() -> (r: String)
    ensures
        r@ == gap_summary(),
{
    let gaps = survey_cb_replay_api_gaps();
    Msg::new(gaps[0].as_str()).text("; ").text(gaps[1].as_str()).text("; ").text(
        gaps[2].as_str(),
    ).done()
}

/// `word` stands in `text` from character `at` on.
pub open spec fn stands_at(text: Seq<char>, word: Seq<char>, at: int) -> bool {
    0 <= at && at + word.len() <= text.len() && text.subrange(at, at + word.len()) == word
}

/// `word` stands somewhere in `text`.
pub open spec fn mentions(text: Seq<char>, word: Seq<char>) -> bool {
    exists|at: int| #[trigger] stands_at(text, word, at)
}

spec fn one_line(text: Seq<char>) -> bool {
    forall|i: int| 0 <= i < text.len() ==> #[trigger] text[i] != '\n'
}

#[verifier::spinoff_prover]
#[verifier::rlimit(60)]
proof fn lemma_first_gap()
    ensures
        one_line(CbReplayApiGap::Mtl4CbHasNoReplayApi.text()),
        stands_at(CbReplayApiGap::Mtl4CbHasNoReplayApi.text(), "MTL4CommandBuffer"@, 0),
{
    reveal_strlit(
        "MTL4CommandBuffer has no replay-prior-encoding API (begin+allocator re-records); path is compute ICB only",
    );
    reveal_strlit("MTL4CommandBuffer");
    let t = CbReplayApiGap::Mtl4CbHasNoReplayApi.text();
    assert(t.subrange(0, 17) =~= "MTL4CommandBuffer"@);
}

#[verifier::spinoff_prover]
#[verifier::rlimit(60)]
proof fn lemma_second_gap()
    ensures
        one_line(CbReplayApiGap::IcbDecodeGraphNotMigrated.text()),
{
    reveal_strlit(
        "mini+E4B Hot DecodeIcb layer-graph capture→from_commands+skip landed (flags default OFF); 31B session graph not migrated",
    );
}

#[verifier::spinoff_prover]
#[verifier::rlimit(60)]
proof fn lemma_third_gap()
    ensures
        one_line(CbReplayApiGap::IcbClassicBindsVsMtl4ArgumentTable.text()),
        stands_at(CbReplayApiGap::IcbClassicBindsVsMtl4ArgumentTable.text(), "DecodeIcb"@, 0),
        stands_at(
            CbReplayApiGap::IcbClassicBindsVsMtl4ArgumentTable.text(),
            "inheritBuffers"@,
            19,
        ),
{
    reveal_strlit(
        "DecodeIcb default: inheritBuffers+prebuilt arg-tables (setArgumentTable × cmds; last_setAddress=0). Opt-in freeze/range/coarse (v0.5.7–0.5.9) PARKED: setArgTable=0 + execute_icb ranges, but product tok/s loses vs prebuilt — prefer prebuilt; flags default OFF",
    );
    reveal_strlit("DecodeIcb");
    reveal_strlit("inheritBuffers");
    let t = CbReplayApiGap::IcbClassicBindsVsMtl4ArgumentTable.text();
    assert(t.subrange(0, 9) =~= "DecodeIcb"@);
    assert(t.subrange(19, 33) =~= "inheritBuffers"@);
}

proof fn lemma_stands_in(
    before: Seq<char>,
    text: Seq<char>,
    after: Seq<char>,
    word: Seq<char>,
    at: int,
)
    requires
        stands_at(text, word, at),
    ensures
        stands_at(before + text + after, word, before.len() + at),
{
    let whole = before + text + after;
    let from = before.len() + at;
    assert(whole.subrange(from, from + word.len()) =~= text.subrange(at, at + word.len()));
}

/// The summary is one line. It starts with the hardest gap and names the command
/// buffer, the inherited binds and the graph.
pub proof fn law_the_summary_is_one_line()
    ensures
        forall|i: int| 0 <= i < gap_summary().len() ==> #[trigger] gap_summary()[i] != '\n',
        stands_at(gap_summary(), CbReplayApiGap::Mtl4CbHasNoReplayApi.text(), 0),
        mentions(gap_summary(), "MTL4CommandBuffer"@),
        mentions(gap_summary(), "inheritBuffers"@),
        mentions(gap_summary(), "DecodeIcb"@),
{
    let one = CbReplayApiGap::Mtl4CbHasNoReplayApi.text();
    let two = CbReplayApiGap::IcbDecodeGraphNotMigrated.text();
    let three = CbReplayApiGap::IcbClassicBindsVsMtl4ArgumentTable.text();
    let whole = gap_summary();
    let head = one + "; "@ + two + "; "@;
    let none = Seq::<char>::empty();
    lemma_first_gap();
    lemma_second_gap();
    lemma_third_gap();
    reveal_strlit("; ");
    let tail = "; "@ + two + "; "@ + three;
    assert(whole =~= none + one + tail);
    assert(whole =~= head + three + none);
    assert(one.subrange(0, one.len() as int) =~= one);
    lemma_stands_in(none, one, tail, one, 0);
    lemma_stands_in(none, one, tail, "MTL4CommandBuffer"@, 0);
    lemma_stands_in(head, three, none, "DecodeIcb"@, 0);
    lemma_stands_in(head, three, none, "inheritBuffers"@, 19);
    assert forall|i: int| 0 <= i < whole.len() implies #[trigger] whole[i] != '\n' by {
        if i < one.len() {
            assert(whole[i] == one[i]);
        } else if i < one.len() + 2 {
            assert(whole[i] == "; "@[i - one.len()]);
        } else if i < one.len() + 2 + two.len() {
            assert(whole[i] == two[i - one.len() - 2]);
        } else if i < head.len() {
            assert(whole[i] == "; "@[i - one.len() - 2 - two.len()]);
        } else {
            assert(whole[i] == three[i - head.len()]);
        }
    }
}

// ------------------------------------------------------------- slot plan ---

/// Command types an indirect command buffer would be made for.
#[derive(Clone, Copy, Debug, PartialEq, Eq, Structural)]
pub enum IcbCommandTypeHint {
    /// Threadgroup dispatches.
    ConcurrentDispatch,
    /// Thread dispatches.
    ConcurrentDispatchThreads,
}

/// One argument slot of the plan.
#[derive(Clone, Debug, PartialEq, Eq)]
pub struct ArgTableSlot {
    /// Index in the argument table.
    pub index: u32,
    /// What is bound there.
    pub label: String,
    /// A buffer that outlives the encoding is bound there.
    pub stable: bool,
}

/// One argument slot as data.
#[verifier::ext_equal]
pub struct SlotPlan {
    pub index: u32,
    pub label: Seq<char>,
    pub stable: bool,
}

impl View for ArgTableSlot {
    type V = SlotPlan;

    open spec fn view(&self) -> SlotPlan {
        SlotPlan { index: self.index, label: self.label@, stable: self.stable }
    }
}

/// Which argument slots hold buffers that outlive the encoding.
#[derive(Clone, Debug)]
pub struct ArgTableSlotPlan {
    pub slots: Vec<ArgTableSlot>,
    /// Commands to make room for.
    pub max_commands: u32,
    pub command_types: IcbCommandTypeHint,
}

/// A slot plan as data.
#[verifier::ext_equal]
pub struct PlanView {
    pub slots: Seq<SlotPlan>,
    pub max_commands: u32,
    pub command_types: IcbCommandTypeHint,
}

impl View for ArgTableSlotPlan {
    type V = PlanView;

    open spec fn view(&self) -> PlanView {
        PlanView {
            slots: Seq::new(self.slots@.len(), |i: int| self.slots@[i]@),
            max_commands: self.max_commands,
            command_types: self.command_types,
        }
    }
}

/// Slots among the first `n` that are stable, or that are not.
pub open spec fn slots_with(slots: Seq<SlotPlan>, stable: bool, n: int) -> int
    decreases n,
{
    if n <= 0 {
        0
    } else {
        slots_with(slots, stable, n - 1) + (if slots[n - 1].stable == stable {
            1int
        } else {
            0
        })
    }
}

/// One slot.
pub open spec fn planned(index: u32, label: Seq<char>, stable: bool) -> SlotPlan {
    SlotPlan { index, label, stable }
}

fn plan_slot(index: u32, label: &str, stable: bool) -> (r: ArgTableSlot)
    ensures
        r@ == planned(index, label@, stable),
{
    ArgTableSlot { index, label: owned(label), stable }
}

/// The plan of a small decode graph: position, seed and argmax token, and the
/// scalar pool are stable; what is left of the constant arena is not.
pub open spec fn mini_plan() -> PlanView {
    PlanView {
        slots: seq![
            planned(0, "pos_buf"@, true),
            planned(1, "seed_tok"@, true),
            planned(2, "argmax_tok"@, true),
            planned(3, "icb_scalars_softcap"@, true),
            planned(4, "icb_scalars_u32s_f32s"@, true),
            planned(5, "const_arena_residual"@, false),
        ],
        max_commands: 64,
        command_types: IcbCommandTypeHint::ConcurrentDispatch,
    }
}

impl ArgTableSlotPlan {
    /// The plan of a small decode graph.
    pub fn encode_once_v0_mini() -> (r: ArgTableSlotPlan)
        ensures
            r@ == mini_plan(),
    {
        let mut slots: Vec<ArgTableSlot> = Vec::new();
        slots.push(plan_slot(0, "pos_buf", true));
        slots.push(plan_slot(1, "seed_tok", true));
        slots.push(plan_slot(2, "argmax_tok", true));
        slots.push(plan_slot(3, "icb_scalars_softcap", true));
        slots.push(plan_slot(4, "icb_scalars_u32s_f32s", true));
        slots.push(plan_slot(5, "const_arena_residual", false));
        let r = ArgTableSlotPlan {
            slots,
            max_commands: 64,
            command_types: IcbCommandTypeHint::ConcurrentDispatch,
        };
        assert(r@.slots =~= mini_plan().slots);
        r
    }

    fn count(&self, stable: bool) -> (r: usize)
        ensures
            r == slots_with(self@.slots, stable, self@.slots.len() as int),
    {
        let mut n: usize = 0;
        let mut i: usize = 0;
        while i < self.slots.len()
            invariant
                i <= self.slots@.len(),
                n <= i,
                n == slots_with(self@.slots, stable, i as int),
            decreases self.slots@.len() - i,
        {
            assert(self@.slots[i as int] == self.slots@[i as int]@);
            if self.slots[i].stable == stable {
                n += 1;
            }
            i += 1;
        }
        n
    }

    /// Slots bound to buffers that outlive the encoding.
    pub fn stable_count(&self) -> (r: usize)
        ensures
            r == slots_with(self@.slots, true, self@.slots.len() as int),
    {
        self.count(true)
    }

    /// Slots that are bound anew by every encoding.
    pub fn ephemeral_count(&self) -> (r: usize)
        ensures
            r == slots_with(self@.slots, false, self@.slots.len() as int),
    {
        self.count(false)
    }
}

// ------------------------------------------------------------------ stub ---

/// How far a graph of its own has come.
#[derive(Clone, Copy, Debug, PartialEq, Eq, Structural)]
pub enum IcbStubPhase {
    /// Nothing was attempted.
    Idle,
    /// The slot plan stands.
    Planned,
    /// A one-kernel graph ran.
    SmokeProven,
    /// A graph is attached.
    Allocated,
}

impl IcbStubPhase {
    /// The phase's name.
    pub open spec fn name(self) -> Seq<char> {
        match self {
            IcbStubPhase::Idle => "Idle"@,
            IcbStubPhase::Planned => "Planned"@,
            IcbStubPhase::SmokeProven => "SmokeProven"@,
            IcbStubPhase::Allocated => "Allocated"@,
        }
    }

    fn as_str(self) -> (r: &'static str)
        ensures
            r@ == self.name(),
    {
        match self {
            IcbStubPhase::Idle => "Idle",
            IcbStubPhase::Planned => "Planned",
            IcbStubPhase::SmokeProven => "SmokeProven",
            IcbStubPhase::Allocated => "Allocated",
        }
    }
}

/// What is known of a graph before one is attached.
#[derive(Clone, Debug)]
pub struct IcbReplayStub {
    pub phase: IcbStubPhase,
    pub plan: ArgTableSlotPlan,
    /// Times an allocation was asked for.
    pub allocate_attempts: u64,
    /// Times an execution was asked for.
    pub execute_attempts: u64,
    /// A one-kernel graph ran.
    pub smoke_proven: bool,
}

/// A stub as data.
#[verifier::ext_equal]
pub struct StubView {
    pub phase: IcbStubPhase,
    pub plan: PlanView,
    pub allocate_attempts: u64,
    pub execute_attempts: u64,
    pub smoke_proven: bool,
}

impl View for IcbReplayStub {
    type V = StubView;

    open spec fn view(&self) -> StubView {
        StubView {
            phase: self.phase,
            plan: self.plan@,
            allocate_attempts: self.allocate_attempts,
            execute_attempts: self.execute_attempts,
            smoke_proven: self.smoke_proven,
        }
    }
}

impl StubView {
    /// Before anything was attempted.
    pub open spec fn fresh() -> StubView {
        StubView {
            phase: IcbStubPhase::Idle,
            plan: mini_plan(),
            allocate_attempts: 0,
            execute_attempts: 0,
            smoke_proven: false,
        }
    }

    /// With the plan standing, if nothing was attempted before.
    pub open spec fn with_plan(self) -> StubView {
        if self.phase == IcbStubPhase::Idle {
            StubView { phase: IcbStubPhase::Planned, ..self }
        } else {
            self
        }
    }

    /// After an allocation was asked for.
    pub open spec fn asked_to_allocate(self) -> StubView {
        StubView { allocate_attempts: bumped(self.allocate_attempts), ..self.with_plan() }
    }

    /// After an execution was asked for.
    pub open spec fn asked_to_execute(self) -> StubView {
        StubView { execute_attempts: bumped(self.execute_attempts), ..self }
    }

    /// After a graph ran.
    pub open spec fn executed(self) -> StubView {
        StubView {
            execute_attempts: bumped(self.execute_attempts),
            smoke_proven: true,
            phase: IcbStubPhase::Allocated,
            ..self
        }
    }

    /// The status line.
    pub open spec fn status(self) -> Seq<char> {
        "icb_stub phase="@ + self.phase.name() + " cmds="@ + decimal(
            self.plan.max_commands as nat,
        ) + " stable="@ + decimal(
            slots_with(self.plan.slots, true, self.plan.slots.len() as int) as nat,
        ) + "/"@ + decimal(self.plan.slots.len()) + " alloc_attempts="@ + decimal(
            self.allocate_attempts as nat,
        ) + " exec_attempts="@ + decimal(self.execute_attempts as nat) + " smoke_proven="@
            + bool_text(self.smoke_proven) + " decode_mini_wired="@ + bool_text(
            self.phase == IcbStubPhase::Allocated,
        )
    }
}

impl Default for IcbReplayStub {
    fn default() -> (r: IcbReplayStub)
        ensures
            r@ == StubView::fresh(),
    {
        IcbReplayStub::new()
    }
}

impl IcbReplayStub {
    /// Before anything was attempted.
    pub fn new() -> (r: IcbReplayStub)
        ensures
            r@ == StubView::fresh(),
    {
        IcbReplayStub {
            phase: IcbStubPhase::Idle,
            plan: ArgTableSlotPlan::encode_once_v0_mini(),
            allocate_attempts: 0,
            execute_attempts: 0,
            smoke_proven: false,
        }
    }

    /// The slot plan stands.
    pub fn mark_planned(&mut self)
        ensures
            final(self)@ == old(self)@.with_plan(),
    {
        if self.phase == IcbStubPhase::Idle {
            self.phase = IcbStubPhase::Planned;
        }
    }

    /// A one-kernel graph ran.
    pub fn mark_smoke_proven(&mut self)
        ensures
            final(self)@ == (StubView {
                smoke_proven: true,
                phase: IcbStubPhase::SmokeProven,
                ..old(self)@
            }),
    {
        self.smoke_proven = true;
        self.phase = IcbStubPhase::SmokeProven;
    }

    /// Asks for a graph of the whole decode step: there is none.
    pub fn try_allocate(&mut self) -> (r: Result<(), CbReplayError>)
        ensures
            final(self)@ == old(self)@.asked_to_allocate(),
            faults(r, Some(ReplayFault::NotWired)),
    {
        self.allocate_attempts = bump(self.allocate_attempts);
        self.mark_planned();
        Err(CbReplayError::NotWired)
    }

    /// Asks for an execution: granted only where a graph is attached.
    pub fn try_execute(&mut self) -> (r: Result<(), CbReplayError>)
        ensures
            final(self)@ == old(self)@.asked_to_execute(),
            faults(
                r,
                if old(self)@.phase == IcbStubPhase::Allocated {
                    None
                } else {
                    Some(ReplayFault::NotWired)
                },
            ),
    {
        self.execute_attempts = bump(self.execute_attempts);
        if self.phase == IcbStubPhase::Allocated {
            return Ok(());
        }
        Err(CbReplayError::NotWired)
    }

    /// A graph ran.
    pub fn mark_mini_execute_ok(&mut self)
        ensures
            final(self)@ == old(self)@.executed(),
    {
        self.execute_attempts = bump(self.execute_attempts);
        self.smoke_proven = true;
        self.phase = IcbStubPhase::Allocated;
    }

    /// One line that sums the stub up.
    pub fn status_line(&self) -> (r: String)
        ensures
            r@ == self@.status(),
    {
        Msg::new("icb_stub phase=").text(self.phase.as_str()).text(" cmds=").num64(
            self.plan.max_commands as u64,
        ).text(" stable=").num(self.plan.stable_count()).text("/").num(self.plan.slots.len()).text(
            " alloc_attempts=",
        ).num64(self.allocate_attempts).text(" exec_attempts=").num64(self.execute_attempts).text(
            " smoke_proven=",
        ).text(bool_str(self.smoke_proven)).text(" decode_mini_wired=").text(
            bool_str(self.phase == IcbStubPhase::Allocated),
        ).done()
    }
}

// ---------------------------------------------------------------- ledger ---

/// One of the two slots.
#[derive(Clone, Copy, Debug, PartialEq, Eq, Structural)]
pub enum CbSlot {
    A,
    B,
}

impl CbSlot {
    /// The other slot.
    pub open spec fn other(self) -> CbSlot {
        match self {
            CbSlot::A => CbSlot::B,
            CbSlot::B => CbSlot::A,
        }
    }

    /// The other slot.
    pub fn peer(self) -> (r: CbSlot)
        ensures
            r == self.other(),
    {
        match self {
            CbSlot::A => CbSlot::B,
            CbSlot::B => CbSlot::A,
        }
    }

    /// 0 for A, 1 for B.
    pub fn index(self) -> (r: usize)
        ensures
            r == (if self == CbSlot::A {
                0int
            } else {
                1
            }),
    {
        match self {
            CbSlot::A => 0,
            CbSlot::B => 1,
        }
    }

    /// The slot's name.
    pub open spec fn name(self) -> Seq<char> {
        match self {
            CbSlot::A => "A"@,
            CbSlot::B => "B"@,
        }
    }

    fn as_str(self) -> (r: &'static str)
        ensures
            r@ == self.name(),
    {
        match self {
            CbSlot::A => "A",
            CbSlot::B => "B",
        }
    }
}

/// Lifecycle of a slot.
#[derive(Clone, Copy, Debug, PartialEq, Eq, Structural)]
pub enum CbReplayPhase {
    /// Empty.
    Idle,
    /// The host is encoding into it.
    Recording,
    /// Encoded, not submitted.
    Ready,
    /// Submitted; the device may still be at it.
    InFlight,
}

impl CbReplayPhase {
    /// The phase's name.
    pub open spec fn name(self) -> Seq<char> {
        match self {
            CbReplayPhase::Idle => "Idle"@,
            CbReplayPhase::Recording => "Recording"@,
            CbReplayPhase::Ready => "Ready"@,
            CbReplayPhase::InFlight => "InFlight"@,
        }
    }

    fn as_str(self) -> (r: &'static str)
        ensures
            r@ == self.name(),
    {
        match self {
            CbReplayPhase::Idle => "Idle",
            CbReplayPhase::Recording => "Recording",
            CbReplayPhase::Ready => "Ready",
            CbReplayPhase::InFlight => "InFlight",
        }
    }
}

/// One slot of the ledger.
#[derive(Clone, Debug)]
pub struct CbReplaySlot {
    pub phase: CbReplayPhase,
    /// Number of the recording it holds.
    pub generation: u64,
    /// What was recorded.
    pub label: String,
}

/// One slot as data.
#[verifier::ext_equal]
pub struct SlotView {
    pub phase: CbReplayPhase,
    pub generation: u64,
    pub label: Seq<char>,
}

impl View for CbReplaySlot {
    type V = SlotView;

    open spec fn view(&self) -> SlotView {
        SlotView { phase: self.phase, generation: self.generation, label: self.label@ }
    }
}

/// An empty slot.
pub open spec fn empty_slot() -> SlotView {
    SlotView { phase: CbReplayPhase::Idle, generation: 0, label: Seq::empty() }
}

impl Default for CbReplaySlot {
    fn default() -> (r: CbReplaySlot)
        ensures
            r@ == empty_slot(),
    {
        let r = CbReplaySlot { phase: CbReplayPhase::Idle, generation: 0, label: String::new() };
        assert(r@ =~= empty_slot());
        r
    }
}

/// What a ledger operation can be refused for.
#[derive(Clone, Debug, PartialEq, Eq)]
pub enum CbReplayError {
    AlreadyRecording,
    NotRecording,
    NotReady,
    InFlight,
    /// No graph is attached; see [`survey_cb_replay_api_gaps`].
    NotWired,
    /// The attached graph failed.
    IcbExecuteFailed(String),
}

/// A refusal as data.
pub enum ReplayFault {
    AlreadyRecording,
    NotRecording,
    NotReady,
    InFlight,
    NotWired,
    IcbExecuteFailed(Seq<char>),
}

impl View for CbReplayError {
    type V = ReplayFault;

    open spec fn view(&self) -> ReplayFault {
        match self {
            CbReplayError::AlreadyRecording => ReplayFault::AlreadyRecording,
            CbReplayError::NotRecording => ReplayFault::NotRecording,
            CbReplayError::NotReady => ReplayFault::NotReady,
            CbReplayError::InFlight => ReplayFault::InFlight,
            CbReplayError::NotWired => ReplayFault::NotWired,
            CbReplayError::IcbExecuteFailed(e) => ReplayFault::IcbExecuteFailed(e@),
        }
    }
}

impl ReplayFault {
    /// The refusal in words.
    pub open spec fn text(self) -> Seq<char> {
        match self {
            ReplayFault::AlreadyRecording => "CB slot already recording"@,
            ReplayFault::NotRecording => "CB slot not recording"@,
            ReplayFault::NotReady => "CB slot not Ready for replay"@,
            ReplayFault::InFlight => "CB slot still in flight"@,
            ReplayFault::NotWired => "encode-once replay not wired: "@
                + CbReplayApiGap::Mtl4CbHasNoReplayApi.text(),
            ReplayFault::IcbExecuteFailed(e) => "decode ICB execute failed: "@ + e,
        }
    }
}

impl CbReplayError {
    /// The refusal in words.
    pub fn message(&self) -> (r: String)
        ensures
            r@ == self@.text(),
    {
        match self {
            CbReplayError::AlreadyRecording => owned("CB slot already recording"),
            CbReplayError::NotRecording => owned("CB slot not recording"),
            CbReplayError::NotReady => owned("CB slot not Ready for replay"),
            CbReplayError::InFlight => owned("CB slot still in flight"),
            CbReplayError::NotWired => Msg::new("encode-once replay not wired: ").text(
                survey_cb_replay_api_gaps()[0].as_str(),
            ).done(),
            CbReplayError::IcbExecuteFailed(e) => Msg::new("decode ICB execute failed: ").text(
                e.as_str(),
            ).done(),
        }
    }
}

/// `r` is refused for exactly `fault`, or succeeds without one.
pub open spec fn faults<T>(r: Result<T, CbReplayError>, fault: Option<ReplayFault>) -> bool {
    match fault {
        Some(f) => r is Err && r->Err_0@ == f,
        None => r is Ok,
    }
}

/// A ledger as data.
#[verifier::ext_equal]
pub struct LedgerView {
    pub a: SlotView,
    pub b: SlotView,
    pub active: CbSlot,
    /// Number of the next recording.
    pub next_gen: u64,
    /// Replays change slots without a graph.
    pub dry_run: bool,
    pub live_encodes: u64,
    pub not_wired_hits: u64,
    pub icb_replays: u64,
    pub icb: StubView,
    pub graph: Option<GraphView>,
}

/// Data of an optional graph.
pub open spec fn graph_of(graph: Option<DecodeIcb>) -> Option<GraphView> {
    match graph {
        Some(g) => Some(g@),
        None => None,
    }
}

impl LedgerView {
    /// Both slots empty, nothing attached.
    pub open spec fn fresh() -> LedgerView {
        LedgerView {
            a: empty_slot(),
            b: empty_slot(),
            active: CbSlot::A,
            next_gen: 1,
            dry_run: false,
            live_encodes: 0,
            not_wired_hits: 0,
            icb_replays: 0,
            icb: StubView::fresh(),
            graph: None,
        }
    }

    /// One of the slots.
    pub open spec fn at(self, slot: CbSlot) -> SlotView {
        match slot {
            CbSlot::A => self.a,
            CbSlot::B => self.b,
        }
    }

    /// With one slot replaced.
    pub open spec fn with_slot(self, slot: CbSlot, v: SlotView) -> LedgerView {
        match slot {
            CbSlot::A => LedgerView { a: v, ..self },
            CbSlot::B => LedgerView { b: v, ..self },
        }
    }

    /// With one slot in another phase.
    pub open spec fn with_phase(self, slot: CbSlot, phase: CbReplayPhase) -> LedgerView {
        self.with_slot(slot, SlotView { phase, ..self.at(slot) })
    }

    /// A graph is attached and encoded.
    pub open spec fn wired(self) -> bool {
        self.graph is Some && self.graph->0.encoded
    }

    /// After a recording was begun in `slot`: it has to be empty or ready.
    pub open spec fn begun(self, slot: CbSlot, label: Seq<char>) -> (
        LedgerView,
        Option<ReplayFault>,
    ) {
        match self.at(slot).phase {
            CbReplayPhase::Recording => (self, Some(ReplayFault::AlreadyRecording)),
            CbReplayPhase::InFlight => (self, Some(ReplayFault::InFlight)),
            _ => (
                LedgerView {
                    next_gen: self.next_gen.wrapping_add(1),
                    active: slot,
                    ..self.with_slot(
                        slot,
                        SlotView {
                            phase: CbReplayPhase::Recording,
                            generation: self.next_gen,
                            label,
                        },
                    )
                },
                None,
            ),
        }
    }

    /// After the recording in `slot` was ended.
    pub open spec fn finished(self, slot: CbSlot) -> (LedgerView, Option<ReplayFault>) {
        if self.at(slot).phase == CbReplayPhase::Recording {
            (self.with_phase(slot, CbReplayPhase::Ready), None)
        } else {
            (self, Some(ReplayFault::NotRecording))
        }
    }

    /// After a miss: no graph to replay.
    pub open spec fn missed(self) -> LedgerView {
        LedgerView {
            not_wired_hits: bumped(self.not_wired_hits),
            icb: self.icb.asked_to_execute(),
            ..self
        }
    }

    /// After a replay of `slot` was asked for: it has to be ready, and a graph
    /// attached, unless this is a dry run.
    pub open spec fn tried(self, slot: CbSlot) -> (LedgerView, Option<ReplayFault>) {
        if self.at(slot).phase != CbReplayPhase::Ready {
            (self, Some(ReplayFault::NotReady))
        } else if self.wired() || self.dry_run {
            (self.with_phase(slot, CbReplayPhase::InFlight), None)
        } else {
            (self.missed(), Some(ReplayFault::NotWired))
        }
    }

    /// The first ready slot.
    pub open spec fn ready(self) -> Option<CbSlot> {
        if self.a.phase == CbReplayPhase::Ready {
            Some(CbSlot::A)
        } else if self.b.phase == CbReplayPhase::Ready {
            Some(CbSlot::B)
        } else {
            None
        }
    }

    /// With a graph attached.
    pub open spec fn attached(self, graph: GraphView) -> LedgerView {
        LedgerView {
            icb: StubView {
                smoke_proven: true,
                phase: IcbStubPhase::Allocated,
                ..self.icb
            },
            graph: Some(graph),
            ..self
        }
    }

    /// Every generation given out is below the next one.
    pub open spec fn numbered(self) -> bool {
        self.a.generation < self.next_gen && self.b.generation < self.next_gen
    }

    /// After the device finished with `slot`.
    pub open spec fn completed(self, slot: CbSlot) -> LedgerView {
        self.with_slot(
            slot,
            SlotView { phase: CbReplayPhase::Idle, label: Seq::empty(), ..self.at(slot) },
        )
    }

    /// With the other slot active.
    pub open spec fn flipped(self) -> LedgerView {
        LedgerView { active: self.active.other(), ..self }
    }

    /// After one step was encoded into the active slot, live or by replay: the
    /// slot is ready and the other one active. A slot in flight refuses.
    pub open spec fn stepped(self, label: Seq<char>, live: bool) -> (
        LedgerView,
        Option<ReplayFault>,
    ) {
        let slot = self.active;
        let (s, fault) = if self.at(slot).phase == CbReplayPhase::Recording {
            (self, None)
        } else {
            self.begun(slot, label)
        };
        if fault is Some {
            (s, fault)
        } else {
            let t = s.finished(slot).0;
            (
                LedgerView {
                    live_encodes: if live {
                        bumped(t.live_encodes)
                    } else {
                        t.live_encodes
                    },
                    icb: t.icb.with_plan(),
                    ..t
                }.flipped(),
                None,
            )
        }
    }

    /// After a step that was encoded live in place of an attached graph.
    pub open spec fn stepped_for_graph(self, label: Seq<char>) -> (
        LedgerView,
        Option<ReplayFault>,
    ) {
        let (s, fault) = self.stepped(label, false);
        if fault is Some {
            (s, fault)
        } else {
            (
                LedgerView {
                    icb_replays: bumped(s.icb_replays),
                    icb: s.icb.executed(),
                    ..s
                },
                None,
            )
        }
    }

    /// The status line.
    pub open spec fn status(self) -> Seq<char> {
        "cb_replay active="@ + self.active.name() + " A="@ + self.a.phase.name() + "/"@ + decimal(
            self.a.generation as nat,
        ) + " B="@ + self.b.phase.name() + "/"@ + decimal(self.b.generation as nat)
            + " dry_run="@ + bool_text(self.dry_run) + " wired="@ + bool_text(self.wired())
            + " live_encodes="@ + decimal(self.live_encodes as nat) + " not_wired="@ + decimal(
            self.not_wired_hits as nat,
        ) + " icb_replays="@ + decimal(self.icb_replays as nat) + " | "@ + (match self.graph {
            Some(g) => g.status(),
            None => self.icb.status(),
        })
    }
}

/// After the attached graph ran: the runtime, the ledger, and what went wrong.
pub open spec fn graph_run(rt: RuntimeState, l: LedgerView) -> (
    RuntimeState,
    LedgerView,
    Option<Seq<char>>,
) {
    match l.graph {
        None => (rt, l, Some("execute_decode_icb: no DecodeIcb attached"@)),
        Some(g) => {
            let (s, h, problem) = execute_step(rt, g);
            let m = LedgerView { graph: Some(h), ..l };
            match problem {
                Some(p) => (s, m, Some(p)),
                None => (
                    s,
                    LedgerView {
                        icb_replays: bumped(m.icb_replays),
                        icb: m.icb.executed(),
                        ..m
                    },
                    None,
                ),
            }
        },
    }
}

/// After the replay flag was read.
pub open spec fn replay_flag_read(rt: RuntimeState) -> RuntimeState {
    RuntimeState {
        icb: IcbFlags { decode_icb: Some(rt.icb.decode_icb_value(rt.ab.env)), ..rt.icb },
        ..rt
    }
}

/// After a replay of `slot` by the attached graph was asked for. The slot has
/// to be ready, replay switched on and a graph attached. A failed run leaves
/// the slot ready, so that the caller can encode live.
pub open spec fn graph_tried(rt: RuntimeState, l: LedgerView, slot: CbSlot) -> (
    RuntimeState,
    LedgerView,
    Option<ReplayFault>,
) {
    if l.at(slot).phase != CbReplayPhase::Ready {
        (rt, l, Some(ReplayFault::NotReady))
    } else {
        let read = replay_flag_read(rt);
        if !rt.icb.decode_icb_value(rt.ab.env) || !l.wired() {
            (read, l.missed(), Some(ReplayFault::NotWired))
        } else {
            let (s, m, problem) = graph_run(read, l.with_phase(slot, CbReplayPhase::InFlight));
            match problem {
                Some(p) => (
                    s,
                    LedgerView {
                        not_wired_hits: bumped(m.not_wired_hits),
                        ..m.with_phase(slot, CbReplayPhase::Ready)
                    },
                    Some(ReplayFault::IcbExecuteFailed(p)),
                ),
                None => (s, m, None),
            }
        }
    }
}

/// Ping-pong ledger of two recordings, with an optional graph to replay.
pub struct PingPongCbReplay {
    slot_a: CbReplaySlot,
    slot_b: CbReplaySlot,
    active: CbSlot,
    next_gen: u64,
    dry_run: bool,
    live_encodes: u64,
    not_wired_hits: u64,
    icb_replays: u64,
    icb: IcbReplayStub,
    decode_icb: Option<DecodeIcb>,
}

impl View for PingPongCbReplay {
    type V = LedgerView;

    closed spec fn view(&self) -> LedgerView {
        LedgerView {
            a: self.slot_a@,
            b: self.slot_b@,
            active: self.active,
            next_gen: self.next_gen,
            dry_run: self.dry_run,
            live_encodes: self.live_encodes,
            not_wired_hits: self.not_wired_hits,
            icb_replays: self.icb_replays,
            icb: self.icb@,
            graph: graph_of(self.decode_icb),
        }
    }
}

impl Default for PingPongCbReplay {
    fn default() -> (r: PingPongCbReplay)
        ensures
            r@ == LedgerView::fresh(),
    {
        PingPongCbReplay::new()
    }
}

impl PingPongCbReplay {
    /// Both slots empty, nothing attached.
    pub fn new() -> (r: PingPongCbReplay)
        ensures
            r@ == LedgerView::fresh(),
    {
        PingPongCbReplay {
            slot_a: CbReplaySlot::default(),
            slot_b: CbReplaySlot::default(),
            active: CbSlot::A,
            next_gen: 1,
            dry_run: false,
            live_encodes: 0,
            not_wired_hits: 0,
            icb_replays: 0,
            icb: IcbReplayStub::new(),
            decode_icb: None,
        }
    }

    /// Lets slots change without a graph, or not.
    pub fn with_dry_run(self, dry_run: bool) -> (r: PingPongCbReplay)
        ensures
            r@ == (LedgerView { dry_run, ..self@ }),
    {
        let mut r = self;
        r.dry_run = dry_run;
        r
    }

    /// The slot the next recording goes to.
    pub fn active_slot(&self) -> (r: CbSlot)
        ensures
            r == self@.active,
    {
        self.active
    }

    /// One of the slots.
    pub fn slot(&self, s: CbSlot) -> (r: &CbReplaySlot)
        ensures
            r@ == self@.at(s),
    {
        match s {
            CbSlot::A => &self.slot_a,
            CbSlot::B => &self.slot_b,
        }
    }

    fn set_phase(&mut self, s: CbSlot, phase: CbReplayPhase)
        ensures
            final(self)@ == old(self)@.with_phase(s, phase),
    {
        match s {
            CbSlot::A => {
                self.slot_a.phase = phase;
            },
            CbSlot::B => {
                self.slot_b.phase = phase;
            },
        }
    }

    /// Steps encoded live.
    pub fn live_encodes(&self) -> (r: u64)
        ensures
            r == self@.live_encodes,
    {
        self.live_encodes
    }

    /// Replays that found no graph, or whose graph failed.
    pub fn not_wired_hits(&self) -> (r: u64)
        ensures
            r == self@.not_wired_hits,
    {
        self.not_wired_hits
    }

    /// Replays by the attached graph.
    pub fn icb_replays(&self) -> (r: u64)
        ensures
            r == self@.icb_replays,
    {
        self.icb_replays
    }

    /// The stub.
    pub fn icb_stub(&self) -> (r: &IcbReplayStub)
        ensures
            r@ == self@.icb,
    {
        &self.icb
    }

    /// The stub, to change.
    pub fn icb_stub_mut(&mut self) -> (r: &mut IcbReplayStub)
        ensures
            r@ == old(self)@.icb,
            final(self)@ == (LedgerView { icb: final(r)@, ..old(self)@ }),
    {
        &mut self.icb
    }

    /// A graph is attached and encoded.
    pub fn decode_icb_wired(&self) -> (r: bool)
        ensures
            r == self@.wired(),
    {
        match &self.decode_icb {
            Some(d) => d.encoded(),
            None => false,
        }
    }

    /// The attached graph is a recorded layer graph.
    pub fn decode_icb_layer_graph(&self) -> (r: bool)
        ensures
            r == (self@.graph is Some && self@.graph->0.layer_graph),
    {
        match &self.decode_icb {
            Some(d) => d.is_layer_graph(),
            None => false,
        }
    }

    /// The attached graph.
    pub fn decode_icb(&self) -> (r: Option<&DecodeIcb>)
        ensures
            match r {
                Some(d) => self@.graph == Some(d@),
                None => self@.graph is None,
            },
    {
        match &self.decode_icb {
            Some(d) => Some(d),
            None => None,
        }
    }

    /// Attaches a graph. Returns the one attached before, for its buffers to be
    /// let go.
    pub fn attach_decode_icb(&mut self, icb: DecodeIcb) -> (r: Option<DecodeIcb>)
        ensures
            final(self)@ == old(self)@.attached(icb@),
            graph_of(r) == old(self)@.graph,
    {
        let before = self.decode_icb.take();
        self.icb.mark_smoke_proven();
        self.icb.phase = IcbStubPhase::Allocated;
        self.decode_icb = Some(icb);
        before
    }

    /// Some slot is ready.
    pub fn has_ready_slot(&self) -> (r: bool)
        ensures
            r == (self@.ready() is Some),
    {
        self.slot_a.phase == CbReplayPhase::Ready || self.slot_b.phase == CbReplayPhase::Ready
    }

    fn first_ready(&self) -> (r: Option<CbSlot>)
        ensures
            r == self@.ready(),
    {
        if self.slot_a.phase == CbReplayPhase::Ready {
            Some(CbSlot::A)
        } else if self.slot_b.phase == CbReplayPhase::Ready {
            Some(CbSlot::B)
        } else {
            None
        }
    }

    /// Runs the attached graph.
    pub fn execute_decode_icb(&mut self, rt: &mut GpuRuntime) -> (r: Result<(), String>)
        requires
            old(rt).inv(),
        ensures
            final(rt).inv(),
            ({
                let (s, l, problem) = graph_run(old(rt)@, old(self)@);
                final(rt)@ == s && final(self)@ == l && reports(r, problem)
            }),
    {
        match self.decode_icb.take() {
            None => Err(owned("execute_decode_icb: no DecodeIcb attached")),
            Some(mut d) => {
                let r = d.execute(rt);
                self.decode_icb = Some(d);
                match r {
                    Err(e) => Err(e),
                    Ok(()) => {
                        self.icb_replays = bump(self.icb_replays);
                        self.icb.mark_mini_execute_ok();
                        Ok(())
                    },
                }
            },
        }
    }

    fn miss(&mut self)
        ensures
            final(self)@ == old(self)@.missed(),
    {
        self.not_wired_hits = bump(self.not_wired_hits);
        let _ = self.icb.try_execute();
    }

    /// Replays a ready slot by running the attached graph.
    pub fn try_replay_icb(&mut self, slot: CbSlot, rt: &mut GpuRuntime) -> (r: Result<
        (),
        CbReplayError,
    >)
        requires
            old(rt).inv(),
        ensures
            final(rt).inv(),
            ({
                let (s, l, fault) = graph_tried(old(rt)@, old(self)@, slot);
                final(rt)@ == s && final(self)@ == l && faults(r, fault)
            }),
    {
        if self.slot(slot).phase != CbReplayPhase::Ready {
            return Err(CbReplayError::NotReady);
        }
        let on = rt.read_decode_icb();
        if !on || !self.decode_icb_wired() {
            self.miss();
            return Err(CbReplayError::NotWired);
        }
        self.set_phase(slot, CbReplayPhase::InFlight);
        match self.execute_decode_icb(rt) {
            Err(e) => {
                self.set_phase(slot, CbReplayPhase::Ready);
                self.not_wired_hits = bump(self.not_wired_hits);
                Err(CbReplayError::IcbExecuteFailed(e))
            },
            Ok(()) => Ok(()),
        }
    }

    /// Replays the first ready slot by running the attached graph.
    pub fn try_replay_ready_icb(&mut self, rt: &mut GpuRuntime) -> (r: Result<
        CbSlot,
        CbReplayError,
    >)
        requires
            old(rt).inv(),
        ensures
            final(rt).inv(),
            match old(self)@.ready() {
                None => final(rt)@ == old(rt)@ && final(self)@ == old(self)@ && faults(
                    r,
                    Some(ReplayFault::NotReady),
                ),
                Some(slot) => {
                    let (s, l, fault) = graph_tried(old(rt)@, old(self)@, slot);
                    &&& final(rt)@ == s
                    &&& final(self)@ == l
                    &&& faults(r, fault)
                    &&& r matches Ok(at) ==> at == slot
                },
            },
    {
        match self.first_ready() {
            None => Err(CbReplayError::NotReady),
            Some(slot) => match self.try_replay_icb(slot, rt) {
                Err(e) => Err(e),
                Ok(()) => Ok(slot),
            },
        }
    }

    /// After a step was encoded live: its slot is ready and the other active.
    pub fn mark_live_step(&mut self, label: &str) -> (r: Result<(), CbReplayError>)
        ensures
            ({
                let (l, fault) = old(self)@.stepped(label@, true);
                final(self)@ == l && faults(r, fault)
            }),
    {
        self.mark_step_inner(label, true)
    }

    /// After a step was replayed: like a live one, not counted as one.
    pub fn mark_replay_step(&mut self, label: &str) -> (r: Result<(), CbReplayError>)
        ensures
            ({
                let (l, fault) = old(self)@.stepped(label@, false);
                final(self)@ == l && faults(r, fault)
            }),
    {
        self.mark_step_inner(label, false)
    }

    /// After a step was encoded live in place of the attached graph: counted as
    /// a replay.
    pub fn note_layer_live_replay(&mut self, label: &str) -> (r: Result<(), CbReplayError>)
        ensures
            ({
                let (l, fault) = old(self)@.stepped_for_graph(label@);
                final(self)@ == l && faults(r, fault)
            }),
    {
        match self.mark_replay_step(label) {
            Err(e) => {
                return Err(e);
            },
            Ok(()) => {},
        }
        self.icb_replays = bump(self.icb_replays);
        self.icb.mark_mini_execute_ok();
        Ok(())
    }

    fn mark_step_inner(&mut self, label: &str, count_live: bool) -> (r: Result<(), CbReplayError>)
        ensures
            ({
                let (l, fault) = old(self)@.stepped(label@, count_live);
                final(self)@ == l && faults(r, fault)
            }),
    {
        let slot = self.active;
        if self.slot(slot).phase != CbReplayPhase::Recording {
            match self.begin_record(slot, label) {
                Err(e) => {
                    return Err(e);
                },
                Ok(()) => {},
            }
        }
        match self.finish_record(slot) {
            Err(e) => {
                return Err(e);
            },
            Ok(()) => {},
        }
        if count_live {
            self.live_encodes = bump(self.live_encodes);
        }
        self.icb.mark_planned();
        self.flip_active();
        Ok(())
    }

    /// Replays the first ready slot.
    pub fn try_replay_ready(&mut self) -> (r: Result<CbSlot, CbReplayError>)
        ensures
            match old(self)@.ready() {
                None => final(self)@ == old(self)@ && faults(r, Some(ReplayFault::NotReady)),
                Some(slot) => {
                    let (l, fault) = old(self)@.tried(slot);
                    &&& final(self)@ == l
                    &&& faults(r, fault)
                    &&& r matches Ok(at) ==> at == slot
                },
            },
    {
        match self.first_ready() {
            None => Err(CbReplayError::NotReady),
            Some(slot) => match self.try_replay(slot) {
                Err(e) => Err(e),
                Ok(()) => Ok(slot),
            },
        }
    }

    /// Begins a recording in `slot`, which has to be empty or ready.
    pub fn begin_record(&mut self, slot: CbSlot, label: &str) -> (r: Result<(), CbReplayError>)
        ensures
            ({
                let (l, fault) = old(self)@.begun(slot, label@);
                final(self)@ == l && faults(r, fault)
            }),
    {
        match self.slot(slot).phase {
            CbReplayPhase::Idle => {},
            CbReplayPhase::Ready => {},
            CbReplayPhase::Recording => {
                return Err(CbReplayError::AlreadyRecording);
            },
            CbReplayPhase::InFlight => {
                return Err(CbReplayError::InFlight);
            },
        }
        let fresh = CbReplaySlot {
            phase: CbReplayPhase::Recording,
            generation: self.next_gen,
            label: owned(label),
        };
        self.next_gen = self.next_gen.wrapping_add(1);
        match slot {
            CbSlot::A => {
                self.slot_a = fresh;
            },
            CbSlot::B => {
                self.slot_b = fresh;
            },
        }
        self.active = slot;
        Ok(())
    }

    /// Ends the recording in `slot`.
    pub fn finish_record(&mut self, slot: CbSlot) -> (r: Result<(), CbReplayError>)
        ensures
            ({
                let (l, fault) = old(self)@.finished(slot);
                final(self)@ == l && faults(r, fault)
            }),
    {
        if self.slot(slot).phase != CbReplayPhase::Recording {
            return Err(CbReplayError::NotRecording);
        }
        self.set_phase(slot, CbReplayPhase::Ready);
        Ok(())
    }

    /// Takes a ready slot into flight. With a graph attached the caller runs it
    /// by [`Self::execute_decode_icb`]; without one this is refused, unless it
    /// is a dry run.
    pub fn try_replay(&mut self, slot: CbSlot) -> (r: Result<(), CbReplayError>)
        ensures
            ({
                let (l, fault) = old(self)@.tried(slot);
                final(self)@ == l && faults(r, fault)
            }),
    {
        if self.slot(slot).phase != CbReplayPhase::Ready {
            return Err(CbReplayError::NotReady);
        }
        if !self.decode_icb_wired() && !self.dry_run {
            self.miss();
            return Err(CbReplayError::NotWired);
        }
        self.set_phase(slot, CbReplayPhase::InFlight);
        Ok(())
    }

    /// The device finished with `slot`: it is empty again.
    pub fn on_gpu_complete(&mut self, slot: CbSlot)
        ensures
            final(self)@ == old(self)@.completed(slot),
    {
        match slot {
            CbSlot::A => {
                self.slot_a.phase = CbReplayPhase::Idle;
                self.slot_a.label = String::new();
            },
            CbSlot::B => {
                self.slot_b.phase = CbReplayPhase::Idle;
                self.slot_b.label = String::new();
            },
        }
        assert(self@ =~= old(self)@.completed(slot));
    }

    /// Makes the other slot active.
    pub fn flip_active(&mut self)
        ensures
            final(self)@ == old(self)@.flipped(),
    {
        self.active = self.active.peer();
    }

    /// One line that sums the ledger up.
    pub fn status_line(&self) -> (r: String)
        ensures
            r@ == self@.status(),
    {
        let detail = match &self.decode_icb {
            Some(d) => d.status_line(),
            None => self.icb.status_line(),
        };
        let m = Msg::new("cb_replay active=").text(self.active.as_str()).text(" A=").text(
            self.slot_a.phase.as_str(),
        ).text("/").num64(self.slot_a.generation).text(" B=").text(
            self.slot_b.phase.as_str(),
        ).text("/").num64(self.slot_b.generation);
        m.text(" dry_run=").text(bool_str(self.dry_run)).text(" wired=").text(
            bool_str(self.decode_icb_wired()),
        ).text(" live_encodes=").num64(self.live_encodes).text(" not_wired=").num64(
            self.not_wired_hits,
        ).text(" icb_replays=").num64(self.icb_replays).text(" | ").text(detail.as_str()).done()
    }
}

// ----------------------------------------------------------------- laws ----

/// The slots are each other's peers.
pub proof fn law_peers_pair_up(slot: CbSlot)
    ensures
        slot.other().other() == slot,
        slot.other() != slot,
{
}

/// Two steps come back to the slot they started from and leave both slots
/// ready, whatever was in them, as long as neither is in flight.
pub proof fn law_two_steps_alternate(l: LedgerView, first: Seq<char>, second: Seq<char>)
    requires
        l.a.phase != CbReplayPhase::InFlight,
        l.b.phase != CbReplayPhase::InFlight,
    ensures
        ({
            let (m, f) = l.stepped(first, true);
            let (n, g) = m.stepped(second, true);
            &&& f is None
            &&& g is None
            &&& m.active == l.active.other()
            &&& n.active == l.active
            &&& n.a.phase == CbReplayPhase::Ready
            &&& n.b.phase == CbReplayPhase::Ready
        }),
{
}

/// Recording, ending, replaying and completing a slot goes through its four
/// phases in order; the other slot stays as it is.
pub proof fn law_slots_cycle(l: LedgerView, slot: CbSlot, label: Seq<char>)
    requires
        l.at(slot).phase == CbReplayPhase::Idle,
        l.wired() || l.dry_run,
    ensures
        ({
            let m = l.begun(slot, label).0;
            let n = m.finished(slot).0;
            let o = n.tried(slot).0;
            let p = o.completed(slot);
            &&& m.at(slot).phase == CbReplayPhase::Recording
            &&& n.at(slot).phase == CbReplayPhase::Ready
            &&& o.at(slot).phase == CbReplayPhase::InFlight
            &&& p.at(slot).phase == CbReplayPhase::Idle
            &&& p.at(slot.other()) == l.at(slot.other())
            &&& p.at(slot).generation == l.next_gen
        }),
{
}

/// A slot in flight takes no recording and no replay until it completes, and
/// then takes a recording.
pub proof fn law_flight_excludes_recording(l: LedgerView, slot: CbSlot, label: Seq<char>)
    requires
        l.at(slot).phase == CbReplayPhase::InFlight,
    ensures
        l.begun(slot, label) == (l, Some(ReplayFault::InFlight)),
        l.finished(slot) == (l, Some(ReplayFault::NotRecording)),
        l.tried(slot) == (l, Some(ReplayFault::NotReady)),
        l.completed(slot).begun(slot, label).1 is None,
{
}

/// What can be done to a ledger.
pub enum LedgerOp {
    Begin { slot: CbSlot, label: Seq<char> },
    Finish { slot: CbSlot },
    Try { slot: CbSlot },
    TryGraph { rt: RuntimeState, slot: CbSlot },
    RunGraph { rt: RuntimeState },
    Attach { graph: GraphView },
    Complete { slot: CbSlot },
    Flip,
    Step { label: Seq<char>, live: bool },
    StepForGraph { label: Seq<char> },
}

impl LedgerView {
    /// After one operation, refused or not.
    pub open spec fn after(self, op: LedgerOp) -> LedgerView {
        match op {
            LedgerOp::Begin { slot, label } => self.begun(slot, label).0,
            LedgerOp::Finish { slot } => self.finished(slot).0,
            LedgerOp::Try { slot } => self.tried(slot).0,
            LedgerOp::TryGraph { rt, slot } => graph_tried(rt, self, slot).1,
            LedgerOp::RunGraph { rt } => graph_run(rt, self).1,
            LedgerOp::Attach { graph } => self.attached(graph),
            LedgerOp::Complete { slot } => self.completed(slot),
            LedgerOp::Flip => self.flipped(),
            LedgerOp::Step { label, live } => self.stepped(label, live).0,
            LedgerOp::StepForGraph { label } => self.stepped_for_graph(label).0,
        }
    }

    /// The operation begins a recording.
    pub open spec fn gives(self, op: LedgerOp) -> bool {
        self.after(op).next_gen != self.next_gen
    }

    /// How many of the first `n` operations begin a recording.
    pub open spec fn records(self, ops: Seq<LedgerOp>, n: int) -> int
        decreases n,
    {
        if n <= 0 {
            0
        } else {
            self.records(ops, n - 1) + if self.after_all(ops, n - 1).gives(ops[n - 1]) {
                1int
            } else {
                0
            }
        }
    }

    /// After the first `n` operations.
    pub open spec fn after_all(self, ops: Seq<LedgerOp>, n: int) -> LedgerView
        decreases n,
    {
        if n <= 0 {
            self
        } else {
            self.after_all(ops, n - 1).after(ops[n - 1])
        }
    }
}

/// A fresh ledger's generations are below its next one, and so they stay through
/// every operation until the counter is full. A recording that is begun takes the
/// next one and raises it by one; nothing else moves it.
#[verifier::rlimit(60)]
#[verifier::spinoff_prover]
pub proof fn law_generations_stay_below_the_next(l: LedgerView, op: LedgerOp)
    requires
        l.numbered(),
        l.gives(op) ==> l.next_gen < u64::MAX,
    ensures
        LedgerView::fresh().numbered(),
        l.after(op).numbered(),
        l.after(op).next_gen == l.next_gen + if l.gives(op) {
            1int
        } else {
            0
        },
{
    match op {
        LedgerOp::TryGraph { rt, slot } => {
            lemma_graph_keeps(
                replay_flag_read(rt),
                l.with_phase(slot, CbReplayPhase::InFlight),
            );
        },
        LedgerOp::RunGraph { rt } => {
            lemma_graph_keeps(rt, l);
        },
        _ => {},
    }
}

/// Running a graph numbers nothing.
proof fn lemma_graph_keeps(rt: RuntimeState, l: LedgerView)
    ensures
        graph_run(rt, l).1.a == l.a,
        graph_run(rt, l).1.b == l.b,
        graph_run(rt, l).1.next_gen == l.next_gen,
{
}

proof fn lemma_next_grows(l: LedgerView, ops: Seq<LedgerOp>, n: int)
    requires
        l.numbered(),
        0 <= n,
        l.next_gen + l.records(ops, n) <= u64::MAX,
    ensures
        l.after_all(ops, n).numbered(),
        l.after_all(ops, n).next_gen == l.next_gen + l.records(ops, n),
    decreases n,
{
    if n > 0 {
        lemma_next_grows(l, ops, n - 1);
        law_generations_stay_below_the_next(l.after_all(ops, n - 1), ops[n - 1]);
    }
}

proof fn lemma_records_count(l: LedgerView, ops: Seq<LedgerOp>, n: int)
    ensures
        l.records(ops, n) >= 0,
    decreases n,
{
    if n > 0 {
        lemma_records_count(l, ops, n - 1);
    }
}

proof fn lemma_later_exceeds(
    l: LedgerView,
    slot: CbSlot,
    label: Seq<char>,
    n: LedgerView,
    again: CbSlot,
    later: Seq<char>,
)
    requires
        l.begun(slot, label).1 is None,
        n.begun(again, later).1 is None,
        n.numbered(),
        n.next_gen > l.next_gen,
    ensures
        ({
            let given = n.begun(again, later).0.at(again).generation;
            &&& given > l.begun(slot, label).0.at(slot).generation
            &&& given > n.a.generation
            &&& given > n.b.generation
        }),
{
}

/// Beginning a recording numbers it, and leaves the ledger numbered.
proof fn lemma_begun_numbers(l: LedgerView, slot: CbSlot, label: Seq<char>)
    requires
        l.numbered(),
        l.next_gen < u64::MAX,
        l.begun(slot, label).1 is None,
    ensures
        l.begun(slot, label).0.numbered(),
        l.begun(slot, label).0.next_gen == l.next_gen + 1,
{
}

/// A recording's generation exceeds that of every recording begun before it on
/// the same ledger, whatever was done in between, and those of both slots as they
/// are. The counter starts at 1 and each recording raises it by one, so this
/// holds while there are numbers left for the recordings.
#[verifier::rlimit(60)]
#[verifier::spinoff_prover]
pub proof fn law_generations_grow(
    l: LedgerView,
    slot: CbSlot,
    label: Seq<char>,
    between: Seq<LedgerOp>,
    again: CbSlot,
    later: Seq<char>,
)
    requires
        l.numbered(),
        l.begun(slot, label).1 is None,
        l.begun(slot, label).0.after_all(between, between.len() as int).begun(again, later).1
            is None,
        l.next_gen + 1 + l.begun(slot, label).0.records(between, between.len() as int)
            <= u64::MAX,
    ensures
        LedgerView::fresh().next_gen == 1,
        ({
            let m = l.begun(slot, label).0;
            let n = m.after_all(between, between.len() as int);
            let given = n.begun(again, later).0.at(again).generation;
            &&& given > m.at(slot).generation
            &&& given > n.a.generation
            &&& given > n.b.generation
        }),
{
    let m = l.begun(slot, label).0;
    let count = between.len() as int;
    lemma_records_count(m, between, count);
    lemma_begun_numbers(l, slot, label);
    lemma_next_grows(m, between, count);
    lemma_later_exceeds(l, slot, label, m.after_all(between, count), again, later);
}

/// A refused replay leaves both slots and the active one as they were.
pub proof fn law_refusal_keeps_the_slots(l: LedgerView, slot: CbSlot)
    requires
        l.tried(slot).1 is Some,
    ensures
        l.tried(slot).0.a == l.a,
        l.tried(slot).0.b == l.b,
        l.tried(slot).0.active == l.active,
{
}

/// So does one whose graph failed: the slot is ready for a live encode.
pub proof fn law_failed_graph_rolls_back(rt: RuntimeState, l: LedgerView, slot: CbSlot)
    requires
        graph_tried(rt, l, slot).2 is Some,
    ensures
        graph_tried(rt, l, slot).1.a == l.a,
        graph_tried(rt, l, slot).1.b == l.b,
        graph_tried(rt, l, slot).1.icb_replays == l.icb_replays,
{
}

/// With replay switched off the attached graph never runs.
pub proof fn law_replay_needs_its_flag(rt: RuntimeState, l: LedgerView, slot: CbSlot)
    requires
        !rt.icb.decode_icb_value(rt.ab.env),
    ensures
        graph_tried(rt, l, slot).2 is Some,
        graph_tried(rt, l, slot).0.ops == rt.ops,
        graph_tried(rt, l, slot).1.graph == l.graph,
{
}

} // verus!
