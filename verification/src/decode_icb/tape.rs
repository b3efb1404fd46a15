//! Analysis of a tape of recorded commands: which barriers can go, which
//! argument tables can be shared, which binds repeat.

use vstd::prelude::*;

use crate::capture::{
    bind_views, command_views, BindView, CommandView, DecodeIcbBind, DecodeIcbCommand,
};
use crate::device::ARGUMENT_TABLE_MAX_BUFFERS;

verus! {

/// One more, unless the counter is full.
pub open spec fn bumped(n: u64) -> u64 {
    if n == u64::MAX {
        n
    } else {
        (n + 1) as u64
    }
}

/// One more, unless the counter is full.
pub fn bump(n: u64) -> (r: u64)
    ensures
        r == bumped(n),
{
    if n == u64::MAX {
        n
    } else {
        n + 1
    }
}

/// Some element equals `x`.
pub fn holds(v: &[u64], x: u64) -> (r: bool)
    ensures
        r == v@.contains(x),
{
    let mut i: usize = 0;
    while i < v.len()
        invariant
            i <= v@.len(),
            forall|j: int| 0 <= j < i ==> v@[j] != x,
        decreases v@.len() - i,
    {
        if v[i] == x {
            assert(v@[i as int] == x);
            return true;
        }
        i += 1;
    }
    false
}

// ------------------------------------------------------- interference ------

/// Buffers of at most this many bytes only hold scalars, which a tape reads.
pub const READONLY_MAX_NBYTES: usize = 64;

/// The identity of the large buffer that a bind names: its base address.
pub open spec fn large(b: BindView) -> Option<u64> {
    match b {
        BindView::Buf { buf, .. } => if buf.nbytes > 64 {
            Some(buf.slab.address)
        } else {
            None
        },
        BindView::Immediate { .. } => None,
    }
}

fn large_id(b: &DecodeIcbBind) -> (r: Option<u64>)
    ensures
        r == large(b@),
{
    match b {
        DecodeIcbBind::Buf { buf, .. } => if buf.nbytes > READONLY_MAX_NBYTES {
            Some(buf.slab.address)
        } else {
            None
        },
        DecodeIcbBind::Immediate { .. } => None,
    }
}

/// The command binds the large buffer `id`.
pub open spec fn binds_large(c: CommandView, id: u64) -> bool {
    exists|i: int| 0 <= i < c.binds.len() && large(#[trigger] c.binds[i]) == Some(id)
}

/// The command binds constant bytes.
pub open spec fn has_immediate(c: CommandView) -> bool {
    exists|i: int| 0 <= i < c.binds.len() && (#[trigger] c.binds[i]) is Immediate
}

/// How many of the first `n` commands bind the large buffer `id`.
pub open spec fn binders_to(commands: Seq<CommandView>, id: u64, n: int) -> int
    decreases n,
{
    if n <= 0 {
        0
    } else {
        binders_to(commands, id, n - 1) + if binds_large(commands[n - 1], id) {
            1int
        } else {
            0int
        }
    }
}

/// A buffer that at least eight commands, and four in five, bind: a scalar pool
/// that the host updates between runs and a tape only reads.
pub open spec fn ambient(commands: Seq<CommandView>, id: u64) -> bool {
    let n = binders_to(commands, id, commands.len() as int);
    n >= 8 && n * 5 >= commands.len() * 4
}

/// The buffers by which a command can interfere with another.
pub open spec fn touched(commands: Seq<CommandView>, i: int) -> Set<u64> {
    Set::new(|id: u64| binds_large(commands[i], id) && !ambient(commands, id))
}

/// The elision of barriers in progress.
#[verifier::ext_equal]
pub struct Elision {
    /// Barrier markers of the commands seen.
    pub kept: Seq<bool>,
    /// Buffers touched since the last barrier kept.
    pub span: Set<u64>,
    /// Barriers dropped.
    pub dropped: u64,
}

/// The elision after the first `n` commands. A barrier is dropped where the
/// next command touches nothing of the open span; one beside constant bytes is
/// kept.
pub open spec fn elision(commands: Seq<CommandView>, n: int) -> Elision
    decreases n,
{
    if n <= 0 {
        Elision { kept: Seq::empty(), span: Set::empty(), dropped: 0 }
    } else {
        let p = elision(commands, n - 1);
        let c = commands[n - 1];
        let span = p.span.union(touched(commands, n - 1));
        if has_immediate(c) {
            Elision {
                kept: p.kept.push(c.barrier_after),
                span: if c.barrier_after {
                    Set::empty()
                } else {
                    span
                },
                ..p
            }
        } else if !c.barrier_after {
            Elision { kept: p.kept.push(false), span, ..p }
        } else if n >= commands.len() {
            Elision { kept: p.kept.push(true), span: Set::empty(), ..p }
        } else if has_immediate(commands[n]) || !span.disjoint(touched(commands, n)) {
            Elision { kept: p.kept.push(true), span: Set::empty(), ..p }
        } else {
            Elision { kept: p.kept.push(false), span, dropped: bumped(p.dropped) }
        }
    }
}

/// The commands with other barrier markers.
pub open spec fn remarked(commands: Seq<CommandView>, kept: Seq<bool>) -> Seq<CommandView> {
    Seq::new(
        commands.len(),
        |i: int| CommandView { barrier_after: kept[i], ..commands[i] },
    )
}

/// The commands after elision; fewer than two have nothing to elide.
pub open spec fn elided(commands: Seq<CommandView>) -> Seq<CommandView> {
    if commands.len() < 2 {
        commands
    } else {
        remarked(commands, elision(commands, commands.len() as int).kept)
    }
}

/// Barriers that elision drops.
pub open spec fn elided_count(commands: Seq<CommandView>) -> u64 {
    if commands.len() < 2 {
        0
    } else {
        elision(commands, commands.len() as int).dropped
    }
}

/// The distinct large buffers of a command.
fn large_ids(c: &DecodeIcbCommand) -> (r: Vec<u64>)
    ensures
        forall|id: u64| #[trigger] r@.contains(id) <==> binds_large(c@, id),
        r@.no_duplicates(),
{
    let mut r: Vec<u64> = Vec::new();
    let mut i: usize = 0;
    while i < c.binds.len()
        invariant
            i <= c.binds@.len(),
            r@.no_duplicates(),
            forall|id: u64| #[trigger]
                r@.contains(id) <==> exists|j: int|
                    0 <= j < i && large(#[trigger] c@.binds[j]) == Some(id),
        decreases c.binds@.len() - i,
    {
        let ghost before = r@;
        match large_id(&c.binds[i]) {
            Some(id) => {
                if !holds(r.as_slice(), id) {
                    r.push(id);
                    assert(r@.last() == id);
                    assert forall|x: u64| #[trigger] r@.contains(x) implies before.contains(x) || x
                        == id by {
                        let k = choose|k: int| 0 <= k < r@.len() && r@[k] == x;
                        if k < before.len() {
                            assert(before[k] == x);
                        }
                    }
                    assert forall|x: u64| before.contains(x) || x == id implies #[trigger] r@.contains(
                        x,
                    ) by {
                        if before.contains(x) {
                            let k = choose|k: int| 0 <= k < before.len() && before[k] == x;
                            assert(r@[k] == x);
                        }
                    }
                }
                assert(large(c@.binds[i as int]) == Some(id));
            },
            None => {
                assert(large(c@.binds[i as int]) is None);
            },
        }
        i += 1;
    }
    assert forall|id: u64| #[trigger] r@.contains(id) <==> binds_large(c@, id) by {
        if r@.contains(id) {
            let j = choose|j: int| 0 <= j < i && large(#[trigger] c@.binds[j]) == Some(id);
            assert(large(c@.binds[j]) == Some(id));
        }
    }
    r
}

fn binds_immediate(c: &DecodeIcbCommand) -> (r: bool)
    ensures
        r == has_immediate(c@),
{
    let mut i: usize = 0;
    while i < c.binds.len()
        invariant
            i <= c.binds@.len(),
            forall|j: int| 0 <= j < i ==> !((#[trigger] c@.binds[j]) is Immediate),
        decreases c.binds@.len() - i,
    {
        match &c.binds[i] {
            DecodeIcbBind::Immediate { .. } => {
                assert(c@.binds[i as int] is Immediate);
                return true;
            },
            DecodeIcbBind::Buf { .. } => {
                assert(!(c@.binds[i as int] is Immediate));
            },
        }
        i += 1;
    }
    false
}

/// The counter of an id in a frequency table, or a new entry of one.
fn count_id(freq: &mut Vec<(u64, usize)>, id: u64)
    requires
        forall|i: int, j: int|
            0 <= i < j < old(freq)@.len() ==> (#[trigger] old(freq)@[i]).0 != (
            #[trigger] old(freq)@[j]).0,
        forall|i: int|
            0 <= i < old(freq)@.len() && (#[trigger] old(freq)@[i]).0 == id ==> old(freq)@[i].1
                < usize::MAX,
    ensures
        ({
            let b = old(freq)@;
            let a = final(freq)@;
            &&& forall|i: int, j: int| 0 <= i < j < a.len() ==> (#[trigger] a[i]).0 != (#[trigger] a[j]).0
            &&& b.len() <= a.len() <= b.len() + 1
            &&& forall|i: int|
                0 <= i < b.len() ==> (#[trigger] a[i]).0 == b[i].0 && a[i].1 == if b[i].0 == id {
                    b[i].1 + 1
                } else {
                    b[i].1 as int
                }
            &&& a.len() == b.len() + 1 ==> a[b.len() as int] == (id, 1usize) && forall|i: int|
                0 <= i < b.len() ==> (#[trigger] b[i]).0 != id
            &&& exists|i: int| 0 <= i < a.len() && (#[trigger] a[i]).0 == id
        }),
{
    let ghost b = freq@;
    let mut i: usize = 0;
    while i < freq.len()
        invariant
            i <= freq@.len(),
            freq@ == b,
            b == old(freq)@,
            forall|j: int| 0 <= j < i ==> (#[trigger] b[j]).0 != id,
            forall|k: int, j: int| 0 <= k < j < b.len() ==> (#[trigger] b[k]).0 != (#[trigger] b[j]).0,
            forall|k: int|
                0 <= k < b.len() && (#[trigger] b[k]).0 == id ==> b[k].1 < usize::MAX,
        decreases freq@.len() - i,
    {
        let (k, n) = freq[i];
        if k == id {
            assert(b[i as int].0 == id);
            freq.set(i, (id, n + 1));
            assert(freq@[i as int].0 == id);
            assert forall|j: int| 0 <= j < b.len() && j != i implies (#[trigger] b[j]).0 != id by {
                if j < i {
                    assert(b[j].0 != b[i as int].0);
                } else {
                    assert(b[i as int].0 != b[j].0);
                }
            }
            assert(forall|j: int| 0 <= j < b.len() ==> (#[trigger] freq@[j]).0 == b[j].0);
            assert forall|k: int, j: int| 0 <= k < j < freq@.len() implies (#[trigger] freq@[k]).0
                != (#[trigger] freq@[j]).0 by {
                assert(b[k].0 != b[j].0);
            }
            return;
        }
        i += 1;
    }
    freq.push((id, 1));
    assert(freq@[b.len() as int].0 == id);
}

/// How often each large buffer is bound, over the first `n` commands.
spec fn tallied(freq: Seq<(u64, usize)>, commands: Seq<CommandView>, n: int) -> bool {
    &&& forall|i: int, j: int| 0 <= i < j < freq.len() ==> (#[trigger] freq[i]).0 != (#[trigger] freq[j]).0
    &&& forall|i: int|
        0 <= i < freq.len() ==> (#[trigger] freq[i]).1 == binders_to(commands, freq[i].0, n)
    &&& forall|id: u64| #[trigger]
        binders_to(commands, id, n) > 0 ==> exists|i: int|
            0 <= i < freq.len() && (#[trigger] freq[i]).0 == id
}

proof fn lemma_binders_bounds(commands: Seq<CommandView>, id: u64, n: int)
    requires
        0 <= n,
    ensures
        0 <= binders_to(commands, id, n) <= n,
    decreases n,
{
    if n > 0 {
        lemma_binders_bounds(commands, id, n - 1);
    }
}

/// Every bound id of command `n` has been counted up to position `k` of its
/// list.
spec fn part_tallied(
    freq: Seq<(u64, usize)>,
    commands: Seq<CommandView>,
    n: int,
    ids: Seq<u64>,
    k: int,
) -> bool {
    &&& forall|i: int, j: int| 0 <= i < j < freq.len() ==> (#[trigger] freq[i]).0 != (#[trigger] freq[j]).0
    &&& forall|i: int|
        0 <= i < freq.len() ==> (#[trigger] freq[i]).1 == binders_to(commands, freq[i].0, n)
            + if ids.take(k).contains(freq[i].0) {
            1int
        } else {
            0int
        }
    &&& forall|id: u64| #[trigger]
        binders_to(commands, id, n) > 0 || ids.take(k).contains(id) ==> exists|i: int|
            0 <= i < freq.len() && (#[trigger] freq[i]).0 == id
}

fn tally_command(
    freq: &mut Vec<(u64, usize)>,
    commands: Ghost<Seq<CommandView>>,
    c: &DecodeIcbCommand,
    n: usize,
)
    requires
        tallied(old(freq)@, commands@, n as int),
        n < commands@.len() <= usize::MAX,
        commands@[n as int] == c@,
    ensures
        tallied(final(freq)@, commands@, n + 1),
{
    let ids = large_ids(c);
    let mut k: usize = 0;
    assert(ids@.take(0) =~= Seq::<u64>::empty());
    while k < ids.len()
        invariant
            k <= ids@.len(),
            n < commands@.len() <= usize::MAX,
            ids@.no_duplicates(),
            part_tallied(freq@, commands@, n as int, ids@, k as int),
        decreases ids@.len() - k,
    {
        let id: u64 = ids[k];
        let ghost b = freq@;
        proof {
            assert(!ids@.take(k as int).contains(id)) by {
                if ids@.take(k as int).contains(id) {
                    let j = choose|j: int| 0 <= j < k && ids@.take(k as int)[j] == id;
                    assert(ids@[j] == id && ids@[k as int] == id);
                }
            }
            assert(ids@.take(k + 1) =~= ids@.take(k as int).push(id));
            assert forall|x: u64| #[trigger] ids@.take(k + 1).contains(x) <==> ids@.take(
                k as int,
            ).contains(x) || x == id by {
                let t = ids@.take(k as int);
                if t.contains(x) {
                    let j = choose|j: int| 0 <= j < t.len() && t[j] == x;
                    assert(t.push(id)[j] == x);
                }
                if x == id {
                    assert(t.push(id)[t.len() as int] == x);
                }
                if t.push(id).contains(x) && x != id {
                    let j = choose|j: int| 0 <= j < t.push(id).len() && t.push(id)[j] == x;
                    assert(t[j] == x);
                }
            }
            assert forall|i: int| 0 <= i < freq@.len() && (#[trigger] freq@[i]).0 == id implies freq@[i].1
                < usize::MAX by {
                lemma_binders_bounds(commands@, freq@[i].0, n as int);
            }
        }
        count_id(freq, id);
        proof {
            let a = freq@;
            if a.len() == b.len() + 1 {
                lemma_binders_bounds(commands@, id, n as int);
                assert(binders_to(commands@, id, n as int) == 0) by {
                    if binders_to(commands@, id, n as int) > 0 {
                        let i = choose|i: int| 0 <= i < b.len() && (#[trigger] b[i]).0 == id;
                        assert(b[i].0 == id);
                    }
                }
            }
            assert forall|x: u64| #[trigger]
                binders_to(commands@, x, n as int) > 0 || ids@.take(k + 1).contains(
                    x,
                ) implies exists|i: int| 0 <= i < a.len() && (#[trigger] a[i]).0 == x by {
                if x != id {
                    assert(binders_to(commands@, x, n as int) > 0 || ids@.take(k as int).contains(
                        x,
                    ));
                    let i = choose|i: int| 0 <= i < b.len() && (#[trigger] b[i]).0 == x;
                    assert(a[i].0 == x);
                }
            }
        }
        k += 1;
    }
    proof {
        assert(ids@.take(k as int) =~= ids@);
        assert forall|i: int| 0 <= i < freq@.len() implies (#[trigger] freq@[i]).1 == binders_to(
            commands@,
            freq@[i].0,
            n + 1,
        ) by {
            assert(ids@.contains(freq@[i].0) <==> binds_large(c@, freq@[i].0));
        }
        assert forall|id: u64| #[trigger] binders_to(commands@, id, n + 1) > 0 implies exists|i: int|
            0 <= i < freq@.len() && (#[trigger] freq@[i]).0 == id by {
            assert(ids@.contains(id) <==> binds_large(c@, id));
            assert(binders_to(commands@, id, n as int) > 0 || ids@.take(k as int).contains(id));
        }
    }
}

/// The ambient buffers of a tape.
fn ambient_ids(commands: &Vec<DecodeIcbCommand>) -> (r: Vec<u64>)
    ensures
        forall|id: u64| #[trigger] r@.contains(id) <==> ambient(command_views(commands@), id),
{
    let ghost views = command_views(commands@);
    let mut freq: Vec<(u64, usize)> = Vec::new();
    let mut i: usize = 0;
    assert forall|id: u64| #[trigger] binders_to(views, id, 0) > 0 implies exists|j: int|
        0 <= j < freq@.len() && (#[trigger] freq@[j]).0 == id by {}
    while i < commands.len()
        invariant
            i <= commands@.len(),
            views == command_views(commands@),
            tallied(freq@, views, i as int),
        decreases commands@.len() - i,
    {
        tally_command(&mut freq, Ghost(views), &commands[i], i);
        i += 1;
    }
    let n: u128 = commands.len() as u128;
    let mut r: Vec<u64> = Vec::new();
    let mut k: usize = 0;
    while k < freq.len()
        invariant
            k <= freq@.len(),
            n == commands@.len(),
            n <= u64::MAX,
            views == command_views(commands@),
            tallied(freq@, views, commands@.len() as int),
            forall|id: u64| #[trigger]
                r@.contains(id) <==> ambient(views, id) && exists|j: int|
                    0 <= j < k && (#[trigger] freq@[j]).0 == id,
        decreases freq@.len() - k,
    {
        let (id, count) = freq[k];
        let ghost before = r@;
        if count >= 8 && count as u128 * 5 >= n * 4 {
            r.push(id);
            assert(r@.last() == id);
            assert(ambient(views, id));
        } else {
            assert(!ambient(views, id));
        }
        assert(freq@[k as int].0 == id);
        assert forall|x: u64| #[trigger] r@.contains(x) <==> before.contains(x) || (x == id
            && ambient(views, id)) by {
            if before.contains(x) {
                let j = choose|j: int| 0 <= j < before.len() && before[j] == x;
                assert(r@[j] == x);
            }
            if r@.contains(x) && !before.contains(x) {
                let j = choose|j: int| 0 <= j < r@.len() && r@[j] == x;
                if j < before.len() {
                    assert(before[j] == x);
                }
            }
        }
        k += 1;
    }
    assert forall|id: u64| #[trigger] r@.contains(id) <==> ambient(views, id) by {
        if ambient(views, id) {
            assert(binders_to(views, id, commands@.len() as int) > 0);
            let j = choose|j: int| 0 <= j < freq@.len() && (#[trigger] freq@[j]).0 == id;
            assert(freq@[j].0 == id);
        }
    }
    r
}

/// The buffers by which a command can interfere.
fn buf_set(commands: &Vec<DecodeIcbCommand>, i: usize, ambient_set: &Vec<u64>) -> (r: Vec<u64>)
    requires
        i < commands@.len(),
        forall|id: u64| #[trigger]
            ambient_set@.contains(id) <==> ambient(command_views(commands@), id),
    ensures
        forall|id: u64| #[trigger]
            r@.contains(id) <==> touched(command_views(commands@), i as int).contains(id),
{
    let ghost views = command_views(commands@);
    let c = &commands[i];
    assert(views[i as int] == c@);
    let ids = large_ids(c);
    let mut r: Vec<u64> = Vec::new();
    let mut k: usize = 0;
    while k < ids.len()
        invariant
            k <= ids@.len(),
            forall|id: u64| #[trigger]
                r@.contains(id) <==> ids@.take(k as int).contains(id) && !ambient_set@.contains(id),
        decreases ids@.len() - k,
    {
        let id: u64 = ids[k];
        let ghost before = r@;
        if !holds(ambient_set.as_slice(), id) {
            r.push(id);
            assert(r@.last() == id);
        }
        assert(ids@.take(k + 1) =~= ids@.take(k as int).push(id));
        assert forall|x: u64| #[trigger] r@.contains(x) <==> ids@.take(k + 1).contains(x)
            && !ambient_set@.contains(x) by {
            let t = ids@.take(k as int);
            lemma_push_contains(t, id, x);
            lemma_push_contains(before, id, x);
        }
        k += 1;
    }
    assert(ids@.take(k as int) =~= ids@);
    assert forall|id: u64| #[trigger] r@.contains(id) <==> touched(views, i as int).contains(id) by {
        assert(ids@.contains(id) <==> binds_large(c@, id));
        assert(ambient_set@.contains(id) <==> ambient(views, id));
    }
    r
}

proof fn lemma_push_contains(s: Seq<u64>, y: u64, x: u64)
    ensures
        s.push(y).contains(x) <==> s.contains(x) || x == y,
{
    if s.contains(x) {
        let j = choose|j: int| 0 <= j < s.len() && s[j] == x;
        assert(s.push(y)[j] == x);
    }
    if x == y {
        assert(s.push(y)[s.len() as int] == x);
    }
    if s.push(y).contains(x) && x != y {
        let j = choose|j: int| 0 <= j < s.push(y).len() && s.push(y)[j] == x;
        assert(s[j] == x);
    }
}

/// Some element of `a` is one of `b`.
fn meet(a: &[u64], b: &[u64]) -> (r: bool)
    ensures
        r == exists|x: u64| a@.contains(x) && #[trigger] b@.contains(x),
{
    let mut i: usize = 0;
    while i < a.len()
        invariant
            i <= a@.len(),
            forall|j: int| 0 <= j < i ==> !b@.contains(#[trigger] a@[j]),
        decreases a@.len() - i,
    {
        if holds(b, a[i]) {
            assert(a@.contains(a@[i as int]));
            return true;
        }
        i += 1;
    }
    false
}

/// Adds the ids that are not there yet.
fn widen(span: &mut Vec<u64>, ids: &Vec<u64>)
    ensures
        forall|x: u64| #[trigger]
            final(span)@.contains(x) <==> old(span)@.contains(x) || ids@.contains(x),
{
    let ghost before = span@;
    let mut i: usize = 0;
    while i < ids.len()
        invariant
            i <= ids@.len(),
            before == old(span)@,
            forall|x: u64| #[trigger]
                span@.contains(x) <==> before.contains(x) || ids@.take(i as int).contains(x),
        decreases ids@.len() - i,
    {
        let id: u64 = ids[i];
        let ghost s = span@;
        if !holds(span.as_slice(), id) {
            span.push(id);
        }
        assert(ids@.take(i + 1) =~= ids@.take(i as int).push(id));
        assert forall|x: u64| #[trigger] span@.contains(x) <==> before.contains(x) || ids@.take(
            i + 1,
        ).contains(x) by {
            lemma_push_contains(s, id, x);
            lemma_push_contains(ids@.take(i as int), id, x);
        }
        i += 1;
    }
    assert(ids@.take(i as int) =~= ids@);
}

/// The markers to keep, and how many are dropped.
fn barriers_to_keep(commands: &Vec<DecodeIcbCommand>) -> (r: (Vec<bool>, u64))
    ensures
        r.0@ == elision(command_views(commands@), commands@.len() as int).kept,
        r.1 == elision(command_views(commands@), commands@.len() as int).dropped,
        r.0@.len() == commands@.len(),
{
    let ghost views = command_views(commands@);
    let ambient_set = ambient_ids(commands);
    let mut kept: Vec<bool> = Vec::new();
    let mut dropped: u64 = 0;
    let mut span: Vec<u64> = Vec::new();
    let mut i: usize = 0;
    while i < commands.len()
        invariant
            i <= commands@.len(),
            views == command_views(commands@),
            forall|id: u64| #[trigger] ambient_set@.contains(id) <==> ambient(views, id),
            kept@.len() == i,
            kept@ == elision(views, i as int).kept,
            dropped == elision(views, i as int).dropped,
            forall|id: u64| #[trigger]
                span@.contains(id) <==> elision(views, i as int).span.contains(id),
        decreases commands@.len() - i,
    {
        let barrier = commands[i].barrier_after;
        assert(views[i as int] == commands@[i as int]@);
        let ghost p = elision(views, i as int);
        let ghost wide = p.span.union(touched(views, i as int));
        let ids = buf_set(commands, i, &ambient_set);
        widen(&mut span, &ids);
        assert forall|id: u64| #[trigger] span@.contains(id) <==> wide.contains(id) by {
            assert(ids@.contains(id) <==> touched(views, i as int).contains(id));
        }
        if !barrier {
            kept.push(false);
        } else if binds_immediate(&commands[i]) || i + 1 >= commands.len() {
            span = Vec::new();
            kept.push(true);
        } else {
            let next = buf_set(commands, i + 1, &ambient_set);
            let m = meet(span.as_slice(), next.as_slice());
            proof {
                assert(views[i + 1] == commands@[i + 1]@);
                let t = touched(views, i + 1);
                if m {
                    let x = choose|x: u64| span@.contains(x) && #[trigger] next@.contains(x);
                    assert(wide.contains(x) && t.contains(x));
                    assert(!wide.disjoint(t));
                } else {
                    assert forall|x: u64| wide.contains(x) implies !t.contains(x) by {
                        assert(span@.contains(x) <==> wide.contains(x));
                        assert(next@.contains(x) <==> t.contains(x));
                    }
                    assert(wide.disjoint(t));
                }
            }
            if m || binds_immediate(&commands[i + 1]) {
                span = Vec::new();
                kept.push(true);
            } else {
                kept.push(false);
                dropped = bump(dropped);
            }
        }
        assert forall|id: u64| #[trigger] span@.contains(id) <==> elision(
            views,
            i + 1,
        ).span.contains(id) by {}
        i += 1;
    }
    (kept, dropped)
}

/// Drops the barrier after a command where the next command touches nothing
/// that the open span touched. Returns how many went.
pub fn elide_non_interfering_barriers(commands: &mut Vec<DecodeIcbCommand>) -> (r: u64)
    ensures
        command_views(final(commands)@) == elided(command_views(old(commands)@)),
        r == elided_count(command_views(old(commands)@)),
{
    let ghost views = command_views(commands@);
    if commands.len() < 2 {
        return 0;
    }
    let (kept, dropped) = barriers_to_keep(commands);
    let mut i: usize = 0;
    while i < commands.len()
        invariant
            i <= commands@.len(),
            commands@.len() == views.len(),
            kept@.len() == views.len(),
            forall|j: int|
                0 <= j < i ==> (#[trigger] commands@[j])@ == (CommandView {
                    barrier_after: kept@[j],
                    ..views[j]
                }),
            forall|j: int| i <= j < views.len() ==> (#[trigger] commands@[j])@ == views[j],
        decreases commands@.len() - i,
    {
        let ghost before = commands@;
        let c = &mut commands[i];
        c.barrier_after = kept[i];
        assert(commands@[i as int]@ == (CommandView {
            barrier_after: kept@[i as int],
            ..before[i as int]@
        }));
        i += 1;
    }
    assert(command_views(commands@) =~= elided(views));
    dropped
}

/// Elision changes nothing but barrier markers, and never adds one.
pub proof fn law_elision_only_drops_barriers(commands: Seq<CommandView>, i: int)
    requires
        0 <= i < commands.len(),
    ensures
        elided(commands).len() == commands.len(),
        elided(commands)[i] == (CommandView {
            barrier_after: elided(commands)[i].barrier_after,
            ..commands[i]
        }),
        elided(commands)[i].barrier_after ==> commands[i].barrier_after,
{
    if commands.len() >= 2 {
        lemma_kept(commands, commands.len() as int, i);
    }
}

proof fn lemma_kept(commands: Seq<CommandView>, n: int, i: int)
    requires
        0 <= i < n <= commands.len(),
    ensures
        elision(commands, n).kept.len() == n,
        elision(commands, n).kept[i] == elision(commands, i + 1).kept[i],
        elision(commands, n).kept[i] ==> commands[i].barrier_after,
    decreases n,
{
    lemma_kept_len(commands, n - 1);
    lemma_kept_len(commands, i);
    if i < n - 1 {
        lemma_kept(commands, n - 1, i);
    }
}

proof fn lemma_kept_len(commands: Seq<CommandView>, n: int)
    requires
        0 <= n <= commands.len(),
    ensures
        elision(commands, n).kept.len() == n,
    decreases n,
{
    if n > 0 {
        lemma_kept_len(commands, n - 1);
    }
}

/// What a command touches is in the open span until a barrier is kept.
proof fn lemma_span_holds(commands: Seq<CommandView>, n: int, i: int, id: u64)
    requires
        0 <= i < n < commands.len(),
        forall|j: int| i <= j < n ==> !(#[trigger] elision(commands, commands.len() as int).kept[j]),
        touched(commands, i).contains(id),
    ensures
        elision(commands, n).span.contains(id),
    decreases n,
{
    lemma_kept(commands, commands.len() as int, n - 1);
    lemma_kept_len(commands, n - 1);
    assert(!elision(commands, commands.len() as int).kept[n - 1]);
    if i < n - 1 {
        lemma_span_holds(commands, n - 1, i, id);
    }
}

/// A barrier that was dropped stood between commands that cannot interfere: the
/// next command touches nothing that any command since the last barrier kept
/// touched.
pub proof fn law_dropped_barriers_were_idle(commands: Seq<CommandView>, i: int, p: int)
    requires
        0 <= i <= p < commands.len() - 1,
        commands[p].barrier_after,
        forall|j: int| i <= j <= p ==> !(#[trigger] elided(commands)[j]).barrier_after,
    ensures
        touched(commands, i).disjoint(touched(commands, p + 1)),
{
    let n = commands.len() as int;
    assert forall|j: int| i <= j <= p implies !(#[trigger] elision(commands, n).kept[j]) by {
        assert(!elided(commands)[j].barrier_after);
    }
    lemma_kept(commands, n, p);
    lemma_kept_len(commands, p);
    assert(!elision(commands, n).kept[p]);
    let q = elision(commands, p);
    let span = q.span.union(touched(commands, p));
    assert(span.disjoint(touched(commands, p + 1)));
    assert forall|id: u64| touched(commands, i).contains(id) implies !touched(
        commands,
        p + 1,
    ).contains(id) by {
        if i < p {
            lemma_span_holds(commands, p, i, id);
        }
        assert(span.contains(id));
    }
}

/// On a tape recorded with a barrier after every command any two commands that no
/// barrier separates any more cannot interfere.
pub proof fn law_fenced_tapes_stay_ordered(commands: Seq<CommandView>, i: int, j: int)
    requires
        0 <= i < j < commands.len(),
        forall|k: int| 0 <= k < commands.len() ==> (#[trigger] commands[k]).barrier_after,
        forall|k: int| i <= k < j ==> !(#[trigger] elided(commands)[k]).barrier_after,
    ensures
        touched(commands, i).disjoint(touched(commands, j)),
{
    law_dropped_barriers_were_idle(commands, i, j - 1);
}

// --------------------------------------------------------- fingerprints ----

/// A list ordered by slot, with `x` put behind the slots up to its own, looking
/// down from position `n`.
pub open spec fn insert_slot(s: Seq<(usize, u64)>, x: (usize, u64), n: int) -> Seq<(usize, u64)>
    decreases n,
{
    if n <= 0 || n > s.len() || s[n - 1].0 <= x.0 {
        s.insert(if 0 <= n <= s.len() {
            n
        } else {
            0
        }, x)
    } else {
        insert_slot(s, x, n - 1)
    }
}

/// The buffer binds of the first `n`, ordered by slot; equal slots keep their
/// order.
pub open spec fn slots_to(binds: Seq<BindView>, n: int) -> Seq<(usize, u64)>
    decreases n,
{
    if n <= 0 {
        Seq::empty()
    } else {
        let s = slots_to(binds, n - 1);
        match binds[n - 1] {
            BindView::Buf { index, gpu_addr, .. } => if index < ARGUMENT_TABLE_MAX_BUFFERS {
                insert_slot(s, (index, gpu_addr), s.len() as int)
            } else {
                s
            },
            BindView::Immediate { .. } => s,
        }
    }
}

/// One byte-free FNV-1a round.
pub open spec fn fnv(h: u64, x: u64) -> u64 {
    (h ^ x).wrapping_mul(0x100000001b3)
}

/// The hash of the first `n` slots.
pub open spec fn hashed_to(s: Seq<(usize, u64)>, n: int) -> u64
    decreases n,
{
    if n <= 0 {
        0xcbf29ce484222325
    } else {
        fnv(fnv(hashed_to(s, n - 1), s[n - 1].0 as u64), s[n - 1].1)
    }
}

/// The key under which argument tables are shared: the hash of the buffer
/// binds in slot order.
pub open spec fn fingerprint(binds: Seq<BindView>) -> u64 {
    let s = slots_to(binds, binds.len() as int);
    hashed_to(s, s.len() as int)
}

fn ordered_slots(binds: &Vec<DecodeIcbBind>) -> (r: Vec<(usize, u64)>)
    ensures
        r@ == slots_to(bind_views(binds@), binds@.len() as int),
{
    let ghost views = bind_views(binds@);
    let mut r: Vec<(usize, u64)> = Vec::new();
    let mut i: usize = 0;
    while i < binds.len()
        invariant
            i <= binds@.len(),
            views == bind_views(binds@),
            r@ == slots_to(views, i as int),
        decreases binds@.len() - i,
    {
        assert(views[i as int] == binds@[i as int]@);
        match &binds[i] {
            DecodeIcbBind::Buf { index, gpu_addr, .. } => {
                if *index < ARGUMENT_TABLE_MAX_BUFFERS {
                    let mut n: usize = r.len();
                    while n > 0 && r[n - 1].0 > *index
                        invariant
                            n <= r@.len(),
                            insert_slot(r@, (*index, *gpu_addr), r@.len() as int) == insert_slot(
                                r@,
                                (*index, *gpu_addr),
                                n as int,
                            ),
                        decreases n,
                    {
                        n -= 1;
                    }
                    r.insert(n, (*index, *gpu_addr));
                }
            },
            DecodeIcbBind::Immediate { .. } => {},
        }
        i += 1;
    }
    r
}

/// The key under which argument tables are shared.
pub fn buf_bind_fingerprint(binds: &Vec<DecodeIcbBind>) -> (r: u64)
    ensures
        r == fingerprint(bind_views(binds@)),
{
    let slots = ordered_slots(binds);
    let mut h: u64 = 0xcbf29ce484222325;
    let mut i: usize = 0;
    while i < slots.len()
        invariant
            i <= slots@.len(),
            h == hashed_to(slots@, i as int),
        decreases slots@.len() - i,
    {
        let (index, address) = slots[i];
        h = (h ^ index as u64).wrapping_mul(0x100000001b3);
        h = (h ^ address).wrapping_mul(0x100000001b3);
        i += 1;
    }
    h
}

// --------------------------------------------------------- sticky binds ----

/// What the argument table holds while a tape is walked, and counts of it.
#[verifier::ext_equal]
pub struct StickyCount {
    /// The address known to sit in each slot.
    pub slots: Seq<Option<u64>>,
    pub total: u64,
    pub skippable: u64,
}

impl StickyCount {
    /// Nothing bound.
    pub open spec fn start() -> StickyCount {
        StickyCount {
            slots: Seq::new(ARGUMENT_TABLE_MAX_BUFFERS as nat, |i: int| None),
            total: 0,
            skippable: 0,
        }
    }

    /// After one bind. A buffer whose address sits in its slot could be
    /// skipped; constant bytes always move and clear theirs.
    pub open spec fn after(self, b: BindView) -> StickyCount {
        match b {
            BindView::Buf { index, gpu_addr, .. } => {
                let s = StickyCount { total: bumped(self.total), ..self };
                if index >= ARGUMENT_TABLE_MAX_BUFFERS {
                    s
                } else if self.slots[index as int] == Some(gpu_addr) {
                    StickyCount { skippable: bumped(self.skippable), ..s }
                } else {
                    StickyCount { slots: self.slots.update(index as int, Some(gpu_addr)), ..s }
                }
            },
            BindView::Immediate { index, .. } => if index >= ARGUMENT_TABLE_MAX_BUFFERS {
                self
            } else {
                StickyCount { slots: self.slots.update(index as int, None), ..self }
            },
        }
    }

    /// After the first `n` binds.
    pub open spec fn after_binds(self, binds: Seq<BindView>, n: int) -> StickyCount
        decreases n,
    {
        if n <= 0 {
            self
        } else {
            self.after_binds(binds, n - 1).after(binds[n - 1])
        }
    }

    /// After the first `n` commands.
    pub open spec fn after_commands(self, commands: Seq<CommandView>, n: int) -> StickyCount
        decreases n,
    {
        if n <= 0 {
            self
        } else {
            let binds = commands[n - 1].binds;
            self.after_commands(commands, n - 1).after_binds(binds, binds.len() as int)
        }
    }
}

/// Buffer binds of a tape, and those a sticky walk skips.
pub open spec fn sticky_counts(commands: Seq<CommandView>) -> (u64, u64) {
    let s = StickyCount::start().after_commands(commands, commands.len() as int);
    (s.total, s.skippable)
}

/// Counts the buffer binds, and those whose address already sits in its slot.
pub fn analyze_sticky_buf_binds(commands: &Vec<DecodeIcbCommand>) -> (r: (u64, u64))
    ensures
        r == sticky_counts(command_views(commands@)),
{
    let ghost views = command_views(commands@);
    let mut slots: Vec<Option<u64>> = empty_slots();
    let mut total: u64 = 0;
    let mut skippable: u64 = 0;
    let mut i: usize = 0;
    while i < commands.len()
        invariant
            i <= commands@.len(),
            views == command_views(commands@),
            slots@.len() == ARGUMENT_TABLE_MAX_BUFFERS,
            (StickyCount { slots: slots@, total, skippable }) == StickyCount::start().after_commands(
                views,
                i as int,
            ),
        decreases commands@.len() - i,
    {
        let binds = &commands[i].binds;
        assert(views[i as int] == commands@[i as int]@);
        let ghost bv = bind_views(binds@);
        let ghost s0 = StickyCount { slots: slots@, total, skippable };
        let mut j: usize = 0;
        while j < binds.len()
            invariant
                j <= binds@.len(),
                bv == bind_views(binds@),
                s0.slots.len() == ARGUMENT_TABLE_MAX_BUFFERS,
                slots@.len() == ARGUMENT_TABLE_MAX_BUFFERS,
                (StickyCount { slots: slots@, total, skippable }) == s0.after_binds(bv, j as int),
            decreases binds@.len() - j,
        {
            assert(bv[j as int] == binds@[j as int]@);
            match &binds[j] {
                DecodeIcbBind::Buf { index, gpu_addr, .. } => {
                    total = bump(total);
                    if *index < ARGUMENT_TABLE_MAX_BUFFERS {
                        if is_address(&slots[*index], *gpu_addr) {
                            skippable = bump(skippable);
                        } else {
                            slots.set(*index, Some(*gpu_addr));
                        }
                    }
                },
                DecodeIcbBind::Immediate { index, .. } => {
                    if *index < ARGUMENT_TABLE_MAX_BUFFERS {
                        slots.set(*index, None);
                    }
                },
            }
            j += 1;
        }
        i += 1;
    }
    (total, skippable)
}

/// The slot holds the address.
pub fn is_address(slot: &Option<u64>, address: u64) -> (r: bool)
    ensures
        r == (*slot == Some(address)),
{
    match slot {
        Some(a) => *a == address,
        None => false,
    }
}

/// No address known in any slot.
pub fn empty_slots() -> (r: Vec<Option<u64>>)
    ensures
        r@ == StickyCount::start().slots,
{
    let mut r: Vec<Option<u64>> = Vec::new();
    let mut i: usize = 0;
    while i < ARGUMENT_TABLE_MAX_BUFFERS
        invariant
            i <= ARGUMENT_TABLE_MAX_BUFFERS,
            r@.len() == i,
            forall|j: int| 0 <= j < i ==> r@[j] is None,
        decreases ARGUMENT_TABLE_MAX_BUFFERS - i,
    {
        r.push(None);
        i += 1;
    }
    assert(r@ =~= StickyCount::start().slots);
    r
}

} // verus!
