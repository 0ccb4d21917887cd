//! What the commit protocol does to the disk when every call succeeds, and
//! the guarantees that follow: writes stay in the shadow, a store publishes
//! exactly the shadow, a discarded store leaves the origin alone, and a
//! commit repeated without writes changes nothing.

use vstd::prelude::*;
use crate::errno::{EINTR, EWOULDBLOCK};
use crate::protocol::{Failure, Machine, Op, Step, Task};

verus! {

/// The two paths that one atomic file touches, and the position of the
/// shadow's descriptor. `None` stands for a path that does not exist.
pub struct Disk {
    pub origin: Option<Seq<u8>>,
    pub shadow: Option<Seq<u8>>,
    pub cursor: nat,
}

/// The bytes at a path; a missing file reads as empty.
pub open spec fn content(f: Option<Seq<u8>>) -> Seq<u8> {
    match f {
        Some(c) => c,
        None => Seq::empty(),
    }
}

/// Sizes that every call can report in its result.
pub open spec fn sizes_fit(d: Disk) -> bool {
    content(d.origin).len() <= isize::MAX && content(d.shadow).len() <= isize::MAX
}

/// The disk after `op` succeeds, and the result the call returns.
pub open spec fn perform(d: Disk, m: Machine, op: Op) -> (Disk, isize) {
    match op {
        Op::OpenOrigin => (Disk { origin: Some(content(d.origin)), ..d }, 3),
        Op::OpenShadow => (Disk { shadow: Some(Seq::empty()), cursor: 0, ..d }, 4),
        Op::StatOrigin => (d, content(d.origin).len() as isize),
        Op::CopyToShadow => (
            Disk { shadow: Some(content(d.origin)), cursor: content(d.origin).len(), ..d },
            m.remaining as isize,
        ),
        Op::RenameShadow => (Disk { origin: Some(content(d.shadow)), shadow: None, ..d }, 0),
        Op::UnlinkShadow => (Disk { shadow: None, ..d }, 0),
        _ => (d, 0),
    }
}

/// Drives the machine from step `s` for at most `fuel` calls, each of them
/// succeeding.
pub open spec fn run(m: Machine, s: Step, d: Disk, fuel: nat) -> (Machine, Step, Disk)
    decreases fuel,
{
    match s {
        Step::Call(op) => if fuel == 0 {
            (m, s, d)
        } else {
            let (d2, r) = perform(d, m, op);
            let (m2, s2) = m.next(r);
            run(m2, s2, d2, (fuel - 1) as nat)
        },
        _ => (m, s, d),
    }
}

/// Loads the file with every call succeeding.
pub open spec fn load(m: Machine, d: Disk) -> (Machine, Step, Disk) {
    let (m1, s1) = m.begin_load();
    run(m1, s1, d, 5)
}

/// Stores the file (and reloads it when `then_load`) with every call
/// succeeding.
pub open spec fn store(m: Machine, d: Disk, then_load: bool) -> (Machine, Step, Disk) {
    let (m1, s1) = m.begin_store(then_load);
    run(m1, s1, d, 10)
}

/// A write of `w` at the shadow's position.
pub open spec fn write(d: Disk, w: Seq<u8>) -> Disk {
    let c = content(d.shadow);
    let end = d.cursor + w.len();
    Disk {
        shadow: Some(
            c.subrange(0, d.cursor as int) + w + if end < c.len() {
                c.subrange(end as int, c.len() as int)
            } else {
                Seq::empty()
            },
        ),
        cursor: end,
        ..d
    }
}

/// A sequence of writes, in order.
pub open spec fn write_all(d: Disk, ws: Seq<Seq<u8>>) -> Disk
    decreases ws.len(),
{
    if ws.len() == 0 {
        d
    } else {
        write(write_all(d, ws.drop_last()), ws.last())
    }
}

/// Once a loaded file is invalid it stays invalid: loading it again,
/// storing and committing all fail at once, asking for no call.
pub proof fn law_invalid_is_final(m: Machine)
    requires
        m.opened,
        !m.valid,
    ensures
        m.begin_open().1 == Step::Fail(Failure::InvalidState),
        !m.begin_open().0.valid,
        m.begin_store(false).1 == Step::Fail(Failure::InvalidState),
        !m.begin_store(false).0.valid,
        m.begin_store(true).1 == Step::Fail(Failure::InvalidState),
        !m.begin_store(true).0.valid,
{
}

/// A machine that is not in the middle of a task.
pub open spec fn at_rest(m: Machine) -> bool {
    m.task == Task::Idle && !m.unwinding
}

proof fn lemma_run_split(m: Machine, s: Step, d: Disk, a: nat, b: nat)
    ensures
        run(m, s, d, a + b) == ({
            let (m1, s1, d1) = run(m, s, d, a);
            run(m1, s1, d1, b)
        }),
    decreases a,
{
    if a > 0 {
        if let Step::Call(op) = s {
            let (d2, r) = perform(d, m, op);
            let (m2, s2) = m.next(r);
            lemma_run_split(m2, s2, d2, (a - 1) as nat, b);
            assert((a + b - 1) as nat == (a - 1) as nat + b);
        }
    }
}

proof fn lemma_load(m: Machine, d: Disk)
    requires
        sizes_fit(d),
    ensures
        ({
            let (m1, s1, d1) = load(m, d);
            &&& s1 == Step::Done
            &&& at_rest(m1) && m1.valid
            &&& m1.discard == m.discard && m1.wait == m.wait
            &&& d1.origin == Some(content(d.origin))
            &&& d1.shadow == Some(content(d.origin))
            &&& d1.cursor == content(d.origin).len()
        }),
{
    reveal_with_fuel(run, 6);
}

proof fn lemma_store(m: Machine, d: Disk)
    requires
        at_rest(m),
        m.valid,
    ensures
        ({
            let (m1, s1, d1) = store(m, d, false);
            &&& s1 == Step::Done
            &&& at_rest(m1) && !m1.valid
            &&& m1.discard == m.discard && m1.wait == m.wait
            &&& d1.origin == if m.discard {
                d.origin
            } else {
                Some(content(d.shadow))
            }
            &&& d1.shadow is None
        }),
{
    reveal_with_fuel(run, 6);
}

proof fn lemma_commit(m: Machine, d: Disk)
    requires
        at_rest(m),
        m.valid,
        sizes_fit(d),
    ensures
        ({
            let (m1, s1, d1) = store(m, d, true);
            let published = if m.discard {
                content(d.origin)
            } else {
                content(d.shadow)
            };
            &&& s1 == Step::Done
            &&& at_rest(m1) && m1.valid
            &&& m1.discard == m.discard && m1.wait == m.wait
            &&& d1.origin == Some(published)
            &&& d1.shadow == Some(published)
            &&& d1.cursor == published.len()
        }),
{
    let (m1, s1) = m.begin_store(true);
    lemma_run_split(m1, s1, d, 5, 5);
    reveal_with_fuel(run, 6);
    let (mc, sc, dc) = run(m1, s1, d, 4);
    assert(sc == Step::Call(Op::CloseOrigin));
    let mm = Machine { valid: false, origin_fd: -1isize, shadow_fd: -1isize, ..mc };
    assert(run(m1, s1, d, 5) == run(mm.begin_load().0, mm.begin_load().1, dc, 0));
    assert(sizes_fit(dc));
    lemma_load(mm, dc);
}

proof fn lemma_write_all_keeps_origin(d: Disk, ws: Seq<Seq<u8>>)
    ensures
        write_all(d, ws).origin == d.origin,
    decreases ws.len(),
{
    if ws.len() > 0 {
        lemma_write_all_keeps_origin(d, ws.drop_last());
    }
}

/// Write isolation: after a successful load, no sequence of writes changes
/// the origin's content; it stays what it was before the file was opened.
pub proof fn law_write_isolation(m: Machine, d: Disk, ws: Seq<Seq<u8>>)
    requires
        at_rest(m),
        sizes_fit(d),
    ensures
        ({
            let (m1, s1, d1) = load(m, d);
            &&& s1 == Step::Done
            &&& m1.valid
            &&& content(write_all(d1, ws).origin) == content(d.origin)
        }),
{
    lemma_load(m, d);
    let (m1, s1, d1) = load(m, d);
    lemma_write_all_keeps_origin(d1, ws);
}

/// A commit repeated with no write in between leaves the origin as the
/// first commit left it.
pub proof fn law_commit_idempotent(m: Machine, d: Disk)
    requires
        at_rest(m),
        m.valid,
        sizes_fit(d),
    ensures
        ({
            let (m1, s1, d1) = store(m, d, true);
            let (m2, s2, d2) = store(m1, d1, true);
            &&& s1 == Step::Done && s2 == Step::Done
            &&& d2.origin == d1.origin
        }),
{
    lemma_commit(m, d);
    let (m1, s1, d1) = store(m, d, true);
    lemma_commit(m1, d1);
}

/// A close publishes exactly the shadow's bytes as the origin, and the shadow
/// is gone.
pub proof fn law_close_publishes(m: Machine, d: Disk)
    requires
        at_rest(m),
        m.valid,
        !m.discard,
        sizes_fit(d),
    ensures
        ({
            let (m1, s1, d1) = store(m, d, false);
            &&& s1 == Step::Done
            &&& content(d1.origin) == content(d.shadow)
            &&& d1.shadow is None
        }),
{
    lemma_store(m, d);
}

/// Forgetting before the final store leaves the origin as it was before the
/// file was opened, and the shadow is gone.
pub proof fn law_forget_discards(m: Machine, d: Disk, ws: Seq<Seq<u8>>)
    requires
        at_rest(m),
        sizes_fit(d),
    ensures
        ({
            let (m1, s1, d1) = load(m, d);
            let d2 = write_all(d1, ws);
            let (m3, s3, d3) = store(Machine { discard: true, ..m1 }, d2, false);
            &&& s3 == Step::Done
            &&& content(d3.origin) == content(d.origin)
            &&& d3.shadow is None
        }),
{
    lemma_load(m, d);
    let (m1, s1, d1) = load(m, d);
    let d2 = write_all(d1, ws);
    lemma_write_all_keeps_origin(d1, ws);
    lemma_store(Machine { discard: true, ..m1 }, d2);
}

/// Round trip: on a new or empty file, open, write `w`, commit, close, and
/// open the path anew: the new file's shadow, and the origin, hold exactly
/// `w`.
pub proof fn law_round_trip(m: Machine, d: Disk, w: Seq<u8>)
    requires
        at_rest(m),
        !m.discard,
        content(d.origin).len() == 0,
        sizes_fit(d),
        w.len() <= isize::MAX,
    ensures
        ({
            let (m1, s1, d1) = load(m, d);
            let d2 = write(d1, w);
            let (m3, s3, d3) = store(m1, d2, true);
            let (m4, s4, d4) = store(m3, d3, false);
            let (m5, s5, d5) = load(Machine::fresh(m.wait), d4);
            &&& s1 == Step::Done && s3 == Step::Done && s4 == Step::Done && s5 == Step::Done
            &&& content(d5.shadow) == w
            &&& content(d5.origin) == w
        }),
{
    lemma_load(m, d);
    let (m1, s1, d1) = load(m, d);
    let d2 = write(d1, w);
    assert(content(d2.shadow) =~= w);
    lemma_commit(m1, d2);
    let (m3, s3, d3) = store(m1, d2, true);
    lemma_store(m3, d3);
    let (m4, s4, d4) = store(m3, d3, false);
    lemma_load(Machine::fresh(m.wait), d4);
}

/// Lock contention: without waiting, a held lock ends the load with a lock
/// failure once the origin is closed again; a signal only repeats the lock
/// call; only an acquired lock goes on to the shadow.
pub proof fn law_lock_contention(m: Machine, r: isize)
    requires
        m.task == Task::Load,
        !m.unwinding,
        !m.valid,
        m.pending == Op::LockOrigin,
    ensures
        !m.wait ==> ({
            let (m1, s1) = m.next((-EWOULDBLOCK) as isize);
            &&& s1 == Step::Call(Op::CloseOrigin)
            &&& m1.next(r).1 == Step::Fail(Failure::Lock)
            &&& !m1.next(r).0.valid
        }),
        m.wait ==> m.next((-EWOULDBLOCK) as isize).1 != Step::Call(Op::OpenShadow),
        m.next((-EINTR) as isize).1 == Step::Call(Op::LockOrigin),
        m.next(r).1 == Step::Call(Op::OpenShadow) <==> r == 0,
{
}

} // verus!
