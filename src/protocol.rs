//! The commit protocol as a state machine. Each step names one call to the
//! operating system; whoever drives the machine performs that call and hands
//! its raw result (a non-negative value or a negated error number) back.

use vstd::prelude::*;
use crate::errno::{EINTR, EWOULDBLOCK};

verus! {

/// A call that the protocol needs from the operating system.
#[derive(Clone, Copy, PartialEq, Eq, Structural, Debug)]
pub enum Op {
    /// `open(origin, O_RDWR | O_CREAT, mode)`; yields a descriptor.
    OpenOrigin,
    /// `flock(origin_fd, LOCK_EX)`, with `LOCK_NB` unless the file waits.
    LockOrigin,
    /// `open(shadow, O_RDWR | O_CREAT | O_TRUNC, mode)`; yields a descriptor.
    OpenShadow,
    /// `fstat(origin_fd)`; yields the size of the origin.
    StatOrigin,
    /// Bulk copy of the remaining bytes of the origin into the shadow;
    /// yields the number of bytes copied.
    CopyToShadow,
    /// `fdatasync(shadow_fd)`.
    SyncShadow,
    /// `close(shadow_fd)`; its result is not looked at.
    CloseShadow,
    /// `rename(shadow, origin)`: the one step that changes the origin.
    RenameShadow,
    /// `unlink(shadow)`: the step that drops discarded changes.
    UnlinkShadow,
    /// `flock(origin_fd, LOCK_UN)`.
    UnlockOrigin,
    /// `close(origin_fd)`; its result is not looked at.
    CloseOrigin,
}

/// The kind of a failed read, write, seek or sync, from its error number.
#[derive(Clone, Copy, PartialEq, Eq, Structural, Debug)]
pub enum IoKind {
    WouldBlock,
    NotFound,
    PermissionDenied,
    Interrupted,
    InvalidInput,
    IoError,
    BrokenPipe,
    Other,
}

/// The class of a failure.
#[derive(Clone, Copy, PartialEq, Eq, Structural, Debug)]
pub enum Failure {
    /// The pathname names no file.
    Path,
    /// The lock is held elsewhere and the file does not wait for it.
    Lock,
    /// Opening, locking, sizing or copying failed while setting up the shadow.
    Load,
    /// The file is not in a usable state.
    InvalidState,
    /// A read, write, seek, sync or resize of the shadow failed.
    Io(IoKind),
    /// Syncing, publishing, discarding or unlocking failed while storing.
    Commit,
}

/// What the machine asks for next.
#[derive(Clone, Copy, PartialEq, Eq, Structural, Debug)]
pub enum Step {
    /// Perform this call and report its result.
    Call(Op),
    /// The task finished successfully.
    Done,
    /// The task failed; every descriptor that it opened has been closed,
    /// except where a store failed part way.
    Fail(Failure),
}

/// The work in progress.
#[derive(Clone, Copy, PartialEq, Eq, Structural, Debug)]
pub enum Task {
    Idle,
    Load,
    Store,
    /// A store followed by a load.
    Commit,
}

/// The whole state of the protocol apart from the two paths.
#[derive(Clone, Copy, PartialEq, Eq, Structural, Debug)]
pub struct Machine {
    pub task: Task,
    /// The call that was asked for last.
    pub pending: Op,
    /// The shadow is loaded and the lock is held.
    pub valid: bool,
    /// A store unlinks the shadow instead of publishing it.
    pub discard: bool,
    /// Lock contention blocks instead of failing.
    pub wait: bool,
    pub origin_fd: isize,
    pub shadow_fd: isize,
    /// Bytes of the origin not yet copied into the shadow.
    pub remaining: u64,
    /// Closing descriptors on the way out of a failed load.
    pub unwinding: bool,
    /// The failure being reported or unwound.
    pub failure: Failure,
    /// The call at which that failure happened.
    pub failed_at: Op,
    /// A load has been started; a file is loaded by its owner only once.
    pub opened: bool,
}

impl Machine {
    /// A machine for a file that has not been loaded yet.
    pub open spec fn fresh(wait: bool) -> Machine {
        Machine {
            task: Task::Idle,
            pending: Op::OpenOrigin,
            valid: false,
            discard: false,
            wait: wait,
            origin_fd: -1isize,
            shadow_fd: -1isize,
            remaining: 0,
            unwinding: false,
            failure: Failure::InvalidState,
            failed_at: Op::OpenOrigin,
            opened: false,
        }
    }

    /// Ask for `op` as part of the current task.
    pub open spec fn call(self, op: Op) -> (Machine, Step) {
        (Machine { pending: op, ..self }, Step::Call(op))
    }

    /// End the current task with `f`, raised at the pending call.
    pub open spec fn fail(self, f: Failure) -> (Machine, Step) {
        (
            Machine { task: Task::Idle, unwinding: false, failure: f, failed_at: self.pending, ..self },
            Step::Fail(f),
        )
    }

    /// Close what a failed load opened (shadow first if `shadow_open`),
    /// then report `f`.
    pub open spec fn unwind(self, f: Failure, shadow_open: bool) -> (Machine, Step) {
        let m = Machine { unwinding: true, failure: f, failed_at: self.pending, ..self };
        if shadow_open {
            m.call(Op::CloseShadow)
        } else {
            m.call(Op::CloseOrigin)
        }
    }

    /// Start loading: the lock is taken and the origin copied into a fresh
    /// shadow.
    pub open spec fn begin_load(self) -> (Machine, Step) {
        Machine { task: Task::Load, valid: false, unwinding: false, opened: true, ..self }.call(
            Op::OpenOrigin,
        )
    }

    /// The first load of a file; a file that was loaded before, and has been
    /// stored or invalidated since, is not loaded again.
    pub open spec fn begin_open(self) -> (Machine, Step) {
        if self.opened {
            Machine { pending: Op::OpenOrigin, ..self }.fail(Failure::InvalidState)
        } else {
            self.begin_load()
        }
    }

    /// Start storing: publish (or discard) the shadow and release the lock.
    pub open spec fn begin_store(self, then_load: bool) -> (Machine, Step) {
        if !self.valid {
            Machine { pending: Op::SyncShadow, ..self }.fail(Failure::InvalidState)
        } else {
            Machine {
                task: if then_load { Task::Commit } else { Task::Store },
                unwinding: false,
                ..self
            }.call(Op::SyncShadow)
        }
    }

    /// The next state and step once the pending call returned `r`.
    pub open spec fn next(self, r: isize) -> (Machine, Step) {
        if self.task == Task::Idle {
            (self, Step::Done)
        } else if self.unwinding {
            match self.pending {
                Op::CloseShadow => self.call(Op::CloseOrigin),
                _ => (
                    Machine { task: Task::Idle, unwinding: false, origin_fd: -1isize, shadow_fd: -1isize, ..self },
                    Step::Fail(self.failure),
                ),
            }
        } else {
            match self.pending {
                Op::OpenOrigin => if r < 0 {
                    self.fail(Failure::Load)
                } else {
                    Machine { origin_fd: r, ..self }.call(Op::LockOrigin)
                },
                Op::LockOrigin => if r == -EINTR {
                    self.call(Op::LockOrigin)
                } else if r == 0 {
                    self.call(Op::OpenShadow)
                } else if r == -EWOULDBLOCK && !self.wait {
                    self.unwind(Failure::Lock, false)
                } else {
                    self.unwind(Failure::Load, false)
                },
                Op::OpenShadow => if r < 0 {
                    self.unwind(Failure::Load, false)
                } else {
                    Machine { shadow_fd: r, ..self }.call(Op::StatOrigin)
                },
                Op::StatOrigin => if r < 0 {
                    self.unwind(Failure::Load, true)
                } else {
                    Machine { remaining: r as u64, ..self }.call(Op::CopyToShadow)
                },
                Op::CopyToShadow => if r < 0 || (r == 0 && self.remaining > 0) {
                    self.unwind(Failure::Load, true)
                } else if r as u64 >= self.remaining {
                    (Machine { task: Task::Idle, valid: true, remaining: 0, ..self }, Step::Done)
                } else {
                    Machine { remaining: (self.remaining - r as u64) as u64, ..self }.call(
                        Op::CopyToShadow,
                    )
                },
                Op::SyncShadow => if r < 0 {
                    self.fail(Failure::Commit)
                } else {
                    self.call(Op::CloseShadow)
                },
                Op::CloseShadow => if self.discard {
                    self.call(Op::UnlinkShadow)
                } else {
                    self.call(Op::RenameShadow)
                },
                Op::RenameShadow | Op::UnlinkShadow => if r < 0 {
                    Machine { valid: false, ..self }.fail(Failure::Commit)
                } else {
                    self.call(Op::UnlockOrigin)
                },
                Op::UnlockOrigin => if r < 0 {
                    Machine { valid: false, ..self }.fail(Failure::Commit)
                } else {
                    self.call(Op::CloseOrigin)
                },
                Op::CloseOrigin => {
                    let m = Machine { valid: false, origin_fd: -1isize, shadow_fd: -1isize, ..self };
                    if self.task == Task::Commit {
                        m.begin_load()
                    } else {
                        (Machine { task: Task::Idle, ..m }, Step::Done)
                    }
                },
            }
        }
    }

    /// Runs the transition of `next`.
    pub fn advance(&mut self, r: isize) -> (s: Step)
        ensures
            (*final(self), s) == old(self).next(r),
    {
        if self.task == Task::Idle {
            return Step::Done;
        }
        if self.unwinding {
            if self.pending == Op::CloseShadow {
                return self.ask(Op::CloseOrigin);
            }
            self.task = Task::Idle;
            self.unwinding = false;
            self.origin_fd = -1;
            self.shadow_fd = -1;
            return Step::Fail(self.failure);
        }
        match self.pending {
            Op::OpenOrigin => {
                if r < 0 {
                    self.stop(Failure::Load)
                } else {
                    self.origin_fd = r;
                    self.ask(Op::LockOrigin)
                }
            },
            Op::LockOrigin => {
                if r == -EINTR {
                    self.ask(Op::LockOrigin)
                } else if r == 0 {
                    self.ask(Op::OpenShadow)
                } else if r == -EWOULDBLOCK && !self.wait {
                    self.give_up(Failure::Lock, false)
                } else {
                    self.give_up(Failure::Load, false)
                }
            },
            Op::OpenShadow => {
                if r < 0 {
                    self.give_up(Failure::Load, false)
                } else {
                    self.shadow_fd = r;
                    self.ask(Op::StatOrigin)
                }
            },
            Op::StatOrigin => {
                if r < 0 {
                    self.give_up(Failure::Load, true)
                } else {
                    self.remaining = r as u64;
                    self.ask(Op::CopyToShadow)
                }
            },
            Op::CopyToShadow => {
                if r < 0 || (r == 0 && self.remaining > 0) {
                    self.give_up(Failure::Load, true)
                } else if r as u64 >= self.remaining {
                    self.task = Task::Idle;
                    self.valid = true;
                    self.remaining = 0;
                    Step::Done
                } else {
                    self.remaining = self.remaining - r as u64;
                    self.ask(Op::CopyToShadow)
                }
            },
            Op::SyncShadow => {
                if r < 0 {
                    self.stop(Failure::Commit)
                } else {
                    self.ask(Op::CloseShadow)
                }
            },
            Op::CloseShadow => {
                if self.discard {
                    self.ask(Op::UnlinkShadow)
                } else {
                    self.ask(Op::RenameShadow)
                }
            },
            Op::RenameShadow | Op::UnlinkShadow => {
                if r < 0 {
                    self.valid = false;
                    self.stop(Failure::Commit)
                } else {
                    self.ask(Op::UnlockOrigin)
                }
            },
            Op::UnlockOrigin => {
                if r < 0 {
                    self.valid = false;
                    self.stop(Failure::Commit)
                } else {
                    self.ask(Op::CloseOrigin)
                }
            },
            Op::CloseOrigin => {
                self.valid = false;
                self.origin_fd = -1;
                self.shadow_fd = -1;
                if self.task == Task::Commit {
                    self.start_load()
                } else {
                    self.task = Task::Idle;
                    Step::Done
                }
            },
        }
    }

    fn ask(&mut self, op: Op) -> (s: Step)
        ensures
            (*final(self), s) == old(self).call(op),
    {
        self.pending = op;
        Step::Call(op)
    }

    fn stop(&mut self, f: Failure) -> (s: Step)
        ensures
            (*final(self), s) == old(self).fail(f),
    {
        self.task = Task::Idle;
        self.unwinding = false;
        self.failure = f;
        self.failed_at = self.pending;
        Step::Fail(f)
    }

    fn give_up(&mut self, f: Failure, shadow_open: bool) -> (s: Step)
        ensures
            (*final(self), s) == old(self).unwind(f, shadow_open),
    {
        self.unwinding = true;
        self.failure = f;
        self.failed_at = self.pending;
        if shadow_open {
            self.ask(Op::CloseShadow)
        } else {
            self.ask(Op::CloseOrigin)
        }
    }

    /// Runs the transition of `begin_load`.
    pub fn start_load(&mut self) -> (s: Step)
        ensures
            (*final(self), s) == old(self).begin_load(),
    {
        self.task = Task::Load;
        self.valid = false;
        self.unwinding = false;
        self.opened = true;
        self.ask(Op::OpenOrigin)
    }

    /// Runs the transition of `begin_open`.
    pub fn start_open(&mut self) -> (s: Step)
        ensures
            (*final(self), s) == old(self).begin_open(),
    {
        if self.opened {
            self.pending = Op::OpenOrigin;
            return self.stop(Failure::InvalidState);
        }
        self.start_load()
    }

    /// Runs the transition of `begin_store`.
    pub fn start_store(&mut self, then_load: bool) -> (s: Step)
        ensures
            (*final(self), s) == old(self).begin_store(then_load),
    {
        if !self.valid {
            self.pending = Op::SyncShadow;
            return self.stop(Failure::InvalidState);
        }
        self.task = if then_load { Task::Commit } else { Task::Store };
        self.unwinding = false;
        self.ask(Op::SyncShadow)
    }
}

} // verus!
