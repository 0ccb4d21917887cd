//! An atomically updated file: every change goes to a private shadow file,
//! and a commit publishes the shadow with a single rename.

use vstd::prelude::*;
use vstd::string::*;
use crate::errno::{EAGAIN, EBADF, EDQUOT, EFAULT, EFBIG, EINTR, EINVAL, EIO, EISDIR, ENOSPC, ENXIO, EPIPE};
use crate::protocol::{Failure, IoKind, Machine, Op, Step, Task};

verus! {

/// Position of the last `/` in `p`, or -1 when there is none.
pub open spec fn last_slash(p: Seq<char>) -> int
    decreases p.len(),
{
    if p.len() == 0 {
        -1
    } else if p.last() == '/' {
        p.len() - 1
    } else {
        last_slash(p.drop_last())
    }
}

/// `p` without the `/` characters at its end.
pub open spec fn trim_slashes(p: Seq<char>) -> Seq<char>
    decreases p.len(),
{
    if p.len() > 0 && p.last() == '/' {
        trim_slashes(p.drop_last())
    } else {
        p
    }
}

/// The directory part of a path: everything up to and including the last `/`
/// once trailing slashes are gone (empty for a bare file name).
pub open spec fn dir_of(p: Seq<char>) -> Seq<char> {
    let t = trim_slashes(p);
    t.subrange(0, last_slash(t) + 1)
}

/// The file name of a path: what follows the last `/` once trailing slashes
/// are gone.
pub open spec fn name_of(p: Seq<char>) -> Seq<char> {
    let t = trim_slashes(p);
    t.subrange(last_slash(t) + 1, t.len() as int)
}

/// A path names a file when its file name is neither empty, `.` nor `..`.
pub open spec fn names_file(p: Seq<char>) -> bool {
    let n = name_of(p);
    n.len() != 0 && n != seq!['.'] && n != seq!['.', '.']
}

/// `<dir>/.<name>.shadow`: where the uncommitted content of `p` lives.
pub open spec fn shadow_of(p: Seq<char>) -> Seq<char> {
    dir_of(p) + seq!['.'] + name_of(p) + seq!['.', 's', 'h', 'a', 'd', 'o', 'w']
}

proof fn lemma_last_slash_bounds(p: Seq<char>)
    ensures
        -1 <= last_slash(p) < p.len(),
        last_slash(p) >= 0 ==> p[last_slash(p)] == '/',
        forall|i: int| last_slash(p) < i < p.len() ==> p[i] != '/',
    decreases p.len(),
{
    if p.len() > 0 && p.last() != '/' {
        let q = p.drop_last();
        lemma_last_slash_bounds(q);
        assert forall|i: int| last_slash(p) < i < p.len() implies p[i] != '/' by {
            if i < q.len() {
                assert(q[i] == p[i]);
            }
        }
    }
}

proof fn lemma_trim_slashes(p: Seq<char>)
    ensures
        trim_slashes(p).len() <= p.len(),
        trim_slashes(p) == p.subrange(0, trim_slashes(p).len() as int),
        trim_slashes(p).len() > 0 ==> trim_slashes(p).last() != '/',
        forall|i: int| trim_slashes(p).len() <= i < p.len() ==> p[i] == '/',
    decreases p.len(),
{
    if p.len() > 0 && p.last() == '/' {
        let q = p.drop_last();
        lemma_trim_slashes(q);
        let t = trim_slashes(q);
        assert(t =~= p.subrange(0, t.len() as int));
        assert forall|i: int| t.len() <= i < p.len() implies p[i] == '/' by {
            if i < q.len() {
                assert(q[i] == p[i]);
            }
        }
    } else {
        assert(p =~= p.subrange(0, p.len() as int));
    }
}

/// Length of `p` once the trailing slashes are gone.
fn trimmed_len(p: &str) -> (r: usize)
    ensures
        r == trim_slashes(p@).len(),
        r <= p@.len(),
{
    let n = p.unicode_len();
    let mut k: usize = n;
    proof {
        lemma_trim_slashes(p@);
        assert(p@.subrange(0, n as int) =~= p@);
    }
    while k > 0 && p.get_char(k - 1) == '/'
        invariant
            k <= n == p@.len(),
            trim_slashes(p@) == trim_slashes(p@.subrange(0, k as int)),
        decreases k,
    {
        proof {
            let s = p@.subrange(0, k as int);
            assert(s.drop_last() =~= p@.subrange(0, k - 1));
        }
        k = k - 1;
    }
    proof {
        let s = p@.subrange(0, k as int);
        assert(k == 0 ==> s.len() == 0);
    }
    k
}

/// Position just after the last `/` among the first `end` characters of `p`.
fn name_start(p: &str, end: usize) -> (r: usize)
    requires
        end <= p@.len(),
    ensures
        r == last_slash(p@.subrange(0, end as int)) + 1,
{
    let mut k: usize = end;
    while k > 0 && p.get_char(k - 1) != '/'
        invariant
            k <= end <= p@.len(),
            last_slash(p@.subrange(0, end as int)) == last_slash(p@.subrange(0, k as int)),
        decreases k,
    {
        proof {
            let s = p@.subrange(0, k as int);
            assert(s.drop_last() =~= p@.subrange(0, k - 1));
        }
        k = k - 1;
    }
    k
}

/// Derives the shadow path of `pathname`, or `None` where `pathname` names
/// no file (empty, only slashes, or ending in `.` or `..`).
pub fn shadow_path(pathname: &str) -> (r: Option<String>)
    ensures
        r is Some <==> names_file(pathname@),
        r matches Some(s) ==> s@ == shadow_of(pathname@),
{
    let end = trimmed_len(pathname);
    let start = name_start(pathname, end);
    proof {
        let t = trim_slashes(pathname@);
        lemma_trim_slashes(pathname@);
        assert(t =~= pathname@.subrange(0, end as int));
        lemma_last_slash_bounds(t);
    }
    let name = pathname.substring_char(start, end);
    let dir = pathname.substring_char(0, start);
    let name_len = end - start;
    if name_len == 0 {
        return None;
    }
    if name_len <= 2 && name.get_char(0) == '.' && (name_len == 1 || name.get_char(1) == '.') {
        proof {
            assert(name@ =~= name_of(pathname@));
            if name_len == 1 {
                assert(name@ =~= seq!['.']);
            } else {
                assert(name@ =~= seq!['.', '.']);
            }
        }
        return None;
    }
    proof {
        assert(name@ =~= name_of(pathname@));
        assert(name@ != seq!['.']) by {
            if name@ == seq!['.'] {
                assert(name@[0] == '.');
            }
        }
        assert(name@ != seq!['.', '.']) by {
            if name@ == seq!['.', '.'] {
                assert(name@[0] == '.' && name@[1] == '.');
            }
        }
    }
    let mut s = String::from_str(dir);
    s.append(".");
    s.append(name);
    s.append(".shadow");
    proof {
        reveal_strlit(".");
        reveal_strlit(".shadow");
        assert(dir@ =~= dir_of(pathname@));
        assert(s@ =~= shadow_of(pathname@));
    }
    Some(s)
}


/// A failure with the trail of calls it passed through, root cause first.
#[derive(Debug)]
pub struct StackErr {
    pub kind: Failure,
    pub frames: Vec<String>,
}

impl StackErr {
    /// A failure of class `kind` whose root cause is described by `root`.
    pub fn new(kind: Failure, root: &str) -> (r: StackErr)
        ensures
            r.kind == kind,
            r.frames@.len() == 1,
            r.frames@[0]@ == root@,
    {
        let mut frames: Vec<String> = Vec::new();
        frames.push(String::from_str(root));
        StackErr { kind, frames }
    }

    /// Adds the context of an enclosing call.
    pub fn push(&mut self, frame: &str)
        ensures
            final(self).kind == old(self).kind,
            final(self).frames@.len() == old(self).frames@.len() + 1,
            forall|i: int|
                0 <= i < old(self).frames@.len() ==> final(self).frames@[i] == old(self).frames@[i],
            final(self).frames@.last()@ == frame@,
    {
        self.frames.push(String::from_str(frame));
    }
}

/// Where a seek starts from.
#[derive(Clone, Copy, PartialEq, Eq, Structural, Debug)]
pub enum SeekFrom {
    Start(u64),
    End(i64),
    Current(i64),
}

/// `lseek` whence values.
pub const SEEK_SET: usize = 0;
pub const SEEK_CUR: usize = 1;
pub const SEEK_END: usize = 2;

/// The kind of a failed write with error number `e`.
pub open spec fn write_kind(e: int) -> IoKind {
    if e == EAGAIN {
        IoKind::WouldBlock
    } else if e == EBADF {
        IoKind::NotFound
    } else if e == EDQUOT || e == EFBIG || e == ENOSPC {
        IoKind::PermissionDenied
    } else if e == EINTR {
        IoKind::Interrupted
    } else if e == EINVAL {
        IoKind::InvalidInput
    } else if e == EIO {
        IoKind::IoError
    } else if e == EPIPE {
        IoKind::BrokenPipe
    } else {
        IoKind::Other
    }
}

/// The kind of a failed read with error number `e`.
pub open spec fn read_kind(e: int) -> IoKind {
    if e == EAGAIN {
        IoKind::WouldBlock
    } else if e == EBADF {
        IoKind::NotFound
    } else if e == EINTR {
        IoKind::Interrupted
    } else if e == EINVAL || e == EISDIR {
        IoKind::InvalidInput
    } else if e == EIO {
        IoKind::IoError
    } else if e == ENOSPC {
        IoKind::PermissionDenied
    } else {
        IoKind::Other
    }
}

/// The kind of a failed seek with error number `e`.
pub open spec fn seek_kind(e: int) -> IoKind {
    if e == EBADF {
        IoKind::NotFound
    } else if e == EINVAL || e == ENXIO {
        IoKind::InvalidInput
    } else {
        IoKind::Other
    }
}

/// The kind of a failed data sync with error number `e`.
pub open spec fn sync_kind(e: int) -> IoKind {
    if e == EBADF {
        IoKind::NotFound
    } else if e == EINVAL {
        IoKind::InvalidInput
    } else if e == EIO {
        IoKind::IoError
    } else {
        IoKind::Other
    }
}

/// A raw result `r` of a call: its value, or the failure of kind `k(-r)`.
pub open spec fn outcome(r: isize, kind: IoKind) -> Result<usize, Failure> {
    if r >= 0 {
        Ok(r as usize)
    } else {
        Err(Failure::Io(kind))
    }
}

/// An atomically updated file. All reads, writes and seeks go to the shadow;
/// the origin changes only when a store renames the shadow onto it.
#[derive(Debug)]
pub struct File {
    orgin_path: String,
    shadow_path: String,
    mode: usize,
    machine: Machine,
}

impl File {
    pub closed spec fn origin(&self) -> Seq<char> {
        self.orgin_path@
    }

    pub closed spec fn shadow(&self) -> Seq<char> {
        self.shadow_path@
    }

    pub closed spec fn creation_mode(&self) -> usize {
        self.mode
    }

    pub closed spec fn state(&self) -> Machine {
        self.machine
    }

    /// Prepares an atomic file for `pathname`, created with permissions
    /// `mode` if absent; `wait` chooses to block on a held lock. Nothing is
    /// opened until `load` runs.
    pub fn open(pathname: &str, mode: usize, wait: bool) -> (r: Result<File, StackErr>)
        ensures
            r is Ok <==> names_file(pathname@),
            r matches Ok(f) ==> {
                &&& f.origin() == pathname@
                &&& f.shadow() == shadow_of(pathname@)
                &&& f.creation_mode() == mode
                &&& f.state() == Machine::fresh(wait)
            },
            r matches Err(e) ==> e.kind == Failure::Path,
    {
        match shadow_path(pathname) {
            None => Err(StackErr::new(Failure::Path, "pathname names no file")),
            Some(shadow) => {
                let m = Machine {
                    task: Task::Idle,
                    pending: Op::OpenOrigin,
                    valid: false,
                    discard: false,
                    wait: wait,
                    origin_fd: -1,
                    shadow_fd: -1,
                    remaining: 0,
                    unwinding: false,
                    failure: Failure::InvalidState,
                    failed_at: Op::OpenOrigin,
                    opened: false,
                };
                Ok(File { orgin_path: String::from_str(pathname), shadow_path: shadow, mode, machine: m })
            },
        }
    }

    pub fn origin_path(&self) -> (r: &str)
        ensures
            r@ == self.origin(),
    {
        self.orgin_path.as_str()
    }

    pub fn shadow_path(&self) -> (r: &str)
        ensures
            r@ == self.shadow(),
    {
        self.shadow_path.as_str()
    }

    pub fn mode(&self) -> (r: usize)
        ensures
            r == self.creation_mode(),
    {
        self.mode
    }

    pub fn machine(&self) -> (r: Machine)
        ensures
            r == self.state(),
    {
        self.machine
    }

    /// Starts the load sequence: lock the origin and copy it into a fresh
    /// shadow. Only a file that was never loaded can be.
    pub fn load(&mut self) -> (s: Step)
        ensures
            (final(self).state(), s) == old(self).state().begin_open(),
            final(self).origin() == old(self).origin(),
            final(self).shadow() == old(self).shadow(),
            final(self).creation_mode() == old(self).creation_mode(),
    {
        self.machine.start_open()
    }

    /// Starts a store: publish (or discard) the shadow and unlock.
    pub fn store(&mut self) -> (s: Step)
        ensures
            (final(self).state(), s) == old(self).state().begin_store(false),
            final(self).origin() == old(self).origin(),
            final(self).shadow() == old(self).shadow(),
            final(self).creation_mode() == old(self).creation_mode(),
    {
        self.machine.start_store(false)
    }

    /// Starts a commit: a store, then a fresh load so the file stays usable.
    pub fn commit(&mut self) -> (s: Step)
        ensures
            (final(self).state(), s) == old(self).state().begin_store(true),
            final(self).origin() == old(self).origin(),
            final(self).shadow() == old(self).shadow(),
            final(self).creation_mode() == old(self).creation_mode(),
    {
        self.machine.start_store(true)
    }

    /// Starts the final store; the file is not to be used once it finishes.
    pub fn close(&mut self) -> (s: Step)
        ensures
            (final(self).state(), s) == old(self).state().begin_store(false),
            final(self).origin() == old(self).origin(),
            final(self).shadow() == old(self).shadow(),
            final(self).creation_mode() == old(self).creation_mode(),
    {
        self.store()
    }

    /// Marks the pending changes to be dropped by the next store.
    pub fn forget(&mut self)
        ensures
            final(self).state() == (Machine { discard: true, ..old(self).state() }),
            final(self).origin() == old(self).origin(),
            final(self).shadow() == old(self).shadow(),
            final(self).creation_mode() == old(self).creation_mode(),
    {
        self.machine.discard = true;
    }

    /// Hands the result `r` of the pending call to the protocol.
    pub fn resume(&mut self, r: isize) -> (s: Step)
        ensures
            (final(self).state(), s) == old(self).state().next(r),
            final(self).origin() == old(self).origin(),
            final(self).shadow() == old(self).shadow(),
            final(self).creation_mode() == old(self).creation_mode(),
    {
        self.machine.advance(r)
    }

    /// The descriptor that reads, writes, seeks and resizes go to: the
    /// shadow's, while the file is valid.
    pub fn io_target(&self) -> (r: Result<isize, Failure>)
        ensures
            r == if self.state().valid {
                Ok::<isize, Failure>(self.state().shadow_fd)
            } else {
                Err::<isize, Failure>(Failure::InvalidState)
            },
    {
        if self.machine.valid {
            Ok(self.machine.shadow_fd)
        } else {
            Err(Failure::InvalidState)
        }
    }

    /// The outcome of resizing the shadow, given `ftruncate`'s result `r`.
    pub fn set_len(&self, r: isize) -> (res: Result<(), StackErr>)
        ensures
            res is Ok <==> r == 0,
            res matches Err(e) ==> e.kind == Failure::Io(if r < 0 {
                write_kind(-r)
            } else {
                IoKind::Other
            }),
    {
        if r == 0 {
            Ok(())
        } else {
            let k = if r < 0 && r != isize::MIN { write_kind_of(-r) } else { IoKind::Other };
            proof {
                if r == isize::MIN {
                    assert(write_kind(-r) == IoKind::Other);
                }
            }
            Err(StackErr::new(Failure::Io(k), "could not resize the shadow"))
        }
    }
}

fn write_kind_of(e: isize) -> (k: IoKind)
    ensures
        k == write_kind(e as int),
{
    if e == EAGAIN {
        IoKind::WouldBlock
    } else if e == EBADF {
        IoKind::NotFound
    } else if e == EDQUOT || e == EFBIG || e == ENOSPC {
        IoKind::PermissionDenied
    } else if e == EINTR {
        IoKind::Interrupted
    } else if e == EINVAL {
        IoKind::InvalidInput
    } else if e == EIO {
        IoKind::IoError
    } else if e == EPIPE {
        IoKind::BrokenPipe
    } else {
        IoKind::Other
    }
}

/// What a `write` of the shadow returned: the bytes written, or the kind of
/// failure. An invalid address (`EFAULT`) is a fault of the caller, not a
/// result, and is left out.
pub fn written(r: isize) -> (res: Result<usize, Failure>)
    requires
        r != -EFAULT,
    ensures
        res == outcome(r, write_kind(-r)),
{
    if r >= 0 {
        Ok(r as usize)
    } else if r == isize::MIN {
        Err(Failure::Io(IoKind::Other))
    } else {
        Err(Failure::Io(write_kind_of(-r)))
    }
}

/// What a `read` of the shadow returned: the bytes read, or the kind of
/// failure. `EFAULT` is left out as for `written`.
pub fn read_count(r: isize) -> (res: Result<usize, Failure>)
    requires
        r != -EFAULT,
    ensures
        res == outcome(r, read_kind(-r)),
{
    if r >= 0 {
        Ok(r as usize)
    } else if r == -EAGAIN {
        Err(Failure::Io(IoKind::WouldBlock))
    } else if r == -EBADF {
        Err(Failure::Io(IoKind::NotFound))
    } else if r == -EINTR {
        Err(Failure::Io(IoKind::Interrupted))
    } else if r == -EINVAL || r == -EISDIR {
        Err(Failure::Io(IoKind::InvalidInput))
    } else if r == -EIO {
        Err(Failure::Io(IoKind::IoError))
    } else if r == -ENOSPC {
        Err(Failure::Io(IoKind::PermissionDenied))
    } else {
        Err(Failure::Io(IoKind::Other))
    }
}

/// What an `lseek` of the shadow returned: the new position, or the kind of
/// failure.
pub fn seek_position(r: isize) -> (res: Result<u64, Failure>)
    ensures
        res == if r >= 0 {
            Ok::<u64, Failure>(r as u64)
        } else {
            Err::<u64, Failure>(Failure::Io(seek_kind(-r)))
        },
{
    if r >= 0 {
        Ok(r as u64)
    } else if r == -EBADF {
        Err(Failure::Io(IoKind::NotFound))
    } else if r == -EINVAL || r == -ENXIO {
        Err(Failure::Io(IoKind::InvalidInput))
    } else {
        Err(Failure::Io(IoKind::Other))
    }
}

/// What an `fdatasync` of the shadow returned.
pub fn flushed(r: isize) -> (res: Result<(), Failure>)
    ensures
        res == if r == 0 {
            Ok::<(), Failure>(())
        } else {
            Err::<(), Failure>(Failure::Io(if r < 0 { sync_kind(-r) } else { IoKind::Other }))
        },
{
    if r == 0 {
        Ok(())
    } else if r == -EBADF {
        Err(Failure::Io(IoKind::NotFound))
    } else if r == -EINVAL {
        Err(Failure::Io(IoKind::InvalidInput))
    } else if r == -EIO {
        Err(Failure::Io(IoKind::IoError))
    } else {
        Err(Failure::Io(IoKind::Other))
    }
}

/// The `lseek` offset and whence for `pos`; a start beyond what an offset
/// can hold is invalid input.
pub fn seek_args(pos: SeekFrom) -> (r: Result<(isize, usize), Failure>)
    ensures
        r == match pos {
            SeekFrom::Start(u) => if u <= isize::MAX {
                Ok::<(isize, usize), Failure>((u as isize, SEEK_SET))
            } else {
                Err(Failure::Io(IoKind::InvalidInput))
            },
            SeekFrom::End(i) => if isize::MIN <= i <= isize::MAX {
                Ok((i as isize, SEEK_END))
            } else {
                Err(Failure::Io(IoKind::InvalidInput))
            },
            SeekFrom::Current(i) => if isize::MIN <= i <= isize::MAX {
                Ok((i as isize, SEEK_CUR))
            } else {
                Err(Failure::Io(IoKind::InvalidInput))
            },
        },
{
    match pos {
        SeekFrom::Start(u) => if u <= isize::MAX as u64 {
            Ok((u as isize, SEEK_SET))
        } else {
            Err(Failure::Io(IoKind::InvalidInput))
        },
        SeekFrom::End(i) => if isize::MIN as i64 <= i && i <= isize::MAX as i64 {
            Ok((i as isize, SEEK_END))
        } else {
            Err(Failure::Io(IoKind::InvalidInput))
        },
        SeekFrom::Current(i) => if isize::MIN as i64 <= i && i <= isize::MAX as i64 {
            Ok((i as isize, SEEK_CUR))
        } else {
            Err(Failure::Io(IoKind::InvalidInput))
        },
    }
}

} // verus!
