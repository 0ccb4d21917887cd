use ulc::errno::{EAGAIN, EBADF, EDQUOT, EINTR, EINVAL, EIO, EISDIR, EPIPE, ESPIPE, EWOULDBLOCK};
use ulc::file::{flushed, read_count, seek_args, seek_position, shadow_path, written, File, SeekFrom, StackErr};
use ulc::protocol::{Failure, IoKind, Op, Step};

/// An in-memory stand-in for the two files and the lock.
struct Disk {
    origin: Option<Vec<u8>>,
    shadow: Option<Vec<u8>>,
    cursor: usize,
    held_elsewhere: bool,
    calls: Vec<Op>,
}

impl Disk {
    fn new(origin: Option<&[u8]>) -> Disk {
        Disk { origin: origin.map(|o| o.to_vec()), shadow: None, cursor: 0, held_elsewhere: false, calls: vec![] }
    }

    fn perform(&mut self, f: &File, op: Op) -> isize {
        self.calls.push(op);
        match op {
            Op::OpenOrigin => {
                if self.origin.is_none() {
                    self.origin = Some(vec![]);
                }
                3
            }
            Op::LockOrigin => {
                if self.held_elsewhere {
                    -EWOULDBLOCK
                } else {
                    0
                }
            }
            Op::OpenShadow => {
                self.shadow = Some(vec![]);
                self.cursor = 0;
                4
            }
            Op::StatOrigin => self.origin.as_ref().unwrap().len() as isize,
            Op::CopyToShadow => {
                let o = self.origin.clone().unwrap();
                let rem = f.machine().remaining as usize;
                let s = self.shadow.as_mut().unwrap();
                s.extend_from_slice(&o[o.len() - rem..]);
                self.cursor = s.len();
                rem as isize
            }
            Op::RenameShadow => {
                self.origin = self.shadow.take();
                0
            }
            Op::UnlinkShadow => {
                self.shadow = None;
                0
            }
            Op::SyncShadow | Op::CloseShadow | Op::UnlockOrigin | Op::CloseOrigin => 0,
        }
    }

    fn drive(&mut self, f: &mut File, mut step: Step) -> Step {
        loop {
            match step {
                Step::Call(op) => {
                    let r = self.perform(f, op);
                    step = f.resume(r);
                }
                other => return other,
            }
        }
    }

    fn write(&mut self, f: &File, w: &[u8]) -> usize {
        let fd = f.io_target().unwrap();
        assert_eq!(fd, 4);
        let s = self.shadow.as_mut().unwrap();
        for (k, b) in w.iter().enumerate() {
            let at = self.cursor + k;
            if at < s.len() {
                s[at] = *b;
            } else {
                s.push(*b);
            }
        }
        self.cursor += w.len();
        written(w.len() as isize).unwrap()
    }

    fn seek(&mut self, f: &File, pos: SeekFrom) -> u64 {
        f.io_target().unwrap();
        let (offset, whence) = seek_args(pos).unwrap();
        let len = self.shadow.as_ref().unwrap().len() as isize;
        let at = match whence {
            0 => offset,
            1 => self.cursor as isize + offset,
            _ => len + offset,
        };
        self.cursor = at as usize;
        seek_position(at).unwrap()
    }

    fn origin(&self) -> Vec<u8> {
        self.origin.clone().unwrap_or_default()
    }

    fn shadow(&self) -> Vec<u8> {
        self.shadow.clone().unwrap_or_default()
    }
}

fn opened(d: &mut Disk, path: &str, wait: bool) -> File {
    let mut f = File::open(path, 0o640, wait).unwrap();
    let s = f.load();
    assert_eq!(d.drive(&mut f, s), Step::Done);
    f
}

#[test]
fn staged_commit_seek_close_scenario() {
    let mut d = Disk::new(None);
    let mut f = opened(&mut d, "/tmp/t", false);
    assert_eq!(f.shadow_path(), "/tmp/.t.shadow");
    d.write(&f, b"Hello world");
    assert_eq!(d.origin(), b"");
    assert_eq!(d.shadow(), b"Hello world");
    let s = f.commit();
    assert_eq!(d.drive(&mut f, s), Step::Done);
    assert_eq!(d.origin(), b"Hello world");
    d.write(&f, b"\n-|<");
    assert_eq!(d.origin(), b"Hello world");
    assert_eq!(d.shadow(), b"Hello world\n-|<");
    assert_eq!(d.seek(&f, SeekFrom::Start(6)), 6);
    d.write(&f, b"you ;)");
    assert_eq!(d.origin(), b"Hello world");
    assert_eq!(d.shadow(), b"Hello you ;)-|<");
    let s = f.close();
    assert_eq!(d.drive(&mut f, s), Step::Done);
    assert_eq!(d.origin(), b"Hello you ;)-|<");
    assert!(d.shadow.is_none());
}

#[test]
fn writes_stay_in_shadow_until_commit() {
    let mut d = Disk::new(Some(b"base"));
    let f = opened(&mut d, "data", false);
    assert_eq!(d.shadow(), b"base");
    d.write(&f, b"one");
    d.write(&f, b"two");
    assert_eq!(d.origin(), b"base");
    assert_eq!(d.shadow(), b"baseonetwo");
}

#[test]
fn commit_twice_changes_nothing_more() {
    let mut d = Disk::new(Some(b"x"));
    let mut f = opened(&mut d, "/a/b", false);
    d.write(&f, b"yz");
    let s = f.commit();
    assert_eq!(d.drive(&mut f, s), Step::Done);
    let first = d.origin();
    let s = f.commit();
    assert_eq!(d.drive(&mut f, s), Step::Done);
    assert_eq!(d.origin(), first);
    assert_eq!(first, b"xyz");
}

#[test]
fn forget_leaves_origin_alone() {
    let mut d = Disk::new(Some(b"keep"));
    let mut f = opened(&mut d, "/a/b", false);
    d.write(&f, b"blabla");
    assert_eq!(d.shadow(), b"keepblabla");
    f.forget();
    let s = f.store();
    assert_eq!(d.drive(&mut f, s), Step::Done);
    assert_eq!(d.origin(), b"keep");
    assert!(d.shadow.is_none());
    assert!(d.calls.contains(&Op::UnlinkShadow));
    assert!(!d.calls.contains(&Op::RenameShadow));
}

#[test]
fn round_trip_through_reopen() {
    let mut d = Disk::new(None);
    let mut f = opened(&mut d, "/tmp/rt", false);
    d.write(&f, b"payload");
    let s = f.commit();
    assert_eq!(d.drive(&mut f, s), Step::Done);
    let s = f.close();
    assert_eq!(d.drive(&mut f, s), Step::Done);
    let mut g = opened(&mut d, "/tmp/rt", false);
    assert_eq!(d.seek(&g, SeekFrom::Start(0)), 0);
    assert_eq!(d.shadow(), b"payload");
    let s = g.close();
    assert_eq!(d.drive(&mut g, s), Step::Done);
}

#[test]
fn contended_lock_without_waiting_fails() {
    let mut d = Disk::new(Some(b""));
    d.held_elsewhere = true;
    let mut f = File::open("/tmp/t", 0o640, false).unwrap();
    let s = f.load();
    assert_eq!(d.drive(&mut f, s), Step::Fail(Failure::Lock));
    assert_eq!(d.calls, vec![Op::OpenOrigin, Op::LockOrigin, Op::CloseOrigin]);
    assert_eq!(f.io_target(), Err(Failure::InvalidState));
}

#[test]
fn waiting_lock_retries_after_signal() {
    let mut f = File::open("/tmp/t", 0o640, true).unwrap();
    assert_eq!(f.load(), Step::Call(Op::OpenOrigin));
    assert_eq!(f.resume(3), Step::Call(Op::LockOrigin));
    assert_eq!(f.resume(-EINTR), Step::Call(Op::LockOrigin));
    assert_eq!(f.resume(-EINTR), Step::Call(Op::LockOrigin));
    assert_eq!(f.resume(0), Step::Call(Op::OpenShadow));
    let mut g = File::open("/tmp/t", 0o640, true).unwrap();
    g.load();
    g.resume(3);
    assert_eq!(g.resume(-EWOULDBLOCK), Step::Call(Op::CloseOrigin));
    assert_eq!(g.resume(0), Step::Fail(Failure::Load));
}

#[test]
fn failed_copy_closes_both_descriptors() {
    let mut f = File::open("x", 0o600, false).unwrap();
    f.load();
    f.resume(3);
    f.resume(0);
    f.resume(4);
    assert_eq!(f.resume(10), Step::Call(Op::CopyToShadow));
    assert_eq!(f.resume(-EIO), Step::Call(Op::CloseShadow));
    assert_eq!(f.resume(0), Step::Call(Op::CloseOrigin));
    assert_eq!(f.resume(0), Step::Fail(Failure::Load));
    assert!(!f.machine().valid);
}

#[test]
fn partial_copy_continues() {
    let mut f = File::open("x", 0o600, false).unwrap();
    f.load();
    f.resume(3);
    f.resume(0);
    f.resume(4);
    assert_eq!(f.resume(10), Step::Call(Op::CopyToShadow));
    assert_eq!(f.resume(4), Step::Call(Op::CopyToShadow));
    assert_eq!(f.machine().remaining, 6);
    assert_eq!(f.resume(6), Step::Done);
    assert!(f.machine().valid);
}

#[test]
fn failed_unlock_invalidates() {
    let mut d = Disk::new(None);
    let mut f = opened(&mut d, "p", false);
    assert_eq!(f.store(), Step::Call(Op::SyncShadow));
    assert_eq!(f.resume(0), Step::Call(Op::CloseShadow));
    assert_eq!(f.resume(0), Step::Call(Op::RenameShadow));
    assert_eq!(f.resume(0), Step::Call(Op::UnlockOrigin));
    assert_eq!(f.resume(-EBADF), Step::Fail(Failure::Commit));
    assert!(!f.machine().valid);
    assert_eq!(f.commit(), Step::Fail(Failure::InvalidState));
    assert_eq!(f.io_target(), Err(Failure::InvalidState));
}

#[test]
fn closed_file_is_not_loaded_again() {
    let mut d = Disk::new(None);
    let mut f = opened(&mut d, "p", false);
    let s = f.close();
    assert_eq!(d.drive(&mut f, s), Step::Done);
    assert_eq!(f.load(), Step::Fail(Failure::InvalidState));
    assert_eq!(f.commit(), Step::Fail(Failure::InvalidState));
}

#[test]
fn failed_sync_aborts_store() {
    let mut d = Disk::new(None);
    let mut f = opened(&mut d, "p", false);
    assert_eq!(f.commit(), Step::Call(Op::SyncShadow));
    assert_eq!(f.resume(-EIO), Step::Fail(Failure::Commit));
    assert!(f.machine().valid);
}

#[test]
fn store_before_load_is_invalid() {
    let mut f = File::open("/tmp/t", 0o640, false).unwrap();
    assert_eq!(f.store(), Step::Fail(Failure::InvalidState));
    assert_eq!(f.set_len(0).is_ok(), true);
    assert_eq!(f.set_len(-EINVAL).unwrap_err().kind, Failure::Io(IoKind::InvalidInput));
}

#[test]
fn shadow_paths() {
    assert_eq!(shadow_path("/tmp/acid_test").unwrap(), "/tmp/.acid_test.shadow");
    assert_eq!(shadow_path("acid_test").unwrap(), ".acid_test.shadow");
    assert_eq!(shadow_path("../tmp/acid_test").unwrap(), "../tmp/.acid_test.shadow");
    assert_eq!(shadow_path("dir/name/").unwrap(), "dir/.name.shadow");
    assert!(shadow_path("/").is_none());
    assert!(shadow_path("").is_none());
    assert!(shadow_path("a/..").is_none());
    assert_eq!(File::open("/", 0o640, false).err().unwrap().kind, Failure::Path);
}

#[test]
fn io_error_kinds() {
    assert_eq!(written(5), Ok(5));
    assert_eq!(written(-EAGAIN), Err(Failure::Io(IoKind::WouldBlock)));
    assert_eq!(written(-EBADF), Err(Failure::Io(IoKind::NotFound)));
    assert_eq!(written(-EDQUOT), Err(Failure::Io(IoKind::PermissionDenied)));
    assert_eq!(written(-EINTR), Err(Failure::Io(IoKind::Interrupted)));
    assert_eq!(written(-EINVAL), Err(Failure::Io(IoKind::InvalidInput)));
    assert_eq!(written(-EIO), Err(Failure::Io(IoKind::IoError)));
    assert_eq!(written(-EPIPE), Err(Failure::Io(IoKind::BrokenPipe)));
    assert_eq!(written(-9999), Err(Failure::Io(IoKind::Other)));
    assert_eq!(read_count(-EISDIR), Err(Failure::Io(IoKind::InvalidInput)));
    assert_eq!(read_count(7), Ok(7));
    assert_eq!(seek_position(-ESPIPE), Err(Failure::Io(IoKind::Other)));
    assert_eq!(flushed(0), Ok(()));
    assert_eq!(flushed(-EIO), Err(Failure::Io(IoKind::IoError)));
    assert_eq!(seek_args(SeekFrom::End(-2)), Ok((-2, 2)));
    assert_eq!(seek_args(SeekFrom::Current(3)), Ok((3, 1)));
    assert_eq!(seek_args(SeekFrom::Start(u64::MAX)), Err(Failure::Io(IoKind::InvalidInput)));
}

#[test]
fn test_stacked() {
    let y: Result<(), StackErr> = Ok(());
    assert!(y.is_ok());
    let root: Result<(), StackErr> = Err(StackErr::new(Failure::Load, "This is the root error"));
    match root {
        Ok(_) => panic!("Should be an error"),
        Err(mut x) => {
            x.push("This is a top level error");
            assert!(x.frames.len() == 2);
            assert_eq!(x.frames[0], "This is the root error");
        }
    }
}
