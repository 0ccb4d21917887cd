//! File metadata and the flag values of the calls the file layer makes
//! (x86-64 Linux).

use vstd::prelude::*;

verus! {

pub const O_RDONLY: usize = 0;
pub const O_WRONLY: usize = 1;
pub const O_RDWR: usize = 2;
pub const O_CREAT: usize = 0o100;
pub const O_TRUNC: usize = 0o1000;

pub const LOCK_SH: usize = 1;
pub const LOCK_EX: usize = 2;
pub const LOCK_NB: usize = 4;
pub const LOCK_UN: usize = 8;

pub const S_IFMT: u32 = 0o170000;
pub const S_IFSOCK: u32 = 0o140000;
pub const S_IFLNK: u32 = 0o120000;
pub const S_IFREG: u32 = 0o100000;
pub const S_IFBLK: u32 = 0o060000;
pub const S_IFDIR: u32 = 0o040000;
pub const S_IFCHR: u32 = 0o020000;
pub const S_IFIFO: u32 = 0o010000;

/// The file-type bits of a mode.
pub open spec fn file_type(mode: u32) -> u32 {
    mode & S_IFMT
}

/// What `stat` reports of a file.
#[derive(Debug)]
pub struct Stat {
    pub st_dev: u64,
    pub st_ino: u64,
    pub st_nlink: u64,
    pub st_mode: u32,
    pub st_uid: u32,
    pub st_gid: u32,
    pub st_rdev: u64,
    pub st_size: u64,
    pub st_blksize: u64,
    pub st_blocks: u64,
    pub st_atime: u64,
    pub st_atime_nsec: u64,
    pub st_mtime: u64,
    pub st_mtime_nsec: u64,
    pub st_ctime: u64,
    pub st_ctime_nsec: u64,
}

impl Stat {
    /// A regular file.
    pub fn isreg(&self) -> (r: bool)
        ensures
            r == (file_type(self.st_mode) == S_IFREG),
    {
        self.st_mode & S_IFMT == S_IFREG
    }

    /// A directory.
    pub fn isdir(&self) -> (r: bool)
        ensures
            r == (file_type(self.st_mode) == S_IFDIR),
    {
        self.st_mode & S_IFMT == S_IFDIR
    }

    /// A character device.
    pub fn ischr(&self) -> (r: bool)
        ensures
            r == (file_type(self.st_mode) == S_IFCHR),
    {
        self.st_mode & S_IFMT == S_IFCHR
    }

    /// A block device.
    pub fn isblk(&self) -> (r: bool)
        ensures
            r == (file_type(self.st_mode) == S_IFBLK),
    {
        self.st_mode & S_IFMT == S_IFBLK
    }

    /// A named pipe.
    pub fn isfifo(&self) -> (r: bool)
        ensures
            r == (file_type(self.st_mode) == S_IFIFO),
    {
        self.st_mode & S_IFMT == S_IFIFO
    }

    /// A symbolic link.
    pub fn islnk(&self) -> (r: bool)
        ensures
            r == (file_type(self.st_mode) == S_IFLNK),
    {
        self.st_mode & S_IFMT == S_IFLNK
    }

    /// A socket.
    pub fn issock(&self) -> (r: bool)
        ensures
            r == (file_type(self.st_mode) == S_IFSOCK),
    {
        self.st_mode & S_IFMT == S_IFSOCK
    }
}

} // verus!
