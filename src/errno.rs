//! The POSIX error numbers (x86-64 Linux) that the file layer tells apart.

use vstd::prelude::*;

verus! {

pub const EINTR: isize = 4;
pub const EIO: isize = 5;
pub const ENXIO: isize = 6;
pub const EBADF: isize = 9;
pub const EAGAIN: isize = 11;
pub const EWOULDBLOCK: isize = 11;
pub const EFAULT: isize = 14;
pub const EISDIR: isize = 21;
pub const EINVAL: isize = 22;
pub const EFBIG: isize = 27;
pub const ENOSPC: isize = 28;
pub const ESPIPE: isize = 29;
pub const EPIPE: isize = 32;
pub const EOVERFLOW: isize = 75;
pub const EDQUOT: isize = 122;

} // verus!
