//! Data appended to an executable: the blob, its length as eight
//! little-endian bytes, then a sixteen-byte marker at the very end.

use vstd::prelude::*;
use vstd::slice::{slice_subrange, slice_to_vec};
use vstd::string::*;
use crate::unsigned::{from_le_bytes, le_bytes, le_value, pow256, to_le_bytes};

verus! {

/// Which executable to work on.
#[derive(Debug)]
pub enum ExecPath {
    /// The executable at this path.
    File(String),
    /// The running executable.
    This,
}

/// The marker that ends an embedded blob.
pub open spec fn marker() -> Seq<u8> {
    seq![0x29u8, 0x7a, 0x8a, 0x3f, 0x73, 0x03, 0xf8, 0x2f, 0xfe, 0x9b, 0x65, 0x20, 0x08, 0x96, 0x8d, 0x0e]
}

fn marker_bytes() -> (r: Vec<u8>)
    ensures
        r@ == marker(),
{
    let r = vec![0x29u8, 0x7a, 0x8a, 0x3f, 0x73, 0x03, 0xf8, 0x2f, 0xfe, 0x9b, 0x65, 0x20, 0x08, 0x96, 0x8d, 0x0e];
    proof {
        assert(r@ =~= marker());
    }
    r
}

/// What is appended to carry `b`.
pub open spec fn embed_blob_of(b: Seq<u8>) -> Seq<u8> {
    b + le_bytes(b.len(), 8) + marker()
}

/// The bytes to append to an executable to carry `ar_blob`.
pub fn gen_embed_blob(ar_blob: &[u8]) -> (r: Vec<u8>)
    requires
        ar_blob@.len() < pow256(8),
    ensures
        r@ == embed_blob_of(ar_blob@),
{
    let mut out = slice_to_vec(ar_blob);
    let mut len = to_le_bytes(ar_blob.len() as u64);
    let mut mark = marker_bytes();
    out.append(&mut len);
    out.append(&mut mark);
    out
}

/// Why the end of a file could not be read as an embedded blob.
#[derive(Clone, Copy, Debug, PartialEq, Eq, Structural)]
pub enum EmbedError {
    /// Fewer than sixteen bytes to look for the marker in.
    TooShort,
    /// The marker is there but the length before it is missing or too large.
    BadLength,
}

/// The blob an executable's `tail` ends with, as its position from the end
/// of the file (negative) and its length; `tail` is the file's last 24 bytes,
/// or all of it when shorter.
pub open spec fn embedded(tail: Seq<u8>) -> Result<Option<(int, nat)>, EmbedError> {
    if tail.len() < 16 {
        Err(EmbedError::TooShort)
    } else if tail.subrange(tail.len() - 16, tail.len() as int) != marker() {
        Ok(None)
    } else if tail.len() < 24 || le_value(tail.subrange(tail.len() - 24, tail.len() - 16)) + 24
        > i64::MAX {
        Err(EmbedError::BadLength)
    } else {
        let dl = le_value(tail.subrange(tail.len() - 24, tail.len() - 16));
        Ok(Some((-24 - dl, dl)))
    }
}

/// Finds the blob that ends `tail`; see `embedded`.
pub fn offset_and_length(tail: &[u8]) -> (r: Result<Option<(i64, u64)>, EmbedError>)
    ensures
        match r {
            Ok(Some((o, l))) => embedded(tail@) == Ok::<Option<(int, nat)>, EmbedError>(
                Some((o as int, l as nat)),
            ),
            Ok(None) => embedded(tail@) == Ok::<Option<(int, nat)>, EmbedError>(None),
            Err(e) => embedded(tail@) == Err::<Option<(int, nat)>, EmbedError>(e),
        },
{
    let n = tail.len();
    if n < 16 {
        return Err(EmbedError::TooShort);
    }
    let mark = marker_bytes();
    let found = slice_subrange(tail, n - 16, n);
    let mut i: usize = 0;
    while i < 16
        invariant
            found@.len() == 16,
            n == tail@.len(),
            n >= 16,
            found@ == tail@.subrange(n - 16, n as int),
            mark@ == marker(),
            i <= 16,
            forall|j: int| 0 <= j < i ==> found@[j] == mark@[j],
        decreases 16 - i,
    {
        if found[i] != mark[i] {
            proof {
                assert(found@ != marker());
            }
            return Ok(None);
        }
        i = i + 1;
    }
    proof {
        assert(found@ =~= marker());
    }
    if n < 24 {
        return Err(EmbedError::BadLength);
    }
    let len_bytes = slice_subrange(tail, n - 24, n - 16);
    let dl: u64 = from_le_bytes(len_bytes);
    if dl > (i64::MAX - 24) as u64 {
        return Err(EmbedError::BadLength);
    }
    Ok(Some((-24 - dl as i64, dl)))
}

} // verus!
