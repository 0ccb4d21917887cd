//! Bounded slicing: take at most a prefix, or a range only when it lies
//! within the array.

use vstd::prelude::*;
use vstd::slice::slice_subrange;
use vstd::string::*;

verus! {

/// Relies on range indexing of slices: the elements `from..to`, borrowed
/// mutably, so that writes through the result land in `a`.
#[verifier::external_body]
fn range_mut<T>(a: &mut [T], from: usize, to: usize) -> (r: &mut [T])
    requires
        from <= to <= old(a)@.len(),
    ensures
        r@ == old(a)@.subrange(from as int, to as int),
        final(a)@ == old(a)@.subrange(0, from as int) + final(r)@ + old(a)@.subrange(
            to as int,
            old(a)@.len() as int,
        ),
{
    &mut a[from..to]
}

/// The first `to` elements, or all of them when there are fewer.
pub fn slice_at_most<T>(array: &[T], to: usize) -> (r: &[T])
    ensures
        r@ == array@.subrange(0, if to <= array@.len() { to as int } else { array@.len() as int }),
{
    let end = if to > array.len() { array.len() } else { to };
    slice_subrange(array, 0, end)
}

/// The elements `from..to` when `from <= to <= array.len()`.
pub fn slice_or_else<T>(array: &[T], from: usize, to: usize) -> (r: Option<&[T]>)
    ensures
        r is Some <==> from <= to <= array@.len(),
        r matches Some(s) ==> s@ == array@.subrange(from as int, to as int),
{
    if to <= array.len() && from <= to {
        Some(slice_subrange(array, from, to))
    } else {
        None
    }
}

/// The elements `from..to`, borrowed mutably, when `from <= to <=
/// array.len()`.
pub fn mut_slice_or_else<T>(array: &mut [T], from: usize, to: usize) -> (r: Option<&mut [T]>)
    ensures
        r is Some <==> from <= to <= old(array)@.len(),
        r is None ==> final(array)@ == old(array)@,
        r matches Some(s) ==> {
            &&& s@ == old(array)@.subrange(from as int, to as int)
            &&& final(array)@ == old(array)@.subrange(0, from as int) + final(s)@ + old(
                array,
            )@.subrange(to as int, old(array)@.len() as int)
        },
{
    if to <= array.len() && from <= to {
        Some(range_mut(array, from, to))
    } else {
        None
    }
}

/// The bytes `from..to`, or a one-frame error naming the bad range.
pub fn slc(array: &[u8], from: usize, to: usize) -> (r: Result<&[u8], Vec<String>>)
    ensures
        r is Ok <==> from <= to <= array@.len(),
        r matches Ok(s) ==> s@ == array@.subrange(from as int, to as int),
        r matches Err(e) ==> e@.len() == 1,
{
    match slice_or_else(array, from, to) {
        Some(s) => Ok(s),
        None => {
            let mut e: Vec<String> = Vec::new();
            e.push(String::from_str("attempted to slice outside the array"));
            Err(e)
        },
    }
}

/// Whether `buf` ends with `pat`.
pub fn ends_with(buf: &[u8], pat: &[u8]) -> (r: bool)
    ensures
        r == (pat@.len() <= buf@.len() && buf@.subrange(buf@.len() - pat@.len(), buf@.len() as int)
            == pat@),
{
    let n = buf.len();
    let m = pat.len();
    if m > n {
        return false;
    }
    let mut i: usize = 0;
    while i < m
        invariant
            m <= n == buf@.len(),
            m == pat@.len(),
            i <= m,
            forall|j: int| 0 <= j < i ==> buf@[n - m + j] == pat@[j],
        decreases m - i,
    {
        if buf[n - m + i] != pat[i] {
            proof {
                let tail = buf@.subrange(n - m, n as int);
                assert(tail[i as int] == buf@[n - m + i]);
            }
            return false;
        }
        i = i + 1;
    }
    proof {
        assert(buf@.subrange(n - m, n as int) =~= pat@);
    }
    true
}

} // verus!

