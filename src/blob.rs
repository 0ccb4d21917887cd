//! Framing byte segments into one blob: each segment is preceded by its
//! length as eight little-endian bytes.

use vstd::prelude::*;
use vstd::slice::{slice_subrange, slice_to_vec};
use crate::unsigned::{from_le_bytes, le_bytes, le_value, lemma_le_round_trip, pow256, to_le_bytes};

verus! {

/// One framed segment.
pub open spec fn packet_of(s: Seq<u8>) -> Seq<u8> {
    le_bytes(s.len(), 8) + s
}

/// Segments framed one after the other.
pub open spec fn pack_of(segs: Seq<Seq<u8>>) -> Seq<u8>
    decreases segs.len(),
{
    if segs.len() == 0 {
        Seq::empty()
    } else {
        packet_of(segs[0]) + pack_of(segs.drop_first())
    }
}

/// The segments that `b` frames, or `None` where a length runs past its end.
pub open spec fn unpack_of(b: Seq<u8>) -> Option<Seq<Seq<u8>>>
    decreases b.len(),
{
    if b.len() == 0 {
        Some(Seq::empty())
    } else if b.len() < 8 {
        None
    } else {
        let n = le_value(b.subrange(0, 8)) as int;
        if 8 + n > b.len() {
            None
        } else {
            match unpack_of(b.subrange(8 + n, b.len() as int)) {
                Some(rest) => Some(seq![b.subrange(8, 8 + n)] + rest),
                None => None,
            }
        }
    }
}

/// Every segment's length fits the eight-byte frame.
pub open spec fn frameable(segs: Seq<Seq<u8>>) -> bool {
    forall|i: int| 0 <= i < segs.len() ==> #[trigger] segs[i].len() < pow256(8)
}

pub(crate) proof fn lemma_pack_push(segs: Seq<Seq<u8>>, s: Seq<u8>)
    ensures
        pack_of(segs.push(s)) == pack_of(segs) + packet_of(s),
    decreases segs.len(),
{
    if segs.len() == 0 {
        assert(segs.push(s).drop_first() =~= Seq::<Seq<u8>>::empty());
        assert(pack_of(segs.push(s).drop_first()) == Seq::<u8>::empty());
        assert(segs.push(s)[0] == s);
        assert(pack_of(segs.push(s)) =~= pack_of(segs) + packet_of(s));
    } else {
        assert(segs.push(s).drop_first() =~= segs.drop_first().push(s));
        lemma_pack_push(segs.drop_first(), s);
        assert(segs.push(s)[0] == segs[0]);
        assert(pack_of(segs.push(s)) =~= pack_of(segs) + packet_of(s));
    }
}

/// Unpacking a packed blob gives the segments back.
pub proof fn lemma_pack_round_trip(segs: Seq<Seq<u8>>)
    requires
        frameable(segs),
    ensures
        unpack_of(pack_of(segs)) == Some(segs),
    decreases segs.len(),
{
    if segs.len() > 0 {
        let s = segs[0];
        let rest = segs.drop_first();
        assert(frameable(rest)) by {
            assert forall|i: int| 0 <= i < rest.len() implies #[trigger] rest[i].len() < pow256(8) by {
                assert(rest[i] == segs[i + 1]);
            }
        }
        lemma_pack_round_trip(rest);
        lemma_le_round_trip(s.len(), 8);
        let b = pack_of(segs);
        let n = s.len() as int;
        assert(b.subrange(0, 8) =~= le_bytes(s.len(), 8));
        assert(b.subrange(8, 8 + n) =~= s);
        assert(b.subrange(8 + n, b.len() as int) =~= pack_of(rest));
        assert(seq![s] + rest =~= segs);
    }
}

/// `blob` behind its length as eight little-endian bytes.
pub fn packet(blob: &[u8]) -> (r: Vec<u8>)
    requires
        blob@.len() < pow256(8),
    ensures
        r@ == packet_of(blob@),
{
    let mut out = to_le_bytes(blob.len() as u64);
    let mut body = slice_to_vec(blob);
    out.append(&mut body);
    out
}

/// The segments framed one after the other.
pub fn pack(segments: &[Vec<u8>]) -> (r: Vec<u8>)
    requires
        frameable(segments@.map_values(|v: Vec<u8>| v@)),
    ensures
        r@ == pack_of(segments@.map_values(|v: Vec<u8>| v@)),
{
    let ghost segs = segments@.map_values(|v: Vec<u8>| v@);
    let mut blob: Vec<u8> = Vec::new();
    let mut i: usize = 0;
    while i < segments.len()
        invariant
            i <= segments@.len(),
            segs == segments@.map_values(|v: Vec<u8>| v@),
            frameable(segs),
            blob@ == pack_of(segs.subrange(0, i as int)),
        decreases segments@.len() - i,
    {
        assert(segs[i as int].len() < pow256(8));
        let mut p = packet(segments[i].as_slice());
        proof {
            lemma_pack_push(segs.subrange(0, i as int), segs[i as int]);
            assert(segs.subrange(0, i as int).push(segs[i as int]) =~= segs.subrange(0, i + 1));
        }
        blob.append(&mut p);
        i = i + 1;
    }
    proof {
        assert(segs.subrange(0, i as int) =~= segs);
    }
    blob
}

/// The segments that `blob` frames; an error where a length runs past the
/// end of `blob`.
pub fn unpack(blob: &[u8]) -> (r: Result<Vec<Vec<u8>>, ()>)
    ensures
        r is Ok <==> unpack_of(blob@) is Some,
        r matches Ok(v) ==> Some(v@.map_values(|s: Vec<u8>| s@)) == unpack_of(blob@),
{
    let mut segments: Vec<Vec<u8>> = Vec::new();
    let n = blob.len();
    let mut cur: usize = 0;
    proof {
        assert(blob@.subrange(0, n as int) =~= blob@);
    }
    while cur != n
        invariant
            cur <= n == blob@.len(),
            unpack_of(blob@) == match unpack_of(blob@.subrange(cur as int, n as int)) {
                Some(rest) => Some(segments@.map_values(|s: Vec<u8>| s@) + rest),
                None => None::<Seq<Seq<u8>>>,
            },
        decreases n - cur,
    {
        let ghost b = blob@.subrange(cur as int, n as int);
        if n - cur < 8 {
            return Err(());
        }
        let len: u64 = from_le_bytes(slice_subrange(blob, cur, cur + 8));
        proof {
            assert(b.subrange(0, 8) =~= blob@.subrange(cur as int, cur + 8));
        }
        if len > (n - cur - 8) as u64 {
            return Err(());
        }
        let start = cur + 8;
        let end = start + len as usize;
        let seg = slice_to_vec(slice_subrange(blob, start, end));
        let ghost before = segments@.map_values(|s: Vec<u8>| s@);
        segments.push(seg);
        proof {
            assert(b.subrange(8, 8 + len as int) =~= seg@);
            assert(b.subrange(8 + len as int, b.len() as int) =~= blob@.subrange(end as int, n as int));
            assert(segments@.map_values(|s: Vec<u8>| s@) =~= before.push(seg@));
            match unpack_of(blob@.subrange(end as int, n as int)) {
                Some(rest) => {
                    assert(before.push(seg@) + rest =~= before + (seq![seg@] + rest));
                },
                None => {},
            }
        }
        cur = end;
    }
    proof {
        assert(blob@.subrange(n as int, n as int) =~= Seq::<u8>::empty());
        assert(segments@.map_values(|s: Vec<u8>| s@) + Seq::<Seq<u8>>::empty() =~= segments@.map_values(|s: Vec<u8>| s@));
    }
    Ok(segments)
}

} // verus!
