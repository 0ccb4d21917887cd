//! Named blobs kept together in one byte blob.
//!
//! The blob is two framed segments (see `blob`): a lookup segment, with one
//! framed entry per name (offset and length of its data as eight
//! little-endian bytes each, then the name in UTF-8), and a data segment
//! holding the blobs back to back.

use vstd::prelude::*;
use vstd::slice::{slice_subrange, slice_to_vec};
use vstd::string::*;
use vstd::utf8::{decode_utf8, encode_utf8, encode_utf8_decode_utf8, encode_utf8_valid_utf8, valid_utf8};
use crate::blob::{frameable, lemma_pack_push, lemma_pack_round_trip, pack, pack_of, packet, packet_of, unpack, unpack_of};
use crate::unsigned::{from_le_bytes, le_bytes, le_value, lemma_le_round_trip, pow256, to_le_bytes};

verus! {

/// Relies on `String::from_utf8`: it succeeds exactly on valid UTF-8, and the
/// string then holds the decoded characters.
#[verifier::external_body]
fn utf8_string(bytes: Vec<u8>) -> (r: Option<String>)
    ensures
        r is Some <==> valid_utf8(bytes@),
        r matches Some(s) ==> s@ == decode_utf8(bytes@),
{
    String::from_utf8(bytes).ok()
}

/// Position of the entry named `k`, or -1.
pub open spec fn index_of(es: Seq<(Seq<char>, Seq<u8>)>, k: Seq<char>) -> int
    decreases es.len(),
{
    if es.len() == 0 {
        -1
    } else if es.last().0 == k {
        es.len() - 1
    } else {
        index_of(es.drop_last(), k)
    }
}

/// The entries after storing `v` under `k`: an existing entry keeps its
/// place and takes the new value; a new name goes last.
pub open spec fn insert_of(es: Seq<(Seq<char>, Seq<u8>)>, k: Seq<char>, v: Seq<u8>) -> Seq<
    (Seq<char>, Seq<u8>),
> {
    let i = index_of(es, k);
    if i >= 0 {
        es.update(i, (k, v))
    } else {
        es.push((k, v))
    }
}

/// Entries inserted one after the other into an empty archive.
pub open spec fn insert_all(ps: Seq<(Seq<char>, Seq<u8>)>) -> Seq<(Seq<char>, Seq<u8>)>
    decreases ps.len(),
{
    if ps.len() == 0 {
        Seq::empty()
    } else {
        let p = ps.last();
        insert_of(insert_all(ps.drop_last()), p.0, p.1)
    }
}

/// No two entries share a name.
pub open spec fn unique_names(es: Seq<(Seq<char>, Seq<u8>)>) -> bool {
    forall|i: int, j: int| 0 <= i < j < es.len() ==> es[i].0 != es[j].0
}

/// The data segment: the blobs back to back.
pub open spec fn data_of(es: Seq<(Seq<char>, Seq<u8>)>) -> Seq<u8>
    decreases es.len(),
{
    if es.len() == 0 {
        Seq::empty()
    } else {
        data_of(es.drop_last()) + es.last().1
    }
}

/// The lookup entry of a blob at `offset` in the data segment.
pub open spec fn entry_bytes(offset: nat, name: Seq<char>, v: Seq<u8>) -> Seq<u8> {
    le_bytes(offset, 8) + le_bytes(v.len(), 8) + encode_utf8(name)
}

/// The lookup segment.
pub open spec fn lookup_of(es: Seq<(Seq<char>, Seq<u8>)>) -> Seq<u8>
    decreases es.len(),
{
    if es.len() == 0 {
        Seq::empty()
    } else {
        let p = es.last();
        lookup_of(es.drop_last()) + packet_of(entry_bytes(data_of(es.drop_last()).len(), p.0, p.1))
    }
}

/// The archive blob of `es`.
pub open spec fn archive_bytes(es: Seq<(Seq<char>, Seq<u8>)>) -> Seq<u8> {
    pack_of(seq![lookup_of(es), data_of(es)])
}

/// A lookup entry read back: name, offset and length; `None` where it is
/// shorter than sixteen bytes or its name is not UTF-8.
pub open spec fn parse_entry(e: Seq<u8>) -> Option<(Seq<char>, nat, nat)> {
    if e.len() < 16 || !valid_utf8(e.subrange(16, e.len() as int)) {
        None
    } else {
        Some(
            (
                decode_utf8(e.subrange(16, e.len() as int)),
                le_value(e.subrange(0, 8)),
                le_value(e.subrange(8, 16)),
            ),
        )
    }
}

/// The lookup entries `es` read back; `None` where one is malformed.
pub open spec fn parse_entries(es: Seq<Seq<u8>>) -> Option<Seq<(Seq<char>, nat, nat)>>
    decreases es.len(),
{
    if es.len() == 0 {
        Some(Seq::empty())
    } else {
        match (parse_entries(es.drop_last()), parse_entry(es.last())) {
            (Some(front), Some(e)) => Some(front.push(e)),
            _ => None,
        }
    }
}

/// The lookup table of an archive blob: name, offset and length of each
/// blob, in order.
pub open spec fn lookup_table(b: Seq<u8>) -> Option<Seq<(Seq<char>, nat, nat)>> {
    if b.len() < 8 {
        None
    } else {
        let l = le_value(b.subrange(0, 8));
        if l + 8 > b.len() {
            None
        } else {
            match unpack_of(b.subrange(8, (l + 8) as int)) {
                None => None,
                Some(es) => parse_entries(es),
            }
        }
    }
}

/// Where the data segment of an archive blob starts.
pub open spec fn data_offset(b: Seq<u8>) -> Option<nat> {
    if b.len() < 8 || le_value(b.subrange(0, 8)) + 16 > u64::MAX {
        None
    } else {
        Some(le_value(b.subrange(0, 8)) + 16)
    }
}

/// The blobs that table entries `t` locate in `b`, the data segment
/// starting at `doff`; `None` where one runs past the end of `b`.
pub open spec fn read_data(b: Seq<u8>, doff: nat, t: Seq<(Seq<char>, nat, nat)>) -> Option<
    Seq<(Seq<char>, Seq<u8>)>,
>
    decreases t.len(),
{
    if t.len() == 0 {
        Some(Seq::empty())
    } else {
        match read_data(b, doff, t.drop_last()) {
            None => None,
            Some(front) => {
                let (name, off, len) = t.last();
                if doff + off + len > b.len() {
                    None
                } else {
                    Some(front.push((name, b.subrange((doff + off) as int, (doff + off + len) as int))))
                }
            },
        }
    }
}

/// The named blobs in an archive blob, in the order of its lookup segment.
pub open spec fn parse_archive(b: Seq<u8>) -> Option<Seq<(Seq<char>, Seq<u8>)>> {
    match (data_offset(b), lookup_table(b)) {
        (Some(doff), Some(t)) => read_data(b, doff, t),
        _ => None,
    }
}

/// Sizes that the eight-byte fields can hold.
pub open spec fn storable(es: Seq<(Seq<char>, Seq<u8>)>) -> bool {
    &&& data_of(es).len() < pow256(8)
    &&& lookup_of(es).len() < pow256(8)
}

/// Named blobs; a name occurs once, and names keep the order in which they
/// were first inserted.
pub struct Archive {
    map: Vec<(String, Vec<u8>)>,
}

impl Archive {
    pub closed spec fn entries(&self) -> Seq<(Seq<char>, Seq<u8>)> {
        self.map@.map_values(|p: (String, Vec<u8>)| (p.0@, p.1@))
    }

    /// The archive that `blob` holds, or an empty one for `None`. Fails where
    /// `blob` is not an archive blob.
    pub fn new(blob: Option<&[u8]>) -> (r: Result<Archive, Vec<String>>)
        ensures
            blob is None ==> (r matches Ok(a) && a.entries().len() == 0),
            blob matches Some(b) ==> (r is Ok <==> parse_archive(b@) is Some),
            blob matches Some(b) ==> (r matches Ok(a) ==> a.entries() == insert_all(
                parse_archive(b@).unwrap(),
            )),
            r matches Ok(a) ==> unique_names(a.entries()),
    {
        let mut ar = Archive { map: Vec::new() };
        proof {
            assert(ar.entries() =~= Seq::<(Seq<char>, Seq<u8>)>::empty());
            lemma_insert_all_unique_names(Seq::empty());
        }
        match blob {
            None => Ok(ar),
            Some(b) => {
                let found = read_archive(b);
                match found {
                    Err(e) => Err(e),
                    Ok(list) => {
                        let mut i: usize = 0;
                        while i < list.len()
                            invariant
                                i <= list@.len(),
                                ar.entries() == insert_all(
                                    list@.map_values(|p: (String, Vec<u8>)| (p.0@, p.1@)).subrange(0, i as int),
                                ),
                            decreases list@.len() - i,
                        {
                            let ghost ps = list@.map_values(|p: (String, Vec<u8>)| (p.0@, p.1@));
                            let name = list[i].0.clone();
                            let data = list[i].1.clone();
                            ar.insert(name, data);
                            proof {
                                assert(ps.subrange(0, i + 1).drop_last() =~= ps.subrange(0, i as int));
                            }
                            i = i + 1;
                        }
                        proof {
                            let ps = list@.map_values(|p: (String, Vec<u8>)| (p.0@, p.1@));
                            assert(ps.subrange(0, i as int) =~= ps);
                            lemma_insert_all_unique_names(ps);
                        }
                        Ok(ar)
                    },
                }
            },
        }
    }

    /// The archive blob: the lookup segment then the data segment, framed.
    pub fn to_bytes(&self) -> (r: Vec<u8>)
        requires
            storable(self.entries()),
        ensures
            r@ == archive_bytes(self.entries()),
    {
        let ghost es = self.entries();
        let mut key_blob: Vec<u8> = Vec::new();
        let mut value_blob: Vec<u8> = Vec::new();
        let mut i: usize = 0;
        while i < self.map.len()
            invariant
                i <= self.map@.len(),
                es == self.entries(),
                storable(es),
                key_blob@ == lookup_of(es.subrange(0, i as int)),
                value_blob@ == data_of(es.subrange(0, i as int)),
            decreases self.map@.len() - i,
        {
            let ghost front = es.subrange(0, i as int);
            let ghost next = es.subrange(0, i + 1);
            proof {
                assert(next.drop_last() =~= front);
                lemma_prefix_sizes(es, i + 1);
            }
            let k = &self.map[i].0;
            let v = &self.map[i].1;
            let mut entry = to_le_bytes(value_blob.len() as u64);
            let mut len_bytes = to_le_bytes(v.len() as u64);
            let mut name = k.as_str().as_bytes_vec();
            entry.append(&mut len_bytes);
            entry.append(&mut name);
            proof {
                assert(entry@ == entry_bytes(data_of(front).len(), es[i as int].0, es[i as int].1));
                lemma_entry_fits(es, i as int);
            }
            let mut p = packet(entry.as_slice());
            key_blob.append(&mut p);
            let mut body = v.clone();
            value_blob.append(&mut body);
            i = i + 1;
        }
        proof {
            assert(es.subrange(0, i as int) =~= es);
        }
        let mut segs: Vec<Vec<u8>> = Vec::new();
        segs.push(key_blob);
        segs.push(value_blob);
        proof {
            let views = segs@.map_values(|v: Vec<u8>| v@);
            assert(views =~= seq![lookup_of(es), data_of(es)]);
        }
        pack(segs.as_slice())
    }

    /// The blob stored under `key`.
    pub fn get(&self, key: &str) -> (r: Option<&Vec<u8>>)
        ensures
            index_of(self.entries(), key@) < 0 ==> r is None,
            index_of(self.entries(), key@) >= 0 ==> (r matches Some(v) && v@ == self.entries()[index_of(self.entries(), key@)].1),
    {
        let k = String::from_str(key);
        let mut i: usize = self.map.len();
        proof {
            assert(self.entries().subrange(0, i as int) =~= self.entries());
        }
        while i > 0
            invariant
                i <= self.map@.len(),
                k@ == key@,
                index_of(self.entries(), key@) == index_of(self.entries().subrange(0, i as int), key@),
            decreases i,
        {
            let ghost es = self.entries().subrange(0, i as int);
            if self.map[i - 1].0 == k {
                proof {
                    assert(es.last().0 == key@);
                }
                return Some(&self.map[i - 1].1);
            }
            proof {
                assert(es.drop_last() =~= self.entries().subrange(0, i - 1));
            }
            i = i - 1;
        }
        None
    }

    /// Stores `value` under `key`, in place of any blob already there.
    pub fn insert(&mut self, key: String, value: Vec<u8>)
        ensures
            final(self).entries() == insert_of(old(self).entries(), key@, value@),
            unique_names(old(self).entries()) ==> unique_names(final(self).entries()),
    {
        proof {
            if unique_names(self.entries()) {
                lemma_insert_keeps_unique(self.entries(), key@, value@);
            }
        }
        let ghost es = self.entries();
        let mut i: usize = self.map.len();
        proof {
            assert(es.subrange(0, i as int) =~= es);
        }
        while i > 0
            invariant
                i <= self.map@.len(),
                es == self.entries(),
                es == old(self).entries(),
                index_of(es, key@) == index_of(es.subrange(0, i as int), key@),
            decreases i,
        {
            let ghost front = es.subrange(0, i as int);
            if self.map[i - 1].0 == key {
                let ghost kv = key@;
                let ghost vv = value@;
                proof {
                    assert(front.last().0 == kv);
                    assert(index_of(front, kv) == i - 1);
                    assert(index_of(es, kv) == i - 1);
                }
                self.map.set(i - 1, (key, value));
                proof {
                    assert(self.entries() =~= es.update(i - 1, (kv, vv)));
                    assert(self.entries() == insert_of(es, kv, vv));
                }
                return;
            }
            proof {
                assert(front.drop_last() =~= es.subrange(0, i - 1));
            }
            i = i - 1;
        }
        proof {
            lemma_index_bounds(es, key@);
        }
        let ghost kv = key@;
        let ghost vv = value@;
        self.map.push((key, value));
        proof {
            assert(self.entries() =~= es.push((kv, vv)));
        }
    }
}

proof fn lemma_index_bounds(es: Seq<(Seq<char>, Seq<u8>)>, k: Seq<char>)
    ensures
        -1 <= index_of(es, k) < es.len(),
        index_of(es, k) >= 0 ==> es[index_of(es, k)].0 == k,
    decreases es.len(),
{
    if es.len() > 0 && es.last().0 != k {
        lemma_index_bounds(es.drop_last(), k);
    }
}

proof fn lemma_prefix_sizes(es: Seq<(Seq<char>, Seq<u8>)>, n: int)
    requires
        0 <= n <= es.len(),
    ensures
        data_of(es.subrange(0, n)).len() <= data_of(es).len(),
        lookup_of(es.subrange(0, n)).len() <= lookup_of(es).len(),
    decreases es.len(),
{
    if n < es.len() {
        lemma_prefix_sizes(es.drop_last(), n);
        assert(es.drop_last().subrange(0, n) =~= es.subrange(0, n));
    } else {
        assert(es.subrange(0, n) =~= es);
    }
}

proof fn lemma_entry_fits(es: Seq<(Seq<char>, Seq<u8>)>, i: int)
    requires
        0 <= i < es.len(),
        storable(es),
    ensures
        entry_bytes(data_of(es.subrange(0, i)).len(), es[i].0, es[i].1).len() < pow256(8),
{
    let next = es.subrange(0, i + 1);
    assert(next.drop_last() =~= es.subrange(0, i));
    lemma_prefix_sizes(es, i + 1);
}

/// Where the data segment of `blob` starts: eight bytes past the end of
/// the lookup segment.
pub fn get_data_offset(blob: &[u8]) -> (r: Result<u64, Vec<String>>)
    ensures
        match r {
            Ok(d) => data_offset(blob@) == Some(d as nat),
            Err(_) => data_offset(blob@) is None,
        },
{
    if blob.len() < 8 {
        let mut e: Vec<String> = Vec::new();
        e.push(String::from_str("no lookup length in archive blob"));
        return Err(e);
    }
    let head = slice_subrange(blob, 0, 8);
    let l: u64 = from_le_bytes(head);
    proof {
        assert(blob@.subrange(0, 8) =~= head@);
    }
    if l > u64::MAX - 16 {
        let mut e: Vec<String> = Vec::new();
        e.push(String::from_str("lookup length out of range"));
        return Err(e);
    }
    Ok(l + 16)
}

/// The lookup table of `blob`, without touching the data segment.
pub fn get_lookup_table(blob: &[u8]) -> (r: Result<Vec<(String, u64, u64)>, Vec<String>>)
    ensures
        match r {
            Ok(v) => lookup_table(blob@) == Some(
                v@.map_values(|e: (String, u64, u64)| (e.0@, e.1 as nat, e.2 as nat)),
            ),
            Err(_) => lookup_table(blob@) is None,
        },
{
    let mut err: Vec<String> = Vec::new();
    err.push(String::from_str("could not read the lookup table"));
    if blob.len() < 8 {
        return Err(err);
    }
    let head = slice_subrange(blob, 0, 8);
    let l: u64 = from_le_bytes(head);
    proof {
        assert(blob@.subrange(0, 8) =~= head@);
    }
    if l > (blob.len() - 8) as u64 {
        return Err(err);
    }
    let lookup_end = l as usize + 8;
    let lookup = slice_subrange(blob, 8, lookup_end);
    proof {
        assert(blob@.subrange(8, lookup_end as int) =~= lookup@);
    }
    let entries = match unpack(lookup) {
        Err(_) => return Err(err),
        Ok(v) => v,
    };
    let ghost es = entries@.map_values(|s: Vec<u8>| s@);
    let mut out: Vec<(String, u64, u64)> = Vec::new();
    let mut i: usize = 0;
    while i < entries.len()
        invariant
            i <= entries@.len(),
            es == entries@.map_values(|s: Vec<u8>| s@),
            lookup_table(blob@) == parse_entries(es),
            parse_entries(es.subrange(0, i as int)) == Some(
                out@.map_values(|e: (String, u64, u64)| (e.0@, e.1 as nat, e.2 as nat)),
            ),
        decreases entries@.len() - i,
    {
        let ghost front = es.subrange(0, i + 1);
        proof {
            assert(front.drop_last() =~= es.subrange(0, i as int));
            assert(front.last() == entries@[i as int]@);
        }
        let e = &entries[i];
        if e.len() < 16 {
            proof {
                assert(parse_entries(front) is None);
                lemma_entries_prefix_none(es, i + 1);
            }
            return Err(err);
        }
        let off: u64 = from_le_bytes(slice_subrange(e.as_slice(), 0, 8));
        let len: u64 = from_le_bytes(slice_subrange(e.as_slice(), 8, 16));
        let name_bytes = slice_to_vec(slice_subrange(e.as_slice(), 16, e.len()));
        let ghost nb = name_bytes@;
        let name = match utf8_string(name_bytes) {
            None => {
                proof {
                    assert(e@.subrange(16, e@.len() as int) =~= nb);
                    assert(parse_entries(front) is None);
                    lemma_entries_prefix_none(es, i + 1);
                }
                return Err(err);
            },
            Some(s) => s,
        };
        let ghost before = out@.map_values(|e: (String, u64, u64)| (e.0@, e.1 as nat, e.2 as nat));
        out.push((name, off, len));
        proof {
            assert(out@.map_values(|e: (String, u64, u64)| (e.0@, e.1 as nat, e.2 as nat))
                =~= before.push((name@, off as nat, len as nat)));
        }
        i = i + 1;
    }
    proof {
        assert(es.subrange(0, i as int) =~= es);
    }
    Ok(out)
}

proof fn lemma_entries_prefix_none(es: Seq<Seq<u8>>, k: int)
    requires
        0 <= k <= es.len(),
        parse_entries(es.subrange(0, k)) is None,
    ensures
        parse_entries(es) is None,
    decreases es.len(),
{
    if k < es.len() {
        assert(es.drop_last().subrange(0, k) =~= es.subrange(0, k));
        lemma_entries_prefix_none(es.drop_last(), k);
    } else {
        assert(es.subrange(0, k) =~= es);
    }
}

proof fn lemma_data_prefix_none(b: Seq<u8>, doff: nat, t: Seq<(Seq<char>, nat, nat)>, k: int)
    requires
        0 <= k <= t.len(),
        read_data(b, doff, t.subrange(0, k)) is None,
    ensures
        read_data(b, doff, t) is None,
    decreases t.len(),
{
    if k < t.len() {
        assert(t.drop_last().subrange(0, k) =~= t.subrange(0, k));
        lemma_data_prefix_none(b, doff, t.drop_last(), k);
    } else {
        assert(t.subrange(0, k) =~= t);
    }
}

/// The entries of an archive blob, each blob copied out of the data
/// segment.
fn read_archive(b: &[u8]) -> (r: Result<Vec<(String, Vec<u8>)>, Vec<String>>)
    ensures
        r is Ok <==> parse_archive(b@) is Some,
        r matches Ok(v) ==> v@.map_values(|p: (String, Vec<u8>)| (p.0@, p.1@)) == parse_archive(
            b@,
        ).unwrap(),
{
    let doff = match get_data_offset(b) {
        Ok(d) => d,
        Err(mut e) => {
            e.push(String::from_str("could not get data offset"));
            return Err(e);
        },
    };
    let table = match get_lookup_table(b) {
        Ok(t) => t,
        Err(mut e) => {
            e.push(String::from_str("could not get list of entries in archive"));
            return Err(e);
        },
    };
    let ghost t = table@.map_values(|e: (String, u64, u64)| (e.0@, e.1 as nat, e.2 as nat));
    let bl: usize = b.len();
    let blen: u64 = bl as u64;
    let mut out: Vec<(String, Vec<u8>)> = Vec::new();
    let mut i: usize = 0;
    while i < table.len()
        invariant
            i <= table@.len(),
            t == table@.map_values(|e: (String, u64, u64)| (e.0@, e.1 as nat, e.2 as nat)),
            blen == b@.len(),
            bl == b@.len(),
            parse_archive(b@) == read_data(b@, doff as nat, t),
            read_data(b@, doff as nat, t.subrange(0, i as int)) == Some(
                out@.map_values(|p: (String, Vec<u8>)| (p.0@, p.1@)),
            ),
        decreases table@.len() - i,
    {
        let ghost front = t.subrange(0, i + 1);
        proof {
            assert(front.drop_last() =~= t.subrange(0, i as int));
        }
        let off = table[i].1;
        let len = table[i].2;
        if doff > blen || off > blen - doff || len > blen - doff - off {
            proof {
                assert(read_data(b@, doff as nat, front) is None);
                lemma_data_prefix_none(b@, doff as nat, t, i + 1);
            }
            let mut e: Vec<String> = Vec::new();
            e.push(String::from_str("blob runs past the end of the archive"));
            return Err(e);
        }
        let start = (doff + off) as usize;
        let end = (doff + off + len) as usize;
        let data = slice_to_vec(slice_subrange(b, start, end));
        let name = table[i].0.clone();
        let ghost before = out@.map_values(|p: (String, Vec<u8>)| (p.0@, p.1@));
        out.push((name, data));
        proof {
            assert(out@.map_values(|p: (String, Vec<u8>)| (p.0@, p.1@)) =~= before.push(
                (name@, data@),
            ));
        }
        i = i + 1;
    }
    proof {
        assert(t.subrange(0, i as int) =~= t);
    }
    Ok(out)
}

/// The offset and length of the blob named `k`; the last entry of that name
/// wins.
pub open spec fn entry_for(t: Seq<(Seq<char>, nat, nat)>, k: Seq<char>) -> Option<(nat, nat)>
    decreases t.len(),
{
    if t.len() == 0 {
        None
    } else if t.last().0 == k {
        Some((t.last().1, t.last().2))
    } else {
        entry_for(t.drop_last(), k)
    }
}

/// Why a span of a stored blob cannot be reached.
#[derive(Clone, Copy, Debug, PartialEq, Eq, Structural)]
pub enum SpanError {
    /// No blob has that name.
    NotFound,
    /// The span reaches past the end of the blob.
    OutOfBounds,
}

/// Access to the blobs of an archive stored in a file, by position, with only
/// its lookup table in memory. Blobs keep their length.
#[derive(Debug)]
pub struct ArchiveHandle {
    lookup: Vec<(String, u64, u64)>,
    offset: u64,
}

impl ArchiveHandle {
    pub closed spec fn table(&self) -> Seq<(Seq<char>, nat, nat)> {
        self.lookup@.map_values(|e: (String, u64, u64)| (e.0@, e.1 as nat, e.2 as nat))
    }

    /// Position of the data segment in the file.
    pub closed spec fn data_start(&self) -> nat {
        self.offset as nat
    }

    /// The handle for the archive whose blob starts at position `base` of a
    /// file; `header` holds the blob from its start to at least the end of
    /// the lookup segment.
    pub fn new(header: &[u8], base: u64) -> (r: Result<ArchiveHandle, Vec<String>>)
        ensures
            r is Ok <==> lookup_table(header@) is Some && data_offset(header@) is Some && base
                + data_offset(header@).unwrap() <= u64::MAX,
            r matches Ok(h) ==> h.table() == lookup_table(header@).unwrap() && h.data_start() == base
                + data_offset(header@).unwrap(),
    {
        let doff = match get_data_offset(header) {
            Ok(d) => d,
            Err(e) => return Err(e),
        };
        let lookup = match get_lookup_table(header) {
            Ok(t) => t,
            Err(e) => return Err(e),
        };
        if doff > u64::MAX - base {
            let mut e: Vec<String> = Vec::new();
            e.push(String::from_str("archive lies beyond the largest position"));
            return Err(e);
        }
        Ok(ArchiveHandle { lookup, offset: base + doff })
    }

    fn find(&self, name: &str) -> (r: Option<(u64, u64)>)
        ensures
            match r {
                Some((o, l)) => entry_for(self.table(), name@) == Some((o as nat, l as nat)),
                None => entry_for(self.table(), name@) is None,
            },
    {
        let k = String::from_str(name);
        let mut i: usize = self.lookup.len();
        proof {
            assert(self.table().subrange(0, i as int) =~= self.table());
        }
        while i > 0
            invariant
                i <= self.lookup@.len(),
                k@ == name@,
                entry_for(self.table(), name@) == entry_for(self.table().subrange(0, i as int), name@),
            decreases i,
        {
            let ghost t = self.table().subrange(0, i as int);
            proof {
                assert(t.drop_last() =~= self.table().subrange(0, i - 1));
            }
            if self.lookup[i - 1].0 == k {
                return Some((self.lookup[i - 1].1, self.lookup[i - 1].2));
            }
            i = i - 1;
        }
        None
    }

    /// Where to read from blob `name`, starting `blob_offset` bytes in, into
    /// a buffer of `buf_len` bytes: the file position and how many bytes;
    /// `None` when there is no such blob.
    pub fn read(&self, name: &str, blob_offset: u64, buf_len: usize) -> (r: Result<Option<(u64, usize)>, SpanError>)
        ensures
            match entry_for(self.table(), name@) {
                None => r == Ok::<Option<(u64, usize)>, SpanError>(None),
                Some((o, l)) => if blob_offset > l || self.data_start() + o + blob_offset > u64::MAX {
                    r == Err::<Option<(u64, usize)>, SpanError>(SpanError::OutOfBounds)
                } else {
                    r matches Ok(Some((pos, n))) && pos == self.data_start() + o + blob_offset && n == if buf_len <= l - blob_offset {
                        buf_len as int
                    } else {
                        l - blob_offset
                    }
                },
            },
    {
        let (o, l) = match self.find(name) {
            None => return Ok(None),
            Some(e) => e,
        };
        if blob_offset > l || o > u64::MAX - self.offset || blob_offset > u64::MAX - self.offset - o {
            return Err(SpanError::OutOfBounds);
        }
        let avail = l - blob_offset;
        let n = if (buf_len as u64) <= avail { buf_len } else { avail as usize };
        Ok(Some((self.offset + o + blob_offset, n)))
    }

    /// Where to write `len` bytes into blob `name`, starting `blob_offset`
    /// bytes in: the file position. The blob does not grow.
    pub fn overwrite(&self, name: &str, len: usize, blob_offset: u64) -> (r: Result<u64, SpanError>)
        ensures
            match entry_for(self.table(), name@) {
                None => r == Err::<u64, SpanError>(SpanError::NotFound),
                Some((o, l)) => if blob_offset > l || len > l - blob_offset || self.data_start() + o
                    + blob_offset > u64::MAX {
                    r == Err::<u64, SpanError>(SpanError::OutOfBounds)
                } else {
                    r == Ok::<u64, SpanError>((self.data_start() + o + blob_offset) as u64)
                },
            },
    {
        let (o, l) = match self.find(name) {
            None => return Err(SpanError::NotFound),
            Some(e) => e,
        };
        if blob_offset > l || len as u64 > l - blob_offset || o > u64::MAX - self.offset || blob_offset
            > u64::MAX - self.offset - o {
            return Err(SpanError::OutOfBounds);
        }
        Ok(self.offset + o + blob_offset)
    }
}

/// The lookup entries of `es`, one per blob.
pub open spec fn entries_of(es: Seq<(Seq<char>, Seq<u8>)>) -> Seq<Seq<u8>>
    decreases es.len(),
{
    if es.len() == 0 {
        Seq::empty()
    } else {
        let p = es.last();
        entries_of(es.drop_last()).push(entry_bytes(data_of(es.drop_last()).len(), p.0, p.1))
    }
}

/// The lookup table that `es` is stored with.
pub open spec fn table_of(es: Seq<(Seq<char>, Seq<u8>)>) -> Seq<(Seq<char>, nat, nat)>
    decreases es.len(),
{
    if es.len() == 0 {
        Seq::empty()
    } else {
        let p = es.last();
        table_of(es.drop_last()).push((p.0, data_of(es.drop_last()).len(), p.1.len()))
    }
}

proof fn lemma_lookup_is_pack(es: Seq<(Seq<char>, Seq<u8>)>)
    ensures
        lookup_of(es) == pack_of(entries_of(es)),
        entries_of(es).len() == es.len(),
    decreases es.len(),
{
    if es.len() > 0 {
        let p = es.last();
        lemma_lookup_is_pack(es.drop_last());
        lemma_pack_push(entries_of(es.drop_last()), entry_bytes(data_of(es.drop_last()).len(), p.0, p.1));
    }
}

proof fn lemma_entries_fit(es: Seq<(Seq<char>, Seq<u8>)>)
    ensures
        forall|i: int| 0 <= i < entries_of(es).len() ==> #[trigger] entries_of(es)[i].len() < lookup_of(es).len(),
        es.len() > 0 ==> data_of(es.drop_last()).len() <= data_of(es).len(),
    decreases es.len(),
{
    if es.len() > 0 {
        lemma_entries_fit(es.drop_last());
        lemma_lookup_is_pack(es.drop_last());
    }
}

proof fn lemma_prefix_data(es: Seq<(Seq<char>, Seq<u8>)>, k: int)
    requires
        0 <= k <= es.len(),
    ensures
        data_of(es.subrange(0, k)).len() <= data_of(es).len(),
        data_of(es).subrange(0, data_of(es.subrange(0, k)).len() as int) == data_of(es.subrange(0, k)),
    decreases es.len(),
{
    if k == es.len() {
        assert(es.subrange(0, k) =~= es);
        assert(data_of(es).subrange(0, data_of(es).len() as int) =~= data_of(es));
    } else {
        lemma_prefix_data(es.drop_last(), k);
        assert(es.drop_last().subrange(0, k) =~= es.subrange(0, k));
        let d = data_of(es.drop_last());
        let n = data_of(es.subrange(0, k)).len() as int;
        assert(data_of(es).subrange(0, n) =~= d.subrange(0, n));
    }
}

proof fn lemma_parse_entries(es: Seq<(Seq<char>, Seq<u8>)>)
    requires
        data_of(es).len() < pow256(8),
    ensures
        parse_entries(entries_of(es)) == Some(table_of(es)),
    decreases es.len(),
{
    if es.len() > 0 {
        let p = es.last();
        let front = es.drop_last();
        lemma_entries_fit(es);
        lemma_parse_entries(front);
        let off = data_of(front).len();
        let e = entry_bytes(off, p.0, p.1);
        lemma_le_round_trip(off, 8);
        lemma_le_round_trip(p.1.len(), 8);
        encode_utf8_valid_utf8(p.0);
        encode_utf8_decode_utf8(p.0);
        assert(e.subrange(0, 8) =~= le_bytes(off, 8));
        assert(e.subrange(8, 16) =~= le_bytes(p.1.len(), 8));
        assert(e.subrange(16, e.len() as int) =~= encode_utf8(p.0));
        assert(entries_of(es).drop_last() =~= entries_of(front));
    }
}

proof fn lemma_read_data(es: Seq<(Seq<char>, Seq<u8>)>, b: Seq<u8>, doff: nat, k: int)
    requires
        0 <= k <= es.len(),
        doff + data_of(es).len() <= b.len(),
        b.subrange(doff as int, (doff + data_of(es).len()) as int) == data_of(es),
    ensures
        read_data(b, doff, table_of(es.subrange(0, k))) == Some(es.subrange(0, k)),
    decreases k,
{
    if k > 0 {
        let pre = es.subrange(0, k);
        let front = es.subrange(0, k - 1);
        assert(pre.drop_last() =~= front);
        assert(table_of(pre).drop_last() =~= table_of(front));
        lemma_read_data(es, b, doff, k - 1);
        lemma_prefix_data(es, k);
        let p = pre.last();
        let off: int = data_of(front).len() as int;
        let len: int = p.1.len() as int;
        let start: int = doff + off;
        let d = data_of(es);
        assert(data_of(pre) == data_of(front) + p.1);
        assert(b.subrange(start, start + len) =~= d.subrange(off, off + len));
        assert(d.subrange(off, off + len) =~= data_of(pre).subrange(off, off + len));
        assert(data_of(pre).subrange(off, off + len) =~= p.1);
        assert(front.push(p) =~= pre);
    } else {
        assert(es.subrange(0, 0) =~= Seq::<(Seq<char>, Seq<u8>)>::empty());
    }
}

proof fn lemma_index_absent(es: Seq<(Seq<char>, Seq<u8>)>, k: Seq<char>)
    requires
        forall|i: int| 0 <= i < es.len() ==> #[trigger] es[i].0 != k,
    ensures
        index_of(es, k) == -1,
    decreases es.len(),
{
    if es.len() > 0 {
        lemma_index_absent(es.drop_last(), k);
    }
}

proof fn lemma_index_missing(es: Seq<(Seq<char>, Seq<u8>)>, k: Seq<char>)
    requires
        index_of(es, k) < 0,
    ensures
        forall|i: int| 0 <= i < es.len() ==> #[trigger] es[i].0 != k,
    decreases es.len(),
{
    if es.len() > 0 {
        lemma_index_missing(es.drop_last(), k);
        assert forall|i: int| 0 <= i < es.len() implies #[trigger] es[i].0 != k by {
            if i < es.len() - 1 {
                assert(es.drop_last()[i] == es[i]);
            }
        }
    }
}

/// Storing under a name keeps names unique.
pub proof fn lemma_insert_keeps_unique(es: Seq<(Seq<char>, Seq<u8>)>, k: Seq<char>, v: Seq<u8>)
    requires
        unique_names(es),
    ensures
        unique_names(insert_of(es, k, v)),
{
    lemma_index_bounds(es, k);
    if index_of(es, k) < 0 {
        lemma_index_missing(es, k);
    }
}

/// An archive built by insertions has unique names.
pub proof fn lemma_insert_all_unique_names(ps: Seq<(Seq<char>, Seq<u8>)>)
    ensures
        unique_names(insert_all(ps)),
    decreases ps.len(),
{
    if ps.len() > 0 {
        lemma_insert_all_unique_names(ps.drop_last());
        lemma_insert_keeps_unique(insert_all(ps.drop_last()), ps.last().0, ps.last().1);
    }
}

proof fn lemma_insert_all_unique(es: Seq<(Seq<char>, Seq<u8>)>)
    requires
        unique_names(es),
    ensures
        insert_all(es) == es,
    decreases es.len(),
{
    if es.len() > 0 {
        let front = es.drop_last();
        lemma_insert_all_unique(front);
        lemma_index_absent(front, es.last().0);
        assert(front.push(es.last()) =~= es);
    }
}

/// An archive blob read back gives the named blobs it was written from, in
/// order; inserting them into an empty archive gives those same entries.
pub proof fn law_archive_round_trip(es: Seq<(Seq<char>, Seq<u8>)>)
    requires
        unique_names(es),
        lookup_of(es).len() + 16 <= u64::MAX,
        data_of(es).len() < pow256(8),
    ensures
        parse_archive(archive_bytes(es)) == Some(es),
        insert_all(es) == es,
{
    let l = lookup_of(es);
    let d = data_of(es);
    let b = archive_bytes(es);
    reveal_with_fuel(pack_of, 3);
    assert(pack_of(seq![l, d]) =~= packet_of(l) + packet_of(d)) by {
        assert(seq![l, d].drop_first() =~= seq![d]);
        assert(seq![d].drop_first() =~= Seq::<Seq<u8>>::empty());
    }
    reveal_with_fuel(pow256, 9);
    lemma_le_round_trip(l.len(), 8);
    lemma_le_round_trip(d.len(), 8);
    assert(b.subrange(0, 8) =~= le_bytes(l.len(), 8));
    assert(b.subrange(8, l.len() + 8int) =~= l);
    lemma_lookup_is_pack(es);
    lemma_entries_fit(es);
    assert(frameable(entries_of(es)));
    lemma_pack_round_trip(entries_of(es));
    lemma_parse_entries(es);
    let doff: nat = l.len() + 16;
    assert(b.subrange(doff as int, doff + d.len() as int) =~= d);
    lemma_read_data(es, b, doff, es.len() as int);
    assert(es.subrange(0, es.len() as int) =~= es);
    lemma_insert_all_unique(es);
}

} // verus!


