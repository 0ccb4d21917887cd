//! Fixed-width unsigned integers as little- and big-endian bytes.

use vstd::prelude::*;

verus! {

/// `256^n`.
pub open spec fn pow256(n: nat) -> nat
    decreases n,
{
    if n == 0 {
        1
    } else {
        256 * pow256((n - 1) as nat)
    }
}

/// The `w` low bytes of `v`, least significant first.
pub open spec fn le_bytes(v: nat, w: nat) -> Seq<u8>
    decreases w,
{
    if w == 0 {
        Seq::empty()
    } else {
        seq![(v % 256) as u8] + le_bytes(v / 256, (w - 1) as nat)
    }
}

/// The number that `b` spells, least significant byte first.
pub open spec fn le_value(b: Seq<u8>) -> nat
    decreases b.len(),
{
    if b.len() == 0 {
        0
    } else {
        b[0] as nat + 256 * le_value(b.drop_first())
    }
}

/// An unsigned integer type of a fixed number of bytes.
pub trait Unsigned: Sized + Copy {
    /// The number of bytes.
    spec fn width() -> nat;

    /// The number held.
    spec fn value(self) -> nat;

    fn bytes() -> (r: usize)
        ensures
            r == Self::width(),
            1 <= r <= 8;

    fn to_u64(self) -> (r: u64)
        ensures
            r == self.value(),
            r < pow256(Self::width());

    fn from_u64(v: u64) -> (r: Self)
        requires
            v < pow256(Self::width()),
        ensures
            r.value() == v;
}

impl Unsigned for u8 {
    open spec fn width() -> nat {
        1
    }

    open spec fn value(self) -> nat {
        self as nat
    }

    fn bytes() -> (r: usize) {
        1
    }

    fn to_u64(self) -> (r: u64) {
        proof {
            reveal_with_fuel(pow256, 2);
        }
        self as u64
    }

    fn from_u64(v: u64) -> (r: u8) {
        proof {
            reveal_with_fuel(pow256, 2);
        }
        v as u8
    }
}

impl Unsigned for u16 {
    open spec fn width() -> nat {
        2
    }

    open spec fn value(self) -> nat {
        self as nat
    }

    fn bytes() -> (r: usize) {
        2
    }

    fn to_u64(self) -> (r: u64) {
        proof {
            reveal_with_fuel(pow256, 3);
        }
        self as u64
    }

    fn from_u64(v: u64) -> (r: u16) {
        proof {
            reveal_with_fuel(pow256, 3);
        }
        v as u16
    }
}

impl Unsigned for u32 {
    open spec fn width() -> nat {
        4
    }

    open spec fn value(self) -> nat {
        self as nat
    }

    fn bytes() -> (r: usize) {
        4
    }

    fn to_u64(self) -> (r: u64) {
        proof {
            reveal_with_fuel(pow256, 5);
        }
        self as u64
    }

    fn from_u64(v: u64) -> (r: u32) {
        proof {
            reveal_with_fuel(pow256, 5);
        }
        v as u32
    }
}

impl Unsigned for u64 {
    open spec fn width() -> nat {
        8
    }

    open spec fn value(self) -> nat {
        self as nat
    }

    fn bytes() -> (r: usize) {
        8
    }

    fn to_u64(self) -> (r: u64) {
        proof {
            reveal_with_fuel(pow256, 9);
        }
        self
    }

    fn from_u64(v: u64) -> (r: u64) {
        v
    }
}

proof fn lemma_pow256_positive(n: nat)
    ensures
        pow256(n) >= 1,
    decreases n,
{
    if n > 0 {
        lemma_pow256_positive((n - 1) as nat);
    }
}

proof fn lemma_le_value_bound(b: Seq<u8>)
    ensures
        le_value(b) < pow256(b.len()),
    decreases b.len(),
{
    if b.len() > 0 {
        lemma_le_value_bound(b.drop_first());
        assert(le_value(b) < pow256(b.len())) by (nonlinear_arith)
            requires
                le_value(b) == b[0] as nat + 256 * le_value(b.drop_first()),
                le_value(b.drop_first()) + 1 <= pow256((b.len() - 1) as nat),
                pow256(b.len()) == 256 * pow256((b.len() - 1) as nat),
                b[0] < 256,
        ;
    }
}

/// Reading the bytes back gives the number, when it fits in `w` bytes.
pub proof fn lemma_le_round_trip(v: nat, w: nat)
    requires
        v < pow256(w),
    ensures
        le_bytes(v, w).len() == w,
        le_value(le_bytes(v, w)) == v,
    decreases w,
{
    if w > 0 {
        assert(v / 256 < pow256((w - 1) as nat)) by (nonlinear_arith)
            requires
                v < pow256(w),
                pow256(w) == 256 * pow256((w - 1) as nat),
        ;
        lemma_le_round_trip(v / 256, (w - 1) as nat);
        let b = le_bytes(v, w);
        assert(b.drop_first() =~= le_bytes(v / 256, (w - 1) as nat));
        assert(v == v % 256 + 256 * (v / 256)) by (nonlinear_arith);
    }
}

/// `n` as `T`'s number of bytes, least significant first.
pub fn to_le_bytes<T: Unsigned>(n: T) -> (r: Vec<u8>)
    ensures
        r@ == le_bytes(n.value(), T::width()),
        r@.len() == T::width(),
{
    let w = T::bytes();
    let mut num: u64 = n.to_u64();
    let mut buf: Vec<u8> = Vec::new();
    let mut i: usize = 0;
    while i < w
        invariant
            w == T::width(),
            i <= w,
            buf@ + le_bytes(num as nat, (w - i) as nat) == le_bytes(n.value(), T::width()),
        decreases w - i,
    {
        let ghost old_buf = buf@;
        let ghost rest = le_bytes(num as nat, (w - i) as nat);
        buf.push((num % 256) as u8);
        proof {
            assert(rest == seq![(num % 256) as u8] + le_bytes((num / 256) as nat, (w - i - 1) as nat));
            assert(buf@ + le_bytes((num / 256) as nat, (w - i - 1) as nat) =~= old_buf + rest);
        }
        num = num / 256;
        i = i + 1;
    }
    proof {
        assert(buf@ + le_bytes(num as nat, 0) =~= buf@);
        lemma_pow256_positive(T::width());
        lemma_le_round_trip(n.value(), T::width());
    }
    buf
}

/// The number that `buf` spells, least significant byte first; `buf` holds
/// exactly `T`'s number of bytes.
pub fn from_le_bytes<T: Unsigned>(buf: &[u8]) -> (r: T)
    requires
        buf@.len() == T::width(),
    ensures
        r.value() == le_value(buf@),
{
    let w = T::bytes();
    let mut num: u64 = 0;
    let mut i: usize = w;
    proof {
        assert(buf@.subrange(w as int, w as int) =~= Seq::<u8>::empty());
    }
    while i > 0
        invariant
            w == T::width() == buf@.len(),
            w <= 8,
            i <= w,
            num == le_value(buf@.subrange(i as int, w as int)),
        decreases i,
    {
        let ghost tail = buf@.subrange(i as int, w as int);
        let ghost longer = buf@.subrange(i - 1, w as int);
        proof {
            assert(longer.drop_first() =~= tail);
            lemma_le_value_bound(tail);
            lemma_pow256_le(tail.len(), 7);
            reveal_with_fuel(pow256, 8);
            assert(pow256(7) == 0x100000000000000);
            assert(256 * num + 255 <= u64::MAX);
        }
        num = buf[i - 1] as u64 + 256 * num;
        i = i - 1;
    }
    proof {
        assert(buf@.subrange(0, w as int) =~= buf@);
        lemma_le_value_bound(buf@);
    }
    T::from_u64(num)
}

proof fn lemma_pow256_le(a: nat, b: nat)
    requires
        a <= b,
    ensures
        pow256(a) <= pow256(b),
    decreases b,
{
    if a < b {
        lemma_pow256_le(a, (b - 1) as nat);
        lemma_pow256_positive((b - 1) as nat);
    }
}

/// `n` as `T`'s number of bytes, most significant first.
pub fn to_be_bytes<T: Unsigned>(n: T) -> (r: Vec<u8>)
    ensures
        r@ == le_bytes(n.value(), T::width()).reverse(),
{
    let b = to_le_bytes(n);
    reversed(&b)
}

/// The number that `buf` spells, most significant byte first; `buf` holds
/// exactly `T`'s number of bytes.
pub fn from_be_bytes<T: Unsigned>(buf: &[u8]) -> (r: T)
    requires
        buf@.len() == T::width(),
    ensures
        r.value() == le_value(buf@.reverse()),
{
    let b = reversed_slice(buf);
    from_le_bytes(b.as_slice())
}

fn reversed(v: &Vec<u8>) -> (r: Vec<u8>)
    ensures
        r@ == v@.reverse(),
{
    reversed_slice(v.as_slice())
}

fn reversed_slice(v: &[u8]) -> (r: Vec<u8>)
    ensures
        r@ == v@.reverse(),
{
    let mut out: Vec<u8> = Vec::new();
    let n = v.len();
    let mut i: usize = n;
    while i > 0
        invariant
            i <= n == v@.len(),
            out@.len() == n - i,
            forall|j: int| 0 <= j < n - i ==> out@[j] == v@[n - 1 - j],
        decreases i,
    {
        out.push(v[i - 1]);
        i = i - 1;
    }
    proof {
        if n == 0 {
            assert(out@ =~= v@.reverse());
        } else {
            assert(out@ =~= v@.reverse());
        }
    }
    out
}

} // verus!
