//! Rendering bytes for people: decimal and hexadecimal numbers, and a
//! classic hex dump.

use vstd::prelude::*;
use vstd::string::*;

verus! {

/// Relies on `String::push`: the character is appended at the end.
#[verifier::external_body]
pub(crate) fn push_char(s: &mut String, c: char)
    ensures
        final(s)@ == old(s)@.push(c),
{
    s.push(c)
}

/// The digit character for `d` (below 16), lower-case past 9.
pub open spec fn digit_char(d: nat) -> char {
    if d < 10 {
        (48 + d) as char
    } else {
        (97 + (d - 10)) as char
    }
}

/// `n` in base `b`, at least `w` digits, zero-padded.
pub open spec fn digits(n: nat, b: nat, w: nat) -> Seq<char>
    recommends
        2 <= b <= 16,
    decreases n + w,
    via digits_decreases
{
    if b < 2 || (n == 0 && w == 0) {
        Seq::empty()
    } else {
        digits(n / b, b, if w > 0 { (w - 1) as nat } else { 0 }) + seq![digit_char(n % b)]
    }
}

#[via_fn]
proof fn digits_decreases(n: nat, b: nat, w: nat) {
    if !(b < 2 || (n == 0 && w == 0)) {
        assert(n / b <= n) by (nonlinear_arith)
            requires
                b >= 2,
        ;
        if w == 0 {
            assert(n / b < n) by (nonlinear_arith)
                requires
                    b >= 2,
                    n > 0,
            ;
        }
    }
}

/// `n` in decimal, without leading zeros (`0` for zero).
pub open spec fn decimal(n: nat) -> Seq<char> {
    digits(n, 10, 1)
}

fn digit_of(d: u64) -> (c: char)
    requires
        d < 16,
    ensures
        c == digit_char(d as nat),
{
    if d < 10 {
        ((48u8 + d as u8) as char)
    } else {
        ((97u8 + (d - 10) as u8) as char)
    }
}

/// Appends `n` in base `b`, padded with zeros to at least `w` digits.
pub(crate) fn push_digits(s: &mut String, n: u64, b: u64, w: u64)
    requires
        2 <= b <= 16,
        w <= 64,
    ensures
        final(s)@ == old(s)@ + digits(n as nat, b as nat, w as nat),
    decreases n as nat + w as nat,
{
    if n == 0 && w == 0 {
        proof {
            assert(old(s)@ + digits(0, b as nat, 0) =~= old(s)@);
        }
        return;
    }
    let next_w = if w > 0 { w - 1 } else { 0 };
    proof {
        assert(n / b <= n) by (nonlinear_arith)
            requires
                b >= 2,
        ;
        if w == 0 {
            assert(n / b < n) by (nonlinear_arith)
                requires
                    b >= 2,
                    n > 0,
            ;
        }
    }
    push_digits(s, n / b, b, next_w);
    let c = digit_of(n % b);
    push_char(s, c);
    proof {
        assert(final(s)@ =~= old(s)@ + digits(n as nat, b as nat, w as nat));
    }
}

/// Whether a byte shows as itself in a dump.
pub open spec fn shown(b: u8) -> char {
    if 0x20 <= b < 0x7f {
        b as char
    } else {
        '.'
    }
}

/// The hex columns of a group of up to eight bytes: two digits and a space
/// per byte.
pub open spec fn hex_bytes(g: Seq<u8>) -> Seq<char>
    decreases g.len(),
{
    if g.len() == 0 {
        Seq::empty()
    } else {
        hex_bytes(g.drop_last()) + digits(g.last() as nat, 16, 2) + seq![' ']
    }
}

/// The shown characters of `g`.
pub open spec fn shown_all(g: Seq<u8>) -> Seq<char>
    decreases g.len(),
{
    if g.len() == 0 {
        Seq::empty()
    } else {
        shown_all(g.drop_last()) + seq![shown(g.last())]
    }
}

/// One line of a dump: the offset in eight hex digits, the bytes in groups
/// of eight, each group followed by a space, then the shown characters
/// between bars.
pub open spec fn dump_line(line: Seq<u8>, offset: nat) -> Seq<char> {
    let first = if line.len() <= 8 { line } else { line.subrange(0, 8) };
    let second = if line.len() <= 8 { Seq::empty() } else { hex_bytes(line.subrange(8, line.len() as int)) + seq![' '] };
    digits(offset, 16, 8) + seq![':', ' ', ' '] + hex_bytes(first) + seq![' '] + second + seq!['|']
        + shown_all(line) + seq!['|', '\n']
}

/// The lines for `b`, sixteen bytes each, the first at `offset`.
pub open spec fn dump_lines(b: Seq<u8>, offset: nat) -> Seq<char>
    decreases b.len(),
{
    if b.len() == 0 {
        Seq::empty()
    } else if b.len() <= 16 {
        dump_line(b, offset)
    } else {
        dump_line(b.subrange(0, 16), offset) + dump_lines(b.subrange(16, b.len() as int), offset + 16)
    }
}

/// The whole dump: a length line, then the lines.
pub open spec fn dump_of(b: Seq<u8>) -> Seq<char> {
    seq!['L', 'e', 'n', 'g', 't', 'h', ':', ' '] + decimal(b.len()) + seq!['\n'] + dump_lines(b, 0)
}

fn push_group(s: &mut String, chars: &mut String, g: &[u8])
    ensures
        final(s)@ == old(s)@ + hex_bytes(g@) + seq![' '],
        final(chars)@ == old(chars)@ + shown_all(g@),
{
    let mut i: usize = 0;
    while i < g.len()
        invariant
            i <= g@.len(),
            s@ == old(s)@ + hex_bytes(g@.subrange(0, i as int)),
            chars@ == old(chars)@ + shown_all(g@.subrange(0, i as int)),
        decreases g@.len() - i,
    {
        let ghost pre = g@.subrange(0, i + 1);
        proof {
            assert(pre.drop_last() =~= g@.subrange(0, i as int));
        }
        let b = g[i];
        push_digits(s, b as u64, 16, 2);
        push_char(s, ' ');
        let c = if b >= 0x20 && b < 0x7f { b as char } else { '.' };
        push_char(chars, c);
        proof {
            assert(s@ =~= old(s)@ + hex_bytes(pre));
            assert(chars@ =~= old(chars)@ + shown_all(pre));
        }
        i = i + 1;
    }
    proof {
        assert(g@.subrange(0, i as int) =~= g@);
    }
    push_char(s, ' ');
}

fn push_line(out: &mut String, line: &[u8], at: u64)
    requires
        1 <= line@.len() <= 16,
    ensures
        final(out)@ == old(out)@ + dump_line(line@, at as nat),
{
    let mut chars = String::new();
    push_digits(out, at, 16, 8);
    push_char(out, ':');
    push_char(out, ' ');
    push_char(out, ' ');
    let first_end = if line.len() <= 8 { line.len() } else { 8 };
    push_group(out, &mut chars, vstd::slice::slice_subrange(line, 0, first_end));
    if line.len() > 8 {
        push_group(out, &mut chars, vstd::slice::slice_subrange(line, 8, line.len()));
    }
    push_char(out, '|');
    out.append(chars.as_str());
    push_char(out, '|');
    push_char(out, '\n');
    proof {
        let l = line@;
        if l.len() <= 8 {
            assert(l.subrange(0, first_end as int) =~= l);
            assert(chars@ =~= shown_all(l));
        } else {
            lemma_shown_split(l, 8);
            assert(chars@ =~= shown_all(l));
        }
        assert(final(out)@ =~= old(out)@ + dump_line(l, at as nat));
    }
}

/// A hex dump of `buf`: `Length: <n>`, then per sixteen bytes the offset,
/// the bytes in hex in two groups of eight, and the printable ones between
/// bars.
pub fn hex_dump(buf: &[u8]) -> (r: String)
    ensures
        r@ == dump_of(buf@),
{
    let mut out = String::from_str("Length: ");
    push_digits(&mut out, buf.len() as u64, 10, 1);
    push_char(&mut out, '\n');
    proof {
        reveal_strlit("Length: ");
    }
    let ghost head = out@;
    let n = buf.len();
    let mut at: usize = 0;
    proof {
        assert(head =~= seq!['L', 'e', 'n', 'g', 't', 'h', ':', ' '] + decimal(buf@.len()) + seq!['\n']);
        assert(buf@.subrange(0, n as int) =~= buf@);
    }
    while at < n
        invariant
            at <= n == buf@.len(),
            out@ + dump_lines(buf@.subrange(at as int, n as int), at as nat) == dump_of(buf@),
        decreases n - at,
    {
        let end = if n - at <= 16 { n } else { at + 16 };
        let line = vstd::slice::slice_subrange(buf, at, end);
        let ghost rest = buf@.subrange(at as int, n as int);
        let ghost before = out@;
        push_line(&mut out, line, at as u64);
        proof {
            assert(line@ =~= if rest.len() <= 16 { rest } else { rest.subrange(0, 16) });
            if rest.len() > 16 {
                assert(rest.subrange(16, rest.len() as int) =~= buf@.subrange(end as int, n as int));
                assert(out@ + dump_lines(buf@.subrange(end as int, n as int), end as nat) =~= before
                    + dump_lines(rest, at as nat));
            } else {
                assert(buf@.subrange(end as int, n as int) =~= Seq::<u8>::empty());
                assert(out@ + dump_lines(buf@.subrange(end as int, n as int), end as nat) =~= before
                    + dump_lines(rest, at as nat));
            }
        }
        at = end;
    }
    out
}

proof fn lemma_shown_split(l: Seq<u8>, k: int)
    requires
        0 <= k <= l.len(),
    ensures
        shown_all(l) == shown_all(l.subrange(0, k)) + shown_all(l.subrange(k, l.len() as int)),
    decreases l.len(),
{
    if l.len() == k {
        assert(l.subrange(0, k) =~= l);
        assert(shown_all(l.subrange(k, l.len() as int)) =~= Seq::<char>::empty());
        assert(shown_all(l) =~= shown_all(l.subrange(0, k)) + Seq::<char>::empty());
    } else {
        lemma_shown_split(l.drop_last(), k);
        assert(l.drop_last().subrange(0, k) =~= l.subrange(0, k));
        assert(l.subrange(k, l.len() as int).drop_last() =~= l.drop_last().subrange(k, l.len() - 1));
        assert(shown_all(l) =~= shown_all(l.subrange(0, k)) + shown_all(l.subrange(k, l.len() as int)));
    }
}

} // verus!
