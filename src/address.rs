//! Host names and `host:port` addresses.

use vstd::prelude::*;
use vstd::string::*;

verus! {

pub open spec fn is_alnum(c: char) -> bool {
    ('a' <= c <= 'z') || ('A' <= c <= 'Z') || ('0' <= c <= '9')
}

pub open spec fn is_host_char(c: char) -> bool {
    is_alnum(c) || c == '-' || c == '.'
}

/// A host name: at least two characters, letters, digits, `-` and `.`
/// only; it starts with a letter or digit and does not end with `-`; every
/// `.` follows a label of two or more characters that ends in a letter or
/// digit, and is followed by a letter or digit unless it is the last
/// character; the last label is not a single character.
pub open spec fn valid_host(s: Seq<char>) -> bool {
    &&& s.len() >= 2
    &&& forall|i: int| 0 <= i < s.len() ==> is_host_char(#[trigger] s[i])
    &&& is_alnum(s[0])
    &&& s.last() != '-'
    &&& forall|i: int|
        0 <= i < s.len() && #[trigger] s[i] == '.' ==> {
            &&& i >= 2 && is_alnum(s[i - 1]) && s[i - 2] != '.'
            &&& i + 1 < s.len() ==> is_alnum(s[i + 1])
        }
    &&& !(s[s.len() - 2] == '.' && s.last() != '.')
}

fn alnum(c: char) -> (r: bool)
    ensures
        r == is_alnum(c),
{
    (c >= 'a' && c <= 'z') || (c >= 'A' && c <= 'Z') || (c >= '0' && c <= '9')
}

/// Whether `s` is a host name in the sense of `valid_host`. Single-letter
/// names are refused; a trailing `.` is accepted.
pub fn validate_host_domain(s: &str) -> (r: bool)
    ensures
        r == valid_host(s@),
{
    let n = s.unicode_len();
    if n < 2 {
        return false;
    }
    if !alnum(s.get_char(0)) || s.get_char(n - 1) == '-' {
        return false;
    }
    if s.get_char(n - 2) == '.' && s.get_char(n - 1) != '.' {
        return false;
    }
    let mut i: usize = 0;
    while i < n
        invariant
            n == s@.len(),
            n >= 2,
            i <= n,
            is_alnum(s@[0]),
            forall|j: int| 0 <= j < i ==> is_host_char(#[trigger] s@[j]),
            forall|j: int|
                0 <= j < i && #[trigger] s@[j] == '.' ==> {
                    &&& j >= 2 && is_alnum(s@[j - 1]) && s@[j - 2] != '.'
                    &&& j + 1 < n ==> is_alnum(s@[j + 1])
                },
        decreases n - i,
    {
        let c = s.get_char(i);
        if !(alnum(c) || c == '-' || c == '.') {
            return false;
        }
        if c == '.' {
            if i < 2 || !alnum(s.get_char(i - 1)) || s.get_char(i - 2) == '.' {
                return false;
            }
            if i + 1 < n && !alnum(s.get_char(i + 1)) {
                return false;
            }
        }
        i = i + 1;
    }
    true
}

/// The number in `p`: an optional `+`, then one or more decimal digits
/// whose value is at most `max`.
pub open spec fn number_of(p: Seq<char>, max: nat) -> Option<nat> {
    let d = if p.len() > 0 && p[0] == '+' {
        p.subrange(1, p.len() as int)
    } else {
        p
    };
    if d.len() > 0 && all_digits(d) && dec_value(d) <= max {
        Some(dec_value(d))
    } else {
        None
    }
}

/// The port in `p`; see `number_of`.
pub open spec fn port_of(p: Seq<char>) -> Option<u16> {
    match number_of(p, 65535) {
        Some(v) => Some(v as u16),
        None => None,
    }
}

pub open spec fn all_digits(d: Seq<char>) -> bool {
    forall|i: int| 0 <= i < d.len() ==> '0' <= #[trigger] d[i] <= '9'
}

/// The number that decimal digits `d` spell.
pub open spec fn dec_value(d: Seq<char>) -> nat
    decreases d.len(),
{
    if d.len() == 0 {
        0
    } else {
        10 * dec_value(d.drop_last()) + (d.last() as nat - '0' as nat) as nat
    }
}

proof fn lemma_dec_value_grows(d: Seq<char>, k: int)
    requires
        0 <= k <= d.len(),
        all_digits(d),
    ensures
        dec_value(d.subrange(0, k)) <= dec_value(d),
    decreases d.len() - k,
{
    if k < d.len() {
        lemma_dec_value_grows(d, k + 1);
        let a = d.subrange(0, k + 1);
        assert(a.drop_last() =~= d.subrange(0, k));
        assert('0' <= a.last() <= '9');
    } else {
        assert(d.subrange(0, k) =~= d);
    }
}

/// Reads a port number; see `port_of`.
fn parse_port(p: &str) -> (r: Option<u16>)
    ensures
        r == port_of(p@),
{
    match parse_number(p, 65535) {
        Some(v) => Some(v as u16),
        None => None,
    }
}

/// Reads a number of at most `max`; see `number_of`.
fn parse_number(p: &str, max: u32) -> (r: Option<u32>)
    requires
        max <= 65535,
    ensures
        r == match number_of(p@, max as nat) {
            Some(v) => Some(v as u32),
            None => None::<u32>,
        },
{
    let n = p.unicode_len();
    let start: usize = if n > 0 && p.get_char(0) == '+' { 1 } else { 0 };
    let ghost d = p@.subrange(start as int, n as int);
    proof {
        assert(start == 0 ==> d =~= p@);
    }
    if start == n {
        return None;
    }
    let mut v: u32 = 0;
    let mut i: usize = start;
    while i < n
        invariant
            start <= i <= n == p@.len(),
            d == p@.subrange(start as int, n as int),
            d.len() > 0,
            number_of(p@, max as nat) == if all_digits(d) && dec_value(d) <= max {
                Some(dec_value(d))
            } else {
                None
            },
            forall|j: int| start <= j < i ==> '0' <= #[trigger] p@[j] <= '9',
            v == dec_value(p@.subrange(start as int, i as int)),
            v <= max <= 65535,
        decreases n - i,
    {
        let c = p.get_char(i);
        let ghost pre = p@.subrange(start as int, i + 1);
        proof {
            assert(pre.drop_last() =~= p@.subrange(start as int, i as int));
        }
        if !(c >= '0' && c <= '9') {
            proof {
                assert(d[i - start] == c);
                assert(!all_digits(d));
            }
            return None;
        }
        let digit = (c as u32) - ('0' as u32);
        let next = v * 10 + digit;
        if next > max {
            proof {
                assert(dec_value(pre) == next);
                assert(all_digits(d) ==> dec_value(d) > max) by {
                    if all_digits(d) {
                        assert(d.subrange(0, i + 1 - start) =~= pre);
                        lemma_dec_value_grows(d, i + 1 - start);
                    }
                }
            }
            return None;
        }
        v = next;
        i = i + 1;
    }
    proof {
        assert(p@.subrange(start as int, i as int) =~= d);
        assert(all_digits(d)) by {
            assert forall|j: int| 0 <= j < d.len() implies '0' <= #[trigger] d[j] <= '9' by {
                assert(d[j] == p@[j + start]);
            }
        }
    }
    Some(v)
}

/// How many `:` there are in `s`.
pub open spec fn colon_count(s: Seq<char>) -> nat
    decreases s.len(),
{
    if s.len() == 0 {
        0
    } else {
        colon_count(s.drop_last()) + if s.last() == ':' {
            1nat
        } else {
            0nat
        }
    }
}

/// Position of the first `:` in `s`, or its length when there is none.
pub open spec fn first_colon(s: Seq<char>) -> int
    decreases s.len(),
{
    if s.len() == 0 {
        0
    } else if first_colon(s.drop_last()) < s.len() - 1 {
        first_colon(s.drop_last())
    } else if s.last() == ':' {
        s.len() - 1
    } else {
        s.len() as int
    }
}

/// `s` read as `host` or `host:port` with a valid host name; `None` for
/// anything else, more than one `:` included.
pub open spec fn domain_address(s: Seq<char>) -> Option<(Seq<char>, Option<u16>)> {
    if colon_count(s) == 0 {
        if valid_host(s) {
            Some((s, None))
        } else {
            None
        }
    } else if colon_count(s) == 1 {
        let k = first_colon(s);
        let host = s.subrange(0, k);
        match port_of(s.subrange(k + 1, s.len() as int)) {
            Some(port) => if valid_host(host) {
                Some((host, Some(port)))
            } else {
                None
            },
            None => None,
        }
    } else {
        None
    }
}

proof fn lemma_first_colon(s: Seq<char>)
    ensures
        0 <= first_colon(s) <= s.len(),
        first_colon(s) < s.len() ==> s[first_colon(s)] == ':',
        colon_count(s) > 0 ==> first_colon(s) < s.len(),
        colon_count(s) == 0 ==> first_colon(s) == s.len(),
    decreases s.len(),
{
    if s.len() > 0 {
        lemma_first_colon(s.drop_last());
    }
}

/// Reads `s` as a host name with an optional port. A dotted quad such as
/// `12.12.12.12` is a valid host name too: try an IPv4 address first.
pub fn parse_as_domain_address<'a>(s: &'a str) -> (r: Option<(&'a str, Option<u16>)>)
    ensures
        match r {
            Some((h, p)) => domain_address(s@) == Some((h@, p)),
            None => domain_address(s@) is None,
        },
{
    let n = s.unicode_len();
    let mut first: usize = 0;
    let mut count: usize = 0;
    let mut i: usize = 0;
    while i < n
        invariant
            i <= n == s@.len(),
            count <= i,
            count == colon_count(s@.subrange(0, i as int)),
            first == first_colon(s@.subrange(0, i as int)),
        decreases n - i,
    {
        let ghost pre = s@.subrange(0, i + 1);
        proof {
            assert(pre.drop_last() =~= s@.subrange(0, i as int));
            lemma_first_colon(s@.subrange(0, i as int));
        }
        if s.get_char(i) == ':' {
            if count == 0 {
                first = i;
            }
            count = count + 1;
        } else if count == 0 {
            first = i + 1;
        }
        i = i + 1;
    }
    proof {
        assert(s@.subrange(0, n as int) =~= s@);
        lemma_first_colon(s@);
    }
    if count == 0 {
        if validate_host_domain(s) {
            Some((s, None))
        } else {
            None
        }
    } else if count == 1 {
        let host = s.substring_char(0, first);
        let port = parse_port(s.substring_char(first + 1, n));
        match port {
            Some(p) => if validate_host_domain(host) {
                Some((host, Some(p)))
            } else {
                None
            },
            None => None,
        }
    } else {
        None
    }
}

/// Position of the first `c` in `s`, or its length when there is none.
pub open spec fn first_of(s: Seq<char>, c: char) -> int
    decreases s.len(),
{
    if s.len() == 0 {
        0
    } else if s[0] == c {
        0
    } else {
        1 + first_of(s.drop_first(), c)
    }
}

/// The pieces of `s` between occurrences of `sep`, as `str::split` gives
/// them: one more piece than there are separators.
pub open spec fn split_on(s: Seq<char>, sep: char) -> Seq<Seq<char>>
    decreases s.len(),
    via split_on_decreases
{
    let k = first_of(s, sep);
    if k >= s.len() {
        seq![s]
    } else {
        seq![s.subrange(0, k)] + split_on(s.subrange(k + 1, s.len() as int), sep)
    }
}

proof fn lemma_first_of_bounds(s: Seq<char>, c: char)
    ensures
        0 <= first_of(s, c) <= s.len(),
    decreases s.len(),
{
    if s.len() > 0 && s[0] != c {
        lemma_first_of_bounds(s.drop_first(), c);
    }
}

#[via_fn]
proof fn split_on_decreases(s: Seq<char>, sep: char) {
    lemma_first_of_bounds(s, sep);
}

proof fn lemma_first_of(s: Seq<char>, c: char, j: int)
    requires
        0 <= j <= s.len(),
        forall|i: int| 0 <= i < j ==> s[i] != c,
        j < s.len() ==> s[j] == c,
    ensures
        first_of(s, c) == j,
    decreases s.len(),
{
    if s.len() > 0 && j > 0 {
        lemma_first_of(s.drop_first(), c, j - 1);
    }
}

/// The pieces of `s` between occurrences of `sep`.
pub fn split<'a>(s: &'a str, sep: char) -> (r: Vec<&'a str>)
    ensures
        r@.map_values(|p: &str| p@) == split_on(s@, sep),
{
    let n = s.unicode_len();
    let mut parts: Vec<&'a str> = Vec::new();
    let mut start: usize = 0;
    let mut i: usize = 0;
    proof {
        assert(s@.subrange(0, n as int) =~= s@);
        assert(parts@.map_values(|p: &str| p@) + split_on(s@, sep) =~= split_on(s@, sep));
    }
    while i < n
        invariant
            start <= i <= n == s@.len(),
            forall|j: int| start <= j < i ==> s@[j] != sep,
            parts@.map_values(|p: &str| p@) + split_on(s@.subrange(start as int, n as int), sep)
                == split_on(s@, sep),
        decreases n - i,
    {
        if s.get_char(i) == sep {
            let ghost rest = s@.subrange(start as int, n as int);
            let piece = s.substring_char(start, i);
            let ghost before = parts@.map_values(|p: &str| p@);
            parts.push(piece);
            proof {
                lemma_first_of(rest, sep, i - start);
                assert(rest.subrange(0, i - start) =~= piece@);
                assert(rest.subrange(i - start + 1, rest.len() as int) =~= s@.subrange(i + 1, n as int));
                assert(parts@.map_values(|p: &str| p@) =~= before.push(piece@));
                assert(before.push(piece@) + split_on(s@.subrange(i + 1, n as int), sep) =~= before
                    + split_on(rest, sep));
            }
            start = i + 1;
        }
        i = i + 1;
    }
    let piece = s.substring_char(start, n);
    let ghost rest = s@.subrange(start as int, n as int);
    let ghost before = parts@.map_values(|p: &str| p@);
    parts.push(piece);
    proof {
        lemma_first_of(rest, sep, rest.len() as int);
        assert(parts@.map_values(|p: &str| p@) =~= before.push(piece@));
        assert(split_on(rest, sep) =~= seq![piece@]);
        assert(before.push(piece@) =~= before + split_on(rest, sep));
    }
    parts
}

/// An IPv4 socket address: four octets and a port.
#[derive(Clone, Copy, Debug, PartialEq, Eq)]
pub struct Ipv4Address {
    pub octets: [u8; 4],
    pub port: u16,
}

/// The address `a.b.c.d:port`.
pub fn ipv4(a: u8, b: u8, c: u8, d: u8, port: u16) -> (r: Ipv4Address)
    ensures
        r.octets@ == seq![a, b, c, d],
        r.port == port,
{
    let r = Ipv4Address { octets: [a, b, c, d], port };
    proof {
        assert(r.octets@ =~= seq![a, b, c, d]);
    }
    r
}

/// `s` read as `a.b.c.d:port`: four numbers up to 255 and a port.
pub open spec fn ipv4_address(s: Seq<char>) -> Option<(Seq<u8>, u16)> {
    let hp = split_on(s, ':');
    if hp.len() != 2 {
        None
    } else {
        let ip = split_on(hp[0], '.');
        match port_of(hp[1]) {
            None => None,
            Some(port) => if ip.len() == 4 && (forall|i: int| 0 <= i < 4 ==> #[trigger] number_of(ip[i], 255) is Some) {
                Some((Seq::new(4, |i: int| number_of(ip[i], 255).unwrap() as u8), port))
            } else {
                None
            },
        }
    }
}

/// Reads `s` as a literal IPv4 socket address.
pub fn parse_as_ipv4_address(s: &str) -> (r: Option<Ipv4Address>)
    ensures
        match r {
            Some(a) => ipv4_address(s@) == Some((a.octets@, a.port)),
            None => ipv4_address(s@) is None,
        },
{
    let ip_port = split(s, ':');
    if ip_port.len() != 2 {
        return None;
    }
    let port = match parse_port(ip_port[1]) {
        Some(p) => p,
        None => return None,
    };
    let ip = split(ip_port[0], '.');
    if ip.len() != 4 {
        return None;
    }
    let mut bytes: [u8; 4] = [0; 4];
    let mut i: usize = 0;
    proof {
        assert(ip_port@.map_values(|p: &str| p@)[0] == ip_port@[0]@);
        assert(ip_port@.map_values(|p: &str| p@)[1] == ip_port@[1]@);
    }
    while i < 4
        invariant
            ip@.len() == 4,
            ip@.map_values(|p: &str| p@) == split_on(split_on(s@, ':')[0], '.'),
            split_on(s@, ':').len() == 2,
            port_of(split_on(s@, ':')[1]) == Some(port),
            i <= 4,
            forall|j: int| 0 <= j < i ==> #[trigger] number_of(ip@[j]@, 255) == Some(bytes@[j] as nat),
        decreases 4 - i,
    {
        match parse_number(ip[i], 255) {
            Some(v) => {
                bytes[i] = v as u8;
            },
            None => {
                proof {
                    let pieces = split_on(split_on(s@, ':')[0], '.');
                    assert(ip@.map_values(|p: &str| p@)[i as int] == ip@[i as int]@);
                    assert(number_of(pieces[i as int], 255) is None);
                }
                return None;
            },
        }
        i = i + 1;
    }
    let r = ipv4(bytes[0], bytes[1], bytes[2], bytes[3], port);
    proof {
        let pieces = split_on(split_on(s@, ':')[0], '.');
        assert forall|j: int| 0 <= j < 4 implies #[trigger] number_of(pieces[j], 255) is Some by {
            assert(ip@.map_values(|p: &str| p@)[j] == ip@[j]@);
        }
        assert(r.octets@ =~= Seq::new(4, |j: int| number_of(pieces[j], 255).unwrap() as u8)) by {
            assert forall|j: int| 0 <= j < 4 implies r.octets@[j] == number_of(pieces[j], 255).unwrap() as u8 by {
                assert(ip@.map_values(|p: &str| p@)[j] == ip@[j]@);
            }
        }
    }
    Some(r)
}

} // verus!

