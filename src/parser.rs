//! Parsers that recognise a prefix of a character sequence and tag it.

use std::rc::Rc;
use vstd::prelude::*;
use vstd::slice::slice_subrange;
use vstd::string::*;
use crate::character::Character;
use crate::debug::push_digits;
use crate::tree::{Branch, Leaf, Node, NodeExt};

verus! {

/// Why a parser did not match: its tag, a description, and the offset into
/// the input where it gave up.
#[derive(Debug, PartialEq)]
pub struct Error {
    pub tag: Rc<String>,
    pub desc: String,
    pub offset: usize,
}

/// A class of characters.
#[derive(Clone, Copy, Debug, PartialEq, Eq)]
pub enum CharSpec {
    /// Exactly this character.
    Singleton(char),
    /// Every character from the first to the second, both included.
    IRange(char, char),
    /// Every character from the first up to, not including, the second.
    XRange(char, char),
}

impl CharSpec {
    pub open spec fn holds(self, c: char) -> bool {
        match self {
            CharSpec::Singleton(a) => c == a,
            CharSpec::IRange(start, end) => start <= c <= end,
            CharSpec::XRange(start, end) => start <= c < end,
        }
    }

    /// Whether `c` is in the class.
    pub fn check(&self, c: char) -> (r: bool)
        ensures
            r == self.holds(c),
    {
        match self {
            CharSpec::Singleton(a) => c == *a,
            CharSpec::IRange(start, end) => c >= *start && c <= *end,
            CharSpec::XRange(start, end) => c >= *start && c < *end,
        }
    }
}

/// Some class among `specs` holds `c`.
pub open spec fn any_holds(specs: Seq<CharSpec>, c: char) -> bool {
    exists|i: int| 0 <= i < specs.len() && #[trigger] specs[i].holds(c)
}

/// Whether some class among `specs` holds `c`.
fn check_any(specs: &Vec<CharSpec>, c: char) -> (r: bool)
    ensures
        r == any_holds(specs@, c),
{
    let mut i: usize = 0;
    while i < specs.len()
        invariant
            i <= specs@.len(),
            forall|j: int| 0 <= j < i ==> !#[trigger] specs@[j].holds(c),
        decreases specs@.len() - i,
    {
        if specs[i].check(c) {
            return true;
        }
        i = i + 1;
    }
    false
}

/// Matches one character of the given classes.
pub struct CharParser {
    tag: String,
    spec: Vec<CharSpec>,
}

impl CharParser {
    pub closed spec fn spec_tag(&self) -> Seq<char> {
        self.tag@
    }

    pub closed spec fn classes(&self) -> Seq<CharSpec> {
        self.spec@
    }

    pub fn new(tag: &str, spec: &[CharSpec]) -> (r: CharParser)
        ensures
            r.spec_tag() == tag@,
            r.classes() == spec@,
    {
        CharParser { tag: String::from_str(tag), spec: vstd::slice::slice_to_vec(spec) }
    }

    /// A leaf over the first character of `source` when a class holds it.
    pub fn parse<'t>(&self, source: &'t [char]) -> (r: Option<Node<'t, char>>)
        ensures
            r is Some <==> source@.len() > 0 && any_holds(self.classes(), source@[0]),
            r matches Some(n) ==> n is Leaf && n.spec_tag() == self.spec_tag() && n.spec_slice()
                == source@.subrange(0, 1),
    {
        if source.len() == 0 {
            return None;
        }
        if check_any(&self.spec, source[0]) {
            Some(Leaf::new(Rc::new(self.tag.clone()), slice_subrange(source, 0, 1)))
        } else {
            None
        }
    }
}

/// Matches a fixed run of characters at the start of the input.
#[derive(Clone, Debug)]
pub struct Match {
    slice: Vec<char>,
    tag: String,
}

impl Match {
    pub closed spec fn spec_tag(&self) -> Seq<char> {
        self.tag@
    }

    pub closed spec fn pattern(&self) -> Seq<char> {
        self.slice@
    }

    pub fn new(tag: &str, slice: Vec<char>) -> (r: Match)
        ensures
            r.spec_tag() == tag@,
            r.pattern() == slice@,
    {
        Match { slice, tag: String::from_str(tag) }
    }

    /// A leaf over the pattern when `source` starts with it; an empty
    /// pattern matches nothing.
    pub fn parse<'t>(&self, source: &'t [char]) -> (r: Result<Node<'t, char>, Error>)
        ensures
            r is Ok <==> self.pattern().len() > 0 && self.pattern().len() <= source@.len()
                && source@.subrange(0, self.pattern().len() as int) == self.pattern(),
            r matches Ok(n) ==> n is Leaf && n.spec_tag() == self.spec_tag() && n.spec_slice()
                == self.pattern() && n.spec_len() == self.pattern().len(),
            r matches Err(e) ==> e.offset == 0 && e.tag@ == self.spec_tag(),
    {
        let m = self.slice.len();
        let mut same = m > 0 && source.len() >= m;
        let mut i: usize = 0;
        while same && i < m
            invariant
                m == self.slice@.len(),
                same ==> 0 < m <= source@.len(),
                same ==> forall|j: int| 0 <= j < i ==> source@[j] == self.slice@[j],
                !same ==> !(m > 0 && m <= source@.len() && source@.subrange(0, m as int)
                    == self.slice@),
                i <= m,
            decreases m - i + if same { 1int } else { 0int },
        {
            if source[i] != self.slice[i] {
                proof {
                    if m <= source@.len() && source@.subrange(0, m as int) == self.slice@ {
                        assert(source@.subrange(0, m as int)[i as int] == source@[i as int]);
                    }
                }
                same = false;
            } else {
                i = i + 1;
            }
        }
        if same {
            let s = slice_subrange(source, 0, m);
            proof {
                assert(s@ =~= self.slice@);
            }
            Ok(Leaf::new(Rc::new(self.tag.clone()), s))
        } else {
            Err(Error { tag: Rc::new(self.tag.clone()), desc: String::from_str("Mismatch"), offset: 0 })
        }
    }
}

/// A grammar rule: single characters, fixed runs, and rules combined by
/// choice, option, sequence and repetition. A rule matches a prefix of its
/// input.
pub enum Rule {
    Char(Character),
    Match(Match),
    Or(Or),
    Perhaps(Perhaps),
    And(And),
    Repeat(Repeat),
}

/// The first of its rules that matches.
pub struct Or {
    parsers: Vec<Rule>,
    tag: String,
}

/// Its rule's match, or an empty match.
pub struct Perhaps {
    parser: Box<Rule>,
    tag: String,
}

/// Its rules matched one after the other; an empty match overall fails.
pub struct And {
    parsers: Vec<Rule>,
    tag: String,
}

/// Its rule matched repeatedly, at least `minimum` and fewer than `maximum`
/// times; repetition stops at the first failed or empty match.
pub struct Repeat {
    parser: Box<Rule>,
    tag: String,
    minimum: usize,
    maximum: usize,
}

/// The length of the prefix of `s` that `r` matches.
pub closed spec fn matched(r: Rule, s: Seq<char>) -> Option<nat>
    decreases r, 0nat,
{
    match r {
        Rule::Char(c) => if s.len() > 0 && c.accepts(s[0]) {
            Some(1)
        } else {
            None
        },
        Rule::Match(m) => if m.pattern().len() > 0 && m.pattern().len() <= s.len() && s.subrange(
            0,
            m.pattern().len() as int,
        ) == m.pattern() {
            Some(m.pattern().len())
        } else {
            None
        },
        Rule::Or(o) => first_match(o.parsers@, s),
        Rule::Perhaps(p) => match matched(*p.parser, s) {
            Some(n) => Some(n),
            None => Some(0),
        },
        Rule::And(a) => match seq_match(a.parsers@, s) {
            Some(n) => if n == 0 {
                None
            } else {
                Some(n)
            },
            None => None,
        },
        Rule::Repeat(rp) => {
            let (c, k) = repeat_run(*rp.parser, s, 0, 0, rp.maximum as nat);
            if k < rp.minimum || k >= rp.maximum {
                None
            } else {
                Some(c)
            }
        },
    }
}

/// The match of the first of `ps` that matches `s`.
pub closed spec fn first_match(ps: Seq<Rule>, s: Seq<char>) -> Option<nat>
    decreases ps, 0nat,
{
    if ps.len() == 0 {
        None
    } else {
        match matched(ps[0], s) {
            Some(n) => Some(n),
            None => first_match(ps.subrange(1, ps.len() as int), s),
        }
    }
}

/// The total length matched by `ps` one after the other from the start of
/// `s`.
pub closed spec fn seq_match(ps: Seq<Rule>, s: Seq<char>) -> Option<nat>
    decreases ps, 0nat,
{
    if ps.len() == 0 {
        Some(0)
    } else {
        match matched(ps[0], s) {
            None => None,
            Some(n) => if n > s.len() {
                None
            } else {
                match seq_match(ps.subrange(1, ps.len() as int), s.subrange(n as int, s.len() as int)) {
                    Some(m) => Some(n + m),
                    None => None,
                }
            },
        }
    }
}

/// Where repeating `child` from position `cur` of `s`, `reps` matches done,
/// stops: the position and the number of matches.
pub closed spec fn repeat_run(child: Rule, s: Seq<char>, cur: nat, reps: nat, max: nat) -> (nat, nat)
    decreases child, s.len() + 1 - cur,
{
    if reps >= max || cur >= s.len() {
        (cur, reps)
    } else {
        match matched(child, s.subrange(cur as int, s.len() as int)) {
            None => (cur, reps),
            Some(n) => if n == 0 || cur + n > s.len() {
                (cur, reps)
            } else {
                repeat_run(child, s, cur + n, reps + 1, max)
            },
        }
    }
}

impl Or {
    pub closed spec fn rules(&self) -> Seq<Rule> {
        self.parsers@
    }

    pub fn new(tag: &str, parsers: Vec<Rule>) -> (r: Rule)
        ensures
            r matches Rule::Or(o) && o.rules() == parsers@,
    {
        Rule::Or(Or { parsers, tag: String::from_str(tag) })
    }
}

impl Perhaps {
    pub fn new(tag: &str, parser: Rule) -> (r: Rule)
        ensures
            r matches Rule::Perhaps(_),
    {
        Rule::Perhaps(Perhaps { parser: Box::new(parser), tag: String::from_str(tag) })
    }
}

impl And {
    pub closed spec fn rules(&self) -> Seq<Rule> {
        self.parsers@
    }

    pub fn new(tag: &str, parsers: Vec<Rule>) -> (r: Rule)
        ensures
            r matches Rule::And(a) && a.rules() == parsers@,
    {
        Rule::And(And { parsers, tag: String::from_str(tag) })
    }
}

impl Repeat {
    pub closed spec fn bounds(&self) -> (nat, nat) {
        (self.minimum as nat, self.maximum as nat)
    }

    /// `max` of `None` leaves repetition unbounded in practice.
    pub fn new(tag: &str, parser: Rule, min: usize, max: Option<usize>) -> (r: Rule)
        ensures
            r matches Rule::Repeat(rp) && rp.bounds() == (min as nat, match max {
                Some(m) => m as nat,
                None => usize::MAX as nat,
            }),
    {
        let maximum = match max {
            Some(m) => m,
            None => usize::MAX,
        };
        Rule::Repeat(Repeat { parser: Box::new(parser), tag: String::from_str(tag), minimum: min, maximum })
    }
}

fn failure(tag: &String, desc: String) -> (e: Error)
    ensures
        e.offset == 0,
{
    Error { tag: Rc::new(tag.clone()), desc, offset: 0 }
}

impl Rule {
    /// Matches a prefix of `source`: the parse tree over it, or why not.
    pub fn parse<'t>(&self, source: &'t [char]) -> (r: Result<Node<'t, char>, Error>)
        ensures
            r is Ok <==> matched(*self, source@) is Some,
            r matches Ok(n) ==> n.spec_len() == matched(*self, source@).unwrap() && n.spec_len()
                <= source@.len() && n.spec_slice() == source@.subrange(0, n.spec_len() as int),
            r matches Err(e) ==> e.offset <= source@.len(),
        decreases self,
    {
        match self {
            Rule::Char(c) => c.parse(source),
            Rule::Match(m) => m.parse(source),
            Rule::Or(o) => {
                let mut i: usize = 0;
                proof {
                    assert(o.parsers@.subrange(0, o.parsers@.len() as int) =~= o.parsers@);
                }
                while i < o.parsers.len()
                    invariant
                        *self == Rule::Or(*o),
                        i <= o.parsers@.len(),
                        matched(*self, source@) == first_match(o.parsers@.subrange(i as int, o.parsers@.len() as int), source@),
                    decreases o.parsers@.len() - i,
                {
                    let ghost rest = o.parsers@.subrange(i as int, o.parsers@.len() as int);
                    proof {
                        assert(rest[0] == o.parsers@[i as int]);
                        assert(rest.subrange(1, rest.len() as int) =~= o.parsers@.subrange(i + 1, o.parsers@.len() as int));
                        assert(decreases_to!(*self => o.parsers[i as int]));
                    }
                    match o.parsers[i].parse(source) {
                        Ok(n) => return Ok(n),
                        Err(_) => {},
                    }
                    i = i + 1;
                }
                Err(failure(&o.tag, String::from_str("No matches in set")))
            },
            Rule::Perhaps(p) => {
                proof {
                    assert(decreases_to!(*self => *p.parser));
                }
                match p.parser.parse(source) {
                    Ok(n) => Ok(n),
                    Err(_) => {
                        let empty = slice_subrange(source, 0, 0);
                        Ok(Leaf::new(Rc::new(p.tag.clone()), empty))
                    },
                }
            },
            Rule::And(a) => {
                let n = source.len();
                let mut branch = Branch::empty(Rc::new(a.tag.clone()), source);
                let mut cur: usize = 0;
                let mut i: usize = 0;
                proof {
                    assert(a.parsers@.subrange(0, a.parsers@.len() as int) =~= a.parsers@);
                    assert(source@.subrange(0, n as int) =~= source@);
                }
                while i < a.parsers.len()
                    invariant
                        *self == Rule::And(*a),
                        n == source@.len(),
                        i <= a.parsers@.len(),
                        cur <= n,
                        branch.wf(),
                        branch.spec_root() == source@,
                        branch.spec_len() == cur,
                        branch.spec_slice() == source@.subrange(0, cur as int),
                        seq_match(a.parsers@, source@) == match seq_match(
                            a.parsers@.subrange(i as int, a.parsers@.len() as int),
                            source@.subrange(cur as int, n as int),
                        ) {
                            Some(m) => Some((cur + m) as nat),
                            None => None,
                        },
                    decreases a.parsers@.len() - i,
                {
                    let ghost rest = a.parsers@.subrange(i as int, a.parsers@.len() as int);
                    let tail = slice_subrange(source, cur, n);
                    proof {
                        assert(rest[0] == a.parsers@[i as int]);
                        assert(rest.subrange(1, rest.len() as int) =~= a.parsers@.subrange(i + 1, a.parsers@.len() as int));
                        assert(decreases_to!(*self => a.parsers[i as int]));
                    }
                    let node = match a.parsers[i].parse(tail) {
                        Ok(node) => node,
                        Err(e) => {
                            return Err(Error { tag: e.tag, desc: e.desc, offset: e.offset + cur });
                        },
                    };
                    let k = node.len();
                    proof {
                        assert(tail@.subrange(k as int, tail@.len() as int) =~= source@.subrange(cur + k, n as int));
                    }
                    branch.attach(node);
                    cur = cur + k;
                    i = i + 1;
                }
                proof {
                    assert(a.parsers@.subrange(i as int, a.parsers@.len() as int) =~= Seq::<Rule>::empty());
                }
                if cur == 0 {
                    return Err(failure(&a.tag, String::from_str("Zero length match")));
                }
                Ok(Node::Branch(branch))
            },
            Rule::Repeat(rp) => {
                let n = source.len();
                let mut branch = Branch::empty(Rc::new(rp.tag.clone()), source);
                let mut cur: usize = 0;
                let mut reps: usize = 0;
                let mut going = true;
                proof {
                    assert(decreases_to!(*self => *rp.parser));
                }
                while going && reps < rp.maximum && cur < n
                    invariant
                        *self == Rule::Repeat(*rp),
                        decreases_to!(*self => *rp.parser),
                        n == source@.len(),
                        cur <= n,
                        reps <= rp.maximum,
                        branch.wf(),
                        branch.spec_root() == source@,
                        branch.spec_len() == cur,
                        branch.spec_slice() == source@.subrange(0, cur as int),
                        going ==> repeat_run(*rp.parser, source@, 0, 0, rp.maximum as nat)
                            == repeat_run(*rp.parser, source@, cur as nat, reps as nat, rp.maximum as nat),
                        !going ==> repeat_run(*rp.parser, source@, 0, 0, rp.maximum as nat) == (cur as nat, reps as nat),
                    decreases n - cur + if going { 1int } else { 0int },
                {
                    let tail = slice_subrange(source, cur, n);
                    match rp.parser.parse(tail) {
                        Ok(node) => {
                            let k = node.len();
                            if k == 0 {
                                going = false;
                            } else {
                                branch.attach(node);
                                cur = cur + k;
                                reps = reps + 1;
                            }
                        },
                        Err(_) => {
                            going = false;
                        },
                    }
                }
                proof {
                    if going {
                        assert(repeat_run(*rp.parser, source@, cur as nat, reps as nat, rp.maximum as nat) == (cur as nat, reps as nat));
                    }
                }
                if reps < rp.minimum {
                    let mut desc = String::from_str("Expected at least ");
                    push_digits(&mut desc, rp.minimum as u64, 10, 1);
                    desc.append(" matches, found ");
                    push_digits(&mut desc, reps as u64, 10, 1);
                    return Err(failure(&rp.tag, desc));
                }
                if reps >= rp.maximum {
                    let mut desc = String::from_str("Expected fewer than ");
                    push_digits(&mut desc, rp.maximum as u64, 10, 1);
                    desc.append(" matches, found ");
                    push_digits(&mut desc, reps as u64, 10, 1);
                    return Err(failure(&rp.tag, desc));
                }
                Ok(Node::Branch(branch))
            },
        }
    }
}

} // verus!

