//! A single-character parser that reports why it did not match.

use std::rc::Rc;
use vstd::prelude::*;
use vstd::slice::slice_subrange;
use vstd::string::*;
use crate::debug::push_char;
use crate::parser::Error;
use crate::tree::{Leaf, Node, NodeExt};

verus! {

/// A class of characters.
#[derive(Clone, Copy, Debug, PartialEq, Eq)]
pub enum CharSpec {
    /// Exactly this character.
    Singleton(char),
    /// Every character from the first to the second, both included.
    IRange(char, char),
    /// Every character from the first up to, not including, the second.
    XRange(char, char),
}

impl CharSpec {
    pub open spec fn holds(self, c: char) -> bool {
        match self {
            CharSpec::Singleton(a) => c == a,
            CharSpec::IRange(start, end) => start <= c <= end,
            CharSpec::XRange(start, end) => start <= c < end,
        }
    }

    /// Whether `c` is in the class.
    pub fn check(&self, c: char) -> (r: bool)
        ensures
            r == self.holds(c),
    {
        match self {
            CharSpec::Singleton(a) => c == *a,
            CharSpec::IRange(start, end) => c >= *start && c <= *end,
            CharSpec::XRange(start, end) => c >= *start && c < *end,
        }
    }
}

/// Matches one character of the given classes.
#[derive(Clone, Debug)]
pub struct Character {
    tag: String,
    spec: Vec<CharSpec>,
}

impl Character {
    pub closed spec fn spec_tag(&self) -> Seq<char> {
        self.tag@
    }

    pub closed spec fn classes(&self) -> Seq<CharSpec> {
        self.spec@
    }

    /// Some class holds `c`.
    pub open spec fn accepts(&self, c: char) -> bool {
        exists|i: int| 0 <= i < self.classes().len() && #[trigger] self.classes()[i].holds(c)
    }

    pub fn new(tag: &str, spec: Vec<CharSpec>) -> (r: Character)
        ensures
            r.spec_tag() == tag@,
            r.classes() == spec@,
    {
        Character { tag: String::from_str(tag), spec }
    }

    /// A leaf over the first character of `source` when a class holds it;
    /// otherwise an error at offset zero.
    pub fn parse<'t>(&self, source: &'t [char]) -> (r: Result<Node<'t, char>, Error>)
        ensures
            r is Ok <==> source@.len() > 0 && self.accepts(source@[0]),
            r matches Ok(n) ==> n is Leaf && n.spec_tag() == self.spec_tag() && n.spec_slice()
                == source@.subrange(0, 1),
            r matches Err(e) ==> e.offset == 0 && e.tag@ == self.spec_tag(),
            r matches Ok(n) ==> n.spec_len() == 1,
    {
        if source.len() == 0 {
            return Err(Error { tag: Rc::new(self.tag.clone()), desc: String::from_str("Empty string"), offset: 0 });
        }
        let c = source[0];
        let mut i: usize = 0;
        while i < self.spec.len()
            invariant
                i <= self.spec@.len(),
                source@.len() > 0,
                c == source@[0],
                forall|j: int| 0 <= j < i ==> !#[trigger] self.spec@[j].holds(c),
            decreases self.spec@.len() - i,
        {
            if self.spec[i].check(c) {
                proof {
                    assert(self.classes()[i as int].holds(c));
                }
                return Ok(Leaf::new(Rc::new(self.tag.clone()), slice_subrange(source, 0, 1)));
            }
            i = i + 1;
        }
        let mut desc = String::from_str("'");
        push_char(&mut desc, c);
        desc.append("' does not match character specification");
        Err(Error { tag: Rc::new(self.tag.clone()), desc, offset: 0 })
    }
}

} // verus!
