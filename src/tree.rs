//! Parse trees over a borrowed sequence: leaves tag a slice of it, branches
//! tag a run of consecutive child nodes starting at their root.

use std::rc::Rc;
use vstd::prelude::*;
use vstd::string::*;

verus! {

broadcast use vstd::std_specs::vec::group_vec_axioms;

/// What every node offers: its length, tag and slice.
pub trait NodeExt<'a, T> {
    spec fn spec_len(&self) -> nat;

    spec fn spec_tag(&self) -> Seq<char>;

    spec fn spec_slice(&self) -> Seq<T>;

    fn len(&self) -> (r: usize)
        ensures
            r == self.spec_len();

    fn tag(&self) -> (r: &str)
        ensures
            r@ == self.spec_tag();

    fn slice(&self) -> (r: &'a [T])
        ensures
            r@ == self.spec_slice();
}

/// A tagged slice.
#[derive(Debug, PartialEq)]
pub struct Leaf<'a, T> {
    slice: &'a [T],
    tag: Rc<String>,
}

/// A tagged run of child nodes laid end to end from the start of `root`.
#[derive(Debug, PartialEq)]
pub struct Branch<'a, T> {
    root: &'a [T],
    nodes: Vec<Node<'a, T>>,
    tag: Rc<String>,
    length: usize,
}

#[derive(Debug, PartialEq)]
pub enum Node<'a, T> {
    Branch(Branch<'a, T>),
    Leaf(Leaf<'a, T>),
}

impl<'a, T> NodeExt<'a, T> for Leaf<'a, T> {
    closed spec fn spec_len(&self) -> nat {
        self.slice@.len()
    }

    closed spec fn spec_tag(&self) -> Seq<char> {
        self.tag@
    }

    closed spec fn spec_slice(&self) -> Seq<T> {
        self.slice@
    }

    fn len(&self) -> (r: usize) {
        self.slice.len()
    }

    fn tag(&self) -> (r: &str) {
        self.tag.as_str()
    }

    fn slice(&self) -> (r: &'a [T]) {
        self.slice
    }
}

impl<'a, T> Leaf<'a, T> {
    /// A leaf node tagging `slice`.
    pub fn new(tag: Rc<String>, slice: &'a [T]) -> (r: Node<'a, T>)
        ensures
            r is Leaf,
            r.spec_tag() == tag@,
            r.spec_slice() == slice@,
            r.spec_len() == slice@.len(),
    {
        Node::Leaf(Leaf { slice, tag })
    }
}

impl<'a, T> Branch<'a, T> {
    /// The slice the branch's children lie in.
    pub closed spec fn spec_root(&self) -> Seq<T> {
        self.root@
    }

    /// The children, in order.
    pub closed spec fn spec_nodes(&self) -> Seq<Node<'a, T>> {
        self.nodes@
    }

    /// The length is the children's lengths together, and lies within the
    /// root.
    pub closed spec fn wf(&self) -> bool {
        &&& self.length == lens_of(self.nodes@)
        &&& self.length <= self.root@.len()
    }

    /// An empty branch over `root`.
    pub fn empty(tag: Rc<String>, root: &'a [T]) -> (r: Branch<'a, T>)
        ensures
            r.wf(),
            r.spec_root() == root@,
            r.spec_nodes().len() == 0,
            r.spec_tag() == tag@,
            r.spec_len() == 0,
            r.spec_slice() == root@.subrange(0, 0),
    {
        let b = Branch { nodes: Vec::new(), tag, root, length: 0 };
        proof {
            assert(b.nodes@ =~= Seq::<Node<'a, T>>::empty());
        }
        b
    }

    /// An empty branch node over `root`.
    pub fn new(tag: Rc<String>, root: &'a [T]) -> (r: Node<'a, T>)
        ensures
            r matches Node::Branch(b) && b.wf() && b.spec_root() == root@ && b.spec_nodes().len()
                == 0,
            r.spec_tag() == tag@,
            r.spec_len() == 0,
    {
        Node::Branch(Branch::empty(tag, root))
    }

    pub fn get_nodes(&self) -> (r: &Vec<Node<'a, T>>)
        ensures
            r@ == self.spec_nodes(),
    {
        &self.nodes
    }

    /// Appends `n` after the existing children; they must still fit in the
    /// root.
    pub fn attach(&mut self, n: Node<'a, T>)
        requires
            old(self).wf(),
            old(self).spec_len() + n.spec_len() <= old(self).spec_root().len(),
        ensures
            final(self).wf(),
            final(self).spec_nodes() == old(self).spec_nodes().push(n),
            final(self).spec_root() == old(self).spec_root(),
            final(self).spec_tag() == old(self).spec_tag(),
            final(self).spec_len() == old(self).spec_len() + n.spec_len(),
            final(self).spec_slice() == final(self).spec_root().subrange(0, final(self).spec_len() as int),
    {
        let add = n.len();
        let room = self.root.len();
        let ghost old_nodes = self.nodes@;
        self.nodes.push(n);
        self.length = self.length + add;
        proof {
            assert(self.nodes@.drop_last() =~= old_nodes);
        }
    }
}

/// The lengths of `ns` together.
pub open spec fn lens_of<'a, T>(ns: Seq<Node<'a, T>>) -> nat
    decreases ns.len(),
{
    if ns.len() == 0 {
        0
    } else {
        lens_of(ns.drop_last()) + ns.last().spec_len()
    }
}

impl<'a, T> NodeExt<'a, T> for Branch<'a, T> {
    closed spec fn spec_len(&self) -> nat {
        self.length as nat
    }

    closed spec fn spec_tag(&self) -> Seq<char> {
        self.tag@
    }

    /// The root up to the branch's length.
    closed spec fn spec_slice(&self) -> Seq<T> {
        if self.length <= self.root@.len() {
            self.root@.subrange(0, self.length as int)
        } else {
            self.root@
        }
    }

    fn len(&self) -> (r: usize) {
        self.length
    }

    fn tag(&self) -> (r: &str) {
        self.tag.as_str()
    }

    fn slice(&self) -> (r: &'a [T]) {
        if self.length <= self.root.len() {
            vstd::slice::slice_subrange(self.root, 0, self.length)
        } else {
            self.root
        }
    }
}

impl<'a, T> NodeExt<'a, T> for Node<'a, T> {
    open spec fn spec_len(&self) -> nat {
        match self {
            Node::Branch(b) => b.spec_len(),
            Node::Leaf(l) => l.spec_len(),
        }
    }

    open spec fn spec_tag(&self) -> Seq<char> {
        match self {
            Node::Branch(b) => b.spec_tag(),
            Node::Leaf(l) => l.spec_tag(),
        }
    }

    open spec fn spec_slice(&self) -> Seq<T> {
        match self {
            Node::Branch(b) => b.spec_slice(),
            Node::Leaf(l) => l.spec_slice(),
        }
    }

    fn len(&self) -> (r: usize) {
        match self {
            Node::Branch(b) => b.len(),
            Node::Leaf(l) => l.len(),
        }
    }

    fn tag(&self) -> (r: &str) {
        match self {
            Node::Branch(b) => b.tag(),
            Node::Leaf(l) => l.tag(),
        }
    }

    fn slice(&self) -> (r: &'a [T]) {
        match self {
            Node::Branch(b) => b.slice(),
            Node::Leaf(l) => l.slice(),
        }
    }
}

impl<'a, T> Node<'a, T> {
    /// Appends `n` to this branch node.
    pub fn attach(&mut self, n: Node<'a, T>)
        requires
            *old(self) matches Node::Branch(b) && b.wf() && b.spec_len() + n.spec_len()
                <= b.spec_root().len(),
        ensures
            *final(self) matches Node::Branch(b) && b.wf(),
            final(self).spec_len() == old(self).spec_len() + n.spec_len(),
            final(self).spec_tag() == old(self).spec_tag(),
    {
        match self {
            Node::Branch(b) => b.attach(n),
            Node::Leaf(_) => {},
        }
    }

    /// The first node in pre-order, this one included, whose tag is `tag`.
    pub fn get_node(&self, tag: &str) -> (r: Option<&Node<'a, T>>)
        ensures
            match r {
                Some(n) => find_node(*self, tag@) == Some(*n),
                None => find_node(*self, tag@) is None,
            },
        decreases self,
    {
        let t = String::from_str(tag);
        let own = String::from_str(self.tag());
        if own == t {
            return Some(self);
        }
        match self {
            Node::Leaf(_) => None,
            Node::Branch(b) => {
                let mut i: usize = 0;
                proof {
                    assert(b.nodes@.subrange(0, b.nodes@.len() as int) =~= b.nodes@);
                    assert(find_node(*self, tag@) == find_in(b.nodes@, tag@));
                }
                while i < b.nodes.len()
                    invariant
                        i <= b.nodes@.len(),
                        t@ == tag@,
                        *self == Node::Branch(*b),
                        find_node(*self, tag@) == find_in(b.nodes@, tag@),
                        find_in(b.nodes@, tag@) == find_in(b.nodes@.subrange(i as int, b.nodes@.len() as int), tag@),
                    decreases b.nodes@.len() - i,
                {
                    let ghost rest = b.nodes@.subrange(i as int, b.nodes@.len() as int);
                    proof {
                        assert(rest.subrange(1, rest.len() as int) =~= b.nodes@.subrange(i + 1, b.nodes@.len() as int));
                        assert(rest[0] == b.nodes@[i as int]);
                    }
                    proof {
                        assert(decreases_to!(*self => *b));
                        assert(decreases_to!(*b => b.nodes));
                        assert(decreases_to!(b.nodes => b.nodes[i as int]));
                        assert(decreases_to!(*self => b.nodes[i as int]));
                    }
                    let found = b.nodes[i].get_node(tag);
                    if found.is_some() {
                        proof {
                            assert(find_in(rest, tag@) == find_node(rest[0], tag@));
                        }
                        return found;
                    }
                    i = i + 1;
                }
                None
            },
        }
    }
}

/// The first node in pre-order under `n`, `n` included, tagged `tag`.
pub closed spec fn find_node<'a, T>(n: Node<'a, T>, tag: Seq<char>) -> Option<Node<'a, T>>
    decreases n,
{
    if n.spec_tag() == tag {
        Some(n)
    } else {
        match n {
            Node::Leaf(_) => None,
            Node::Branch(b) => find_in(b.nodes@, tag),
        }
    }
}

/// The first match of `find_node` among `ns`, in order.
pub closed spec fn find_in<'a, T>(ns: Seq<Node<'a, T>>, tag: Seq<char>) -> Option<Node<'a, T>>
    decreases ns,
{
    if ns.len() == 0 {
        None
    } else {
        match find_node(ns[0], tag) {
            Some(x) => Some(x),
            None => find_in(ns.subrange(1, ns.len() as int), tag),
        }
    }
}

/// `(tag, slice)` once for each entry of `tags` equal to `tag`.
pub open spec fn own_matches<T>(tags: Seq<Seq<char>>, tag: Seq<char>, slice: Seq<T>) -> Seq<(Seq<char>, Seq<T>)>
    decreases tags.len(),
{
    if tags.len() == 0 {
        Seq::empty()
    } else {
        own_matches(tags.drop_last(), tag, slice) + if tags.last() == tag {
            seq![(tag, slice)]
        } else {
            Seq::empty()
        }
    }
}

/// The tagged slices of `n` and the nodes under it, in pre-order, for the
/// tags among `tags`.
pub closed spec fn collect_of<'a, T>(n: Node<'a, T>, tags: Seq<Seq<char>>) -> Seq<(Seq<char>, Seq<T>)>
    decreases n,
{
    own_matches(tags, n.spec_tag(), n.spec_slice()) + match n {
        Node::Leaf(_) => Seq::empty(),
        Node::Branch(b) => collect_in(b.nodes@, tags),
    }
}

/// `collect_of` over `ns`, one after the other.
pub closed spec fn collect_in<'a, T>(ns: Seq<Node<'a, T>>, tags: Seq<Seq<char>>) -> Seq<(Seq<char>, Seq<T>)>
    decreases ns,
{
    if ns.len() == 0 {
        Seq::empty()
    } else {
        collect_of(ns[0], tags) + collect_in(ns.subrange(1, ns.len() as int), tags)
    }
}

/// The views of collected pairs.
pub open spec fn pairs_view<'a, T>(v: Seq<(Rc<String>, &'a [T])>) -> Seq<(Seq<char>, Seq<T>)> {
    v.map_values(|p: (Rc<String>, &'a [T])| (p.0@, p.1@))
}

impl<'a, T> Node<'a, T> {
    /// The `(tag, slice)` pairs of this node and the nodes under it, in
    /// pre-order, for the tags among `tags` (once per matching entry).
    pub fn collect(&self, tags: &[&str]) -> (r: Vec<(Rc<String>, &'a [T])>)
        ensures
            pairs_view(r@) == collect_of(*self, tags@.map_values(|s: &str| s@)),
        decreases self,
    {
        let ghost tv = tags@.map_values(|s: &str| s@);
        let own = String::from_str(self.tag());
        let mut out: Vec<(Rc<String>, &'a [T])> = Vec::new();
        let mut i: usize = 0;
        while i < tags.len()
            invariant
                i <= tags@.len(),
                tv == tags@.map_values(|s: &str| s@),
                own@ == self.spec_tag(),
                pairs_view(out@) == own_matches(tv.subrange(0, i as int), self.spec_tag(), self.spec_slice()),
            decreases tags@.len() - i,
        {
            let ghost before = pairs_view(out@);
            proof {
                assert(tv.subrange(0, i + 1).drop_last() =~= tv.subrange(0, i as int));
            }
            if String::from_str(tags[i]) == own {
                out.push((Rc::new(own.clone()), self.slice()));
                proof {
                    assert(pairs_view(out@) =~= before + seq![(self.spec_tag(), self.spec_slice())]);
                }
            } else {
                proof {
                    assert(pairs_view(out@) =~= before + Seq::<(Seq<char>, Seq<T>)>::empty());
                }
            }
            i = i + 1;
        }
        proof {
            assert(tv.subrange(0, i as int) =~= tv);
        }
        match self {
            Node::Leaf(_) => {
                proof {
                    assert(pairs_view(out@) =~= pairs_view(out@) + Seq::<(Seq<char>, Seq<T>)>::empty());
                }
                out
            },
            Node::Branch(b) => {
                let ghost head = pairs_view(out@);
                let mut j: usize = 0;
                proof {
                    assert(b.nodes@.subrange(0, b.nodes@.len() as int) =~= b.nodes@);
                    assert(head + collect_in(b.nodes@, tv) == collect_of(*self, tv));
                }
                while j < b.nodes.len()
                    invariant
                        j <= b.nodes@.len(),
                        *self == Node::Branch(*b),
                        tv == tags@.map_values(|s: &str| s@),
                        pairs_view(out@) + collect_in(b.nodes@.subrange(j as int, b.nodes@.len() as int), tv)
                            == collect_of(*self, tv),
                    decreases b.nodes@.len() - j,
                {
                    let ghost rest = b.nodes@.subrange(j as int, b.nodes@.len() as int);
                    let ghost before = pairs_view(out@);
                    proof {
                        assert(rest.subrange(1, rest.len() as int) =~= b.nodes@.subrange(j + 1, b.nodes@.len() as int));
                        assert(rest[0] == b.nodes@[j as int]);
                        assert(decreases_to!(*self => *b));
                        assert(decreases_to!(*b => b.nodes));
                        assert(decreases_to!(b.nodes => b.nodes[j as int]));
                    }
                    let mut sub = b.nodes[j].collect(tags);
                    let ghost subv = pairs_view(sub@);
                    out.append(&mut sub);
                    proof {
                        assert(pairs_view(out@) =~= before + subv);
                    }
                    j = j + 1;
                }
                proof {
                    assert(b.nodes@.subrange(j as int, b.nodes@.len() as int) =~= Seq::<Node<'a, T>>::empty());
                    assert(pairs_view(out@) + Seq::<(Seq<char>, Seq<T>)>::empty() =~= pairs_view(out@));
                }
                out
            },
        }
    }
}

} // verus!

