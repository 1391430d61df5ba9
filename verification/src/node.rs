//! Known peers: an insertion-ordered set of address strings.

use vstd::prelude::*;

use crate::codec::str_eq;

verus! {

/// One peer, named by its address text.
pub struct Node {
    addr: String,
}

impl View for Node {
    type V = Seq<char>;

    closed spec fn view(&self) -> Seq<char> {
        self.addr@
    }
}

impl DeepView for Node {
    type V = Seq<char>;

    open spec fn deep_view(&self) -> Seq<char> {
        self.view()
    }
}

impl Node {
    pub fn new(addr: String) -> (r: Node)
        ensures
            r@ == addr@,
    {
        Node { addr }
    }

    pub fn get_addr(&self) -> (r: String)
        ensures
            r@ == self@,
    {
        self.addr.clone()
    }
}

impl Clone for Node {
    fn clone(&self) -> (r: Self)
        ensures
            r@ == self@,
    {
        Node { addr: self.addr.clone() }
    }
}

/// The position of the first peer with the given address.
pub open spec fn spec_node_idx(addrs: Seq<Seq<char>>, a: Seq<char>) -> Option<int>
    decreases addrs.len(),
{
    if addrs.len() == 0 {
        None
    } else if addrs[0] == a {
        Some(0int)
    } else {
        match spec_node_idx(addrs.drop_first(), a) {
            Some(i) => Some(i + 1),
            None => None,
        }
    }
}

/// The known peers, each address held once, in insertion order.
pub struct Nodes {
    nodes: Vec<Node>,
}

impl Nodes {
    /// The held addresses, in insertion order.
    pub closed spec fn spec_addrs(&self) -> Seq<Seq<char>> {
        self.nodes.deep_view()
    }

    /// Whether the address is known.
    pub open spec fn spec_known(&self, a: Seq<char>) -> bool {
        spec_node_idx(self.spec_addrs(), a) is Some
    }

    pub fn new() -> (r: Nodes)
        ensures
            r.spec_addrs() == Seq::<Seq<char>>::empty(),
    {
        let r = Nodes { nodes: Vec::new() };
        proof {
            assert(r.spec_addrs() =~= Seq::<Seq<char>>::empty());
        }
        r
    }

    fn idx(&self, addr: &str) -> (r: Option<usize>)
        ensures
            match r {
                Some(i) => spec_node_idx(self.spec_addrs(), addr@) == Some(i as int) && i
                    < self.nodes@.len(),
                None => spec_node_idx(self.spec_addrs(), addr@) is None,
            },
    {
        let n = self.nodes.len();
        let mut i: usize = 0;
        while i < n
            invariant
                n == self.nodes@.len(),
                i <= n,
                forall|j: int| 0 <= j < i ==> (#[trigger] self.spec_addrs()[j]) != addr@,
            decreases n - i,
        {
            if str_eq(self.nodes[i].addr.as_str(), addr) {
                proof {
                    lemma_node_idx_at(self.spec_addrs(), addr@, i as int);
                }
                return Some(i);
            }
            i = i + 1;
        }
        proof {
            lemma_node_idx_none(self.spec_addrs(), addr@);
        }
        None
    }

    /// Adds the address at the end unless it is already known.
    pub fn add_node(&mut self, addr: String)
        ensures
            old(self).spec_known(addr@) ==> final(self).spec_addrs() == old(self).spec_addrs(),
            !old(self).spec_known(addr@) ==> final(self).spec_addrs() == old(self).spec_addrs().push(
                addr@,
            ),
            final(self).spec_known(addr@),
    {
        match self.idx(addr.as_str()) {
            Some(_) => {},
            None => {
                let ghost prev = self.spec_addrs();
                let ghost av = addr@;
                self.nodes.push(Node { addr });
                proof {
                    assert(self.spec_addrs() =~= prev.push(av));
                    lemma_node_idx_push_hit(prev, av);
                }
            },
        }
    }

    /// Drops the peer with the given address, if known.
    pub fn evict_node(&mut self, addr: &str)
        ensures
            match spec_node_idx(old(self).spec_addrs(), addr@) {
                Some(i) => final(self).spec_addrs() == old(self).spec_addrs().remove(i),
                None => final(self).spec_addrs() == old(self).spec_addrs(),
            },
    {
        match self.idx(addr) {
            Some(i) => {
                let _ = self.nodes.remove(i);
                proof {
                    assert(self.spec_addrs() =~= old(self).spec_addrs().remove(i as int));
                }
            },
            None => {},
        }
    }

    /// The first known peer, if any.
    pub fn first(&self) -> (r: Option<Node>)
        ensures
            match r {
                Some(n) => self.spec_addrs().len() > 0 && n@ == self.spec_addrs()[0],
                None => self.spec_addrs().len() == 0,
            },
    {
        if self.nodes.len() == 0 {
            return None;
        }
        Some(self.nodes[0].clone())
    }

    /// Every known peer, in insertion order.
    pub fn get_nodes(&self) -> (r: Vec<Node>)
        ensures
            r.deep_view() == self.spec_addrs(),
    {
        let mut out: Vec<Node> = Vec::new();
        let n = self.nodes.len();
        let mut i: usize = 0;
        while i < n
            invariant
                n == self.nodes@.len(),
                i <= n,
                out.deep_view() =~= self.spec_addrs().take(i as int),
            decreases n - i,
        {
            let ghost prev = out.deep_view();
            out.push(self.nodes[i].clone());
            proof {
                assert(out.deep_view() =~= prev.push(self.spec_addrs()[i as int]));
                assert(self.spec_addrs().take(i + 1) =~= self.spec_addrs().take(i as int).push(
                    self.spec_addrs()[i as int],
                ));
            }
            i = i + 1;
        }
        proof {
            assert(out.deep_view() =~= self.spec_addrs());
        }
        out
    }

    pub fn len(&self) -> (r: usize)
        ensures
            r == self.spec_addrs().len(),
    {
        self.nodes.len()
    }

    pub fn is_empty(&self) -> (r: bool)
        ensures
            r == (self.spec_addrs().len() == 0),
    {
        self.nodes.len() == 0
    }

    /// Whether a peer with the given address is known.
    pub fn node_is_known(&self, addr: &str) -> (r: bool)
        ensures
            r == self.spec_known(addr@),
    {
        match self.idx(addr) {
            Some(_) => true,
            None => false,
        }
    }
}

proof fn lemma_node_idx_at(addrs: Seq<Seq<char>>, a: Seq<char>, i: int)
    requires
        0 <= i < addrs.len(),
        addrs[i] == a,
        forall|j: int| 0 <= j < i ==> (#[trigger] addrs[j]) != a,
    ensures
        spec_node_idx(addrs, a) == Some(i),
    decreases i,
{
    if i > 0 {
        assert forall|j: int| 0 <= j < i - 1 implies (#[trigger] addrs.drop_first()[j]) != a by {
            assert(addrs.drop_first()[j] == addrs[j + 1]);
        }
        lemma_node_idx_at(addrs.drop_first(), a, i - 1);
        assert(addrs.drop_first()[i - 1] == addrs[i]);
    }
}

proof fn lemma_node_idx_none(addrs: Seq<Seq<char>>, a: Seq<char>)
    requires
        forall|j: int| 0 <= j < addrs.len() ==> (#[trigger] addrs[j]) != a,
    ensures
        spec_node_idx(addrs, a) is None,
    decreases addrs.len(),
{
    if addrs.len() > 0 {
        assert forall|j: int|
            0 <= j < addrs.drop_first().len() implies (#[trigger] addrs.drop_first()[j]) != a by {
            assert(addrs.drop_first()[j] == addrs[j + 1]);
        }
        lemma_node_idx_none(addrs.drop_first(), a);
    }
}

proof fn lemma_node_idx_push_hit(addrs: Seq<Seq<char>>, a: Seq<char>)
    ensures
        spec_node_idx(addrs.push(a), a) is Some,
    decreases addrs.len(),
{
    if addrs.len() == 0 {
        assert(addrs.push(a)[0] == a);
    } else {
        assert(addrs.push(a)[0] == addrs[0]);
        if addrs[0] != a {
            assert(addrs.push(a).drop_first() =~= addrs.drop_first().push(a));
            lemma_node_idx_push_hit(addrs.drop_first(), a);
        }
    }
}

} // verus!
