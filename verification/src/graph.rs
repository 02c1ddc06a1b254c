use vstd::prelude::*;
use std::collections::HashMap;

verus! {

broadcast use vstd::std_specs::hash::group_hash_axioms;

/// A node of a graph: its id and the ids of its parents and children, in the
/// order the edges were added.
#[derive(Debug)]
pub struct Node {
    pub id: usize,
    pub parents: Vec<usize>,
    pub children: Vec<usize>,
}

pub struct NodeView {
    pub id: usize,
    pub parents: Seq<usize>,
    pub children: Seq<usize>,
}

impl View for Node {
    type V = NodeView;

    open spec fn view(&self) -> NodeView {
        NodeView { id: self.id, parents: self.parents@, children: self.children@ }
    }
}

/// A directed graph keyed by node id.
#[derive(Debug)]
pub struct Graph {
    pub nodes: HashMap<usize, Node>,
}

impl View for Graph {
    type V = Map<usize, NodeView>;

    open spec fn view(&self) -> Map<usize, NodeView> {
        self.nodes@.map_values(|n: Node| n@)
    }
}

/// The graph `g` with the edge `from -> to`: `to` is appended to the children of
/// `from`, then `from` to the parents of `to`.
pub open spec fn with_edge(g: Map<usize, NodeView>, from: usize, to: usize) -> Map<usize, NodeView> {
    let g1 = g.insert(from, NodeView { children: g[from].children.push(to), ..g[from] });
    g1.insert(to, NodeView { parents: g1[to].parents.push(from), ..g1[to] })
}

impl Graph {
    /// A graph with no node.
    pub fn new() -> (g: Self)
        ensures
            g@ == Map::<usize, NodeView>::empty(),
    {
        let g = Graph { nodes: HashMap::new() };
        assert(g@ =~= Map::<usize, NodeView>::empty());
        g
    }

    /// Adds a node `id` with no edge; a node with that id is replaced.
    pub fn add_node(&mut self, id: usize)
        ensures
            final(self)@ == old(self)@.insert(id, NodeView { id, parents: Seq::empty(), children: Seq::empty() }),
    {
        let node = Node { id, parents: Vec::new(), children: Vec::new() };
        let ghost nv = node@;
        self.nodes.insert(id, node);
        assert(self@ =~= old(self)@.insert(id, nv));
    }

    /// Adds the edge `from -> to` between two nodes of the graph.
    pub fn add_edge(&mut self, from: usize, to: usize)
        requires
            old(self)@.contains_key(from),
            old(self)@.contains_key(to),
        ensures
            final(self)@ == with_edge(old(self)@, from, to),
    {
        let ghost g = self@;
        match self.nodes.remove(&from) {
            Some(mut from_node) => {
                from_node.children.push(to);
                self.nodes.insert(from, from_node);
            },
            None => {},
        }
        let ghost g1 = self@;
        assert(g1 =~= g.insert(from, NodeView { children: g[from].children.push(to), ..g[from] }));
        match self.nodes.remove(&to) {
            Some(mut to_node) => {
                to_node.parents.push(from);
                self.nodes.insert(to, to_node);
            },
            None => {},
        }
        assert(self@ =~= g1.insert(to, NodeView { parents: g1[to].parents.push(from), ..g1[to] }));
    }
}

} // verus!
