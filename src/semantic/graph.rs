use vstd::prelude::*;

use crate::semantic::utils::{append_id, storage_name};
use crate::symbols::{first_index, lemma_first_index};
use crate::token::{Token, TokenType, TokenView};

verus! {

/// The mathematical content of a DAG node.
pub struct NodeView {
    pub op: TokenType,
    pub lexeme: Seq<char>,
    pub is_leaf: bool,
    pub left: u64,
    pub right: u64,
}

/// A DAG node. A numeric leaf has `left == right == 0`; a variable leaf
/// holds the variable's declaration index in `left` and its storage name as
/// text; an operator node holds the ids of its operands.
#[derive(Debug)]
pub struct Node {
    pub op: TokenType,
    pub lexeme: String,
    pub is_leaf: bool,
    pub left: u64,
    pub right: u64,
}

impl View for Node {
    type V = NodeView;

    open spec fn view(&self) -> NodeView {
        NodeView { op: self.op, lexeme: self.lexeme@, is_leaf: self.is_leaf, left: self.left, right: self.right }
    }
}

impl Clone for Node {
    fn clone(&self) -> (r: Node)
        ensures
            r == *self,
    {
        Node {
            op: self.op,
            lexeme: self.lexeme.clone(),
            is_leaf: self.is_leaf,
            left: self.left,
            right: self.right,
        }
    }
}

pub open spec fn num_node(t: TokenView) -> NodeView {
    NodeView { op: t.token_type, lexeme: t.lexeme, is_leaf: true, left: 0, right: 0 }
}

pub open spec fn var_node(t: TokenView, var: u64) -> NodeView {
    NodeView { op: t.token_type, lexeme: storage_name(t.lexeme), is_leaf: true, left: var, right: 0 }
}

pub open spec fn op_node(t: TokenView, left: u64, right: u64) -> NodeView {
    NodeView { op: t.token_type, lexeme: t.lexeme, is_leaf: false, left, right }
}

impl Node {
    pub fn from_num(token: &Token) -> (r: Node)
        ensures
            r@ == num_node(token@),
    {
        Node { op: token.token_type, lexeme: token.lexeme.clone(), is_leaf: true, left: 0, right: 0 }
    }

    pub fn from_var(token: &Token, hash: u64) -> (r: Node)
        ensures
            r@ == var_node(token@, hash),
    {
        Node {
            op: token.token_type,
            lexeme: append_id(token.lexeme.as_str()),
            is_leaf: true,
            left: hash,
            right: 0,
        }
    }

    pub fn from_op(token: &Token, left: u64, right: u64) -> (r: Node)
        ensures
            r@ == op_node(token@, left, right),
    {
        Node { op: token.token_type, lexeme: token.lexeme.clone(), is_leaf: false, left, right }
    }

    /// Whether two nodes have the same content.
    pub fn same_as(&self, other: &Node) -> (r: bool)
        ensures
            r == (self@ == other@),
    {
        self.op == other.op && self.is_leaf == other.is_leaf && self.left == other.left && self.right
            == other.right && self.lexeme == other.lexeme
    }
}

/// A node with the position at which it was first inserted.
#[derive(Debug)]
pub struct NodeWithIndex {
    pub node: Node,
    pub index: usize,
}

impl NodeWithIndex {
    pub fn new(node: Node, index: usize) -> (r: NodeWithIndex)
        ensures
            r.node == node,
            r.index == index,
    {
        NodeWithIndex { index, node }
    }
}

/// Inserting `n` into the node sequence `g`: an equal node already there
/// is reused, otherwise `n` goes at the end. The result is the new sequence
/// and the id (position) of the node.
pub open spec fn add_node(g: Seq<NodeView>, n: NodeView) -> (Seq<NodeView>, nat) {
    match first_index(g, n) {
        Some(i) => (g, i),
        None => (g.push(n), g.len()),
    }
}

/// Hash-consing: inserting into a DAG without duplicates keeps it without
/// duplicates; the returned id holds the inserted content; and content that
/// is already there is not added again, so equal subexpressions share one
/// node.
pub proof fn lemma_add_node_shares(g: Seq<NodeView>, n: NodeView)
    requires
        distinct(g),
    ensures
        distinct(add_node(g, n).0),
        add_node(g, n).1 < add_node(g, n).0.len(),
        add_node(g, n).0[add_node(g, n).1 as int] == n,
        (exists|i: int| 0 <= i < g.len() && g[i] == n) ==> add_node(g, n).0 == g,
        add_node(g, n).0.len() <= g.len() + 1,
{
    lemma_first_index(g, n);
}

/// The DAG of one expression: its nodes in order of first insertion; a
/// node's id is its position.
#[derive(Debug)]
pub struct Graph {
    pub table: Vec<NodeWithIndex>,
}

impl View for Graph {
    type V = Seq<NodeView>;

    open spec fn view(&self) -> Seq<NodeView> {
        self.table@.map_values(|n: NodeWithIndex| n.node@)
    }
}

/// No two nodes of `g` are equal.
pub open spec fn distinct(g: Seq<NodeView>) -> bool {
    forall|i: int, j: int| 0 <= i < j < g.len() ==> g[i] != g[j]
}

impl Graph {
    /// Every node records its own position, and no node occurs twice.
    pub open spec fn wf(&self) -> bool {
        &&& forall|i: int| 0 <= i < self.table@.len() ==> self.table@[i].index == i
        &&& distinct(self@)
    }

    pub fn new() -> (r: Graph)
        ensures
            r.wf(),
            r@ == Seq::<NodeView>::empty(),
    {
        let r = Graph { table: Vec::new() };
        assert(r@ =~= Seq::<NodeView>::empty());
        r
    }

    /// Inserts `node` unless an equal node is there already; returns the id
    /// of the node that holds its content.
    pub fn add(&mut self, node: Node) -> (r: u64)
        requires
            old(self).wf(),
        ensures
            final(self).wf(),
            (final(self)@, r as nat) == add_node(old(self)@, node@),
    {
        let mut i: usize = 0;
        while i < self.table.len()
            invariant
                self.wf(),
                i <= self.table@.len(),
                forall|j: int| 0 <= j < i ==> self@[j] != node@,
            decreases self.table@.len() - i,
        {
            assert(self@[i as int] == self.table@[i as int].node@);
            if self.table[i].node.same_as(&node) {
                proof {
                    lemma_first_index(self@, node@);
                }
                return i as u64;
            }
            i += 1;
        }
        proof {
            lemma_first_index(self@, node@);
        }
        let ghost before = self@;
        let n = self.table.len();
        self.table.push(NodeWithIndex::new(node, n));
        assert(self@ =~= before.push(node@));
        n as u64
    }

    /// The node with id `hash`, if there is one.
    pub fn get(&self, hash: &u64) -> (r: Option<&NodeWithIndex>)
        ensures
            (*hash as int) < self.table@.len() ==> r is Some && *r->0 == self.table@[*hash as int],
            (*hash as int) >= self.table@.len() ==> r is None,
    {
        if (*hash as usize) < self.table.len() && *hash <= (usize::MAX as u64) {
            Some(&self.table[*hash as usize])
        } else {
            None
        }
    }
}

} // verus!
