use vstd::prelude::*;

use crate::production::{item_tree, items_trees, Production, ProductionItem, Tree};
use crate::semantic::error::{SemErr, SemanticError};
use crate::token::Token;

verus! {

/// The children of a tree (none for a leaf).
pub open spec fn kids(t: Tree) -> Seq<Tree> {
    match t {
        Tree::Node(_, k) => k,
        Tree::Leaf(_) => Seq::empty(),
    }
}

/// Child `i` of `t`, which must be a node.
pub open spec fn node_at(t: Tree, i: int) -> Result<Tree, SemErr> {
    if 0 <= i < kids(t).len() {
        match kids(t)[i] {
            Tree::Node(_, _) => Ok(kids(t)[i]),
            Tree::Leaf(tok) => Err(SemErr::Unexpected(tok)),
        }
    } else {
        Err(SemErr::BadFormat(t))
    }
}

/// Child `i` of `t`, which must be a token.
pub open spec fn leaf_at(t: Tree, i: int) -> Result<crate::token::TokenView, SemErr> {
    if 0 <= i < kids(t).len() {
        match kids(t)[i] {
            Tree::Leaf(tok) => Ok(tok),
            Tree::Node(_, _) => Err(SemErr::BadFormat(kids(t)[i])),
        }
    } else {
        Err(SemErr::BadFormat(t))
    }
}

pub proof fn lemma_items_trees_index(p: &Production, n: int, i: int)
    requires
        0 <= i < n <= p.items@.len(),
    ensures
        items_trees(p, n).len() == n,
        items_trees(p, n)[i] == item_tree(&p.items@[i]),
    decreases n,
{
    if i < n - 1 {
        lemma_items_trees_index(p, n - 1, i);
    }
    lemma_items_trees_len(p, n - 1);
}

pub proof fn lemma_items_trees_len(p: &Production, n: int)
    requires
        0 <= n <= p.items@.len(),
    ensures
        items_trees(p, n).len() == n,
    decreases n,
{
    if n > 0 {
        lemma_items_trees_len(p, n - 1);
    }
}

/// The children of `p@` are the trees of its items.
pub proof fn lemma_kids(p: &Production)
    ensures
        kids(p@).len() == p.items@.len(),
        forall|i: int| 0 <= i < p.items@.len() ==> #[trigger] kids(p@)[i] == item_tree(&p.items@[i]),
{
    lemma_items_trees_len(p, p.items@.len() as int);
    assert forall|i: int| 0 <= i < p.items@.len() implies #[trigger] kids(p@)[i] == item_tree(&p.items@[i]) by {
        lemma_items_trees_index(p, p.items@.len() as int, i);
    }
}

/// A node inside `prod` is smaller than `prod`.
pub proof fn lemma_child_decreases(prod: &Production, i: int, c: &Production)
    requires
        0 <= i < prod.items@.len(),
        prod.items@[i] == ProductionItem::Production(*c),
    ensures
        decreases_to!(*prod => *c),
{
    broadcast use vstd::std_specs::vec::group_vec_axioms;

    assert(decreases_to!(*prod => prod.items));
    assert(decreases_to!(prod.items => prod.items@));
    assert(decreases_to!(prod.items@ => prod.items@[i]));
    assert(decreases_to!(prod.items@[i] => prod.items@[i]->Production_0));
}

pub fn production_as_node(item: &ProductionItem) -> (r: Result<&Production, SemanticError>)
    ensures
        match item {
            ProductionItem::Production(p) => r is Ok && r->Ok_0 == p,
            ProductionItem::Leaf(t) => r is Err && r->Err_0@ == SemErr::Unexpected(t@),
        },
{
    match item {
        ProductionItem::Production(prod) => Ok(prod),
        ProductionItem::Leaf(token) => Err(SemanticError::from_unexpected(token.clone())),
    }
}

pub fn production_as_leaf(item: &ProductionItem) -> (r: Result<&Token, SemanticError>)
    ensures
        match item {
            ProductionItem::Leaf(t) => r is Ok && r->Ok_0 == t,
            ProductionItem::Production(p) => r is Err && r->Err_0@ == SemErr::BadFormat(p@),
        },
{
    match item {
        ProductionItem::Production(prod) => Err(SemanticError::from_format(prod.clone())),
        ProductionItem::Leaf(token) => Ok(token),
    }
}

/// Child `i` of `prod`, which must be a node (see `node_at`).
pub fn item_node(prod: &Production, i: usize) -> (r: Result<&Production, SemanticError>)
    ensures
        match r {
            Ok(p) => node_at(prod@, i as int) == Ok::<Tree, SemErr>(p@) && i < prod.items@.len()
                && prod.items@[i as int] == ProductionItem::Production(*p) && decreases_to!(*prod => *p),
            Err(e) => node_at(prod@, i as int) == Err::<Tree, SemErr>(e@),
        },
{
    proof {
        lemma_kids(prod);
    }
    if i < prod.items.len() {
        let r = production_as_node(&prod.items[i]);
        proof {
            if r is Ok {
                lemma_child_decreases(prod, i as int, r->Ok_0);
            }
        }
        r
    } else {
        Err(SemanticError::from_format(prod.clone()))
    }
}

/// Child `i` of `prod`, which must be a token (see `leaf_at`).
pub fn item_leaf(prod: &Production, i: usize) -> (r: Result<&Token, SemanticError>)
    ensures
        match r {
            Ok(t) => leaf_at(prod@, i as int) == Ok::<crate::token::TokenView, SemErr>(t@),
            Err(e) => leaf_at(prod@, i as int) == Err::<crate::token::TokenView, SemErr>(e@),
        },
{
    proof {
        lemma_kids(prod);
    }
    if i < prod.items.len() {
        production_as_leaf(&prod.items[i])
    } else {
        Err(SemanticError::from_format(prod.clone()))
    }
}

/// The storage name of a variable: its name after an underscore.
pub open spec fn storage_name(id: Seq<char>) -> Seq<char> {
    seq!['_'] + id
}

pub fn append_id(id: &str) -> (r: String)
    ensures
        r@ == storage_name(id@),
{
    let mut s = String::from_str("_");
    proof {
        reveal_strlit("_");
        assert("_"@ =~= seq!['_']);
    }
    s.append(id);
    s
}

} // verus!
