use vstd::prelude::*;

use crate::production::{Production, Tree};
use crate::semantic::error::{SemErr, SemanticError};
use crate::semantic::graph::{add_node, num_node, op_node, var_node, Graph, Node, NodeView};
use crate::semantic::utils::{item_leaf, item_node, kids, leaf_at, node_at};
use crate::symbols::{lookup, Key, SymbolsTable};

verus! {

/// The DAG of an expression being built: the nodes so far and the id of
/// the node just built.
pub type Built = Result<(Seq<NodeView>, nat), SemErr>;

/// `numeral`: a numeric leaf.
pub open spec fn e_numeros(t: Tree, g: Seq<NodeView>) -> Built {
    match leaf_at(t, 0) {
        Err(e) => Err(e),
        Ok(tok) => Ok(add_node(g, num_node(tok))),
    }
}

/// `operand`: a variable leaf, keyed by the variable's declaration index,
/// or a numeral. An undeclared variable is an error.
pub open spec fn e_operador(t: Tree, syms: Seq<Key>, g: Seq<NodeView>) -> Built {
    match leaf_at(t, 0) {
        Ok(tok) => match lookup(syms, tok) {
            Some(h) => Ok(add_node(g, var_node(tok, h))),
            None => Err(SemErr::Undefined(tok)),
        },
        Err(_) => match node_at(t, 0) {
            Err(e) => Err(e),
            Ok(n) => e_numeros(n, g),
        },
    }
}

/// `factor`: a parenthesised expression adds no node of its own.
pub open spec fn e_factor(t: Tree, syms: Seq<Key>, g: Seq<NodeView>) -> Built
    decreases t,
{
    if leaf_at(t, 0) is Ok {
        match node_at(t, 1) {
            Err(e) => Err(e),
            Ok(n) => e_expresion_arit(n, syms, g),
        }
    } else {
        match node_at(t, 0) {
            Err(e) => Err(e),
            Ok(n) => e_operador(n, syms, g),
        }
    }
}

/// `term'` with the operand built so far, `prev`: each operator combines
/// the operand on its left with the factor on its right before the rest
/// of the tail is read, so operators of equal precedence group to the left.
pub open spec fn e_rest_term(t: Tree, syms: Seq<Key>, g: Seq<NodeView>, prev: nat) -> Built
    decreases t,
{
    if kids(t).len() == 0 {
        Ok((g, prev))
    } else {
        match leaf_at(t, 0) {
            Err(e) => Err(e),
            Ok(op) => match node_at(t, 1) {
                Err(e) => Err(e),
                Ok(f) => match e_factor(f, syms, g) {
                    Err(e) => Err(e),
                    Ok((g1, fh)) => {
                        let (g2, c) = add_node(g1, op_node(op, prev as u64, fh as u64));
                        match node_at(t, 2) {
                            Err(e) => Err(e),
                            Ok(r) => e_rest_term(r, syms, g2, c),
                        }
                    },
                },
            },
        }
    }
}

/// `term := factor term'`
pub open spec fn e_termino(t: Tree, syms: Seq<Key>, g: Seq<NodeView>) -> Built
    decreases t,
{
    match node_at(t, 0) {
        Err(e) => Err(e),
        Ok(f) => match e_factor(f, syms, g) {
            Err(e) => Err(e),
            Ok((g1, fh)) => match node_at(t, 1) {
                Err(e) => Err(e),
                Ok(r) => e_rest_term(r, syms, g1, fh),
            },
        },
    }
}

/// `expr'` with the operand built so far, grouping to the left as
/// `e_rest_term` does.
pub open spec fn e_rest_expr(t: Tree, syms: Seq<Key>, g: Seq<NodeView>, prev: nat) -> Built
    decreases t,
{
    if kids(t).len() == 0 {
        Ok((g, prev))
    } else {
        match leaf_at(t, 0) {
            Err(e) => Err(e),
            Ok(op) => match node_at(t, 1) {
                Err(e) => Err(e),
                Ok(f) => match e_termino(f, syms, g) {
                    Err(e) => Err(e),
                    Ok((g1, fh)) => {
                        let (g2, c) = add_node(g1, op_node(op, prev as u64, fh as u64));
                        match node_at(t, 2) {
                            Err(e) => Err(e),
                            Ok(r) => e_rest_expr(r, syms, g2, c),
                        }
                    },
                },
            },
        }
    }
}

/// `expr := term expr'`
pub open spec fn e_expresion_arit(t: Tree, syms: Seq<Key>, g: Seq<NodeView>) -> Built
    decreases t,
{
    match node_at(t, 0) {
        Err(e) => Err(e),
        Ok(f) => match e_termino(f, syms, g) {
            Err(e) => Err(e),
            Ok((g1, fh)) => match node_at(t, 1) {
                Err(e) => Err(e),
                Ok(r) => e_rest_expr(r, syms, g1, fh),
            },
        },
    }
}

/// Builds the DAG of one expression against a symbol table.
pub struct ExpressionAnalyzer {
    pub symbols_table: SymbolsTable,
    pub graph: Graph,
}

pub type ExpressionResult = Result<Graph, SemanticError>;

pub type IntermediateResult = Result<u64, SemanticError>;

impl ExpressionAnalyzer {
    /// The keys of the declared variables.
    pub open spec fn syms(&self) -> Seq<Key> {
        self.symbols_table.keys()
    }

    pub open spec fn wf(&self) -> bool {
        self.symbols_table.wf() && self.graph.wf()
    }

    /// `after` is this analyzer after building `expected`, which `r`
    /// reports.
    pub open spec fn builds(&self, after: &Self, r: IntermediateResult, expected: Built) -> bool {
        &&& after.wf()
        &&& after.syms() == self.syms()
        &&& after.graph@.len() >= self.graph@.len()
        &&& (r is Ok ==> (r->Ok_0 as int) < after.graph@.len())
        &&& match expected {
            Ok((g, h)) => r is Ok && r->Ok_0 as nat == h && after.graph@ == g,
            Err(e) => r is Err && r->Err_0@ == e,
        }
    }

    pub fn from(table: &SymbolsTable) -> (r: ExpressionAnalyzer)
        requires
            table.wf(),
        ensures
            r.wf(),
            r.syms() == table.keys(),
            r.graph@ == Seq::<NodeView>::empty(),
    {
        ExpressionAnalyzer { symbols_table: table.clone(), graph: Graph::new() }
    }

    fn add(&mut self, node: Node) -> (r: u64)
        requires
            old(self).wf(),
        ensures
            final(self).wf(),
            final(self).syms() == old(self).syms(),
            (final(self).graph@, r as nat) == add_node(old(self).graph@, node@),
            (r as int) < final(self).graph@.len(),
            final(self).graph@.len() >= old(self).graph@.len(),
    {
        proof {
            crate::symbols::lemma_first_index(old(self).graph@, node@);
        }
        self.graph.add(node)
    }

    pub fn numeros(&mut self, prod: &Production) -> (r: IntermediateResult)
        requires
            old(self).wf(),
        ensures
            old(self).builds(final(self), r, e_numeros(prod@, old(self).graph@)),
            r is Err ==> final(self).graph@ == old(self).graph@,
    {
        let token = match item_leaf(prod, 0) {
            Ok(t) => t,
            Err(e) => return Err(e),
        };
        Ok(self.add(Node::from_num(token)))
    }

    pub fn operador(&mut self, prod: &Production) -> (r: IntermediateResult)
        requires
            old(self).wf(),
        ensures
            old(self).builds(final(self), r, e_operador(prod@, old(self).syms(), old(self).graph@)),
            r is Err ==> final(self).graph@ == old(self).graph@,
    {
        if let Ok(token) = item_leaf(prod, 0) {
            return match self.symbols_table.get_hash_if_set(token) {
                Some(hash) => Ok(self.add(Node::from_var(token, hash))),
                None => Err(SemanticError::from_undefined(token.clone())),
            };
        }
        let num = match item_node(prod, 0) {
            Ok(p) => p,
            Err(e) => return Err(e),
        };
        self.numeros(num)
    }

    pub fn factor(&mut self, prod: &Production) -> (r: IntermediateResult)
        requires
            old(self).wf(),
        ensures
            old(self).builds(final(self), r, e_factor(prod@, old(self).syms(), old(self).graph@)),
        decreases prod,
    {
        if let Ok(_) = item_leaf(prod, 0) {
            let inner = match item_node(prod, 1) {
                Ok(p) => p,
                Err(e) => return Err(e),
            };
            return self.expresion_arit(inner);
        }
        let operand = match item_node(prod, 0) {
            Ok(p) => p,
            Err(e) => return Err(e),
        };
        self.operador(operand)
    }

    pub fn rest_term(&mut self, prod: &Production, previous: u64) -> (r: IntermediateResult)
        requires
            old(self).wf(),
            (previous as int) < old(self).graph@.len(),
        ensures
            old(self).builds(
                final(self),
                r,
                e_rest_term(prod@, old(self).syms(), old(self).graph@, previous as nat),
            ),
        decreases prod,
    {
        proof {
            crate::semantic::utils::lemma_kids(prod);
        }
        if prod.items.len() == 0 {
            return Ok(previous);
        }
        let op = match item_leaf(prod, 0) {
            Ok(t) => t,
            Err(e) => return Err(e),
        };
        let factor_prod = match item_node(prod, 1) {
            Ok(p) => p,
            Err(e) => return Err(e),
        };
        let factor = match self.factor(factor_prod) {
            Ok(h) => h,
            Err(e) => return Err(e),
        };
        let combined = self.add(Node::from_op(op, previous, factor));
        let rest = match item_node(prod, 2) {
            Ok(p) => p,
            Err(e) => return Err(e),
        };
        self.rest_term(rest, combined)
    }

    pub fn termino(&mut self, prod: &Production) -> (r: IntermediateResult)
        requires
            old(self).wf(),
        ensures
            old(self).builds(final(self), r, e_termino(prod@, old(self).syms(), old(self).graph@)),
        decreases prod,
    {
        let factor_prod = match item_node(prod, 0) {
            Ok(p) => p,
            Err(e) => return Err(e),
        };
        let factor = match self.factor(factor_prod) {
            Ok(h) => h,
            Err(e) => return Err(e),
        };
        let rest = match item_node(prod, 1) {
            Ok(p) => p,
            Err(e) => return Err(e),
        };
        self.rest_term(rest, factor)
    }

    pub fn rest_expr(&mut self, prod: &Production, previous: u64) -> (r: IntermediateResult)
        requires
            old(self).wf(),
            (previous as int) < old(self).graph@.len(),
        ensures
            old(self).builds(
                final(self),
                r,
                e_rest_expr(prod@, old(self).syms(), old(self).graph@, previous as nat),
            ),
        decreases prod,
    {
        proof {
            crate::semantic::utils::lemma_kids(prod);
        }
        if prod.items.len() == 0 {
            return Ok(previous);
        }
        let op = match item_leaf(prod, 0) {
            Ok(t) => t,
            Err(e) => return Err(e),
        };
        let term_prod = match item_node(prod, 1) {
            Ok(p) => p,
            Err(e) => return Err(e),
        };
        let term = match self.termino(term_prod) {
            Ok(h) => h,
            Err(e) => return Err(e),
        };
        let combined = self.add(Node::from_op(op, previous, term));
        let rest = match item_node(prod, 2) {
            Ok(p) => p,
            Err(e) => return Err(e),
        };
        self.rest_expr(rest, combined)
    }

    pub fn expresion_arit(&mut self, prod: &Production) -> (r: IntermediateResult)
        requires
            old(self).wf(),
        ensures
            old(self).builds(final(self), r, e_expresion_arit(prod@, old(self).syms(), old(self).graph@)),
        decreases prod,
    {
        let term_prod = match item_node(prod, 0) {
            Ok(p) => p,
            Err(e) => return Err(e),
        };
        let term = match self.termino(term_prod) {
            Ok(h) => h,
            Err(e) => return Err(e),
        };
        let rest = match item_node(prod, 1) {
            Ok(p) => p,
            Err(e) => return Err(e),
        };
        self.rest_expr(rest, term)
    }
}

} // verus!
