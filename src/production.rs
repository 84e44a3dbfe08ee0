use vstd::prelude::*;

use crate::token::{Token, TokenView};

verus! {

broadcast use vstd::std_specs::vec::group_vec_axioms;

/// The grammar's nonterminals; each node of a parse tree is tagged with one.
#[derive(Debug, Clone, Copy, PartialEq, Eq, Structural)]
pub enum ProductionType {
    Programa,
    Declaraciones,
    SigDeclaraciones,
    Declaracion,
    ListaVariables,
    SigListaVariables,
    Ordenes,
    SigOrdenes,
    Orden,
    Condicion,
    SigCondicion,
    Comparacion,
    Operador,
    Numeros,
    BucleWhile,
    Asignar,
    ExpresionArit,
    RestExp,
    Term,
    RestTerm,
    Factor,
}

/// The mathematical form of a parse tree.
pub enum Tree {
    Leaf(TokenView),
    Node(ProductionType, Seq<Tree>),
}

/// A child of a parse-tree node: a token or a nested node.
#[derive(Debug)]
pub enum ProductionItem {
    Leaf(Token),
    Production(Production),
}

/// A parse-tree node: its nonterminal and its children in grammar order.
#[derive(Debug)]
pub struct Production {
    pub production_type: ProductionType,
    pub items: Vec<ProductionItem>,
}

pub open spec fn item_tree(it: &ProductionItem) -> Tree
    decreases it, 0int,
{
    match it {
        ProductionItem::Leaf(t) => Tree::Leaf(t@),
        ProductionItem::Production(p) => production_tree(p),
    }
}

pub open spec fn production_tree(p: &Production) -> Tree
    decreases p, 1int,
{
    Tree::Node(p.production_type, items_trees(p, p.items@.len() as int))
}

/// The trees of the first `n` children of `p`.
pub open spec fn items_trees(p: &Production, n: int) -> Seq<Tree>
    decreases p, 0int, n,
{
    if n <= 0 || n > p.items@.len() {
        Seq::empty()
    } else {
        items_trees(p, n - 1).push(item_tree(&p.items@[n - 1]))
    }
}

/// The trees of a prefix of children depend on those children alone.
pub proof fn lemma_items_trees_prefix(p: &Production, q: &Production, n: int)
    requires
        0 <= n <= p.items@.len(),
        n <= q.items@.len(),
        p.items@.subrange(0, n) == q.items@.subrange(0, n),
    ensures
        items_trees(p, n) == items_trees(q, n),
    decreases n,
{
    if n > 0 {
        assert forall|i: int| 0 <= i < n implies p.items@[i] == q.items@[i] by {
            assert(p.items@[i] == p.items@.subrange(0, n)[i]);
            assert(q.items@[i] == q.items@.subrange(0, n)[i]);
        }
        assert(p.items@.subrange(0, n - 1) =~= q.items@.subrange(0, n - 1));
        lemma_items_trees_prefix(p, q, n - 1);
    }
}

impl View for Production {
    type V = Tree;

    open spec fn view(&self) -> Tree {
        production_tree(self)
    }
}

impl Production {
    /// The trees of the children, in order.
    pub open spec fn children(&self) -> Seq<Tree> {
        items_trees(self, self.items@.len() as int)
    }

    pub fn new(production_type: ProductionType) -> (r: Production)
        ensures
            r@ == Tree::Node(production_type, Seq::empty()),
            r.production_type == production_type,
            r.items@.len() == 0,
    {
        Production { production_type, items: Vec::new() }
    }

    pub fn push_item(&mut self, item: ProductionItem)
        ensures
            final(self).production_type == old(self).production_type,
            final(self).items@ == old(self).items@.push(item),
            final(self).children() == old(self).children().push(item_tree(&item)),
            final(self)@ == Tree::Node(old(self).production_type, old(self).children().push(item_tree(&item))),
    {
        let ghost before = *self;
        self.items.push(item);
        proof {
            let n = before.items@.len() as int;
            assert(self.items@.subrange(0, n) =~= before.items@.subrange(0, n));
            lemma_items_trees_prefix(self, &before, n);
            assert(self.items@[n] == item);
        }
    }

    pub fn push_node(&mut self, production: Production)
        ensures
            final(self).production_type == old(self).production_type,
            final(self).children() == old(self).children().push(production@),
            final(self)@ == Tree::Node(old(self).production_type, old(self).children().push(production@)),
    {
        self.push_item(ProductionItem::Production(production));
    }

    pub fn push_leaf(&mut self, leaf: Token)
        ensures
            final(self).production_type == old(self).production_type,
            final(self).children() == old(self).children().push(Tree::Leaf(leaf@)),
            final(self)@ == Tree::Node(old(self).production_type, old(self).children().push(Tree::Leaf(leaf@))),
    {
        self.push_item(ProductionItem::Leaf(leaf));
    }
}


/// The name of a nonterminal, as the tree dump shows it.
pub open spec fn production_type_text(t: ProductionType) -> Seq<char> {
    match t {
        ProductionType::Programa => "programa"@,
        ProductionType::Declaraciones => "declaraciones"@,
        ProductionType::SigDeclaraciones => "sig_declaraciones"@,
        ProductionType::Declaracion => "declaración"@,
        ProductionType::ListaVariables => "lista_variables"@,
        ProductionType::SigListaVariables => "sig_lista_variables"@,
        ProductionType::Ordenes => "ordenes"@,
        ProductionType::SigOrdenes => "sig_ordenes"@,
        ProductionType::Orden => "orden"@,
        ProductionType::Condicion => "condicion"@,
        ProductionType::SigCondicion => "sig_condicion"@,
        ProductionType::Comparacion => "comparación"@,
        ProductionType::Operador => "operador"@,
        ProductionType::Numeros => "numeros"@,
        ProductionType::BucleWhile => "bucle_while"@,
        ProductionType::Asignar => "asignar"@,
        ProductionType::ExpresionArit => "expresion_arit"@,
        ProductionType::RestExp => "rest_expr"@,
        ProductionType::Term => "termino"@,
        ProductionType::RestTerm => "rest_term"@,
        ProductionType::Factor => "factor"@,
    }
}

pub fn production_type_to_str(production_type: &ProductionType) -> (r: String)
    ensures
        r@ == production_type_text(*production_type),
{
    let s = match production_type {
        ProductionType::Programa => "programa",
        ProductionType::Declaraciones => "declaraciones",
        ProductionType::SigDeclaraciones => "sig_declaraciones",
        ProductionType::Declaracion => "declaración",
        ProductionType::ListaVariables => "lista_variables",
        ProductionType::SigListaVariables => "sig_lista_variables",
        ProductionType::Ordenes => "ordenes",
        ProductionType::SigOrdenes => "sig_ordenes",
        ProductionType::Orden => "orden",
        ProductionType::Condicion => "condicion",
        ProductionType::SigCondicion => "sig_condicion",
        ProductionType::Comparacion => "comparación",
        ProductionType::Operador => "operador",
        ProductionType::Numeros => "numeros",
        ProductionType::BucleWhile => "bucle_while",
        ProductionType::Asignar => "asignar",
        ProductionType::ExpresionArit => "expresion_arit",
        ProductionType::RestExp => "rest_expr",
        ProductionType::Term => "termino",
        ProductionType::RestTerm => "rest_term",
        ProductionType::Factor => "factor",
    };
    String::from_str(s)
}

/// The dump of a tree, each line starting with `prepend`: the node's name,
/// then one line per token child and the dump of each node child, one
/// level deeper.
pub open spec fn dump(t: Tree, prepend: Seq<char>) -> Seq<char>
    decreases t, 1int,
{
    match t {
        Tree::Leaf(tok) => prepend + "│├ "@ + tok.lexeme,
        Tree::Node(ty, ks) => prepend + "├ "@ + production_type_text(ty) + if ks.len() > 0 {
            "\n"@
        } else {
            Seq::empty()
        } + dump_children(t, prepend, ks.len() as int),
    }
}

/// The dumps of the first `n` children of `t`, one per line.
pub open spec fn dump_children(t: Tree, prepend: Seq<char>, n: int) -> Seq<char>
    decreases t, 0int, n,
{
    match t {
        Tree::Leaf(_) => Seq::empty(),
        Tree::Node(_, ks) => if n <= 0 || n > ks.len() {
            Seq::empty()
        } else {
            let child = match ks[n - 1] {
                Tree::Leaf(tok) => prepend + "│├ "@ + tok.lexeme,
                Tree::Node(_, _) => dump(ks[n - 1], prepend + "│"@),
            };
            if n == 1 {
                child
            } else {
                dump_children(t, prepend, n - 1) + "\n"@ + child
            }
        },
    }
}

/// A copy of a child, with the same tree.
pub fn copy_item(it: &ProductionItem) -> (r: ProductionItem)
    ensures
        item_tree(&r) == item_tree(it),
    decreases it, 0int,
{
    match it {
        ProductionItem::Leaf(t) => ProductionItem::Leaf(t.clone()),
        ProductionItem::Production(p) => ProductionItem::Production(copy_production(p)),
    }
}

/// A deep copy of a node, with the same tree.
pub fn copy_production(p: &Production) -> (r: Production)
    ensures
        r@ == p@,
        r.production_type == p.production_type,
    decreases p, 1int,
{
    let mut r = Production::new(p.production_type);
    let mut i: usize = 0;
    while i < p.items.len()
        invariant
            i <= p.items@.len(),
            r.production_type == p.production_type,
            r.children() == items_trees(p, i as int),
        decreases p.items@.len() - i,
    {
        let it = copy_item(&p.items[i]);
        r.push_item(it);
        i += 1;
    }
    r
}

impl Production {
    /// The tree dump of this node (see `dump`).
    pub fn to_string(&self, prepend: &str) -> (r: String)
        ensures
            r@ == dump(self@, prepend@),
        decreases self,
    {
        proof {
            crate::semantic::utils::lemma_kids(self);
        }
        let mut out = String::from_str(prepend);
        out.append("├ ");
        out.append(production_type_to_str(&self.production_type).as_str());
        if self.items.len() > 0 {
            out.append("\n");
        }
        let ghost head = out@;
        let ghost t = self@;
        let mut i: usize = 0;
        while i < self.items.len()
            invariant
                i <= self.items@.len(),
                t == self@,
                crate::semantic::utils::kids(t).len() == self.items@.len(),
                forall|j: int|
                    0 <= j < self.items@.len() ==> #[trigger] crate::semantic::utils::kids(t)[j] == item_tree(
                        &self.items@[j],
                    ),
                out@ == head + dump_children(t, prepend@, i as int),
            decreases self.items@.len() - i,
        {
            let ghost before = out@;
            if i > 0 {
                out.append("\n");
            }
            match &self.items[i] {
                ProductionItem::Production(p) => {
                    proof {
                        crate::semantic::utils::lemma_child_decreases(self, i as int, p);
                    }
                    let mut deeper = String::from_str(prepend);
                    deeper.append("│");
                    out.append(p.to_string(deeper.as_str()).as_str());
                },
                ProductionItem::Leaf(tok) => {
                    out.append(prepend);
                    out.append("│├ ");
                    out.append(tok.lexeme.as_str());
                },
            }
            proof {
                let child = match crate::semantic::utils::kids(t)[i as int] {
                    Tree::Leaf(tok) => prepend@ + "│├ "@ + tok.lexeme,
                    Tree::Node(_, _) => dump(crate::semantic::utils::kids(t)[i as int], prepend@ + "│"@),
                };
                if i == 0 {
                    assert(dump_children(t, prepend@, 0) =~= Seq::<char>::empty());
                    assert(out@ =~= head + child);
                } else {
                    assert(out@ =~= before + "\n"@ + child);
                }
            }
            i += 1;
        }
        proof {
            if self.items@.len() == 0 {
                assert(head + dump_children(t, prepend@, 0) =~= prepend@ + "├ "@ + production_type_text(self.production_type) + Seq::<char>::empty() + Seq::<char>::empty());
            }
        }
        out
    }
}

impl Clone for Production {
    fn clone(&self) -> (r: Production)
        ensures
            r@ == self@,
    {
        copy_production(self)
    }
}

} // verus!
