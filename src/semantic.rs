pub mod code;
pub mod error;
pub mod expresion;
pub mod graph;
pub mod utils;

use vstd::prelude::*;

use crate::grammar::p_analize;
use crate::lexic::{text_is, tokens_of};
use crate::production::{Production, ProductionItem, ProductionType, Tree};
use crate::semantic::code::{
    lemma_render_all_append, lemma_render_one, push_label, push_temp, render, render_all, Instr,
};
use crate::semantic::error::{SemErr, SemanticError};
use crate::semantic::expresion::{e_expresion_arit, ExpressionAnalyzer};
use crate::semantic::graph::NodeView;
use crate::semantic::utils::{
    append_id, item_leaf, item_node, kids, leaf_at, lemma_child_decreases, lemma_kids, node_at, storage_name,
};
use crate::sintactic::SintacticAnalyzer;
use crate::symbols::{first_index, key_of, Key, SymbolsTable, VariableType};
use crate::token::{TokenType, TokenView};

verus! {

/// The largest number a temporary or a label can have.
pub const MAX_NUMBER: u64 = 0xffff_ffff_ffff_ffff;

/// The counters of the code generator: the last temporary and the last
/// label handed out.
pub struct GenState {
    pub temp: nat,
    pub jump: nat,
}

/// Code generated for a part of the program and the counters after it.
pub type Generated = Result<(Seq<Instr>, GenState), SemErr>;

/// The declared variables: their keys and types, in declaration order.
pub struct Decls {
    pub keys: Seq<Key>,
    pub types: Seq<VariableType>,
}

/// Declaring `t` with type `ty`: a key declared before keeps its first
/// type; a new key goes at the end with `ty`.
pub open spec fn declare_var(d: Decls, t: TokenView, ty: VariableType) -> Decls {
    if first_index(d.keys, key_of(t)) is Some {
        d
    } else {
        Decls { keys: d.keys.push(key_of(t)), types: d.types.push(ty) }
    }
}

/// The type a type word declares: `entero` an integer, anything else a real.
pub open spec fn type_of_word(w: Seq<char>) -> VariableType {
    if w == "entero"@ {
        VariableType::Entero
    } else {
        VariableType::Real
    }
}

/// `idlist'`: declares the identifiers of the rest of the list.
pub open spec fn d_sig_lista_variables(t: Tree, ty: VariableType, d: Decls) -> Result<Decls, SemErr>
    decreases t,
{
    if kids(t).len() > 0 {
        match node_at(t, 1) {
            Err(e) => Err(e),
            Ok(l) => d_lista_variables(l, ty, d),
        }
    } else {
        Ok(d)
    }
}

/// `idlist`: declares its identifiers from left to right, all with `ty`.
pub open spec fn d_lista_variables(t: Tree, ty: VariableType, d: Decls) -> Result<Decls, SemErr>
    decreases t,
{
    match leaf_at(t, 0) {
        Err(e) => Err(e),
        Ok(id) => match node_at(t, 1) {
            Err(e) => Err(e),
            Ok(next) => d_sig_lista_variables(next, ty, declare_var(d, id, ty)),
        },
    }
}

/// `declaration := type idlist`
pub open spec fn d_declaracion(t: Tree, d: Decls) -> Result<Decls, SemErr> {
    match leaf_at(t, 0) {
        Err(e) => Err(e),
        Ok(tipo) => match node_at(t, 1) {
            Err(e) => Err(e),
            Ok(l) => d_lista_variables(l, type_of_word(tipo.lexeme), d),
        },
    }
}

/// `declarations` and `declarations'`: each declaration in turn.
pub open spec fn d_declaraciones(t: Tree, d: Decls) -> Result<Decls, SemErr>
    decreases t,
{
    if kids(t).len() == 3 {
        match node_at(t, 0) {
            Err(e) => Err(e),
            Ok(dn) => match node_at(t, 2) {
                Err(e) => Err(e),
                Ok(s) => match d_declaracion(dn, d) {
                    Err(e) => Err(e),
                    Ok(d1) => d_declaraciones(s, d1),
                },
            },
        }
    } else {
        Ok(d)
    }
}

/// A comparison operand: a variable's storage name or a numeral's text.
pub open spec fn s_operador(t: Tree) -> Result<Seq<char>, SemErr> {
    if kids(t).len() == 0 {
        Err(SemErr::BadFormat(t))
    } else {
        match kids(t)[0] {
            Tree::Leaf(op) => Ok(storage_name(op.lexeme)),
            Tree::Node(_, num) => if num.len() == 0 {
                Err(SemErr::BadFormat(kids(t)[0]))
            } else {
                match num[0] {
                    Tree::Leaf(n) => Ok(n.lexeme),
                    Tree::Node(_, _) => Ok(Seq::empty()),
                }
            },
        }
    }
}

/// `operand relOp operand` as text.
pub open spec fn s_comparacion(t: Tree) -> Result<Seq<char>, SemErr> {
    match node_at(t, 0) {
        Err(e) => Err(e),
        Ok(a) => match leaf_at(t, 1) {
            Err(e) => Err(e),
            Ok(op) => match node_at(t, 2) {
                Err(e) => Err(e),
                Ok(b) => match s_operador(a) {
                    Err(e) => Err(e),
                    Ok(ta) => match s_operador(b) {
                        Err(e) => Err(e),
                        Ok(tb) => Ok(ta + " "@ + op.lexeme + " "@ + tb),
                    },
                },
            },
        },
    }
}

/// The instruction of DAG node `k`, whose temporary is `base + k + 1`.
pub open spec fn node_instr(g: Seq<NodeView>, k: int, base: nat) -> Seq<Instr> {
    let n = g[k];
    if n.is_leaf {
        seq![Instr::Leaf((base + k + 1) as nat, n.lexeme)]
    } else if (n.left as int) < g.len() && (n.right as int) < g.len() {
        seq![Instr::Binary((base + k + 1) as nat, (base + n.left + 1) as nat, n.lexeme, (base + n.right + 1) as nat)]
    } else {
        Seq::empty()
    }
}

/// The instructions of the first `k` nodes of a DAG, in creation order.
pub open spec fn dag_code(g: Seq<NodeView>, k: int, base: nat) -> Seq<Instr>
    decreases k,
{
    if k <= 0 {
        Seq::empty()
    } else {
        dag_code(g, k - 1, base) + node_instr(g, k - 1, base)
    }
}

/// An expression: its DAG, one instruction per node with fresh
/// temporaries in creation order, and the temporary of its root. Numbering
/// past `MAX_NUMBER` is refused.
pub open spec fn s_exp(t: Tree, syms: Seq<Key>, temp: nat) -> Result<(Seq<Instr>, nat, nat), SemErr> {
    match e_expresion_arit(t, syms, Seq::empty()) {
        Err(e) => Err(e),
        Ok((g, root)) => if temp + g.len() > MAX_NUMBER {
            Err(SemErr::BadFormat(t))
        } else {
            Ok((dag_code(g, g.len() as int, temp), temp + g.len(), temp + root + 1))
        },
    }
}

/// `id := expr`: the expression's code, then a copy of its root into the
/// variable. The target is not looked up in the symbol table.
pub open spec fn s_asignar(t: Tree, syms: Seq<Key>, st: GenState) -> Generated {
    if kids(t).len() < 3 {
        Err(SemErr::BadFormat(t))
    } else {
        match (kids(t)[0], kids(t)[2]) {
            (Tree::Leaf(id), Tree::Node(_, _)) => match s_exp(kids(t)[2], syms, st.temp) {
                Err(e) => Err(e),
                Ok((code, temp, root)) => Ok(
                    (code.push(Instr::Copy(storage_name(id.lexeme), root)), GenState { temp, jump: st.jump }),
                ),
            },
            _ => Ok((Seq::empty(), st)),
        }
    }
}

/// A while loop: labels `start` and `end`, the test, the body, a jump back.
pub open spec fn s_bucle_while(t: Tree, syms: Seq<Key>, st: GenState) -> Generated
    decreases t, 0int,
{
    if kids(t).len() < 5 {
        Err(SemErr::BadFormat(t))
    } else {
        match (kids(t)[2], kids(t)[4]) {
            (Tree::Node(_, _), Tree::Node(_, _)) => if st.jump + 2 > MAX_NUMBER {
                Err(SemErr::BadFormat(t))
            } else {
                let start = st.jump + 1;
                let end = st.jump + 2;
                match s_comparacion(kids(t)[2]) {
                    Err(e) => Err(e),
                    Ok(c) => match s_ordenes(kids(t)[4], syms, GenState { temp: st.temp, jump: end }) {
                        Err(e) => Err(e),
                        Ok((body, st1)) => Ok(
                            (
                                seq![Instr::Label(start), Instr::IfFalse(c, end)] + body + seq![
                                    Instr::Jump(start),
                                    Instr::Label(end),
                                ],
                                st1,
                            ),
                        ),
                    },
                }
            },
            _ => Ok((Seq::empty(), st)),
        }
    }
}

/// The tail of an `if`, whose test jumps to `label` when false: a bare
/// `end` places the label; an `else` jumps over its branch to a new label.
/// A tail that starts with anything else is malformed.
pub open spec fn s_sig_condicion(label: nat, t: Tree, syms: Seq<Key>, st: GenState) -> Generated
    decreases t, 0int,
{
    if kids(t).len() == 0 {
        Err(SemErr::BadFormat(t))
    } else {
        match kids(t)[0] {
            Tree::Leaf(tok) => if tok.token_type == TokenType::End {
                Ok((seq![Instr::Label(label)], st))
            } else if tok.token_type == TokenType::Else {
                if st.jump + 1 > MAX_NUMBER {
                    Err(SemErr::BadFormat(t))
                } else if kids(t).len() < 2 {
                    Err(SemErr::BadFormat(t))
                } else {
                    let after = st.jump + 1;
                    let st0 = GenState { temp: st.temp, jump: after };
                    let branch = match kids(t)[1] {
                        Tree::Node(_, _) => s_ordenes(kids(t)[1], syms, st0),
                        Tree::Leaf(_) => Ok((Seq::empty(), st0)),
                    };
                    match branch {
                        Err(e) => Err(e),
                        Ok((code, st1)) => Ok(
                            (
                                seq![Instr::Jump(after), Instr::Label(label)] + code + seq![Instr::Label(after)],
                                st1,
                            ),
                        ),
                    }
                }
            } else {
                Err(SemErr::BadFormat(t))
            },
            Tree::Node(_, _) => Err(SemErr::BadFormat(t)),
        }
    }
}

/// `if`: a test that jumps to a new label when false, the branch, the tail.
pub open spec fn s_condicion(t: Tree, syms: Seq<Key>, st: GenState) -> Generated
    decreases t, 0int,
{
    match node_at(t, 2) {
        Err(e) => Err(e),
        Ok(c) => match node_at(t, 4) {
            Err(e) => Err(e),
            Ok(o) => match node_at(t, 5) {
                Err(e) => Err(e),
                Ok(s) => if st.jump + 1 > MAX_NUMBER {
                    Err(SemErr::BadFormat(t))
                } else {
                    let label = st.jump + 1;
                    match s_comparacion(c) {
                        Err(e) => Err(e),
                        Ok(ct) => match s_ordenes(o, syms, GenState { temp: st.temp, jump: label }) {
                            Err(e) => Err(e),
                            Ok((body, st1)) => match s_sig_condicion(label, s, syms, st1) {
                                Err(e) => Err(e),
                                Ok((tail, st2)) => Ok((seq![Instr::IfFalse(ct, label)] + body + tail, st2)),
                            },
                        },
                    }
                },
            },
        },
    }
}

/// `statement`: the code of its one child, by the child's kind, then a
/// line feed.
pub open spec fn s_orden(t: Tree, syms: Seq<Key>, st: GenState) -> Generated
    decreases t, 0int,
{
    match node_at(t, 0) {
        Err(e) => Err(e),
        Ok(o) => match s_orden_inner(o, syms, st) {
            Err(e) => Err(e),
            Ok((c, st1)) => Ok((c.push(Instr::LineEnd), st1)),
        },
    }
}

/// The code of a statement's child, by its kind.
pub open spec fn s_orden_inner(o: Tree, syms: Seq<Key>, st: GenState) -> Generated
    decreases o, 1int,
{
    match o {
        Tree::Node(ProductionType::Condicion, _) => s_condicion(o, syms, st),
        Tree::Node(ProductionType::BucleWhile, _) => s_bucle_while(o, syms, st),
        Tree::Node(ProductionType::Asignar, _) => s_asignar(o, syms, st),
        _ => Ok((Seq::empty(), st)),
    }
}

/// `statements` and `statements'`: each statement in turn.
pub open spec fn s_ordenes(t: Tree, syms: Seq<Key>, st: GenState) -> Generated
    decreases t, 0int,
{
    if kids(t).len() == 3 {
        match node_at(t, 0) {
            Err(e) => Err(e),
            Ok(o) => match node_at(t, 2) {
                Err(e) => Err(e),
                Ok(s) => match s_orden(o, syms, st) {
                    Err(e) => Err(e),
                    Ok((c1, st1)) => match s_ordenes(s, syms, st1) {
                        Err(e) => Err(e),
                        Ok((c2, st2)) => Ok((c1 + c2, st2)),
                    },
                },
            },
        }
    } else {
        Ok((Seq::empty(), st))
    }
}

/// A parsed program: its declarations fill the symbol table, then its
/// statements give the code.
pub open spec fn s_programa(tree: Tree) -> Result<Seq<Instr>, SemErr> {
    match node_at(tree, 1) {
        Err(e) => Err(e),
        Ok(d) => match d_declaraciones(d, Decls { keys: Seq::empty(), types: Seq::empty() }) {
            Err(e) => Err(e),
            Ok(decls) => match node_at(tree, 2) {
                Err(e) => Err(e),
                Ok(o) => match s_ordenes(o, decls.keys, GenState { temp: 0, jump: 0 }) {
                    Err(e) => Err(e),
                    Ok((code, _)) => Ok(code),
                },
            },
        },
    }
}

/// The instructions compiled from a source text.
pub open spec fn compile_code(source: Seq<char>) -> Result<Seq<Instr>, SemErr> {
    match p_analize(tokens_of(source)) {
        Err(e) => Err(SemErr::Sintactic(e)),
        Ok(tree) => s_programa(tree),
    }
}

/// The instruction text compiled from a source text.
pub open spec fn compile(source: Seq<char>) -> Result<Seq<char>, SemErr> {
    match compile_code(source) {
        Err(e) => Err(e),
        Ok(code) => Ok(render_all(code)),
    }
}

/// `render_all` of two instructions.
pub proof fn lemma_render_two(a: Instr, b: Instr)
    ensures
        render_all(seq![a, b]) == render(a) + render(b),
{
    assert(seq![a, b].drop_last() =~= seq![a]);
    lemma_render_one(a);
}

/// Appends the line of DAG node `k` of `g`, a DAG of `n` nodes whose
/// temporaries start after `base`.
fn push_node_line(out: &mut String, node: &crate::semantic::graph::Node, k: usize, n: usize, base: u64, g: Ghost<Seq<NodeView>>)
    requires
        g@.len() == n,
        k < n,
        g@[k as int] == node@,
        base + n <= MAX_NUMBER,
    ensures
        final(out)@ == old(out)@ + render_all(node_instr(g@, k as int, base as nat)),
{
    let temp = base + k as u64 + 1;
    if node.is_leaf {
        push_temp(out, temp);
        out.append(" := ");
        out.append(node.lexeme.as_str());
        out.append("\n");
    } else if node.left < n as u64 && node.right < n as u64 {
        push_temp(out, temp);
        out.append(" := ");
        push_temp(out, base + node.left + 1);
        out.append(" ");
        out.append(node.lexeme.as_str());
        out.append(" ");
        push_temp(out, base + node.right + 1);
        out.append("\n");
    }
    proof {
        let instrs = node_instr(g@, k as int, base as nat);
        if instrs.len() == 1 {
            lemma_render_one(instrs[0]);
            assert(final(out)@ =~= old(out)@ + render(instrs[0]));
        } else {
            assert(instrs =~= Seq::<Instr>::empty());
            assert(render_all(instrs) =~= Seq::<char>::empty());
            assert(final(out)@ =~= old(out)@ + render_all(instrs));
        }
    }
}

/// The text of an `if` tail with an `else` branch from its parts.
fn else_text(after_tag: &String, label: u64, body: &String, after: Ghost<nat>, code: Ghost<Seq<Instr>>) -> (r:
    String)
    requires
        after_tag@ == crate::semantic::code::label_name(after@),
        body@ == render_all(code@),
    ensures
        r@ == render_all(
            seq![Instr::Jump(after@), Instr::Label(label as nat)] + code@ + seq![Instr::Label(after@)],
        ),
{
    let mut res = String::new();
    res.append("jump to ");
    res.append(after_tag.as_str());
    res.append("\n");
    push_label(&mut res, label);
    res.append(":\n");
    let ghost head = res@;
    res.append(body.as_str());
    res.append(after_tag.as_str());
    res.append(":\n");
    proof {
        let a = seq![Instr::Jump(after@), Instr::Label(label as nat)];
        let b = seq![Instr::Label(after@)];
        lemma_render_two(a[0], a[1]);
        assert(a =~= seq![a[0], a[1]]);
        lemma_render_one(b[0]);
        lemma_render_all_append(a, code@);
        lemma_render_all_append(a + code@, b);
        assert(head =~= render_all(a));
        assert(res@ =~= render_all(a + code@ + b));
    }
    res
}

/// The text of a while loop from its parts.
fn loop_text(
    start_tag: &String,
    cmp: &String,
    end_tag: &String,
    body: &String,
    start: Ghost<nat>,
    end: Ghost<nat>,
    code: Ghost<Seq<Instr>>,
) -> (r: String)
    requires
        start_tag@ == crate::semantic::code::label_name(start@),
        end_tag@ == crate::semantic::code::label_name(end@),
        body@ == render_all(code@),
    ensures
        r@ == render_all(
            seq![Instr::Label(start@), Instr::IfFalse(cmp@, end@)] + code@ + seq![
                Instr::Jump(start@),
                Instr::Label(end@),
            ],
        ),
{
    let mut res = String::new();
    res.append(start_tag.as_str());
    res.append(":\n");
    res.append("if false ");
    res.append(cmp.as_str());
    res.append(" jump to ");
    res.append(end_tag.as_str());
    res.append("\n");
    let ghost head = res@;
    res.append(body.as_str());
    res.append("jump to ");
    res.append(start_tag.as_str());
    res.append("\n");
    res.append(end_tag.as_str());
    res.append(":\n");
    proof {
        let a = seq![Instr::Label(start@), Instr::IfFalse(cmp@, end@)];
        let b = seq![Instr::Jump(start@), Instr::Label(end@)];
        lemma_render_two(a[0], a[1]);
        lemma_render_two(b[0], b[1]);
        assert(a =~= seq![a[0], a[1]]);
        assert(b =~= seq![b[0], b[1]]);
        lemma_render_all_append(a, code@);
        lemma_render_all_append(a + code@, b);
        assert(head =~= render_all(a));
        assert(res@ =~= render_all(a + code@ + b));
    }
    res
}

/// The semantic analyzer and code generator. Its symbol table and its
/// counters of temporaries and labels are reset by each `parse`.
pub struct SemanticAnalyzer {
    pub table: SymbolsTable,
    pub current_jump: u64,
    pub current_temp: u64,
}

pub type SemanticRepresentation = String;

pub type SemanticResult = Result<SemanticRepresentation, SemanticError>;

impl SemanticAnalyzer {
    /// The declared variables of the symbol table.
    pub open spec fn decls(&self) -> Decls {
        Decls { keys: self.table.keys(), types: self.table.types() }
    }

    pub open spec fn state(&self) -> GenState {
        GenState { temp: self.current_temp as nat, jump: self.current_jump as nat }
    }

    /// `after` is this analyzer after generating `expected`, whose text `r`
    /// holds.
    pub open spec fn emits(&self, after: &Self, r: SemanticResult, expected: Generated) -> bool {
        &&& after.table.wf()
        &&& after.table.keys() == self.table.keys()
        &&& match expected {
            Ok((code, st)) => r is Ok && r->Ok_0@ == render_all(code) && after.state() == st,
            Err(e) => r is Err && r->Err_0@ == e,
        }
    }

    /// `after` is this analyzer after a declaration pass that gave
    /// `expected`.
    pub open spec fn declares(
        &self,
        after: &Self,
        r: Result<(), SemanticError>,
        expected: Result<Decls, SemErr>,
    ) -> bool {
        &&& after.table.wf()
        &&& after.state() == self.state()
        &&& match expected {
            Ok(d) => r is Ok && after.table.keys() == d.keys && after.table.types() == d.types,
            Err(e) => r is Err && r->Err_0@ == e,
        }
    }

    pub fn new() -> (r: SemanticAnalyzer)
        ensures
            r.table.wf(),
            r.table.keys() == Seq::<Key>::empty(),
            r.state() == (GenState { temp: 0, jump: 0 }),
    {
        SemanticAnalyzer { table: SymbolsTable::new(), current_jump: 0, current_temp: 0 }
    }

    /// Hands out the next label.
    pub fn next_jump(&mut self) -> (r: String)
        requires
            old(self).current_jump < MAX_NUMBER,
        ensures
            final(self).current_jump == old(self).current_jump + 1,
            final(self).current_temp == old(self).current_temp,
            final(self).table == old(self).table,
            r@ == crate::semantic::code::label_name(final(self).current_jump as nat),
    {
        self.current_jump = self.current_jump + 1;
        let mut tag = String::new();
        push_label(&mut tag, self.current_jump);
        tag
    }

    /// Hands out the next temporary.
    pub fn next_temp(&mut self) -> (r: String)
        requires
            old(self).current_temp < MAX_NUMBER,
        ensures
            final(self).current_temp == old(self).current_temp + 1,
            final(self).current_jump == old(self).current_jump,
            final(self).table == old(self).table,
            r@ == crate::semantic::code::temp_name(final(self).current_temp as nat),
    {
        self.current_temp = self.current_temp + 1;
        let mut tag = String::new();
        push_temp(&mut tag, self.current_temp);
        tag
    }

    /// The name of the last temporary handed out.
    pub fn current_temp(&self) -> (r: String)
        ensures
            r@ == crate::semantic::code::temp_name(self.current_temp as nat),
    {
        let mut tag = String::new();
        push_temp(&mut tag, self.current_temp);
        tag
    }

    pub fn sig_lista_variables(&mut self, var_type: &VariableType, lista: &Production) -> (r: Result<
        (),
        SemanticError,
    >)
        requires
            old(self).table.wf(),
        ensures
            old(self).declares(final(self), r, d_sig_lista_variables(lista@, *var_type, old(self).decls())),
        decreases lista,
    {
        proof {
            lemma_kids(lista);
        }
        if lista.items.len() > 0 {
            let next = match item_node(lista, 1) {
                Ok(p) => p,
                Err(e) => return Err(e),
            };
            return self.lista_variables(var_type, next);
        }
        Ok(())
    }

    pub fn lista_variables(&mut self, var_type: &VariableType, lista: &Production) -> (r: Result<
        (),
        SemanticError,
    >)
        requires
            old(self).table.wf(),
        ensures
            old(self).declares(final(self), r, d_lista_variables(lista@, *var_type, old(self).decls())),
        decreases lista,
    {
        let id = match item_leaf(lista, 0) {
            Ok(t) => t,
            Err(e) => return Err(e),
        };
        let next_list = match item_node(lista, 1) {
            Ok(p) => p,
            Err(e) => return Err(e),
        };
        self.table.add(id, var_type);
        self.sig_lista_variables(var_type, next_list)
    }

    /// Declares the identifiers of one declaration: `entero` declares
    /// integers, any other type word reals.
    pub fn declaracion(&mut self, production: &Production) -> (r: Result<(), SemanticError>)
        requires
            old(self).table.wf(),
        ensures
            old(self).declares(final(self), r, d_declaracion(production@, old(self).decls())),
    {
        let tipo = match item_leaf(production, 0) {
            Ok(t) => t,
            Err(e) => return Err(e),
        };
        let lista = match item_node(production, 1) {
            Ok(p) => p,
            Err(e) => return Err(e),
        };
        let var_type = if text_is(&tipo.lexeme, "entero") {
            VariableType::Entero
        } else {
            VariableType::Real
        };
        self.lista_variables(&var_type, lista)
    }

    pub fn declaraciones(&mut self, production: &Production) -> (r: Result<(), SemanticError>)
        requires
            old(self).table.wf(),
        ensures
            old(self).declares(final(self), r, d_declaraciones(production@, old(self).decls())),
        decreases production,
    {
        proof {
            lemma_kids(production);
        }
        if production.items.len() == 3 {
            let declaracion = match item_node(production, 0) {
                Ok(p) => p,
                Err(e) => return Err(e),
            };
            let sig_declaraciones = match item_node(production, 2) {
                Ok(p) => p,
                Err(e) => return Err(e),
            };
            if let Err(e) = self.declaracion(declaracion) {
                return Err(e);
            }
            if let Err(e) = self.declaraciones(sig_declaraciones) {
                return Err(e);
            }
        }
        Ok(())
    }

    /// The text of a comparison operand.
    pub fn operador(&mut self, production: &Production) -> (r: SemanticResult)
        ensures
            match s_operador(production@) {
                Ok(t) => r is Ok && r->Ok_0@ == t,
                Err(e) => r is Err && r->Err_0@ == e,
            },
            *final(self) == *old(self),
    {
        proof {
            lemma_kids(production);
        }
        if production.items.len() == 0 {
            return Err(SemanticError::from_format(production.clone()));
        }
        match &production.items[0] {
            ProductionItem::Leaf(op) => Ok(append_id(op.lexeme.as_str())),
            ProductionItem::Production(num) => {
                proof {
                    lemma_kids(num);
                }
                if num.items.len() == 0 {
                    return Err(SemanticError::from_format(num.clone()));
                }
                if let ProductionItem::Leaf(n) = &num.items[0] {
                    Ok(n.lexeme.clone())
                } else {
                    Ok(String::new())
                }
            },
        }
    }

    pub fn comparacion(&mut self, production: &Production) -> (r: SemanticResult)
        ensures
            match s_comparacion(production@) {
                Ok(t) => r is Ok && r->Ok_0@ == t,
                Err(e) => r is Err && r->Err_0@ == e,
            },
            *final(self) == *old(self),
    {
        let operador_a = match item_node(production, 0) {
            Ok(p) => p,
            Err(e) => return Err(e),
        };
        let op = match item_leaf(production, 1) {
            Ok(t) => t,
            Err(e) => return Err(e),
        };
        let operador_b = match item_node(production, 2) {
            Ok(p) => p,
            Err(e) => return Err(e),
        };
        let mut res = match self.operador(operador_a) {
            Ok(s) => s,
            Err(e) => return Err(e),
        };
        let b = match self.operador(operador_b) {
            Ok(s) => s,
            Err(e) => return Err(e),
        };
        res.append(" ");
        res.append(op.lexeme.as_str());
        res.append(" ");
        res.append(b.as_str());
        Ok(res)
    }

    /// Compiles an expression: its code, and the number of the temporary
    /// that holds its value.
    fn exp_with_root(&mut self, production: &Production) -> (r: Result<(String, u64), SemanticError>)
        requires
            old(self).table.wf(),
        ensures
            final(self).table == old(self).table,
            final(self).current_jump == old(self).current_jump,
            match s_exp(production@, old(self).table.keys(), old(self).current_temp as nat) {
                Ok((code, temp, root)) => r is Ok && r->Ok_0.0@ == render_all(code) && r->Ok_0.1 == root
                    && final(self).current_temp == temp,
                Err(e) => r is Err && r->Err_0@ == e && final(self).current_temp == old(self).current_temp,
            },
    {
        let mut analyzer = ExpressionAnalyzer::from(&self.table);
        let root = match analyzer.expresion_arit(production) {
            Ok(h) => h,
            Err(e) => return Err(e),
        };
        let n = analyzer.graph.table.len();
        if n as u64 > MAX_NUMBER - self.current_temp {
            return Err(SemanticError::from_format(production.clone()));
        }
        let ghost g = analyzer.graph@;
        let base = self.current_temp;
        let mut out = String::new();
        let mut k: usize = 0;
        while k < n
            invariant
                n == analyzer.graph.table@.len(),
                g == analyzer.graph@,
                k <= n,
                base + n <= MAX_NUMBER,
                out@ == render_all(dag_code(g, k as int, base as nat)),
            decreases n - k,
        {
            let node = &analyzer.graph.table[k].node;
            assert(g[k as int] == node@);
            push_node_line(&mut out, node, k, n, base, Ghost(g));
            assert(dag_code(g, k + 1, base as nat) == dag_code(g, k as int, base as nat) + node_instr(
                g,
                k as int,
                base as nat,
            ));
            proof {
                lemma_render_all_append(dag_code(g, k as int, base as nat), node_instr(g, k as int, base as nat));
            }
            k += 1;
        }
        self.current_temp = base + n as u64;
        proof {
            let (g2, rt) = e_expresion_arit(production@, old(self).table.keys(), Seq::empty())->Ok_0;
            assert(g2 == g);
            assert(rt == root as nat);
            assert(out@ == render_all(dag_code(g, g.len() as int, base as nat)));
        }
        Ok((out, base + root + 1))
    }

    /// The code of an expression, with fresh temporaries for its DAG nodes.
    pub fn exp(&mut self, production: &Production) -> (r: SemanticResult)
        requires
            old(self).table.wf(),
        ensures
            final(self).table == old(self).table,
            final(self).current_jump == old(self).current_jump,
            match s_exp(production@, old(self).table.keys(), old(self).current_temp as nat) {
                Ok((code, temp, _)) => r is Ok && r->Ok_0@ == render_all(code) && final(self).current_temp
                    == temp,
                Err(e) => r is Err && r->Err_0@ == e && final(self).current_temp == old(self).current_temp,
            },
    {
        match self.exp_with_root(production) {
            Ok((text, _)) => Ok(text),
            Err(e) => Err(e),
        }
    }

    pub fn asignar(&mut self, production: &Production) -> (r: SemanticResult)
        requires
            old(self).table.wf(),
        ensures
            old(self).emits(final(self), r, s_asignar(production@, old(self).table.keys(), old(self).state())),
    {
        proof {
            lemma_kids(production);
        }
        if production.items.len() < 3 {
            return Err(SemanticError::from_format(production.clone()));
        }
        if let (ProductionItem::Leaf(id), ProductionItem::Production(exp)) = (
            &production.items[0],
            &production.items[2],
        ) {
            let (mut res, root) = match self.exp_with_root(exp) {
                Ok(x) => x,
                Err(e) => return Err(e),
            };
            let ghost before = res@;
            res.append(append_id(id.lexeme.as_str()).as_str());
            res.append(" := ");
            push_temp(&mut res, root);
            proof {
                let (code, temp, rt) = s_exp(exp@, old(self).table.keys(), old(self).current_temp as nat)->Ok_0;
                let c = Instr::Copy(storage_name(id.lexeme@), rt);
                assert(code.push(c).drop_last() =~= code);
                assert(res@ =~= before + render(c));
            }
            return Ok(res);
        }
        Ok(String::new())
    }

    pub fn bucle_while(&mut self, production: &Production) -> (r: SemanticResult)
        requires
            old(self).table.wf(),
        ensures
            old(self).emits(final(self), r, s_bucle_while(production@, old(self).table.keys(), old(self).state())),
        decreases production, 0int,
    {
        proof {
            lemma_kids(production);
        }
        if production.items.len() < 5 {
            return Err(SemanticError::from_format(production.clone()));
        }
        if let (ProductionItem::Production(condicion), ProductionItem::Production(ordenes)) = (
            &production.items[2],
            &production.items[4],
        ) {
            if self.current_jump > MAX_NUMBER - 2 {
                return Err(SemanticError::from_format(production.clone()));
            }
            proof {
                lemma_child_decreases(production, 4, ordenes);
            }
            let start_tag = self.next_jump();
            let end_tag = self.next_jump();
            let cmp = match self.comparacion(condicion) {
                Ok(s) => s,
                Err(e) => return Err(e),
            };
            let body = match self.ordenes(ordenes) {
                Ok(s) => s,
                Err(e) => return Err(e),
            };
            let ghost bc = s_ordenes(
                ordenes@,
                old(self).table.keys(),
                GenState { temp: old(self).current_temp as nat, jump: (old(self).current_jump + 2) as nat },
            )->Ok_0.0;
            let res = loop_text(
                &start_tag,
                &cmp,
                &end_tag,
                &body,
                Ghost((old(self).current_jump + 1) as nat),
                Ghost((old(self).current_jump + 2) as nat),
                Ghost(bc),
            );
            return Ok(res);
        }
        Ok(String::new())
    }

    /// The tail of an `if` whose test jumps to label number `label`.
    pub fn sig_condicion(&mut self, label: u64, production: &Production) -> (r: SemanticResult)
        requires
            old(self).table.wf(),
        ensures
            old(self).emits(
                final(self),
                r,
                s_sig_condicion(label as nat, production@, old(self).table.keys(), old(self).state()),
            ),
        decreases production, 0int,
    {
        proof {
            lemma_kids(production);
        }
        if production.items.len() == 0 {
            return Err(SemanticError::from_format(production.clone()));
        }
        if let ProductionItem::Leaf(token) = &production.items[0] {
            if token.token_type == TokenType::End {
                let mut res = String::new();
                push_label(&mut res, label);
                res.append(":\n");
                proof {
                    lemma_render_one(Instr::Label(label as nat));
                }
                return Ok(res);
            } else if token.token_type == TokenType::Else {
                if self.current_jump > MAX_NUMBER - 1 || production.items.len() < 2 {
                    return Err(SemanticError::from_format(production.clone()));
                }
                let jump = self.next_jump();
                let ghost st0 = self.state();
                let ghost mut branch: Seq<Instr> = Seq::empty();
                let mut body = String::new();
                if let ProductionItem::Production(sig) = &production.items[1] {
                    proof {
                        lemma_child_decreases(production, 1, sig);
                    }
                    body = match self.ordenes(sig) {
                        Ok(s) => s,
                        Err(e) => return Err(e),
                    };
                    proof {
                        branch = s_ordenes(sig@, old(self).table.keys(), st0)->Ok_0.0;
                    }
                } else {
                    proof {
                        assert(render_all(Seq::<Instr>::empty()) =~= Seq::<char>::empty());
                    }
                }
                let res = else_text(
                    &jump,
                    label,
                    &body,
                    Ghost((old(self).current_jump + 1) as nat),
                    Ghost(branch),
                );
                return Ok(res);
            }
        }
        Err(SemanticError::from_format(production.clone()))
    }

    pub fn condicion(&mut self, production: &Production) -> (r: SemanticResult)
        requires
            old(self).table.wf(),
        ensures
            old(self).emits(final(self), r, s_condicion(production@, old(self).table.keys(), old(self).state())),
        decreases production, 0int,
    {
        let condicion = match item_node(production, 2) {
            Ok(p) => p,
            Err(e) => return Err(e),
        };
        let ordenes = match item_node(production, 4) {
            Ok(p) => p,
            Err(e) => return Err(e),
        };
        let sig_condicion = match item_node(production, 5) {
            Ok(p) => p,
            Err(e) => return Err(e),
        };
        if self.current_jump > MAX_NUMBER - 1 {
            return Err(SemanticError::from_format(production.clone()));
        }
        let jump = self.next_jump();
        let label = self.current_jump;
        let cmp = match self.comparacion(condicion) {
            Ok(s) => s,
            Err(e) => return Err(e),
        };
        let body = match self.ordenes(ordenes) {
            Ok(s) => s,
            Err(e) => return Err(e),
        };
        let tail = match self.sig_condicion(label, sig_condicion) {
            Ok(s) => s,
            Err(e) => return Err(e),
        };
        let mut res = String::new();
        res.append("if false ");
        res.append(cmp.as_str());
        res.append(" jump to ");
        res.append(jump.as_str());
        res.append("\n");
        let ghost head = res@;
        res.append(body.as_str());
        res.append(tail.as_str());
        proof {
            let a = seq![Instr::IfFalse(cmp@, label as nat)];
            let st0 = GenState { temp: old(self).current_temp as nat, jump: label as nat };
            let (bc, st1) = s_ordenes(ordenes@, old(self).table.keys(), st0)->Ok_0;
            let (tc, st2) = s_sig_condicion(label as nat, sig_condicion@, old(self).table.keys(), st1)->Ok_0;
            lemma_render_one(a[0]);
            lemma_render_all_append(a, bc);
            lemma_render_all_append(a + bc, tc);
            assert(head =~= render_all(a));
            assert(res@ =~= render_all(a + bc + tc));
        }
        Ok(res)
    }

    pub fn orden(&mut self, production: &Production) -> (r: SemanticResult)
        requires
            old(self).table.wf(),
        ensures
            old(self).emits(final(self), r, s_orden(production@, old(self).table.keys(), old(self).state())),
        decreases production, 1int,
    {
        let orden = match item_node(production, 0) {
            Ok(p) => p,
            Err(e) => return Err(e),
        };
        let ghost st0 = self.state();
        let inner = match orden.production_type {
            ProductionType::Condicion => self.condicion(orden),
            ProductionType::BucleWhile => self.bucle_while(orden),
            ProductionType::Asignar => self.asignar(orden),
            _ => {
                proof {
                    assert(render_all(Seq::<Instr>::empty()) =~= Seq::<char>::empty());
                }
                Ok(String::new())
            },
        };
        let mut res = match inner {
            Ok(s) => s,
            Err(e) => return Err(e),
        };
        res.append("\n");
        proof {
            let c = s_orden_inner(orden@, old(self).table.keys(), st0)->Ok_0.0;
            assert(c.push(Instr::LineEnd).drop_last() =~= c);
        }
        Ok(res)
    }

    pub fn ordenes(&mut self, production: &Production) -> (r: SemanticResult)
        requires
            old(self).table.wf(),
        ensures
            old(self).emits(final(self), r, s_ordenes(production@, old(self).table.keys(), old(self).state())),
        decreases production, 1int,
    {
        proof {
            lemma_kids(production);
            assert(render_all(Seq::<Instr>::empty()) =~= Seq::<char>::empty());
        }
        let mut parsed = String::new();
        if production.items.len() == 3 {
            let orden = match item_node(production, 0) {
                Ok(p) => p,
                Err(e) => return Err(e),
            };
            let sig_ordenes = match item_node(production, 2) {
                Ok(p) => p,
                Err(e) => return Err(e),
            };
            let ghost st0 = self.state();
            let first = match self.orden(orden) {
                Ok(s) => s,
                Err(e) => return Err(e),
            };
            let ghost st1 = self.state();
            let rest = match self.ordenes(sig_ordenes) {
                Ok(s) => s,
                Err(e) => return Err(e),
            };
            parsed.append(first.as_str());
            parsed.append(rest.as_str());
            proof {
                let (c1, s1) = s_orden(orden@, old(self).table.keys(), st0)->Ok_0;
                let (c2, s2) = s_ordenes(sig_ordenes@, old(self).table.keys(), st1)->Ok_0;
                lemma_render_all_append(c1, c2);
                assert(parsed@ =~= render_all(c1 + c2));
            }
        }
        Ok(parsed)
    }

    /// Compiles a source text: parses it, declares its variables, then
    /// generates the code of its statements.
    pub fn parse(&mut self, input: &str) -> (r: SemanticResult)
        ensures
            match compile(input@) {
                Ok(text) => r is Ok && r->Ok_0@ == text,
                Err(e) => r is Err && r->Err_0@ == e,
            },
    {
        self.table.clear();
        self.current_temp = 0;
        self.current_jump = 0;
        let mut sintactic_analyzer = SintacticAnalyzer::new(input);
        let tree = match sintactic_analyzer.analize() {
            Err(sintactic_error) => return Err(SemanticError::from_sintactic(sintactic_error)),
            Ok(sintactic_tree) => sintactic_tree,
        };
        let declaraciones = match item_node(&tree, 1) {
            Ok(p) => p,
            Err(e) => return Err(e),
        };
        if let Err(e) = self.declaraciones(declaraciones) {
            return Err(e);
        }
        let ordenes = match item_node(&tree, 2) {
            Ok(p) => p,
            Err(e) => return Err(e),
        };
        self.ordenes(ordenes)
    }
}

} // verus!
