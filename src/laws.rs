//! Properties of the whole compiler, proved over its specification.
use vstd::prelude::*;

use crate::grammar::{
    kind, missing, p_analize, p_asignar, p_bucle_while, p_comparacion, p_condicion, p_declaracion,
    p_declaraciones, p_expresion_arit, p_factor, p_lista_variables, p_numeros, p_operador, p_orden,
    p_ordenes, p_programa, p_rest_expr, p_rest_term, p_sig_condicion, p_sig_declaraciones,
    p_sig_lista_variables, p_sig_ordenes, p_termino, remaining, starts_statement, tok, Parsed,
};
use crate::lexic::{lemma_lex_all_ends_with_eof, tokens_of, LexState};
use crate::production::{ProductionType, Tree};
use crate::semantic::error::SemErr;
use crate::semantic::code::Instr;
use crate::semantic::utils::{kids, leaf_at, node_at};
use crate::semantic::{
    declare_var, Decls,
    compile, compile_code, dag_code, node_instr, s_asignar, s_bucle_while, s_condicion, s_exp, s_orden,
    s_orden_inner,
    s_ordenes, s_sig_condicion, GenState,
};
use crate::semantic::expresion::{
    e_expresion_arit, e_factor, e_numeros, e_operador, e_rest_expr, e_rest_term, e_termino,
};
use crate::semantic::graph::{add_node, distinct, lemma_add_node_shares, num_node, op_node, var_node, NodeView};
use crate::symbols::{declare, first_index, key_of, lemma_first_index, lemma_first_index_push, lookup, Key, VariableType};
use crate::token::{TokenType, TokenView};

verus! {

/// Compiling is a function of the source text alone: the same text gives
/// the same instruction text, or the same error.
pub proof fn lemma_compile_deterministic(a: Seq<char>, b: Seq<char>)
    requires
        a == b,
    ensures
        compile(a) == compile(b),
{
}

/// Declaring a variable never moves one declared before it, and a
/// redeclaration changes nothing.
pub proof fn lemma_declare_keeps_indices(keys: Seq<Key>, t: TokenView, k: Key)
    requires
        first_index(keys, k) is Some,
    ensures
        first_index(declare(keys, t), k) == first_index(keys, k),
        first_index(keys, key_of(t)) is Some ==> declare(keys, t) == keys,
        first_index(keys, key_of(t)) is None ==> first_index(declare(keys, t), key_of(t)) == Some(
            keys.len(),
        ),
{
    lemma_first_index_push(keys, key_of(t), k);
    lemma_first_index_push(keys, key_of(t), key_of(t));
    lemma_first_index(keys, key_of(t));
}

/// The label an instruction jumps to, if it jumps.
pub open spec fn target(i: Instr) -> Option<nat> {
    match i {
        Instr::Jump(n) => Some(n),
        Instr::IfFalse(_, n) => Some(n),
        _ => None,
    }
}

/// How many times `code` places label `n`.
pub open spec fn label_count(code: Seq<Instr>, n: nat) -> nat
    decreases code.len(),
{
    if code.len() == 0 {
        0
    } else {
        label_count(code.drop_last(), n) + if code.last() == Instr::Label(n) {
            1nat
        } else {
            0nat
        }
    }
}

/// Every jump of `code` goes to a label that `code` places exactly once.
pub open spec fn jumps_well_formed(code: Seq<Instr>) -> bool {
    forall|k: int|
        0 <= k < code.len() && (#[trigger] target(code[k])) is Some ==> label_count(code, target(code[k])->0)
            == 1
}

/// For every program that compiles, every `jump to L` (plain or
/// conditional) has exactly one `L:` in the same output.
pub proof fn lemma_jump_labels_well_formed(source: Seq<char>)
    requires
        compile_code(source) is Ok,
    ensures
        jumps_well_formed(compile_code(source)->Ok_0),
{
    let tree = crate::grammar::p_analize(crate::lexic::tokens_of(source))->Ok_0;
    let d = node_at(tree, 1)->Ok_0;
    let keys = crate::semantic::d_declaraciones(
        d,
        crate::semantic::Decls { keys: Seq::empty(), types: Seq::empty() },
    )->Ok_0.keys;
    let o = node_at(tree, 2)->Ok_0;
    let st = GenState { temp: 0, jump: 0 };
    lemma_ordenes_labels(o, keys, st);
    let (code, st1) = s_ordenes(o, keys, st)->Ok_0;
    assert forall|k: int| 0 <= k < code.len() && (#[trigger] target(code[k])) is Some implies label_count(
        code,
        target(code[k])->0,
    ) == 1 by {
        assert(labels_exactly(code, 0, st1.jump));
    }
}

/// `code` places each label of `(lo, hi]` once and no other.
pub open spec fn labels_exactly(code: Seq<Instr>, lo: nat, hi: nat) -> bool {
    forall|n: nat| #[trigger] label_count(code, n) == if lo < n <= hi {
        1nat
    } else {
        0nat
    }
}

/// Every jump of `code` goes to a label of `(lo, hi]`.
pub open spec fn targets_within(code: Seq<Instr>, lo: nat, hi: nat) -> bool {
    forall|k: int|
        0 <= k < code.len() && (#[trigger] target(code[k])) is Some ==> lo < target(code[k])->0 <= hi
}

pub proof fn lemma_label_count_append(a: Seq<Instr>, b: Seq<Instr>, n: nat)
    ensures
        label_count(a + b, n) == label_count(a, n) + label_count(b, n),
    decreases b.len(),
{
    if b.len() == 0 {
        assert(a + b =~= a);
    } else {
        assert((a + b).drop_last() =~= a + b.drop_last());
        lemma_label_count_append(a, b.drop_last(), n);
    }
}

pub proof fn lemma_label_count_two(x: Instr, y: Instr, n: nat)
    ensures
        label_count(seq![x, y], n) == label_count(seq![x], n) + label_count(seq![y], n),
{
    assert(seq![x, y] =~= seq![x] + seq![y]);
    lemma_label_count_append(seq![x], seq![y], n);
}

pub proof fn lemma_label_count_one(x: Instr, n: nat)
    ensures
        label_count(seq![x], n) == if x == Instr::Label(n) {
            1nat
        } else {
            0nat
        },
{
    assert(seq![x].drop_last() =~= Seq::<Instr>::empty());
    assert(seq![x].len() == 1);
    assert(seq![x].last() == x);
    assert(label_count(Seq::<Instr>::empty(), n) == 0);
}

/// Code of an expression places no label and jumps nowhere.
pub open spec fn straight(code: Seq<Instr>) -> bool {
    forall|k: int|
        0 <= k < code.len() ==> !((#[trigger] code[k]) is Label) && target(code[k]) is None
}

pub proof fn lemma_straight_no_labels(code: Seq<Instr>, n: nat)
    requires
        straight(code),
    ensures
        label_count(code, n) == 0,
    decreases code.len(),
{
    if code.len() > 0 {
        let d = code.drop_last();
        assert forall|k: int| 0 <= k < d.len() implies !((#[trigger] d[k]) is Label) && target(d[k]) is None by {
            assert(d[k] == code[k]);
        }
        lemma_straight_no_labels(d, n);
        assert(code[code.len() - 1] == code.last());
    }
}

pub proof fn lemma_dag_code_straight(g: Seq<NodeView>, k: int, base: nat)
    requires
        k <= g.len(),
    ensures
        straight(dag_code(g, k, base)),
    decreases k,
{
    if k > 0 {
        lemma_dag_code_straight(g, k - 1, base);
        let a = dag_code(g, k - 1, base);
        let b = node_instr(g, k - 1, base);
        assert forall|j: int| 0 <= j < (a + b).len() implies !((#[trigger] (a + b)[j]) is Label) && target(
            (a + b)[j],
        ) is None by {
            if j >= a.len() {
                assert((a + b)[j] == b[j - a.len()]);
            } else {
                assert((a + b)[j] == a[j]);
            }
        }
    }
}

/// Code without labels or jumps, placed around nothing: the counters of
/// labels stay, and it satisfies the label invariant for an empty range.
pub proof fn lemma_straight_exact(code: Seq<Instr>, j: nat)
    requires
        straight(code),
    ensures
        labels_exactly(code, j, j),
        targets_within(code, j, j),
{
    assert forall|n: nat| #[trigger] label_count(code, n) == 0nat by {
        lemma_straight_no_labels(code, n);
    }
}

pub proof fn lemma_asignar_labels(t: Tree, syms: Seq<Key>, st: GenState)
    requires
        s_asignar(t, syms, st) is Ok,
    ensures
        s_asignar(t, syms, st)->Ok_0.1.jump == st.jump,
        labels_exactly(s_asignar(t, syms, st)->Ok_0.0, st.jump, st.jump),
        targets_within(s_asignar(t, syms, st)->Ok_0.0, st.jump, st.jump),
{
    let code = s_asignar(t, syms, st)->Ok_0.0;
    match (kids(t)[0], kids(t)[2]) {
        (Tree::Leaf(id), Tree::Node(_, _)) => {
            let g = e_expresion_arit(kids(t)[2], syms, Seq::empty())->Ok_0.0;
            let c = s_exp(kids(t)[2], syms, st.temp)->Ok_0.0;
            lemma_dag_code_straight(g, g.len() as int, st.temp);
            assert forall|k: int| 0 <= k < code.len() implies !((#[trigger] code[k]) is Label) && target(code[k])
                is None by {
                if k < c.len() {
                    assert(code[k] == c[k]);
                }
            }
        },
        _ => {},
    }
    lemma_straight_exact(code, st.jump);
}

/// Joining code for `(lo, mid]` with code for `(mid, hi]` gives code for
/// `(lo, hi]`.
pub proof fn lemma_join(a: Seq<Instr>, b: Seq<Instr>, lo: nat, mid: nat, hi: nat)
    requires
        lo <= mid <= hi,
        labels_exactly(a, lo, mid),
        targets_within(a, lo, mid),
        labels_exactly(b, mid, hi),
        targets_within(b, mid, hi),
    ensures
        labels_exactly(a + b, lo, hi),
        targets_within(a + b, lo, hi),
{
    assert forall|n: nat| #[trigger] label_count(a + b, n) == if lo < n <= hi {
        1nat
    } else {
        0nat
    } by {
        lemma_label_count_append(a, b, n);
        assert(label_count(a, n) == if lo < n <= mid {
            1nat
        } else {
            0nat
        });
        assert(label_count(b, n) == if mid < n <= hi {
            1nat
        } else {
            0nat
        });
    }
    assert forall|k: int| 0 <= k < (a + b).len() && (#[trigger] target((a + b)[k])) is Some implies lo < target(
        (a + b)[k],
    )->0 <= hi by {
        if k < a.len() {
            assert((a + b)[k] == a[k]);
        } else {
            assert((a + b)[k] == b[k - a.len()]);
        }
    }
}

pub proof fn lemma_ordenes_labels(t: Tree, syms: Seq<Key>, st: GenState)
    requires
        s_ordenes(t, syms, st) is Ok,
    ensures
        st.jump <= s_ordenes(t, syms, st)->Ok_0.1.jump,
        labels_exactly(s_ordenes(t, syms, st)->Ok_0.0, st.jump, s_ordenes(t, syms, st)->Ok_0.1.jump),
        targets_within(s_ordenes(t, syms, st)->Ok_0.0, st.jump, s_ordenes(t, syms, st)->Ok_0.1.jump),
    decreases t, 2int,
{
    if kids(t).len() == 3 {
        let o = node_at(t, 0)->Ok_0;
        let s = node_at(t, 2)->Ok_0;
        lemma_orden_labels(o, syms, st);
        let (c1, st1) = s_orden(o, syms, st)->Ok_0;
        lemma_ordenes_labels(s, syms, st1);
        let (c2, st2) = s_ordenes(s, syms, st1)->Ok_0;
        lemma_join(c1, c2, st.jump, st1.jump, st2.jump);
    } else {
        lemma_straight_exact(Seq::empty(), st.jump);
    }
}

pub proof fn lemma_orden_labels(t: Tree, syms: Seq<Key>, st: GenState)
    requires
        s_orden(t, syms, st) is Ok,
    ensures
        st.jump <= s_orden(t, syms, st)->Ok_0.1.jump,
        labels_exactly(s_orden(t, syms, st)->Ok_0.0, st.jump, s_orden(t, syms, st)->Ok_0.1.jump),
        targets_within(s_orden(t, syms, st)->Ok_0.0, st.jump, s_orden(t, syms, st)->Ok_0.1.jump),
    decreases t, 1int,
{
    let o = node_at(t, 0)->Ok_0;
    match o {
        Tree::Node(ProductionType::Condicion, _) => lemma_condicion_labels(o, syms, st),
        Tree::Node(ProductionType::BucleWhile, _) => lemma_bucle_while_labels(o, syms, st),
        Tree::Node(ProductionType::Asignar, _) => lemma_asignar_labels(o, syms, st),
        _ => lemma_straight_exact(Seq::empty(), st.jump),
    }
    let (c, st1) = s_orden_inner(o, syms, st)->Ok_0;
    let end = seq![Instr::LineEnd];
    assert forall|k: int| 0 <= k < end.len() implies !((#[trigger] end[k]) is Label) && target(end[k]) is None by {}
    lemma_straight_exact(end, st1.jump);
    lemma_join(c, end, st.jump, st1.jump, st1.jump);
    assert(c.push(Instr::LineEnd) =~= c + end);
}

pub proof fn lemma_bucle_while_labels(t: Tree, syms: Seq<Key>, st: GenState)
    requires
        s_bucle_while(t, syms, st) is Ok,
    ensures
        st.jump <= s_bucle_while(t, syms, st)->Ok_0.1.jump,
        labels_exactly(s_bucle_while(t, syms, st)->Ok_0.0, st.jump, s_bucle_while(t, syms, st)->Ok_0.1.jump),
        targets_within(s_bucle_while(t, syms, st)->Ok_0.0, st.jump, s_bucle_while(t, syms, st)->Ok_0.1.jump),
    decreases t, 0int,
{
    match (kids(t)[2], kids(t)[4]) {
        (Tree::Node(_, _), Tree::Node(_, _)) => {
            let start = st.jump + 1;
            let end = st.jump + 2;
            let c = crate::semantic::s_comparacion(kids(t)[2])->Ok_0;
            let st0 = GenState { temp: st.temp, jump: end };
            lemma_ordenes_labels(kids(t)[4], syms, st0);
            let (body, st1) = s_ordenes(kids(t)[4], syms, st0)->Ok_0;
            let a = seq![Instr::Label(start), Instr::IfFalse(c, end)];
            let b = seq![Instr::Jump(start), Instr::Label(end)];
            assert forall|n: nat| #[trigger] label_count(a, n) == if st.jump < n <= end - 1 {
                1nat
            } else {
                0nat
            } by {
                lemma_label_count_two(a[0], a[1], n);
                lemma_label_count_one(a[0], n);
                lemma_label_count_one(a[1], n);
                assert(a =~= seq![a[0], a[1]]);
            }
            assert forall|n: nat| #[trigger] label_count(b, n) == if end - 1 < n <= end {
                1nat
            } else {
                0nat
            } by {
                lemma_label_count_two(b[0], b[1], n);
                lemma_label_count_one(b[0], n);
                lemma_label_count_one(b[1], n);
                assert(b =~= seq![b[0], b[1]]);
            }
            assert forall|n: nat| #[trigger] label_count(a + body + b, n) == if st.jump < n <= st1.jump {
                1nat
            } else {
                0nat
            } by {
                lemma_label_count_append(a + body, b, n);
                lemma_label_count_append(a, body, n);
                assert(label_count(a, n) == if st.jump < n <= end - 1 {
                    1nat
                } else {
                    0nat
                });
                assert(label_count(b, n) == if end - 1 < n <= end {
                    1nat
                } else {
                    0nat
                });
                assert(label_count(body, n) == if end < n <= st1.jump {
                    1nat
                } else {
                    0nat
                });
            }
            let code = a + body + b;
            assert forall|k: int| 0 <= k < code.len() && (#[trigger] target(code[k])) is Some implies st.jump
                < target(code[k])->0 <= st1.jump by {
                if k < 2 {
                    assert(code[k] == a[k]);
                } else if k < 2 + body.len() {
                    assert(code[k] == body[k - 2]);
                } else {
                    assert(code[k] == b[k - 2 - body.len()]);
                }
            }
        },
        _ => lemma_straight_exact(Seq::empty(), st.jump),
    }
}

pub proof fn lemma_sig_condicion_labels(label: nat, t: Tree, syms: Seq<Key>, st: GenState)
    requires
        label <= st.jump,
        s_sig_condicion(label, t, syms, st) is Ok,
    ensures
        st.jump <= s_sig_condicion(label, t, syms, st)->Ok_0.1.jump,
        forall|n: nat| #[trigger]
            label_count(s_sig_condicion(label, t, syms, st)->Ok_0.0, n) == if n == label || (st.jump < n
                <= s_sig_condicion(label, t, syms, st)->Ok_0.1.jump) {
                1nat
            } else {
                0nat
            },
        targets_within(
            s_sig_condicion(label, t, syms, st)->Ok_0.0,
            st.jump,
            s_sig_condicion(label, t, syms, st)->Ok_0.1.jump,
        ),
    decreases t, 0int,
{
    match kids(t)[0] {
        Tree::Leaf(tok) => if tok.token_type == TokenType::End {
            assert forall|n: nat| #[trigger] label_count(seq![Instr::Label(label)], n) == if n == label {
                1nat
            } else {
                0nat
            } by {
                lemma_label_count_one(Instr::Label(label), n);
            }
        } else if tok.token_type == TokenType::Else {
            let after = st.jump + 1;
            let st0 = GenState { temp: st.temp, jump: after };
            let (branch, st1) = match kids(t)[1] {
                Tree::Node(_, _) => {
                    lemma_ordenes_labels(kids(t)[1], syms, st0);
                    s_ordenes(kids(t)[1], syms, st0)->Ok_0
                },
                Tree::Leaf(_) => {
                    lemma_straight_exact(Seq::empty(), after);
                    (Seq::empty(), st0)
                },
            };
            let a = seq![Instr::Jump(after), Instr::Label(label)];
            let b = seq![Instr::Label(after)];
            let code = a + branch + b;
            assert(code == s_sig_condicion(label, t, syms, st)->Ok_0.0);
            assert forall|n: nat| #[trigger] label_count(code, n) == if n == label || (st.jump < n <= st1.jump) {
                1nat
            } else {
                0nat
            } by {
                lemma_label_count_append(a + branch, b, n);
                lemma_label_count_append(a, branch, n);
                lemma_label_count_two(a[0], a[1], n);
                assert(a =~= seq![a[0], a[1]]);
                lemma_label_count_one(a[0], n);
                lemma_label_count_one(a[1], n);
                lemma_label_count_one(b[0], n);
                assert(label_count(branch, n) == if after < n <= st1.jump {
                    1nat
                } else {
                    0nat
                });
            }
            assert forall|k: int| 0 <= k < code.len() && (#[trigger] target(code[k])) is Some implies st.jump
                < target(code[k])->0 <= st1.jump by {
                if k < 2 {
                    assert(code[k] == a[k]);
                } else if k < 2 + branch.len() {
                    assert(code[k] == branch[k - 2]);
                } else {
                    assert(code[k] == b[k - 2 - branch.len()]);
                }
            }
        },
        Tree::Node(_, _) => {},
    }
}

pub proof fn lemma_condicion_labels(t: Tree, syms: Seq<Key>, st: GenState)
    requires
        s_condicion(t, syms, st) is Ok,
    ensures
        st.jump <= s_condicion(t, syms, st)->Ok_0.1.jump,
        labels_exactly(s_condicion(t, syms, st)->Ok_0.0, st.jump, s_condicion(t, syms, st)->Ok_0.1.jump),
        targets_within(s_condicion(t, syms, st)->Ok_0.0, st.jump, s_condicion(t, syms, st)->Ok_0.1.jump),
    decreases t, 0int,
{
    let c = node_at(t, 2)->Ok_0;
    let o = node_at(t, 4)->Ok_0;
    let s = node_at(t, 5)->Ok_0;
    let label = st.jump + 1;
    let ct = crate::semantic::s_comparacion(c)->Ok_0;
    let st0 = GenState { temp: st.temp, jump: label };
    lemma_ordenes_labels(o, syms, st0);
    let (body, st1) = s_ordenes(o, syms, st0)->Ok_0;
    lemma_sig_condicion_labels(label, s, syms, st1);
    let (tail, st2) = s_sig_condicion(label, s, syms, st1)->Ok_0;
    let a = seq![Instr::IfFalse(ct, label)];
    let code = a + body + tail;
    assert(code == s_condicion(t, syms, st)->Ok_0.0);
    assert forall|n: nat| #[trigger] label_count(code, n) == if st.jump < n <= st2.jump {
        1nat
    } else {
        0nat
    } by {
        lemma_label_count_append(a + body, tail, n);
        lemma_label_count_append(a, body, n);
        lemma_label_count_one(a[0], n);
        assert(label_count(body, n) == if label < n <= st1.jump {
            1nat
        } else {
            0nat
        });
    }
    assert forall|k: int| 0 <= k < code.len() && (#[trigger] target(code[k])) is Some implies st.jump < target(
        code[k],
    )->0 <= st2.jump by {
        if k < 1 {
            assert(code[k] == a[k]);
        } else if k < 1 + body.len() {
            assert(code[k] == body[k - 1]);
        } else {
            assert(code[k] == tail[k - 1 - body.len()]);
        }
    }
}


/// A token sequence as the scanner produces it: it ends with the
/// end-of-input token.
pub open spec fn ends_with_eof(toks: Seq<TokenView>) -> bool {
    toks.len() > 0 && toks.last().token_type == TokenType::EOF
}

/// A parse from `pos` stays inside the tokens: a tree leaves the
/// end-of-input token unread, and an error names a token at or after `pos`.
pub open spec fn stays_inside(toks: Seq<TokenView>, pos: int, r: Parsed) -> bool {
    match r {
        Ok((_, n)) => pos + n < toks.len(),
        Err(e) => exists|i: int| pos <= i < toks.len() && #[trigger] toks[i] == e.token,
    }
}

/// Reading a token of kind `k` other than the end of input at `pos` leaves
/// a token to read at `pos + 1`.
proof fn lemma_step(toks: Seq<TokenView>, pos: int, k: TokenType)
    requires
        ends_with_eof(toks),
        0 <= pos < toks.len(),
        kind(toks, pos) == k,
        k != TokenType::EOF,
    ensures
        pos + 1 < toks.len(),
{
    assert(toks[toks.len() - 1] == toks.last());
}

proof fn lemma_missing(toks: Seq<TokenView>, lo: int, pos: int, k: TokenType)
    requires
        0 <= lo <= pos < toks.len(),
    ensures
        stays_inside(toks, lo, Err(missing(toks, pos, k))),
{
    assert(toks[pos] == missing(toks, pos, k).token);
}

proof fn lemma_numeros_inside(toks: Seq<TokenView>, pos: int)
    requires
        ends_with_eof(toks),
        0 <= pos < toks.len(),
    ensures
        stays_inside(toks, pos, p_numeros(toks, pos)),
{
    let k = kind(toks, pos);
    if k == TokenType::Entero || k == TokenType::Real {
        lemma_step(toks, pos, k);
    } else {
        assert(toks[pos] == tok(toks, pos));
    }
}

proof fn lemma_operador_inside(toks: Seq<TokenView>, pos: int)
    requires
        ends_with_eof(toks),
        0 <= pos < toks.len(),
    ensures
        stays_inside(toks, pos, p_operador(toks, pos)),
{
    if kind(toks, pos) == TokenType::Id {
        lemma_step(toks, pos, TokenType::Id);
    } else {
        lemma_numeros_inside(toks, pos);
    }
}

proof fn lemma_factor_inside(toks: Seq<TokenView>, pos: int)
    requires
        ends_with_eof(toks),
        0 <= pos < toks.len(),
    ensures
        stays_inside(toks, pos, p_factor(toks, pos)),
    decreases remaining(toks, pos), 2int,
{
    if kind(toks, pos) == TokenType::ParentesisAbierto {
        lemma_step(toks, pos, TokenType::ParentesisAbierto);
        lemma_expresion_arit_inside(toks, pos + 1);
        if let Ok((_, n)) = p_expresion_arit(toks, pos + 1) {
            let q = pos + 1 + n;
            if kind(toks, q) != TokenType::ParentesisCerrado {
                lemma_missing(toks, pos, q, TokenType::ParentesisCerrado);
            } else {
                lemma_step(toks, q, TokenType::ParentesisCerrado);
            }
        }
    } else {
        lemma_operador_inside(toks, pos);
    }
}

proof fn lemma_rest_term_inside(toks: Seq<TokenView>, pos: int)
    requires
        ends_with_eof(toks),
        0 <= pos < toks.len(),
    ensures
        stays_inside(toks, pos, p_rest_term(toks, pos)),
    decreases remaining(toks, pos), 2int,
{
    if kind(toks, pos) == TokenType::OperadorAritB {
        lemma_step(toks, pos, TokenType::OperadorAritB);
        lemma_factor_inside(toks, pos + 1);
        if let Ok((_, n1)) = p_factor(toks, pos + 1) {
            lemma_rest_term_inside(toks, pos + 1 + n1);
        }
    }
}

proof fn lemma_termino_inside(toks: Seq<TokenView>, pos: int)
    requires
        ends_with_eof(toks),
        0 <= pos < toks.len(),
    ensures
        stays_inside(toks, pos, p_termino(toks, pos)),
    decreases remaining(toks, pos), 3int,
{
    lemma_factor_inside(toks, pos);
    if let Ok((_, n1)) = p_factor(toks, pos) {
        lemma_rest_term_inside(toks, pos + n1);
    }
}

proof fn lemma_rest_expr_inside(toks: Seq<TokenView>, pos: int)
    requires
        ends_with_eof(toks),
        0 <= pos < toks.len(),
    ensures
        stays_inside(toks, pos, p_rest_expr(toks, pos)),
    decreases remaining(toks, pos), 3int,
{
    if kind(toks, pos) == TokenType::OperadorAritA {
        lemma_step(toks, pos, TokenType::OperadorAritA);
        lemma_termino_inside(toks, pos + 1);
        if let Ok((_, n1)) = p_termino(toks, pos + 1) {
            lemma_rest_expr_inside(toks, pos + 1 + n1);
        }
    }
}

proof fn lemma_expresion_arit_inside(toks: Seq<TokenView>, pos: int)
    requires
        ends_with_eof(toks),
        0 <= pos < toks.len(),
    ensures
        stays_inside(toks, pos, p_expresion_arit(toks, pos)),
    decreases remaining(toks, pos), 4int,
{
    lemma_termino_inside(toks, pos);
    if let Ok((_, n1)) = p_termino(toks, pos) {
        lemma_rest_expr_inside(toks, pos + n1);
    }
}

proof fn lemma_comparacion_inside(toks: Seq<TokenView>, pos: int)
    requires
        ends_with_eof(toks),
        0 <= pos < toks.len(),
    ensures
        stays_inside(toks, pos, p_comparacion(toks, pos)),
{
    lemma_operador_inside(toks, pos);
    if let Ok((_, n1)) = p_operador(toks, pos) {
        let q = pos + n1;
        if kind(toks, q) != TokenType::OperadorCondicion {
            lemma_missing(toks, pos, q, TokenType::OperadorCondicion);
        } else {
            lemma_step(toks, q, TokenType::OperadorCondicion);
            lemma_operador_inside(toks, q + 1);
        }
    }
}

proof fn lemma_asignar_inside(toks: Seq<TokenView>, pos: int)
    requires
        ends_with_eof(toks),
        0 <= pos < toks.len(),
    ensures
        stays_inside(toks, pos, p_asignar(toks, pos)),
{
    if kind(toks, pos) != TokenType::Id {
        lemma_missing(toks, pos, pos, TokenType::Id);
    } else {
        lemma_step(toks, pos, TokenType::Id);
        if kind(toks, pos + 1) != TokenType::OperadorAsig {
            lemma_missing(toks, pos, pos + 1, TokenType::OperadorAsig);
        } else {
            lemma_step(toks, pos + 1, TokenType::OperadorAsig);
            lemma_expresion_arit_inside(toks, pos + 2);
        }
    }
}

proof fn lemma_sig_condicion_inside(toks: Seq<TokenView>, pos: int)
    requires
        ends_with_eof(toks),
        0 <= pos < toks.len(),
    ensures
        stays_inside(toks, pos, p_sig_condicion(toks, pos)),
    decreases remaining(toks, pos), 1int,
{
    if kind(toks, pos) == TokenType::Else {
        lemma_step(toks, pos, TokenType::Else);
        lemma_ordenes_inside(toks, pos + 1);
        if let Ok((_, n)) = p_ordenes(toks, pos + 1) {
            let q = pos + 1 + n;
            if kind(toks, q) != TokenType::End {
                lemma_missing(toks, pos, q, TokenType::End);
            } else {
                lemma_step(toks, q, TokenType::End);
            }
        }
    } else if kind(toks, pos) != TokenType::End {
        lemma_missing(toks, pos, pos, TokenType::End);
    } else {
        lemma_step(toks, pos, TokenType::End);
    }
}

proof fn lemma_condicion_inside(toks: Seq<TokenView>, pos: int)
    requires
        ends_with_eof(toks),
        0 <= pos < toks.len(),
    ensures
        stays_inside(toks, pos, p_condicion(toks, pos)),
    decreases remaining(toks, pos), 1int,
{
    if kind(toks, pos) != TokenType::If {
        lemma_missing(toks, pos, pos, TokenType::If);
    } else {
        lemma_step(toks, pos, TokenType::If);
        if kind(toks, pos + 1) != TokenType::ParentesisAbierto {
            lemma_missing(toks, pos, pos + 1, TokenType::ParentesisAbierto);
        } else {
            lemma_step(toks, pos + 1, TokenType::ParentesisAbierto);
            lemma_comparacion_inside(toks, pos + 2);
            if let Ok((_, n1)) = p_comparacion(toks, pos + 2) {
                let q = pos + 2 + n1;
                if kind(toks, q) != TokenType::ParentesisCerrado {
                    lemma_missing(toks, pos, q, TokenType::ParentesisCerrado);
                } else {
                    lemma_step(toks, q, TokenType::ParentesisCerrado);
                    lemma_ordenes_inside(toks, q + 1);
                    if let Ok((_, n2)) = p_ordenes(toks, q + 1) {
                        lemma_sig_condicion_inside(toks, q + 1 + n2);
                    }
                }
            }
        }
    }
}

proof fn lemma_bucle_while_inside(toks: Seq<TokenView>, pos: int)
    requires
        ends_with_eof(toks),
        0 <= pos < toks.len(),
    ensures
        stays_inside(toks, pos, p_bucle_while(toks, pos)),
    decreases remaining(toks, pos), 1int,
{
    if kind(toks, pos) != TokenType::While {
        lemma_missing(toks, pos, pos, TokenType::While);
    } else {
        lemma_step(toks, pos, TokenType::While);
        if kind(toks, pos + 1) != TokenType::ParentesisAbierto {
            lemma_missing(toks, pos, pos + 1, TokenType::ParentesisAbierto);
        } else {
            lemma_step(toks, pos + 1, TokenType::ParentesisAbierto);
            lemma_comparacion_inside(toks, pos + 2);
            if let Ok((_, n1)) = p_comparacion(toks, pos + 2) {
                let q = pos + 2 + n1;
                if kind(toks, q) != TokenType::ParentesisCerrado {
                    lemma_missing(toks, pos, q, TokenType::ParentesisCerrado);
                } else {
                    lemma_step(toks, q, TokenType::ParentesisCerrado);
                    lemma_ordenes_inside(toks, q + 1);
                    if let Ok((_, n2)) = p_ordenes(toks, q + 1) {
                        let r = q + 1 + n2;
                        if kind(toks, r) != TokenType::Endwhile {
                            lemma_missing(toks, pos, r, TokenType::Endwhile);
                        } else {
                            lemma_step(toks, r, TokenType::Endwhile);
                        }
                    }
                }
            }
        }
    }
}

proof fn lemma_orden_inside(toks: Seq<TokenView>, pos: int)
    requires
        ends_with_eof(toks),
        0 <= pos < toks.len(),
    ensures
        stays_inside(toks, pos, p_orden(toks, pos)),
    decreases remaining(toks, pos), 2int,
{
    match kind(toks, pos) {
        TokenType::If => lemma_condicion_inside(toks, pos),
        TokenType::While => lemma_bucle_while_inside(toks, pos),
        TokenType::Id => lemma_asignar_inside(toks, pos),
        _ => {
            assert(toks[pos] == tok(toks, pos));
        },
    }
}

proof fn lemma_sig_ordenes_inside(toks: Seq<TokenView>, pos: int)
    requires
        ends_with_eof(toks),
        0 <= pos < toks.len(),
    ensures
        stays_inside(toks, pos, p_sig_ordenes(toks, pos)),
    decreases remaining(toks, pos), 3int,
{
    if starts_statement(kind(toks, pos)) {
        lemma_orden_inside(toks, pos);
        if let Ok((_, n1)) = p_orden(toks, pos) {
            let q = pos + n1;
            if kind(toks, q) != TokenType::Semicolon {
                lemma_missing(toks, pos, q, TokenType::Semicolon);
            } else {
                lemma_step(toks, q, TokenType::Semicolon);
                lemma_sig_ordenes_inside(toks, q + 1);
            }
        }
    }
}

proof fn lemma_ordenes_inside(toks: Seq<TokenView>, pos: int)
    requires
        ends_with_eof(toks),
        0 <= pos < toks.len(),
    ensures
        stays_inside(toks, pos, p_ordenes(toks, pos)),
    decreases remaining(toks, pos), 3int,
{
    lemma_orden_inside(toks, pos);
    if let Ok((_, n1)) = p_orden(toks, pos) {
        let q = pos + n1;
        if kind(toks, q) != TokenType::Semicolon {
            lemma_missing(toks, pos, q, TokenType::Semicolon);
        } else {
            lemma_step(toks, q, TokenType::Semicolon);
            lemma_sig_ordenes_inside(toks, q + 1);
        }
    }
}

proof fn lemma_sig_lista_variables_inside(toks: Seq<TokenView>, pos: int)
    requires
        ends_with_eof(toks),
        0 <= pos < toks.len(),
    ensures
        stays_inside(toks, pos, p_sig_lista_variables(toks, pos)),
    decreases remaining(toks, pos), 0int,
{
    if kind(toks, pos) == TokenType::Coma {
        lemma_step(toks, pos, TokenType::Coma);
        lemma_lista_variables_inside(toks, pos + 1);
    }
}

proof fn lemma_lista_variables_inside(toks: Seq<TokenView>, pos: int)
    requires
        ends_with_eof(toks),
        0 <= pos < toks.len(),
    ensures
        stays_inside(toks, pos, p_lista_variables(toks, pos)),
    decreases remaining(toks, pos), 1int,
{
    if kind(toks, pos) != TokenType::Id {
        lemma_missing(toks, pos, pos, TokenType::Id);
    } else {
        lemma_step(toks, pos, TokenType::Id);
        lemma_sig_lista_variables_inside(toks, pos + 1);
    }
}

proof fn lemma_declaracion_inside(toks: Seq<TokenView>, pos: int)
    requires
        ends_with_eof(toks),
        0 <= pos < toks.len(),
    ensures
        stays_inside(toks, pos, p_declaracion(toks, pos)),
{
    if kind(toks, pos) != TokenType::Tipo {
        lemma_missing(toks, pos, pos, TokenType::Tipo);
    } else {
        lemma_step(toks, pos, TokenType::Tipo);
        lemma_lista_variables_inside(toks, pos + 1);
    }
}

proof fn lemma_sig_declaraciones_inside(toks: Seq<TokenView>, pos: int)
    requires
        ends_with_eof(toks),
        0 <= pos < toks.len(),
    ensures
        stays_inside(toks, pos, p_sig_declaraciones(toks, pos)),
    decreases remaining(toks, pos),
{
    if kind(toks, pos) == TokenType::Tipo {
        lemma_declaracion_inside(toks, pos);
        if let Ok((_, n1)) = p_declaracion(toks, pos) {
            let q = pos + n1;
            if kind(toks, q) != TokenType::Semicolon {
                lemma_missing(toks, pos, q, TokenType::Semicolon);
            } else {
                lemma_step(toks, q, TokenType::Semicolon);
                lemma_sig_declaraciones_inside(toks, q + 1);
            }
        }
    }
}

proof fn lemma_declaraciones_inside(toks: Seq<TokenView>, pos: int)
    requires
        ends_with_eof(toks),
        0 <= pos < toks.len(),
    ensures
        stays_inside(toks, pos, p_declaraciones(toks, pos)),
{
    lemma_declaracion_inside(toks, pos);
    if let Ok((_, n1)) = p_declaracion(toks, pos) {
        let q = pos + n1;
        if kind(toks, q) != TokenType::Semicolon {
            lemma_missing(toks, pos, q, TokenType::Semicolon);
        } else {
            lemma_step(toks, q, TokenType::Semicolon);
            lemma_sig_declaraciones_inside(toks, q + 1);
        }
    }
}

proof fn lemma_programa_inside(toks: Seq<TokenView>, pos: int)
    requires
        ends_with_eof(toks),
        0 <= pos < toks.len(),
    ensures
        stays_inside(toks, pos, p_programa(toks, pos)),
{
    if kind(toks, pos) != TokenType::Begin {
        lemma_missing(toks, pos, pos, TokenType::Begin);
    } else {
        lemma_step(toks, pos, TokenType::Begin);
        lemma_declaraciones_inside(toks, pos + 1);
        if let Ok((_, n1)) = p_declaraciones(toks, pos + 1) {
            lemma_ordenes_inside(toks, pos + 1 + n1);
            if let Ok((_, n2)) = p_ordenes(toks, pos + 1 + n1) {
                let q = pos + 1 + n1 + n2;
                if kind(toks, q) != TokenType::End {
                    lemma_missing(toks, pos, q, TokenType::End);
                } else {
                    lemma_step(toks, q, TokenType::End);
                }
            }
        }
    }
}

/// A rejected input is reported at a token of the input itself: the error
/// holds that token, with the line and column the scanner gave it.
pub proof fn lemma_syntax_error_names_input_token(toks: Seq<TokenView>)
    requires
        ends_with_eof(toks),
        p_analize(toks) is Err,
    ensures
        exists|i: int| 0 <= i < toks.len() && #[trigger] toks[i] == p_analize(toks)->Err_0.token,
{
    lemma_programa_inside(toks, 0);
    if let Ok((_, n)) = p_programa(toks, 0) {
        assert(toks[n as int] == tok(toks, n as int));
    }
}

/// A program must be followed by the end of the input: a token after a
/// complete program is a syntax error at that token.
pub proof fn lemma_trailing_tokens_rejected(toks: Seq<TokenView>)
    requires
        p_programa(toks, 0) is Ok,
        kind(toks, p_programa(toks, 0)->Ok_0.1 as int) != TokenType::EOF,
    ensures
        p_analize(toks) == Err::<Tree, crate::grammar::SynErr>(
            missing(toks, p_programa(toks, 0)->Ok_0.1 as int, TokenType::EOF),
        ),
{
}

/// A source text whose tokens do not form a program fails to compile with
/// that syntax error, and the error names one of the text's tokens, which
/// carries the line and column of its first character.
pub proof fn lemma_syntax_error_from_source(source: Seq<char>)
    requires
        p_analize(tokens_of(source)) is Err,
    ensures
        compile(source) == Err::<Seq<char>, SemErr>(SemErr::Sintactic(p_analize(tokens_of(source))->Err_0)),
        exists|i: int|
            0 <= i < tokens_of(source).len() && #[trigger] tokens_of(source)[i] == p_analize(
                tokens_of(source),
            )->Err_0.token,
{
    lemma_lex_all_ends_with_eof(source, LexState { pos: 0, line: 1, col: 1 });
    lemma_syntax_error_names_input_token(tokens_of(source));
}


proof fn lemma_numeros_distinct(t: Tree, g: Seq<NodeView>)
    requires
        distinct(g),
        e_numeros(t, g) is Ok,
    ensures
        distinct(e_numeros(t, g)->Ok_0.0),
{
    lemma_add_node_shares(g, num_node(leaf_at(t, 0)->Ok_0));
}

proof fn lemma_operador_distinct(t: Tree, syms: Seq<Key>, g: Seq<NodeView>)
    requires
        distinct(g),
        e_operador(t, syms, g) is Ok,
    ensures
        distinct(e_operador(t, syms, g)->Ok_0.0),
{
    match leaf_at(t, 0) {
        Ok(tok) => lemma_add_node_shares(g, var_node(tok, lookup(syms, tok)->0)),
        Err(_) => lemma_numeros_distinct(node_at(t, 0)->Ok_0, g),
    }
}

proof fn lemma_factor_distinct(t: Tree, syms: Seq<Key>, g: Seq<NodeView>)
    requires
        distinct(g),
        e_factor(t, syms, g) is Ok,
    ensures
        distinct(e_factor(t, syms, g)->Ok_0.0),
    decreases t,
{
    if leaf_at(t, 0) is Ok {
        lemma_expresion_arit_distinct(node_at(t, 1)->Ok_0, syms, g);
    } else {
        lemma_operador_distinct(node_at(t, 0)->Ok_0, syms, g);
    }
}

proof fn lemma_rest_term_distinct(t: Tree, syms: Seq<Key>, g: Seq<NodeView>, prev: nat)
    requires
        distinct(g),
        e_rest_term(t, syms, g, prev) is Ok,
    ensures
        distinct(e_rest_term(t, syms, g, prev)->Ok_0.0),
    decreases t,
{
    if kids(t).len() > 0 {
        let op = leaf_at(t, 0)->Ok_0;
        let f = node_at(t, 1)->Ok_0;
        lemma_factor_distinct(f, syms, g);
        let (g1, fh) = e_factor(f, syms, g)->Ok_0;
        lemma_add_node_shares(g1, op_node(op, prev as u64, fh as u64));
        let (g2, c) = add_node(g1, op_node(op, prev as u64, fh as u64));
        lemma_rest_term_distinct(node_at(t, 2)->Ok_0, syms, g2, c);
    }
}

proof fn lemma_termino_distinct(t: Tree, syms: Seq<Key>, g: Seq<NodeView>)
    requires
        distinct(g),
        e_termino(t, syms, g) is Ok,
    ensures
        distinct(e_termino(t, syms, g)->Ok_0.0),
    decreases t,
{
    let f = node_at(t, 0)->Ok_0;
    lemma_factor_distinct(f, syms, g);
    let (g1, fh) = e_factor(f, syms, g)->Ok_0;
    lemma_rest_term_distinct(node_at(t, 1)->Ok_0, syms, g1, fh);
}

proof fn lemma_rest_expr_distinct(t: Tree, syms: Seq<Key>, g: Seq<NodeView>, prev: nat)
    requires
        distinct(g),
        e_rest_expr(t, syms, g, prev) is Ok,
    ensures
        distinct(e_rest_expr(t, syms, g, prev)->Ok_0.0),
    decreases t,
{
    if kids(t).len() > 0 {
        let op = leaf_at(t, 0)->Ok_0;
        let f = node_at(t, 1)->Ok_0;
        lemma_termino_distinct(f, syms, g);
        let (g1, fh) = e_termino(f, syms, g)->Ok_0;
        lemma_add_node_shares(g1, op_node(op, prev as u64, fh as u64));
        let (g2, c) = add_node(g1, op_node(op, prev as u64, fh as u64));
        lemma_rest_expr_distinct(node_at(t, 2)->Ok_0, syms, g2, c);
    }
}

proof fn lemma_expresion_arit_distinct(t: Tree, syms: Seq<Key>, g: Seq<NodeView>)
    requires
        distinct(g),
        e_expresion_arit(t, syms, g) is Ok,
    ensures
        distinct(e_expresion_arit(t, syms, g)->Ok_0.0),
    decreases t,
{
    let f = node_at(t, 0)->Ok_0;
    lemma_termino_distinct(f, syms, g);
    let (g1, fh) = e_termino(f, syms, g)->Ok_0;
    lemma_rest_expr_distinct(node_at(t, 1)->Ok_0, syms, g1, fh);
}

/// Common subexpressions are shared: in the DAG of any expression that
/// compiles, no two nodes have the same content, so each distinct operand
/// and each distinct operation gets one node and one instruction.
pub proof fn lemma_expression_dag_shares(t: Tree, syms: Seq<Key>)
    requires
        e_expresion_arit(t, syms, Seq::empty()) is Ok,
    ensures
        distinct(e_expresion_arit(t, syms, Seq::empty())->Ok_0.0),
{
    lemma_expresion_arit_distinct(t, syms, Seq::empty());
}

} // verus!

verus! {

/// The parse tree of a term made of one operand node `op`.
pub open spec fn term_of(op: Tree) -> Tree {
    Tree::Node(
        ProductionType::Term,
        seq![Tree::Node(ProductionType::Factor, seq![op]), Tree::Node(ProductionType::RestTerm, seq![])],
    )
}

/// The operand node of a numeral.
pub open spec fn numeral(t: TokenView) -> Tree {
    Tree::Node(ProductionType::Operador, seq![Tree::Node(ProductionType::Numeros, seq![Tree::Leaf(t)])])
}

/// The operand node of a variable.
pub open spec fn variable(t: TokenView) -> Tree {
    Tree::Node(ProductionType::Operador, seq![Tree::Leaf(t)])
}

/// The tail `op term rest` of an expression.
pub open spec fn tail_of(op: TokenView, term: Tree, rest: Tree) -> Tree {
    Tree::Node(ProductionType::RestExp, seq![Tree::Leaf(op), term, rest])
}

pub open spec fn no_tail() -> Tree {
    Tree::Node(ProductionType::RestExp, seq![])
}

/// Adding a node that `g` does not hold appends it.
proof fn lemma_add_new(g: Seq<NodeView>, n: NodeView)
    requires
        forall|j: int| 0 <= j < g.len() ==> g[j] != n,
    ensures
        add_node(g, n) == (g.push(n), g.len()),
{
    lemma_first_index(g, n);
}

/// Adding a node that `g` holds at `i` (and nowhere before) reuses it.
proof fn lemma_add_old(g: Seq<NodeView>, n: NodeView, i: int)
    requires
        0 <= i < g.len(),
        g[i] == n,
        forall|j: int| 0 <= j < i ==> g[j] != n,
    ensures
        add_node(g, n) == (g, i as nat),
{
    lemma_first_index(g, n);
}

proof fn lemma_numeral_term(t: TokenView, syms: Seq<Key>, g: Seq<NodeView>)
    requires
        forall|j: int| 0 <= j < g.len() ==> g[j] != num_node(t),
    ensures
        e_termino(term_of(numeral(t)), syms, g) == Ok::<(Seq<NodeView>, nat), SemErr>(
            (g.push(num_node(t)), g.len()),
        ),
{
    let op = numeral(t);
    let num = Tree::Node(ProductionType::Numeros, seq![Tree::Leaf(t)]);
    assert(kids(op)[0] == num);
    assert(leaf_at(num, 0) == Ok::<TokenView, SemErr>(t));
    lemma_add_new(g, num_node(t));
    assert(e_numeros(num, g) == Ok::<(Seq<NodeView>, nat), SemErr>((g.push(num_node(t)), g.len())));
    assert(e_operador(op, syms, g) == e_numeros(num, g));
    let f = Tree::Node(ProductionType::Factor, seq![op]);
    assert(kids(f)[0] == op);
    assert(e_factor(f, syms, g) == e_operador(op, syms, g));
    let t1 = term_of(op);
    assert(kids(t1)[0] == f);
    assert(kids(t1)[1] == Tree::Node(ProductionType::RestTerm, seq![]));
}

/// Subtraction groups to the left: the DAG of `a - b - c` (numerals with
/// different texts) holds `a`, `b`, `a - b`, `c` and `(a - b) - c`, in that
/// order, and its root is the last.
pub proof fn lemma_subtraction_groups_left(a: TokenView, b: TokenView, c: TokenView, minus: TokenView, syms: Seq<Key>)
    requires
        a.lexeme != b.lexeme,
        a.lexeme != c.lexeme,
        b.lexeme != c.lexeme,
    ensures
        e_expresion_arit(
            Tree::Node(
                ProductionType::ExpresionArit,
                seq![
                    term_of(numeral(a)),
                    tail_of(minus, term_of(numeral(b)), tail_of(minus, term_of(numeral(c)), no_tail())),
                ],
            ),
            syms,
            Seq::empty(),
        ) == Ok::<(Seq<NodeView>, nat), SemErr>(
            (
                seq![num_node(a), num_node(b), op_node(minus, 0, 1), num_node(c), op_node(minus, 2, 3)],
                4,
            ),
        ),
{
    let e0 = Seq::<NodeView>::empty();
    lemma_numeral_term(a, syms, e0);
    let g1 = e0.push(num_node(a));
    lemma_numeral_term(b, syms, g1);
    let g2 = g1.push(num_node(b));
    lemma_add_new(g2, op_node(minus, 0, 1));
    let g3 = g2.push(op_node(minus, 0, 1));
    lemma_numeral_term(c, syms, g3);
    let g4 = g3.push(num_node(c));
    lemma_add_new(g4, op_node(minus, 2, 3));
    let g5 = g4.push(op_node(minus, 2, 3));
    let inner = tail_of(minus, term_of(numeral(c)), no_tail());
    let outer = tail_of(minus, term_of(numeral(b)), inner);
    assert(e_rest_expr(no_tail(), syms, g5, 4) == Ok::<(Seq<NodeView>, nat), SemErr>((g5, 4)));
    assert(kids(inner)[0] == Tree::Leaf(minus));
    assert(kids(inner)[1] == term_of(numeral(c)));
    assert(kids(inner)[2] == no_tail());
    assert(e_rest_expr(inner, syms, g3, 2) == Ok::<(Seq<NodeView>, nat), SemErr>((g5, 4)));
    assert(kids(outer)[0] == Tree::Leaf(minus));
    assert(kids(outer)[1] == term_of(numeral(b)));
    assert(kids(outer)[2] == inner);
    assert(e_rest_expr(outer, syms, g1, 0) == Ok::<(Seq<NodeView>, nat), SemErr>((g5, 4)));
    let t = Tree::Node(ProductionType::ExpresionArit, seq![term_of(numeral(a)), outer]);
    assert(kids(t)[0] == term_of(numeral(a)));
    assert(kids(t)[1] == outer);
    assert(g5 =~= seq![num_node(a), num_node(b), op_node(minus, 0, 1), num_node(c), op_node(minus, 2, 3)]);
}


proof fn lemma_variable_term(t: TokenView, syms: Seq<Key>, g: Seq<NodeView>)
    requires
        lookup(syms, t) is Some,
    ensures
        e_termino(term_of(variable(t)), syms, g) == match e_operador(variable(t), syms, g) {
            Ok((g1, h)) => Ok::<(Seq<NodeView>, nat), SemErr>((g1, h)),
            Err(e) => Err(e),
        },
        e_operador(variable(t), syms, g) == Ok::<(Seq<NodeView>, nat), SemErr>(
            add_node(g, var_node(t, lookup(syms, t)->0)),
        ),
{
    let op = variable(t);
    assert(kids(op)[0] == Tree::Leaf(t));
    let f = Tree::Node(ProductionType::Factor, seq![op]);
    assert(kids(f)[0] == op);
    assert(e_factor(f, syms, g) == e_operador(op, syms, g));
    let t1 = term_of(op);
    assert(kids(t1)[0] == f);
    assert(kids(t1)[1] == Tree::Node(ProductionType::RestTerm, seq![]));
}

/// A repeated operand is computed once: in the DAG of `x + x`, with `x`
/// declared, both operands of `+` are the one node of `x`.
pub proof fn lemma_repeated_operand_shared(x: TokenView, plus: TokenView, syms: Seq<Key>)
    requires
        lookup(syms, x) is Some,
    ensures
        e_expresion_arit(
            Tree::Node(
                ProductionType::ExpresionArit,
                seq![term_of(variable(x)), tail_of(plus, term_of(variable(x)), no_tail())],
            ),
            syms,
            Seq::empty(),
        ) == Ok::<(Seq<NodeView>, nat), SemErr>(
            (seq![var_node(x, lookup(syms, x)->0), op_node(plus, 0, 0)], 1),
        ),
{
    let h = lookup(syms, x)->0;
    let e0 = Seq::<NodeView>::empty();
    lemma_add_new(e0, var_node(x, h));
    lemma_variable_term(x, syms, e0);
    let g1 = e0.push(var_node(x, h));
    lemma_add_old(g1, var_node(x, h), 0);
    lemma_variable_term(x, syms, g1);
    lemma_add_new(g1, op_node(plus, 0, 0));
    let g2 = g1.push(op_node(plus, 0, 0));
    let tail = tail_of(plus, term_of(variable(x)), no_tail());
    assert(e_rest_expr(no_tail(), syms, g2, 1) == Ok::<(Seq<NodeView>, nat), SemErr>((g2, 1)));
    assert(kids(tail)[0] == Tree::Leaf(plus));
    assert(kids(tail)[1] == term_of(variable(x)));
    assert(kids(tail)[2] == no_tail());
    assert(e_rest_expr(tail, syms, g1, 0) == Ok::<(Seq<NodeView>, nat), SemErr>((g2, 1)));
    let t = Tree::Node(ProductionType::ExpresionArit, seq![term_of(variable(x)), tail]);
    assert(kids(t)[0] == term_of(variable(x)));
    assert(kids(t)[1] == tail);
    assert(g2 =~= seq![var_node(x, h), op_node(plus, 0, 0)]);
}

/// The first declaration of a variable fixes its type: declaring it again,
/// with any type, changes neither its index nor its type.
pub proof fn lemma_redeclaration_keeps_type(d: Decls, t: TokenView, ty: VariableType)
    requires
        first_index(d.keys, key_of(t)) is Some,
    ensures
        declare_var(d, t, ty) == d,
{
}

} // verus!
