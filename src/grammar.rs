//! The language's grammar as a deterministic top-down recognizer over a
//! token sequence: each function says, for the nonterminal it is named after,
//! which tree the parser builds from position `pos` and how many tokens that
//! tree spans, or at which token it fails and what it expected there.
use vstd::prelude::*;

use crate::production::{ProductionType, Tree};
use crate::token::{token_type_text, TokenType, TokenView};

verus! {

/// A syntax error: the token that was found and a description of what was
/// expected in its place.
pub struct SynErr {
    pub token: TokenView,
    pub expected: Seq<char>,
}

/// A parse from some position: the tree and the number of tokens it spans.
pub type Parsed = Result<(Tree, nat), SynErr>;

/// The token at `i`; past the end, an end-of-input token.
pub open spec fn tok(toks: Seq<TokenView>, i: int) -> TokenView {
    if 0 <= i < toks.len() {
        toks[i]
    } else {
        TokenView { token_type: TokenType::EOF, lexeme: seq!['\0'], line: 0, col: 0 }
    }
}

/// How many tokens lie at or after `pos`.
pub open spec fn remaining(toks: Seq<TokenView>, pos: int) -> nat {
    if pos < toks.len() {
        (toks.len() - pos) as nat
    } else {
        0
    }
}

pub open spec fn kind(toks: Seq<TokenView>, i: int) -> TokenType {
    tok(toks, i).token_type
}

pub open spec fn leaf(toks: Seq<TokenView>, i: int) -> Tree {
    Tree::Leaf(tok(toks, i))
}

/// The error for a token of kind `k` that was expected at `i`.
pub open spec fn missing(toks: Seq<TokenView>, i: int, k: TokenType) -> SynErr {
    SynErr { token: tok(toks, i), expected: token_type_text(k) }
}

pub open spec fn numeral_expected() -> Seq<char> {
    "número entero o real"@
}

pub open spec fn statement_expected() -> Seq<char> {
    "if, while o una asignación"@
}

pub open spec fn starts_statement(k: TokenType) -> bool {
    k == TokenType::If || k == TokenType::While || k == TokenType::Id
}

/// `numeral := INT | REAL`
pub open spec fn p_numeros(toks: Seq<TokenView>, pos: int) -> Parsed {
    let k = kind(toks, pos);
    if k == TokenType::Entero || k == TokenType::Real {
        Ok((Tree::Node(ProductionType::Numeros, seq![leaf(toks, pos)]), 1))
    } else {
        Err(SynErr { token: tok(toks, pos), expected: numeral_expected() })
    }
}

/// `operand := id | numeral`
pub open spec fn p_operador(toks: Seq<TokenView>, pos: int) -> Parsed {
    if kind(toks, pos) == TokenType::Id {
        Ok((Tree::Node(ProductionType::Operador, seq![leaf(toks, pos)]), 1))
    } else {
        match p_numeros(toks, pos) {
            Err(e) => Err(e),
            Ok((t, n)) => Ok((Tree::Node(ProductionType::Operador, seq![t]), n)),
        }
    }
}

/// `factor := '(' expr ')' | operand`
pub open spec fn p_factor(toks: Seq<TokenView>, pos: int) -> Parsed
    decreases remaining(toks, pos), 2int,
{
    if kind(toks, pos) == TokenType::ParentesisAbierto {
        match p_expresion_arit(toks, pos + 1) {
            Err(e) => Err(e),
            Ok((e1, n)) => {
                let q = pos + 1 + n;
                if kind(toks, q) != TokenType::ParentesisCerrado {
                    Err(missing(toks, q, TokenType::ParentesisCerrado))
                } else {
                    Ok((Tree::Node(ProductionType::Factor, seq![leaf(toks, pos)].push(e1).push(leaf(toks, q))), n + 2))
                }
            },
        }
    } else {
        match p_operador(toks, pos) {
            Err(e) => Err(e),
            Ok((t, n)) => Ok((Tree::Node(ProductionType::Factor, seq![t]), n)),
        }
    }
}

/// `term' := ('*'|'/') factor term' | ε`
pub open spec fn p_rest_term(toks: Seq<TokenView>, pos: int) -> Parsed
    decreases remaining(toks, pos), 2int,
{
    if kind(toks, pos) == TokenType::OperadorAritB {
        match p_factor(toks, pos + 1) {
            Err(e) => Err(e),
            Ok((f, n1)) => match p_rest_term(toks, pos + 1 + n1) {
                Err(e) => Err(e),
                Ok((r, n2)) => Ok(
                    (Tree::Node(ProductionType::RestTerm, seq![leaf(toks, pos)].push(f).push(r)), 1 + n1 + n2),
                ),
            },
        }
    } else {
        Ok((Tree::Node(ProductionType::RestTerm, seq![]), 0))
    }
}

/// `term := factor term'`
pub open spec fn p_termino(toks: Seq<TokenView>, pos: int) -> Parsed
    decreases remaining(toks, pos), 3int,
{
    match p_factor(toks, pos) {
        Err(e) => Err(e),
        Ok((f, n1)) => match p_rest_term(toks, pos + n1) {
            Err(e) => Err(e),
            Ok((r, n2)) => Ok((Tree::Node(ProductionType::Term, seq![f].push(r)), n1 + n2)),
        },
    }
}

/// `expr' := ('+'|'-') term expr' | ε`
pub open spec fn p_rest_expr(toks: Seq<TokenView>, pos: int) -> Parsed
    decreases remaining(toks, pos), 3int,
{
    if kind(toks, pos) == TokenType::OperadorAritA {
        match p_termino(toks, pos + 1) {
            Err(e) => Err(e),
            Ok((t, n1)) => match p_rest_expr(toks, pos + 1 + n1) {
                Err(e) => Err(e),
                Ok((r, n2)) => Ok(
                    (Tree::Node(ProductionType::RestExp, seq![leaf(toks, pos)].push(t).push(r)), 1 + n1 + n2),
                ),
            },
        }
    } else {
        Ok((Tree::Node(ProductionType::RestExp, seq![]), 0))
    }
}

/// `expr := term expr'`
pub open spec fn p_expresion_arit(toks: Seq<TokenView>, pos: int) -> Parsed
    decreases remaining(toks, pos), 4int,
{
    match p_termino(toks, pos) {
        Err(e) => Err(e),
        Ok((t, n1)) => match p_rest_expr(toks, pos + n1) {
            Err(e) => Err(e),
            Ok((r, n2)) => Ok((Tree::Node(ProductionType::ExpresionArit, seq![t].push(r)), n1 + n2)),
        },
    }
}

/// `comparison := operand relOp operand`
pub open spec fn p_comparacion(toks: Seq<TokenView>, pos: int) -> Parsed {
    match p_operador(toks, pos) {
        Err(e) => Err(e),
        Ok((a, n1)) => {
            let q = pos + n1;
            if kind(toks, q) != TokenType::OperadorCondicion {
                Err(missing(toks, q, TokenType::OperadorCondicion))
            } else {
                match p_operador(toks, q + 1) {
                    Err(e) => Err(e),
                    Ok((b, n2)) => Ok(
                        (Tree::Node(ProductionType::Comparacion, seq![a].push(leaf(toks, q)).push(b)), n1 + 1 + n2),
                    ),
                }
            }
        },
    }
}

/// `assignment := id ':=' expr`
pub open spec fn p_asignar(toks: Seq<TokenView>, pos: int) -> Parsed {
    if kind(toks, pos) != TokenType::Id {
        Err(missing(toks, pos, TokenType::Id))
    } else if kind(toks, pos + 1) != TokenType::OperadorAsig {
        Err(missing(toks, pos + 1, TokenType::OperadorAsig))
    } else {
        match p_expresion_arit(toks, pos + 2) {
            Err(e) => Err(e),
            Ok((e1, n)) => Ok(
                (Tree::Node(ProductionType::Asignar, seq![leaf(toks, pos)].push(leaf(toks, pos + 1)).push(e1)), n + 2),
            ),
        }
    }
}

/// `condition' := 'else' statements 'end' | 'end'`
pub open spec fn p_sig_condicion(toks: Seq<TokenView>, pos: int) -> Parsed
    decreases remaining(toks, pos), 1int,
{
    if kind(toks, pos) == TokenType::Else {
        match p_ordenes(toks, pos + 1) {
            Err(e) => Err(e),
            Ok((o, n)) => {
                let q = pos + 1 + n;
                if kind(toks, q) != TokenType::End {
                    Err(missing(toks, q, TokenType::End))
                } else {
                    Ok((Tree::Node(ProductionType::SigCondicion, seq![leaf(toks, pos)].push(o).push(leaf(toks, q))), n + 2))
                }
            },
        }
    } else if kind(toks, pos) != TokenType::End {
        Err(missing(toks, pos, TokenType::End))
    } else {
        Ok((Tree::Node(ProductionType::SigCondicion, seq![leaf(toks, pos)]), 1))
    }
}

/// `condition := 'if' '(' comparison ')' statements condition'`
pub open spec fn p_condicion(toks: Seq<TokenView>, pos: int) -> Parsed
    decreases remaining(toks, pos), 1int,
{
    if kind(toks, pos) != TokenType::If {
        Err(missing(toks, pos, TokenType::If))
    } else if kind(toks, pos + 1) != TokenType::ParentesisAbierto {
        Err(missing(toks, pos + 1, TokenType::ParentesisAbierto))
    } else {
        match p_comparacion(toks, pos + 2) {
            Err(e) => Err(e),
            Ok((c, n1)) => {
                let q = pos + 2 + n1;
                if kind(toks, q) != TokenType::ParentesisCerrado {
                    Err(missing(toks, q, TokenType::ParentesisCerrado))
                } else {
                    match p_ordenes(toks, q + 1) {
                        Err(e) => Err(e),
                        Ok((o, n2)) => match p_sig_condicion(toks, q + 1 + n2) {
                            Err(e) => Err(e),
                            Ok((s, n3)) => Ok(
                                (
                                    Tree::Node(
                                        ProductionType::Condicion,
                                        seq![leaf(toks, pos)].push(leaf(toks, pos + 1)).push(c).push(leaf(toks, q)).push(o).push(s),
                                    ),
                                    n1 + n2 + n3 + 3,
                                ),
                            ),
                        },
                    }
                }
            },
        }
    }
}

/// `while-loop := 'while' '(' comparison ')' statements 'endwhile'`
pub open spec fn p_bucle_while(toks: Seq<TokenView>, pos: int) -> Parsed
    decreases remaining(toks, pos), 1int,
{
    if kind(toks, pos) != TokenType::While {
        Err(missing(toks, pos, TokenType::While))
    } else if kind(toks, pos + 1) != TokenType::ParentesisAbierto {
        Err(missing(toks, pos + 1, TokenType::ParentesisAbierto))
    } else {
        match p_comparacion(toks, pos + 2) {
            Err(e) => Err(e),
            Ok((c, n1)) => {
                let q = pos + 2 + n1;
                if kind(toks, q) != TokenType::ParentesisCerrado {
                    Err(missing(toks, q, TokenType::ParentesisCerrado))
                } else {
                    match p_ordenes(toks, q + 1) {
                        Err(e) => Err(e),
                        Ok((o, n2)) => {
                            let r = q + 1 + n2;
                            if kind(toks, r) != TokenType::Endwhile {
                                Err(missing(toks, r, TokenType::Endwhile))
                            } else {
                                Ok(
                                    (
                                        Tree::Node(
                                            ProductionType::BucleWhile,
                                            seq![leaf(toks, pos)].push(leaf(toks, pos + 1)).push(c).push(leaf(toks, q)).push(o).push(leaf(toks, r)),
                                        ),
                                        n1 + n2 + 4,
                                    ),
                                )
                            }
                        },
                    }
                }
            },
        }
    }
}

/// `statement := condition | while-loop | assignment`, chosen by the first token.
pub open spec fn p_orden(toks: Seq<TokenView>, pos: int) -> Parsed
    decreases remaining(toks, pos), 2int,
{
    let inner = match kind(toks, pos) {
        TokenType::If => p_condicion(toks, pos),
        TokenType::While => p_bucle_while(toks, pos),
        TokenType::Id => p_asignar(toks, pos),
        _ => Err(SynErr { token: tok(toks, pos), expected: statement_expected() }),
    };
    match inner {
        Err(e) => Err(e),
        Ok((c, n)) => Ok((Tree::Node(ProductionType::Orden, seq![c]), n)),
    }
}

/// `statements' := statement ';' statements' | ε`
pub open spec fn p_sig_ordenes(toks: Seq<TokenView>, pos: int) -> Parsed
    decreases remaining(toks, pos), 3int,
{
    if starts_statement(kind(toks, pos)) {
        match p_orden(toks, pos) {
            Err(e) => Err(e),
            Ok((o, n1)) => {
                let q = pos + n1;
                if kind(toks, q) != TokenType::Semicolon {
                    Err(missing(toks, q, TokenType::Semicolon))
                } else {
                    match p_sig_ordenes(toks, q + 1) {
                        Err(e) => Err(e),
                        Ok((s, n2)) => Ok(
                            (Tree::Node(ProductionType::SigOrdenes, seq![o].push(leaf(toks, q)).push(s)), n1 + 1 + n2),
                        ),
                    }
                }
            },
        }
    } else {
        Ok((Tree::Node(ProductionType::SigOrdenes, seq![]), 0))
    }
}

/// `statements := statement ';' statements'`
pub open spec fn p_ordenes(toks: Seq<TokenView>, pos: int) -> Parsed
    decreases remaining(toks, pos), 3int,
{
    match p_orden(toks, pos) {
        Err(e) => Err(e),
        Ok((o, n1)) => {
            let q = pos + n1;
            if kind(toks, q) != TokenType::Semicolon {
                Err(missing(toks, q, TokenType::Semicolon))
            } else {
                match p_sig_ordenes(toks, q + 1) {
                    Err(e) => Err(e),
                    Ok((s, n2)) => Ok(
                        (Tree::Node(ProductionType::Ordenes, seq![o].push(leaf(toks, q)).push(s)), n1 + 1 + n2),
                    ),
                }
            }
        },
    }
}

/// `idlist' := ',' idlist | ε`
pub open spec fn p_sig_lista_variables(toks: Seq<TokenView>, pos: int) -> Parsed
    decreases remaining(toks, pos), 0int,
{
    if kind(toks, pos) == TokenType::Coma {
        match p_lista_variables(toks, pos + 1) {
            Err(e) => Err(e),
            Ok((l, n)) => Ok((Tree::Node(ProductionType::SigListaVariables, seq![leaf(toks, pos)].push(l)), n + 1)),
        }
    } else {
        Ok((Tree::Node(ProductionType::SigListaVariables, seq![]), 0))
    }
}

/// `idlist := id idlist'`
pub open spec fn p_lista_variables(toks: Seq<TokenView>, pos: int) -> Parsed
    decreases remaining(toks, pos), 1int,
{
    if kind(toks, pos) != TokenType::Id {
        Err(missing(toks, pos, TokenType::Id))
    } else {
        match p_sig_lista_variables(toks, pos + 1) {
            Err(e) => Err(e),
            Ok((s, n)) => Ok((Tree::Node(ProductionType::ListaVariables, seq![leaf(toks, pos)].push(s)), n + 1)),
        }
    }
}

/// `declaration := type idlist`
pub open spec fn p_declaracion(toks: Seq<TokenView>, pos: int) -> Parsed {
    if kind(toks, pos) != TokenType::Tipo {
        Err(missing(toks, pos, TokenType::Tipo))
    } else {
        match p_lista_variables(toks, pos + 1) {
            Err(e) => Err(e),
            Ok((l, n)) => Ok((Tree::Node(ProductionType::Declaracion, seq![leaf(toks, pos)].push(l)), n + 1)),
        }
    }
}

/// `declarations' := declaration ';' declarations' | ε`
pub open spec fn p_sig_declaraciones(toks: Seq<TokenView>, pos: int) -> Parsed
    decreases remaining(toks, pos),
{
    if kind(toks, pos) == TokenType::Tipo {
        match p_declaracion(toks, pos) {
            Err(e) => Err(e),
            Ok((d, n1)) => {
                let q = pos + n1;
                if kind(toks, q) != TokenType::Semicolon {
                    Err(missing(toks, q, TokenType::Semicolon))
                } else {
                    match p_sig_declaraciones(toks, q + 1) {
                        Err(e) => Err(e),
                        Ok((s, n2)) => Ok(
                            (
                                Tree::Node(ProductionType::SigDeclaraciones, seq![d].push(leaf(toks, q)).push(s)),
                                n1 + 1 + n2,
                            ),
                        ),
                    }
                }
            },
        }
    } else {
        Ok((Tree::Node(ProductionType::SigDeclaraciones, seq![]), 0))
    }
}

/// `declarations := declaration ';' declarations'`
pub open spec fn p_declaraciones(toks: Seq<TokenView>, pos: int) -> Parsed {
    match p_declaracion(toks, pos) {
        Err(e) => Err(e),
        Ok((d, n1)) => {
            let q = pos + n1;
            if kind(toks, q) != TokenType::Semicolon {
                Err(missing(toks, q, TokenType::Semicolon))
            } else {
                match p_sig_declaraciones(toks, q + 1) {
                    Err(e) => Err(e),
                    Ok((s, n2)) => Ok(
                        (Tree::Node(ProductionType::Declaraciones, seq![d].push(leaf(toks, q)).push(s)), n1 + 1 + n2),
                    ),
                }
            }
        },
    }
}

/// `program := 'begin' declarations statements 'end'`
pub open spec fn p_programa(toks: Seq<TokenView>, pos: int) -> Parsed {
    if kind(toks, pos) != TokenType::Begin {
        Err(missing(toks, pos, TokenType::Begin))
    } else {
        match p_declaraciones(toks, pos + 1) {
            Err(e) => Err(e),
            Ok((d, n1)) => match p_ordenes(toks, pos + 1 + n1) {
                Err(e) => Err(e),
                Ok((o, n2)) => {
                    let q = pos + 1 + n1 + n2;
                    if kind(toks, q) != TokenType::End {
                        Err(missing(toks, q, TokenType::End))
                    } else {
                        Ok(
                            (
                                Tree::Node(ProductionType::Programa, seq![leaf(toks, pos)].push(d).push(o).push(leaf(toks, q))),
                                n1 + n2 + 2,
                            ),
                        )
                    }
                },
            },
        }
    }
}

/// A whole token sequence: a program followed by the end of the input.
pub open spec fn p_analize(toks: Seq<TokenView>) -> Result<Tree, SynErr> {
    match p_programa(toks, 0) {
        Err(e) => Err(e),
        Ok((t, n)) => if kind(toks, n as int) != TokenType::EOF {
            Err(missing(toks, n as int, TokenType::EOF))
        } else {
            Ok(t)
        },
    }
}

} // verus!
