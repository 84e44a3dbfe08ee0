use vstd::prelude::*;

use crate::grammar::{
    kind, leaf, missing, numeral_expected, p_analize, p_asignar, p_bucle_while, p_comparacion, p_condicion,
    p_declaracion, p_declaraciones, p_expresion_arit, p_factor, p_lista_variables, p_numeros, p_operador,
    p_orden, p_ordenes, p_programa, p_rest_expr, p_rest_term, p_sig_condicion, p_sig_declaraciones,
    p_sig_lista_variables, p_sig_ordenes, p_termino, remaining, starts_statement, statement_expected,
    Parsed, SynErr,
};
use crate::lexic::{lex_all, tokens_of, LexicAnalyzer};
use crate::production::{Production, ProductionType, Tree};
use crate::semantic::code::{decimal, push_decimal};
use crate::token::{token_type_to_str, Token, TokenType, TokenView};

verus! {

/// A syntax error: the token found and what was expected in its place.
#[derive(Debug)]
pub struct SintacticError {
    pub token: Token,
    pub expected: String,
}

impl View for SintacticError {
    type V = SynErr;

    open spec fn view(&self) -> SynErr {
        SynErr { token: self.token@, expected: self.expected@ }
    }
}

impl Clone for SintacticError {
    fn clone(&self) -> (r: SintacticError)
        ensures
            r == *self,
    {
        SintacticError { token: self.token.clone(), expected: self.expected.clone() }
    }
}

/// The text of a syntax error.
pub open spec fn syntax_message(e: SynErr) -> Seq<char> {
    "Caracter inesperado '"@ + e.token.lexeme + "', en la linea "@ + decimal(e.token.line as nat)
        + " columna "@ + decimal(e.token.col as nat) + ", se esperaba: '"@ + e.expected + "'"@
}

impl SintacticError {
    /// The text of this error (see `syntax_message`).
    pub fn message(&self) -> (r: String)
        ensures
            r@ == syntax_message(self@),
    {
        let mut out = String::from_str("Caracter inesperado '");
        out.append(self.token.lexeme.as_str());
        out.append("', en la linea ");
        push_decimal(&mut out, self.token.line as u64);
        out.append(" columna ");
        push_decimal(&mut out, self.token.col as u64);
        out.append(", se esperaba: '");
        out.append(self.expected.as_str());
        out.append("'");
        out
    }

    pub fn new(token: &Token, expected: &str) -> (r: SintacticError)
        ensures
            r@ == (SynErr { token: token@, expected: expected@ }),
    {
        SintacticError { expected: String::from_str(expected), token: token.clone() }
    }
}

pub type ItermediateRep = Production;

pub type SintacticResult = Result<ItermediateRep, SintacticError>;

/// What a parse from `start` that stopped at `end` amounts to.
pub open spec fn outcome(r: SintacticResult, start: int, end: int) -> Parsed {
    match r {
        Ok(p) => Ok((p@, (end - start) as nat)),
        Err(e) => Err(e@),
    }
}

/// The recursive-descent parser. It holds the tokens of its input, the last
/// of which marks the end of the input, and the position of the lookahead.
pub struct SintacticAnalyzer {
    pub tokens: Vec<Token>,
    pub current: usize,
}

impl SintacticAnalyzer {
    pub open spec fn toks(&self) -> Seq<TokenView> {
        self.tokens@.map_values(|t: Token| t@)
    }

    pub open spec fn wf(&self) -> bool {
        &&& self.tokens@.len() > 0
        &&& self.tokens@.last().token_type == TokenType::EOF
        &&& self.current < self.tokens@.len()
    }

    /// `after` is this parser after a parse that returned `r`, and `r` is
    /// what the grammar gives from this parser's position.
    pub open spec fn parses(&self, after: &Self, r: SintacticResult, expected: Parsed) -> bool {
        &&& after.wf()
        &&& after.same_tokens(self)
        &&& after.current >= self.current
        &&& expected == outcome(r, self.current as int, after.current as int)
    }

    /// The parser stands on the same tokens as `other`.
    pub open spec fn same_tokens(&self, other: &Self) -> bool {
        self.tokens@ == other.tokens@
    }

    pub fn new(input: &str) -> (r: SintacticAnalyzer)
        ensures
            r.wf(),
            r.toks() == tokens_of(input@),
            r.current == 0,
    {
        let mut lexic = LexicAnalyzer::new(input);
        let ghost chars = input@;
        let ghost start = lexic.state();
        let mut tokens: Vec<Token> = Vec::new();
        let mut done = false;
        while !done
            invariant
                lexic.wf(),
                lexic.text() == chars,
                !done ==> tokens@.map_values(|t: Token| t@) + lex_all(chars, lexic.state()) == lex_all(
                    chars,
                    start,
                ),
                done ==> tokens@.map_values(|t: Token| t@) == lex_all(chars, start),
                done ==> tokens@.len() > 0 && tokens@.last().token_type == TokenType::EOF,
            decreases chars.len() - lexic.pos + (if done { 0int } else { 1int }),
        {
            let ghost before = lexic.state();
            let ghost old_tokens = tokens@;
            let t = lexic.next_token();
            done = t.token_type == TokenType::EOF;
            tokens.push(t);
            proof {
                assert(tokens@.map_values(|t: Token| t@) =~= old_tokens.map_values(|t: Token| t@).push(
                    tokens@.last()@,
                ));
                if done {
                    assert(lex_all(chars, before) == seq![tokens@.last()@]);
                } else {
                    assert(lex_all(chars, before) == seq![tokens@.last()@] + lex_all(chars, lexic.state()));
                }
                assert(old_tokens.map_values(|t: Token| t@).push(tokens@.last()@) =~= old_tokens.map_values(
                    |t: Token| t@,
                ) + seq![tokens@.last()@]);
            }
        }
        SintacticAnalyzer { tokens, current: 0 }
    }

    /// Moves the lookahead to the next token; at the end of the input it
    /// stays on the end-of-input token.
    pub fn next_token(&mut self)
        requires
            old(self).wf(),
        ensures
            final(self).wf(),
            final(self).same_tokens(old(self)),
            final(self).current == if old(self).current + 1 < old(self).tokens@.len() {
                old(self).current + 1
            } else {
                old(self).current as int
            },
    {
        if self.current < self.tokens.len() - 1 {
            self.current = self.current + 1;
        }
    }

    /// Whether the lookahead is of kind `token_type`.
    pub fn is_last(&self, token_type: &TokenType) -> (r: Result<(), SintacticError>)
        requires
            self.wf(),
        ensures
            match r {
                Ok(_) => kind(self.toks(), self.current as int) == *token_type,
                Err(e) => kind(self.toks(), self.current as int) != *token_type && e@ == missing(
                    self.toks(),
                    self.current as int,
                    *token_type,
                ),
            },
    {
        if *token_type != self.tokens[self.current].token_type {
            let expected = token_type_to_str(token_type);
            return Err(SintacticError::new(&self.tokens[self.current], expected.as_str()));
        } else {
            return Ok(());
        }
    }

    /// Appends the lookahead to `production` and moves on, if it is of
    /// kind `token_type`; otherwise fails and changes nothing.
    pub fn push_token_if(&mut self, token_type: &TokenType, production: &mut Production) -> (r: Result<
        (),
        SintacticError,
    >)
        requires
            old(self).wf(),
        ensures
            final(self).wf(),
            final(self).same_tokens(old(self)),
            match r {
                Ok(_) => {
                    &&& kind(old(self).toks(), old(self).current as int) == *token_type
                    &&& final(self).current == if old(self).current + 1 < old(self).tokens@.len() {
                        old(self).current + 1
                    } else {
                        old(self).current as int
                    }
                    &&& *token_type != TokenType::EOF ==> final(self).current == old(self).current + 1
                    &&& final(production).production_type == old(production).production_type
                    &&& final(production).children() == old(production).children().push(
                        leaf(old(self).toks(), old(self).current as int),
                    )
                    &&& final(production)@ == Tree::Node(
                        old(production).production_type,
                        old(production).children().push(leaf(old(self).toks(), old(self).current as int)),
                    )
                },
                Err(e) => {
                    &&& kind(old(self).toks(), old(self).current as int) != *token_type
                    &&& e@ == missing(old(self).toks(), old(self).current as int, *token_type)
                    &&& final(self).current == old(self).current
                    &&& *final(production) == *old(production)
                },
            },
    {
        if let Err(e) = self.is_last(token_type) {
            return Err(e);
        }
        production.push_leaf(self.tokens[self.current].clone());
        proof {
            let last = (self.tokens@.len() - 1) as int;
            assert(self.toks()[last] == self.tokens@.last()@);
            assert(self.toks()[self.current as int] == self.tokens@[self.current as int]@);
        }
        self.next_token();
        Ok(())
    }

    pub fn sig_lista_variables(&mut self) -> (r: SintacticResult)
        requires
            old(self).wf(),
        ensures
            old(self).parses(final(self), r, p_sig_lista_variables(old(self).toks(), old(self).current as int)),
        decreases remaining(old(self).toks(), old(self).current as int), 0int,
    {
        let mut prod = Production::new(ProductionType::SigListaVariables);
        if let Ok(_) = self.push_token_if(&TokenType::Coma, &mut prod) {
            let sub = match self.lista_variables() {
                Ok(p) => p,
                Err(e) => return Err(e),
            };
            prod.push_node(sub);
        }
        Ok(prod)
    }

    pub fn lista_variables(&mut self) -> (r: SintacticResult)
        requires
            old(self).wf(),
        ensures
            old(self).parses(final(self), r, p_lista_variables(old(self).toks(), old(self).current as int)),
        decreases remaining(old(self).toks(), old(self).current as int), 1int,
    {
        let mut prod = Production::new(ProductionType::ListaVariables);
        if let Err(e) = self.push_token_if(&TokenType::Id, &mut prod) {
            return Err(e);
        }

        let sub = match self.sig_lista_variables() {
            Ok(p) => p,
            Err(e) => return Err(e),
        };
        prod.push_node(sub);
        Ok(prod)
    }

    pub fn declaracion(&mut self) -> (r: SintacticResult)
        requires
            old(self).wf(),
        ensures
            old(self).parses(final(self), r, p_declaracion(old(self).toks(), old(self).current as int)),
    {
        let mut prod = Production::new(ProductionType::Declaracion);
        if let Err(e) = self.push_token_if(&TokenType::Tipo, &mut prod) {
            return Err(e);
        }
        let sub = match self.lista_variables() {
            Ok(p) => p,
            Err(e) => return Err(e),
        };
        prod.push_node(sub);
        Ok(prod)
    }

    pub fn sig_declaraciones(&mut self) -> (r: SintacticResult)
        requires
            old(self).wf(),
        ensures
            old(self).parses(final(self), r, p_sig_declaraciones(old(self).toks(), old(self).current as int)),
        decreases remaining(old(self).toks(), old(self).current as int), 0int,
    {
        let mut prod = Production::new(ProductionType::SigDeclaraciones);
        if self.tokens[self.current].token_type == TokenType::Tipo {
            let sub = match self.declaracion() {
                Ok(p) => p,
                Err(e) => return Err(e),
            };
            prod.push_node(sub);
            if let Err(e) = self.push_token_if(&TokenType::Semicolon, &mut prod) {
                return Err(e);
            }
            let sub = match self.sig_declaraciones() {
                Ok(p) => p,
                Err(e) => return Err(e),
            };
            prod.push_node(sub);
        }
        Ok(prod)
    }

    pub fn declaraciones(&mut self) -> (r: SintacticResult)
        requires
            old(self).wf(),
        ensures
            old(self).parses(final(self), r, p_declaraciones(old(self).toks(), old(self).current as int)),
    {
        let mut prod = Production::new(ProductionType::Declaraciones);
        let sub = match self.declaracion() {
            Ok(p) => p,
            Err(e) => return Err(e),
        };
        prod.push_node(sub);
        if let Err(e) = self.push_token_if(&TokenType::Semicolon, &mut prod) {
            return Err(e);
        }
        let sub = match self.sig_declaraciones() {
            Ok(p) => p,
            Err(e) => return Err(e),
        };
        prod.push_node(sub);
        Ok(prod)
    }

    pub fn sig_ordenes(&mut self) -> (r: SintacticResult)
        requires
            old(self).wf(),
        ensures
            old(self).parses(final(self), r, p_sig_ordenes(old(self).toks(), old(self).current as int)),
        decreases remaining(old(self).toks(), old(self).current as int), 3int,
    {
        let mut prod = Production::new(ProductionType::SigOrdenes);
        if self.is_orden() {
            let sub = match self.orden() {
                Ok(p) => p,
                Err(e) => return Err(e),
            };
            prod.push_node(sub);
            if let Err(e) = self.push_token_if(&TokenType::Semicolon, &mut prod) {
                return Err(e);
            }
            let sub = match self.sig_ordenes() {
                Ok(p) => p,
                Err(e) => return Err(e),
            };
            prod.push_node(sub);
        }
        Ok(prod)
    }

    pub fn sig_condicion(&mut self) -> (r: SintacticResult)
        requires
            old(self).wf(),
        ensures
            old(self).parses(final(self), r, p_sig_condicion(old(self).toks(), old(self).current as int)),
        decreases remaining(old(self).toks(), old(self).current as int), 1int,
    {
        let mut prod = Production::new(ProductionType::SigCondicion);
        if let Ok(_) = self.push_token_if(&TokenType::Else, &mut prod) {
            let sub = match self.ordenes() {
                Ok(p) => p,
                Err(e) => return Err(e),
            };
            prod.push_node(sub);
        }
        if let Err(e) = self.push_token_if(&TokenType::End, &mut prod) {
            return Err(e);
        }
        Ok(prod)
    }

    pub fn numeros(&mut self) -> (r: SintacticResult)
        requires
            old(self).wf(),
        ensures
            old(self).parses(final(self), r, p_numeros(old(self).toks(), old(self).current as int)),
            kind(old(self).toks(), old(self).current as int) != TokenType::Entero && kind(
                old(self).toks(),
                old(self).current as int,
            ) != TokenType::Real ==> r is Err && final(self).current == old(self).current,
    {
        let k = self.tokens[self.current].token_type;
        if k == TokenType::Entero || k == TokenType::Real {
            let mut prod = Production::new(ProductionType::Numeros);
            prod.push_leaf(self.tokens[self.current].clone());
            self.next_token();
            return Ok(prod);
        }
        let expected = "número entero o real";
        proof {
            assert(expected@ == numeral_expected());
        }
        Err(SintacticError::new(&self.tokens[self.current], expected))
    }

    pub fn operador(&mut self) -> (r: SintacticResult)
        requires
            old(self).wf(),
        ensures
            old(self).parses(final(self), r, p_operador(old(self).toks(), old(self).current as int)),
    {
        let mut prod = Production::new(ProductionType::Operador);
        if let Ok(_) = self.push_token_if(&TokenType::Id, &mut prod) {
            return Ok(prod);
        }
        let sub = match self.numeros() {
            Ok(p) => p,
            Err(e) => return Err(e),
        };
        prod.push_node(sub);
        Ok(prod)
    }

    pub fn comparacion(&mut self) -> (r: SintacticResult)
        requires
            old(self).wf(),
        ensures
            old(self).parses(final(self), r, p_comparacion(old(self).toks(), old(self).current as int)),
    {
        let mut prod = Production::new(ProductionType::Comparacion);
        let sub = match self.operador() {
            Ok(p) => p,
            Err(e) => return Err(e),
        };
        prod.push_node(sub);
        if let Err(e) = self.push_token_if(&TokenType::OperadorCondicion, &mut prod) {
            return Err(e);
        }
        let sub = match self.operador() {
            Ok(p) => p,
            Err(e) => return Err(e),
        };
        prod.push_node(sub);
        Ok(prod)
    }

    pub fn condicion(&mut self) -> (r: SintacticResult)
        requires
            old(self).wf(),
        ensures
            old(self).parses(final(self), r, p_condicion(old(self).toks(), old(self).current as int)),
        decreases remaining(old(self).toks(), old(self).current as int), 1int,
    {
        let mut prod = Production::new(ProductionType::Condicion);
        if let Err(e) = self.push_token_if(&TokenType::If, &mut prod) {
            return Err(e);
        }
        if let Err(e) = self.push_token_if(&TokenType::ParentesisAbierto, &mut prod) {
            return Err(e);
        }
        let sub = match self.comparacion() {
            Ok(p) => p,
            Err(e) => return Err(e),
        };
        prod.push_node(sub);
        if let Err(e) = self.push_token_if(&TokenType::ParentesisCerrado, &mut prod) {
            return Err(e);
        }
        let sub = match self.ordenes() {
            Ok(p) => p,
            Err(e) => return Err(e),
        };
        prod.push_node(sub);
        let sub = match self.sig_condicion() {
            Ok(p) => p,
            Err(e) => return Err(e),
        };
        prod.push_node(sub);
        Ok(prod)
    }

    pub fn bucle_while(&mut self) -> (r: SintacticResult)
        requires
            old(self).wf(),
        ensures
            old(self).parses(final(self), r, p_bucle_while(old(self).toks(), old(self).current as int)),
        decreases remaining(old(self).toks(), old(self).current as int), 1int,
    {
        let mut prod = Production::new(ProductionType::BucleWhile);
        if let Err(e) = self.push_token_if(&TokenType::While, &mut prod) {
            return Err(e);
        }
        if let Err(e) = self.push_token_if(&TokenType::ParentesisAbierto, &mut prod) {
            return Err(e);
        }
        let sub = match self.comparacion() {
            Ok(p) => p,
            Err(e) => return Err(e),
        };
        prod.push_node(sub);
        if let Err(e) = self.push_token_if(&TokenType::ParentesisCerrado, &mut prod) {
            return Err(e);
        }
        let sub = match self.ordenes() {
            Ok(p) => p,
            Err(e) => return Err(e),
        };
        prod.push_node(sub);
        if let Err(e) = self.push_token_if(&TokenType::Endwhile, &mut prod) {
            return Err(e);
        }
        Ok(prod)
    }

    pub fn factor(&mut self) -> (r: SintacticResult)
        requires
            old(self).wf(),
        ensures
            old(self).parses(final(self), r, p_factor(old(self).toks(), old(self).current as int)),
        decreases remaining(old(self).toks(), old(self).current as int), 2int,
    {
        let mut prod = Production::new(ProductionType::Factor);
        if let Ok(_) = self.push_token_if(&TokenType::ParentesisAbierto, &mut prod) {
            let sub = match self.expresion_arit() {
                Ok(p) => p,
                Err(e) => return Err(e),
            };
            prod.push_node(sub);
            if let Err(e) = self.push_token_if(&TokenType::ParentesisCerrado, &mut prod) {
                return Err(e);
            }
            return Ok(prod);
        }
        let sub = match self.operador() {
            Ok(p) => p,
            Err(e) => return Err(e),
        };
        prod.push_node(sub);
        Ok(prod)
    }

    pub fn rest_term(&mut self) -> (r: SintacticResult)
        requires
            old(self).wf(),
        ensures
            old(self).parses(final(self), r, p_rest_term(old(self).toks(), old(self).current as int)),
        decreases remaining(old(self).toks(), old(self).current as int), 2int,
    {
        let mut prod = Production::new(ProductionType::RestTerm);
        if let Ok(_) = self.push_token_if(&TokenType::OperadorAritB, &mut prod) {
            let sub = match self.factor() {
                Ok(p) => p,
                Err(e) => return Err(e),
            };
            prod.push_node(sub);
            let sub = match self.rest_term() {
                Ok(p) => p,
                Err(e) => return Err(e),
            };
            prod.push_node(sub);
        }
        Ok(prod)
    }

    pub fn termino(&mut self) -> (r: SintacticResult)
        requires
            old(self).wf(),
        ensures
            old(self).parses(final(self), r, p_termino(old(self).toks(), old(self).current as int)),
        decreases remaining(old(self).toks(), old(self).current as int), 3int,
    {
        let mut prod = Production::new(ProductionType::Term);
        let sub = match self.factor() {
            Ok(p) => p,
            Err(e) => return Err(e),
        };
        prod.push_node(sub);
        let sub = match self.rest_term() {
            Ok(p) => p,
            Err(e) => return Err(e),
        };
        prod.push_node(sub);
        Ok(prod)
    }

    pub fn rest_expr(&mut self) -> (r: SintacticResult)
        requires
            old(self).wf(),
        ensures
            old(self).parses(final(self), r, p_rest_expr(old(self).toks(), old(self).current as int)),
        decreases remaining(old(self).toks(), old(self).current as int), 3int,
    {
        let mut prod = Production::new(ProductionType::RestExp);
        if let Ok(_) = self.push_token_if(&TokenType::OperadorAritA, &mut prod) {
            let sub = match self.termino() {
                Ok(p) => p,
                Err(e) => return Err(e),
            };
            prod.push_node(sub);
            let sub = match self.rest_expr() {
                Ok(p) => p,
                Err(e) => return Err(e),
            };
            prod.push_node(sub);
        }
        Ok(prod)
    }

    pub fn expresion_arit(&mut self) -> (r: SintacticResult)
        requires
            old(self).wf(),
        ensures
            old(self).parses(final(self), r, p_expresion_arit(old(self).toks(), old(self).current as int)),
        decreases remaining(old(self).toks(), old(self).current as int), 4int,
    {
        let mut prod = Production::new(ProductionType::ExpresionArit);
        let sub = match self.termino() {
            Ok(p) => p,
            Err(e) => return Err(e),
        };
        prod.push_node(sub);
        let sub = match self.rest_expr() {
            Ok(p) => p,
            Err(e) => return Err(e),
        };
        prod.push_node(sub);
        Ok(prod)
    }

    pub fn asignar(&mut self) -> (r: SintacticResult)
        requires
            old(self).wf(),
        ensures
            old(self).parses(final(self), r, p_asignar(old(self).toks(), old(self).current as int)),
    {
        let mut prod = Production::new(ProductionType::Asignar);
        if let Err(e) = self.push_token_if(&TokenType::Id, &mut prod) {
            return Err(e);
        }
        if let Err(e) = self.push_token_if(&TokenType::OperadorAsig, &mut prod) {
            return Err(e);
        }
        let sub = match self.expresion_arit() {
            Ok(p) => p,
            Err(e) => return Err(e),
        };
        prod.push_node(sub);
        Ok(prod)
    }

    pub fn is_orden(&self) -> (r: bool)
        requires
            self.wf(),
        ensures
            r == starts_statement(kind(self.toks(), self.current as int)),
    {
        match self.tokens[self.current].token_type {
            TokenType::If => true,
            TokenType::While => true,
            TokenType::Id => true,
            _ => false,
        }
    }

    pub fn orden(&mut self) -> (r: SintacticResult)
        requires
            old(self).wf(),
        ensures
            old(self).parses(final(self), r, p_orden(old(self).toks(), old(self).current as int)),
            !starts_statement(kind(old(self).toks(), old(self).current as int)) ==> (r is Err
                && final(self).current == old(self).current),
        decreases remaining(old(self).toks(), old(self).current as int), 2int,
    {
        let content = match self.tokens[self.current].token_type {
            TokenType::If => self.condicion(),
            TokenType::While => self.bucle_while(),
            TokenType::Id => self.asignar(),
            _ => {
                let expected = "if, while o una asignación";
                proof {
                    assert(expected@ == statement_expected());
                }
                Err(SintacticError::new(&self.tokens[self.current], expected))
            },
        };
        let content = match content {
            Ok(p) => p,
            Err(e) => return Err(e),
        };
        let mut prod = Production::new(ProductionType::Orden);
        prod.push_node(content);
        Ok(prod)
    }

    pub fn ordenes(&mut self) -> (r: SintacticResult)
        requires
            old(self).wf(),
        ensures
            old(self).parses(final(self), r, p_ordenes(old(self).toks(), old(self).current as int)),
        decreases remaining(old(self).toks(), old(self).current as int), 3int,
    {
        let mut prod = Production::new(ProductionType::Ordenes);
        let sub = match self.orden() {
            Ok(p) => p,
            Err(e) => return Err(e),
        };
        prod.push_node(sub);
        if let Err(e) = self.push_token_if(&TokenType::Semicolon, &mut prod) {
            return Err(e);
        }
        let sub = match self.sig_ordenes() {
            Ok(p) => p,
            Err(e) => return Err(e),
        };
        prod.push_node(sub);
        Ok(prod)
    }

    pub fn programa(&mut self) -> (r: SintacticResult)
        requires
            old(self).wf(),
        ensures
            old(self).parses(final(self), r, p_programa(old(self).toks(), old(self).current as int)),
    {
        let mut prod = Production::new(ProductionType::Programa);
        if let Err(e) = self.push_token_if(&TokenType::Begin, &mut prod) {
            return Err(e);
        }
        let sub = match self.declaraciones() {
            Ok(p) => p,
            Err(e) => return Err(e),
        };
        prod.push_node(sub);
        let sub = match self.ordenes() {
            Ok(p) => p,
            Err(e) => return Err(e),
        };
        prod.push_node(sub);
        if let Err(e) = self.push_token_if(&TokenType::End, &mut prod) {
            return Err(e);
        }
        Ok(prod)
    }

    /// Parses the whole input from its first token: a program, then the
    /// end of the input.
    pub fn analize(&mut self) -> (r: SintacticResult)
        requires
            old(self).wf(),
        ensures
            final(self).wf(),
            p_analize(old(self).toks()) == match r {
                Ok(p) => Ok(p@),
                Err(e) => Err(e@),
            },
    {
        self.current = 0;
        let production = match self.programa() {
            Ok(p) => p,
            Err(e) => return Err(e),
        };
        if let Err(e) = self.is_last(&TokenType::EOF) {
            return Err(e);
        }
        Ok(production)
    }

} // impl SintacticAnalyzer

} // verus!
