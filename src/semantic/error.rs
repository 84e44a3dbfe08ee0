use vstd::prelude::*;

use crate::grammar::SynErr;
use crate::production::{production_type_text, production_type_to_str, Production, Tree};
use crate::semantic::code::{decimal, push_decimal};
use crate::sintactic::{syntax_message, SintacticError};
use crate::token::{Token, TokenView};

verus! {

/// The mathematical form of a semantic error.
pub enum SemErr {
    Sintactic(SynErr),
    Undefined(TokenView),
    BadFormat(Tree),
    Unexpected(TokenView),
}

/// What went wrong: a syntax error, an operand naming an undeclared
/// variable, a node of an unexpected shape, or a token where a node was
/// expected.
#[derive(Debug)]
pub enum SemanticErrorType {
    Sintactic(SintacticError),
    Undefined(Token),
    BadFormat(Production),
    Unexpected(Token),
}

#[derive(Debug)]
pub struct SemanticError {
    pub error_type: SemanticErrorType,
}

impl View for SemanticError {
    type V = SemErr;

    open spec fn view(&self) -> SemErr {
        match &self.error_type {
            SemanticErrorType::Sintactic(e) => SemErr::Sintactic(e@),
            SemanticErrorType::Undefined(t) => SemErr::Undefined(t@),
            SemanticErrorType::BadFormat(p) => SemErr::BadFormat(p@),
            SemanticErrorType::Unexpected(t) => SemErr::Unexpected(t@),
        }
    }
}

/// `<text>'<lexeme>' en la linea <line> columna <col>` and a line feed.
pub open spec fn located(text: Seq<char>, t: TokenView) -> Seq<char> {
    text + t.lexeme + "' en la linea "@ + decimal(t.line as nat) + " columna "@ + decimal(t.col as nat) + "\n"@
}

/// The text of a semantic error.
pub open spec fn semantic_message(e: SemErr) -> Seq<char> {
    match e {
        SemErr::BadFormat(t) => "Producción con formato inesperado "@ + match t {
            Tree::Node(ty, _) => production_type_text(ty),
            Tree::Leaf(_) => Seq::empty(),
        },
        SemErr::Undefined(t) => located("Utilizacion de una variable no declarada '"@, t),
        SemErr::Unexpected(t) => located("Caracter inesperado '"@, t),
        SemErr::Sintactic(s) => syntax_message(s),
    }
}

fn push_located(out: &mut String, t: &Token)
    ensures
        final(out)@ == located(old(out)@, t@),
{
    out.append(t.lexeme.as_str());
    out.append("' en la linea ");
    push_decimal(out, t.line as u64);
    out.append(" columna ");
    push_decimal(out, t.col as u64);
    out.append("\n");
}

impl SemanticError {
    /// The text of this error (see `semantic_message`).
    pub fn message(&self) -> (r: String)
        ensures
            r@ == semantic_message(self@),
    {
        match &self.error_type {
            SemanticErrorType::BadFormat(prod) => {
                let mut out = String::from_str("Producción con formato inesperado ");
                out.append(production_type_to_str(&prod.production_type).as_str());
                out
            },
            SemanticErrorType::Undefined(token) => {
                let mut out = String::from_str("Utilizacion de una variable no declarada '");
                push_located(&mut out, token);
                out
            },
            SemanticErrorType::Unexpected(token) => {
                let mut out = String::from_str("Caracter inesperado '");
                push_located(&mut out, token);
                out
            },
            SemanticErrorType::Sintactic(sintactic) => sintactic.message(),
        }
    }

    pub fn from_sintactic(error: SintacticError) -> (r: SemanticError)
        ensures
            r@ == SemErr::Sintactic(error@),
    {
        SemanticError { error_type: SemanticErrorType::Sintactic(error) }
    }

    pub fn from_undefined(token: Token) -> (r: SemanticError)
        ensures
            r@ == SemErr::Undefined(token@),
    {
        SemanticError { error_type: SemanticErrorType::Undefined(token) }
    }

    pub fn from_format(production: Production) -> (r: SemanticError)
        ensures
            r@ == SemErr::BadFormat(production@),
    {
        SemanticError { error_type: SemanticErrorType::BadFormat(production) }
    }

    pub fn from_unexpected(token: Token) -> (r: SemanticError)
        ensures
            r@ == SemErr::Unexpected(token@),
    {
        SemanticError { error_type: SemanticErrorType::Unexpected(token) }
    }
}

} // verus!
