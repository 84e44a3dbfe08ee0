use vstd::prelude::*;

verus! {

/// The kinds of token the scanner produces.
#[derive(Debug, Clone, Copy, PartialEq, Eq, Hash, Structural)]
pub enum TokenType {
    Tipo,
    Begin,
    End,
    Id,
    Entero,
    Real,
    Coma,
    Punto,
    Semicolon,
    If,
    ParentesisAbierto,
    ParentesisCerrado,
    Else,
    OperadorAritA,
    OperadorAritB,
    OperadorCondicion,
    OperadorAsig,
    While,
    Endwhile,
    EOF,
    Unknown,
}

/// The mathematical content of a token.
pub struct TokenView {
    pub token_type: TokenType,
    pub lexeme: Seq<char>,
    pub line: u32,
    pub col: u32,
}

/// A token with its text and the 1-based position of its first character.
#[derive(Debug)]
pub struct Token {
    pub token_type: TokenType,
    pub lexeme: String,
    pub line: u32,
    pub col: u32,
}

impl View for Token {
    type V = TokenView;

    open spec fn view(&self) -> TokenView {
        TokenView {
            token_type: self.token_type,
            lexeme: self.lexeme@,
            line: self.line,
            col: self.col,
        }
    }
}

impl Clone for Token {
    fn clone(&self) -> (r: Token)
        ensures
            r == *self,
    {
        Token {
            token_type: self.token_type,
            lexeme: self.lexeme.clone(),
            line: self.line,
            col: self.col,
        }
    }
}

/// The human-readable description of a token kind, as used in syntax errors.
pub open spec fn token_type_text(t: TokenType) -> Seq<char> {
    match t {
        TokenType::Tipo => "tipo"@,
        TokenType::Begin => "begin"@,
        TokenType::End => "end"@,
        TokenType::Id => "Id"@,
        TokenType::Entero => "entero"@,
        TokenType::Real => "real"@,
        TokenType::Coma => ","@,
        TokenType::Punto => "."@,
        TokenType::Semicolon => ";"@,
        TokenType::If => "if"@,
        TokenType::ParentesisAbierto => "("@,
        TokenType::ParentesisCerrado => ")"@,
        TokenType::Else => "else"@,
        TokenType::OperadorAritA => "+ o -"@,
        TokenType::OperadorAritB => "/ o *"@,
        TokenType::OperadorCondicion => "operador condicional"@,
        TokenType::OperadorAsig => ":="@,
        TokenType::While => "while"@,
        TokenType::Endwhile => "endwhile"@,
        TokenType::EOF => "EOF"@,
        TokenType::Unknown => "No reconocido"@,
    }
}

pub fn token_type_to_str(token_type: &TokenType) -> (r: String)
    ensures
        r@ == token_type_text(*token_type),
{
    let s = match token_type {
        TokenType::Tipo => "tipo",
        TokenType::Begin => "begin",
        TokenType::End => "end",
        TokenType::Id => "Id",
        TokenType::Entero => "entero",
        TokenType::Real => "real",
        TokenType::Coma => ",",
        TokenType::Punto => ".",
        TokenType::Semicolon => ";",
        TokenType::If => "if",
        TokenType::ParentesisAbierto => "(",
        TokenType::ParentesisCerrado => ")",
        TokenType::Else => "else",
        TokenType::OperadorAritA => "+ o -",
        TokenType::OperadorAritB => "/ o *",
        TokenType::OperadorCondicion => "operador condicional",
        TokenType::OperadorAsig => ":=",
        TokenType::While => "while",
        TokenType::Endwhile => "endwhile",
        TokenType::EOF => "EOF",
        TokenType::Unknown => "No reconocido",
    };
    String::from_str(s)
}

} // verus!
