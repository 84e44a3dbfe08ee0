use vstd::prelude::*;
use vstd::string::*;

use crate::token::{Token, TokenType, TokenView};

verus! {

/// The character at `pos`, or `'\0'` past the end of the text.
pub open spec fn char_at(chars: Seq<char>, pos: int) -> char {
    if 0 <= pos < chars.len() {
        chars[pos]
    } else {
        '\0'
    }
}

pub open spec fn is_blank(c: char) -> bool {
    c == '\n' || c == '\t' || c == '\r' || c == ' '
}

pub open spec fn is_digit(c: char) -> bool {
    '0' <= c && c <= '9'
}

pub open spec fn is_alpha(c: char) -> bool {
    ('a' <= c && c <= 'z') || ('A' <= c && c <= 'Z')
}

pub open spec fn is_alnum(c: char) -> bool {
    is_digit(c) || is_alpha(c)
}

/// Where the scanner stands: the index of the current character and its
/// line and column.
pub struct LexState {
    pub pos: int,
    pub line: int,
    pub col: int,
}

/// Reading one more character. The column counts the characters read on a
/// line; a line feed moves to the next line and resets the column to 0, so
/// the character after it stands in column 1.
pub open spec fn advance(chars: Seq<char>, s: LexState) -> LexState {
    if s.pos < chars.len() {
        let p = s.pos + 1;
        let c = char_at(chars, p);
        if c == '\0' {
            LexState { pos: p, line: s.line, col: s.col }
        } else if c == '\n' {
            LexState { pos: p, line: s.line + 1, col: 0 }
        } else {
            LexState { pos: p, line: s.line, col: s.col + 1 }
        }
    } else {
        s
    }
}

pub open spec fn skip_blanks(chars: Seq<char>, s: LexState) -> LexState
    decreases chars.len() - s.pos,
{
    if 0 <= s.pos < chars.len() && is_blank(chars[s.pos]) {
        skip_blanks(chars, advance(chars, s))
    } else {
        s
    }
}

pub open spec fn skip_digits(chars: Seq<char>, s: LexState) -> LexState
    decreases chars.len() - s.pos,
{
    if 0 <= s.pos < chars.len() && is_digit(chars[s.pos]) {
        skip_digits(chars, advance(chars, s))
    } else {
        s
    }
}

pub open spec fn skip_alnums(chars: Seq<char>, s: LexState) -> LexState
    decreases chars.len() - s.pos,
{
    if 0 <= s.pos < chars.len() && is_alnum(chars[s.pos]) {
        skip_alnums(chars, advance(chars, s))
    } else {
        s
    }
}

/// A token of the given kind and text that starts where `s` stands.
pub open spec fn token_at(kind: TokenType, lexeme: Seq<char>, s: LexState) -> TokenView {
    TokenView { token_type: kind, lexeme, line: s.line as u32, col: s.col as u32 }
}

/// The one-character text of the current character (`"\0"` at the end).
pub open spec fn char_text(chars: Seq<char>, pos: int) -> Seq<char> {
    seq![char_at(chars, pos)]
}

pub open spec fn single_char_kind(c: char) -> Option<TokenType> {
    if c == ',' {
        Some(TokenType::Coma)
    } else if c == ';' {
        Some(TokenType::Semicolon)
    } else if c == '(' {
        Some(TokenType::ParentesisAbierto)
    } else if c == ')' {
        Some(TokenType::ParentesisCerrado)
    } else if c == '.' {
        Some(TokenType::Punto)
    } else {
        None
    }
}

/// A numeral: digits, then, where a period is followed by a digit, a
/// fraction. A period that no digit follows is read and dropped.
pub open spec fn lex_number(chars: Seq<char>, s: LexState) -> (TokenView, LexState)
    decreases chars.len() - s.pos,
{
    let s1 = skip_digits(chars, s);
    let whole = chars.subrange(s.pos, s1.pos);
    if char_at(chars, s1.pos) == '.' {
        let s2 = advance(chars, s1);
        if is_digit(char_at(chars, s2.pos)) && s.pos < s2.pos {
            let (rest, s3) = lex_number(chars, s2);
            (token_at(TokenType::Real, whole + seq!['.'] + rest.lexeme, s), s3)
        } else {
            (token_at(TokenType::Entero, whole, s), s2)
        }
    } else {
        (token_at(TokenType::Entero, whole, s), s1)
    }
}

pub open spec fn arith_kind(c: char) -> TokenType {
    if c == '+' || c == '-' {
        TokenType::OperadorAritA
    } else {
        TokenType::OperadorAritB
    }
}

/// A relational operator: `=`, `<`, `>`, then `=` after `<` or `>`, then
/// `>` after `<`.
pub open spec fn lex_relational(chars: Seq<char>, s: LexState) -> (TokenView, LexState) {
    let c = char_at(chars, s.pos);
    let s1 = advance(chars, s);
    let (text1, s2) = if (c == '<' || c == '>') && char_at(chars, s1.pos) == '=' {
        (seq![c, '='], advance(chars, s1))
    } else {
        (seq![c], s1)
    };
    let (text2, s3) = if c == '<' && char_at(chars, s2.pos) == '>' {
        (text1.push('>'), advance(chars, s2))
    } else {
        (text1, s2)
    };
    (token_at(TokenType::OperadorCondicion, text2, s), s3)
}

/// `:=`; a colon without `=` gives an unknown token made of the character
/// after it.
pub open spec fn lex_assign(chars: Seq<char>, s: LexState) -> (TokenView, LexState) {
    let s1 = advance(chars, s);
    if char_at(chars, s1.pos) == '=' {
        (token_at(TokenType::OperadorAsig, seq![':', '='], s), advance(chars, s1))
    } else {
        (token_at(TokenType::Unknown, char_text(chars, s1.pos), s1), s1)
    }
}

pub open spec fn reserved_kind(w: Seq<char>) -> Option<TokenType> {
    if w == "real"@ || w == "entero"@ {
        Some(TokenType::Tipo)
    } else if w == "begin"@ {
        Some(TokenType::Begin)
    } else if w == "end"@ {
        Some(TokenType::End)
    } else if w == "if"@ {
        Some(TokenType::If)
    } else if w == "else"@ {
        Some(TokenType::Else)
    } else if w == "while"@ {
        Some(TokenType::While)
    } else if w == "endwhile"@ {
        Some(TokenType::Endwhile)
    } else {
        None
    }
}

/// A word: an identifier, or a reserved word when its text is one.
pub open spec fn lex_word(chars: Seq<char>, s: LexState) -> (TokenView, LexState) {
    let s1 = skip_alnums(chars, s);
    let w = chars.subrange(s.pos, s1.pos);
    match reserved_kind(w) {
        Some(k) => (token_at(k, w, s), s1),
        None => (token_at(TokenType::Id, w, s), s1),
    }
}

/// The next token after blanks, and where the scanner stands after it.
pub open spec fn lex_token(chars: Seq<char>, s: LexState) -> (TokenView, LexState) {
    let s0 = skip_blanks(chars, s);
    let c = char_at(chars, s0.pos);
    if single_char_kind(c) is Some {
        (token_at(single_char_kind(c)->0, seq![c], s0), advance(chars, s0))
    } else if is_digit(c) {
        lex_number(chars, s0)
    } else if c == ':' {
        lex_assign(chars, s0)
    } else if c == '+' || c == '-' || c == '*' || c == '/' {
        (token_at(arith_kind(c), seq![c], s0), advance(chars, s0))
    } else if c == '=' || c == '<' || c == '>' {
        lex_relational(chars, s0)
    } else if is_alpha(c) {
        lex_word(chars, s0)
    } else if c == '\0' {
        (token_at(TokenType::EOF, seq!['\0'], s0), s0)
    } else {
        (token_at(TokenType::Unknown, seq![c], s0), advance(chars, s0))
    }
}

pub proof fn lemma_skip_blanks_forward(chars: Seq<char>, s: LexState)
    ensures
        skip_blanks(chars, s).pos >= s.pos,
    decreases chars.len() - s.pos,
{
    if 0 <= s.pos < chars.len() && is_blank(chars[s.pos]) {
        lemma_skip_blanks_forward(chars, advance(chars, s));
    }
}

pub proof fn lemma_skip_digits_forward(chars: Seq<char>, s: LexState)
    ensures
        skip_digits(chars, s).pos >= s.pos,
    decreases chars.len() - s.pos,
{
    if 0 <= s.pos < chars.len() && is_digit(chars[s.pos]) {
        lemma_skip_digits_forward(chars, advance(chars, s));
    }
}

/// Whether `s` holds the text `w`.
pub(crate) fn text_is(s: &String, w: &str) -> (r: bool)
    ensures
        r == (s@ == w@),
{
    *s == String::from_str(w)
}

/// The scanner over a text held as characters.
pub struct LexicAnalyzer {
    pub input: String,
    pub chars: Vec<char>,
    pub current: char,
    pub current_line: usize,
    pub current_col: usize,
    pub pos: usize,
}

impl LexicAnalyzer {
    pub open spec fn state(&self) -> LexState {
        LexState { pos: self.pos as int, line: self.current_line as int, col: self.current_col as int }
    }

    pub open spec fn text(&self) -> Seq<char> {
        self.chars@
    }

    pub open spec fn wf(&self) -> bool {
        &&& self.chars@ == self.input@
        &&& self.chars@.len() <= usize::MAX
        &&& self.pos <= self.chars@.len()
        &&& self.current == char_at(self.chars@, self.pos as int)
        &&& 1 <= self.current_line <= self.pos + 1
        &&& self.current_col <= self.pos + 1
    }

    /// Whether `other` scans the same text as `self`.
    pub open spec fn same_text(&self, other: &Self) -> bool {
        &&& other.chars@ == self.chars@
        &&& other.input@ == self.input@
    }

    pub fn new(input: &str) -> (r: LexicAnalyzer)
        ensures
            r.wf(),
            r.text() == input@,
            r.state() == (LexState { pos: 0, line: 1, col: 1 }),
    {
        let n = input.unicode_len();
        let mut chars: Vec<char> = Vec::new();
        let mut i: usize = 0;
        while i < n
            invariant
                n == input@.len(),
                i <= n,
                chars@ == input@.subrange(0, i as int),
            decreases n - i,
        {
            chars.push(input.get_char(i));
            i += 1;
        }
        assert(chars@ == input@);
        let current = if n > 0 {
            chars[0]
        } else {
            '\0'
        };
        LexicAnalyzer {
            input: String::from_str(input),
            chars,
            current,
            current_line: 1,
            current_col: 1,
            pos: 0,
        }
    }

    pub fn next_char(&mut self) -> (r: char)
        requires
            old(self).wf(),
        ensures
            final(self).wf(),
            final(self).same_text(old(self)),
            final(self).state() == advance(old(self).text(), old(self).state()),
            r == final(self).current,
    {
        if self.pos < self.chars.len() {
            self.pos = self.pos + 1;
            let next = if self.pos < self.chars.len() {
                self.chars[self.pos]
            } else {
                '\0'
            };
            if next != '\0' {
                self.current_col = self.current_col + 1;
                if next == '\n' {
                    self.current_line = self.current_line + 1;
                    self.current_col = 0;
                }
            }
            self.current = next;
        }
        self.current
    }

    pub fn skip_empty(&mut self)
        requires
            old(self).wf(),
        ensures
            final(self).wf(),
            final(self).same_text(old(self)),
            final(self).state() == skip_blanks(old(self).text(), old(self).state()),
    {
        while self.current == '\n' || self.current == '\t' || self.current == '\r' || self.current == ' '
            invariant
                self.wf(),
                self.same_text(old(self)),
                skip_blanks(self.text(), self.state()) == skip_blanks(old(self).text(), old(self).state()),
            decreases self.chars@.len() - self.pos,
        {
            self.next_char();
        }
    }

    /// The text of the characters from `start` up to the current one.
    fn text_from(&self, start: usize) -> (r: String)
        requires
            self.wf(),
            start <= self.pos,
        ensures
            r@ == self.text().subrange(start as int, self.pos as int),
    {
        String::from_str(self.input.as_str().substring_char(start, self.pos))
    }

    /// The current character as a one-character text.
    fn current_text(&self) -> (r: String)
        requires
            self.wf(),
        ensures
            r@ == char_text(self.text(), self.pos as int),
    {
        if self.pos < self.chars.len() {
            String::from_str(self.input.as_str().substring_char(self.pos, self.pos + 1))
        } else {
            proof {
                reveal_strlit("\0");
                assert("\0"@ =~= seq!['\0']);
            }
            String::from_str("\0")
        }
    }

    fn token_here(&self, token_type: TokenType, lexeme: String) -> (r: Token)
        requires
            self.wf(),
        ensures
            r@ == token_at(token_type, lexeme@, self.state()),
    {
        Token {
            token_type,
            lexeme,
            line: #[verifier::truncate] (self.current_line as u32),
            col: #[verifier::truncate] (self.current_col as u32),
        }
    }

    pub fn single_character_token(&mut self) -> (r: Option<Token>)
        requires
            old(self).wf(),
        ensures
            final(self).wf(),
            final(self).same_text(old(self)),
            match single_char_kind(old(self).current) {
                Some(k) => r is Some && r->0@ == token_at(k, seq![old(self).current], old(self).state())
                    && final(self).state() == advance(old(self).text(), old(self).state()),
                None => r is None && final(self).state() == old(self).state(),
            },
    {
        let token_type = match self.current {
            ',' => Some(TokenType::Coma),
            ';' => Some(TokenType::Semicolon),
            '(' => Some(TokenType::ParentesisAbierto),
            ')' => Some(TokenType::ParentesisCerrado),
            '.' => Some(TokenType::Punto),
            _ => None,
        };
        if let Some(token_type) = token_type {
            let lexeme = self.current_text();
            let token = self.token_here(token_type, lexeme);
            self.next_char();
            return Some(token);
        }
        None
    }


    /// Reads a numeral (see `lex_number`).
    pub fn number(&mut self) -> (r: Token)
        requires
            old(self).wf(),
        ensures
            final(self).wf(),
            final(self).same_text(old(self)),
            (r@, final(self).state()) == lex_number(old(self).text(), old(self).state()),
            final(self).pos >= old(self).pos,
            is_digit(old(self).current) ==> final(self).pos > old(self).pos,
        decreases old(self).chars@.len() - old(self).pos, 0int,
    {
        let start = self.pos;
        let start_line = self.current_line;
        let start_col = self.current_col;
        while '0' <= self.current && self.current <= '9'
            invariant
                self.wf(),
                self.same_text(old(self)),
                start <= self.pos,
                skip_digits(self.text(), self.state()) == skip_digits(old(self).text(), old(self).state()),
            decreases self.chars@.len() - self.pos,
        {
            self.next_char();
        }
        let token = Token {
            token_type: TokenType::Entero,
            lexeme: self.text_from(start),
            line: #[verifier::truncate] (start_line as u32),
            col: #[verifier::truncate] (start_col as u32),
        };
        if self.current == '.' {
            let c = self.next_char();
            if '0' <= c && c <= '9' {
                return self.real_number(token);
            }
        }
        token
    }

    /// Reads the fraction of a numeral whose whole part is `number`.
    pub fn real_number(&mut self, number: Token) -> (r: Token)
        requires
            old(self).wf(),
        ensures
            final(self).wf(),
            final(self).same_text(old(self)),
            ({
                let (rest, s) = lex_number(old(self).text(), old(self).state());
                &&& final(self).state() == s
                &&& r@ == (TokenView {
                    token_type: TokenType::Real,
                    lexeme: number@.lexeme + seq!['.'] + rest.lexeme,
                    line: number.line,
                    col: number.col,
                })
            }),
            final(self).pos >= old(self).pos,
        decreases old(self).chars@.len() - old(self).pos, 1int,
    {
        let rest = self.number();
        let mut lexeme = number.lexeme;
        lexeme.append(".");
        proof {
            reveal_strlit(".");
            assert("."@ =~= seq!['.']);
        }
        lexeme.append(rest.lexeme.as_str());
        Token { token_type: TokenType::Real, lexeme, line: number.line, col: number.col }
    }

    pub fn operator(&mut self) -> (r: Token)
        requires
            old(self).wf(),
        ensures
            final(self).wf(),
            final(self).same_text(old(self)),
            r@ == token_at(arith_kind(old(self).current), seq![old(self).current], old(self).state()),
            final(self).state() == advance(old(self).text(), old(self).state()),
    {
        let token_type = if self.current == '+' || self.current == '-' {
            TokenType::OperadorAritA
        } else {
            TokenType::OperadorAritB
        };
        let lexeme = self.current_text();
        let token = self.token_here(token_type, lexeme);
        self.next_char();
        token
    }

    pub fn logic_operator(&mut self) -> (r: Token)
        requires
            old(self).wf(),
            old(self).pos < old(self).chars@.len(),
        ensures
            final(self).wf(),
            final(self).same_text(old(self)),
            (r@, final(self).state()) == lex_relational(old(self).text(), old(self).state()),
    {
        let mut lexeme = self.current_text();
        let line = #[verifier::truncate] (self.current_line as u32);
        let col = #[verifier::truncate] (self.current_col as u32);
        let current = self.current;
        self.next_char();
        if current == '>' || current == '<' {
            if self.current == '=' {
                proof {
                    reveal_strlit("=");
                    assert(lexeme@ + "="@ =~= seq![current, '=']);
                }
                lexeme.append("=");
                self.next_char();
            }
        }
        if current == '<' && self.current == '>' {
            proof {
                reveal_strlit(">");
                assert(lexeme@ + ">"@ =~= lexeme@.push('>'));
            }
            lexeme.append(">");
            self.next_char();
        }
        Token { token_type: TokenType::OperadorCondicion, lexeme, line, col }
    }

    pub fn asign_operator(&mut self) -> (r: Token)
        requires
            old(self).wf(),
            old(self).current == ':',
        ensures
            final(self).wf(),
            final(self).same_text(old(self)),
            (r@, final(self).state()) == lex_assign(old(self).text(), old(self).state()),
    {
        let line = #[verifier::truncate] (self.current_line as u32);
        let col = #[verifier::truncate] (self.current_col as u32);
        if self.next_char() == '=' {
            self.next_char();
            proof {
                reveal_strlit(":=");
                assert(":="@ =~= seq![':', '=']);
            }
            return Token { token_type: TokenType::OperadorAsig, lexeme: String::from_str(":="), line, col };
        }
        let lexeme = self.current_text();
        self.token_here(TokenType::Unknown, lexeme)
    }

    pub fn identifier(&mut self) -> (r: Token)
        requires
            old(self).wf(),
        ensures
            final(self).wf(),
            final(self).same_text(old(self)),
            final(self).state() == skip_alnums(old(self).text(), old(self).state()),
            r@ == token_at(
                TokenType::Id,
                old(self).text().subrange(old(self).pos as int, final(self).pos as int),
                old(self).state(),
            ),
            final(self).pos >= old(self).pos,
            is_alpha(old(self).current) ==> final(self).pos > old(self).pos,
    {
        let start = self.pos;
        let line = #[verifier::truncate] (self.current_line as u32);
        let col = #[verifier::truncate] (self.current_col as u32);
        while ('0' <= self.current && self.current <= '9') || ('a' <= self.current && self.current <= 'z') || ('A'
            <= self.current && self.current <= 'Z')
            invariant
                self.wf(),
                self.same_text(old(self)),
                start <= self.pos,
                skip_alnums(self.text(), self.state()) == skip_alnums(old(self).text(), old(self).state()),
            decreases self.chars@.len() - self.pos,
        {
            self.next_char();
        }
        Token { token_type: TokenType::Id, lexeme: self.text_from(start), line, col }
    }

    pub fn reserved_word(id_token: &Token) -> (r: Option<Token>)
        ensures
            match reserved_kind(id_token.lexeme@) {
                Some(k) => r is Some && r->0@ == (TokenView { token_type: k, ..id_token@ }),
                None => r is None,
            },
    {
        let w = &id_token.lexeme;
        let token_type = if text_is(w, "real") || text_is(w, "entero") {
            Some(TokenType::Tipo)
        } else if text_is(w, "begin") {
            Some(TokenType::Begin)
        } else if text_is(w, "end") {
            Some(TokenType::End)
        } else if text_is(w, "if") {
            Some(TokenType::If)
        } else if text_is(w, "else") {
            Some(TokenType::Else)
        } else if text_is(w, "while") {
            Some(TokenType::While)
        } else if text_is(w, "endwhile") {
            Some(TokenType::Endwhile)
        } else {
            None
        };
        if let Some(token_type) = token_type {
            let mut token = id_token.clone();
            token.token_type = token_type;
            return Some(token);
        }
        None
    }

    /// Skips blanks and reads one token (see `lex_token`). At the end of the
    /// text it keeps returning the end-of-input token; every other token
    /// moves the scanner forward.
    pub fn next_token(&mut self) -> (r: Token)
        requires
            old(self).wf(),
        ensures
            final(self).wf(),
            final(self).same_text(old(self)),
            (r@, final(self).state()) == lex_token(old(self).text(), old(self).state()),
            final(self).pos >= old(self).pos,
            r.token_type != TokenType::EOF ==> final(self).pos > old(self).pos,
    {
        self.skip_empty();
        proof {
            lemma_skip_blanks_forward(old(self).text(), old(self).state());
        }
        if let Some(token) = self.single_character_token() {
            return token;
        }
        let c = self.current;
        if '0' <= c && c <= '9' {
            let t = self.number();
            proof {
                lemma_skip_digits_forward(self.text(), self.state());
            }
            return t;
        } else if c == ':' {
            return self.asign_operator();
        } else if c == '+' || c == '-' || c == '*' || c == '/' {
            return self.operator();
        } else if c == '=' || c == '<' || c == '>' {
            return self.logic_operator();
        } else if ('a' <= c && c <= 'z') || ('A' <= c && c <= 'Z') {
            let token = self.identifier();
            if let Some(reserved) = LexicAnalyzer::reserved_word(&token) {
                return reserved;
            }
            return token;
        } else if c == '\0' {
            proof {
                reveal_strlit("\0");
                assert("\0"@ =~= seq!['\0']);
            }
            return self.token_here(TokenType::EOF, String::from_str("\0"));
        } else {
            let lexeme = self.current_text();
            let token = self.token_here(TokenType::Unknown, lexeme);
            self.next_char();
            return token;
        }
    }

} // impl LexicAnalyzer


/// The tokens of a text from `s` on, up to and including the end-of-input
/// token.
pub open spec fn lex_all(chars: Seq<char>, s: LexState) -> Seq<TokenView>
    decreases chars.len() - s.pos,
{
    let (t, s1) = lex_token(chars, s);
    if t.token_type == TokenType::EOF || !(s.pos < s1.pos <= chars.len()) {
        seq![t]
    } else {
        seq![t] + lex_all(chars, s1)
    }
}


/// Reading a character moves forward by at most one, and never past the end.
pub proof fn lemma_advance_bounds(chars: Seq<char>, s: LexState)
    requires
        0 <= s.pos <= chars.len(),
    ensures
        s.pos <= advance(chars, s).pos <= chars.len(),
        s.pos < chars.len() ==> advance(chars, s).pos == s.pos + 1,
{
}

pub proof fn lemma_skip_blanks_bounds(chars: Seq<char>, s: LexState)
    requires
        0 <= s.pos <= chars.len(),
    ensures
        s.pos <= skip_blanks(chars, s).pos <= chars.len(),
    decreases chars.len() - s.pos,
{
    if 0 <= s.pos < chars.len() && is_blank(chars[s.pos]) {
        lemma_skip_blanks_bounds(chars, advance(chars, s));
    }
}

pub proof fn lemma_skip_digits_bounds(chars: Seq<char>, s: LexState)
    requires
        0 <= s.pos <= chars.len(),
    ensures
        s.pos <= skip_digits(chars, s).pos <= chars.len(),
        is_digit(char_at(chars, s.pos)) ==> s.pos < skip_digits(chars, s).pos,
    decreases chars.len() - s.pos,
{
    if 0 <= s.pos < chars.len() && is_digit(chars[s.pos]) {
        lemma_skip_digits_bounds(chars, advance(chars, s));
    }
}

pub proof fn lemma_skip_alnums_bounds(chars: Seq<char>, s: LexState)
    requires
        0 <= s.pos <= chars.len(),
    ensures
        s.pos <= skip_alnums(chars, s).pos <= chars.len(),
        is_alnum(char_at(chars, s.pos)) ==> s.pos < skip_alnums(chars, s).pos,
    decreases chars.len() - s.pos,
{
    if 0 <= s.pos < chars.len() && is_alnum(chars[s.pos]) {
        lemma_skip_alnums_bounds(chars, advance(chars, s));
    }
}

pub proof fn lemma_lex_number_bounds(chars: Seq<char>, s: LexState)
    requires
        0 <= s.pos <= chars.len(),
    ensures
        s.pos <= lex_number(chars, s).1.pos <= chars.len(),
        is_digit(char_at(chars, s.pos)) ==> s.pos < lex_number(chars, s).1.pos,
    decreases chars.len() - s.pos,
{
    lemma_skip_digits_bounds(chars, s);
    let s1 = skip_digits(chars, s);
    if char_at(chars, s1.pos) == '.' {
        lemma_advance_bounds(chars, s1);
        let s2 = advance(chars, s1);
        if is_digit(char_at(chars, s2.pos)) && s.pos < s2.pos {
            lemma_lex_number_bounds(chars, s2);
        }
    }
}

/// Every token but the end-of-input token moves the scanner forward, and
/// the scanner never passes the end of the text.
pub proof fn lemma_lex_token_progress(chars: Seq<char>, s: LexState)
    requires
        0 <= s.pos <= chars.len(),
    ensures
        lex_token(chars, s).1.pos <= chars.len(),
        lex_token(chars, s).0.token_type != TokenType::EOF ==> s.pos < lex_token(chars, s).1.pos,
{
    lemma_skip_blanks_bounds(chars, s);
    let s0 = skip_blanks(chars, s);
    let c = char_at(chars, s0.pos);
    lemma_advance_bounds(chars, s0);
    if single_char_kind(c) is Some {
    } else if is_digit(c) {
        lemma_lex_number_bounds(chars, s0);
    } else if c == ':' {
        lemma_advance_bounds(chars, advance(chars, s0));
    } else if c == '+' || c == '-' || c == '*' || c == '/' {
    } else if c == '=' || c == '<' || c == '>' {
        let s1 = advance(chars, s0);
        lemma_advance_bounds(chars, s1);
        lemma_advance_bounds(chars, advance(chars, s1));
        lemma_advance_bounds(chars, advance(chars, advance(chars, s1)));
    } else if is_alpha(c) {
        lemma_skip_alnums_bounds(chars, s0);
    }
}

/// The tokens of any text end with the end-of-input token.
pub proof fn lemma_lex_all_ends_with_eof(chars: Seq<char>, s: LexState)
    requires
        0 <= s.pos <= chars.len(),
    ensures
        lex_all(chars, s).len() > 0,
        lex_all(chars, s).last().token_type == TokenType::EOF,
    decreases chars.len() - s.pos,
{
    lemma_lex_token_progress(chars, s);
    let (t, s1) = lex_token(chars, s);
    if t.token_type != TokenType::EOF {
        lemma_lex_all_ends_with_eof(chars, s1);
        assert((seq![t] + lex_all(chars, s1)).last() == lex_all(chars, s1).last());
    }
}

/// The tokens of a whole text.
pub open spec fn tokens_of(chars: Seq<char>) -> Seq<TokenView> {
    lex_all(chars, LexState { pos: 0, line: 1, col: 1 })
}

} // verus!
