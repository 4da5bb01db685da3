use vstd::prelude::*;

use crate::chars::{same_text, text};

verus! {

/// The lexical alphabet of the language.
#[derive(Debug, PartialEq, Eq, Structural, Hash, Copy, Clone)]
pub enum TokenType {
    ILLEGAL,
    EOF,
    ASSIGN,
    PLUS,
    MINUS,
    BANG,
    ASTERISK,
    SLASH,
    LT,
    GT,
    COMMA,
    SEMICOLON,
    LPAREN,
    RPAREN,
    LBRACE,
    RBRACE,
    EQ,
    NotEq,
    IDENT,
    INT,
    LET,
    FUNCTION,
    IF,
    ELSE,
    RETURN,
    TRUE,
    FALSE,
}

/// A token kind together with the source text it was read from.
#[derive(Debug, Clone)]
pub struct Token {
    pub literal: String,
    pub token_type: TokenType,
}

impl TokenType {
    /// The name of the kind, as messages show it.
    pub open spec fn spec_name(self) -> Seq<char> {
        match self {
            TokenType::ILLEGAL => "ILLEGAL"@,
            TokenType::EOF => "EOF"@,
            TokenType::ASSIGN => "ASSIGN"@,
            TokenType::PLUS => "PLUS"@,
            TokenType::MINUS => "MINUS"@,
            TokenType::BANG => "BANG"@,
            TokenType::ASTERISK => "ASTERISK"@,
            TokenType::SLASH => "SLASH"@,
            TokenType::LT => "LT"@,
            TokenType::GT => "GT"@,
            TokenType::COMMA => "COMMA"@,
            TokenType::SEMICOLON => "SEMICOLON"@,
            TokenType::LPAREN => "LPAREN"@,
            TokenType::RPAREN => "RPAREN"@,
            TokenType::LBRACE => "LBRACE"@,
            TokenType::RBRACE => "RBRACE"@,
            TokenType::EQ => "EQ"@,
            TokenType::NotEq => "NOT_EQ"@,
            TokenType::IDENT => "IDENT"@,
            TokenType::INT => "INT"@,
            TokenType::LET => "LET"@,
            TokenType::FUNCTION => "FUNCTION"@,
            TokenType::IF => "IF"@,
            TokenType::ELSE => "ELSE"@,
            TokenType::RETURN => "RETURN"@,
            TokenType::TRUE => "TRUE"@,
            TokenType::FALSE => "FALSE"@,
        }
    }

    /// The name of the kind, as messages show it.
    pub fn name(&self) -> (r: String)
        ensures
            r@ == self.spec_name(),
    {
        match self {
            TokenType::ILLEGAL => text("ILLEGAL"),
            TokenType::EOF => text("EOF"),
            TokenType::ASSIGN => text("ASSIGN"),
            TokenType::PLUS => text("PLUS"),
            TokenType::MINUS => text("MINUS"),
            TokenType::BANG => text("BANG"),
            TokenType::ASTERISK => text("ASTERISK"),
            TokenType::SLASH => text("SLASH"),
            TokenType::LT => text("LT"),
            TokenType::GT => text("GT"),
            TokenType::COMMA => text("COMMA"),
            TokenType::SEMICOLON => text("SEMICOLON"),
            TokenType::LPAREN => text("LPAREN"),
            TokenType::RPAREN => text("RPAREN"),
            TokenType::LBRACE => text("LBRACE"),
            TokenType::RBRACE => text("RBRACE"),
            TokenType::EQ => text("EQ"),
            TokenType::NotEq => text("NOT_EQ"),
            TokenType::IDENT => text("IDENT"),
            TokenType::INT => text("INT"),
            TokenType::LET => text("LET"),
            TokenType::FUNCTION => text("FUNCTION"),
            TokenType::IF => text("IF"),
            TokenType::ELSE => text("ELSE"),
            TokenType::RETURN => text("RETURN"),
            TokenType::TRUE => text("TRUE"),
            TokenType::FALSE => text("FALSE"),
        }
    }
}

impl Token {
    /// A copy of this token, equal to it.
    pub fn copy(&self) -> (r: Token)
        ensures
            r == *self,
    {
        Token { literal: self.literal.clone(), token_type: self.token_type }
    }
}

/// The kind of a single-character symbol, if it is one.
pub open spec fn symbol_kind(c: char) -> Option<TokenType> {
    if c == '=' {
        Some(TokenType::ASSIGN)
    } else if c == ';' {
        Some(TokenType::SEMICOLON)
    } else if c == '(' {
        Some(TokenType::LPAREN)
    } else if c == ')' {
        Some(TokenType::RPAREN)
    } else if c == '{' {
        Some(TokenType::LBRACE)
    } else if c == '}' {
        Some(TokenType::RBRACE)
    } else if c == ',' {
        Some(TokenType::COMMA)
    } else if c == '+' {
        Some(TokenType::PLUS)
    } else if c == '-' {
        Some(TokenType::MINUS)
    } else if c == '!' {
        Some(TokenType::BANG)
    } else if c == '*' {
        Some(TokenType::ASTERISK)
    } else if c == '/' {
        Some(TokenType::SLASH)
    } else if c == '<' {
        Some(TokenType::LT)
    } else if c == '>' {
        Some(TokenType::GT)
    } else {
        None
    }
}

/// The kind of a word: a keyword's own kind, or `IDENT`.
pub open spec fn keyword_kind(w: Seq<char>) -> TokenType {
    if w == seq!['f', 'n'] {
        TokenType::FUNCTION
    } else if w == seq!['l', 'e', 't'] {
        TokenType::LET
    } else if w == seq!['i', 'f'] {
        TokenType::IF
    } else if w == seq!['e', 'l', 's', 'e'] {
        TokenType::ELSE
    } else if w == seq!['r', 'e', 't', 'u', 'r', 'n'] {
        TokenType::RETURN
    } else if w == seq!['t', 'r', 'u', 'e'] {
        TokenType::TRUE
    } else if w == seq!['f', 'a', 'l', 's', 'e'] {
        TokenType::FALSE
    } else {
        TokenType::IDENT
    }
}

/// Maps a character to the kind of the one-character symbol it spells.
pub fn lookup_char(ch: Option<char>) -> (r: Option<TokenType>)
    ensures
        r == (match ch {
            Some(c) => symbol_kind(c),
            None => None,
        }),
{
    match ch {
        None => None,
        Some(c) => match c {
            '=' => Some(TokenType::ASSIGN),
            ';' => Some(TokenType::SEMICOLON),
            '(' => Some(TokenType::LPAREN),
            ')' => Some(TokenType::RPAREN),
            '{' => Some(TokenType::LBRACE),
            '}' => Some(TokenType::RBRACE),
            ',' => Some(TokenType::COMMA),
            '+' => Some(TokenType::PLUS),
            '-' => Some(TokenType::MINUS),
            '!' => Some(TokenType::BANG),
            '*' => Some(TokenType::ASTERISK),
            '/' => Some(TokenType::SLASH),
            '<' => Some(TokenType::LT),
            '>' => Some(TokenType::GT),
            _ => None,
        },
    }
}

/// Maps a word to its keyword kind, or to `IDENT` when it is no keyword.
pub fn lookup_keyword(literal: &str) -> (r: TokenType)
    ensures
        r == keyword_kind(literal@),
{
    proof {
        reveal_strlit("fn");
        reveal_strlit("let");
        reveal_strlit("if");
        reveal_strlit("else");
        reveal_strlit("return");
        reveal_strlit("true");
        reveal_strlit("false");
        assert("fn"@ =~= seq!['f', 'n']);
        assert("let"@ =~= seq!['l', 'e', 't']);
        assert("if"@ =~= seq!['i', 'f']);
        assert("else"@ =~= seq!['e', 'l', 's', 'e']);
        assert("return"@ =~= seq!['r', 'e', 't', 'u', 'r', 'n']);
        assert("true"@ =~= seq!['t', 'r', 'u', 'e']);
        assert("false"@ =~= seq!['f', 'a', 'l', 's', 'e']);
    }
    if same_text(literal, "fn") {
        TokenType::FUNCTION
    } else if same_text(literal, "let") {
        TokenType::LET
    } else if same_text(literal, "if") {
        TokenType::IF
    } else if same_text(literal, "else") {
        TokenType::ELSE
    } else if same_text(literal, "return") {
        TokenType::RETURN
    } else if same_text(literal, "true") {
        TokenType::TRUE
    } else if same_text(literal, "false") {
        TokenType::FALSE
    } else {
        TokenType::IDENT
    }
}

} // verus!
