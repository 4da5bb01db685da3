use vstd::prelude::*;

use crate::chars::{chars_of, is_digit, is_letter, is_space, letter, push_char, whitespace};
use crate::token::{keyword_kind, lookup_char, lookup_keyword, symbol_kind, Token, TokenType};

verus! {

/// The character at `i`, or `None` past the end.
pub open spec fn char_at(s: Seq<char>, i: int) -> Option<char> {
    if 0 <= i < s.len() {
        Some(s[i])
    } else {
        None
    }
}

/// The first position at or after `i` that holds no whitespace.
pub open spec fn skip_spaces(s: Seq<char>, i: nat) -> nat
    decreases s.len() - i,
{
    if i < s.len() && is_space(s[i as int]) {
        skip_spaces(s, i + 1)
    } else {
        i
    }
}

/// The end of the run of letters that starts at `i`.
pub open spec fn scan_letters(s: Seq<char>, i: nat) -> nat
    decreases s.len() - i,
{
    if i < s.len() && is_letter(s[i as int]) {
        scan_letters(s, i + 1)
    } else {
        i
    }
}

/// The end of the run of digits that starts at `i`.
pub open spec fn scan_digits(s: Seq<char>, i: nat) -> nat
    decreases s.len() - i,
{
    if i < s.len() && is_digit(s[i as int]) {
        scan_digits(s, i + 1)
    } else {
        i
    }
}

/// The token that starts exactly at `i`: its kind, its text, and where the next one may start.
pub open spec fn lex_at(s: Seq<char>, i: nat) -> (TokenType, Seq<char>, nat) {
    if i >= s.len() {
        (TokenType::EOF, Seq::empty(), i)
    } else {
        let c = s[i as int];
        if c == '=' && i + 1 < s.len() && s[i as int + 1] == '=' {
            (TokenType::EQ, s.subrange(i as int, i as int + 2), i + 2)
        } else if c == '!' && i + 1 < s.len() && s[i as int + 1] == '=' {
            (TokenType::NotEq, s.subrange(i as int, i as int + 2), i + 2)
        } else if symbol_kind(c) is Some {
            (symbol_kind(c)->0, seq![c], i + 1)
        } else if is_letter(c) {
            let j = scan_letters(s, i);
            (keyword_kind(s.subrange(i as int, j as int)), s.subrange(i as int, j as int), j)
        } else if is_digit(c) {
            let j = scan_digits(s, i);
            (TokenType::INT, s.subrange(i as int, j as int), j)
        } else {
            (TokenType::ILLEGAL, seq![c], i + 1)
        }
    }
}

/// The next token read with the cursor at `i`: whitespace first, then one token.
pub open spec fn next_lexeme(s: Seq<char>, i: nat) -> (TokenType, Seq<char>, nat) {
    lex_at(s, skip_spaces(s, i))
}

/// Every token read from `i` on, up to and including the first `EOF`.
pub open spec fn lex_all(s: Seq<char>, i: nat) -> Seq<(TokenType, Seq<char>)>
    decreases s.len() - i,
{
    let t = next_lexeme(s, i);
    if t.0 == TokenType::EOF {
        seq![(t.0, t.1)]
    } else {
        proof {
            lemma_lexeme_progress(s, i);
        }
        seq![(t.0, t.1)] + lex_all(s, t.2)
    }
}

pub proof fn lemma_skip_spaces(s: Seq<char>, i: nat)
    ensures
        i <= skip_spaces(s, i),
        i <= s.len() ==> skip_spaces(s, i) <= s.len(),
        skip_spaces(s, i) < s.len() ==> !is_space(s[skip_spaces(s, i) as int]),
    decreases s.len() - i,
{
    if i < s.len() && is_space(s[i as int]) {
        lemma_skip_spaces(s, i + 1);
    }
}

pub proof fn lemma_scan_letters(s: Seq<char>, i: nat)
    ensures
        i <= scan_letters(s, i),
        i <= s.len() ==> scan_letters(s, i) <= s.len(),
        forall|k: int| i <= k < scan_letters(s, i) ==> is_letter(#[trigger] s[k]),
    decreases s.len() - i,
{
    if i < s.len() && is_letter(s[i as int]) {
        lemma_scan_letters(s, i + 1);
    }
}

pub proof fn lemma_scan_digits(s: Seq<char>, i: nat)
    ensures
        i <= scan_digits(s, i),
        i <= s.len() ==> scan_digits(s, i) <= s.len(),
        forall|k: int| i <= k < scan_digits(s, i) ==> is_digit(#[trigger] s[k]),
    decreases s.len() - i,
{
    if i < s.len() && is_digit(s[i as int]) {
        lemma_scan_digits(s, i + 1);
    }
}

/// A token other than `EOF` moves the cursor forward and stays within the text;
/// `EOF` comes exactly when only whitespace is left.
pub proof fn lemma_lexeme_progress(s: Seq<char>, i: nat)
    requires
        i <= s.len(),
    ensures
        next_lexeme(s, i).0 == TokenType::EOF <==> skip_spaces(s, i) >= s.len(),
        next_lexeme(s, i).0 != TokenType::EOF ==> i < next_lexeme(s, i).2 <= s.len(),
{
    let j = skip_spaces(s, i);
    lemma_skip_spaces(s, i);
    if j < s.len() {
        lemma_scan_letters(s, j);
        lemma_scan_digits(s, j);
        let c = s[j as int];
        lemma_scan_letters(s, j + 1);
        lemma_scan_digits(s, j + 1);
    }
}

/// Converts source text into tokens, one at a time, with one character of lookahead.
pub struct Lexer {
    input: Vec<char>,
    position: usize,
    ch: Option<char>,
}

impl Lexer {
    /// The characters being read.
    pub closed spec fn text(&self) -> Seq<char> {
        self.input@
    }

    /// Where the cursor stands: the position of the current character.
    pub closed spec fn cursor(&self) -> nat {
        self.position as nat
    }

    pub closed spec fn wf(&self) -> bool {
        &&& self.position <= self.input@.len()
        &&& self.ch == char_at(self.input@, self.position as int)
    }

    /// The cursor never passes the end of the text.
    pub proof fn lemma_cursor(&self)
        requires
            self.wf(),
        ensures
            self.cursor() <= self.text().len(),
    {
    }

    /// A lexer at the start of `input`.
    pub fn new(input: &str) -> (l: Lexer)
        ensures
            l.wf(),
            l.text() == input@,
            l.cursor() == 0,
    {
        let chars = chars_of(input);
        let ch = if chars.len() > 0 {
            Some(chars[0])
        } else {
            None
        };
        Lexer { input: chars, position: 0, ch }
    }

    /// Moves the cursor one character forward; at the end it stays there.
    pub fn read_char(&mut self)
        requires
            old(self).wf(),
        ensures
            final(self).wf(),
            final(self).text() == old(self).text(),
            final(self).cursor() == if old(self).cursor() < old(self).text().len() {
                old(self).cursor() + 1
            } else {
                old(self).cursor()
            },
    {
        if self.position < self.input.len() {
            self.position = self.position + 1;
            self.ch = if self.position < self.input.len() {
                Some(self.input[self.position])
            } else {
                None
            };
        }
    }

    fn peek_char(&self) -> (r: Option<char>)
        requires
            self.wf(),
        ensures
            r == char_at(self.text(), self.cursor() as int + 1),
    {
        if self.position < self.input.len() && self.position + 1 < self.input.len() {
            Some(self.input[self.position + 1])
        } else {
            None
        }
    }

    /// Moves the cursor past any whitespace.
    pub fn skip_whitespace(&mut self)
        requires
            old(self).wf(),
        ensures
            final(self).wf(),
            final(self).text() == old(self).text(),
            final(self).cursor() == skip_spaces(old(self).text(), old(self).cursor()),
    {
        let ghost start = self.position as nat;
        loop
            invariant
                self.wf(),
                self.input@ == old(self).input@,
                skip_spaces(self.input@, self.position as nat) == skip_spaces(self.input@, start),
            ensures
                self.wf(),
                self.input@ == old(self).input@,
                self.position == skip_spaces(self.input@, start),
            decreases self.input@.len() - self.position,
        {
            match self.ch {
                Some(c) => {
                    if !whitespace(c) {
                        break;
                    }
                },
                None => {
                    break;
                },
            }
            self.read_char();
        }
    }

    fn read_identifier(&mut self) -> (r: String)
        requires
            old(self).wf(),
        ensures
            final(self).wf(),
            final(self).text() == old(self).text(),
            final(self).cursor() == scan_letters(old(self).text(), old(self).cursor()),
            r@ == old(self).text().subrange(old(self).cursor() as int, final(self).cursor() as int),
    {
        let ghost start = self.position as int;
        let mut s = String::new();
        loop
            invariant
                self.wf(),
                self.input@ == old(self).input@,
                0 <= start <= self.position,
                scan_letters(self.input@, self.position as nat) == scan_letters(self.input@, start as nat),
                s@ == self.input@.subrange(start, self.position as int),
            ensures
                self.wf(),
                self.input@ == old(self).input@,
                0 <= start <= self.position,
                self.position == scan_letters(self.input@, start as nat),
                s@ == self.input@.subrange(start, self.position as int),
            decreases self.input@.len() - self.position,
        {
            let c = match self.ch {
                Some(c) => c,
                None => {
                    break;
                },
            };
            if !letter(c) {
                break;
            }
            assert(c == self.input@[self.position as int]);
            push_char(&mut s, c);
            assert(self.input@.subrange(start, self.position + 1) == self.input@.subrange(start, self.position as int).push(c));
            self.read_char();
        }
        s
    }

    fn read_number(&mut self) -> (r: String)
        requires
            old(self).wf(),
        ensures
            final(self).wf(),
            final(self).text() == old(self).text(),
            final(self).cursor() == scan_digits(old(self).text(), old(self).cursor()),
            r@ == old(self).text().subrange(old(self).cursor() as int, final(self).cursor() as int),
    {
        let ghost start = self.position as int;
        let mut s = String::new();
        loop
            invariant
                self.wf(),
                self.input@ == old(self).input@,
                0 <= start <= self.position,
                scan_digits(self.input@, self.position as nat) == scan_digits(self.input@, start as nat),
                s@ == self.input@.subrange(start, self.position as int),
            ensures
                self.wf(),
                self.input@ == old(self).input@,
                0 <= start <= self.position,
                self.position == scan_digits(self.input@, start as nat),
                s@ == self.input@.subrange(start, self.position as int),
            decreases self.input@.len() - self.position,
        {
            let c = match self.ch {
                Some(c) => c,
                None => {
                    break;
                },
            };
            if !('0' <= c && c <= '9') {
                break;
            }
            assert(c == self.input@[self.position as int]);
            push_char(&mut s, c);
            assert(self.input@.subrange(start, self.position + 1) == self.input@.subrange(start, self.position as int).push(c));
            self.read_char();
        }
        s
    }

    fn read_multi_char_tokens(&mut self) -> (r: Option<Token>)
        requires
            old(self).wf(),
        ensures
            final(self).wf(),
            final(self).text() == old(self).text(),
            ({
                let s = old(self).text();
                let i = old(self).cursor();
                let two = i + 1 < s.len() && s[i as int + 1] == '=' && (s[i as int] == '=' || s[i as int] == '!');
                if two {
                    &&& r matches Some(t)
                    &&& t.token_type == lex_at(s, i).0
                    &&& t.literal@ == lex_at(s, i).1
                    &&& final(self).cursor() == lex_at(s, i).2
                } else {
                    r is None && final(self).cursor() == i
                }
            }),
    {
        let c = match self.ch {
            Some(c) => c,
            None => {
                return None;
            },
        };
        if c != '=' && c != '!' {
            return None;
        }
        match self.peek_char() {
            Some(n) => {
                if n != '=' {
                    return None;
                }
            },
            None => {
                return None;
            },
        }
        let ghost s = self.input@;
        let ghost i = self.position as int;
        self.read_char();
        self.read_char();
        let mut literal = String::new();
        push_char(&mut literal, c);
        push_char(&mut literal, '=');
        assert(literal@ == s.subrange(i, i + 2));
        let token_type = if c == '=' {
            TokenType::EQ
        } else {
            TokenType::NotEq
        };
        Some(Token { token_type, literal })
    }

    /// Reads the next token; at the end of the input it yields `EOF` every time.
    pub fn next_token(&mut self) -> (t: Token)
        requires
            old(self).wf(),
        ensures
            final(self).wf(),
            final(self).text() == old(self).text(),
            (t.token_type, t.literal@, final(self).cursor()) == next_lexeme(
                old(self).text(),
                old(self).cursor(),
            ),
    {
        self.skip_whitespace();
        proof {
            lemma_skip_spaces(self.input@, old(self).position as nat);
        }
        let ghost s = self.input@;
        let ghost i = self.position as nat;
        if let Some(t) = self.read_multi_char_tokens() {
            return t;
        }
        if let Some(token_type) = lookup_char(self.ch) {
            let c = self.ch.unwrap();
            let mut literal = String::new();
            push_char(&mut literal, c);
            self.read_char();
            return Token { token_type, literal };
        }
        match self.ch {
            None => Token { token_type: TokenType::EOF, literal: String::new() },
            Some(c) => {
                if letter(c) {
                    let literal = self.read_identifier();
                    let token_type = lookup_keyword(literal.as_str());
                    Token { token_type, literal }
                } else if '0' <= c && c <= '9' {
                    let literal = self.read_number();
                    Token { token_type: TokenType::INT, literal }
                } else {
                    let mut literal = String::new();
                    push_char(&mut literal, c);
                    self.read_char();
                    Token { token_type: TokenType::ILLEGAL, literal }
                }
            },
        }
    }

    /// Reads every token that is left, ending with the first `EOF`.
    pub fn read_tokens(&mut self) -> (tokens: Vec<Token>)
        requires
            old(self).wf(),
        ensures
            final(self).wf(),
            final(self).text() == old(self).text(),
            token_views(tokens@) == lex_all(old(self).text(), old(self).cursor()),
    {
        let mut tokens: Vec<Token> = Vec::new();
        loop
            invariant_except_break
                token_views(tokens@) + lex_all(self.input@, self.position as nat) == lex_all(
                    old(self).input@,
                    old(self).position as nat,
                ),
            invariant
                self.wf(),
                self.input@ == old(self).input@,
            ensures
                token_views(tokens@) == lex_all(old(self).input@, old(self).position as nat),
            decreases self.input@.len() - self.position,
        {
            let ghost s = self.input@;
            let ghost before = self.position as nat;
            let ghost prior = tokens@;
            proof {
                lemma_lexeme_progress(s, before);
            }
            let token = self.next_token();
            let done = token.token_type == TokenType::EOF;
            let ghost tv = (token.token_type, token.literal@);
            tokens.push(token);
            assert(token_views(tokens@) == token_views(prior).push(tv));
            if done {
                assert(lex_all(s, before) == seq![tv]);
                break;
            }
            assert(lex_all(s, before) == seq![tv] + lex_all(s, self.position as nat));
            assert(token_views(tokens@) + lex_all(s, self.position as nat) == token_views(prior) + (
            seq![tv] + lex_all(s, self.position as nat)));
        }
        tokens
    }
}

/// The kind and text of each token.
pub open spec fn token_views(ts: Seq<Token>) -> Seq<(TokenType, Seq<char>)> {
    ts.map_values(|t: Token| (t.token_type, t.literal@))
}

} // verus!
