use interpreter::lexer::Lexer;
use interpreter::token::{lookup_char, lookup_keyword, TokenType};

#[test]
fn next_token_basic() {
    let input: &str = "=+(){},;";
    let tests = vec![
        (TokenType::ASSIGN, "="),
        (TokenType::PLUS, "+"),
        (TokenType::LPAREN, "("),
        (TokenType::RPAREN, ")"),
        (TokenType::LBRACE, "{"),
        (TokenType::RBRACE, "}"),
        (TokenType::COMMA, ","),
        (TokenType::SEMICOLON, ";"),
        (TokenType::EOF, ""),
    ];

    let mut l = Lexer::new(input);

    for (k, v) in tests {
        let t = l.next_token();
        assert_eq!(t.token_type, k);
        assert_eq!(t.literal, v);
    }
}

#[test]
fn next_token_program() {
    let input: &str = r#"let five = 5;
let ten = 10;

let add = fn(x, y) {
    x + y;
};

let result = add(five, ten);
!-/*5;
5 < 10 > 5;

if (5 < 10) {
    return true;
} else {
    return false;
}

10 == 10;
10 != 9;
"#;

    let tests = vec![
        (TokenType::LET, "let"),
        (TokenType::IDENT, "five"),
        (TokenType::ASSIGN, "="),
        (TokenType::INT, "5"),
        (TokenType::SEMICOLON, ";"),
        (TokenType::LET, "let"),
        (TokenType::IDENT, "ten"),
        (TokenType::ASSIGN, "="),
        (TokenType::INT, "10"),
        (TokenType::SEMICOLON, ";"),
        (TokenType::LET, "let"),
        (TokenType::IDENT, "add"),
        (TokenType::ASSIGN, "="),
        (TokenType::FUNCTION, "fn"),
        (TokenType::LPAREN, "("),
        (TokenType::IDENT, "x"),
        (TokenType::COMMA, ","),
        (TokenType::IDENT, "y"),
        (TokenType::RPAREN, ")"),
        (TokenType::LBRACE, "{"),
        (TokenType::IDENT, "x"),
        (TokenType::PLUS, "+"),
        (TokenType::IDENT, "y"),
        (TokenType::SEMICOLON, ";"),
        (TokenType::RBRACE, "}"),
        (TokenType::SEMICOLON, ";"),
        (TokenType::LET, "let"),
        (TokenType::IDENT, "result"),
        (TokenType::ASSIGN, "="),
        (TokenType::IDENT, "add"),
        (TokenType::LPAREN, "("),
        (TokenType::IDENT, "five"),
        (TokenType::COMMA, ","),
        (TokenType::IDENT, "ten"),
        (TokenType::RPAREN, ")"),
        (TokenType::SEMICOLON, ";"),
        (TokenType::BANG, "!"),
        (TokenType::MINUS, "-"),
        (TokenType::SLASH, "/"),
        (TokenType::ASTERISK, "*"),
        (TokenType::INT, "5"),
        (TokenType::SEMICOLON, ";"),
        (TokenType::INT, "5"),
        (TokenType::LT, "<"),
        (TokenType::INT, "10"),
        (TokenType::GT, ">"),
        (TokenType::INT, "5"),
        (TokenType::SEMICOLON, ";"),
        (TokenType::IF, "if"),
        (TokenType::LPAREN, "("),
        (TokenType::INT, "5"),
        (TokenType::LT, "<"),
        (TokenType::INT, "10"),
        (TokenType::RPAREN, ")"),
        (TokenType::LBRACE, "{"),
        (TokenType::RETURN, "return"),
        (TokenType::TRUE, "true"),
        (TokenType::SEMICOLON, ";"),
        (TokenType::RBRACE, "}"),
        (TokenType::ELSE, "else"),
        (TokenType::LBRACE, "{"),
        (TokenType::RETURN, "return"),
        (TokenType::FALSE, "false"),
        (TokenType::SEMICOLON, ";"),
        (TokenType::RBRACE, "}"),
        (TokenType::INT, "10"),
        (TokenType::EQ, "=="),
        (TokenType::INT, "10"),
        (TokenType::SEMICOLON, ";"),
        (TokenType::INT, "10"),
        (TokenType::NotEq, "!="),
        (TokenType::INT, "9"),
        (TokenType::SEMICOLON, ";"),
        (TokenType::EOF, ""),
    ];

    let mut l = Lexer::new(input);

    let mut i = 0;
    for (k, v) in tests {
        let t = l.next_token();
        assert_eq!(t.literal, v, "test {}", i);
        assert_eq!(t.token_type, k, "test {}", i);
        i += 1;
    }
}

#[test]
fn get_keyword() {
    assert_eq!(TokenType::LET, lookup_keyword("let"));
    assert_eq!(TokenType::FUNCTION, lookup_keyword("fn"));
    assert_eq!(TokenType::IDENT, lookup_keyword("blah"));
}

#[test]
fn keyword_table_is_complete() {
    assert_eq!(TokenType::LET, lookup_keyword("let"));
    assert_eq!(TokenType::FUNCTION, lookup_keyword("fn"));
    assert_eq!(TokenType::IF, lookup_keyword("if"));
    assert_eq!(TokenType::ELSE, lookup_keyword("else"));
    assert_eq!(TokenType::RETURN, lookup_keyword("return"));
    assert_eq!(TokenType::TRUE, lookup_keyword("true"));
    assert_eq!(TokenType::FALSE, lookup_keyword("false"));
    assert_eq!(TokenType::IDENT, lookup_keyword("blah"));
    assert_eq!(TokenType::IDENT, lookup_keyword("lets"));
    assert_eq!(TokenType::IDENT, lookup_keyword(""));
}

#[test]
fn single_character_symbols() {
    assert_eq!(Some(TokenType::ASSIGN), lookup_char(Some('=')));
    assert_eq!(Some(TokenType::SLASH), lookup_char(Some('/')));
    assert_eq!(Some(TokenType::GT), lookup_char(Some('>')));
    assert_eq!(None, lookup_char(Some('a')));
    assert_eq!(None, lookup_char(None));
}

#[test]
fn eof_repeats_after_the_end() {
    let mut l = Lexer::new("x");
    assert_eq!(TokenType::IDENT, l.next_token().token_type);
    for _ in 0..3 {
        let t = l.next_token();
        assert_eq!(TokenType::EOF, t.token_type);
        assert_eq!("", t.literal);
    }
}

#[test]
fn whitespace_of_every_kind_is_skipped() {
    let mut l = Lexer::new(" \t\n\r let\u{3000}x");
    let t = l.next_token();
    assert_eq!(TokenType::LET, t.token_type);
    assert_eq!("let", t.literal);
    let t = l.next_token();
    assert_eq!(TokenType::IDENT, t.token_type);
    assert_eq!("x", t.literal);
}

#[test]
fn unicode_letters_form_identifiers() {
    let mut l = Lexer::new("größe = 1");
    let t = l.next_token();
    assert_eq!(TokenType::IDENT, t.token_type);
    assert_eq!("größe", t.literal);
    assert_eq!(TokenType::ASSIGN, l.next_token().token_type);
    assert_eq!(TokenType::INT, l.next_token().token_type);
}

#[test]
fn unknown_characters_are_illegal() {
    let mut l = Lexer::new("@ 5");
    let t = l.next_token();
    assert_eq!(TokenType::ILLEGAL, t.token_type);
    assert_eq!("@", t.literal);
    let t = l.next_token();
    assert_eq!(TokenType::INT, t.token_type);
    assert_eq!("5", t.literal);
}

#[test]
fn two_character_operators_need_both_characters() {
    let mut l = Lexer::new("= =!");
    assert_eq!(TokenType::ASSIGN, l.next_token().token_type);
    assert_eq!(TokenType::ASSIGN, l.next_token().token_type);
    assert_eq!(TokenType::BANG, l.next_token().token_type);
    assert_eq!(TokenType::EOF, l.next_token().token_type);
}

#[test]
fn read_tokens_ends_with_one_eof() {
    let mut l = Lexer::new("a1 22");
    let tokens = l.read_tokens();
    let kinds: Vec<TokenType> = tokens.iter().map(|t| t.token_type).collect();
    assert_eq!(vec![TokenType::IDENT, TokenType::INT, TokenType::INT, TokenType::EOF], kinds);
    assert_eq!("a", tokens[0].literal);
    assert_eq!("1", tokens[1].literal);
    assert_eq!("22", tokens[2].literal);
}

#[test]
fn token_kind_names() {
    assert_eq!("ASSIGN", TokenType::ASSIGN.name());
    assert_eq!("NOT_EQ", TokenType::NotEq.name());
    assert_eq!("EOF", TokenType::EOF.name());
}
