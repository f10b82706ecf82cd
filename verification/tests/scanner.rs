//! The scanner: kinds, texts and lines of tokens.

use rlox::scanner::{
    lead, number_literals, same_text, starts_identifier, Lead, Scanner, Token, TokenType,
};

type T = TokenType;

fn tokens(source: &str) -> Vec<Token> {
    let mut scanner = Scanner::new(source);
    let mut all = Vec::new();
    loop {
        let token = scanner.scan_token();
        let done = token.ty == TokenType::Eof;
        all.push(token);
        if done {
            return all;
        }
    }
}

fn kinds(source: &str) -> Vec<TokenType> {
    tokens(source).iter().map(|token| token.ty).collect()
}

#[test]
fn an_empty_source_is_one_eof() {
    let all = tokens("");
    assert_eq!(all.len(), 1);
    assert_eq!(all[0].ty, TokenType::Eof);
    assert_eq!(all[0].string, "");
    assert_eq!(all[0].line, 1);
    let mut scanner = Scanner::new("   ");
    assert_eq!(scanner.scan_token().ty, TokenType::Eof);
    assert_eq!(scanner.scan_token().ty, TokenType::Eof);
}

#[test]
fn punctuation() {
    assert_eq!(
        kinds("(){};,.-+/*"),
        vec![
            T::LeftParen, T::RightParen, T::LeftBrace, T::RightBrace, T::Semicolon, T::Comma, T::Dot, T::Minus, T::Plus,
            T::Slash, T::Star, T::Eof
        ]
    );
}

#[test]
fn one_and_two_character_operators() {
    assert_eq!(
        kinds("! != = == < <= > >="),
        vec![T::Bang, T::BangEqual, T::Equal, T::EqualEqual, T::Less, T::LessEqual, T::Greater, T::GreaterEqual, T::Eof]
    );
    assert_eq!(kinds("!==="), vec![T::BangEqual, T::EqualEqual, T::Eof]);
    assert_eq!(kinds("<=>"), vec![T::LessEqual, T::Greater, T::Eof]);
    let all = tokens("a>=b");
    assert_eq!(all[1].string, ">=");
}

#[test]
fn keywords_and_identifiers() {
    assert_eq!(
        kinds("and class else false for fun if nil or print return super this true var while"),
        vec![
            T::And, T::Class, T::Else, T::False, T::For, T::Fun, T::If, T::Nil, T::Or, T::Print, T::Return, T::Super, T::This, T::True, T::Var,
            T::While, T::Eof
        ]
    );
    assert_eq!(
        kinds("andy classy f fo fa t th tr truely _if if_ iff a1 whiles"),
        vec![
            T::Identifier, T::Identifier, T::Identifier, T::Identifier, T::Identifier, T::Identifier, T::Identifier,
            T::Identifier, T::Identifier, T::Identifier, T::Identifier, T::Identifier, T::Identifier, T::Identifier,
            T::Eof
        ]
    );
    let all = tokens("foo_bar1 = nil;");
    assert_eq!(all[0].string, "foo_bar1");
    assert_eq!(all[2].ty, T::Nil);
    assert_eq!(all[2].string, "nil");
}

#[test]
fn numbers() {
    let all = tokens("12 3.5 7. .5 1.2.3");
    let texts: Vec<&str> = all.iter().map(|token| token.string.as_str()).collect();
    assert_eq!(texts, vec!["12", "3.5", "7", ".", ".", "5", "1.2", ".", "3", ""]);
    assert_eq!(
        kinds("12 3.5 7. .5"),
        vec![T::Number, T::Number, T::Number, T::Dot, T::Dot, T::Number, T::Eof]
    );
}

#[test]
fn strings_keep_their_quotes_and_count_lines() {
    let all = tokens("\"one\ntwo\" x");
    assert_eq!(all[0].ty, TokenType::String);
    assert_eq!(all[0].string, "\"one\ntwo\"");
    assert_eq!(all[0].line, 2);
    assert_eq!(all[1].ty, TokenType::Identifier);
    assert_eq!(all[1].line, 2);
    let all = tokens("\"\"");
    assert_eq!(all[0].ty, TokenType::String);
    assert_eq!(all[0].string, "\"\"");
}

#[test]
fn an_unterminated_string_is_an_error_token() {
    let all = tokens("\"abc\ndef");
    assert_eq!(all.len(), 2);
    assert_eq!(all[0].ty, TokenType::Error);
    assert_eq!(all[0].string, "Unterminated String");
    assert_eq!(all[0].line, 2);
    assert_eq!(all[1].ty, TokenType::Eof);
}

#[test]
fn an_unexpected_character_is_an_error_token() {
    let all = tokens("a @ b");
    assert_eq!(all[1].ty, TokenType::Error);
    assert_eq!(all[1].string, "Unepxected charater");
    assert_eq!(all[2].ty, TokenType::Identifier);
    assert_eq!(all[2].string, "b");
}

#[test]
fn blanks_line_breaks_and_comments_are_skipped() {
    let all = tokens(" \t\r\n// a comment\n  x // another\n/ y\n//");
    assert_eq!(
        all.iter().map(|token| token.ty).collect::<Vec<_>>(),
        vec![T::Identifier, T::Slash, T::Identifier, T::Eof]
    );
    assert_eq!(all[0].line, 3);
    assert_eq!(all[1].line, 4);
    assert_eq!(all[2].line, 4);
    assert_eq!(all[3].line, 5);
}

#[test]
fn a_slash_alone_is_a_token() {
    assert_eq!(kinds("1 / 2"), vec![T::Number, T::Slash, T::Number, T::Eof]);
    assert_eq!(kinds("/"), vec![T::Slash, T::Eof]);
    assert_eq!(kinds("/ /"), vec![T::Slash, T::Slash, T::Eof]);
}

#[test]
fn letters_and_digits_beyond_ascii() {
    let all = tokens("var é1 = ２;");
    assert_eq!(all[1].ty, TokenType::Identifier);
    assert_eq!(all[1].string, "é1");
    assert_eq!(all[3].ty, TokenType::Number);
    assert_eq!(all[3].string, "２");
    assert_eq!(all[4].ty, TokenType::Semicolon);
}

#[test]
fn number_literals_come_in_order() {
    assert_eq!(number_literals("print 1 + 2.5 * x3; // 4\n\"5\" 6"), vec!["1", "2.5", "6"]);
    assert!(number_literals("").is_empty());
    assert!(number_literals("print a;").is_empty());
}

#[test]
fn texts_are_compared_by_characters() {
    assert!(same_text("", ""));
    assert!(same_text("abc", "abc"));
    assert!(!same_text("abc", "abd"));
    assert!(!same_text("abc", "ab"));
    assert!(same_text("é", "é"));
}

#[test]
fn a_token_is_cloned_whole() {
    let all = tokens("print");
    let copy = all[0].clone();
    assert_eq!(copy.ty, TokenType::Print);
    assert_eq!(copy.string, "print");
    assert_eq!(copy.line, 1);
}

#[test]
fn the_first_character_decides_how_a_token_goes_on() {
    assert_eq!(lead('(', false, false), Lead::Single(T::LeftParen));
    assert_eq!(lead('*', false, false), Lead::Single(T::Star));
    assert_eq!(lead('/', false, false), Lead::Single(T::Slash));
    assert_eq!(lead('!', false, false), Lead::OneOrTwo(T::BangEqual, T::Bang));
    assert_eq!(lead('=', false, false), Lead::OneOrTwo(T::EqualEqual, T::Equal));
    assert_eq!(lead('<', false, false), Lead::OneOrTwo(T::LessEqual, T::Less));
    assert_eq!(lead('>', false, false), Lead::OneOrTwo(T::GreaterEqual, T::Greater));
    assert_eq!(lead('"', false, false), Lead::Quote);
    assert_eq!(lead('7', true, false), Lead::Digit);
    assert_eq!(lead('a', false, true), Lead::Letter);
    assert_eq!(lead('_', false, false), Lead::Letter);
    assert_eq!(lead('@', false, false), Lead::Unexpected);
    assert_eq!(lead('-', true, true), Lead::Single(T::Minus));
    assert_eq!(lead('x', true, true), Lead::Digit);
    assert!(starts_identifier('_', false));
    assert!(starts_identifier('q', true));
    assert!(!starts_identifier('1', false));
}
