//! The scanner: turns source text into tokens, one at a time.
//!
//! What the scanner does is laid down by spec functions over the characters of the source:
//! [`spec_skip_whitespace`] says where a token starts, [`spec_scan_token`] what it is and where
//! it ends. The executable scanner is proved to follow them.

use vstd::prelude::*;
use vstd::string::StrSliceExecFns;
use vstd::string::StringExecFns;

verus! {

/// The kinds of token.
#[derive(Debug, Clone, Copy, PartialEq, Eq, Structural)]
pub enum TokenType {
    LeftParen,
    RightParen,
    LeftBrace,
    RightBrace,
    Comma,
    Dot,
    Minus,
    Plus,
    Semicolon,
    Slash,
    Star,
    Bang,
    BangEqual,
    Equal,
    EqualEqual,
    Greater,
    GreaterEqual,
    Less,
    LessEqual,
    Identifier,
    String,
    Number,
    And,
    Class,
    Else,
    False,
    For,
    Fun,
    If,
    Nil,
    Or,
    Print,
    Return,
    Super,
    This,
    True,
    Var,
    While,
    Error,
    Eof,
}

/// A token: its kind, its text (for an error token, the message), and the line it ends on.
#[derive(Debug)]
pub struct Token {
    pub ty: TokenType,
    pub string: String,
    pub line: usize,
}

impl Clone for Token {
    fn clone(&self) -> (copy: Token)
        ensures
            copy == *self,
    {
        Token { ty: self.ty, string: self.string.clone(), line: self.line }
    }
}

/// What `char::is_numeric` answers for a character.
pub uninterp spec fn char_is_numeric(c: char) -> bool;

/// What `char::is_alphabetic` answers for a character.
pub uninterp spec fn char_is_alphabetic(c: char) -> bool;

/// `char::is_numeric` of std: whether Unicode classes the character as a number. The answer
/// depends on the character alone.
pub assume_specification[ char::is_numeric ](c: char) -> (numeric: bool)
    ensures
        numeric == char_is_numeric(c),
;

/// `char::is_alphabetic` of std: whether Unicode gives the character the property
/// `Alphabetic`. The answer depends on the character alone.
pub assume_specification[ char::is_alphabetic ](c: char) -> (alphabetic: bool)
    ensures
        alphabetic == char_is_alphabetic(c),
;

/// A character that may start an identifier.
pub open spec fn spec_is_alpha(c: char) -> bool {
    spec_starts_identifier(c, char_is_alphabetic(c))
}

/// A character that may continue an identifier.
pub open spec fn is_identifier_char(c: char) -> bool {
    spec_is_alpha(c) || char_is_numeric(c)
}

/// The line number after one more line break; it stops at the largest number.
pub open spec fn next_line(line: usize) -> usize {
    if line < usize::MAX {
        (line + 1) as usize
    } else {
        line
    }
}

/// The first position at or after `pos` that holds `target`, or the end of the source.
pub open spec fn find_char(src: Seq<char>, pos: int, target: char) -> int
    decreases src.len() - pos,
{
    if 0 <= pos < src.len() && src[pos] != target {
        find_char(src, pos + 1, target)
    } else {
        pos
    }
}

/// The line number after the line breaks in positions `from` up to `to`.
pub open spec fn line_after(src: Seq<char>, from: int, to: int, line: usize) -> usize
    decreases to - from,
{
    if 0 <= from < to <= src.len() {
        line_after(
            src,
            from + 1,
            to,
            if src[from] == '\n' {
                next_line(line)
            } else {
                line
            },
        )
    } else {
        line
    }
}

/// The end of the run of digits that starts at `pos`.
pub open spec fn digits_end(src: Seq<char>, pos: int) -> int
    decreases src.len() - pos,
{
    if 0 <= pos < src.len() && char_is_numeric(src[pos]) {
        digits_end(src, pos + 1)
    } else {
        pos
    }
}

/// The end of the run of identifier characters that starts at `pos`.
pub open spec fn identifier_end(src: Seq<char>, pos: int) -> int
    decreases src.len() - pos,
{
    if 0 <= pos < src.len() && is_identifier_char(src[pos]) {
        identifier_end(src, pos + 1)
    } else {
        pos
    }
}

/// The end of the number that starts at `start`: digits, then optionally a dot followed by
/// at least one digit.
pub open spec fn number_end(src: Seq<char>, start: int) -> int {
    let whole = digits_end(src, start + 1);
    if whole + 1 < src.len() && src[whole] == '.' && char_is_numeric(src[whole + 1]) {
        digits_end(src, whole + 2)
    } else {
        whole
    }
}

/// Where the next token starts, and on which line: blanks, tabs, carriage returns and line
/// breaks are skipped, and so is a comment from `//` to the end of its line.
pub open spec fn spec_skip_whitespace(src: Seq<char>, pos: int, line: usize) -> (int, usize)
    decreases src.len() - pos, 1int,
{
    if 0 <= pos < src.len() {
        let c = src[pos];
        if c == ' ' || c == '\t' || c == '\r' {
            spec_skip_whitespace(src, pos + 1, line)
        } else if c == '\n' {
            spec_skip_whitespace(src, pos + 1, next_line(line))
        } else if c == '/' && pos + 1 < src.len() && src[pos + 1] == '/' {
            spec_skip_comment(src, pos + 2, line)
        } else {
            (pos, line)
        }
    } else {
        (pos, line)
    }
}

/// Where the next token starts for a scanner that stands inside a comment.
pub open spec fn spec_skip_comment(src: Seq<char>, pos: int, line: usize) -> (int, usize)
    decreases src.len() - pos, 0int,
{
    if 0 <= pos < src.len() {
        if src[pos] == '\n' {
            spec_skip_whitespace(src, pos + 1, next_line(line))
        } else {
            spec_skip_comment(src, pos + 1, line)
        }
    } else {
        (pos, line)
    }
}

/// The kind of an identifier-shaped word: a keyword's kind, or `Identifier`.
pub open spec fn keyword_type(word: Seq<char>) -> TokenType {
    if word == "and"@ {
        TokenType::And
    } else if word == "class"@ {
        TokenType::Class
    } else if word == "else"@ {
        TokenType::Else
    } else if word == "false"@ {
        TokenType::False
    } else if word == "for"@ {
        TokenType::For
    } else if word == "fun"@ {
        TokenType::Fun
    } else if word == "if"@ {
        TokenType::If
    } else if word == "nil"@ {
        TokenType::Nil
    } else if word == "or"@ {
        TokenType::Or
    } else if word == "print"@ {
        TokenType::Print
    } else if word == "return"@ {
        TokenType::Return
    } else if word == "super"@ {
        TokenType::Super
    } else if word == "this"@ {
        TokenType::This
    } else if word == "true"@ {
        TokenType::True
    } else if word == "var"@ {
        TokenType::Var
    } else if word == "while"@ {
        TokenType::While
    } else {
        TokenType::Identifier
    }
}

/// What one call of the scanner yields: the token, and where scanning goes on.
pub struct Scanned {
    pub ty: TokenType,
    pub text: Seq<char>,
    pub line: usize,
    pub end: int,
}

/// The token of kind `ty` that spans `start` up to `end`.
pub open spec fn spanned(src: Seq<char>, ty: TokenType, start: int, end: int, line: usize) -> Scanned {
    Scanned { ty, text: src.subrange(start, end), line, end }
}

/// A token of one character, or of two if `second` follows.
pub open spec fn one_or_two(
    src: Seq<char>,
    start: int,
    line: usize,
    second: char,
    if_yes: TokenType,
    if_no: TokenType,
) -> Scanned {
    if start + 1 < src.len() && src[start + 1] == second {
        spanned(src, if_yes, start, start + 2, line)
    } else {
        spanned(src, if_no, start, start + 1, line)
    }
}

/// The message of the error token for a character that starts no token.
pub open spec fn unexpected_character_message() -> Seq<char> {
    "Unepxected charater"@
}

/// The message of the error token for a string without its closing quote.
pub open spec fn unterminated_string_message() -> Seq<char> {
    "Unterminated String"@
}

/// How a token goes on after its first character.
#[derive(Debug, Clone, Copy, PartialEq, Eq, Structural)]
pub enum Lead {
    /// The character is a token of this kind.
    Single(TokenType),
    /// With `=` behind it the character is a token of the first kind, else of the second.
    OneOrTwo(TokenType, TokenType),
    /// A string follows, up to the closing quote.
    Quote,
    /// The character starts a number.
    Digit,
    /// The character starts an identifier or a keyword.
    Letter,
    /// The character starts no token.
    Unexpected,
}

/// How a token goes on after the first character `c`, of which `char::is_numeric`
/// answers `numeric` and `char::is_alphabetic` answers `alphabetic`. Punctuation comes
/// first, then the quote, then digits, then letters and the underscore.
pub open spec fn spec_lead(c: char, numeric: bool, alphabetic: bool) -> Lead {
    if c == '(' {
        Lead::Single(TokenType::LeftParen)
    } else if c == ')' {
        Lead::Single(TokenType::RightParen)
    } else if c == '{' {
        Lead::Single(TokenType::LeftBrace)
    } else if c == '}' {
        Lead::Single(TokenType::RightBrace)
    } else if c == ';' {
        Lead::Single(TokenType::Semicolon)
    } else if c == ',' {
        Lead::Single(TokenType::Comma)
    } else if c == '.' {
        Lead::Single(TokenType::Dot)
    } else if c == '-' {
        Lead::Single(TokenType::Minus)
    } else if c == '+' {
        Lead::Single(TokenType::Plus)
    } else if c == '/' {
        Lead::Single(TokenType::Slash)
    } else if c == '*' {
        Lead::Single(TokenType::Star)
    } else if c == '!' {
        Lead::OneOrTwo(TokenType::BangEqual, TokenType::Bang)
    } else if c == '=' {
        Lead::OneOrTwo(TokenType::EqualEqual, TokenType::Equal)
    } else if c == '<' {
        Lead::OneOrTwo(TokenType::LessEqual, TokenType::Less)
    } else if c == '>' {
        Lead::OneOrTwo(TokenType::GreaterEqual, TokenType::Greater)
    } else if c == '"' {
        Lead::Quote
    } else if numeric {
        Lead::Digit
    } else if spec_starts_identifier(c, alphabetic) {
        Lead::Letter
    } else {
        Lead::Unexpected
    }
}

/// Whether the character `c`, of which `char::is_alphabetic` answers `alphabetic`, may
/// start an identifier: a letter or the underscore.
pub open spec fn spec_starts_identifier(c: char, alphabetic: bool) -> bool {
    alphabetic || c == '_'
}

/// Whether a character may start an identifier, given what `char::is_alphabetic` answers
/// for it.
pub fn starts_identifier(c: char, alphabetic: bool) -> (starts: bool)
    ensures
        starts == spec_starts_identifier(c, alphabetic),
{
    alphabetic || c == '_'
}

/// How a token goes on after its first character, given what `char::is_numeric` and
/// `char::is_alphabetic` answer for the character.
pub fn lead(c: char, numeric: bool, alphabetic: bool) -> (lead: Lead)
    ensures
        lead == spec_lead(c, numeric, alphabetic),
{
    if c == '(' {
        Lead::Single(TokenType::LeftParen)
    } else if c == ')' {
        Lead::Single(TokenType::RightParen)
    } else if c == '{' {
        Lead::Single(TokenType::LeftBrace)
    } else if c == '}' {
        Lead::Single(TokenType::RightBrace)
    } else if c == ';' {
        Lead::Single(TokenType::Semicolon)
    } else if c == ',' {
        Lead::Single(TokenType::Comma)
    } else if c == '.' {
        Lead::Single(TokenType::Dot)
    } else if c == '-' {
        Lead::Single(TokenType::Minus)
    } else if c == '+' {
        Lead::Single(TokenType::Plus)
    } else if c == '/' {
        Lead::Single(TokenType::Slash)
    } else if c == '*' {
        Lead::Single(TokenType::Star)
    } else if c == '!' {
        Lead::OneOrTwo(TokenType::BangEqual, TokenType::Bang)
    } else if c == '=' {
        Lead::OneOrTwo(TokenType::EqualEqual, TokenType::Equal)
    } else if c == '<' {
        Lead::OneOrTwo(TokenType::LessEqual, TokenType::Less)
    } else if c == '>' {
        Lead::OneOrTwo(TokenType::GreaterEqual, TokenType::Greater)
    } else if c == '"' {
        Lead::Quote
    } else if numeric {
        Lead::Digit
    } else if starts_identifier(c, alphabetic) {
        Lead::Letter
    } else {
        Lead::Unexpected
    }
}

/// The token that starts at `start`, where `start` is inside the source and holds no blank.
pub open spec fn spec_token_at(src: Seq<char>, start: int, line: usize) -> Scanned {
    let c = src[start];
    match spec_lead(c, char_is_numeric(c), char_is_alphabetic(c)) {
        Lead::Single(ty) => spanned(src, ty, start, start + 1, line),
        Lead::OneOrTwo(if_yes, if_no) => one_or_two(src, start, line, '=', if_yes, if_no),
        Lead::Quote => {
            let close = find_char(src, start + 1, '"');
            let last_line = line_after(src, start + 1, close, line);
            if close < src.len() {
                spanned(src, TokenType::String, start, close + 1, last_line)
            } else {
                Scanned {
                    ty: TokenType::Error,
                    text: unterminated_string_message(),
                    line: last_line,
                    end: close,
                }
            }
        },
        Lead::Digit => spanned(src, TokenType::Number, start, number_end(src, start), line),
        Lead::Letter => {
            let end = identifier_end(src, start + 1);
            spanned(src, keyword_type(src.subrange(start, end)), start, end, line)
        },
        Lead::Unexpected => Scanned {
            ty: TokenType::Error,
            text: unexpected_character_message(),
            line,
            end: start + 1,
        },
    }
}

/// The next token of `src` for a scanner that stands at `pos` on line `line`.
#[verifier::opaque]
pub open spec fn spec_scan_token(src: Seq<char>, pos: int, line: usize) -> Scanned {
    let (start, start_line) = spec_skip_whitespace(src, pos, line);
    if start >= src.len() {
        Scanned { ty: TokenType::Eof, text: Seq::<char>::empty(), line: start_line, end: start }
    } else {
        spec_token_at(src, start, start_line)
    }
}

/// Where the scanner stands after `count` tokens of `src`: its position and its line.
pub open spec fn scan_state(src: Seq<char>, count: nat) -> (int, usize)
    decreases count,
{
    if count == 0 {
        (0, 1usize)
    } else {
        let before = scan_state(src, (count - 1) as nat);
        let token = spec_scan_token(src, before.0, before.1);
        (token.end, token.line)
    }
}

/// Token number `index` of `src`, counted from 0. Behind the end of the source every token
/// is `Eof`.
pub open spec fn spec_token(src: Seq<char>, index: nat) -> Scanned {
    spec_scan_token(src, scan_state(src, index).0, scan_state(src, index).1)
}

/// How many of the first `count` tokens of `src` are numbers.
pub open spec fn number_index(src: Seq<char>, count: nat) -> nat
    decreases count,
{
    if count == 0 {
        0
    } else {
        number_index(src, (count - 1) as nat) + if spec_token(src, (count - 1) as nat).ty
            == TokenType::Number {
            1nat
        } else {
            0nat
        }
    }
}

/// The scanner stays inside the source, whatever the number of tokens taken.
pub proof fn lemma_scan_state_bounds(src: Seq<char>, count: nat)
    ensures
        0 <= scan_state(src, count).0 <= src.len(),
        number_index(src, count) <= scan_state(src, count).0,
    decreases count,
{
    if count > 0 {
        lemma_scan_state_bounds(src, (count - 1) as nat);
        let before = scan_state(src, (count - 1) as nat);
        lemma_scan_progress(src, before.0, before.1);
    }
}

/// The number of line breaks among the characters of `src` from `from` up to `to`.
pub open spec fn line_breaks(src: Seq<char>, from: int, to: int) -> nat
    decreases to - from,
{
    if 0 <= from < to <= src.len() {
        line_breaks(src, from + 1, to) + if src[from] == '\n' {
            1nat
        } else {
            0nat
        }
    } else {
        0
    }
}

/// The line breaks of a stretch are those of its two parts together.
proof fn lemma_line_breaks_split(src: Seq<char>, from: int, middle: int, to: int)
    requires
        0 <= from <= middle <= to <= src.len(),
    ensures
        line_breaks(src, from, to) == line_breaks(src, from, middle) + line_breaks(
            src,
            middle,
            to,
        ),
    decreases middle - from,
{
    if from < middle {
        lemma_line_breaks_split(src, from + 1, middle, to);
    }
}

/// Skipping blanks and comments adds to the line no more than the line breaks passed.
proof fn lemma_skip_whitespace_lines(src: Seq<char>, pos: int, line: usize)
    requires
        0 <= pos <= src.len(),
    ensures
        spec_skip_whitespace(src, pos, line).1 <= line + line_breaks(
            src,
            pos,
            spec_skip_whitespace(src, pos, line).0,
        ),
        spec_skip_comment(src, pos, line).1 <= line + line_breaks(
            src,
            pos,
            spec_skip_comment(src, pos, line).0,
        ),
    decreases src.len() - pos,
{
    if pos < src.len() {
        lemma_skip_whitespace_bounds(src, pos + 1, line);
        lemma_skip_whitespace_bounds(src, pos + 1, next_line(line));
        lemma_skip_whitespace_lines(src, pos + 1, line);
        lemma_skip_whitespace_lines(src, pos + 1, next_line(line));
        if pos + 1 < src.len() {
            lemma_skip_whitespace_bounds(src, pos + 2, line);
            lemma_skip_whitespace_lines(src, pos + 2, line);
            let end = spec_skip_comment(src, pos + 2, line).0;
            assert(line_breaks(src, pos + 1, end) == line_breaks(src, pos + 2, end) + if src[pos
                + 1] == '\n' {
                1nat
            } else {
                0nat
            });
        }
    }
}

/// Inside a string the line grows by no more than the line breaks passed.
proof fn lemma_line_after_breaks(src: Seq<char>, from: int, to: int, line: usize)
    ensures
        line_after(src, from, to, line) <= line + line_breaks(src, from, to),
    decreases to - from,
{
    if 0 <= from < to <= src.len() {
        lemma_line_after_breaks(
            src,
            from + 1,
            to,
            if src[from] == '\n' {
                next_line(line)
            } else {
                line
            },
        );
    }
}

/// A token stands on a line that is no further from the line the scanner started on than
/// there are line breaks between where the scanner stood and the end of the token.
pub proof fn lemma_scan_lines(src: Seq<char>, pos: int, line: usize)
    requires
        0 <= pos <= src.len(),
    ensures
        spec_scan_token(src, pos, line).line <= line + line_breaks(
            src,
            pos,
            spec_scan_token(src, pos, line).end,
        ),
{
    lemma_scan_progress(src, pos, line);
    reveal(spec_scan_token);
    lemma_skip_whitespace_bounds(src, pos, line);
    lemma_skip_whitespace_lines(src, pos, line);
    let (start, start_line) = spec_skip_whitespace(src, pos, line);
    let end = spec_scan_token(src, pos, line).end;
    if start < src.len() {
        let close = find_char(src, start + 1, '"');
        lemma_find_char_bounds(src, start + 1, '"');
        lemma_line_after_breaks(src, start + 1, close, start_line);
        lemma_digits_end_bounds(src, start + 1);
        let whole = digits_end(src, start + 1);
        if whole + 2 <= src.len() {
            lemma_digits_end_bounds(src, whole + 2);
        }
        lemma_identifier_end_bounds(src, start + 1);
        assert(start < end <= src.len());
        lemma_line_breaks_split(src, pos, start, end);
        lemma_line_breaks_split(src, start, start + 1, end);
        if spec_scan_token(src, pos, line).line != start_line {
            assert(close <= end);
            lemma_line_breaks_split(src, start + 1, close, end);
        }
    }
}

/// Every token stands on a line of the source: the first line is 1, and there is one more
/// line than there are line breaks.
pub proof fn lemma_token_line_bounds(src: Seq<char>, index: nat)
    ensures
        1 <= spec_token(src, index).line <= 1 + line_breaks(src, 0, src.len() as int),
        1 <= scan_state(src, index).1 <= 1 + line_breaks(src, 0, scan_state(src, index).0),
    decreases index,
{
    lemma_scan_state_bounds(src, index);
    if index > 0 {
        let before = (index - 1) as nat;
        lemma_token_line_bounds(src, before);
        lemma_scan_state_bounds(src, before);
        let (pos, line) = scan_state(src, before);
        lemma_scan_progress(src, pos, line);
        lemma_scan_lines(src, pos, line);
        lemma_line_breaks_split(src, 0, pos, spec_scan_token(src, pos, line).end);
    }
    let (pos, line) = scan_state(src, index);
    lemma_scan_progress(src, pos, line);
    lemma_scan_lines(src, pos, line);
    let end = spec_scan_token(src, pos, line).end;
    lemma_line_breaks_split(src, 0, pos, end);
    lemma_line_breaks_split(src, 0, end, src.len() as int);
}

/// A later token never stands on an earlier line.
pub proof fn lemma_token_lines(src: Seq<char>, first: nat, second: nat)
    requires
        first <= second,
    ensures
        spec_token(src, first).line <= spec_token(src, second).line,
    decreases second,
{
    if first < second {
        let before = (second - 1) as nat;
        lemma_token_lines(src, first, before);
        lemma_scan_state_bounds(src, second);
        lemma_scan_progress(src, scan_state(src, second).0, scan_state(src, second).1);
        assert(scan_state(src, second).1 == spec_token(src, before).line);
    }
}

proof fn lemma_find_char_bounds(src: Seq<char>, pos: int, target: char)
    requires
        0 <= pos <= src.len(),
    ensures
        pos <= find_char(src, pos, target) <= src.len(),
    decreases src.len() - pos,
{
    if pos < src.len() && src[pos] != target {
        lemma_find_char_bounds(src, pos + 1, target);
    }
}

proof fn lemma_digits_end_bounds(src: Seq<char>, pos: int)
    requires
        0 <= pos <= src.len(),
    ensures
        pos <= digits_end(src, pos) <= src.len(),
    decreases src.len() - pos,
{
    if pos < src.len() && char_is_numeric(src[pos]) {
        lemma_digits_end_bounds(src, pos + 1);
    }
}

proof fn lemma_identifier_end_bounds(src: Seq<char>, pos: int)
    requires
        0 <= pos <= src.len(),
    ensures
        pos <= identifier_end(src, pos) <= src.len(),
    decreases src.len() - pos,
{
    if pos < src.len() && is_identifier_char(src[pos]) {
        lemma_identifier_end_bounds(src, pos + 1);
    }
}

proof fn lemma_skip_whitespace_bounds(src: Seq<char>, pos: int, line: usize)
    requires
        0 <= pos <= src.len(),
    ensures
        pos <= spec_skip_whitespace(src, pos, line).0 <= src.len(),
        line <= spec_skip_whitespace(src, pos, line).1,
        pos <= spec_skip_comment(src, pos, line).0 <= src.len(),
        line <= spec_skip_comment(src, pos, line).1,
    decreases src.len() - pos,
{
    if pos < src.len() {
        lemma_skip_whitespace_bounds(src, pos + 1, line);
        lemma_skip_whitespace_bounds(src, pos + 1, next_line(line));
        if pos + 1 < src.len() {
            lemma_skip_whitespace_bounds(src, pos + 2, line);
        }
    }
}

proof fn lemma_line_after_grows(src: Seq<char>, from: int, to: int, line: usize)
    ensures
        line <= line_after(src, from, to, line),
    decreases to - from,
{
    if 0 <= from < to <= src.len() {
        lemma_line_after_grows(
            src,
            from + 1,
            to,
            if src[from] == '\n' {
                next_line(line)
            } else {
                line
            },
        );
    }
}

/// Every token but `Eof` takes at least one character, and `Eof` comes at the end of the
/// source only. The scanner never goes back, in the text or in the line count.
pub proof fn lemma_scan_progress(src: Seq<char>, pos: int, line: usize)
    requires
        0 <= pos <= src.len(),
    ensures
        pos <= spec_scan_token(src, pos, line).end <= src.len(),
        line <= spec_scan_token(src, pos, line).line,
        spec_scan_token(src, pos, line).ty != TokenType::Eof ==> pos < spec_scan_token(
            src,
            pos,
            line,
        ).end,
        spec_scan_token(src, pos, line).ty == TokenType::Eof ==> spec_scan_token(src, pos, line).end
            == src.len(),
{
    reveal(spec_scan_token);
    lemma_skip_whitespace_bounds(src, pos, line);
    let (start, start_line) = spec_skip_whitespace(src, pos, line);
    if start < src.len() {
        lemma_find_char_bounds(src, start + 1, '"');
        lemma_line_after_grows(src, start + 1, find_char(src, start + 1, '"'), start_line);
        lemma_digits_end_bounds(src, start + 1);
        let whole = digits_end(src, start + 1);
        if whole + 2 <= src.len() {
            lemma_digits_end_bounds(src, whole + 2);
        }
        lemma_identifier_end_bounds(src, start + 1);
        lemma_keyword_is_word(src.subrange(start, identifier_end(src, start + 1)));
    }
}

/// A string token holds its two quotes.
pub proof fn lemma_string_token(src: Seq<char>, pos: int, line: usize)
    requires
        0 <= pos <= src.len(),
        spec_scan_token(src, pos, line).ty == TokenType::String,
    ensures
        spec_scan_token(src, pos, line).text.len() >= 2,
{
    reveal(spec_scan_token);
    lemma_skip_whitespace_bounds(src, pos, line);
    let (start, start_line) = spec_skip_whitespace(src, pos, line);
    if start < src.len() {
        lemma_find_char_bounds(src, start + 1, '"');
        lemma_keyword_is_word(src.subrange(start, identifier_end(src, start + 1)));
    }
}

/// A keyword's kind is never `Eof` or `Error`.
proof fn lemma_keyword_is_word(word: Seq<char>)
    ensures
        keyword_type(word) != TokenType::Eof,
        keyword_type(word) != TokenType::Error,
        keyword_type(word) != TokenType::String,
{
}

/// The scanner: the source and a cursor into it.
pub struct Scanner<'a> {
    src: &'a str,
    length: usize,
    start: usize,
    current: usize,
    line: usize,
}

impl<'a> Scanner<'a> {
    /// The characters of the source.
    pub closed spec fn source(&self) -> Seq<char> {
        self.src@
    }

    /// How many characters have been scanned.
    pub closed spec fn position(&self) -> int {
        self.current as int
    }

    /// The line that the scanner stands on, counted from 1.
    pub closed spec fn current_line(&self) -> usize {
        self.line
    }

    /// The cursor lies inside the source.
    pub closed spec fn wf(&self) -> bool {
        &&& self.length == self.src@.len()
        &&& self.start <= self.current <= self.length
    }

    /// The cursor of a well-formed scanner lies inside the source.
    pub proof fn lemma_position_bounds(&self)
        requires
            self.wf(),
        ensures
            0 <= self.position() <= self.source().len(),
            self.source().len() <= usize::MAX,
    {
    }

    /// A scanner at the start of `source`, on line 1.
    pub fn new(source: &'a str) -> (scanner: Scanner<'a>)
        ensures
            scanner.wf(),
            scanner.source() == source@,
            scanner.position() == 0,
            scanner.current_line() == 1,
    {
        Scanner { src: source, length: source.unicode_len(), start: 0, current: 0, line: 1 }
    }

    /// Scans the next token. At the end of the source every call yields `Eof`.
    pub fn scan_token(&mut self) -> (token: Token)
        requires
            old(self).wf(),
        ensures
            final(self).wf(),
            final(self).source() == old(self).source(),
            token.ty == spec_scan_token(
                old(self).source(),
                old(self).position(),
                old(self).current_line(),
            ).ty,
            token.string@ == spec_scan_token(
                old(self).source(),
                old(self).position(),
                old(self).current_line(),
            ).text,
            token.line == spec_scan_token(
                old(self).source(),
                old(self).position(),
                old(self).current_line(),
            ).line,
            final(self).position() == spec_scan_token(
                old(self).source(),
                old(self).position(),
                old(self).current_line(),
            ).end,
            final(self).current_line() == token.line,
    {
        proof {
            reveal(spec_scan_token);
        }
        self.skip_whitespace();
        self.start = self.current;
        if self.is_at_end() {
            return self.make_token(TokenType::Eof);
        }
        let c = self.advance();
        match lead(c, c.is_numeric(), c.is_alphabetic()) {
            Lead::Single(ty) => self.make_token(ty),
            Lead::OneOrTwo(if_yes, if_no) => self.conditional_token('=', if_yes, if_no),
            Lead::Quote => self.string(),
            Lead::Digit => self.number(),
            Lead::Letter => self.identifier(),
            Lead::Unexpected => self.error_token("Unepxected charater"),
        }
    }

    /// Takes the next character.
    fn advance(&mut self) -> (c: char)
        requires
            old(self).wf(),
            old(self).current < old(self).length,
        ensures
            final(self).wf(),
            c == old(self).src@[old(self).current as int],
            final(self).current == old(self).current + 1,
            final(self).src == old(self).src,
            final(self).start == old(self).start,
            final(self).line == old(self).line,
    {
        self.current += 1;
        self.src.get_char(self.current - 1)
    }

    /// Takes the next character if it is `ch`.
    fn match_char(&mut self, ch: char) -> (matched: bool)
        requires
            old(self).wf(),
        ensures
            final(self).wf(),
            matched == (old(self).current < old(self).length && old(self).src@[old(
                self,
            ).current as int] == ch),
            final(self).current == old(self).current + if matched {
                1int
            } else {
                0int
            },
            final(self).src == old(self).src,
            final(self).start == old(self).start,
            final(self).line == old(self).line,
    {
        if self.is_at_end() {
            return false;
        }
        if self.src.get_char(self.current) != ch {
            return false;
        }
        self.current += 1;
        true
    }

    /// The next character, or NUL at the end of the source.
    fn peek(&self) -> (c: char)
        requires
            self.wf(),
        ensures
            c == if self.current < self.length {
                self.src@[self.current as int]
            } else {
                '\0'
            },
    {
        if self.current < self.length {
            self.src.get_char(self.current)
        } else {
            '\0'
        }
    }

    /// The character after the next, or NUL where the source ends before it.
    fn peek_next(&self) -> (c: char)
        requires
            self.wf(),
        ensures
            c == if self.current + 1 < self.length {
                self.src@[self.current + 1]
            } else {
                '\0'
            },
    {
        if self.current < self.length && self.current + 1 < self.length {
            self.src.get_char(self.current + 1)
        } else {
            '\0'
        }
    }

    /// Whether the whole source has been scanned.
    fn is_at_end(&self) -> (at_end: bool)
        requires
            self.wf(),
        ensures
            at_end == (self.current >= self.length),
    {
        self.current >= self.length
    }

    /// The token of kind `ty` whose text runs from the token's start to the cursor.
    fn make_token(&self, ty: TokenType) -> (token: Token)
        requires
            self.wf(),
        ensures
            token.ty == ty,
            token.string@ == self.src@.subrange(self.start as int, self.current as int),
            token.line == self.line,
    {
        Token {
            ty,
            string: String::from_str(self.src.substring_char(self.start, self.current)),
            line: self.line,
        }
    }

    /// A token of two characters if `ch` comes next, else of one.
    fn conditional_token(&mut self, ch: char, if_yes: TokenType, if_no: TokenType) -> (token: Token)
        requires
            old(self).wf(),
            old(self).current == old(self).start + 1,
        ensures
            final(self).wf(),
            final(self).src == old(self).src,
            final(self).line == old(self).line,
            token.ty == one_or_two(
                old(self).src@,
                old(self).start as int,
                old(self).line,
                ch,
                if_yes,
                if_no,
            ).ty,
            token.string@ == one_or_two(
                old(self).src@,
                old(self).start as int,
                old(self).line,
                ch,
                if_yes,
                if_no,
            ).text,
            token.line == old(self).line,
            final(self).current == one_or_two(
                old(self).src@,
                old(self).start as int,
                old(self).line,
                ch,
                if_yes,
                if_no,
            ).end,
    {
        if self.match_char(ch) {
            self.make_token(if_yes)
        } else {
            self.make_token(if_no)
        }
    }

    /// An error token that carries `msg`.
    fn error_token(&self, msg: &'static str) -> (token: Token)
        ensures
            token.ty == TokenType::Error,
            token.string@ == msg@,
            token.line == self.line,
    {
        Token { ty: TokenType::Error, string: String::from_str(msg), line: self.line }
    }

    /// Moves the cursor over blanks, line breaks and comments.
    fn skip_whitespace(&mut self)
        requires
            old(self).wf(),
        ensures
            final(self).wf(),
            final(self).src == old(self).src,
            (final(self).current as int, final(self).line) == spec_skip_whitespace(
                old(self).src@,
                old(self).current as int,
                old(self).line,
            ),
    {
        loop
            invariant
                self.wf(),
                self.src == old(self).src,
                self.current >= old(self).current,
                spec_skip_whitespace(self.src@, self.current as int, self.line)
                    == spec_skip_whitespace(
                    old(self).src@,
                    old(self).current as int,
                    old(self).line,
                ),
            decreases self.length - self.current,
        {
            if self.is_at_end() {
                return ;
            }
            let c = self.peek();
            if c == ' ' || c == '\t' || c == '\r' {
                self.advance();
            } else if c == '\n' {
                self.bump_line();
                self.advance();
            } else if c == '/' && self.peek_next() == '/' && self.current + 1 < self.length {
                let ghost comment = self.current;
                self.advance();
                self.advance();
                while !self.is_at_end() && self.peek() != '\n'
                    invariant
                        self.wf(),
                        self.src == old(self).src,
                        self.current >= old(self).current,
                        self.current > comment,
                        self.length == self.src@.len(),
                        spec_skip_comment(self.src@, self.current as int, self.line)
                            == spec_skip_whitespace(
                            old(self).src@,
                            old(self).current as int,
                            old(self).line,
                        ),
                    decreases self.length - self.current,
                {
                    self.advance();
                }
                if self.is_at_end() {
                    return ;
                }
                self.bump_line();
                self.advance();
            } else {
                return ;
            }
        }
    }

    /// Counts one more line.
    fn bump_line(&mut self)
        ensures
            final(self).line == next_line(old(self).line),
            final(self).src == old(self).src,
            final(self).length == old(self).length,
            final(self).start == old(self).start,
            final(self).current == old(self).current,
    {
        if self.line < usize::MAX {
            self.line += 1;
        }
    }

    /// Scans a string literal; the opening quote has been taken.
    fn string(&mut self) -> (token: Token)
        requires
            old(self).wf(),
            old(self).current == old(self).start + 1,
        ensures
            final(self).wf(),
            final(self).src == old(self).src,
            ({
                let src = old(self).src@;
                let start = old(self).start as int;
                let close = find_char(src, start + 1, '"');
                let last_line = line_after(src, start + 1, close, old(self).line);
                &&& token.line == last_line
                &&& final(self).line == last_line
                &&& close < src.len() ==> token.ty == TokenType::String && token.string@
                    == src.subrange(start, close + 1) && final(self).current == close + 1
                &&& close >= src.len() ==> token.ty == TokenType::Error && token.string@
                    == unterminated_string_message() && final(self).current == close
            }),
    {
        let ghost first = self.current as int;
        while !self.is_at_end() && self.peek() != '"'
            invariant
                self.wf(),
                self.src == old(self).src,
                self.start == old(self).start,
                first <= self.current,
                find_char(self.src@, self.current as int, '"') == find_char(
                    self.src@,
                    first,
                    '"',
                ),
                line_after(
                    self.src@,
                    self.current as int,
                    find_char(self.src@, first, '"'),
                    self.line,
                ) == line_after(self.src@, first, find_char(self.src@, first, '"'), old(self).line),
            decreases self.length - self.current,
        {
            proof {
                lemma_find_char_bounds(self.src@, self.current + 1, '"');
            }
            if self.peek() == '\n' {
                self.bump_line();
            }
            self.advance();
        }
        if self.is_at_end() {
            return self.error_token("Unterminated String");
        }
        self.advance();
        self.make_token(TokenType::String)
    }

    /// Moves the cursor over a run of digits.
    fn digits(&mut self)
        requires
            old(self).wf(),
        ensures
            final(self).wf(),
            final(self).src == old(self).src,
            final(self).start == old(self).start,
            final(self).line == old(self).line,
            final(self).current == digits_end(old(self).src@, old(self).current as int),
    {
        while !self.is_at_end() && self.peek().is_numeric()
            invariant
                self.wf(),
                self.src == old(self).src,
                self.start == old(self).start,
                self.line == old(self).line,
                digits_end(self.src@, self.current as int) == digits_end(
                    old(self).src@,
                    old(self).current as int,
                ),
            decreases self.length - self.current,
        {
            self.advance();
        }
    }

    /// Scans a number; its first digit has been taken.
    fn number(&mut self) -> (token: Token)
        requires
            old(self).wf(),
            old(self).current == old(self).start + 1,
        ensures
            final(self).wf(),
            final(self).src == old(self).src,
            final(self).line == old(self).line,
            token.ty == TokenType::Number,
            token.line == old(self).line,
            token.string@ == old(self).src@.subrange(
                old(self).start as int,
                number_end(old(self).src@, old(self).start as int),
            ),
            final(self).current == number_end(old(self).src@, old(self).start as int),
    {
        self.digits();
        if self.peek() == '.' && self.current + 1 < self.length && self.peek_next().is_numeric() {
            self.advance();
            self.digits();
        }
        self.make_token(TokenType::Number)
    }

    /// Scans an identifier or a keyword; its first character has been taken.
    fn identifier(&mut self) -> (token: Token)
        requires
            old(self).wf(),
            old(self).current == old(self).start + 1,
        ensures
            final(self).wf(),
            final(self).src == old(self).src,
            final(self).line == old(self).line,
            token.line == old(self).line,
            final(self).current == identifier_end(old(self).src@, old(self).start + 1),
            token.string@ == old(self).src@.subrange(
                old(self).start as int,
                final(self).current as int,
            ),
            token.ty == keyword_type(token.string@),
    {
        while !self.is_at_end() && (Self::is_alpha(self.peek()) || self.peek().is_numeric())
            invariant
                self.wf(),
                self.src == old(self).src,
                self.start == old(self).start,
                self.line == old(self).line,
                self.start < self.current,
                identifier_end(self.src@, self.current as int) == identifier_end(
                    old(self).src@,
                    old(self).current as int,
                ),
            decreases self.length - self.current,
        {
            self.advance();
        }
        let ty = self.identifier_type();
        self.make_token(ty)
    }

    /// Whether the character may start an identifier.
    fn is_alpha(ch: char) -> (alpha: bool)
        ensures
            alpha == spec_is_alpha(ch),
    {
        starts_identifier(ch, ch.is_alphabetic())
    }

    /// `ty` if the word under the cursor, less its first character, is `val`; else
    /// `Identifier`.
    fn check_keyword(&self, val: &str, ty: TokenType) -> (found: TokenType)
        requires
            self.wf(),
            self.start < self.current,
        ensures
            found == if self.src@.subrange(self.start + 1, self.current as int) == val@ {
                ty
            } else {
                TokenType::Identifier
            },
    {
        let rest = self.src.substring_char(self.start + 1, self.current);
        if same_text(rest, val) {
            ty
        } else {
            TokenType::Identifier
        }
    }

    /// The kind of the word under the cursor: a keyword's, or `Identifier`.
    fn identifier_type(&self) -> (ty: TokenType)
        requires
            self.wf(),
            self.start < self.current,
        ensures
            ty == keyword_type(self.src@.subrange(self.start as int, self.current as int)),
    {
        let ghost word = self.src@.subrange(self.start as int, self.current as int);
        let ghost rest = self.src@.subrange(self.start + 1, self.current as int);
        proof {
            reveal_strlit("and");
            reveal_strlit("class");
            reveal_strlit("else");
            reveal_strlit("false");
            reveal_strlit("for");
            reveal_strlit("fun");
            reveal_strlit("if");
            reveal_strlit("nil");
            reveal_strlit("or");
            reveal_strlit("print");
            reveal_strlit("return");
            reveal_strlit("super");
            reveal_strlit("this");
            reveal_strlit("true");
            reveal_strlit("var");
            reveal_strlit("while");
            reveal_strlit("nd");
            reveal_strlit("lass");
            reveal_strlit("lse");
            reveal_strlit("alse");
            reveal_strlit("un");
            reveal_strlit("f");
            reveal_strlit("il");
            reveal_strlit("r");
            reveal_strlit("rint");
            reveal_strlit("eturn");
            reveal_strlit("uper");
            reveal_strlit("his");
            reveal_strlit("rue");
            reveal_strlit("ar");
            reveal_strlit("hile");
            lemma_word_by_rest(word, rest, "and"@, "nd"@);
            lemma_word_by_rest(word, rest, "class"@, "lass"@);
            lemma_word_by_rest(word, rest, "else"@, "lse"@);
            lemma_word_by_rest(word, rest, "false"@, "alse"@);
            lemma_word_by_rest(word, rest, "for"@, "or"@);
            lemma_word_by_rest(word, rest, "fun"@, "un"@);
            lemma_word_by_rest(word, rest, "if"@, "f"@);
            lemma_word_by_rest(word, rest, "nil"@, "il"@);
            lemma_word_by_rest(word, rest, "or"@, "r"@);
            lemma_word_by_rest(word, rest, "print"@, "rint"@);
            lemma_word_by_rest(word, rest, "return"@, "eturn"@);
            lemma_word_by_rest(word, rest, "super"@, "uper"@);
            lemma_word_by_rest(word, rest, "this"@, "his"@);
            lemma_word_by_rest(word, rest, "true"@, "rue"@);
            lemma_word_by_rest(word, rest, "var"@, "ar"@);
            lemma_word_by_rest(word, rest, "while"@, "hile"@);
        }
        let first = self.src.get_char(self.start);
        assert(word[0] == first);
        assert(rest.len() > 0 ==> rest[0] == self.src@[self.start + 1]);
        if first == 'a' {
            self.check_keyword("nd", TokenType::And)
        } else if first == 'c' {
            self.check_keyword("lass", TokenType::Class)
        } else if first == 'e' {
            self.check_keyword("lse", TokenType::Else)
        } else if first == 'f' {
            if self.current - self.start > 1 {
                let second = self.src.get_char(self.start + 1);
                if second == 'a' {
                    self.check_keyword("alse", TokenType::False)
                } else if second == 'o' {
                    self.check_keyword("or", TokenType::For)
                } else if second == 'u' {
                    self.check_keyword("un", TokenType::Fun)
                } else {
                    TokenType::Identifier
                }
            } else {
                TokenType::Identifier
            }
        } else if first == 'i' {
            self.check_keyword("f", TokenType::If)
        } else if first == 'n' {
            self.check_keyword("il", TokenType::Nil)
        } else if first == 'o' {
            self.check_keyword("r", TokenType::Or)
        } else if first == 'p' {
            self.check_keyword("rint", TokenType::Print)
        } else if first == 'r' {
            self.check_keyword("eturn", TokenType::Return)
        } else if first == 's' {
            self.check_keyword("uper", TokenType::Super)
        } else if first == 't' {
            if self.current - self.start > 1 {
                let second = self.src.get_char(self.start + 1);
                if second == 'h' {
                    self.check_keyword("his", TokenType::This)
                } else if second == 'r' {
                    self.check_keyword("rue", TokenType::True)
                } else {
                    TokenType::Identifier
                }
            } else {
                TokenType::Identifier
            }
        } else if first == 'v' {
            self.check_keyword("ar", TokenType::Var)
        } else if first == 'w' {
            self.check_keyword("hile", TokenType::While)
        } else {
            TokenType::Identifier
        }
    }
}

/// A word equals a keyword exactly when their first characters and their rests are equal.
proof fn lemma_word_by_rest(word: Seq<char>, rest: Seq<char>, keyword: Seq<char>, tail: Seq<char>)
    requires
        word.len() == rest.len() + 1,
        forall|i: int| 0 <= i < rest.len() ==> rest[i] == word[i + 1],
        keyword.len() == tail.len() + 1,
        forall|i: int| 0 <= i < tail.len() ==> tail[i] == keyword[i + 1],
    ensures
        word == keyword <==> word[0] == keyword[0] && rest == tail,
{
    if word[0] == keyword[0] && rest == tail {
        assert forall|i: int| 0 <= i < word.len() implies word[i] == keyword[i] by {
            if i > 0 {
                assert(rest[i - 1] == tail[i - 1]);
            }
        }
        assert(word =~= keyword);
    }
    if word == keyword {
        assert(rest =~= tail);
    }
}

/// Whether two texts hold the same characters.
pub fn same_text(a: &str, b: &str) -> (same: bool)
    ensures
        same == (a@ == b@),
{
    let n = a.unicode_len();
    if n != b.unicode_len() {
        return false;
    }
    let mut i: usize = 0;
    while i < n
        invariant
            i <= n,
            n == a@.len(),
            n == b@.len(),
            forall|j: int| 0 <= j < i ==> a@[j] == b@[j],
        decreases n - i,
    {
        if a.get_char(i) != b.get_char(i) {
            return false;
        }
        i += 1;
    }
    assert(a@ =~= b@);
    true
}

/// The texts of the number tokens among the first `count` tokens of `src`, in order.
pub open spec fn number_texts(src: Seq<char>, count: nat) -> Seq<Seq<char>>
    decreases count,
{
    if count == 0 {
        Seq::<Seq<char>>::empty()
    } else {
        let before = number_texts(src, (count - 1) as nat);
        if spec_token(src, (count - 1) as nat).ty == TokenType::Number {
            before.push(spec_token(src, (count - 1) as nat).text)
        } else {
            before
        }
    }
}

/// The source has `count` tokens before its first `Eof`.
pub open spec fn token_count_is(src: Seq<char>, count: nat) -> bool {
    &&& spec_token(src, count).ty == TokenType::Eof
    &&& forall|k: nat| k < count ==> (#[trigger] spec_token(src, k)).ty != TokenType::Eof
}

/// The texts of the number tokens of a source, in order. A caller that works with doubles
/// turns each into its value and hands the values to the compiler.
pub fn number_literals(source: &str) -> (texts: Vec<String>)
    ensures
        exists|count: nat|
            token_count_is(source@, count) && #[trigger] number_texts(source@, count)
                == texts.deep_view(),
        texts@.len() <= source@.len(),
{
    let mut scanner = Scanner::new(source);
    let mut texts: Vec<String> = Vec::new();
    let ghost mut count: nat = 0;
    let mut done = false;
    proof {
        assert(texts.deep_view() =~= number_texts(source@, 0));
    }
    while !done
        invariant
            scanner.wf(),
            scanner.source() == source@,
            !done ==> (scanner.position(), scanner.current_line()) == scan_state(source@, count),
            texts.deep_view() == number_texts(source@, count),
            forall|k: nat| k < count ==> (#[trigger] spec_token(source@, k)).ty != TokenType::Eof,
            texts@.len() <= scanner.position(),
            done ==> spec_token(source@, count).ty == TokenType::Eof,
        decreases source@.len() - scanner.position(), (if done { 0int } else { 1int }),
    {
        proof {
            scanner.lemma_position_bounds();
            lemma_scan_progress(source@, scanner.position(), scanner.current_line());
        }
        let ghost before = texts.deep_view();
        let token = scanner.scan_token();
        if token.ty == TokenType::Eof {
            done = true;
        } else {
            if token.ty == TokenType::Number {
                texts.push(token.string);
                proof {
                    assert(texts.deep_view() =~= before.push(spec_token(source@, count).text));
                }
            }
            proof {
                count = count + 1;
            }
        }
    }
    proof {
        scanner.lemma_position_bounds();
    }
    texts
}

} // verus!
