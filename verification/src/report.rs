//! The texts of the diagnostics: what is written for a compile error and for a runtime error.

use vstd::prelude::*;
use vstd::string::StringExecFns;
use crate::scanner::TokenType;

verus! {

/// The character of a decimal digit.
pub open spec fn digit_char(digit: nat) -> char {
    if digit == 0 {
        '0'
    } else if digit == 1 {
        '1'
    } else if digit == 2 {
        '2'
    } else if digit == 3 {
        '3'
    } else if digit == 4 {
        '4'
    } else if digit == 5 {
        '5'
    } else if digit == 6 {
        '6'
    } else if digit == 7 {
        '7'
    } else if digit == 8 {
        '8'
    } else {
        '9'
    }
}

/// A number in decimal, without leading zeros.
pub open spec fn spec_decimal(n: nat) -> Seq<char>
    decreases n,
{
    if n < 10 {
        seq![digit_char(n)]
    } else {
        spec_decimal(n / 10).push(digit_char(n % 10))
    }
}

/// The text of one decimal digit.
fn digit_text(digit: usize) -> (text: &'static str)
    requires
        digit < 10,
    ensures
        text@ == seq![digit_char(digit as nat)],
{
    proof {
        reveal_strlit("0");
        reveal_strlit("1");
        reveal_strlit("2");
        reveal_strlit("3");
        reveal_strlit("4");
        reveal_strlit("5");
        reveal_strlit("6");
        reveal_strlit("7");
        reveal_strlit("8");
        reveal_strlit("9");
    }
    let text = if digit == 0 {
        "0"
    } else if digit == 1 {
        "1"
    } else if digit == 2 {
        "2"
    } else if digit == 3 {
        "3"
    } else if digit == 4 {
        "4"
    } else if digit == 5 {
        "5"
    } else if digit == 6 {
        "6"
    } else if digit == 7 {
        "7"
    } else if digit == 8 {
        "8"
    } else {
        "9"
    };
    assert(text@ =~= seq![digit_char(digit as nat)]);
    text
}

/// Writes a number in decimal.
pub fn decimal(n: usize) -> (text: String)
    ensures
        text@ == spec_decimal(n as nat),
    decreases n,
{
    if n < 10 {
        String::from_str(digit_text(n))
    } else {
        let mut text = decimal(n / 10);
        text.append(digit_text(n % 10));
        assert(text@ =~= spec_decimal(n as nat));
        text
    }
}

/// What is written for a runtime error: the message, then the line of the instruction
/// that failed.
pub open spec fn spec_runtime_report(message: Seq<char>, line: nat) -> Seq<char> {
    message + "\n[line "@ + spec_decimal(line) + "] in script\n\n"@
}

/// The text of a runtime error.
pub fn runtime_report(message: &str, line: usize) -> (report: String)
    ensures
        report@ == spec_runtime_report(message@, line as nat),
{
    let mut report = String::from_str(message);
    report.append("\n[line ");
    report.append(decimal(line).as_str());
    report.append("] in script\n\n");
    report
}

/// What is written for a compile error at a token: the line, where the error is (nothing
/// for a token of the scanner's own errors), and the message.
pub open spec fn spec_compile_report(
    ty: TokenType,
    lexeme: Seq<char>,
    line: nat,
    message: Seq<char>,
) -> Seq<char> {
    "[line "@ + spec_decimal(line) + "] Error"@ + (if ty == TokenType::Eof {
        " at end"@
    } else if ty == TokenType::Error {
        Seq::<char>::empty()
    } else {
        " at '"@ + lexeme + "'"@
    }) + ": "@ + message + "\n"@
}

/// The text of a compile error at a token.
pub fn compile_report(ty: TokenType, lexeme: &str, line: usize, message: &str) -> (report: String)
    ensures
        report@ == spec_compile_report(ty, lexeme@, line as nat, message@),
{
    let mut report = String::from_str("[line ");
    report.append(decimal(line).as_str());
    report.append("] Error");
    if ty == TokenType::Eof {
        report.append(" at end");
    } else if ty == TokenType::Error {
        assert(report@ + Seq::<char>::empty() =~= report@);
    } else {
        let ghost before = report@;
        report.append(" at '");
        report.append(lexeme);
        report.append("'");
        assert(report@ =~= before + (" at '"@ + lexeme@ + "'"@));
    }
    report.append(": ");
    report.append(message);
    report.append("\n");
    report
}

} // verus!
