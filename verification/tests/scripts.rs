//! Whole programs: compiled, run to the end, and judged by what they write.

use rlox::scanner::number_literals;
use rlox::vm::{Action, ArithOp, InterpreterError, Printed, VM};

/// What a run of a program leaves: how it ended, and what it wrote to the two streams.
struct Outcome {
    result: Result<(), InterpreterError>,
    stdout: String,
    stderr: String,
}

/// The value of each number token of the source, as the bits of a double.
fn number_values(source: &str) -> Vec<u64> {
    number_literals(source)
        .iter()
        .map(|text| text.parse::<f64>().unwrap().to_bits())
        .collect()
}

/// Carries out what a step of the machine leaves to its caller, until the program ends.
fn drive(vm: &mut VM, source: &str) -> Outcome {
    let numbers = number_values(source);
    let mut stdout = String::new();
    let mut stderr = String::new();
    let mut action = vm.interpret(source, &numbers);
    loop {
        match action {
            Action::Continue => {}
            Action::Print(Printed::Text(text)) => {
                stdout.push_str(&text);
                stdout.push('\n');
            }
            Action::Print(Printed::Number(bits)) => {
                stdout.push_str(&format!("{}\n", f64::from_bits(bits)));
            }
            Action::Arithmetic { op, lhs, rhs } => {
                let (a, b) = (f64::from_bits(lhs), f64::from_bits(rhs));
                let result = match op {
                    ArithOp::Add => a + b,
                    ArithOp::Subtract => a - b,
                    ArithOp::Multiply => a * b,
                    ArithOp::Divide => a / b,
                };
                assert!(vm.complete_arithmetic(result.to_bits()));
            }
            Action::Halt => {
                return Outcome { result: Ok(()), stdout, stderr };
            }
            Action::Fail { error, report } => {
                stderr.push_str(&report);
                return Outcome { result: Err(error), stdout, stderr };
            }
        }
        action = vm.run(1_000_000);
    }
}

fn run(source: &str) -> Outcome {
    let mut vm = VM::empty_new();
    drive(&mut vm, source)
}

fn assert_prints(source: &str, expected: &str) {
    let outcome = run(source);
    println!("======== stdout: \n{}", &outcome.stdout);
    println!("======== stderr: \n{}", &outcome.stderr);
    assert_eq!(outcome.result, Ok(()));
    assert_eq!(outcome.stdout, expected);
    assert_eq!(outcome.stderr, "");
}

const IF_SCRIPT: &str = "

    print 0;
	if ( 1 < 3) {
		print 1;
	}
    if (1 > 3) {
        print 2;
    }
    print 3;
";

const IF_ELSE_SCRIPT: &str = r#"

    print 0;
	if ( 1 > 3) {
		print 1;
	}
    else  {
        print 2;
    }

	if ( 1 < 3) {
		print 3;
	}
    else  {
        print 4;
    }
    
    print 5;
"#;

const OR_AND_SCRIPT: &str = r#"
    print 0 or 2;
    print 1 or 7;
    print 0 and 2;
    print 1 and 7;
"#;

const SCOPE_SCRIPT: &str = "
var a = 3;
a  = a + 2;

var b = 9;

{
	var b = 7;
	b = b + a;
	print b;
}

print a;
print b;
";

const SCOPE_ERROR_SCRIPT: &str = "
var a = 3;
a  = a + 2;

var b = 9;

{
	var b = b; // this should show error
}

print a;
print b;
";

const WHILE_SCRIPT: &str = "var x = 0; while (x < 3) { print x; x = x + 1; }";

const FOR_SCRIPT: &str = "for (var i = 0; i < 3; i = i + 1) print i;";

#[test]
fn test_jump_test_if() {
    assert_prints(IF_SCRIPT, "0\n1\n3\n");
}

#[test]
fn test_jump_test_if_else() {
    assert_prints(IF_ELSE_SCRIPT, "0\n2\n3\n5\n");
}

#[test]
fn test_jump_test_or_and() {
    // Zero is truthy: `0 or 2` is 0, and `0 and 2` is 2.
    assert_prints(OR_AND_SCRIPT, "0\n1\n2\n7\n");
}

#[test]
fn test_scope_test_scope() {
    assert_prints(SCOPE_SCRIPT, "12\n5\n9\n");
}

#[test]
fn test_scope_test_scope_error() {
    let outcome = run(SCOPE_ERROR_SCRIPT);
    assert_eq!(outcome.result, Err(InterpreterError::CompileError));
    assert_eq!(outcome.stdout, "");
    assert_eq!(
        outcome.stderr,
        "[line 8] Error at 'b': Can't read local variable in its own initializer.\n"
    );
}

#[test]
fn test_scripts_test_scope() {
    assert_prints(SCOPE_SCRIPT, "12\n5\n9\n");
}

#[test]
fn test_scripts_test_scope_error() {
    let outcome = run(SCOPE_ERROR_SCRIPT);
    assert_eq!(outcome.result, Err(InterpreterError::CompileError));
    assert!(outcome
        .stderr
        .contains("Can't read local variable in its own initializer."));
}

#[test]
fn test_scripts_test_if() {
    assert_prints(IF_SCRIPT, "0\n1\n3\n");
}

#[test]
fn test_scripts_test_if_else() {
    assert_prints(IF_ELSE_SCRIPT, "0\n2\n3\n5\n");
}

#[test]
fn test_scripts_test_or_and() {
    assert_prints(OR_AND_SCRIPT, "0\n1\n2\n7\n");
}

#[test]
fn test_while() {
    assert_prints(WHILE_SCRIPT, "0\n1\n2\n");
}

#[test]
fn test_for() {
    assert_prints(FOR_SCRIPT, "0\n1\n2\n");
}

#[test]
fn arithmetic_follows_precedence() {
    assert_prints("print 1 + 2 * 3;", "7\n");
    assert_prints("print (1 + 2) * 3;", "9\n");
    assert_prints("print 10 - 4 - 3;", "3\n");
    assert_prints("print 8 / 2 / 2;", "2\n");
    assert_prints("print -2 * 3;", "-6\n");
    assert_prints("print 1.5 + 2.25;", "3.75\n");
}

#[test]
fn if_takes_one_branch() {
    assert_prints("if (1 < 2) print \"y\"; else print \"n\";", "y\n");
    assert_prints("if (2 < 1) print \"y\"; else print \"n\";", "n\n");
    assert_prints("if (nil) print \"y\";", "");
}

#[test]
fn division_by_zero_follows_the_doubles() {
    assert_prints("print 1 / 0;", "inf\n");
    assert_prints("print -1 / 0;", "-inf\n");
    assert_prints("print 0 / 0;", "NaN\n");
    assert_prints("print 0 / 0 == 0 / 0;", "false\n");
}

#[test]
fn strings_concatenate() {
    assert_prints("var a = \"foo\"; var b = \"bar\"; print a + b;", "foobar\n");
    assert_prints("print \"\" + \"\";", "\n");
}

#[test]
fn equal_strings_are_one_object() {
    assert_prints("print \"ab\" == \"ab\";", "true\n");
    assert_prints("print \"a\" + \"b\" == \"ab\";", "true\n");
    assert_prints("print \"ab\" == \"ba\";", "false\n");
    assert_prints("var a = \"x\"; var b = \"x\"; print a == b;", "true\n");
}

#[test]
fn values_of_different_kinds_differ() {
    assert_prints("print nil == false;", "false\n");
    assert_prints("print 0 == false;", "false\n");
    assert_prints("print \"1\" == 1;", "false\n");
    assert_prints("print nil == nil;", "true\n");
    assert_prints("print true != false;", "true\n");
}

#[test]
fn comparisons() {
    assert_prints("print 1 < 2; print 2 < 1; print 2 <= 2; print 3 >= 4; print 3 > 2;",
        "true\nfalse\ntrue\nfalse\ntrue\n");
    assert_prints("print -0 == 0; print -1 < 0; print -2 < -1;", "true\ntrue\ntrue\n");
}

#[test]
fn only_nil_and_false_are_falsey() {
    assert_prints("print !nil; print !false; print !true; print !0; print !\"\";",
        "true\ntrue\nfalse\nfalse\nfalse\n");
}

#[test]
fn print_of_an_expression_and_of_a_variable_agree() {
    let sources = ["1 + 2 * 3", "\"a\" + \"b\"", "nil", "!true", "1 < 2", "0 or 2", "1 and 7"];
    for expression in sources {
        let direct = run(&format!("print {};", expression));
        let through = run(&format!("var _t = {}; print _t;", expression));
        assert_eq!(direct.result, Ok(()));
        assert_eq!(through.result, Ok(()));
        assert_eq!(direct.stdout, through.stdout);
    }
}

#[test]
fn locals_shadow_and_scopes_end() {
    assert_prints("{ var a = 1; { var a = 2; print a; } print a; }", "2\n1\n");
    assert_prints("var a = 1; { var b = a + 1; print b; } print a;", "2\n1\n");
    assert_prints("{ var a; print a; a = 3; print a; }", "nil\n3\n");
}

#[test]
fn assignment_is_an_expression() {
    assert_prints("var a = 1; var b = 2; a = b = 3; print a; print b;", "3\n3\n");
    assert_prints("var a; print a = 2;", "2\n");
}

#[test]
fn reading_a_local_in_its_initializer_is_an_error() {
    let outcome = run("{ var a = 3; { var a = a; print a; } }");
    assert_eq!(outcome.result, Err(InterpreterError::CompileError));
    assert_eq!(
        outcome.stderr,
        "[line 1] Error at 'a': Can't read local variable in its own initializer.\n"
    );
    assert_eq!(outcome.stdout, "");
}

#[test]
fn compile_errors_are_reported_with_line_and_place() {
    let outcome = run("print 1");
    assert_eq!(outcome.result, Err(InterpreterError::CompileError));
    assert_eq!(outcome.stderr, "[line 1] Error at end: Expect ';' after value.\n");

    let outcome = run("var a = 1;\nvar b = 2;\na + b = 3;");
    assert_eq!(outcome.result, Err(InterpreterError::CompileError));
    assert_eq!(outcome.stderr, "[line 3] Error at '=': Invalid assignment target\n");

    let outcome = run("print ;");
    assert_eq!(outcome.stderr, "[line 1] Error at ';': Expect expression.\n");

    let outcome = run("{ var a = 1; var a = 2; }");
    assert_eq!(
        outcome.stderr,
        "[line 1] Error at 'a': Already a variable with this name in this scope.\n"
    );

    let outcome = run("print @;");
    assert_eq!(outcome.result, Err(InterpreterError::CompileError));
    assert_eq!(outcome.stderr, "[line 1] Error: Unepxected charater\n");

    let outcome = run("print \"abc;");
    assert_eq!(outcome.result, Err(InterpreterError::CompileError));
    assert!(outcome.stderr.starts_with("[line 1] Error: Unterminated String\n"));
}

#[test]
fn errors_after_the_first_are_kept_back_until_the_next_statement() {
    let outcome = run("print 1 +; print 2 *;");
    assert_eq!(outcome.result, Err(InterpreterError::CompileError));
    assert_eq!(
        outcome.stderr,
        "[line 1] Error at ';': Expect expression.\n[line 1] Error at ';': Expect expression.\n"
    );
    let outcome = run("print (1 + ;");
    assert_eq!(outcome.stderr, "[line 1] Error at ';': Expect expression.\n");
}

#[test]
fn runtime_errors_name_the_line() {
    let outcome = run("print 1;\nprint -nil;");
    assert_eq!(outcome.result, Err(InterpreterError::RuntimeError));
    assert_eq!(outcome.stdout, "1\n");
    assert_eq!(outcome.stderr, "Operand must be a number.\n[line 2] in script\n\n");

    let outcome = run("print 1 + nil;");
    assert_eq!(
        outcome.stderr,
        "Operands must be two numbers or two strings.\n[line 1] in script\n\n"
    );

    let outcome = run("print 1 < \"a\";");
    assert_eq!(outcome.stderr, "Operands must be numbers.\n[line 1] in script\n\n");

    let outcome = run("print \"a\" * 2;");
    assert_eq!(outcome.stderr, "Operands must be numbers.\n[line 1] in script\n\n");

    let outcome = run("\n\nprint missing;");
    assert_eq!(outcome.result, Err(InterpreterError::RuntimeError));
    assert_eq!(outcome.stderr, "Undefined variable 'missing'\n[line 3] in script\n\n");

    let outcome = run("missing = 1;");
    assert_eq!(outcome.result, Err(InterpreterError::RuntimeError));
    assert_eq!(outcome.stderr, "Undefined variable 'missing'.\n[line 1] in script\n\n");
}

#[test]
fn a_failed_assignment_defines_nothing() {
    let mut vm = VM::empty_new();
    let first = drive(&mut vm, "missing = 1;");
    assert_eq!(first.result, Err(InterpreterError::RuntimeError));
    let second = drive(&mut vm, "print missing;");
    assert_eq!(second.result, Err(InterpreterError::RuntimeError));
    assert_eq!(second.stderr, "Undefined variable 'missing'\n[line 1] in script\n\n");
}

#[test]
fn globals_and_strings_outlive_a_program() {
    let mut vm = VM::empty_new();
    assert_eq!(drive(&mut vm, "var greeting = \"hi\";").result, Ok(()));
    let outcome = drive(&mut vm, "print greeting + \"!\"; print greeting == \"hi\";");
    assert_eq!(outcome.result, Ok(()));
    assert_eq!(outcome.stdout, "hi!\ntrue\n");
    assert_eq!(drive(&mut vm, "print 1 +;").result, Err(InterpreterError::CompileError));
    assert_eq!(drive(&mut vm, "print greeting;").stdout, "hi\n");
}

#[test]
fn loops() {
    assert_prints("var i = 0; var sum = 0; while (i < 5) { sum = sum + i; i = i + 1; } print sum;",
        "10\n");
    assert_prints("for (var i = 0; i < 2; i = i + 1) { for (var j = 0; j < 2; j = j + 1) print i * 2 + j; }",
        "0\n1\n2\n3\n");
    assert_prints("var i = 0; for (; i < 2;) { print i; i = i + 1; }", "0\n1\n");
    assert_prints("var i = 5; for (i = 0; i < 1; i = i + 1) print i; print i;", "0\n1\n");
}

#[test]
fn statements_leave_the_stack_as_it_was() {
    let mut source = String::new();
    for _ in 0..300 {
        source.push_str("nil; true and false; nil or true;\n");
    }
    source.push_str("print \"done\";");
    assert_prints(&source, "done\n");
    assert_prints(
        "var i = 0; var n = 0;\nwhile (i < 2000) { 1 + 2; \"a\"; i and n; if (i > 5) n = n + 1; else n; i = i + 1; }\nprint n;",
        "1994\n",
    );
}

#[test]
fn short_circuit_yields_an_operand() {
    assert_prints("print nil or \"b\";", "b\n");
    assert_prints("print false and 1;", "false\n");
    assert_prints("print nil and 1;", "nil\n");
    assert_prints("print 1 and 2 and 3;", "3\n");
    assert_prints("print nil or false or 3;", "3\n");
    assert_prints("print \"\" or 2;", "\n");
}

#[test]
fn comments_and_blank_lines_are_skipped() {
    assert_prints("// nothing\nprint 1; // one\n\n// end", "1\n");
    assert_prints("print 6 / 3; print 1; // 2", "2\n1\n");
}

#[test]
fn too_many_values_on_the_stack_fail_the_run() {
    let mut source = String::from("print ");
    for _ in 0..300 {
        source.push_str("nil == (");
    }
    source.push_str("nil");
    for _ in 0..300 {
        source.push(')');
    }
    source.push(';');
    let outcome = run(&source);
    assert_eq!(outcome.result, Err(InterpreterError::RuntimeError));
    assert_eq!(outcome.stderr, "Stack overflow.\n[line 1] in script\n\n");
}

#[test]
fn more_than_256_constants_are_an_error() {
    let mut source = String::new();
    for i in 0..257 {
        source.push_str(&format!("print {};\n", i));
    }
    let outcome = run(&source);
    assert_eq!(outcome.result, Err(InterpreterError::CompileError));
    assert_eq!(
        outcome.stderr,
        "[line 257] Error at '256': Too many constants in one chunk.\n"
    );
    let mut source = String::new();
    for i in 0..256 {
        source.push_str(&format!("print {};\n", i));
    }
    assert_eq!(run(&source).result, Ok(()));
}

#[test]
fn more_than_256_locals_are_an_error() {
    let mut source = String::from("{\n");
    for i in 0..257 {
        source.push_str(&format!("var v{};\n", i));
    }
    source.push('}');
    let outcome = run(&source);
    assert_eq!(outcome.result, Err(InterpreterError::CompileError));
    assert_eq!(
        outcome.stderr,
        "[line 258] Error at 'v256': Too many local variables in function.\n"
    );
}
