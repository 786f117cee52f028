use tree_walk::errors::RuntimeError;
use tree_walk::interpreter::{Action, Interpreter, Reply};
use tree_walk::machine::Operation;
use tree_walk::parser::{ParseError, Parser};
use tree_walk::scanner::scan;
use tree_walk::statement::Statement;
use tree_walk::token::{Lexeme, Token};
use tree_walk::value::Value;

/// What stopped a program.
#[derive(Debug, PartialEq)]
enum Failure {
    Parse(ParseError),
    Runtime(RuntimeError),
}

fn quantity(text: &str) -> f64 {
    text.parse().unwrap()
}

/// The host's part: arithmetic on 64-bit floats.
fn compute(operation: Operation, left: &str, right: Option<&str>) -> Reply {
    let a = quantity(left);
    let b = right.map(quantity).unwrap_or(0.0);
    match operation {
        Operation::Literal => Reply::Number(a.to_string()),
        Operation::Negate => Reply::Number((-a).to_string()),
        Operation::Add => Reply::Number((a + b).to_string()),
        Operation::Subtract => Reply::Number((a - b).to_string()),
        Operation::Multiply => Reply::Number((a * b).to_string()),
        Operation::Divide => Reply::Number((a / b).to_string()),
        Operation::Less => Reply::Truth(a < b),
        Operation::LessEqual => Reply::Truth(a <= b),
        Operation::Greater => Reply::Truth(a > b),
        Operation::GreaterEqual => Reply::Truth(a >= b),
        Operation::Equal => Reply::Truth(a == b),
    }
}

/// Steps the interpreter until the loaded work is finished.
fn drive(interpreter: &mut Interpreter, output: &mut Vec<String>) -> Result<Value, RuntimeError> {
    let mut reply = Reply::Nothing;
    loop {
        let action = interpreter.step(reply);
        reply = Reply::Nothing;
        match action {
            Action::Continue => {}
            Action::Print(text) => output.push(text),
            Action::Compute { operation, left, right } => {
                reply = compute(operation, &left, right.as_deref());
            }
            Action::Finished(result) => return result,
        }
    }
}

fn tokens(source: &str) -> Vec<Token> {
    scan(&source.to_owned()).into_iter().map(|item| item.unwrap()).collect()
}

/// Runs the statements of the text one after another on the interpreter, up
/// to the first that fails. Gives what the last statement returned.
fn run_on(interpreter: &mut Interpreter, source: &str, output: &mut Vec<String>) -> Result<Value, Failure> {
    let mut result = Value::Nil;
    let mut parser = Parser::new(tokens(source));
    while let Some(item) = parser.next() {
        let statement = item.map_err(Failure::Parse)?;
        assert!(statement.is_well_formed());
        interpreter.execute(statement);
        result = drive(interpreter, output).map_err(Failure::Runtime)?;
    }
    Ok(result)
}

struct Run {
    result: Result<Value, Failure>,
    output: Vec<String>,
    interpreter: Interpreter,
}

fn run(source: &str) -> Run {
    let mut interpreter = Interpreter::new();
    let mut output = Vec::new();
    let result = run_on(&mut interpreter, source, &mut output);
    Run { result, output, interpreter }
}

impl Run {
    fn variables(&self) -> usize {
        self.interpreter.environment().variables()
    }

    fn get(&self, name: &str) -> Option<Value> {
        self.interpreter.environment().retrieve(name)
    }

    fn depth(&self) -> usize {
        self.interpreter.environment().depth()
    }
}

/// Evaluates the text as one expression.
fn evaluate(source: &str) -> Result<Value, Failure> {
    let expression = Parser::new(tokens(source)).expression().map_err(Failure::Parse)?;
    assert!(expression.is_well_formed());
    let mut interpreter = Interpreter::new();
    interpreter.evaluate(expression);
    drive(&mut interpreter, &mut Vec::new()).map_err(Failure::Runtime)
}

fn number(text: &str) -> Value {
    Value::Number(text.to_owned())
}

fn string(text: &str) -> Value {
    Value::String(text.to_owned())
}

fn unexpected(lexeme: Lexeme, line: u64, message: &str) -> Failure {
    Failure::Parse(ParseError::UnexpectedToken { token: Token::new(lexeme, line), message: message.to_owned() })
}

fn runtime(line: u64, message: &str) -> Failure {
    Failure::Runtime(RuntimeError::new(line, message.to_owned()))
}

// A statement ends with `;` and returns `nil`; a string prints between
// double quotes; `var` without an initializer
// defines the variable as `nil`; `+` is no unary operator. Where a text of
// these tests is an expression without `;`, it is evaluated as an expression.

#[test]
fn interpreter_it_works() {
    assert_eq!(evaluate("-1"), Ok(number("-1")));
    assert_eq!(quantity("-1"), -1.0);
}

#[test]
fn it_adds() {
    assert_eq!(evaluate("-1+1"), Ok(number("0")));
}

#[test]
fn it_unary_works() {
    assert_eq!(evaluate("+1"), Err(unexpected(Lexeme::Plus, 0, "Expected expression.")));
    assert_eq!(evaluate("1"), Ok(number("1")));
}

#[test]
fn interpreter_it_errors() {
    assert_eq!(run("()").result, Err(unexpected(Lexeme::RightParen, 0, "Expected expression.")));
}

#[test]
fn it_does_not_error_prefix_number() {
    assert_eq!(run("*1").result, Err(unexpected(Lexeme::Star, 0, "Expected expression.")));
}

#[test]
fn interpreter_it_works_stmts() {
    assert_eq!(run("print(\"foo\")").result, Err(unexpected(Lexeme::Eof, 0, "Expected ';' after value.")));
    assert_eq!(run("print(2)").result, Err(unexpected(Lexeme::Eof, 0, "Expected ';' after value.")));
    assert_eq!(run("print(2+1)").result, Err(unexpected(Lexeme::Eof, 0, "Expected ';' after value.")));
    assert_eq!(run("print()").result, Err(unexpected(Lexeme::RightParen, 0, "Expected expression.")));

    let done = run("print(\"foo\");");
    assert_eq!(done.result, Ok(Value::Nil));
    assert_eq!(done.output, vec!["\"foo\""]);
    let done = run("print(2);");
    assert_eq!(done.result, Ok(Value::Nil));
    assert_eq!(done.output, vec!["2"]);
    let done = run("print(2+1);");
    assert_eq!(done.result, Ok(Value::Nil));
    assert_eq!(done.output, vec!["3"]);
    assert_eq!(evaluate("(\"foo\")"), Ok(string("foo")));
    assert_eq!(evaluate("(2)"), Ok(number("2")));
    assert_eq!(evaluate("(2+1)"), Ok(number("3")));
}

#[test]
fn it_works_variables() {
    let done = run("var a;");
    assert_eq!(done.result, Ok(Value::Nil));
    assert_eq!(done.variables(), 1);
    assert_eq!(done.get("a"), Some(Value::Nil));

    let done = run("var a = \"foo\";");
    assert_eq!(done.result, Ok(Value::Nil));
    assert_eq!(done.variables(), 1);
    assert_eq!(done.get("a"), Some(string("foo")));
}

#[test]
fn interpreter_it_works_multiline() {
    let done = run(
        "var a = 4;
print(a);",
    );
    assert_eq!(done.result, Ok(Value::Nil));
    assert_eq!(done.output, vec!["4"]);
    assert_eq!(done.variables(), 1);
    assert_eq!(done.get("a"), Some(number("4")));
}

#[test]
fn it_errors_variable() {
    let done = run("var a = b;");
    assert_eq!(done.result, Err(runtime(0, "Undefined variable 'b'.")));
}

#[test]
fn it_works_block_ss() {
    let done = run(
        "{
var a = 4;
print(a);
}",
    );
    assert_eq!(done.result, Ok(Value::Nil));
    assert_eq!(done.output, vec!["4"]);
    assert_eq!(done.variables(), 0);
    assert_eq!(done.get("a"), None);
    assert_eq!(done.depth(), 1);
}

#[test]
fn it_works_shadow_block() {
    let done = run(
        "
var a = 4;
{
    var a = 4;
    print(a);
}
",
    );
    assert_eq!(done.result, Ok(Value::Nil));
    assert_eq!(done.variables(), 1);
    assert_eq!(done.get("a"), Some(number("4")));
}

#[test]
fn it_works_replace_inner_block() {
    let done = run(
        "
var a = 4;
{
    a = 5;
    var b = 10.1;
    print(a);
}
",
    );
    assert_eq!(done.result, Ok(Value::Nil));
    assert_eq!(done.output, vec!["5"]);
    assert_eq!(done.variables(), 1);
    assert_eq!(done.get("a"), Some(number("5")));
    assert_eq!(done.get("b"), None);
    assert_eq!(done.depth(), 1);
}

#[test]
fn it_block_errors() {
    let done = run(
        "
var a = 4;
{
    b = 5;
    print(b);
}
",
    );
    assert_eq!(done.result, Err(runtime(3, "Undefined variable 'b'.")));
    assert_eq!(done.depth(), 1);
    assert_eq!(done.get("a"), Some(number("4")));
}

#[test]
fn it_if_stmt_works() {
    let done = run(
        "
var a = 5;
if (true)
{
    var b = 10.1;
    print(a);
}
",
    );
    assert_eq!(done.result, Ok(Value::Nil));
    assert_eq!(done.output, vec!["5"]);
    assert_eq!(done.variables(), 1);
    assert_eq!(done.get("a"), Some(number("5")));
    assert_eq!(done.depth(), 1);
}

#[test]
fn it_and_operator_works() {
    let done = run(
        "
var a = true and 5;
if (a)
{
    print(a);
}
",
    );
    assert_eq!(done.result, Ok(Value::Nil));
    assert_eq!(done.output, vec!["5"]);
    assert_eq!(done.variables(), 1);
    assert_eq!(done.get("a"), Some(number("5")));
    assert_eq!(done.depth(), 1);
}

#[test]
fn it_or_operator_works() {
    let done = run(
        "
var a = \"hi\" or 5;
if (a)
{
    print(a);
}
",
    );
    assert_eq!(done.result, Ok(Value::Nil));
    assert_eq!(done.output, vec!["\"hi\""]);
    assert_eq!(done.variables(), 1);
    assert_eq!(done.get("a"), Some(string("hi")));
    assert_eq!(done.depth(), 1);
}

#[test]
fn it_or_falsey_operator_works() {
    let done = run(
        "
var a = false or 5;
print(a);
",
    );
    assert_eq!(done.result, Ok(Value::Nil));
    assert_eq!(done.output, vec!["5"]);
    assert_eq!(done.variables(), 1);
    assert_eq!(done.get("a"), Some(number("5")));
    assert_eq!(done.depth(), 1);
}

#[test]
fn it_and_falsey_operator_works() {
    let done = run(
        "
var a = false and false;
print(a);
",
    );
    assert_eq!(done.result, Ok(Value::Nil));
    assert_eq!(done.output, vec!["false"]);
    assert_eq!(done.variables(), 1);
    assert_eq!(done.get("a"), Some(Value::Bool(false)));
    assert_eq!(done.depth(), 1);
}

#[test]
fn it_while_works() {
    let done = run(
        "
var a = 1;
var b = true;
while (b) {
    b = false;
    a = 2;
}
",
    );
    assert_eq!(done.result, Ok(Value::Nil));
    assert_eq!(done.variables(), 2);
    assert_eq!(done.get("b"), Some(Value::Bool(false)));
    assert_eq!(done.get("a"), Some(number("2")));
    assert_eq!(done.depth(), 1);
}

// Scenarios.

#[test]
fn print_of_an_arithmetic_expression() {
    let done = run("print -1 * (2 + 3);");
    assert_eq!(done.result, Ok(Value::Nil));
    assert_eq!(done.output, vec!["-5"]);
}

#[test]
fn print_of_a_string_variable_is_quoted() {
    let done = run("var a = \"foo\"; print a;");
    assert_eq!(done.result, Ok(Value::Nil));
    assert_eq!(done.output, vec!["\"foo\""]);
    assert_eq!(done.get("a"), Some(string("foo")));
}

#[test]
fn a_block_variable_is_undefined_after_the_block() {
    let mut interpreter = Interpreter::new();
    let mut output = Vec::new();
    assert_eq!(run_on(&mut interpreter, "{ var a = 4; print a; }", &mut output), Ok(Value::Nil));
    assert_eq!(output, vec!["4"]);
    assert_eq!(run_on(&mut interpreter, "print a;", &mut output), Err(runtime(0, "Undefined variable 'a'.")));
    assert_eq!(output, vec!["4"]);
}

#[test]
fn a_block_assigns_to_the_outer_variable() {
    let done = run("var a = 1; { a = 2; } print a;");
    assert_eq!(done.result, Ok(Value::Nil));
    assert_eq!(done.output, vec!["2"]);
}

#[test]
fn logical_operators_give_an_operand() {
    let done = run("var a = true and 5; print a; var b = false or 7; print b; var c = false and 99; print c;");
    assert_eq!(done.result, Ok(Value::Nil));
    assert_eq!(done.output, vec!["5", "7", "false"]);
}

#[test]
fn while_counts_with_a_comparison() {
    let done = run("var i = 0; while (i < 3) { i = i + 1; } print i;");
    assert_eq!(done.result, Ok(Value::Nil));
    assert_eq!(done.output, vec!["3"]);
}

#[test]
fn negating_a_string_is_a_runtime_error() {
    let done = run("\nprint -\"x\";");
    assert_eq!(done.result, Err(runtime(1, "Operand must be a number.")));
    assert!(done.output.is_empty());
}

// General behaviour.

#[test]
fn short_circuit_skips_the_right_operand() {
    let done = run("var a = 1; false and (a = 2); true or (a = 3); print a;");
    assert_eq!(done.result, Ok(Value::Nil));
    assert_eq!(done.output, vec!["1"]);
    let done = run("var a = 1; true and (a = 2); print a; false or (a = 3); print a; nil or (a = 4); print a;");
    assert_eq!(done.output, vec!["2", "3", "4"]);
}

#[test]
fn variables_stay_between_runs_on_one_interpreter() {
    let mut interpreter = Interpreter::new();
    let mut output = Vec::new();
    assert_eq!(run_on(&mut interpreter, "var a = 1;", &mut output), Ok(Value::Nil));
    assert_eq!(run_on(&mut interpreter, "var b;", &mut output), Ok(Value::Nil));
    assert_eq!(run_on(&mut interpreter, "print a + 1; print b;", &mut output), Ok(Value::Nil));
    assert_eq!(output, vec!["2", "nil"]);
}

#[test]
fn an_error_keeps_what_was_done_before_it() {
    let mut interpreter = Interpreter::new();
    let mut output = Vec::new();
    let result = run_on(&mut interpreter, "var a = 1; { a = 2; print a; var b = 3; print c; a = 4; }", &mut output);
    assert_eq!(result, Err(runtime(0, "Undefined variable 'c'.")));
    assert_eq!(output, vec!["2"]);
    assert_eq!(interpreter.environment().depth(), 1);
    assert_eq!(interpreter.environment().retrieve("a"), Some(number("2")));
    assert_eq!(interpreter.environment().retrieve("b"), None);
    assert!(interpreter.is_ready());
    assert_eq!(run_on(&mut interpreter, "print a;", &mut output), Ok(Value::Nil));
    assert_eq!(output, vec!["2", "2"]);
}

#[test]
fn arithmetic_on_numbers() {
    assert_eq!(evaluate("7 - 2"), Ok(number("5")));
    assert_eq!(evaluate("7 * 2"), Ok(number("14")));
    assert_eq!(evaluate("7 / 2"), Ok(number("3.5")));
    assert_eq!(evaluate("1.50 + 1"), Ok(number("2.5")));
    assert_eq!(evaluate("2.0"), Ok(number("2")));
    assert_eq!(evaluate("1 / 0"), Ok(number("inf")));
    assert_eq!(evaluate("-(1 / 0)"), Ok(number("-inf")));
    assert_eq!(evaluate("0 / 0"), Ok(number("NaN")));
    assert_eq!(evaluate("1 - 2 - 3"), Ok(number("-4")));
    assert_eq!(evaluate("2 + 3 * 4"), Ok(number("14")));
    assert_eq!(evaluate("(2 + 3) * 4"), Ok(number("20")));
}

#[test]
fn plus_joins_strings() {
    assert_eq!(evaluate("\"foo\" + \"bar\""), Ok(string("foobar")));
    assert_eq!(evaluate("\"\" + \"\""), Ok(string("")));
    let done = run("print \"foo\" + \"bar\";");
    assert_eq!(done.output, vec!["\"foobar\""]);
}

#[test]
fn a_printed_number_is_in_the_form_of_the_host() {
    let done = run("print 2.0; print 1.50; print 007; print 2.0 + 1; var a = 3.0; print a;");
    assert_eq!(done.result, Ok(Value::Nil));
    assert_eq!(done.output, vec!["2", "1.5", "7", "3", "3"]);
}

#[test]
fn operands_of_the_wrong_kind_are_errors() {
    assert_eq!(evaluate("1 - \"a\""), Err(runtime(0, "Operand must be a number.")));
    assert_eq!(evaluate("nil * 2"), Err(runtime(0, "Operand must be a number.")));
    assert_eq!(evaluate("true / 2"), Err(runtime(0, "Operand must be a number.")));
    assert_eq!(evaluate("1 + \"a\""), Err(runtime(0, "Operands must be two numbers or two strings.")));
    assert_eq!(evaluate("\"a\" + nil"), Err(runtime(0, "Operands must be two numbers or two strings.")));
    assert_eq!(evaluate("1 < \"a\""), Err(runtime(0, "Operand must be a number.")));
    assert_eq!(evaluate("\"a\" >= \"b\""), Err(runtime(0, "Operand must be a number.")));
    assert_eq!(evaluate("-nil"), Err(runtime(0, "Operand must be a number.")));
    assert_eq!(evaluate("\n\n1 -\n true"), Err(runtime(2, "Operand must be a number.")));
}

#[test]
fn comparisons_order_numbers() {
    assert_eq!(evaluate("1 < 2"), Ok(Value::Bool(true)));
    assert_eq!(evaluate("2 < 2"), Ok(Value::Bool(false)));
    assert_eq!(evaluate("2 <= 2"), Ok(Value::Bool(true)));
    assert_eq!(evaluate("3 > 2"), Ok(Value::Bool(true)));
    assert_eq!(evaluate("2 > 2"), Ok(Value::Bool(false)));
    assert_eq!(evaluate("2 >= 2"), Ok(Value::Bool(true)));
    assert_eq!(evaluate("1 >= 2"), Ok(Value::Bool(false)));
}

#[test]
fn equality_compares_any_two_values() {
    assert_eq!(evaluate("1 == 1.0"), Ok(Value::Bool(true)));
    assert_eq!(evaluate("1 != 1.0"), Ok(Value::Bool(false)));
    assert_eq!(evaluate("1 == 2"), Ok(Value::Bool(false)));
    assert_eq!(evaluate("1 != 2"), Ok(Value::Bool(true)));
    assert_eq!(evaluate("\"a\" == \"a\""), Ok(Value::Bool(true)));
    assert_eq!(evaluate("\"a\" == \"b\""), Ok(Value::Bool(false)));
    assert_eq!(evaluate("\"a\" != \"b\""), Ok(Value::Bool(true)));
    assert_eq!(evaluate("true == true"), Ok(Value::Bool(true)));
    assert_eq!(evaluate("true == false"), Ok(Value::Bool(false)));
    assert_eq!(evaluate("nil == nil"), Ok(Value::Bool(true)));
    assert_eq!(evaluate("nil != nil"), Ok(Value::Bool(false)));
    assert_eq!(evaluate("nil == false"), Ok(Value::Bool(false)));
    assert_eq!(evaluate("1 == \"1\""), Ok(Value::Bool(false)));
    assert_eq!(evaluate("1 != \"1\""), Ok(Value::Bool(true)));
    assert_eq!(evaluate("0 / 0 == 0 / 0"), Ok(Value::Bool(false)));
}

#[test]
fn bang_gives_the_opposite_truth() {
    assert_eq!(evaluate("!true"), Ok(Value::Bool(false)));
    assert_eq!(evaluate("!nil"), Ok(Value::Bool(true)));
    assert_eq!(evaluate("!0"), Ok(Value::Bool(false)));
    assert_eq!(evaluate("!\"\""), Ok(Value::Bool(false)));
    assert_eq!(evaluate("!!nil"), Ok(Value::Bool(false)));
}

#[test]
fn an_assignment_has_the_value_assigned() {
    let done = run("var a; var b; a = b = 3; print a; print b; print a = 4;");
    assert_eq!(done.result, Ok(Value::Nil));
    assert_eq!(done.output, vec!["3", "3", "4"]);
    assert_eq!(run("a = 1;").result, Err(runtime(0, "Undefined variable 'a'.")));
}

#[test]
fn operands_are_evaluated_from_left_to_right() {
    let done = run("var a = 1; print (a = 2) + a; print a + (a = 5);");
    assert_eq!(done.output, vec!["4", "7"]);
    let done = run("var a = 1; print (a = 2) - \"x\";");
    assert_eq!(done.result, Err(runtime(0, "Operand must be a number.")));
    assert_eq!(done.get("a"), Some(number("2")));
}

#[test]
fn if_picks_a_branch_by_truth() {
    let done = run("if (nil) print 1; else print 2; if (0) print 3; if (false) print 4; if (\"\") print 5; else print 6;");
    assert_eq!(done.result, Ok(Value::Nil));
    assert_eq!(done.output, vec!["2", "3", "5"]);
}

#[test]
fn while_runs_until_the_condition_is_falsy() {
    let done = run("var i = 0; var s = \"\"; while (i < 4) { s = s + \"x\"; i = i + 1; } print s; while (false) print 1;");
    assert_eq!(done.output, vec!["\"xxxx\""]);
    let done = run("var i = 0; while (i < 3) { print i; i = i + 1; if (i == 2) q = 1; }");
    assert_eq!(done.result, Err(runtime(0, "Undefined variable 'q'.")));
    assert_eq!(done.output, vec!["0", "1"]);
    assert_eq!(done.depth(), 1);
}

#[test]
fn blocks_nest_and_shadow() {
    let done = run("var a = 1; { var a = 2; { var a = 3; print a; } print a; a = 4; print a; } print a;");
    assert_eq!(done.output, vec!["3", "2", "4", "1"]);
    let done = run("var a = 1; var a = 2; print a; {}");
    assert_eq!(done.output, vec!["2"]);
    assert_eq!(done.variables(), 1);
}

#[test]
fn a_block_leaves_the_enclosing_scopes_with_their_names() {
    let mut interpreter = Interpreter::new();
    let mut output = Vec::new();
    let source = "var a = 1; var b = 2; { var x = 3; var a = 4; b = 5; { var y; x = 6; } if (x == 6) { var z = 7; } while (a < 6) { var w = a; a = a + 1; } }";
    assert_eq!(run_on(&mut interpreter, source, &mut output), Ok(Value::Nil));
    assert_eq!(interpreter.environment().depth(), 1);
    assert_eq!(interpreter.environment().variables(), 2);
    assert_eq!(interpreter.environment().retrieve("a"), Some(number("1")));
    assert_eq!(interpreter.environment().retrieve("b"), Some(number("5")));
    for name in ["x", "y", "z", "w"] {
        assert_eq!(interpreter.environment().retrieve(name), None);
    }
    assert!(interpreter.is_ready());
}

#[test]
fn operators_that_do_not_fit_their_node_are_errors() {
    let one = || Box::new(tree_walk::expression::Expression::Literal(Value::Bool(true)));
    let mut interpreter = Interpreter::new();
    interpreter.evaluate(tree_walk::expression::Expression::Unary {
        operator: Token::new(Lexeme::Star, 7),
        expression: one(),
    });
    assert_eq!(
        drive(&mut interpreter, &mut Vec::new()),
        Err(RuntimeError::new(7, "Invalid unary operator.".to_owned()))
    );
    interpreter.evaluate(tree_walk::expression::Expression::Binary {
        left: one(),
        operator: Token::new(Lexeme::Bang, 8),
        right: one(),
    });
    assert_eq!(
        drive(&mut interpreter, &mut Vec::new()),
        Err(RuntimeError::new(8, "Invalid binary operator.".to_owned()))
    );
}

#[test]
fn a_reply_of_the_wrong_kind_ends_the_statement() {
    let mut interpreter = Interpreter::new();
    let expression = Parser::new(tokens("1 + 2")).expression().unwrap();
    interpreter.evaluate(expression);
    assert_eq!(interpreter.step(Reply::Nothing), Action::Continue);
    assert_eq!(
        interpreter.step(Reply::Nothing),
        Action::Compute { operation: Operation::Literal, left: "1".to_owned(), right: None }
    );
    assert_eq!(
        interpreter.step(Reply::Truth(true)),
        Action::Finished(Err(RuntimeError::new(0, "Expected a number from the host.".to_owned())))
    );
    assert!(interpreter.is_ready());

    let expression = Parser::new(tokens("\n1 < 2")).expression().unwrap();
    interpreter.evaluate(expression);
    let mut reply = Reply::Nothing;
    loop {
        match interpreter.step(reply) {
            Action::Compute { operation: Operation::Less, left, right } => {
                assert_eq!((left.as_str(), right.as_deref()), ("1", Some("2")));
                break;
            }
            Action::Compute { operation, left, right } => reply = compute(operation, &left, right.as_deref()),
            Action::Continue => reply = Reply::Nothing,
            other => panic!("{:?}", other),
        }
    }
    assert_eq!(
        interpreter.step(Reply::Number("1".to_owned())),
        Action::Finished(Err(RuntimeError::new(1, "Expected a truth value from the host.".to_owned())))
    );
}

#[test]
fn the_steps_of_a_print_statement() {
    let mut interpreter = Interpreter::new();
    let statement: Statement = Parser::new(tokens("print \"a\" + \"b\";")).next().unwrap().unwrap();
    interpreter.execute(statement);
    assert!(!interpreter.is_ready());
    // the statement, the sum, its left and right operands, the operator
    for _ in 0..5 {
        assert_eq!(interpreter.step(Reply::Nothing), Action::Continue);
    }
    assert_eq!(interpreter.step(Reply::Nothing), Action::Print("\"ab\"".to_owned()));
    assert!(interpreter.is_ready());
    assert_eq!(interpreter.step(Reply::Nothing), Action::Finished(Ok(Value::Nil)));
    assert_eq!(interpreter.step(Reply::Nothing), Action::Finished(Ok(Value::Nil)));
}

#[test]
fn a_program_is_loaded_as_a_whole() {
    let statements: Vec<Statement> =
        Parser::new(tokens("var a = 1; print a; print b; print a;")).parse().into_iter().map(|item| item.unwrap()).collect();
    let mut interpreter = Interpreter::new();
    let mut output = Vec::new();
    interpreter.start(statements);
    assert_eq!(
        drive(&mut interpreter, &mut output),
        Err(RuntimeError::new(0, "Undefined variable 'b'.".to_owned()))
    );
    assert_eq!(output, vec!["1"]);
    assert!(interpreter.is_ready());
}

#[test]
fn values_have_truth_and_text() {
    assert!(!Value::Nil.is_truthy());
    assert!(!Value::Bool(false).is_truthy());
    assert!(Value::Bool(true).is_truthy());
    assert!(number("0").is_truthy());
    assert!(string("").is_truthy());
    assert_eq!(Value::Nil.to_string(), "nil");
    assert_eq!(Value::Bool(true).to_string(), "true");
    assert_eq!(Value::Bool(false).to_string(), "false");
    assert_eq!(number("4.5").to_string(), "4.5");
    assert_eq!(string("a b").to_string(), "\"a b\"");
    assert_eq!(string("").to_string(), "\"\"");
}

#[test]
fn runtime_errors_read_as_text() {
    let error = RuntimeError::from_token(&Token::new(Lexeme::Minus, 12), "Operand must be a number.".to_owned());
    assert_eq!(error, RuntimeError::new(12, "Operand must be a number.".to_owned()));
    assert_eq!(error.to_string(), "Operand must be a number. [line: 12]");
    assert_eq!(RuntimeError::new(0, "x".to_owned()).to_string(), "x [line: 0]");
    assert_eq!(RuntimeError::new(18446744073709551615, "x".to_owned()).to_string(), "x [line: 18446744073709551615]");
}
