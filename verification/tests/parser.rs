use tree_walk::expression::Expression;
use tree_walk::parser::{ParseError, Parser};
use tree_walk::scanner::scan;
use tree_walk::statement::Statement;
use tree_walk::token::{Lexeme, Token};
use tree_walk::value::Value;

fn tokens(source: &str) -> Vec<Token> {
    scan(&source.to_owned()).into_iter().map(|item| item.unwrap()).collect()
}

/// The first statement of the text, as the parser yields it.
fn parse(source: &str) -> Option<Result<Statement, ParseError>> {
    Parser::new(tokens(source)).next()
}

/// The text parsed as one expression.
fn expression(source: &str) -> Result<Expression, ParseError> {
    Parser::new(tokens(source)).expression()
}

fn number(literal: &str) -> Expression {
    Expression::Literal(Value::Number(literal.to_owned()))
}

fn string(content: &str) -> Expression {
    Expression::Literal(Value::String(content.to_owned()))
}

fn boolean(b: bool) -> Expression {
    Expression::Literal(Value::Bool(b))
}

fn identifier(name: &str, line: u64) -> Token {
    Token::new(Lexeme::Identifier(name.to_owned()), line)
}

fn variable(name: &str, line: u64) -> Expression {
    Expression::Variable(identifier(name, line))
}

fn binary(left: Expression, operator: Lexeme, right: Expression) -> Expression {
    Expression::Binary { left: Box::new(left), operator: Token::new(operator, 0), right: Box::new(right) }
}

fn group(inner: Expression) -> Expression {
    Expression::Grouping(Box::new(inner))
}

fn var(name: &str, line: u64, initializer: Option<Expression>) -> Statement {
    Statement::Var { name: identifier(name, line), initializer: initializer.map(Box::new) }
}

fn print(e: Expression) -> Statement {
    Statement::Print(Box::new(e))
}

fn unexpected(lexeme: Lexeme, line: u64, message: &str) -> ParseError {
    ParseError::UnexpectedToken { token: Token::new(lexeme, line), message: message.to_owned() }
}

// Statements end with `;`: where a text of these tests has none, the
// expression is checked by itself and the statement is the error for the
// missing `;`.

#[test]
fn it_handles_binary() {
    assert_eq!(expression("1+1"), Ok(binary(number("1"), Lexeme::Plus, number("1"))));
    assert_eq!(expression("1 == 1"), Ok(binary(number("1"), Lexeme::EqualEqual, number("1"))));
    assert_eq!(parse("1+1"), Some(Err(unexpected(Lexeme::Eof, 0, "Expected ';' after expression."))));
    assert_eq!(
        parse("1+1;"),
        Some(Ok(Statement::Expression(Box::new(binary(number("1"), Lexeme::Plus, number("1"))))))
    );
}

#[test]
fn it_handles_co() {
    assert_eq!(expression("1 >= 2"), Ok(binary(number("1"), Lexeme::GreaterEqual, number("2"))));
    assert_eq!(expression("1 <= 2"), Ok(binary(number("1"), Lexeme::LessEqual, number("2"))));
}

#[test]
fn it_handles_unary() {
    assert_eq!(
        expression("-1"),
        Ok(Expression::Unary { operator: Token::new(Lexeme::Minus, 0), expression: Box::new(number("1")) })
    );
    // `+` is no unary operator.
    assert_eq!(expression("+1"), Err(unexpected(Lexeme::Plus, 0, "Expected expression.")));
}

#[test]
fn it_errors_keyword() {
    assert_eq!(parse("and"), Some(Err(unexpected(Lexeme::And, 0, "Expected expression."))));
}

#[test]
fn not_expression() {
    assert_eq!(expression("a"), Ok(variable("a", 0)));
    assert_eq!(parse("a;"), Some(Ok(Statement::Expression(Box::new(variable("a", 0))))));
}

#[test]
fn it_works_parenthesized_expression() {
    assert_eq!(expression("(1+1)"), Ok(group(binary(number("1"), Lexeme::Plus, number("1")))));
}

#[test]
fn it_works_plus_plus() {
    assert_eq!(expression("+1+1"), Err(unexpected(Lexeme::Plus, 0, "Expected expression.")));
    assert_eq!(parse("+1+1"), Some(Err(unexpected(Lexeme::Plus, 0, "Expected expression."))));
}

#[test]
fn variables_semicolon() {
    assert_eq!(parse("var a;"), Some(Ok(var("a", 0, None))));
}

#[test]
fn variables_no_semicolon() {
    assert_eq!(parse("var a"), Some(Err(unexpected(Lexeme::Eof, 0, "Expected ';' after variable declaration."))));
}

#[test]
fn assignment() {
    assert_eq!(
        parse("a = 2;"),
        Some(Ok(Statement::Expression(Box::new(Expression::Assign {
            name: identifier("a", 0),
            value: Box::new(number("2")),
        }))))
    );
}

#[test]
fn multiple_assignment() {
    assert_eq!(
        parse("a = b = 2;"),
        Some(Ok(Statement::Expression(Box::new(Expression::Assign {
            name: identifier("a", 0),
            value: Box::new(Expression::Assign { name: identifier("b", 0), value: Box::new(number("2")) }),
        }))))
    );
}

#[test]
fn logical_and() {
    assert_eq!(
        parse("a = 2 and 5;"),
        Some(Ok(Statement::Expression(Box::new(Expression::Assign {
            name: identifier("a", 0),
            value: Box::new(Expression::Logical {
                left: Box::new(number("2")),
                operator: Token::new(Lexeme::And, 0),
                right: Box::new(number("5")),
            }),
        }))))
    );
}

#[test]
fn it_stmt_works() {
    assert_eq!(expression("(1)"), Ok(group(number("1"))));
    assert_eq!(parse("print(1)"), Some(Err(unexpected(Lexeme::Eof, 0, "Expected ';' after value."))));
    assert_eq!(parse("print(1);"), Some(Ok(print(group(number("1"))))));
}

#[test]
fn it_stmt_works_strings() {
    assert_eq!(parse("print(\"foo\")"), Some(Err(unexpected(Lexeme::Eof, 0, "Expected ';' after value."))));
    assert_eq!(parse("print(\"foo\");"), Some(Ok(print(group(string("foo"))))));
}

#[test]
fn it_accepts_nothing() {
    // `print` takes an expression.
    assert_eq!(parse("print()"), Some(Err(unexpected(Lexeme::RightParen, 0, "Expected expression."))));
}

#[test]
fn it_accepts_expressions() {
    let product = binary(number("8"), Lexeme::Star, number("8"));
    assert_eq!(expression("(8*8)"), Ok(group(binary(number("8"), Lexeme::Star, number("8")))));
    assert_eq!(expression("(8 * 8)"), Ok(group(binary(number("8"), Lexeme::Star, number("8")))));
    assert_eq!(expression("(8 *  8)"), Ok(group(product)));
    assert_eq!(parse("print(8*8)"), Some(Err(unexpected(Lexeme::Eof, 0, "Expected ';' after value."))));
    assert_eq!(parse("print(8 * 8)"), Some(Err(unexpected(Lexeme::Eof, 0, "Expected ';' after value."))));
    assert_eq!(parse("print(8 *  8)"), Some(Err(unexpected(Lexeme::Eof, 0, "Expected ';' after value."))));
}

#[test]
fn statement_it_errors() {
    assert_eq!(parse("print"), Some(Err(unexpected(Lexeme::Eof, 0, "Expected expression."))));
}

#[test]
fn it_doesnt_panick_unfinished() {
    assert_eq!(parse("print("), Some(Err(unexpected(Lexeme::Eof, 0, "Expected expression."))));
}

#[test]
fn it_works_partial_stmts() {
    assert_eq!(parse("var a;"), Some(Ok(var("a", 0, None))));
    assert_eq!(parse("var  a;"), Some(Ok(var("a", 0, None))));
}

#[test]
fn statement_it_works_stmts() {
    assert_eq!(parse("var a = \"foo\";"), Some(Ok(var("a", 0, Some(string("foo"))))));
    assert_eq!(parse("var a  =  \"foo\";"), Some(Ok(var("a", 0, Some(string("foo"))))));
    assert_eq!(
        parse("var a  = 2*8;"),
        Some(Ok(var("a", 0, Some(binary(number("2"), Lexeme::Star, number("8"))))))
    );
}

#[test]
fn statement_it_works_multiline() {
    assert_eq!(parse("var a = 2;\nprint(a);"), Some(Ok(var("a", 0, Some(number("2"))))));
}

#[test]
fn it_errors_expression_l_value() {
    assert_eq!(
        parse("a + b = 2"),
        Some(Err(ParseError::InvalidAssignmentTarget { token: Token::new(Lexeme::Equal, 0) }))
    );
}

#[test]
fn it_errors_stmt() {
    assert_eq!(parse("var a ="), Some(Err(unexpected(Lexeme::Eof, 0, "Expected expression."))));
}

#[test]
fn it_works_block_no_spaces() {
    assert_eq!(
        parse("{var a = 2; print(a);}"),
        Some(Ok(Statement::Block(vec![var("a", 0, Some(number("2"))), print(group(variable("a", 0)))])))
    );
}

#[test]
fn it_works_block_spaces() {
    assert_eq!(
        parse(
            "{
            var a = 2;
            print(a); }"
        ),
        Some(Ok(Statement::Block(vec![var("a", 1, Some(number("2"))), print(group(variable("a", 2)))])))
    );
}

#[test]
fn it_works_if_stmt() {
    assert_eq!(
        parse(
            "if (true) {
            var a = 2;
            print(a);
        }"
        ),
        Some(Ok(Statement::If {
            condition: Box::new(boolean(true)),
            then_branch: Box::new(Statement::Block(vec![
                var("a", 1, Some(number("2"))),
                print(group(variable("a", 2))),
            ])),
            else_branch: None,
        }))
    );
}

#[test]
fn it_works_if_inline_stmt() {
    assert_eq!(
        parse("if (true) print(2);"),
        Some(Ok(Statement::If {
            condition: Box::new(boolean(true)),
            then_branch: Box::new(print(group(number("2")))),
            else_branch: None,
        }))
    );
}

#[test]
fn it_works_if_else_stmt() {
    assert_eq!(
        parse(
            "
if (true) {
    var a = 2;
    print(a);
} else {
    var b = 3;
    print(b);
}"
        ),
        Some(Ok(Statement::If {
            condition: Box::new(boolean(true)),
            then_branch: Box::new(Statement::Block(vec![
                var("a", 2, Some(number("2"))),
                print(group(variable("a", 3))),
            ])),
            else_branch: Some(Box::new(Statement::Block(vec![
                var("b", 5, Some(number("3"))),
                print(group(variable("b", 6))),
            ]))),
        }))
    );
}

#[test]
fn it_works_while_stmt() {
    assert_eq!(
        parse(
            "
        while (true) {
            var a = 2;
            print(a);
        }"
        ),
        Some(Ok(Statement::While {
            condition: Box::new(boolean(true)),
            body: Box::new(Statement::Block(vec![
                var("a", 2, Some(number("2"))),
                print(group(variable("a", 3))),
            ])),
        }))
    );
}

// Tests of the grammar.

fn at(lexeme: Lexeme, line: u64) -> Token {
    Token::new(lexeme, line)
}

#[test]
fn factors_bind_tighter_than_terms() {
    assert_eq!(
        expression("1 + 2 * 3"),
        Ok(binary(number("1"), Lexeme::Plus, binary(number("2"), Lexeme::Star, number("3"))))
    );
    assert_eq!(
        expression("1 * 2 + 3"),
        Ok(binary(binary(number("1"), Lexeme::Star, number("2")), Lexeme::Plus, number("3")))
    );
}

#[test]
fn binary_operators_fold_to_the_left() {
    assert_eq!(
        expression("1 - 2 - 3"),
        Ok(binary(binary(number("1"), Lexeme::Minus, number("2")), Lexeme::Minus, number("3")))
    );
    assert_eq!(
        expression("8 / 4 / 2"),
        Ok(binary(binary(number("8"), Lexeme::Slash, number("4")), Lexeme::Slash, number("2")))
    );
}

#[test]
fn unary_operators_nest_to_the_right() {
    assert_eq!(
        expression("!-1"),
        Ok(Expression::Unary {
            operator: at(Lexeme::Bang, 0),
            expression: Box::new(Expression::Unary {
                operator: at(Lexeme::Minus, 0),
                expression: Box::new(number("1")),
            }),
        })
    );
}

#[test]
fn the_levels_nest_in_order() {
    // a or b and c == d < e + f * -g
    let product = binary(
        variable("f", 0),
        Lexeme::Star,
        Expression::Unary { operator: at(Lexeme::Minus, 0), expression: Box::new(variable("g", 0)) },
    );
    let sum = binary(variable("e", 0), Lexeme::Plus, product);
    let comparison = binary(variable("d", 0), Lexeme::Less, sum);
    let equality = binary(variable("c", 0), Lexeme::EqualEqual, comparison);
    let and = Expression::Logical {
        left: Box::new(variable("b", 0)),
        operator: at(Lexeme::And, 0),
        right: Box::new(equality),
    };
    let or = Expression::Logical { left: Box::new(variable("a", 0)), operator: at(Lexeme::Or, 0), right: Box::new(and) };
    assert_eq!(expression("a or b and c == d < e + f * -g"), Ok(or));
}

#[test]
fn literals_parse_to_their_values() {
    assert_eq!(expression("true"), Ok(boolean(true)));
    assert_eq!(expression("false"), Ok(boolean(false)));
    assert_eq!(expression("nil"), Ok(Expression::Literal(Value::Nil)));
    assert_eq!(expression("12.50"), Ok(number("12.50")));
    assert_eq!(expression("\"hi\""), Ok(string("hi")));
}

#[test]
fn a_missing_parenthesis_is_reported_at_the_end() {
    assert_eq!(expression("(1 + 2"), Err(unexpected(Lexeme::Eof, 0, "Expected ')' after expression.")));
    assert_eq!(parse("(1 + 2"), Some(Err(unexpected(Lexeme::Eof, 0, "Expected ')' after expression."))));
    assert_eq!(parse("\n\n(1 + 2\n"), Some(Err(unexpected(Lexeme::Eof, 3, "Expected ')' after expression."))));
}

#[test]
fn every_terminal_that_is_missing_has_its_message() {
    assert_eq!(parse("var 1;"), Some(Err(unexpected(Lexeme::Number("1".to_owned()), 0, "Expected variable name."))));
    assert_eq!(parse("var a 1;"), Some(Err(unexpected(Lexeme::Number("1".to_owned()), 0, "Expected ';' after variable declaration."))));
    assert_eq!(parse("var a = 1"), Some(Err(unexpected(Lexeme::Eof, 0, "Expected ';' after variable declaration."))));
    assert_eq!(parse("{ 1;"), Some(Err(unexpected(Lexeme::Eof, 0, "Expected '}' after block."))));
    assert_eq!(parse("if true) 1;"), Some(Err(unexpected(Lexeme::True, 0, "Expected '(' after 'if'."))));
    assert_eq!(parse("if (true 1;"), Some(Err(unexpected(Lexeme::Number("1".to_owned()), 0, "Expected ')' after if condition."))));
    assert_eq!(parse("while true) 1;"), Some(Err(unexpected(Lexeme::True, 0, "Expected '(' after 'while'."))));
    assert_eq!(parse("while (true 1;"), Some(Err(unexpected(Lexeme::Number("1".to_owned()), 0, "Expected ')' after condition."))));
    assert_eq!(parse("print 1"), Some(Err(unexpected(Lexeme::Eof, 0, "Expected ';' after value."))));
    assert_eq!(parse("1"), Some(Err(unexpected(Lexeme::Eof, 0, "Expected ';' after expression."))));
    assert_eq!(parse(";"), Some(Err(unexpected(Lexeme::Semicolon, 0, "Expected expression."))));
}

#[test]
fn tokens_that_run_out_are_an_unexpected_end() {
    let mut parser = Parser::new(vec![at(Lexeme::LeftParen, 0), at(Lexeme::Number("1".to_owned()), 0)]);
    assert_eq!(parser.next(), Some(Err(ParseError::UnexpectedEnd)));
    let mut parser = Parser::new(vec![at(Lexeme::Print, 0)]);
    assert_eq!(parser.next(), Some(Err(ParseError::UnexpectedEnd)));
    let mut parser = Parser::new(vec![at(Lexeme::LeftBrace, 0)]);
    assert_eq!(parser.next(), Some(Err(ParseError::UnexpectedEnd)));
    let mut parser = Parser::new(vec![]);
    assert_eq!(parser.next(), None);
    assert!(parser.at_end());
}

#[test]
fn an_assignment_needs_a_variable_on_its_left() {
    let equals = ParseError::InvalidAssignmentTarget { token: at(Lexeme::Equal, 0) };
    assert_eq!(parse("1 = 2;"), Some(Err(equals)));
    assert_eq!(
        parse("(a) = 2;"),
        Some(Err(ParseError::InvalidAssignmentTarget { token: at(Lexeme::Equal, 0) }))
    );
}

#[test]
fn the_parser_yields_every_statement_and_stops_at_eof() {
    let mut parser = Parser::new(tokens("var a = 1;\nprint a;\n{ a = 2; }\n"));
    assert!(!parser.at_end());
    assert_eq!(parser.next(), Some(Ok(var("a", 0, Some(number("1"))))));
    assert_eq!(parser.next(), Some(Ok(print(variable("a", 1)))));
    assert_eq!(
        parser.next(),
        Some(Ok(Statement::Block(vec![Statement::Expression(Box::new(Expression::Assign {
            name: identifier("a", 2),
            value: Box::new(number("2")),
        }))])))
    );
    assert!(parser.at_end());
    assert_eq!(parser.next(), None);
    assert_eq!(parser.next(), None);

    let all = Parser::new(tokens("var a = 1;\nprint a;\n{ a = 2; }\n")).parse();
    assert_eq!(all.len(), 3);
    assert!(all.iter().all(|item| item.is_ok()));
}

#[test]
fn after_an_error_the_parser_goes_on_behind_the_token() {
    let all = Parser::new(tokens("print ; print 2;")).parse();
    assert_eq!(
        all,
        vec![Err(unexpected(Lexeme::Semicolon, 0, "Expected expression.")), Ok(print(number("2")))]
    );
    let all = Parser::new(tokens("(1 + 2")).parse();
    assert_eq!(all, vec![Err(unexpected(Lexeme::Eof, 0, "Expected ')' after expression."))]);
}

#[test]
fn if_takes_the_nearest_else() {
    assert_eq!(
        parse("if (a) if (b) 1; else 2;"),
        Some(Ok(Statement::If {
            condition: Box::new(variable("a", 0)),
            then_branch: Box::new(Statement::If {
                condition: Box::new(variable("b", 0)),
                then_branch: Box::new(Statement::Expression(Box::new(number("1")))),
                else_branch: Some(Box::new(Statement::Expression(Box::new(number("2"))))),
            }),
            else_branch: None,
        }))
    );
}

#[test]
fn parsed_statements_are_well_formed() {
    for item in Parser::new(tokens("var a = 1; { a = a + 1; if (a) print a; else while (false) a = 2; }")).parse() {
        assert!(item.unwrap().is_well_formed());
    }
    assert!(!Expression::Variable(at(Lexeme::Plus, 0)).is_well_formed());
    assert!(!Statement::Var { name: at(Lexeme::Nil, 0), initializer: None }.is_well_formed());
}

#[test]
fn parse_errors_read_as_text() {
    assert_eq!(
        unexpected(Lexeme::Eof, 4, "Expected ')' after expression.").to_string(),
        "[line 4] at '<EOF>' Expected ')' after expression."
    );
    assert_eq!(
        ParseError::InvalidAssignmentTarget { token: at(Lexeme::Equal, 10) }.to_string(),
        "[line 10] at '=' Invalid assignment target."
    );
    assert_eq!(ParseError::UnexpectedEnd.to_string(), "Unexpected end of input.");
}
