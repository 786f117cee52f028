use vstd::prelude::*;
use crate::expression::{expression_well_formed, ExpressionView};
use crate::statement::{statement_well_formed, StatementView};
use crate::token::{LexemeView, TokenView};
use crate::value::ValueView;

verus! {

/// Why a statement could not be parsed.
pub ghost enum ParseErrorView {
    UnexpectedToken { token: TokenView, message: Seq<char> },
    InvalidAssignmentTarget { token: TokenView },
    UnexpectedEnd,
}

/// The outcome of parsing one production from some position: what was
/// parsed, or why not, and how many tokens were passed over.
pub ghost struct Parsed<T> {
    pub result: Result<T, ParseErrorView>,
    pub used: nat,
}

/// A production that parsed `value` over `used` tokens.
pub open spec fn done<T>(value: T, used: nat) -> Parsed<T> {
    Parsed { result: Ok(value), used }
}

/// A production that met `error` after `used` tokens.
pub open spec fn failed<T>(error: ParseErrorView, used: nat) -> Parsed<T> {
    Parsed { result: Err(error), used }
}

/// The error for a terminal that is not at `pos`: the token found there is
/// unexpected, or the tokens have run out.
pub open spec fn missing(ts: Seq<TokenView>, pos: nat, message: Seq<char>) -> ParseErrorView {
    if pos < ts.len() {
        ParseErrorView::UnexpectedToken { token: ts[pos as int], message }
    } else {
        ParseErrorView::UnexpectedEnd
    }
}

/// Whether the token at `pos` has the lexeme `lexeme`.
pub open spec fn has(ts: Seq<TokenView>, pos: nat, lexeme: LexemeView) -> bool {
    pos < ts.len() && ts[pos as int].lexeme == lexeme
}

/// The number of tokens from `pos` on: what every production's recursion
/// decreases.
pub open spec fn remaining(ts: Seq<TokenView>, pos: nat) -> nat {
    if pos <= ts.len() {
        (ts.len() - pos) as nat
    } else {
        0
    }
}

/// The levels of binary operators, from the tightest to the loosest.
#[derive(Debug, Clone, Copy, PartialEq, Eq, Structural)]
pub enum Level {
    Factor,
    Term,
    Comparison,
    Equality,
    And,
    Or,
}

impl Level {
    /// The place of the level, counted from the tightest.
    pub open spec fn rank(self) -> nat {
        match self {
            Level::Factor => 1,
            Level::Term => 2,
            Level::Comparison => 3,
            Level::Equality => 4,
            Level::And => 5,
            Level::Or => 6,
        }
    }

    /// The next tighter level; `Factor` has none, its operands are unary.
    pub open spec fn below(self) -> Level {
        match self {
            Level::Factor => Level::Factor,
            Level::Term => Level::Factor,
            Level::Comparison => Level::Term,
            Level::Equality => Level::Comparison,
            Level::And => Level::Equality,
            Level::Or => Level::And,
        }
    }

    /// Whether `lexeme` is an operator of this level.
    pub open spec fn has_operator(self, lexeme: LexemeView) -> bool {
        match self {
            Level::Factor => lexeme == LexemeView::Slash || lexeme == LexemeView::Star,
            Level::Term => lexeme == LexemeView::Minus || lexeme == LexemeView::Plus,
            Level::Comparison => lexeme == LexemeView::Greater || lexeme == LexemeView::GreaterEqual || lexeme
                == LexemeView::Less || lexeme == LexemeView::LessEqual,
            Level::Equality => lexeme == LexemeView::BangEqual || lexeme == LexemeView::EqualEqual,
            Level::And => lexeme == LexemeView::And,
            Level::Or => lexeme == LexemeView::Or,
        }
    }

    /// The node that joins two operands of this level: `Logical` for `and`
    /// and `or`, `Binary` for the others.
    pub open spec fn node(self, left: ExpressionView, operator: TokenView, right: ExpressionView) -> ExpressionView {
        if self == Level::And || self == Level::Or {
            ExpressionView::Logical { left: Box::new(left), operator, right: Box::new(right) }
        } else {
            ExpressionView::Binary { left: Box::new(left), operator, right: Box::new(right) }
        }
    }
}

/// primary → NUMBER | STRING | "true" | "false" | "nil" | IDENT | "(" expression ")"
pub open spec fn parse_primary(ts: Seq<TokenView>, pos: nat) -> Parsed<ExpressionView>
    decreases remaining(ts, pos), 0nat,
{
    if pos >= ts.len() {
        failed(ParseErrorView::UnexpectedEnd, 0)
    } else {
        let token = ts[pos as int];
        match token.lexeme {
            LexemeView::False => done(ExpressionView::Literal(ValueView::Bool(false)), 1),
            LexemeView::True => done(ExpressionView::Literal(ValueView::Bool(true)), 1),
            LexemeView::Nil => done(ExpressionView::Literal(ValueView::Nil), 1),
            LexemeView::Number(literal) => done(ExpressionView::Literal(ValueView::Number(literal)), 1),
            LexemeView::String(content) => done(ExpressionView::Literal(ValueView::String(content)), 1),
            LexemeView::Identifier(_) => done(ExpressionView::Variable(token), 1),
            LexemeView::LeftParen => {
                let inner = parse_expression(ts, pos + 1);
                match inner.result {
                    Err(e) => failed(e, 1 + inner.used),
                    Ok(e) => if has(ts, pos + 1 + inner.used, LexemeView::RightParen) {
                        done(ExpressionView::Grouping(Box::new(e)), inner.used + 2)
                    } else {
                        failed(missing(ts, pos + 1 + inner.used, "Expected ')' after expression."@), 1 + inner.used)
                    },
                }
            },
            _ => failed(ParseErrorView::UnexpectedToken { token, message: "Expected expression."@ }, 0),
        }
    }
}

/// unary → ( "!" | "-" ) unary | primary
pub open spec fn parse_unary(ts: Seq<TokenView>, pos: nat) -> Parsed<ExpressionView>
    decreases remaining(ts, pos), 1nat,
{
    if has(ts, pos, LexemeView::Bang) || has(ts, pos, LexemeView::Minus) {
        let operand = parse_unary(ts, pos + 1);
        match operand.result {
            Err(e) => failed(e, 1 + operand.used),
            Ok(e) => done(
                ExpressionView::Unary { operator: ts[pos as int], expression: Box::new(e) },
                1 + operand.used,
            ),
        }
    } else {
        parse_primary(ts, pos)
    }
}

/// An operand of a level: a unary expression for `Factor`, an expression of
/// the next tighter level for the others.
pub open spec fn parse_operand(ts: Seq<TokenView>, pos: nat, level: Level) -> Parsed<ExpressionView>
    decreases remaining(ts, pos), 4 * level.rank(),
{
    if level == Level::Factor {
        parse_unary(ts, pos)
    } else {
        parse_level(ts, pos, level.below())
    }
}

/// The operators and operands that follow `left` at one level, folded to
/// the left: `a - b - c` is `(a - b) - c`.
pub open spec fn parse_more(ts: Seq<TokenView>, pos: nat, level: Level, left: ExpressionView) -> Parsed<
    ExpressionView,
>
    decreases remaining(ts, pos), 4 * level.rank() + 1,
{
    if pos < ts.len() && level.has_operator(ts[pos as int].lexeme) {
        let right = parse_operand(ts, pos + 1, level);
        match right.result {
            Err(e) => failed(e, 1 + right.used),
            Ok(r) => {
                let rest = parse_more(ts, pos + 1 + right.used, level, level.node(left, ts[pos as int], r));
                Parsed { result: rest.result, used: 1 + right.used + rest.used }
            },
        }
    } else {
        done(left, 0)
    }
}

/// One level of binary operators: operand ( operator operand )*
pub open spec fn parse_level(ts: Seq<TokenView>, pos: nat, level: Level) -> Parsed<ExpressionView>
    decreases remaining(ts, pos), 4 * level.rank() + 2,
{
    let first = parse_operand(ts, pos, level);
    match first.result {
        Err(e) => first,
        Ok(left) => {
            let rest = parse_more(ts, pos + first.used, level, left);
            Parsed { result: rest.result, used: first.used + rest.used }
        },
    }
}

/// assignment → IDENT "=" assignment | logic_or
///
/// The left side is parsed as a `logic_or`. If `=` follows, the right side
/// is parsed as an assignment, and the whole is an assignment if the left
/// side is a variable; if it is not, the error names the `=` token.
pub open spec fn parse_assignment(ts: Seq<TokenView>, pos: nat) -> Parsed<ExpressionView>
    decreases remaining(ts, pos), 28nat,
{
    let target = parse_level(ts, pos, Level::Or);
    match target.result {
        Err(e) => target,
        Ok(left) => if has(ts, pos + target.used, LexemeView::Equal) {
            let equals = ts[(pos + target.used) as int];
            let value = parse_assignment(ts, pos + target.used + 1);
            match value.result {
                Err(e) => failed(e, target.used + 1 + value.used),
                Ok(v) => match left {
                    ExpressionView::Variable(name) => done(
                        ExpressionView::Assign { name, value: Box::new(v) },
                        target.used + 1 + value.used,
                    ),
                    _ => failed(
                        ParseErrorView::InvalidAssignmentTarget { token: equals },
                        target.used + 1 + value.used,
                    ),
                },
            }
        } else {
            target
        },
    }
}

/// expression → assignment
pub open spec fn parse_expression(ts: Seq<TokenView>, pos: nat) -> Parsed<ExpressionView>
    decreases remaining(ts, pos), 29nat,
{
    parse_assignment(ts, pos)
}

/// An expression and the terminal `lexeme` after it.
#[verifier::opaque]
pub open spec fn parse_terminated(ts: Seq<TokenView>, pos: nat, lexeme: LexemeView, message: Seq<char>) -> Parsed<
    ExpressionView,
>
    decreases remaining(ts, pos), 30nat,
{
    let e = parse_expression(ts, pos);
    match e.result {
        Err(_) => e,
        Ok(value) => if has(ts, pos + e.used, lexeme) {
            done(value, e.used + 1)
        } else {
            failed(missing(ts, pos + e.used, message), e.used)
        },
    }
}

/// "(" expression ")" after `if` or `while`.
#[verifier::opaque]
pub open spec fn parse_condition(ts: Seq<TokenView>, pos: nat, open: Seq<char>, close: Seq<char>) -> Parsed<
    ExpressionView,
>
    decreases remaining(ts, pos), 31nat,
{
    if has(ts, pos, LexemeView::LeftParen) {
        let inner = parse_terminated(ts, pos + 1, LexemeView::RightParen, close);
        Parsed { result: inner.result, used: 1 + inner.used }
    } else {
        failed(missing(ts, pos, open), 0)
    }
}

/// The outcome `p` of a production that starts `n` tokens further on.
pub open spec fn after<T>(n: nat, p: Parsed<T>) -> Parsed<T> {
    Parsed { result: p.result, used: n + p.used }
}

/// expression ";" after `print`.
#[verifier::opaque]
pub open spec fn parse_print(ts: Seq<TokenView>, pos: nat) -> Parsed<StatementView>
    decreases remaining(ts, pos), 31nat,
{
    let e = parse_terminated(ts, pos, LexemeView::Semicolon, "Expected ';' after value."@);
    match e.result {
        Err(error) => failed(error, e.used),
        Ok(value) => done(StatementView::Print(value), e.used),
    }
}

/// expression ";" as a statement.
#[verifier::opaque]
pub open spec fn parse_expression_statement(ts: Seq<TokenView>, pos: nat) -> Parsed<StatementView>
    decreases remaining(ts, pos), 31nat,
{
    let e = parse_terminated(ts, pos, LexemeView::Semicolon, "Expected ';' after expression."@);
    match e.result {
        Err(error) => failed(error, e.used),
        Ok(value) => done(StatementView::Expression(value), e.used),
    }
}

/// "(" expression ")" statement ( "else" statement )? after `if`.
pub open spec fn parse_if(ts: Seq<TokenView>, pos: nat) -> Parsed<StatementView>
    decreases remaining(ts, pos), 35nat,
{
    let condition = parse_condition(ts, pos, "Expected '(' after 'if'."@, "Expected ')' after if condition."@);
    match condition.result {
        Err(error) => failed(error, condition.used),
        Ok(c) => {
            let then_branch = parse_statement(ts, pos + condition.used);
            match then_branch.result {
                Err(error) => failed(error, condition.used + then_branch.used),
                Ok(t) => {
                    let used = condition.used + then_branch.used;
                    if has(ts, pos + used, LexemeView::Else) {
                        let else_branch = parse_statement(ts, pos + used + 1);
                        match else_branch.result {
                            Err(error) => failed(error, used + 1 + else_branch.used),
                            Ok(e) => done(
                                StatementView::If {
                                    condition: c,
                                    then_branch: Box::new(t),
                                    else_branch: Some(Box::new(e)),
                                },
                                used + 1 + else_branch.used,
                            ),
                        }
                    } else {
                        done(StatementView::If { condition: c, then_branch: Box::new(t), else_branch: None }, used)
                    }
                },
            }
        },
    }
}

/// "(" expression ")" statement after `while`.
pub open spec fn parse_while(ts: Seq<TokenView>, pos: nat) -> Parsed<StatementView>
    decreases remaining(ts, pos), 35nat,
{
    let condition = parse_condition(ts, pos, "Expected '(' after 'while'."@, "Expected ')' after condition."@);
    match condition.result {
        Err(error) => failed(error, condition.used),
        Ok(c) => {
            let body = parse_statement(ts, pos + condition.used);
            match body.result {
                Err(error) => failed(error, condition.used + body.used),
                Ok(b) => done(StatementView::While { condition: c, body: Box::new(b) }, condition.used + body.used),
            }
        },
    }
}

/// declaration* "}" as a statement, after the `{`.
pub open spec fn parse_block_statement(ts: Seq<TokenView>, pos: nat) -> Parsed<StatementView>
    decreases remaining(ts, pos), 35nat,
{
    let block = parse_block(ts, pos);
    match block.result {
        Err(error) => failed(error, block.used),
        Ok(statements) => done(StatementView::Block(statements), block.used),
    }
}

/// statement → "print" expression ";" | "{" declaration* "}"
///           | "if" "(" expression ")" statement ( "else" statement )?
///           | "while" "(" expression ")" statement | expression ";"
pub open spec fn parse_statement(ts: Seq<TokenView>, pos: nat) -> Parsed<StatementView>
    decreases remaining(ts, pos), 32nat,
{
    if has(ts, pos, LexemeView::Print) {
        after(1, parse_print(ts, pos + 1))
    } else if has(ts, pos, LexemeView::LeftBrace) {
        after(1, parse_block_statement(ts, pos + 1))
    } else if has(ts, pos, LexemeView::If) {
        after(1, parse_if(ts, pos + 1))
    } else if has(ts, pos, LexemeView::While) {
        after(1, parse_while(ts, pos + 1))
    } else {
        parse_expression_statement(ts, pos)
    }
}

/// "var" IDENT ( "=" expression )? ";" after the `var`.
#[verifier::opaque]
pub open spec fn parse_var(ts: Seq<TokenView>, pos: nat) -> Parsed<StatementView>
    decreases remaining(ts, pos), 31nat,
{
    if pos < ts.len() && ts[pos as int].lexeme is Identifier {
        let name = ts[pos as int];
        if has(ts, pos + 1, LexemeView::Equal) {
            let e = parse_terminated(
                ts,
                pos + 2,
                LexemeView::Semicolon,
                "Expected ';' after variable declaration."@,
            );
            match e.result {
                Err(error) => failed(error, 2 + e.used),
                Ok(value) => done(StatementView::Var { name, initializer: Some(value) }, 2 + e.used),
            }
        } else if has(ts, pos + 1, LexemeView::Semicolon) {
            done(StatementView::Var { name, initializer: None }, 2)
        } else {
            failed(missing(ts, pos + 1, "Expected ';' after variable declaration."@), 1)
        }
    } else {
        failed(missing(ts, pos, "Expected variable name."@), 0)
    }
}

/// declaration → "var" IDENT ( "=" expression )? ";" | statement
pub open spec fn parse_declaration(ts: Seq<TokenView>, pos: nat) -> Parsed<StatementView>
    decreases remaining(ts, pos), 33nat,
{
    if has(ts, pos, LexemeView::Var) {
        after(1, parse_var(ts, pos + 1))
    } else {
        parse_statement(ts, pos)
    }
}

/// declaration* "}" after the `{`.
///
/// A declaration that parses uses at least one token
/// (`lemma_declaration_uses_a_token`); the step written here is what lets
/// the definition stand before that is known.
pub open spec fn parse_block(ts: Seq<TokenView>, pos: nat) -> Parsed<Seq<StatementView>>
    decreases remaining(ts, pos), 34nat,
{
    if pos >= ts.len() {
        failed(ParseErrorView::UnexpectedEnd, 0)
    } else if has(ts, pos, LexemeView::RightBrace) {
        done(Seq::empty(), 1)
    } else if has(ts, pos, LexemeView::Eof) {
        failed(ParseErrorView::UnexpectedToken { token: ts[pos as int], message: "Expected '}' after block."@ }, 0)
    } else {
        let first = parse_declaration(ts, pos);
        match first.result {
            Err(error) => failed(error, first.used),
            Ok(statement) => {
                let step = if first.used > 0 {
                    first.used
                } else {
                    1
                };
                let rest = parse_block(ts, pos + step);
                match rest.result {
                    Err(error) => failed(error, step + rest.used),
                    Ok(statements) => done(seq![statement] + statements, step + rest.used),
                }
            },
        }
    }
}

/// Whether the program ends at `pos`: the `Eof` token stands there, or no
/// token at all.
pub open spec fn ended(ts: Seq<TokenView>, pos: nat) -> bool {
    pos >= ts.len() || has(ts, pos, LexemeView::Eof)
}

/// How far one pull of a statement moves on from `pos`: over the
/// declaration if it parses; after an error, over what was passed and the
/// token that the error was met on, unless that token ends the program.
///
/// A pull from a place where the program has not ended moves on by at least
/// one token (`lemma_declaration_uses_a_token`); the last case written here
/// is what lets `parse_program` stand before that is known.
pub open spec fn pull_length(ts: Seq<TokenView>, pos: nat) -> nat {
    let p = parse_declaration(ts, pos);
    if p.result is Err && !ended(ts, pos + p.used) {
        p.used + 1
    } else if p.used > 0 {
        p.used
    } else {
        1
    }
}

/// program → declaration*, up to the `Eof` token: the outcome of every pull.
pub open spec fn parse_program(ts: Seq<TokenView>, pos: nat) -> Seq<Result<StatementView, ParseErrorView>>
    decreases remaining(ts, pos),
{
    if ended(ts, pos) {
        Seq::empty()
    } else {
        seq![parse_declaration(ts, pos).result] + parse_program(ts, pos + pull_length(ts, pos))
    }
}

/// An operand that parses uses at least one token, and so does an expression
/// of any level.
pub proof fn lemma_level_uses_a_token(ts: Seq<TokenView>, pos: nat, level: Level)
    ensures
        parse_operand(ts, pos, level).result is Ok ==> parse_operand(ts, pos, level).used >= 1,
        parse_level(ts, pos, level).result is Ok ==> parse_level(ts, pos, level).used >= 1,
    decreases level.rank(),
{
    if level != Level::Factor {
        lemma_level_uses_a_token(ts, pos, level.below());
    } else {
        let p = parse_unary(ts, pos);
        if !(has(ts, pos, LexemeView::Bang) || has(ts, pos, LexemeView::Minus)) {
            assert(p == parse_primary(ts, pos));
        }
    }
    let first = parse_operand(ts, pos, level);
    if first.result is Ok {
        let rest = parse_more(ts, pos + first.used, level, first.result->Ok_0);
        assert(parse_level(ts, pos, level).used == first.used + rest.used);
    }
}

/// An expression that parses uses at least one token.
pub proof fn lemma_expression_uses_a_token(ts: Seq<TokenView>, pos: nat)
    ensures
        parse_expression(ts, pos).result is Ok ==> parse_expression(ts, pos).used >= 1,
{
    lemma_level_uses_a_token(ts, pos, Level::Or);
}

/// A declaration that parses uses at least one token.
pub proof fn lemma_declaration_uses_a_token(ts: Seq<TokenView>, pos: nat)
    ensures
        parse_declaration(ts, pos).result is Ok ==> parse_declaration(ts, pos).used >= 1,
{
    reveal(parse_terminated);
    reveal(parse_expression_statement);
    lemma_expression_uses_a_token(ts, pos);
}

/// What parsed, if anything, names its variables by identifier tokens.
pub open spec fn well_formed_expression(p: Parsed<ExpressionView>) -> bool {
    p.result matches Ok(e) ==> expression_well_formed(e)
}

/// What parsed, if anything, names its variables by identifier tokens.
pub open spec fn well_formed_statement(p: Parsed<StatementView>) -> bool {
    p.result matches Ok(s) ==> statement_well_formed(s)
}

/// The lemmas below go through the productions in the grammar's order.
proof fn lemma_primary_well_formed(ts: Seq<TokenView>, pos: nat)
    ensures
        well_formed_expression(parse_primary(ts, pos)),
    decreases remaining(ts, pos), 0nat,
{
    if pos < ts.len() && ts[pos as int].lexeme == LexemeView::LeftParen {
        lemma_expression_well_formed(ts, pos + 1);
    }
}

proof fn lemma_unary_well_formed(ts: Seq<TokenView>, pos: nat)
    ensures
        well_formed_expression(parse_unary(ts, pos)),
    decreases remaining(ts, pos), 1nat,
{
    if has(ts, pos, LexemeView::Bang) || has(ts, pos, LexemeView::Minus) {
        lemma_unary_well_formed(ts, pos + 1);
    } else {
        lemma_primary_well_formed(ts, pos);
    }
}

proof fn lemma_operand_well_formed(ts: Seq<TokenView>, pos: nat, level: Level)
    ensures
        well_formed_expression(parse_operand(ts, pos, level)),
    decreases remaining(ts, pos), 4 * level.rank(),
{
    if level == Level::Factor {
        lemma_unary_well_formed(ts, pos);
    } else {
        lemma_level_well_formed(ts, pos, level.below());
    }
}

proof fn lemma_more_well_formed(ts: Seq<TokenView>, pos: nat, level: Level, left: ExpressionView)
    requires
        expression_well_formed(left),
    ensures
        well_formed_expression(parse_more(ts, pos, level, left)),
    decreases remaining(ts, pos), 4 * level.rank() + 1,
{
    if pos < ts.len() && level.has_operator(ts[pos as int].lexeme) {
        lemma_operand_well_formed(ts, pos + 1, level);
        let right = parse_operand(ts, pos + 1, level);
        if right.result is Ok {
            lemma_more_well_formed(
                ts,
                pos + 1 + right.used,
                level,
                level.node(left, ts[pos as int], right.result->Ok_0),
            );
        }
    }
}

proof fn lemma_level_well_formed(ts: Seq<TokenView>, pos: nat, level: Level)
    ensures
        well_formed_expression(parse_level(ts, pos, level)),
    decreases remaining(ts, pos), 4 * level.rank() + 2,
{
    lemma_operand_well_formed(ts, pos, level);
    let first = parse_operand(ts, pos, level);
    if first.result is Ok {
        lemma_more_well_formed(ts, pos + first.used, level, first.result->Ok_0);
    }
}

proof fn lemma_assignment_well_formed(ts: Seq<TokenView>, pos: nat)
    ensures
        well_formed_expression(parse_assignment(ts, pos)),
    decreases remaining(ts, pos), 28nat,
{
    lemma_level_well_formed(ts, pos, Level::Or);
    let target = parse_level(ts, pos, Level::Or);
    if target.result is Ok && has(ts, pos + target.used, LexemeView::Equal) {
        lemma_assignment_well_formed(ts, pos + target.used + 1);
    }
}

/// Every expression that parses names its variables by identifier tokens.
pub proof fn lemma_expression_well_formed(ts: Seq<TokenView>, pos: nat)
    ensures
        well_formed_expression(parse_expression(ts, pos)),
    decreases remaining(ts, pos), 29nat,
{
    lemma_assignment_well_formed(ts, pos);
}

/// Every statement that parses names its variables by identifier tokens.
pub proof fn lemma_statement_well_formed(ts: Seq<TokenView>, pos: nat)
    ensures
        well_formed_statement(parse_statement(ts, pos)),
    decreases remaining(ts, pos), 32nat,
{
    reveal(parse_terminated);
    reveal(parse_condition);
    reveal(parse_print);
    reveal(parse_expression_statement);
    if has(ts, pos, LexemeView::Print) {
        lemma_expression_well_formed(ts, pos + 1);
    } else if has(ts, pos, LexemeView::LeftBrace) {
        lemma_block_well_formed(ts, pos + 1);
    } else if has(ts, pos, LexemeView::If) {
        lemma_expression_well_formed(ts, pos + 2);
        let condition = parse_condition(
            ts,
            pos + 1,
            "Expected '(' after 'if'."@,
            "Expected ')' after if condition."@,
        );
        if condition.result is Ok {
            let then_at = pos + 1 + condition.used;
            lemma_statement_well_formed(ts, then_at);
            let then_branch = parse_statement(ts, then_at);
            if then_branch.result is Ok && has(ts, then_at + then_branch.used, LexemeView::Else) {
                lemma_statement_well_formed(ts, then_at + then_branch.used + 1);
            }
        }
    } else if has(ts, pos, LexemeView::While) {
        lemma_expression_well_formed(ts, pos + 2);
        let condition = parse_condition(ts, pos + 1, "Expected '(' after 'while'."@, "Expected ')' after condition."@);
        if condition.result is Ok {
            lemma_statement_well_formed(ts, pos + 1 + condition.used);
        }
    } else {
        lemma_expression_well_formed(ts, pos);
    }
}

/// Every declaration that parses names its variables by identifier tokens.
pub proof fn lemma_declaration_well_formed(ts: Seq<TokenView>, pos: nat)
    ensures
        well_formed_statement(parse_declaration(ts, pos)),
    decreases remaining(ts, pos), 33nat,
{
    reveal(parse_terminated);
    reveal(parse_var);
    if has(ts, pos, LexemeView::Var) {
        lemma_expression_well_formed(ts, pos + 3);
    } else {
        lemma_statement_well_formed(ts, pos);
    }
}

proof fn lemma_block_well_formed(ts: Seq<TokenView>, pos: nat)
    ensures
        parse_block(ts, pos).result matches Ok(statements) ==> forall|i: int|
            0 <= i < statements.len() ==> statement_well_formed(#[trigger] statements[i]),
    decreases remaining(ts, pos), 34nat,
{
    if pos < ts.len() && !(has(ts, pos, LexemeView::RightBrace)) && !(has(ts, pos, LexemeView::Eof)) {
        lemma_declaration_well_formed(ts, pos);
        let first = parse_declaration(ts, pos);
        if first.result is Ok {
            let step = if first.used > 0 {
                first.used
            } else {
                1
            };
            lemma_block_well_formed(ts, pos + step);
        }
    }
}

/// Every statement of a parsed program names its variables by identifier
/// tokens.
pub proof fn lemma_program_well_formed(ts: Seq<TokenView>, pos: nat)
    ensures
        forall|i: int|
            0 <= i < parse_program(ts, pos).len() ==> ((#[trigger] parse_program(ts, pos)[i]) matches Ok(s)
                ==> statement_well_formed(s)),
    decreases remaining(ts, pos),
{
    if !ended(ts, pos) {
        lemma_declaration_well_formed(ts, pos);
        lemma_program_well_formed(ts, pos + pull_length(ts, pos));
    }
}

} // verus!
