use vstd::prelude::*;
use vstd::string::*;
use crate::expression::{expression_well_formed, Expression, ExpressionView};
use crate::grammar::{
    ended, has, lemma_declaration_uses_a_token, lemma_declaration_well_formed, lemma_expression_well_formed,
    missing, parse_assignment, parse_block, parse_block_statement, parse_condition, parse_declaration,
    parse_expression, parse_expression_statement, parse_if, parse_level, parse_more, parse_operand,
    parse_primary, parse_print, parse_program, parse_statement, parse_terminated, parse_unary, parse_var,
    parse_while, pull_length, remaining, Level, ParseErrorView,
};
use crate::statement::{statement_views, statement_well_formed, Statement, StatementView};
use crate::text::{decimal, decimal_text};
use crate::token::{Lexeme, Token, TokenView};
use crate::value::Value;

verus! {

/// Why a statement could not be parsed.
#[derive(Debug, PartialEq)]
pub enum ParseError {
    /// Another token was needed where `token` stands.
    UnexpectedToken { token: Token, message: String },
    /// The left side of the `=` token is not a variable.
    InvalidAssignmentTarget { token: Token },
    /// The tokens ran out in the middle of a production.
    UnexpectedEnd,
}

impl View for ParseError {
    type V = ParseErrorView;

    open spec fn view(&self) -> ParseErrorView {
        match self {
            ParseError::UnexpectedToken { token, message } => ParseErrorView::UnexpectedToken {
                token: token@,
                message: message@,
            },
            ParseError::InvalidAssignmentTarget { token } => ParseErrorView::InvalidAssignmentTarget {
                token: token@,
            },
            ParseError::UnexpectedEnd => ParseErrorView::UnexpectedEnd,
        }
    }
}

impl ParseErrorView {
    /// The error as a line of text: the line and spelling of the token it
    /// names, and what was expected there.
    pub open spec fn text(self) -> Seq<char> {
        match self {
            ParseErrorView::UnexpectedToken { token, message } => located(token, message),
            ParseErrorView::InvalidAssignmentTarget { token } => located(token, "Invalid assignment target."@),
            ParseErrorView::UnexpectedEnd => "Unexpected end of input."@,
        }
    }
}

/// `[line <line>] at '<token>' <message>`
pub open spec fn located(token: TokenView, message: Seq<char>) -> Seq<char> {
    "[line "@ + decimal(token.line as nat) + "] at '"@ + token.lexeme.text() + "' "@ + message
}

fn locate(token: &Token, message: &str) -> (r: String)
    ensures
        r@ == located(token@, message@),
{
    let mut r = String::from_str("[line ");
    r.append(decimal_text(token.line).as_str());
    r.append("] at '");
    r.append(token.to_string().as_str());
    r.append("' ");
    r.append(message);
    r
}

impl ParseError {
    /// The error as a line of text.
    pub fn to_string(&self) -> (r: String)
        ensures
            r@ == self@.text(),
    {
        match self {
            ParseError::UnexpectedToken { token, message } => locate(token, message.as_str()),
            ParseError::InvalidAssignmentTarget { token } => locate(token, "Invalid assignment target."),
            ParseError::UnexpectedEnd => "Unexpected end of input.".to_owned(),
        }
    }
}

/// The mathematical value of what an expression production returned.
pub open spec fn expression_outcome(r: Result<Expression, ParseError>) -> Result<ExpressionView, ParseErrorView> {
    match r {
        Ok(e) => Ok(e@),
        Err(e) => Err(e@),
    }
}

/// The mathematical value of what a statement production returned.
pub open spec fn statement_outcome(r: Result<Statement, ParseError>) -> Result<StatementView, ParseErrorView> {
    match r {
        Ok(s) => Ok(s@),
        Err(e) => Err(e@),
    }
}

/// The outcomes of a sequence of pulls, in order.
pub open spec fn statement_outcomes(items: Seq<Result<Statement, ParseError>>) -> Seq<
    Result<StatementView, ParseErrorView>,
> {
    Seq::new(items.len(), |i: int| statement_outcome(items[i]))
}

/// The mathematical value of what the block production returned.
pub open spec fn block_outcome(r: Result<Vec<Statement>, ParseError>) -> Result<
    Seq<StatementView>,
    ParseErrorView,
> {
    match r {
        Ok(s) => Ok(statement_views(s@)),
        Err(e) => Err(e@),
    }
}

impl Level {
    /// Whether `lexeme` is an operator of this level.
    pub fn is_operator(self, lexeme: &Lexeme) -> (r: bool)
        ensures
            r == self.has_operator(lexeme@),
    {
        match self {
            Level::Factor => matches!(lexeme, Lexeme::Slash | Lexeme::Star),
            Level::Term => matches!(lexeme, Lexeme::Minus | Lexeme::Plus),
            Level::Comparison => matches!(
                lexeme,
                Lexeme::Greater | Lexeme::GreaterEqual | Lexeme::Less | Lexeme::LessEqual
            ),
            Level::Equality => matches!(lexeme, Lexeme::BangEqual | Lexeme::EqualEqual),
            Level::And => matches!(lexeme, Lexeme::And),
            Level::Or => matches!(lexeme, Lexeme::Or),
        }
    }

    /// Joins two operands of this level.
    pub fn join(self, left: Expression, operator: Token, right: Expression) -> (r: Expression)
        ensures
            r@ == self.node(left@, operator@, right@),
    {
        match self {
            Level::And | Level::Or => Expression::Logical {
                left: Box::new(left),
                operator,
                right: Box::new(right),
            },
            _ => Expression::Binary { left: Box::new(left), operator, right: Box::new(right) },
        }
    }
}

/// A recursive-descent parser over a sequence of tokens.
pub struct Parser {
    tokens: Vec<Token>,
    cursor: usize,
}

impl Parser {
    /// The tokens that the parser reads.
    pub closed spec fn tokens(&self) -> Seq<TokenView> {
        Seq::new(self.tokens@.len(), |i: int| self.tokens@[i]@)
    }

    /// The parser's invariant: the cursor is on a token or just after the last.
    pub closed spec fn wf(&self) -> bool {
        self.cursor <= self.tokens@.len()
    }

    /// The index of the token under the cursor.
    pub closed spec fn position(&self) -> nat {
        self.cursor as nat
    }

    /// `after` is this parser moved `used` tokens on.
    pub open spec fn moved_by(&self, after: Parser, used: nat) -> bool {
        &&& after.wf()
        &&& after.tokens() == self.tokens()
        &&& after.position() == self.position() + used
    }

    /// A parser at the first of `tokens`.
    pub fn new(tokens: Vec<Token>) -> (r: Self)
        ensures
            r.wf(),
            r.position() == 0,
            r.tokens() == Seq::new(tokens@.len(), |i: int| tokens@[i]@),
    {
        Parser { tokens, cursor: 0 }
    }

    /// Whether the cursor is on the `Eof` token or past the last token.
    pub fn at_end(&self) -> (r: bool)
        requires
            self.wf(),
        ensures
            r == ended(self.tokens(), self.position()),
    {
        if self.cursor < self.tokens.len() {
            matches!(self.tokens[self.cursor].lexeme, Lexeme::Eof)
        } else {
            true
        }
    }

    /// Whether the cursor is on a token with the lexeme `lexeme`.
    fn at(&self, lexeme: &Lexeme) -> (r: bool)
        requires
            self.wf(),
        ensures
            r == has(self.tokens(), self.position(), lexeme@),
            r ==> self.position() < self.tokens().len(),
    {
        if self.cursor < self.tokens.len() {
            self.tokens[self.cursor].lexeme.same(lexeme)
        } else {
            false
        }
    }

    /// Moves the cursor past the token under it, if there is one.
    fn advance(&mut self)
        requires
            old(self).wf(),
        ensures
            old(self).moved_by(
                *final(self),
                if old(self).position() < old(self).tokens().len() {
                    1
                } else {
                    0
                },
            ),
    {
        if self.cursor < self.tokens.len() {
            self.cursor = self.cursor + 1;
        }
    }

    /// The error for a terminal that is not under the cursor.
    fn error(&self, message: &str) -> (e: ParseError)
        requires
            self.wf(),
        ensures
            e@ == missing(self.tokens(), self.position(), message@),
    {
        if self.cursor < self.tokens.len() {
            ParseError::UnexpectedToken { token: self.tokens[self.cursor].clone(), message: message.to_owned() }
        } else {
            ParseError::UnexpectedEnd
        }
    }

    fn primary(&mut self) -> (r: Result<Expression, ParseError>)
        requires
            old(self).wf(),
        ensures
            old(self).moved_by(*final(self), parse_primary(old(self).tokens(), old(self).position()).used),
            expression_outcome(r) == parse_primary(old(self).tokens(), old(self).position()).result,
        decreases remaining(old(self).tokens(), old(self).position()), 0nat,
    {
        if self.cursor >= self.tokens.len() {
            return Err(ParseError::UnexpectedEnd);
        }
        let token = &self.tokens[self.cursor];
        match &token.lexeme {
            Lexeme::False => {
                self.cursor = self.cursor + 1;
                Ok(Expression::Literal(Value::Bool(false)))
            },
            Lexeme::True => {
                self.cursor = self.cursor + 1;
                Ok(Expression::Literal(Value::Bool(true)))
            },
            Lexeme::Nil => {
                self.cursor = self.cursor + 1;
                Ok(Expression::Literal(Value::Nil))
            },
            Lexeme::Number(literal) => {
                let value = Value::Number(literal.clone());
                self.cursor = self.cursor + 1;
                Ok(Expression::Literal(value))
            },
            Lexeme::String(content) => {
                let value = Value::String(content.clone());
                self.cursor = self.cursor + 1;
                Ok(Expression::Literal(value))
            },
            Lexeme::Identifier(_) => {
                let name = token.clone();
                self.cursor = self.cursor + 1;
                Ok(Expression::Variable(name))
            },
            Lexeme::LeftParen => {
                self.cursor = self.cursor + 1;
                match self.expression() {
                    Err(e) => Err(e),
                    Ok(inner) => {
                        if self.at(&Lexeme::RightParen) {
                            self.advance();
                            Ok(Expression::Grouping(Box::new(inner)))
                        } else {
                            Err(self.error("Expected ')' after expression."))
                        }
                    },
                }
            },
            _ => Err(self.error("Expected expression.")),
        }
    }

    fn unary(&mut self) -> (r: Result<Expression, ParseError>)
        requires
            old(self).wf(),
        ensures
            old(self).moved_by(*final(self), parse_unary(old(self).tokens(), old(self).position()).used),
            expression_outcome(r) == parse_unary(old(self).tokens(), old(self).position()).result,
        decreases remaining(old(self).tokens(), old(self).position()), 1nat,
    {
        if self.at(&Lexeme::Bang) || self.at(&Lexeme::Minus) {
            let operator = self.tokens[self.cursor].clone();
            self.advance();
            match self.unary() {
                Err(e) => Err(e),
                Ok(operand) => Ok(Expression::Unary { operator, expression: Box::new(operand) }),
            }
        } else {
            self.primary()
        }
    }

    fn operand(&mut self, level: Level) -> (r: Result<Expression, ParseError>)
        requires
            old(self).wf(),
        ensures
            old(self).moved_by(*final(self), parse_operand(old(self).tokens(), old(self).position(), level).used),
            expression_outcome(r) == parse_operand(old(self).tokens(), old(self).position(), level).result,
        decreases remaining(old(self).tokens(), old(self).position()), 4 * level.rank(),
    {
        match level {
            Level::Factor => self.unary(),
            Level::Term => self.factor(),
            Level::Comparison => self.term(),
            Level::Equality => self.comparison(),
            Level::And => self.equality(),
            Level::Or => self.and(),
        }
    }

    /// One level of binary operators, folded to the left.
    fn binary(&mut self, level: Level) -> (r: Result<Expression, ParseError>)
        requires
            old(self).wf(),
        ensures
            old(self).moved_by(*final(self), parse_level(old(self).tokens(), old(self).position(), level).used),
            expression_outcome(r) == parse_level(old(self).tokens(), old(self).position(), level).result,
        decreases remaining(old(self).tokens(), old(self).position()), 4 * level.rank() + 2,
    {
        let ghost ts = self.tokens();
        let ghost start = self.position();
        let mut left = match self.operand(level) {
            Err(e) => {
                return Err(e);
            },
            Ok(first) => first,
        };
        loop
            invariant
                self.wf(),
                self.tokens() == ts,
                ts == old(self).tokens(),
                start == old(self).position(),
                start <= self.position(),
                remaining(ts, self.position()) < remaining(ts, start) || self.position() == start + parse_operand(
                    ts,
                    start,
                    level,
                ).used,
                parse_level(ts, start, level).result == parse_more(ts, self.position(), level, left@).result,
                parse_level(ts, start, level).used == (self.position() - start) + parse_more(
                    ts,
                    self.position(),
                    level,
                    left@,
                ).used,
            decreases remaining(ts, self.position()),
        {
            if self.cursor < self.tokens.len() && level.is_operator(&self.tokens[self.cursor].lexeme) {
                let operator = self.tokens[self.cursor].clone();
                self.cursor = self.cursor + 1;
                match self.operand(level) {
                    Err(e) => {
                        return Err(e);
                    },
                    Ok(right) => {
                        left = level.join(left, operator, right);
                    },
                }
            } else {
                return Ok(left);
            }
        }
    }

    /// factor → unary ( ( "/" | "*" ) unary )*
    fn factor(&mut self) -> (r: Result<Expression, ParseError>)
        requires
            old(self).wf(),
        ensures
            old(self).moved_by(
                *final(self),
                parse_level(old(self).tokens(), old(self).position(), Level::Factor).used,
            ),
            expression_outcome(r) == parse_level(old(self).tokens(), old(self).position(), Level::Factor).result,
        decreases remaining(old(self).tokens(), old(self).position()), 7nat,
    {
        self.binary(Level::Factor)
    }

    /// term → factor ( ( "-" | "+" ) factor )*
    fn term(&mut self) -> (r: Result<Expression, ParseError>)
        requires
            old(self).wf(),
        ensures
            old(self).moved_by(
                *final(self),
                parse_level(old(self).tokens(), old(self).position(), Level::Term).used,
            ),
            expression_outcome(r) == parse_level(old(self).tokens(), old(self).position(), Level::Term).result,
        decreases remaining(old(self).tokens(), old(self).position()), 11nat,
    {
        self.binary(Level::Term)
    }

    /// comparison → term ( ( ">" | ">=" | "<" | "<=" ) term )*
    fn comparison(&mut self) -> (r: Result<Expression, ParseError>)
        requires
            old(self).wf(),
        ensures
            old(self).moved_by(
                *final(self),
                parse_level(old(self).tokens(), old(self).position(), Level::Comparison).used,
            ),
            expression_outcome(r) == parse_level(old(self).tokens(), old(self).position(), Level::Comparison).result,
        decreases remaining(old(self).tokens(), old(self).position()), 15nat,
    {
        self.binary(Level::Comparison)
    }

    /// equality → comparison ( ( "!=" | "==" ) comparison )*
    fn equality(&mut self) -> (r: Result<Expression, ParseError>)
        requires
            old(self).wf(),
        ensures
            old(self).moved_by(
                *final(self),
                parse_level(old(self).tokens(), old(self).position(), Level::Equality).used,
            ),
            expression_outcome(r) == parse_level(old(self).tokens(), old(self).position(), Level::Equality).result,
        decreases remaining(old(self).tokens(), old(self).position()), 19nat,
    {
        self.binary(Level::Equality)
    }

    /// logic_and → equality ( "and" equality )*
    fn and(&mut self) -> (r: Result<Expression, ParseError>)
        requires
            old(self).wf(),
        ensures
            old(self).moved_by(
                *final(self),
                parse_level(old(self).tokens(), old(self).position(), Level::And).used,
            ),
            expression_outcome(r) == parse_level(old(self).tokens(), old(self).position(), Level::And).result,
        decreases remaining(old(self).tokens(), old(self).position()), 23nat,
    {
        self.binary(Level::And)
    }

    /// logic_or → logic_and ( "or" logic_and )*
    fn or(&mut self) -> (r: Result<Expression, ParseError>)
        requires
            old(self).wf(),
        ensures
            old(self).moved_by(
                *final(self),
                parse_level(old(self).tokens(), old(self).position(), Level::Or).used,
            ),
            expression_outcome(r) == parse_level(old(self).tokens(), old(self).position(), Level::Or).result,
        decreases remaining(old(self).tokens(), old(self).position()), 27nat,
    {
        self.binary(Level::Or)
    }

    fn assignment(&mut self) -> (r: Result<Expression, ParseError>)
        requires
            old(self).wf(),
        ensures
            old(self).moved_by(*final(self), parse_assignment(old(self).tokens(), old(self).position()).used),
            expression_outcome(r) == parse_assignment(old(self).tokens(), old(self).position()).result,
        decreases remaining(old(self).tokens(), old(self).position()), 28nat,
    {
        let target = match self.or() {
            Err(e) => {
                return Err(e);
            },
            Ok(target) => target,
        };
        if self.at(&Lexeme::Equal) {
            let equals = self.tokens[self.cursor].clone();
            self.advance();
            match self.assignment() {
                Err(e) => Err(e),
                Ok(value) => match target {
                    Expression::Variable(name) => Ok(Expression::Assign { name, value: Box::new(value) }),
                    _ => Err(ParseError::InvalidAssignmentTarget { token: equals }),
                },
            }
        } else {
            Ok(target)
        }
    }

    /// Parses one expression from the cursor on.
    pub fn expression(&mut self) -> (r: Result<Expression, ParseError>)
        requires
            old(self).wf(),
        ensures
            old(self).moved_by(*final(self), parse_expression(old(self).tokens(), old(self).position()).used),
            expression_outcome(r) == parse_expression(old(self).tokens(), old(self).position()).result,
            r matches Ok(e) ==> expression_well_formed(e@),
        decreases remaining(old(self).tokens(), old(self).position()), 29nat,
    {
        proof {
            lemma_expression_well_formed(self.tokens(), self.position());
        }
        self.assignment()
    }
    /// An expression and the terminal `lexeme` after it.
    fn terminated(&mut self, lexeme: &Lexeme, message: &str) -> (r: Result<Expression, ParseError>)
        requires
            old(self).wf(),
        ensures
            old(self).moved_by(
                *final(self),
                parse_terminated(old(self).tokens(), old(self).position(), lexeme@, message@).used,
            ),
            expression_outcome(r) == parse_terminated(
                old(self).tokens(),
                old(self).position(),
                lexeme@,
                message@,
            ).result,
        decreases remaining(old(self).tokens(), old(self).position()), 30nat,
    {
        reveal(parse_terminated);
        match self.expression() {
            Err(e) => Err(e),
            Ok(value) => {
                if self.at(lexeme) {
                    self.advance();
                    Ok(value)
                } else {
                    Err(self.error(message))
                }
            },
        }
    }

    /// The parenthesized condition of an `if` or a `while`.
    fn condition(&mut self, open: &str, close: &str) -> (r: Result<Expression, ParseError>)
        requires
            old(self).wf(),
        ensures
            old(self).moved_by(
                *final(self),
                parse_condition(old(self).tokens(), old(self).position(), open@, close@).used,
            ),
            expression_outcome(r) == parse_condition(old(self).tokens(), old(self).position(), open@, close@).result,
        decreases remaining(old(self).tokens(), old(self).position()), 31nat,
    {
        reveal(parse_condition);
        if self.at(&Lexeme::LeftParen) {
            self.advance();
            self.terminated(&Lexeme::RightParen, close)
        } else {
            Err(self.error(open))
        }
    }

    /// The statement after an `if` that has just been passed.
    fn if_statement(&mut self) -> (r: Result<Statement, ParseError>)
        requires
            old(self).wf(),
        ensures
            old(self).moved_by(*final(self), parse_if(old(self).tokens(), old(self).position()).used),
            statement_outcome(r) == parse_if(old(self).tokens(), old(self).position()).result,
        decreases remaining(old(self).tokens(), old(self).position()), 35nat,
    {
        let condition = match self.condition("Expected '(' after 'if'.", "Expected ')' after if condition.") {
            Err(e) => {
                return Err(e);
            },
            Ok(c) => c,
        };
        let then_branch = match self.statement() {
            Err(e) => {
                return Err(e);
            },
            Ok(t) => t,
        };
        if self.at(&Lexeme::Else) {
            self.advance();
            match self.statement() {
                Err(e) => Err(e),
                Ok(else_branch) => Ok(
                    Statement::If {
                        condition: Box::new(condition),
                        then_branch: Box::new(then_branch),
                        else_branch: Some(Box::new(else_branch)),
                    },
                ),
            }
        } else {
            Ok(
                Statement::If {
                    condition: Box::new(condition),
                    then_branch: Box::new(then_branch),
                    else_branch: None,
                },
            )
        }
    }

    /// The statement after a `while` that has just been passed.
    fn while_statement(&mut self) -> (r: Result<Statement, ParseError>)
        requires
            old(self).wf(),
        ensures
            old(self).moved_by(*final(self), parse_while(old(self).tokens(), old(self).position()).used),
            statement_outcome(r) == parse_while(old(self).tokens(), old(self).position()).result,
        decreases remaining(old(self).tokens(), old(self).position()), 35nat,
    {
        let condition = match self.condition("Expected '(' after 'while'.", "Expected ')' after condition.") {
            Err(e) => {
                return Err(e);
            },
            Ok(c) => c,
        };
        match self.statement() {
            Err(e) => Err(e),
            Ok(body) => Ok(Statement::While { condition: Box::new(condition), body: Box::new(body) }),
        }
    }

    /// The declarations of a block whose `{` has just been passed, and its `}`.
    fn block(&mut self) -> (r: Result<Vec<Statement>, ParseError>)
        requires
            old(self).wf(),
        ensures
            old(self).moved_by(*final(self), parse_block(old(self).tokens(), old(self).position()).used),
            block_outcome(r) == parse_block(old(self).tokens(), old(self).position()).result,
        decreases remaining(old(self).tokens(), old(self).position()), 34nat,
    {
        let ghost ts = self.tokens();
        let ghost start = self.position();
        let mut statements: Vec<Statement> = Vec::new();
        assert(statement_views(statements@) =~= Seq::empty());
        loop
            invariant
                self.wf(),
                self.tokens() == ts,
                ts == old(self).tokens(),
                start == old(self).position(),
                start <= self.position(),
                match parse_block(ts, self.position()).result {
                    Ok(rest) => parse_block(ts, start).result == Ok::<Seq<StatementView>, ParseErrorView>(
                        statement_views(statements@) + rest,
                    ),
                    Err(e) => parse_block(ts, start).result == Err::<Seq<StatementView>, ParseErrorView>(e),
                },
                parse_block(ts, start).used == (self.position() - start) + parse_block(ts, self.position()).used,
            decreases remaining(ts, self.position()),
        {
            if self.cursor >= self.tokens.len() {
                return Err(ParseError::UnexpectedEnd);
            }
            if self.at(&Lexeme::RightBrace) {
                self.advance();
                assert(statement_views(statements@) + Seq::<StatementView>::empty() =~= statement_views(
                    statements@,
                ));
                return Ok(statements);
            }
            if self.at(&Lexeme::Eof) {
                return Err(self.error("Expected '}' after block."));
            }
            let ghost before = statement_views(statements@);
            let ghost at = self.position();
            match self.declaration() {
                Err(e) => {
                    return Err(e);
                },
                Ok(statement) => {
                    proof {
                        lemma_declaration_uses_a_token(ts, at);
                        let rest = parse_block(ts, self.position()).result;
                        if rest is Ok {
                            assert(before.push(statement@) + rest->Ok_0 =~= before + (seq![statement@]
                                + rest->Ok_0));
                        }
                    }
                    statements.push(statement);
                    assert(statement_views(statements@) =~= before.push(statement@));
                },
            }
        }
    }

    /// The statement after a `print` that has just been passed.
    fn print_statement(&mut self) -> (r: Result<Statement, ParseError>)
        requires
            old(self).wf(),
        ensures
            old(self).moved_by(*final(self), parse_print(old(self).tokens(), old(self).position()).used),
            statement_outcome(r) == parse_print(old(self).tokens(), old(self).position()).result,
        decreases remaining(old(self).tokens(), old(self).position()), 31nat,
    {
        reveal(parse_print);
        match self.terminated(&Lexeme::Semicolon, "Expected ';' after value.") {
            Err(e) => Err(e),
            Ok(value) => Ok(Statement::Print(Box::new(value))),
        }
    }

    /// An expression used as a statement.
    fn expression_statement(&mut self) -> (r: Result<Statement, ParseError>)
        requires
            old(self).wf(),
        ensures
            old(self).moved_by(
                *final(self),
                parse_expression_statement(old(self).tokens(), old(self).position()).used,
            ),
            statement_outcome(r) == parse_expression_statement(old(self).tokens(), old(self).position()).result,
        decreases remaining(old(self).tokens(), old(self).position()), 31nat,
    {
        reveal(parse_expression_statement);
        match self.terminated(&Lexeme::Semicolon, "Expected ';' after expression.") {
            Err(e) => Err(e),
            Ok(value) => Ok(Statement::Expression(Box::new(value))),
        }
    }

    /// The block after a `{` that has just been passed, as a statement.
    fn block_statement(&mut self) -> (r: Result<Statement, ParseError>)
        requires
            old(self).wf(),
        ensures
            old(self).moved_by(*final(self), parse_block_statement(old(self).tokens(), old(self).position()).used),
            statement_outcome(r) == parse_block_statement(old(self).tokens(), old(self).position()).result,
        decreases remaining(old(self).tokens(), old(self).position()), 35nat,
    {
        match self.block() {
            Err(e) => Err(e),
            Ok(statements) => {
                let ghost views = statement_views(statements@);
                let block = Statement::Block(statements);
                assert(block@ == StatementView::Block(views)) by {
                    assert(block@->Block_0 =~= views);
                }
                Ok(block)
            },
        }
    }

    fn statement(&mut self) -> (r: Result<Statement, ParseError>)
        requires
            old(self).wf(),
        ensures
            old(self).moved_by(*final(self), parse_statement(old(self).tokens(), old(self).position()).used),
            statement_outcome(r) == parse_statement(old(self).tokens(), old(self).position()).result,
        decreases remaining(old(self).tokens(), old(self).position()), 32nat,
    {
        if self.at(&Lexeme::Print) {
            self.advance();
            self.print_statement()
        } else if self.at(&Lexeme::LeftBrace) {
            self.advance();
            self.block_statement()
        } else if self.at(&Lexeme::If) {
            self.advance();
            self.if_statement()
        } else if self.at(&Lexeme::While) {
            self.advance();
            self.while_statement()
        } else {
            self.expression_statement()
        }
    }

    /// The declaration after a `var` that has just been passed.
    fn var_declaration(&mut self) -> (r: Result<Statement, ParseError>)
        requires
            old(self).wf(),
        ensures
            old(self).moved_by(*final(self), parse_var(old(self).tokens(), old(self).position()).used),
            statement_outcome(r) == parse_var(old(self).tokens(), old(self).position()).result,
        decreases remaining(old(self).tokens(), old(self).position()), 31nat,
    {
        reveal(parse_var);
        if self.cursor < self.tokens.len() && matches!(self.tokens[self.cursor].lexeme, Lexeme::Identifier(_)) {
            let name = self.tokens[self.cursor].clone();
            self.advance();
            if self.at(&Lexeme::Equal) {
                self.advance();
                match self.terminated(&Lexeme::Semicolon, "Expected ';' after variable declaration.") {
                    Err(e) => Err(e),
                    Ok(value) => Ok(Statement::Var { name, initializer: Some(Box::new(value)) }),
                }
            } else if self.at(&Lexeme::Semicolon) {
                self.advance();
                Ok(Statement::Var { name, initializer: None })
            } else {
                Err(self.error("Expected ';' after variable declaration."))
            }
        } else {
            Err(self.error("Expected variable name."))
        }
    }

    fn declaration(&mut self) -> (r: Result<Statement, ParseError>)
        requires
            old(self).wf(),
        ensures
            old(self).moved_by(*final(self), parse_declaration(old(self).tokens(), old(self).position()).used),
            statement_outcome(r) == parse_declaration(old(self).tokens(), old(self).position()).result,
        decreases remaining(old(self).tokens(), old(self).position()), 33nat,
    {
        if self.at(&Lexeme::Var) {
            self.advance();
            self.var_declaration()
        } else {
            self.statement()
        }
    }

    /// The next statement of the program, or why it could not be parsed;
    /// `None` once the cursor is on the `Eof` token or past the last token.
    ///
    /// After an error the cursor stands just after the token that the error
    /// was met on, or on that token if it ends the input.
    pub fn next(&mut self) -> (r: Option<Result<Statement, ParseError>>)
        requires
            old(self).wf(),
        ensures
            ended(old(self).tokens(), old(self).position()) ==> r is None && old(self).moved_by(*final(self), 0),
            !ended(old(self).tokens(), old(self).position()) ==> {
                &&& r matches Some(item)
                &&& statement_outcome(item) == parse_declaration(old(self).tokens(), old(self).position()).result
                &&& old(self).moved_by(*final(self), pull_length(old(self).tokens(), old(self).position()))
            },
            r matches Some(Ok(s)) ==> statement_well_formed(s@),
    {
        if self.at_end() {
            return None;
        }
        proof {
            lemma_declaration_uses_a_token(self.tokens(), self.position());
            lemma_declaration_well_formed(self.tokens(), self.position());
        }
        let item = self.declaration();
        if item.is_err() && !self.at_end() {
            self.advance();
        }
        Some(item)
    }

    /// All the statements of the program, in order, each parsed or with the
    /// reason why it could not be.
    pub fn parse(&mut self) -> (r: Vec<Result<Statement, ParseError>>)
        requires
            old(self).wf(),
        ensures
            final(self).wf(),
            final(self).tokens() == old(self).tokens(),
            statement_outcomes(r@) == parse_program(old(self).tokens(), old(self).position()),
            forall|i: int| 0 <= i < r@.len() ==> ((#[trigger] r@[i]) matches Ok(s) ==> statement_well_formed(s@)),
    {
        let ghost ts = self.tokens();
        let ghost start = self.position();
        let mut items: Vec<Result<Statement, ParseError>> = Vec::new();
        assert(statement_outcomes(items@) + parse_program(ts, start) =~= parse_program(ts, start));
        loop
            invariant
                self.wf(),
                self.tokens() == ts,
                statement_outcomes(items@) + parse_program(ts, self.position()) == parse_program(ts, start),
                forall|i: int|
                    0 <= i < items@.len() ==> ((#[trigger] items@[i]) matches Ok(s) ==> statement_well_formed(s@)),
            ensures
                self.wf(),
                self.tokens() == ts,
                statement_outcomes(items@) == parse_program(ts, start),
                forall|i: int|
                    0 <= i < items@.len() ==> ((#[trigger] items@[i]) matches Ok(s) ==> statement_well_formed(s@)),
            decreases remaining(ts, self.position()),
        {
            let ghost before = statement_outcomes(items@);
            let ghost pos = self.position();
            match self.next() {
                None => {
                    assert(before + Seq::empty() =~= before);
                    break ;
                },
                Some(item) => {
                    proof {
                        assert(before + (seq![statement_outcome(item)] + parse_program(ts, self.position()))
                            =~= before.push(statement_outcome(item)) + parse_program(ts, self.position()));
                    }
                    items.push(item);
                    assert(statement_outcomes(items@) =~= before.push(statement_outcome(item)));
                },
            }
        }
        items
    }
}

} // verus!
