use vstd::prelude::*;
use vstd::string::*;

verus! {

/// The kind of a token, with the payload of the three literal kinds.
///
/// A number carries the text of its literal (digits, optionally a dot and
/// more digits); this library never reads the text as a quantity.
#[derive(Debug, PartialEq)]
pub enum Lexeme {
    // Single-character tokens.
    LeftParen,
    RightParen,
    LeftBrace,
    RightBrace,
    Comma,
    Dot,
    Minus,
    Plus,
    Semicolon,
    Slash,
    Star,
    // One or two character tokens.
    Bang,
    BangEqual,
    Equal,
    EqualEqual,
    Greater,
    GreaterEqual,
    Less,
    LessEqual,
    // Literals.
    Identifier(String),
    String(String),
    Number(String),
    // Keywords.
    And,
    Class,
    Else,
    False,
    Fun,
    For,
    If,
    Nil,
    Or,
    Print,
    Return,
    Super,
    This,
    True,
    Var,
    While,
    Eof,
}

/// The kind of a token.
pub type LexemeKind = Lexeme;

/// The mathematical value of a [`Lexeme`]: the same variants over character
/// sequences.
pub ghost enum LexemeView {
    LeftParen,
    RightParen,
    LeftBrace,
    RightBrace,
    Comma,
    Dot,
    Minus,
    Plus,
    Semicolon,
    Slash,
    Star,
    Bang,
    BangEqual,
    Equal,
    EqualEqual,
    Greater,
    GreaterEqual,
    Less,
    LessEqual,
    Identifier(Seq<char>),
    String(Seq<char>),
    Number(Seq<char>),
    And,
    Class,
    Else,
    False,
    Fun,
    For,
    If,
    Nil,
    Or,
    Print,
    Return,
    Super,
    This,
    True,
    Var,
    While,
    Eof,
}

impl View for Lexeme {
    type V = LexemeView;

    open spec fn view(&self) -> LexemeView {
        match self {
            Lexeme::LeftParen => LexemeView::LeftParen,
            Lexeme::RightParen => LexemeView::RightParen,
            Lexeme::LeftBrace => LexemeView::LeftBrace,
            Lexeme::RightBrace => LexemeView::RightBrace,
            Lexeme::Comma => LexemeView::Comma,
            Lexeme::Dot => LexemeView::Dot,
            Lexeme::Minus => LexemeView::Minus,
            Lexeme::Plus => LexemeView::Plus,
            Lexeme::Semicolon => LexemeView::Semicolon,
            Lexeme::Slash => LexemeView::Slash,
            Lexeme::Star => LexemeView::Star,
            Lexeme::Bang => LexemeView::Bang,
            Lexeme::BangEqual => LexemeView::BangEqual,
            Lexeme::Equal => LexemeView::Equal,
            Lexeme::EqualEqual => LexemeView::EqualEqual,
            Lexeme::Greater => LexemeView::Greater,
            Lexeme::GreaterEqual => LexemeView::GreaterEqual,
            Lexeme::Less => LexemeView::Less,
            Lexeme::LessEqual => LexemeView::LessEqual,
            Lexeme::Identifier(s) => LexemeView::Identifier(s@),
            Lexeme::String(s) => LexemeView::String(s@),
            Lexeme::Number(s) => LexemeView::Number(s@),
            Lexeme::And => LexemeView::And,
            Lexeme::Class => LexemeView::Class,
            Lexeme::Else => LexemeView::Else,
            Lexeme::False => LexemeView::False,
            Lexeme::Fun => LexemeView::Fun,
            Lexeme::For => LexemeView::For,
            Lexeme::If => LexemeView::If,
            Lexeme::Nil => LexemeView::Nil,
            Lexeme::Or => LexemeView::Or,
            Lexeme::Print => LexemeView::Print,
            Lexeme::Return => LexemeView::Return,
            Lexeme::Super => LexemeView::Super,
            Lexeme::This => LexemeView::This,
            Lexeme::True => LexemeView::True,
            Lexeme::Var => LexemeView::Var,
            Lexeme::While => LexemeView::While,
            Lexeme::Eof => LexemeView::Eof,
        }
    }
}

impl Clone for Lexeme {
    fn clone(&self) -> (r: Self)
        ensures
            r == *self,
    {
        match self {
            Lexeme::LeftParen => Lexeme::LeftParen,
            Lexeme::RightParen => Lexeme::RightParen,
            Lexeme::LeftBrace => Lexeme::LeftBrace,
            Lexeme::RightBrace => Lexeme::RightBrace,
            Lexeme::Comma => Lexeme::Comma,
            Lexeme::Dot => Lexeme::Dot,
            Lexeme::Minus => Lexeme::Minus,
            Lexeme::Plus => Lexeme::Plus,
            Lexeme::Semicolon => Lexeme::Semicolon,
            Lexeme::Slash => Lexeme::Slash,
            Lexeme::Star => Lexeme::Star,
            Lexeme::Bang => Lexeme::Bang,
            Lexeme::BangEqual => Lexeme::BangEqual,
            Lexeme::Equal => Lexeme::Equal,
            Lexeme::EqualEqual => Lexeme::EqualEqual,
            Lexeme::Greater => Lexeme::Greater,
            Lexeme::GreaterEqual => Lexeme::GreaterEqual,
            Lexeme::Less => Lexeme::Less,
            Lexeme::LessEqual => Lexeme::LessEqual,
            Lexeme::Identifier(s) => Lexeme::Identifier(s.clone()),
            Lexeme::String(s) => Lexeme::String(s.clone()),
            Lexeme::Number(s) => Lexeme::Number(s.clone()),
            Lexeme::And => Lexeme::And,
            Lexeme::Class => Lexeme::Class,
            Lexeme::Else => Lexeme::Else,
            Lexeme::False => Lexeme::False,
            Lexeme::Fun => Lexeme::Fun,
            Lexeme::For => Lexeme::For,
            Lexeme::If => Lexeme::If,
            Lexeme::Nil => Lexeme::Nil,
            Lexeme::Or => Lexeme::Or,
            Lexeme::Print => Lexeme::Print,
            Lexeme::Return => Lexeme::Return,
            Lexeme::Super => Lexeme::Super,
            Lexeme::This => Lexeme::This,
            Lexeme::True => Lexeme::True,
            Lexeme::Var => Lexeme::Var,
            Lexeme::While => Lexeme::While,
            Lexeme::Eof => Lexeme::Eof,
        }
    }
}

impl LexemeView {
    /// The spelling of a lexeme: punctuation, operators and keywords as they
    /// are written in source text, an identifier as its name, a string between
    /// double quotes, a number as its literal, the end of input as `<EOF>`.
    pub open spec fn text(self) -> Seq<char> {
        match self {
            LexemeView::LeftParen => "("@,
            LexemeView::RightParen => ")"@,
            LexemeView::LeftBrace => "{"@,
            LexemeView::RightBrace => "}"@,
            LexemeView::Comma => ","@,
            LexemeView::Dot => "."@,
            LexemeView::Minus => "-"@,
            LexemeView::Plus => "+"@,
            LexemeView::Semicolon => ";"@,
            LexemeView::Slash => "/"@,
            LexemeView::Star => "*"@,
            LexemeView::Bang => "!"@,
            LexemeView::BangEqual => "!="@,
            LexemeView::Equal => "="@,
            LexemeView::EqualEqual => "=="@,
            LexemeView::Greater => ">"@,
            LexemeView::GreaterEqual => ">="@,
            LexemeView::Less => "<"@,
            LexemeView::LessEqual => "<="@,
            LexemeView::Identifier(name) => name,
            LexemeView::String(content) => "\""@ + content + "\""@,
            LexemeView::Number(literal) => literal,
            LexemeView::And => "and"@,
            LexemeView::Class => "class"@,
            LexemeView::Else => "else"@,
            LexemeView::False => "false"@,
            LexemeView::Fun => "fun"@,
            LexemeView::For => "for"@,
            LexemeView::If => "if"@,
            LexemeView::Nil => "nil"@,
            LexemeView::Or => "or"@,
            LexemeView::Print => "print"@,
            LexemeView::Return => "return"@,
            LexemeView::Super => "super"@,
            LexemeView::This => "this"@,
            LexemeView::True => "true"@,
            LexemeView::Var => "var"@,
            LexemeView::While => "while"@,
            LexemeView::Eof => "<EOF>"@,
        }
    }
}

impl Lexeme {
    /// The spelling of the lexeme.
    pub fn to_string(&self) -> (r: String)
        ensures
            r@ == self@.text(),
    {
        match self {
            Lexeme::LeftParen => "(".to_owned(),
            Lexeme::RightParen => ")".to_owned(),
            Lexeme::LeftBrace => "{".to_owned(),
            Lexeme::RightBrace => "}".to_owned(),
            Lexeme::Comma => ",".to_owned(),
            Lexeme::Dot => ".".to_owned(),
            Lexeme::Minus => "-".to_owned(),
            Lexeme::Plus => "+".to_owned(),
            Lexeme::Semicolon => ";".to_owned(),
            Lexeme::Slash => "/".to_owned(),
            Lexeme::Star => "*".to_owned(),
            Lexeme::Bang => "!".to_owned(),
            Lexeme::BangEqual => "!=".to_owned(),
            Lexeme::Equal => "=".to_owned(),
            Lexeme::EqualEqual => "==".to_owned(),
            Lexeme::Greater => ">".to_owned(),
            Lexeme::GreaterEqual => ">=".to_owned(),
            Lexeme::Less => "<".to_owned(),
            Lexeme::LessEqual => "<=".to_owned(),
            Lexeme::Identifier(i) => i.clone(),
            Lexeme::String(s) => String::from_str("\"").concat(s.as_str()).concat("\""),
            Lexeme::Number(n) => n.clone(),
            Lexeme::And => "and".to_owned(),
            Lexeme::Class => "class".to_owned(),
            Lexeme::Else => "else".to_owned(),
            Lexeme::False => "false".to_owned(),
            Lexeme::Fun => "fun".to_owned(),
            Lexeme::For => "for".to_owned(),
            Lexeme::If => "if".to_owned(),
            Lexeme::Nil => "nil".to_owned(),
            Lexeme::Or => "or".to_owned(),
            Lexeme::Print => "print".to_owned(),
            Lexeme::Return => "return".to_owned(),
            Lexeme::Super => "super".to_owned(),
            Lexeme::This => "this".to_owned(),
            Lexeme::True => "true".to_owned(),
            Lexeme::Var => "var".to_owned(),
            Lexeme::While => "while".to_owned(),
            Lexeme::Eof => "<EOF>".to_owned(),
        }
    }

    /// Whether two lexemes are the same: the same kind and, for a literal,
    /// the same payload.
    pub fn same(&self, other: &Lexeme) -> (r: bool)
        ensures
            r == (self@ == other@),
    {
        match (self, other) {
            (Lexeme::LeftParen, Lexeme::LeftParen) => true,
            (Lexeme::RightParen, Lexeme::RightParen) => true,
            (Lexeme::LeftBrace, Lexeme::LeftBrace) => true,
            (Lexeme::RightBrace, Lexeme::RightBrace) => true,
            (Lexeme::Comma, Lexeme::Comma) => true,
            (Lexeme::Dot, Lexeme::Dot) => true,
            (Lexeme::Minus, Lexeme::Minus) => true,
            (Lexeme::Plus, Lexeme::Plus) => true,
            (Lexeme::Semicolon, Lexeme::Semicolon) => true,
            (Lexeme::Slash, Lexeme::Slash) => true,
            (Lexeme::Star, Lexeme::Star) => true,
            (Lexeme::Bang, Lexeme::Bang) => true,
            (Lexeme::BangEqual, Lexeme::BangEqual) => true,
            (Lexeme::Equal, Lexeme::Equal) => true,
            (Lexeme::EqualEqual, Lexeme::EqualEqual) => true,
            (Lexeme::Greater, Lexeme::Greater) => true,
            (Lexeme::GreaterEqual, Lexeme::GreaterEqual) => true,
            (Lexeme::Less, Lexeme::Less) => true,
            (Lexeme::LessEqual, Lexeme::LessEqual) => true,
            (Lexeme::And, Lexeme::And) => true,
            (Lexeme::Class, Lexeme::Class) => true,
            (Lexeme::Else, Lexeme::Else) => true,
            (Lexeme::False, Lexeme::False) => true,
            (Lexeme::Fun, Lexeme::Fun) => true,
            (Lexeme::For, Lexeme::For) => true,
            (Lexeme::If, Lexeme::If) => true,
            (Lexeme::Nil, Lexeme::Nil) => true,
            (Lexeme::Or, Lexeme::Or) => true,
            (Lexeme::Print, Lexeme::Print) => true,
            (Lexeme::Return, Lexeme::Return) => true,
            (Lexeme::Super, Lexeme::Super) => true,
            (Lexeme::This, Lexeme::This) => true,
            (Lexeme::True, Lexeme::True) => true,
            (Lexeme::Var, Lexeme::Var) => true,
            (Lexeme::While, Lexeme::While) => true,
            (Lexeme::Eof, Lexeme::Eof) => true,
            (Lexeme::Identifier(a), Lexeme::Identifier(b)) => *a == *b,
            (Lexeme::String(a), Lexeme::String(b)) => *a == *b,
            (Lexeme::Number(a), Lexeme::Number(b)) => *a == *b,
            _ => false,
        }
    }
}

/// A lexeme together with the line of the source text it was read on.
/// Lines are counted from 0.
#[derive(Debug, PartialEq)]
pub struct Token {
    pub lexeme: Lexeme,
    pub line: u64,
}

/// The mathematical value of a [`Token`].
pub ghost struct TokenView {
    pub lexeme: LexemeView,
    pub line: u64,
}

impl View for Token {
    type V = TokenView;

    open spec fn view(&self) -> TokenView {
        TokenView { lexeme: self.lexeme@, line: self.line }
    }
}

impl Clone for Token {
    fn clone(&self) -> (r: Self)
        ensures
            r == *self,
    {
        Token { lexeme: self.lexeme.clone(), line: self.line }
    }
}

impl Token {
    /// The token of `lexeme`, read on `line`.
    pub fn new(lexeme: Lexeme, line: u64) -> (r: Self)
        ensures
            r.lexeme == lexeme,
            r.line == line,
    {
        Token { lexeme, line }
    }

    /// The name carried by an identifier token.
    pub fn identifier(&self) -> (r: String)
        requires
            self.lexeme is Identifier,
        ensures
            self@.lexeme == LexemeView::Identifier(r@),
    {
        match &self.lexeme {
            Lexeme::Identifier(ident) => ident.clone(),
            _ => String::new(),
        }
    }

    /// The spelling of the token's lexeme.
    pub fn to_string(&self) -> (r: String)
        ensures
            r@ == self@.lexeme.text(),
    {
        self.lexeme.to_string()
    }
}

} // verus!
