use peekmore::PeekMoreIterator;
use std::str::Chars;
use vstd::prelude::*;
use vstd::string::*;
use crate::text::{cursor, decimal, decimal_text, next_char, peek_char, peek_nth_char, peekable_chars, push_char, same_text, unread};
use crate::token::{Lexeme, LexemeView, Token, TokenView};

verus! {

/// What went wrong while reading a token.
#[derive(Debug, Clone, Copy, PartialEq, Eq, Structural)]
pub enum ScanErrorType {
    UnexpectedCharacter(char),
    UnterminatedString,
}

/// A scan error and the line it was met on.
#[derive(Debug, Clone, Copy, PartialEq, Eq, Structural)]
pub struct ScanError {
    pub line: u64,
    pub error: ScanErrorType,
}

impl ScanErrorType {
    /// What went wrong, in words.
    pub open spec fn text(self) -> Seq<char> {
        match self {
            ScanErrorType::UnexpectedCharacter(c) => "Unexpected character "@.push(c),
            ScanErrorType::UnterminatedString => "Unterminated string"@,
        }
    }

    /// What went wrong, in words.
    pub fn to_string(&self) -> (r: String)
        ensures
            r@ == self.text(),
    {
        match self {
            ScanErrorType::UnexpectedCharacter(c) => {
                let mut r = String::from_str("Unexpected character ");
                push_char(&mut r, *c);
                r
            },
            ScanErrorType::UnterminatedString => "Unterminated string".to_owned(),
        }
    }
}

impl ScanError {
    /// The error `error`, met on `line`.
    pub fn new(error: ScanErrorType, line: u64) -> (r: Self)
        ensures
            r == (ScanError { line, error }),
    {
        ScanError { error, line }
    }

    /// `<what went wrong> on line <line>`
    pub open spec fn text(self) -> Seq<char> {
        self.error.text() + " on line "@ + decimal(self.line as nat)
    }

    /// The error as a line of text.
    pub fn to_string(&self) -> (r: String)
        ensures
            r@ == self.text(),
    {
        let mut r = self.error.to_string();
        r.append(" on line ");
        r.append(decimal_text(self.line).as_str());
        r
    }
}

/// Whether `c` is an ASCII decimal digit.
pub open spec fn spec_is_digit(c: char) -> bool {
    '0' <= c && c <= '9'
}

/// Whether `c` is an ASCII letter or an underscore.
pub open spec fn spec_is_alpha(c: char) -> bool {
    ('a' <= c && c <= 'z') || ('A' <= c && c <= 'Z') || c == '_'
}

/// Whether `c` is an ASCII letter, an underscore or an ASCII decimal digit.
pub open spec fn spec_is_alpha_numeric(c: char) -> bool {
    spec_is_alpha(c) || spec_is_digit(c)
}

/// Whether `c` is an ASCII decimal digit.
#[verifier::when_used_as_spec(spec_is_digit)]
pub fn is_digit(c: char) -> (r: bool)
    ensures
        r == spec_is_digit(c),
{
    c >= '0' && c <= '9'
}

/// Whether `c` is an ASCII decimal digit.
#[verifier::when_used_as_spec(spec_is_digit)]
pub fn is_number(c: char) -> (r: bool)
    ensures
        r == spec_is_digit(c),
{
    is_digit(c)
}

/// Whether `c` is an ASCII letter or an underscore.
#[verifier::when_used_as_spec(spec_is_alpha)]
pub fn is_alpha(c: char) -> (r: bool)
    ensures
        r == spec_is_alpha(c),
{
    (c >= 'a' && c <= 'z') || (c >= 'A' && c <= 'Z') || c == '_'
}

/// Whether `c` may start an identifier: an ASCII letter or an underscore.
#[verifier::when_used_as_spec(spec_is_alpha)]
pub fn is_valid_ident(c: char) -> (r: bool)
    ensures
        r == spec_is_alpha(c),
{
    is_alpha(c)
}

/// Whether `c` may continue an identifier.
#[verifier::when_used_as_spec(spec_is_alpha_numeric)]
pub fn is_alpha_numeric(c: char) -> (r: bool)
    ensures
        r == spec_is_alpha_numeric(c),
{
    is_alpha(c) || is_digit(c)
}

/// The sets of characters that the scanner reads runs of.
#[derive(Debug, Clone, Copy, PartialEq, Eq, Structural)]
pub enum CharClass {
    /// Decimal digits.
    Digit,
    /// Letters, digits and the underscore.
    AlphaNumeric,
    /// Everything but the double quote.
    StringContent,
    /// Everything but the line feed.
    CommentContent,
}

impl CharClass {
    /// Whether `c` is of the class.
    pub open spec fn spec_contains(self, c: char) -> bool {
        match self {
            CharClass::Digit => spec_is_digit(c),
            CharClass::AlphaNumeric => spec_is_alpha_numeric(c),
            CharClass::StringContent => c != '"',
            CharClass::CommentContent => c != '\n',
        }
    }

    /// Whether `c` is of the class.
    #[verifier::when_used_as_spec(spec_contains)]
    pub fn contains(self, c: char) -> (r: bool)
        ensures
            r == self.spec_contains(c),
    {
        match self {
            CharClass::Digit => is_digit(c),
            CharClass::AlphaNumeric => is_alpha_numeric(c),
            CharClass::StringContent => c != '"',
            CharClass::CommentContent => c != '\n',
        }
    }
}

/// The length of the longest prefix of `s` made of characters of `class`.
pub open spec fn run_length(s: Seq<char>, class: CharClass) -> nat
    decreases s.len(),
{
    if s.len() > 0 && class.spec_contains(s[0]) {
        1 + run_length(s.drop_first(), class)
    } else {
        0
    }
}

/// A run is no longer than the text it is read from.
pub proof fn lemma_run_length_bound(s: Seq<char>, class: CharClass)
    ensures
        run_length(s, class) <= s.len(),
    decreases s.len(),
{
    if s.len() > 0 && class.spec_contains(s[0]) {
        lemma_run_length_bound(s.drop_first(), class);
    }
}

/// The number of line feeds in `s`.
pub open spec fn line_feeds(s: Seq<char>) -> nat
    decreases s.len(),
{
    if s.len() == 0 {
        0
    } else {
        line_feeds(s.drop_last()) + if s.last() == '\n' {
            1nat
        } else {
            0nat
        }
    }
}

/// The lexeme of a word: its keyword if it is reserved, else an identifier.
pub open spec fn word_lexeme(word: Seq<char>) -> LexemeView {
    if word == "and"@ {
        LexemeView::And
    } else if word == "class"@ {
        LexemeView::Class
    } else if word == "else"@ {
        LexemeView::Else
    } else if word == "false"@ {
        LexemeView::False
    } else if word == "for"@ {
        LexemeView::For
    } else if word == "fun"@ {
        LexemeView::Fun
    } else if word == "if"@ {
        LexemeView::If
    } else if word == "nil"@ {
        LexemeView::Nil
    } else if word == "or"@ {
        LexemeView::Or
    } else if word == "print"@ {
        LexemeView::Print
    } else if word == "return"@ {
        LexemeView::Return
    } else if word == "super"@ {
        LexemeView::Super
    } else if word == "this"@ {
        LexemeView::This
    } else if word == "true"@ {
        LexemeView::True
    } else if word == "var"@ {
        LexemeView::Var
    } else if word == "while"@ {
        LexemeView::While
    } else {
        LexemeView::Identifier(word)
    }
}

/// What one pull of the scanner yields: a token or an error.
pub type ScanResult = Result<Token, ScanError>;

/// The mathematical value of a [`ScanResult`].
pub type ScanResultView = Result<TokenView, ScanError>;

/// The mathematical value of a scanned item.
pub open spec fn result_view(r: ScanResult) -> ScanResultView {
    match r {
        Ok(token) => Ok(token@),
        Err(e) => Err(e),
    }
}

/// The outcome of reading one item: the item, the text left after it and
/// the line the scanner is on then.
pub ghost struct Scanned {
    pub item: ScanResultView,
    pub rest: Seq<char>,
    pub line: nat,
}

/// The item for a token of `lexeme` on `line`.
pub open spec fn token_at(lexeme: LexemeView, line: nat) -> ScanResultView {
    Ok(TokenView { lexeme, line: line as u64 })
}

/// The item for the error `error` on `line`.
pub open spec fn error_at(error: ScanErrorType, line: nat) -> ScanResultView {
    Err(ScanError { line: line as u64, error })
}

/// An operator of one character that becomes another when `=` follows.
pub open spec fn scan_pair(t: Seq<char>, line: nat, long: LexemeView, short: LexemeView) -> Scanned {
    if t.len() > 0 && t[0] == '=' {
        Scanned { item: token_at(long, line), rest: t.drop_first(), line }
    } else {
        Scanned { item: token_at(short, line), rest: t, line }
    }
}

/// A string, after its opening quote: everything up to the next quote. The
/// token carries the line the string ends on. Without a closing quote the
/// rest of the text is used up and the item is an error.
pub open spec fn scan_string(t: Seq<char>, line: nat) -> Scanned {
    let n = run_length(t, CharClass::StringContent) as int;
    let end_line = line + line_feeds(t.take(n));
    if n == t.len() {
        Scanned { item: error_at(ScanErrorType::UnterminatedString, end_line), rest: t.skip(n), line: end_line }
    } else {
        Scanned { item: token_at(LexemeView::String(t.take(n)), end_line), rest: t.skip(n + 1), line: end_line }
    }
}

/// How many characters after the first digit belong to a number: the digits
/// that follow, and a dot with the digits after it if a digit follows the dot.
pub open spec fn number_length(t: Seq<char>) -> int {
    let n = run_length(t, CharClass::Digit) as int;
    if n + 1 < t.len() && t[n] == '.' && spec_is_digit(t[n + 1]) {
        n + 1 + run_length(t.skip(n + 1), CharClass::Digit)
    } else {
        n
    }
}

/// The item that starts with the character `c`, which is neither blank nor
/// the start of a comment; `t` is the text after `c`.
pub open spec fn scan_token(c: char, t: Seq<char>, line: nat) -> Scanned {
    if c == '(' {
        Scanned { item: token_at(LexemeView::LeftParen, line), rest: t, line }
    } else if c == ')' {
        Scanned { item: token_at(LexemeView::RightParen, line), rest: t, line }
    } else if c == '{' {
        Scanned { item: token_at(LexemeView::LeftBrace, line), rest: t, line }
    } else if c == '}' {
        Scanned { item: token_at(LexemeView::RightBrace, line), rest: t, line }
    } else if c == ',' {
        Scanned { item: token_at(LexemeView::Comma, line), rest: t, line }
    } else if c == '.' {
        Scanned { item: token_at(LexemeView::Dot, line), rest: t, line }
    } else if c == '-' {
        Scanned { item: token_at(LexemeView::Minus, line), rest: t, line }
    } else if c == '+' {
        Scanned { item: token_at(LexemeView::Plus, line), rest: t, line }
    } else if c == ';' {
        Scanned { item: token_at(LexemeView::Semicolon, line), rest: t, line }
    } else if c == '*' {
        Scanned { item: token_at(LexemeView::Star, line), rest: t, line }
    } else if c == '/' {
        Scanned { item: token_at(LexemeView::Slash, line), rest: t, line }
    } else if c == '!' {
        scan_pair(t, line, LexemeView::BangEqual, LexemeView::Bang)
    } else if c == '=' {
        scan_pair(t, line, LexemeView::EqualEqual, LexemeView::Equal)
    } else if c == '<' {
        scan_pair(t, line, LexemeView::LessEqual, LexemeView::Less)
    } else if c == '>' {
        scan_pair(t, line, LexemeView::GreaterEqual, LexemeView::Greater)
    } else if c == '"' {
        scan_string(t, line)
    } else if spec_is_digit(c) {
        let n = number_length(t);
        Scanned { item: token_at(LexemeView::Number(seq![c] + t.take(n)), line), rest: t.skip(n), line }
    } else if spec_is_alpha(c) {
        let n = run_length(t, CharClass::AlphaNumeric) as int;
        Scanned { item: token_at(word_lexeme(seq![c] + t.take(n)), line), rest: t.skip(n), line }
    } else {
        Scanned { item: error_at(ScanErrorType::UnexpectedCharacter(c), line), rest: t, line }
    }
}

/// Whether `c` is a blank: a space, a tab, a carriage return or a line feed.
pub open spec fn is_blank(c: char) -> bool {
    c == ' ' || c == '\r' || c == '\t' || c == '\n'
}

/// The next item of the text `s`, read from line `line`.
///
/// Blanks are passed over, a line feed adding one to the line. `//` starts a
/// comment that runs up to, and not including, the next line feed. At the
/// end of the text the item is the `Eof` token.
pub open spec fn scan_next(s: Seq<char>, line: nat) -> Scanned
    decreases s.len(),
{
    if s.len() == 0 {
        Scanned { item: token_at(LexemeView::Eof, line), rest: s, line }
    } else {
        let c = s[0];
        let t = s.drop_first();
        if c == '\n' {
            scan_next(t, line + 1)
        } else if is_blank(c) {
            scan_next(t, line)
        } else if c == '/' && t.len() > 0 && t[0] == '/' {
            proof {
                lemma_run_length_bound(t, CharClass::CommentContent);
            }
            scan_next(t.skip(run_length(t, CharClass::CommentContent) as int), line)
        } else {
            scan_token(c, t, line)
        }
    }
}

/// Whether the item is the `Eof` token.
pub open spec fn is_eof(item: ScanResultView) -> bool {
    item matches Ok(token) && token.lexeme == LexemeView::Eof
}

/// All the items of the text `s`, read from line `line`: the items up to
/// and including the `Eof` token.
pub open spec fn scan_all(s: Seq<char>, line: nat) -> Seq<ScanResultView>
    decreases s.len(),
{
    let next = scan_next(s, line);
    if is_eof(next.item) || next.rest.len() >= s.len() {
        seq![next.item]
    } else {
        seq![next.item] + scan_all(next.rest, next.line)
    }
}


/// `line_feeds` counts one character at a time from the front as well.
pub proof fn lemma_line_feeds_step(s: Seq<char>, k: int)
    requires
        0 <= k < s.len(),
    ensures
        line_feeds(s.take(k + 1)) == line_feeds(s.take(k)) + if s[k] == '\n' {
            1nat
        } else {
            0nat
        },
        line_feeds(s.take(k)) <= k,
    decreases k,
{
    assert(s.take(k + 1).drop_last() =~= s.take(k));
    if k > 0 {
        lemma_line_feeds_step(s, k - 1);
    }
}

/// Reads a text one token at a time.
///
/// The scanner walks the characters of the source through a peeking
/// iterator and keeps the line it is on. Once it has yielded the `Eof` token
/// it yields nothing more.
pub struct Scanner<'a> {
    chars: PeekMoreIterator<Chars<'a>>,
    line: u64,
    done: bool,
}

impl<'a> Scanner<'a> {
    /// The text that has not been read yet.
    pub closed spec fn pending(&self) -> Seq<char> {
        unread(self.chars)
    }

    /// The line the scanner is on, counted from 0.
    pub closed spec fn line(&self) -> nat {
        self.line as nat
    }

    /// Whether the `Eof` token has been yielded.
    pub closed spec fn done(&self) -> bool {
        self.done
    }

    /// The scanner's invariant: its peeking cursor rests on the first unread
    /// character, and the line counter has room for every line feed left.
    pub closed spec fn wf(&self) -> bool {
        &&& cursor(self.chars) == 0
        &&& self.line + unread(self.chars).len() <= usize::MAX
    }

    /// A scanner at the start of `source`, on line 0.
    pub fn new(source: &'a String) -> (s: Self)
        ensures
            s.wf(),
            s.pending() == source@,
            s.line() == 0,
            !s.done(),
            source@.len() <= usize::MAX,
    {
        let text = source.as_str();
        // The count of characters bounds the line counter.
        let _length: usize = text.unicode_len();
        Scanner { chars: peekable_chars(text), line: 0, done: false }
    }

    fn build_token(&self, lexeme: Lexeme) -> (r: ScanResult)
        ensures
            result_view(r) == token_at(lexeme@, self.line()),
    {
        Ok(Token::new(lexeme, self.line))
    }

    fn err(&self, error: ScanErrorType) -> (r: ScanResult)
        ensures
            result_view(r) == error_at(error, self.line()),
    {
        Err(ScanError::new(error, self.line))
    }

    fn peek_eq(&mut self, expected: char) -> (r: bool)
        requires
            old(self).wf(),
        ensures
            final(self).wf(),
            final(self).pending() == old(self).pending(),
            final(self).line() == old(self).line(),
            final(self).done() == old(self).done(),
            r == (old(self).pending().len() > 0 && old(self).pending()[0] == expected),
    {
        let c = peek_char(&mut self.chars);
        match c {
            Some(c) => c == expected,
            None => false,
        }
    }

    /// Moves the longest run of characters of `class` from the text to the end
    /// of `buffer`, and counts the line feeds among them.
    fn collect_while(&mut self, class: CharClass, buffer: &mut String) -> (feeds: u64)
        requires
            old(self).wf(),
        ensures
            final(self).wf(),
            final(self).line() == old(self).line(),
            final(self).done() == old(self).done(),
            run_length(old(self).pending(), class) <= old(self).pending().len(),
            final(self).pending() == old(self).pending().skip(run_length(old(self).pending(), class) as int),
            final(buffer)@ == old(buffer)@ + old(self).pending().take(
                run_length(old(self).pending(), class) as int,
            ),
            feeds == line_feeds(old(self).pending().take(run_length(old(self).pending(), class) as int)),
            feeds <= run_length(old(self).pending(), class),
    {
        let ghost text = self.pending();
        let ghost start = buffer@;
        let ghost mut k: int = 0;
        let mut feeds: u64 = 0;
        proof {
            lemma_run_length_bound(text, class);
            assert(text.skip(0) =~= text);
            assert(start + text.take(0) =~= start);
        }
        loop
            invariant
                self.wf(),
                self.line() == old(self).line(),
                self.done() == old(self).done(),
                0 <= k <= text.len(),
                text == old(self).pending(),
                self.pending() == text.skip(k),
                buffer@ == start + text.take(k),
                k + run_length(text.skip(k), class) == run_length(text, class),
                feeds == line_feeds(text.take(k)),
                feeds <= k,
                run_length(text, class) <= text.len(),
                text.len() <= usize::MAX,
            ensures
                k == run_length(text, class),
            decreases text.len() - k,
        {
            match peek_char(&mut self.chars) {
                Some(c) => {
                    if class.contains(c) {
                        let _ = next_char(&mut self.chars);
                        push_char(buffer, c);
                        proof {
                            lemma_line_feeds_step(text, k);
                            assert(text.skip(k).drop_first() =~= text.skip(k + 1));
                            assert(start + text.take(k + 1) =~= (start + text.take(k)).push(c));
                            k = k + 1;
                        }
                        if c == '\n' {
                            feeds = feeds + 1;
                        }
                    } else {
                        break ;
                    }
                },
                None => {
                    break ;
                },
            }
        }
        feeds
    }

    /// The two-character operator if `=` comes next, else the one-character one.
    fn if_match(&mut self, match_lexeme: Lexeme, non_match_lexeme: Lexeme) -> (r: ScanResult)
        requires
            old(self).wf(),
        ensures
            final(self).wf(),
            final(self).done() == old(self).done(),
            ({
                let st = scan_pair(old(self).pending(), old(self).line(), match_lexeme@, non_match_lexeme@);
                &&& result_view(r) == st.item
                &&& final(self).pending() == st.rest
                &&& final(self).line() == st.line
            }),
    {
        let lexeme = if self.peek_eq('=') {
            let _ = next_char(&mut self.chars);
            match_lexeme
        } else {
            non_match_lexeme
        };
        self.build_token(lexeme)
    }

    /// Reads a string whose opening quote has just been consumed.
    fn string(&mut self) -> (r: ScanResult)
        requires
            old(self).wf(),
        ensures
            final(self).wf(),
            final(self).done() == old(self).done(),
            ({
                let st = scan_string(old(self).pending(), old(self).line());
                &&& result_view(r) == st.item
                &&& final(self).pending() == st.rest
                &&& final(self).line() == st.line
            }),
    {
        let mut content = String::new();
        let feeds = self.collect_while(CharClass::StringContent, &mut content);
        self.line = self.line + feeds;
        if self.at_end() {
            return self.err(ScanErrorType::UnterminatedString);
        }
        let _ = next_char(&mut self.chars);
        proof {
            let t = old(self).pending();
            let n = run_length(t, CharClass::StringContent) as int;
            assert(t.skip(n).drop_first() =~= t.skip(n + 1));
            assert(content@ =~= t.take(n));
        }
        self.build_token(Lexeme::String(content))
    }

    /// Reads a number whose first digit has just been consumed.
    fn number(&mut self, first_digit: char) -> (r: ScanResult)
        requires
            old(self).wf(),
        ensures
            final(self).wf(),
            final(self).done() == old(self).done(),
            final(self).line() == old(self).line(),
            ({
                let t = old(self).pending();
                let n = number_length(t);
                &&& 0 <= n <= t.len()
                &&& result_view(r) == token_at(LexemeView::Number(seq![first_digit] + t.take(n)), old(self).line())
                &&& final(self).pending() == t.skip(n)
            }),
    {
        let ghost t = self.pending();
        let ghost n = run_length(t, CharClass::Digit) as int;
        let mut text = String::new();
        push_char(&mut text, first_digit);
        let _ = self.collect_while(CharClass::Digit, &mut text);
        assert(text@ =~= seq![first_digit] + t.take(n));
        if self.peek_eq('.') {
            match peek_nth_char(&mut self.chars, 1) {
                Some(c) => {
                    if is_digit(c) {
                        let _ = next_char(&mut self.chars);
                        push_char(&mut text, '.');
                        let _ = self.collect_while(CharClass::Digit, &mut text);
                        proof {
                            let m = run_length(t.skip(n + 1), CharClass::Digit) as int;
                            assert(t.skip(n).drop_first() =~= t.skip(n + 1));
                            assert(t.skip(n + 1).skip(m) =~= t.skip(n + 1 + m));
                            assert(text@ =~= seq![first_digit] + t.take(n + 1 + m)) by {
                                assert(t.take(n + 1 + m) =~= t.take(n).push('.') + t.skip(n + 1).take(m));
                            }
                        }
                    }
                },
                None => {},
            }
        }
        self.build_token(Lexeme::Number(text))
    }

    /// Reads a word whose first character has just been consumed.
    fn identifier(&mut self, first_char: char) -> (r: ScanResult)
        requires
            old(self).wf(),
        ensures
            final(self).wf(),
            final(self).done() == old(self).done(),
            final(self).line() == old(self).line(),
            ({
                let t = old(self).pending();
                let n = run_length(t, CharClass::AlphaNumeric) as int;
                &&& result_view(r) == token_at(word_lexeme(seq![first_char] + t.take(n)), old(self).line())
                &&& final(self).pending() == t.skip(n)
            }),
    {
        let ghost t = self.pending();
        let ghost n = run_length(t, CharClass::AlphaNumeric) as int;
        let mut word = String::new();
        push_char(&mut word, first_char);
        let _ = self.collect_while(CharClass::AlphaNumeric, &mut word);
        assert(word@ =~= seq![first_char] + t.take(n));
        let lexeme = if same_text(&word, "and") {
            Lexeme::And
        } else if same_text(&word, "class") {
            Lexeme::Class
        } else if same_text(&word, "else") {
            Lexeme::Else
        } else if same_text(&word, "false") {
            Lexeme::False
        } else if same_text(&word, "for") {
            Lexeme::For
        } else if same_text(&word, "fun") {
            Lexeme::Fun
        } else if same_text(&word, "if") {
            Lexeme::If
        } else if same_text(&word, "nil") {
            Lexeme::Nil
        } else if same_text(&word, "or") {
            Lexeme::Or
        } else if same_text(&word, "print") {
            Lexeme::Print
        } else if same_text(&word, "return") {
            Lexeme::Return
        } else if same_text(&word, "super") {
            Lexeme::Super
        } else if same_text(&word, "this") {
            Lexeme::This
        } else if same_text(&word, "true") {
            Lexeme::True
        } else if same_text(&word, "var") {
            Lexeme::Var
        } else if same_text(&word, "while") {
            Lexeme::While
        } else {
            Lexeme::Identifier(word)
        };
        self.build_token(lexeme)
    }

    /// The next item of the text, or `None` once the `Eof` token has been
    /// yielded.
    pub fn next(&mut self) -> (r: Option<ScanResult>)
        requires
            old(self).wf(),
        ensures
            final(self).wf(),
            old(self).done() ==> {
                &&& r is None
                &&& final(self).done()
                &&& final(self).pending() == old(self).pending()
                &&& final(self).line() == old(self).line()
            },
            !old(self).done() ==> {
                let st = scan_next(old(self).pending(), old(self).line());
                &&& r matches Some(item)
                &&& result_view(item) == st.item
                &&& final(self).pending() == st.rest
                &&& final(self).line() == st.line
                &&& final(self).done() == is_eof(st.item)
            },
    {
        if self.done {
            return None;
        }
        loop
            invariant
                self.wf(),
                !self.done(),
                !old(self).done(),
                scan_next(self.pending(), self.line()) == scan_next(old(self).pending(), old(self).line()),
            decreases self.pending().len(),
        {
            let ghost s = self.pending();
            match next_char(&mut self.chars) {
                None => {
                    self.done = true;
                    return Some(self.build_token(Lexeme::Eof));
                },
                Some(c) => {
                    if c == ' ' || c == '\r' || c == '\t' {
                        continue ;
                    } else if c == '\n' {
                        self.line = self.line + 1;
                        continue ;
                    } else if c == '/' {
                        if self.peek_eq('/') {
                            let mut comment = String::new();
                            let _ = self.collect_while(CharClass::CommentContent, &mut comment);
                            continue ;
                        } else {
                            return Some(self.build_token(Lexeme::Slash));
                        }
                    } else if c == '(' {
                        return Some(self.build_token(Lexeme::LeftParen));
                    } else if c == ')' {
                        return Some(self.build_token(Lexeme::RightParen));
                    } else if c == '{' {
                        return Some(self.build_token(Lexeme::LeftBrace));
                    } else if c == '}' {
                        return Some(self.build_token(Lexeme::RightBrace));
                    } else if c == ',' {
                        return Some(self.build_token(Lexeme::Comma));
                    } else if c == '.' {
                        return Some(self.build_token(Lexeme::Dot));
                    } else if c == '-' {
                        return Some(self.build_token(Lexeme::Minus));
                    } else if c == '+' {
                        return Some(self.build_token(Lexeme::Plus));
                    } else if c == ';' {
                        return Some(self.build_token(Lexeme::Semicolon));
                    } else if c == '*' {
                        return Some(self.build_token(Lexeme::Star));
                    } else if c == '!' {
                        return Some(self.if_match(Lexeme::BangEqual, Lexeme::Bang));
                    } else if c == '=' {
                        return Some(self.if_match(Lexeme::EqualEqual, Lexeme::Equal));
                    } else if c == '<' {
                        return Some(self.if_match(Lexeme::LessEqual, Lexeme::Less));
                    } else if c == '>' {
                        return Some(self.if_match(Lexeme::GreaterEqual, Lexeme::Greater));
                    } else if c == '"' {
                        return Some(self.string());
                    } else if is_digit(c) {
                        return Some(self.number(c));
                    } else if is_alpha(c) {
                        return Some(self.identifier(c));
                    } else {
                        return Some(self.err(ScanErrorType::UnexpectedCharacter(c)));
                    }
                },
            }
        }
    }

    fn at_end(&mut self) -> (r: bool)
        requires
            old(self).wf(),
        ensures
            final(self).wf(),
            final(self).pending() == old(self).pending(),
            final(self).line() == old(self).line(),
            final(self).done() == old(self).done(),
            r == (old(self).pending().len() == 0),
    {
        peek_char(&mut self.chars).is_none()
    }
}


/// The line that an item carries.
pub open spec fn item_line(item: ScanResultView) -> u64 {
    match item {
        Ok(token) => token.line,
        Err(e) => e.line,
    }
}

/// A number's length stays within the text.
pub proof fn lemma_number_length_bound(t: Seq<char>)
    ensures
        0 <= number_length(t) <= t.len(),
{
    let n = run_length(t, CharClass::Digit) as int;
    lemma_run_length_bound(t, CharClass::Digit);
    if n + 1 < t.len() {
        lemma_run_length_bound(t.skip(n + 1), CharClass::Digit);
    }
}

/// Reading an item never goes back in the text or in the lines; every item
/// but `Eof` uses up at least one character; the item carries the line that
/// the scanner is on after it; and the lines passed are no more than the
/// characters used.
pub proof fn lemma_scan_next_progress(s: Seq<char>, line: nat)
    ensures
        scan_next(s, line).rest.len() <= s.len(),
        !is_eof(scan_next(s, line).item) ==> scan_next(s, line).rest.len() < s.len(),
        line <= scan_next(s, line).line,
        scan_next(s, line).line + scan_next(s, line).rest.len() <= line + s.len(),
        item_line(scan_next(s, line).item) == scan_next(s, line).line as u64,
    decreases s.len(),
{
    if s.len() > 0 {
        let c = s[0];
        let t = s.drop_first();
        if c == '\n' {
            lemma_scan_next_progress(t, line + 1);
        } else if is_blank(c) {
            lemma_scan_next_progress(t, line);
        } else if c == '/' && t.len() > 0 && t[0] == '/' {
            lemma_run_length_bound(t, CharClass::CommentContent);
            lemma_scan_next_progress(t.skip(run_length(t, CharClass::CommentContent) as int), line);
        } else {
            lemma_run_length_bound(t, CharClass::StringContent);
            lemma_run_length_bound(t, CharClass::AlphaNumeric);
            lemma_number_length_bound(t);
            let n = run_length(t, CharClass::StringContent) as int;
            if n > 0 {
                lemma_line_feeds_step(t, n - 1);
                assert(line_feeds(t.take(n)) <= n);
            } else {
                assert(t.take(0) =~= Seq::<char>::empty());
            }
        }
    }
}

/// The stream of items holds exactly one `Eof` token, and it comes last.
pub proof fn lemma_one_eof_at_the_end(s: Seq<char>, line: nat)
    ensures
        scan_all(s, line).len() > 0,
        is_eof(scan_all(s, line).last()),
        forall|i: int| 0 <= i < scan_all(s, line).len() - 1 ==> !is_eof(#[trigger] scan_all(s, line)[i]),
    decreases s.len(),
{
    let next = scan_next(s, line);
    lemma_scan_next_progress(s, line);
    if !is_eof(next.item) {
        lemma_one_eof_at_the_end(next.rest, next.line);
        let tail = scan_all(next.rest, next.line);
        let all = scan_all(s, line);
        assert(all == seq![next.item] + tail);
        assert(all.last() == tail.last());
        assert forall|i: int| 0 <= i < all.len() - 1 implies !is_eof(#[trigger] all[i]) by {
            if i > 0 {
                assert(all[i] == tail[i - 1]);
            }
        }
    }
}

/// No item of the stream carries a line before that of an earlier item.
pub proof fn lemma_lines_never_decrease(s: Seq<char>, line: nat)
    requires
        line + s.len() <= u64::MAX,
    ensures
        forall|i: int| 0 <= i < scan_all(s, line).len() ==> line <= item_line(#[trigger] scan_all(s, line)[i]),
        forall|i: int, j: int|
            0 <= i <= j < scan_all(s, line).len() ==> item_line(#[trigger] scan_all(s, line)[i]) <= item_line(
                #[trigger] scan_all(s, line)[j],
            ),
    decreases s.len(),
{
    let next = scan_next(s, line);
    lemma_scan_next_progress(s, line);
    let all = scan_all(s, line);
    if !is_eof(next.item) {
        lemma_lines_never_decrease(next.rest, next.line);
        let tail = scan_all(next.rest, next.line);
        assert(all == seq![next.item] + tail);
        assert forall|i: int| 0 <= i < all.len() implies line <= item_line(#[trigger] all[i]) by {
            if i > 0 {
                assert(all[i] == tail[i - 1]);
            }
        }
        assert forall|i: int, j: int| 0 <= i <= j < all.len() implies item_line(#[trigger] all[i]) <= item_line(
            #[trigger] all[j],
        ) by {
            if i > 0 {
                assert(all[i] == tail[i - 1]);
                assert(all[j] == tail[j - 1]);
            } else if j > 0 {
                assert(all[j] == tail[j - 1]);
            }
        }
    }
}

/// The views of a sequence of scanned items, in order.
pub open spec fn result_views(items: Seq<ScanResult>) -> Seq<ScanResultView> {
    Seq::new(items.len(), |i: int| result_view(items[i]))
}

/// Reads the whole of `source`: every item up to and including the `Eof`
/// token, in order. There is one `Eof` token, the last item, and no item
/// carries a line before that of an earlier item.
pub fn scan(source: &String) -> (items: Vec<ScanResult>)
    ensures
        result_views(items@) == scan_all(source@, 0),
        items@.len() > 0,
        is_eof(result_view(items@.last())),
        forall|i: int| 0 <= i < items@.len() - 1 ==> !is_eof(result_view(#[trigger] items@[i])),
        forall|i: int, j: int|
            0 <= i <= j < items@.len() ==> item_line(result_view(#[trigger] items@[i])) <= item_line(
                result_view(#[trigger] items@[j]),
            ),
{
    let mut scanner = Scanner::new(source);
    proof {
        lemma_one_eof_at_the_end(source@, 0);
        lemma_lines_never_decrease(source@, 0);
    }
    let mut items: Vec<ScanResult> = Vec::new();
    assert(result_views(items@) + scan_all(source@, 0) =~= scan_all(source@, 0));
    loop
        invariant
            scanner.wf(),
            !scanner.done() ==> result_views(items@) + scan_all(scanner.pending(), scanner.line()) == scan_all(
                source@,
                0,
            ),
            scanner.done() ==> result_views(items@) == scan_all(source@, 0),
        ensures
            result_views(items@) == scan_all(source@, 0),
        decreases
                scanner.pending().len() + if scanner.done() {
                    0nat
                } else {
                    1nat
                },
    {
        let ghost before = result_views(items@);
        let ghost pending = scanner.pending();
        let ghost line = scanner.line();
        match scanner.next() {
            None => {
                break ;
            },
            Some(item) => {
                proof {
                    lemma_scan_next_progress(pending, line);
                }
                items.push(item);
                assert(result_views(items@) =~= before.push(result_view(item)));
                assert(before + (seq![result_view(item)] + scan_all(scanner.pending(), scanner.line()))
                    =~= before.push(result_view(item)) + scan_all(scanner.pending(), scanner.line()));
                assert(before + seq![result_view(item)] =~= before.push(result_view(item)));
            },
        }
    }
    proof {
        let views = result_views(items@);
        assert(views.last() == result_view(items@.last()));
        assert forall|i: int| 0 <= i < items@.len() - 1 implies !is_eof(result_view(#[trigger] items@[i])) by {
            assert(views[i] == result_view(items@[i]));
        }
        assert forall|i: int, j: int| 0 <= i <= j < items@.len() implies item_line(
            result_view(#[trigger] items@[i]),
        ) <= item_line(result_view(#[trigger] items@[j])) by {
            assert(views[i] == result_view(items@[i]));
            assert(views[j] == result_view(items@[j]));
        }
    }
    items
}

} // verus!
