//! Tokenizer: source characters to a sequence of tokens.
use vstd::prelude::*;
use vstd::string::StrSliceExecFns;

verus! {

/// A classified unit of source text.
#[derive(Debug, PartialEq, Clone)]
pub enum Token {
    // Keywords
    Fun,
    Struct,
    /// The closing brace that brings brace nesting back to zero.
    IdentifierClosed,
    Var,
    Const,
    // Types
    IntType,
    FloatType,
    Identifier(String),
    Colon,
    LeftBrace,
    /// A closing brace of an inner block.
    RightBrace,
    LeftParen,
    RightParen,
    Comma,
    Dot,
    Semicolon,
    // Operators
    Equals,
    Plus,
    Minus,
    Asterisk,
    Slash,
    Percent,
    Exclamation,
    LessThan,
    GreaterThan,
    Ampersand,
    VerticalBar,
    DoubleAmpersand,
    DoubleVerticalBar,
    /// `//`
    Comment,
    Return,
    /// A newline character.
    LineEnd,
    IntLiteral(i32),
    /// End of input, or a character that starts no token.
    Eof,
}

/// Mathematical model of a token: an identifier's text as a character sequence.
pub enum TokenView {
    Fun,
    Struct,
    IdentifierClosed,
    Var,
    Const,
    IntType,
    FloatType,
    Identifier(Seq<char>),
    Colon,
    LeftBrace,
    RightBrace,
    LeftParen,
    RightParen,
    Comma,
    Dot,
    Semicolon,
    Equals,
    Plus,
    Minus,
    Asterisk,
    Slash,
    Percent,
    Exclamation,
    LessThan,
    GreaterThan,
    Ampersand,
    VerticalBar,
    DoubleAmpersand,
    DoubleVerticalBar,
    Comment,
    Return,
    LineEnd,
    IntLiteral(i32),
    Eof,
}

impl View for Token {
    type V = TokenView;

    open spec fn view(&self) -> TokenView {
        match self {
            Token::Fun => TokenView::Fun,
            Token::Struct => TokenView::Struct,
            Token::IdentifierClosed => TokenView::IdentifierClosed,
            Token::Var => TokenView::Var,
            Token::Const => TokenView::Const,
            Token::IntType => TokenView::IntType,
            Token::FloatType => TokenView::FloatType,
            Token::Identifier(s) => TokenView::Identifier(s@),
            Token::Colon => TokenView::Colon,
            Token::LeftBrace => TokenView::LeftBrace,
            Token::RightBrace => TokenView::RightBrace,
            Token::LeftParen => TokenView::LeftParen,
            Token::RightParen => TokenView::RightParen,
            Token::Comma => TokenView::Comma,
            Token::Dot => TokenView::Dot,
            Token::Semicolon => TokenView::Semicolon,
            Token::Equals => TokenView::Equals,
            Token::Plus => TokenView::Plus,
            Token::Minus => TokenView::Minus,
            Token::Asterisk => TokenView::Asterisk,
            Token::Slash => TokenView::Slash,
            Token::Percent => TokenView::Percent,
            Token::Exclamation => TokenView::Exclamation,
            Token::LessThan => TokenView::LessThan,
            Token::GreaterThan => TokenView::GreaterThan,
            Token::Ampersand => TokenView::Ampersand,
            Token::VerticalBar => TokenView::VerticalBar,
            Token::DoubleAmpersand => TokenView::DoubleAmpersand,
            Token::DoubleVerticalBar => TokenView::DoubleVerticalBar,
            Token::Comment => TokenView::Comment,
            Token::Return => TokenView::Return,
            Token::LineEnd => TokenView::LineEnd,
            Token::IntLiteral(v) => TokenView::IntLiteral(*v),
            Token::Eof => TokenView::Eof,
        }
    }
}

/// The models of a sequence of tokens.
pub open spec fn token_views(ts: Seq<Token>) -> Seq<TokenView> {
    ts.map_values(|t: Token| t@)
}

/// The name of a token's kind.
pub open spec fn token_label(t: TokenView) -> Seq<char> {
    match t {
        TokenView::Fun => "Fun"@,
        TokenView::Struct => "Struct"@,
        TokenView::IdentifierClosed => "IdentifierClosed"@,
        TokenView::Var => "Var"@,
        TokenView::Const => "Const"@,
        TokenView::IntType => "IntType"@,
        TokenView::FloatType => "FloatType"@,
        TokenView::Identifier(_) => "Identifier"@,
        TokenView::Colon => "Colon"@,
        TokenView::LeftBrace => "LeftBrace"@,
        TokenView::RightBrace => "RightBrace"@,
        TokenView::LeftParen => "LeftParen"@,
        TokenView::RightParen => "RightParen"@,
        TokenView::Comma => "Comma"@,
        TokenView::Dot => "Dot"@,
        TokenView::Semicolon => "Semicolon"@,
        TokenView::Equals => "Equals"@,
        TokenView::Plus => "Plus"@,
        TokenView::Minus => "Minus"@,
        TokenView::Asterisk => "Asterisk"@,
        TokenView::Slash => "Slash"@,
        TokenView::Percent => "Percent"@,
        TokenView::Exclamation => "Exclamation"@,
        TokenView::LessThan => "LessThan"@,
        TokenView::GreaterThan => "GreaterThan"@,
        TokenView::Ampersand => "Ampersand"@,
        TokenView::VerticalBar => "VerticalBar"@,
        TokenView::DoubleAmpersand => "DoubleAmpersand"@,
        TokenView::DoubleVerticalBar => "DoubleVerticalBar"@,
        TokenView::Comment => "Comment"@,
        TokenView::Return => "Return"@,
        TokenView::LineEnd => "LineEnd"@,
        TokenView::IntLiteral(_) => "IntLiteral"@,
        TokenView::Eof => "Eof"@,
    }
}

impl Token {
    /// A copy of the token.
    pub fn duplicate(&self) -> (r: Token)
        ensures
            r@ == self@,
    {
        match self {
            Token::Fun => Token::Fun,
            Token::Struct => Token::Struct,
            Token::IdentifierClosed => Token::IdentifierClosed,
            Token::Var => Token::Var,
            Token::Const => Token::Const,
            Token::IntType => Token::IntType,
            Token::FloatType => Token::FloatType,
            Token::Identifier(x) => Token::Identifier(x.clone()),
            Token::Colon => Token::Colon,
            Token::LeftBrace => Token::LeftBrace,
            Token::RightBrace => Token::RightBrace,
            Token::LeftParen => Token::LeftParen,
            Token::RightParen => Token::RightParen,
            Token::Comma => Token::Comma,
            Token::Dot => Token::Dot,
            Token::Semicolon => Token::Semicolon,
            Token::Equals => Token::Equals,
            Token::Plus => Token::Plus,
            Token::Minus => Token::Minus,
            Token::Asterisk => Token::Asterisk,
            Token::Slash => Token::Slash,
            Token::Percent => Token::Percent,
            Token::Exclamation => Token::Exclamation,
            Token::LessThan => Token::LessThan,
            Token::GreaterThan => Token::GreaterThan,
            Token::Ampersand => Token::Ampersand,
            Token::VerticalBar => Token::VerticalBar,
            Token::DoubleAmpersand => Token::DoubleAmpersand,
            Token::DoubleVerticalBar => Token::DoubleVerticalBar,
            Token::Comment => Token::Comment,
            Token::Return => Token::Return,
            Token::LineEnd => Token::LineEnd,
            Token::IntLiteral(x) => Token::IntLiteral(*x),
            Token::Eof => Token::Eof,
        }
    }

    /// The name of the token's kind.
    pub fn label(&self) -> (r: &'static str)
        ensures
            r@ == token_label(self@),
    {
        match self {
            Token::Fun => "Fun",
            Token::Struct => "Struct",
            Token::IdentifierClosed => "IdentifierClosed",
            Token::Var => "Var",
            Token::Const => "Const",
            Token::IntType => "IntType",
            Token::FloatType => "FloatType",
            Token::Identifier(_) => "Identifier",
            Token::Colon => "Colon",
            Token::LeftBrace => "LeftBrace",
            Token::RightBrace => "RightBrace",
            Token::LeftParen => "LeftParen",
            Token::RightParen => "RightParen",
            Token::Comma => "Comma",
            Token::Dot => "Dot",
            Token::Semicolon => "Semicolon",
            Token::Equals => "Equals",
            Token::Plus => "Plus",
            Token::Minus => "Minus",
            Token::Asterisk => "Asterisk",
            Token::Slash => "Slash",
            Token::Percent => "Percent",
            Token::Exclamation => "Exclamation",
            Token::LessThan => "LessThan",
            Token::GreaterThan => "GreaterThan",
            Token::Ampersand => "Ampersand",
            Token::VerticalBar => "VerticalBar",
            Token::DoubleAmpersand => "DoubleAmpersand",
            Token::DoubleVerticalBar => "DoubleVerticalBar",
            Token::Comment => "Comment",
            Token::Return => "Return",
            Token::LineEnd => "LineEnd",
            Token::IntLiteral(_) => "IntLiteral",
            Token::Eof => "Eof",
        }
    }
}

// ---------------------------------------------------------------------------
// Character classes

/// Whether `c` has the Unicode Alphabetic property.
pub uninterp spec fn alphabetic(c: char) -> bool;

/// Whether `c` is alphabetic or has a Unicode numeric general category.
pub uninterp spec fn alphanumeric(c: char) -> bool;

/// Relies on `char::is_alphabetic`, which depends on the character alone.
#[verifier::external_body]
fn is_alphabetic(c: char) -> (r: bool)
    ensures
        r == alphabetic(c),
{
    c.is_alphabetic()
}

/// Relies on `char::is_alphanumeric`, which depends on the character alone.
#[verifier::external_body]
fn is_alphanumeric(c: char) -> (r: bool)
    ensures
        r == alphanumeric(c),
{
    c.is_alphanumeric()
}

/// Relies on `String::push`: appends one character.
#[verifier::external_body]
pub(crate) fn push_char(s: &mut String, c: char)
    ensures
        final(s)@ == old(s)@.push(c),
{
    s.push(c)
}

/// An ASCII decimal digit.
pub open spec fn is_decimal_digit(c: char) -> bool {
    '0' <= c && c <= '9'
}

/// A character that may continue an identifier.
pub open spec fn is_word_char(c: char) -> bool {
    alphanumeric(c) || c == '_'
}

/// The numeric value of an ASCII decimal digit.
pub open spec fn digit_value(c: char) -> int {
    (c as u32) as int - ('0' as u32) as int
}

/// The end of the run of characters satisfying `f` that starts at `p`.
pub open spec fn run_end(cs: Seq<char>, p: nat, f: spec_fn(char) -> bool) -> nat
    decreases cs.len() - p,
{
    if p < cs.len() && f(cs[p as int]) {
        run_end(cs, p + 1, f)
    } else {
        p
    }
}

/// The end of the run of spaces that starts at `p`.
pub open spec fn space_end(cs: Seq<char>, p: nat) -> nat {
    run_end(cs, p, |c: char| c == ' ')
}

/// The end of the run of identifier characters that starts at `p`.
pub open spec fn word_end(cs: Seq<char>, p: nat) -> nat {
    run_end(cs, p, |c: char| is_word_char(c))
}

/// The end of the run of decimal digits that starts at `p`.
pub open spec fn digits_end(cs: Seq<char>, p: nat) -> nat {
    run_end(cs, p, |c: char| is_decimal_digit(c))
}

/// The number that a sequence of decimal digits denotes.
pub open spec fn digits_value(ds: Seq<char>) -> nat
    decreases ds.len(),
{
    if ds.len() == 0 {
        0
    } else {
        (digits_value(ds.drop_last()) * 10 + digit_value(ds.last())) as nat
    }
}

/// The value of an integer literal: the number if it fits in an `i32`, else zero.
pub open spec fn literal_value(ds: Seq<char>) -> i32 {
    if digits_value(ds) <= i32::MAX {
        digits_value(ds) as i32
    } else {
        0
    }
}

/// A word read as a keyword, a type name or an identifier.
pub open spec fn word_token(w: Seq<char>) -> TokenView {
    if w == "fun"@ {
        TokenView::Fun
    } else if w == "struct"@ {
        TokenView::Struct
    } else if w == "var"@ {
        TokenView::Var
    } else if w == "const"@ {
        TokenView::Const
    } else if w == "int"@ {
        TokenView::IntType
    } else if w == "float"@ {
        TokenView::FloatType
    } else if w == "return"@ {
        TokenView::Return
    } else {
        TokenView::Identifier(w)
    }
}

/// The token that a character standing alone yields, if it is one of those.
pub open spec fn single_char_token(c: char) -> Option<TokenView> {
    if c == ':' {
        Some(TokenView::Colon)
    } else if c == '(' {
        Some(TokenView::LeftParen)
    } else if c == ')' {
        Some(TokenView::RightParen)
    } else if c == ',' {
        Some(TokenView::Comma)
    } else if c == ';' {
        Some(TokenView::Semicolon)
    } else if c == '.' {
        Some(TokenView::Dot)
    } else if c == '=' {
        Some(TokenView::Equals)
    } else if c == '+' {
        Some(TokenView::Plus)
    } else if c == '-' {
        Some(TokenView::Minus)
    } else if c == '*' {
        Some(TokenView::Asterisk)
    } else if c == '%' {
        Some(TokenView::Percent)
    } else if c == '!' {
        Some(TokenView::Exclamation)
    } else if c == '<' {
        Some(TokenView::LessThan)
    } else if c == '>' {
        Some(TokenView::GreaterThan)
    } else if c == '\n' {
        Some(TokenView::LineEnd)
    } else {
        None
    }
}

/// The tokens of a symbol that may be doubled (`&&`, `||`, `//`): the doubled
/// one first, the single one second.
pub open spec fn double_symbol_tokens(c: char) -> (TokenView, TokenView) {
    if c == '&' {
        (TokenView::DoubleAmpersand, TokenView::Ampersand)
    } else if c == '|' {
        (TokenView::DoubleVerticalBar, TokenView::VerticalBar)
    } else {
        (TokenView::Comment, TokenView::Slash)
    }
}

/// One tokenizer step from position `pos` at brace depth `depth`: the token,
/// the position after it and the depth after it.
pub open spec fn lex_step(cs: Seq<char>, pos: nat, depth: nat) -> (TokenView, nat, nat) {
    let p = space_end(cs, pos);
    if p >= cs.len() {
        (TokenView::Eof, p, depth)
    } else {
        let c = cs[p as int];
        if c == '{' {
            (TokenView::LeftBrace, p + 1, depth + 1)
        } else if c == '}' {
            if depth == 1 {
                (TokenView::IdentifierClosed, p + 1, 0)
            } else if depth == 0 {
                (TokenView::RightBrace, p + 1, 0)
            } else {
                (TokenView::RightBrace, p + 1, (depth - 1) as nat)
            }
        } else if c == '&' || c == '|' || c == '/' {
            if p + 1 < cs.len() && cs[p + 1 as int] == c {
                (double_symbol_tokens(c).0, p + 2, depth)
            } else {
                (double_symbol_tokens(c).1, p + 1, depth)
            }
        } else if single_char_token(c) is Some {
            (single_char_token(c)->0, p + 1, depth)
        } else if alphabetic(c) {
            let e = word_end(cs, p + 1);
            (word_token(cs.subrange(p as int, e as int)), e, depth)
        } else if is_decimal_digit(c) {
            let e = digits_end(cs, p + 1);
            (TokenView::IntLiteral(literal_value(cs.subrange(p as int, e as int))), e, depth)
        } else {
            (TokenView::Eof, p, depth)
        }
    }
}

/// The tokens from position `pos` at depth `depth` up to, not including, the
/// end-of-input token.
pub open spec fn lex_all(cs: Seq<char>, pos: nat, depth: nat) -> Seq<TokenView>
    decreases cs.len() - pos,
    via lex_all_decreases
{
    let (t, p, d) = lex_step(cs, pos, depth);
    if t is Eof || pos >= cs.len() {
        Seq::empty()
    } else {
        seq![t] + lex_all(cs, p, d)
    }
}

/// The tokens of a whole source text.
pub open spec fn tokens_of(cs: Seq<char>) -> Seq<TokenView> {
    lex_all(cs, 0, 0)
}

proof fn lemma_run_end_bounds(cs: Seq<char>, p: nat, f: spec_fn(char) -> bool)
    ensures
        run_end(cs, p, f) >= p,
        p <= cs.len() ==> run_end(cs, p, f) <= cs.len(),
        run_end(cs, p, f) < cs.len() ==> !f(cs[run_end(cs, p, f) as int]),
    decreases cs.len() - p,
{
    if p < cs.len() && f(cs[p as int]) {
        lemma_run_end_bounds(cs, p + 1, f);
    }
}

/// A step that yields a token other than end of input consumes at least one
/// character, and never moves past the end.
proof fn lemma_step_advances(cs: Seq<char>, pos: nat, depth: nat)
    requires
        pos <= cs.len(),
    ensures
        lex_step(cs, pos, depth).1 <= cs.len(),
        lex_step(cs, pos, depth).1 >= pos,
        lex_step(cs, pos, depth).0 !is Eof ==> lex_step(cs, pos, depth).1 > pos,
        depth <= pos ==> lex_step(cs, pos, depth).2 <= lex_step(cs, pos, depth).1,
{
    let p = space_end(cs, pos);
    lemma_run_end_bounds(cs, pos, |c: char| c == ' ');
    if p < cs.len() {
        lemma_run_end_bounds(cs, p + 1, |c: char| is_word_char(c));
        lemma_run_end_bounds(cs, p + 1, |c: char| is_decimal_digit(c));
    }
}

#[via_fn]
proof fn lex_all_decreases(cs: Seq<char>, pos: nat, depth: nat) {
    if pos <= cs.len() {
        lemma_step_advances(cs, pos, depth);
    }
}

// ---------------------------------------------------------------------------
// The tokenizer

/// Single-pass tokenizer over the characters of a source text.
pub struct Lexer {
    chars: Vec<char>,
    /// Index of the current, not yet consumed, character.
    pos: usize,
    /// How many `{` are open.
    brace_counter: usize,
}

impl Lexer {
    /// The characters being tokenized.
    pub closed spec fn source(&self) -> Seq<char> {
        self.chars@
    }

    /// The position of the current character.
    pub closed spec fn position(&self) -> nat {
        self.pos as nat
    }

    /// The current brace depth.
    pub closed spec fn depth(&self) -> nat {
        self.brace_counter as nat
    }

    pub closed spec fn wf(&self) -> bool {
        &&& self.pos <= self.chars.len()
        &&& self.brace_counter <= self.pos
    }

    /// A tokenizer at the start of `input`, at brace depth zero.
    pub fn new(input: &str) -> (r: Self)
        ensures
            r.wf(),
            r.source() == input@,
            r.position() == 0,
            r.depth() == 0,
    {
        let n = input.unicode_len();
        let mut chars: Vec<char> = Vec::new();
        let mut i: usize = 0;
        while i < n
            invariant
                n == input@.len(),
                i <= n,
                chars@ == input@.subrange(0, i as int),
            decreases n - i,
        {
            chars.push(input.get_char(i));
            i = i + 1;
        }
        Lexer { chars, pos: 0, brace_counter: 0 }
    }

    fn advance(&mut self)
        requires
            old(self).wf(),
            old(self).position() < old(self).source().len(),
        ensures
            final(self).wf(),
            final(self).source() == old(self).source(),
            final(self).position() == old(self).position() + 1,
            final(self).depth() == old(self).depth(),
    {
        self.pos = self.pos + 1;
    }

    fn peek(&self) -> (r: Option<char>)
        requires
            self.wf(),
        ensures
            self.position() < self.source().len() ==> r == Some(self.source()[self.position() as int]),
            self.position() >= self.source().len() ==> r is None,
    {
        if self.pos < self.chars.len() {
            Some(self.chars[self.pos])
        } else {
            None
        }
    }

    fn skip_whitespace(&mut self)
        requires
            old(self).wf(),
        ensures
            final(self).wf(),
            final(self).source() == old(self).source(),
            final(self).position() == space_end(old(self).source(), old(self).position()),
            final(self).depth() == old(self).depth(),
    {
        let ghost start = self.position();
        while self.pos < self.chars.len() && self.chars[self.pos] == ' '
            invariant
                self.wf(),
                self.source() == old(self).source(),
                self.depth() == old(self).depth(),
                space_end(self.source(), self.position()) == space_end(self.source(), start),
            decreases self.source().len() - self.position(),
        {
            self.advance();
        }
    }

    /// Reads the current character, which starts a word, and the run of
    /// identifier characters after it.
    fn read_identifier(&mut self) -> (r: String)
        requires
            old(self).wf(),
            old(self).position() < old(self).source().len(),
        ensures
            final(self).wf(),
            final(self).source() == old(self).source(),
            final(self).depth() == old(self).depth(),
            final(self).position() == word_end(old(self).source(), old(self).position() + 1),
            r@ == old(self).source().subrange(
                old(self).position() as int,
                final(self).position() as int,
            ),
    {
        let ghost start = self.position();
        let mut identifier = String::new();
        push_char(&mut identifier, self.chars[self.pos]);
        self.advance();
        assert(identifier@ =~= self.source().subrange(start as int, self.position() as int));
        while self.pos < self.chars.len() && (is_alphanumeric(self.chars[self.pos])
            || self.chars[self.pos] == '_')
            invariant
                self.wf(),
                start <= self.position(),
                self.source() == old(self).source(),
                self.depth() == old(self).depth(),
                word_end(self.source(), self.position()) == word_end(self.source(), start + 1),
                identifier@ == self.source().subrange(start as int, self.position() as int),
            decreases self.source().len() - self.position(),
        {
            push_char(&mut identifier, self.chars[self.pos]);
            self.advance();
            assert(identifier@ =~= self.source().subrange(start as int, self.position() as int));
        }
        identifier
    }

    /// Reads a maximal run of decimal digits as an `i32`; zero where the
    /// number does not fit.
    fn read_number(&mut self) -> (r: i32)
        requires
            old(self).wf(),
        ensures
            final(self).wf(),
            final(self).source() == old(self).source(),
            final(self).depth() == old(self).depth(),
            final(self).position() == digits_end(old(self).source(), old(self).position()),
            r == literal_value(
                old(self).source().subrange(
                    old(self).position() as int,
                    final(self).position() as int,
                ),
            ),
    {
        let ghost start = self.position();
        let mut value: u64 = 0;
        let mut overflow = false;
        while self.pos < self.chars.len() && '0' <= self.chars[self.pos] && self.chars[self.pos] <= '9'
            invariant
                self.wf(),
                start <= self.position(),
                self.source() == old(self).source(),
                self.depth() == old(self).depth(),
                digits_end(self.source(), self.position()) == digits_end(self.source(), start),
                overflow ==> digits_value(self.source().subrange(start as int, self.position() as int)) > i32::MAX,
                !overflow ==> value == digits_value(self.source().subrange(start as int, self.position() as int)),
                !overflow ==> value <= i32::MAX,
            decreases self.source().len() - self.position(),
        {
            let c = self.chars[self.pos];
            {
                let ghost before = self.source().subrange(start as int, self.position() as int);
                let d = (c as u32 - '0' as u32) as u64;
                self.advance();
                let ghost after = self.source().subrange(start as int, self.position() as int);
                assert(after.drop_last() =~= before);
                if !overflow {
                    value = value * 10 + d;
                    if value > 2147483647 {
                        overflow = true;
                    }
                } else {
                    let ghost x = digits_value(before);
                    assert(x * 10 + digit_value(c) > i32::MAX) by (nonlinear_arith)
                        requires
                            x > i32::MAX,
                            digit_value(c) >= 0,
                    ;
                }
            }
        }
        if overflow {
            0
        } else {
            value as i32
        }
    }
    /// Yields the next token and moves past it.
    pub fn next_token(&mut self) -> (r: Token)
        requires
            old(self).wf(),
        ensures
            final(self).wf(),
            final(self).source() == old(self).source(),
            (r@, final(self).position(), final(self).depth()) == lex_step(
                old(self).source(),
                old(self).position(),
                old(self).depth(),
            ),
    {
        self.skip_whitespace();
        proof {
            lemma_run_end_bounds(self.source(), old(self).position(), |c: char| c == ' ');
        }
        match self.peek() {
            None => Token::Eof,
            Some(c) => {
                if c == '{' {
                    self.handle_left_brace()
                } else if c == '}' {
                    self.handle_right_brace()
                } else if c == '&' || c == '|' || c == '/' {
                    self.consume_double_symbol(c)
                } else {
                    match lone_char_token(c) {
                        Some(token) => self.consume_single_char(token),
                        None => {
                            if is_alphabetic(c) {
                                self.process_identifier()
                            } else if '0' <= c && c <= '9' {
                                let number = self.read_number();
                                Token::IntLiteral(number)
                            } else {
                                Token::Eof
                            }
                        },
                    }
                }
            },
        }
    }

    fn handle_left_brace(&mut self) -> (r: Token)
        requires
            old(self).wf(),
            old(self).position() < old(self).source().len(),
        ensures
            final(self).wf(),
            final(self).source() == old(self).source(),
            final(self).position() == old(self).position() + 1,
            final(self).depth() == old(self).depth() + 1,
            r@ == TokenView::LeftBrace,
    {
        let token = self.consume_single_char(Token::LeftBrace);
        self.brace_counter = self.brace_counter + 1;
        token
    }

    /// A closing brace: the body-closed marker when it closes the outermost
    /// brace, else an inner closing brace. An unmatched one leaves the depth at zero.
    fn handle_right_brace(&mut self) -> (r: Token)
        requires
            old(self).wf(),
            old(self).position() < old(self).source().len(),
        ensures
            final(self).wf(),
            final(self).source() == old(self).source(),
            final(self).position() == old(self).position() + 1,
            old(self).depth() == 0 ==> final(self).depth() == 0,
            old(self).depth() > 0 ==> final(self).depth() == old(self).depth() - 1,
            r@ == (if old(self).depth() == 1 {
                TokenView::IdentifierClosed
            } else {
                TokenView::RightBrace
            }),
    {
        if self.brace_counter > 0 {
            self.brace_counter = self.brace_counter - 1;
            if self.brace_counter == 0 {
                return self.consume_single_char(Token::IdentifierClosed);
            }
        }
        self.consume_single_char(Token::RightBrace)
    }

    fn consume_single_char(&mut self, token: Token) -> (r: Token)
        requires
            old(self).wf(),
            old(self).position() < old(self).source().len(),
        ensures
            final(self).wf(),
            final(self).source() == old(self).source(),
            final(self).position() == old(self).position() + 1,
            final(self).depth() == old(self).depth(),
            r == token,
    {
        self.advance();
        token
    }

    /// Consumes the current character, and the next one too where it is
    /// `expected`, yielding `token1` then, else `token2`.
    fn consume_double_char(&mut self, expected: char, token1: Token, token2: Token) -> (r: Token)
        requires
            old(self).wf(),
            old(self).position() < old(self).source().len(),
        ensures
            final(self).wf(),
            final(self).source() == old(self).source(),
            final(self).depth() == old(self).depth(),
            ({
                let cs = old(self).source();
                let p = old(self).position();
                if p + 1 < cs.len() && cs[p + 1 as int] == expected {
                    r == token1 && final(self).position() == p + 2
                } else {
                    r == token2 && final(self).position() == p + 1
                }
            }),
    {
        self.advance();
        if let Some(next_char) = self.peek() {
            if next_char == expected {
                self.advance();
                return token1;
            }
        }
        token2
    }

    fn consume_double_symbol(&mut self, symbol: char) -> (r: Token)
        requires
            old(self).wf(),
            old(self).position() < old(self).source().len(),
            symbol == '&' || symbol == '|' || symbol == '/',
        ensures
            final(self).wf(),
            final(self).source() == old(self).source(),
            final(self).depth() == old(self).depth(),
            ({
                let cs = old(self).source();
                let p = old(self).position();
                if p + 1 < cs.len() && cs[p + 1 as int] == symbol {
                    r@ == double_symbol_tokens(symbol).0 && final(self).position() == p + 2
                } else {
                    r@ == double_symbol_tokens(symbol).1 && final(self).position() == p + 1
                }
            }),
    {
        if symbol == '&' {
            self.consume_double_char('&', Token::DoubleAmpersand, Token::Ampersand)
        } else if symbol == '|' {
            self.consume_double_char('|', Token::DoubleVerticalBar, Token::VerticalBar)
        } else {
            self.consume_double_char('/', Token::Comment, Token::Slash)
        }
    }

    /// Reads a word that starts with an alphabetic character and classifies it.
    fn process_identifier(&mut self) -> (r: Token)
        requires
            old(self).wf(),
            old(self).position() < old(self).source().len(),
            alphabetic(old(self).source()[old(self).position() as int]),
        ensures
            final(self).wf(),
            final(self).source() == old(self).source(),
            final(self).depth() == old(self).depth(),
            final(self).position() == word_end(old(self).source(), old(self).position() + 1),
            r@ == word_token(
                old(self).source().subrange(
                    old(self).position() as int,
                    final(self).position() as int,
                ),
            ),
    {
        let identifier = self.read_identifier();
        classify_word(identifier)
    }

    /// All tokens up to, not including, the end of input.
    pub fn analyse_source(self) -> (r: Vec<Token>)
        requires
            self.wf(),
        ensures
            token_views(r@) == lex_all(self.source(), self.position(), self.depth()),
    {
        let ghost cs = self.source();
        let ghost p0 = self.position();
        let ghost d0 = self.depth();
        let mut lexer = self;
        let mut tokens: Vec<Token> = Vec::new();
        loop
            invariant
                lexer.wf(),
                lexer.source() == cs,
                cs == self.source(),
                p0 == self.position(),
                d0 == self.depth(),
                token_views(tokens@) + lex_all(cs, lexer.position(), lexer.depth()) == lex_all(cs, p0, d0),
            decreases cs.len() - lexer.position(),
        {
            let ghost p = lexer.position();
            let ghost d = lexer.depth();
            proof {
                lemma_step_advances(cs, p, d);
            }
            let token = lexer.next_token();
            if let Token::Eof = token {
                assert(lex_all(cs, p, d) == Seq::<TokenView>::empty());
                assert(token_views(tokens@) =~= lex_all(cs, p0, d0));
                return tokens;
            }
            proof {
                assert(p < cs.len());
                assert(lex_all(cs, p, d) == seq![token@] + lex_all(cs, lexer.position(), lexer.depth()));
            }
            let ghost before = tokens@;
            tokens.push(token);
            proof {
                assert(token_views(tokens@) =~= token_views(before) + seq![token@]);
                assert(token_views(tokens@) + lex_all(cs, lexer.position(), lexer.depth())
                    =~= token_views(before) + lex_all(cs, p, d));
            }
        }
    }
}

/// A keyword or type name for the reserved words, else an identifier.
fn classify_word(word: String) -> (r: Token)
    ensures
        r@ == word_token(word@),
{
    if word == "fun".to_owned() {
        Token::Fun
    } else if word == "struct".to_owned() {
        Token::Struct
    } else if word == "var".to_owned() {
        Token::Var
    } else if word == "const".to_owned() {
        Token::Const
    } else if word == "int".to_owned() {
        Token::IntType
    } else if word == "float".to_owned() {
        Token::FloatType
    } else if word == "return".to_owned() {
        Token::Return
    } else {
        Token::Identifier(word)
    }
}

/// The token that a character standing alone yields, if it is one of those.
fn lone_char_token(c: char) -> (r: Option<Token>)
    ensures
        r is Some <==> single_char_token(c) is Some,
        r is Some ==> r->0@ == single_char_token(c)->0,
{
    match c {
        ':' => Some(Token::Colon),
        '(' => Some(Token::LeftParen),
        ')' => Some(Token::RightParen),
        ',' => Some(Token::Comma),
        ';' => Some(Token::Semicolon),
        '.' => Some(Token::Dot),
        '=' => Some(Token::Equals),
        '+' => Some(Token::Plus),
        '-' => Some(Token::Minus),
        '*' => Some(Token::Asterisk),
        '%' => Some(Token::Percent),
        '!' => Some(Token::Exclamation),
        '<' => Some(Token::LessThan),
        '>' => Some(Token::GreaterThan),
        '\n' => Some(Token::LineEnd),
        _ => None,
    }
}

/// The tokens of `source`, up to, not including, the end of input.
pub fn tokenize(source: &str) -> (r: Vec<Token>)
    ensures
        token_views(r@) == tokens_of(source@),
{
    Lexer::new(source).analyse_source()
}

// ---------------------------------------------------------------------------
// Laws of the tokenizer

/// Tokenizing is deterministic: two tokenizations of the same text yield the
/// same token sequence.
pub proof fn lemma_tokenize_deterministic(s: &str, t: &str, r1: Seq<Token>, r2: Seq<Token>)
    requires
        s@ == t@,
        token_views(r1) == tokens_of(s@),
        token_views(r2) == tokens_of(t@),
    ensures
        token_views(r1) == token_views(r2),
        r1.len() == r2.len(),
{
    assert(r1.len() == token_views(r1).len());
    assert(r2.len() == token_views(r2).len());
}

/// `&&` is one doubled-ampersand token, and `&` followed by any other
/// character, or by nothing, is one single-ampersand token.
pub proof fn lemma_ampersand(c: char)
    requires
        c != '&',
    ensures
        tokens_of(seq!['&', '&']) == seq![TokenView::DoubleAmpersand],
        lex_step(seq!['&', c], 0, 0) == (TokenView::Ampersand, 1nat, 0nat),
        tokens_of(seq!['&']) == seq![TokenView::Ampersand],
{
    let cs = seq!['&', '&'];
    assert(space_end(cs, 0) == 0);
    assert(space_end(cs, 2) == 2);
    assert(lex_all(cs, 2, 0) == Seq::<TokenView>::empty());
    assert(tokens_of(cs) =~= seq![TokenView::DoubleAmpersand]);
    let ds = seq!['&', c];
    assert(space_end(ds, 0) == 0);
    let es = seq!['&'];
    assert(space_end(es, 0) == 0);
    assert(space_end(es, 1) == 1);
    assert(lex_all(es, 1, 0) == Seq::<TokenView>::empty());
    assert(tokens_of(es) =~= seq![TokenView::Ampersand]);
}

/// A closing brace yields the body-closed marker exactly when it closes the
/// outermost open brace; any other closing brace yields an inner closing brace.
pub proof fn lemma_closing_brace(cs: Seq<char>, pos: nat, depth: nat)
    requires
        space_end(cs, pos) < cs.len(),
        cs[space_end(cs, pos) as int] == '}',
    ensures
        lex_step(cs, pos, depth).0 is IdentifierClosed <==> depth == 1,
        lex_step(cs, pos, depth).0 is RightBrace <==> depth != 1,
{
}

/// `n` brace pairs side by side, with no nesting: `{}{}...`.
pub open spec fn brace_pairs(n: nat) -> Seq<char> {
    Seq::new(2 * n, |i: int| if i % 2 == 0 { '{' } else { '}' })
}

/// The tokens of `n` brace pairs side by side: each pair opens a brace and
/// closes the body.
pub open spec fn closed_pairs(n: nat) -> Seq<TokenView> {
    Seq::new(
        2 * n,
        |i: int| if i % 2 == 0 { TokenView::LeftBrace } else { TokenView::IdentifierClosed },
    )
}

/// `n` brace pairs with no nesting give `n` body-closed markers and no inner
/// closing brace.
pub proof fn lemma_flat_braces(n: nat)
    ensures
        tokens_of(brace_pairs(n)) == closed_pairs(n),
        forall|i: int|
            0 <= i < tokens_of(brace_pairs(n)).len() ==> #[trigger] tokens_of(brace_pairs(n))[i]
                !is RightBrace,
        tokens_of(brace_pairs(n)).filter(|t: TokenView| t is IdentifierClosed).len() == n,
{
    lemma_flat_braces_from(n, 0);
    lemma_count_closed(n);
}

proof fn lemma_flat_braces_from(n: nat, k: nat)
    requires
        k <= n,
    ensures
        lex_all(brace_pairs(n), 2 * k, 0) == closed_pairs(n).subrange(2 * k as int, 2 * n as int),
    decreases n - k,
{
    let cs = brace_pairs(n);
    if k == n {
        assert(space_end(cs, 2 * k) == 2 * k);
        assert(closed_pairs(n).subrange(2 * k as int, 2 * n as int) =~= Seq::<TokenView>::empty());
    } else {
        lemma_flat_braces_from(n, k + 1);
        let p = 2 * k;
        assert(cs[p as int] == '{');
        assert(cs[p + 1 as int] == '}');
        assert(space_end(cs, p) == p);
        assert(space_end(cs, p + 1) == p + 1);
        assert(lex_step(cs, p, 0) == (TokenView::LeftBrace, p + 1, 1nat));
        assert(lex_step(cs, p + 1, 1) == (TokenView::IdentifierClosed, p + 2, 0nat));
        assert(p + 2 == 2 * (k + 1));
        assert(lex_all(cs, p + 1, 1) == seq![TokenView::IdentifierClosed] + lex_all(cs, p + 2, 0));
        assert(lex_all(cs, p, 0) == seq![TokenView::LeftBrace] + lex_all(cs, p + 1, 1));
        assert(closed_pairs(n).subrange(2 * k as int, 2 * n as int) =~= seq![
            TokenView::LeftBrace,
            TokenView::IdentifierClosed,
        ] + closed_pairs(n).subrange(2 * (k + 1) as int, 2 * n as int));
    }
}

proof fn lemma_count_closed(n: nat)
    ensures
        closed_pairs(n).filter(|t: TokenView| t is IdentifierClosed).len() == n,
    decreases n,
{
    let f = |t: TokenView| t is IdentifierClosed;
    if n > 0 {
        lemma_count_closed((n - 1) as nat);
        let s = closed_pairs(n);
        let prev = closed_pairs((n - 1) as nat);
        assert(s.drop_last().drop_last() =~= prev);
        assert(s.drop_last() =~= prev.push(TokenView::LeftBrace));
        assert(s =~= prev.push(TokenView::LeftBrace).push(TokenView::IdentifierClosed));
        prev.lemma_filter_push(TokenView::LeftBrace, f);
        prev.push(TokenView::LeftBrace).lemma_filter_push(TokenView::IdentifierClosed, f);
    } else {
        assert(closed_pairs(n) =~= Seq::<TokenView>::empty());
        assert(closed_pairs(n).filter(f) =~= Seq::<TokenView>::empty());
    }
}

} // verus!


