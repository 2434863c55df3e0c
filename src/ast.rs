//! Tree builder: tokens to declarations, statements and precedence-tagged
//! expression fragments.
use vstd::prelude::*;
use vstd::string::StringExecFns;
use crate::lexer::{Token, TokenView, token_views, token_label, push_char};

verus! {

/// A top-level declaration.
#[derive(Debug, PartialEq)]
pub enum AstNode {
    Struct(StructNode),
    Function(FunctionNode),
    MainFunction(MainFunctionNode),
}

#[derive(Debug, PartialEq)]
pub struct StructNode {
    pub name: String,
    pub fields: Vec<FieldNode>,
}

#[derive(Debug, PartialEq)]
pub struct FieldNode {
    pub name: String,
    pub data_type: TypeNode,
}

#[derive(Debug, PartialEq)]
pub struct FunctionNode {
    pub name: String,
    pub parameters: Vec<ParameterNode>,
    pub return_type: TypeNode,
    pub body: Vec<StatementNode>,
}

/// The function with the reserved entry-point name.
#[derive(Debug, PartialEq)]
pub struct MainFunctionNode {
    pub function: FunctionNode,
}

#[derive(Debug, PartialEq)]
pub struct ParameterNode {
    pub name: String,
    pub data_type: TypeNode,
}

#[derive(Debug, PartialEq, Eq, Clone, Copy, Structural)]
pub enum TypeNode {
    IntType,
    FloatType,
}

#[derive(Debug, PartialEq)]
pub enum StatementNode {
    Assignment(AssignmentNode),
    /// A statement form that is not lowered yet, with a note on where it stands.
    NeedsToBeImplemented(String),
}

#[derive(Debug, PartialEq)]
pub struct AssignmentNode {
    pub variable: String,
    pub expressions: Vec<Expression>,
}

/// A token of an expression with the precedence of the operator it stands for.
#[derive(Debug, PartialEq)]
pub struct Expression {
    pub token: Token,
    pub precedence: Precedence,
}

/// Operator precedence, lowest first.
#[derive(Debug, PartialEq, Eq, PartialOrd, Ord, Clone, Copy, Structural)]
pub enum Precedence {
    Lowest,
    Assignment,
    Conditional,
    /// Addition and subtraction.
    Sum,
    /// Multiplication and division.
    Product,
    Prefix,
    Postfix,
    Call,
    Index,
    /// Parentheses.
    Braces,
    Highest,
}

/// Why building the tree failed.
#[derive(Debug, PartialEq, Eq, Clone, Copy, Structural)]
pub enum ParseError {
    /// The tokens ended where more were needed.
    UnexpectedEnd,
    /// The token at this index stands where a type name is required.
    ExpectedType(usize),
}

// ---------------------------------------------------------------------------
// Models

pub struct StructView {
    pub name: Seq<char>,
    pub fields: Seq<(Seq<char>, TypeNode)>,
}

pub struct FunctionView {
    pub name: Seq<char>,
    pub parameters: Seq<(Seq<char>, TypeNode)>,
    pub return_type: TypeNode,
    pub body: Seq<StatementView>,
}

pub enum StatementView {
    Assignment(Seq<char>, Seq<(TokenView, Precedence)>),
    NeedsToBeImplemented(Seq<char>),
}

pub enum AstView {
    Struct(StructView),
    Function(FunctionView),
    MainFunction(FunctionView),
}

impl View for TypeNode {
    type V = TypeNode;

    open spec fn view(&self) -> TypeNode {
        *self
    }
}

impl View for FieldNode {
    type V = (Seq<char>, TypeNode);

    open spec fn view(&self) -> (Seq<char>, TypeNode) {
        (self.name@, self.data_type)
    }
}

impl View for ParameterNode {
    type V = (Seq<char>, TypeNode);

    open spec fn view(&self) -> (Seq<char>, TypeNode) {
        (self.name@, self.data_type)
    }
}

impl View for StructNode {
    type V = StructView;

    open spec fn view(&self) -> StructView {
        StructView { name: self.name@, fields: self.fields@.map_values(|f: FieldNode| f@) }
    }
}

impl View for Expression {
    type V = (TokenView, Precedence);

    open spec fn view(&self) -> (TokenView, Precedence) {
        (self.token@, self.precedence)
    }
}

impl View for StatementNode {
    type V = StatementView;

    open spec fn view(&self) -> StatementView {
        match self {
            StatementNode::Assignment(a) => StatementView::Assignment(
                a.variable@,
                a.expressions@.map_values(|e: Expression| e@),
            ),
            StatementNode::NeedsToBeImplemented(note) => StatementView::NeedsToBeImplemented(note@),
        }
    }
}

impl View for FunctionNode {
    type V = FunctionView;

    open spec fn view(&self) -> FunctionView {
        FunctionView {
            name: self.name@,
            parameters: self.parameters@.map_values(|p: ParameterNode| p@),
            return_type: self.return_type,
            body: self.body@.map_values(|s: StatementNode| s@),
        }
    }
}

impl View for MainFunctionNode {
    type V = FunctionView;

    open spec fn view(&self) -> FunctionView {
        self.function@
    }
}

impl View for AstNode {
    type V = AstView;

    open spec fn view(&self) -> AstView {
        match self {
            AstNode::Struct(s) => AstView::Struct(s@),
            AstNode::Function(f) => AstView::Function(f@),
            AstNode::MainFunction(m) => AstView::MainFunction(m@),
        }
    }
}

/// An exec result against a modelled one: the same value and cursor, or the same error.
pub open spec fn outcome<T: View>(
    r: Result<T, ParseError>,
    cursor: usize,
    s: Result<(T::V, nat), ParseError>,
) -> bool {
    match s {
        Ok((v, j)) => r matches Ok(x) && x@ == v && cursor == j,
        Err(e) => r == Err::<T, ParseError>(e),
    }
}

// ---------------------------------------------------------------------------
// Token classes that the builders step over

/// A class of tokens, run over by `skip_tokens_while`.
#[derive(Debug, PartialEq, Eq, Clone, Copy, Structural)]
pub enum TokenClass {
    Struct,
    StructOrIdentifier,
    FunOrIdentifier,
    Identifier,
    LeftBrace,
    RightBrace,
    LeftParen,
    RightParen,
    Colon,
    ColonOrComma,
    Comma,
    Equals,
    Semicolon,
    /// Every token but `;`.
    AnyButSemicolon,
    VarOrConst,
    Return,
    IntType,
    FloatType,
}

pub open spec fn class_holds(c: TokenClass, t: TokenView) -> bool {
    match c {
        TokenClass::Struct => t is Struct,
        TokenClass::StructOrIdentifier => t is Struct || t is Identifier,
        TokenClass::FunOrIdentifier => t is Fun || t is Identifier,
        TokenClass::Identifier => t is Identifier,
        TokenClass::LeftBrace => t is LeftBrace,
        TokenClass::RightBrace => t is RightBrace,
        TokenClass::LeftParen => t is LeftParen,
        TokenClass::RightParen => t is RightParen,
        TokenClass::Colon => t is Colon,
        TokenClass::ColonOrComma => t is Colon || t is Comma,
        TokenClass::Comma => t is Comma,
        TokenClass::Equals => t is Equals,
        TokenClass::Semicolon => t is Semicolon,
        TokenClass::AnyButSemicolon => !(t is Semicolon),
        TokenClass::VarOrConst => t is Var || t is Const,
        TokenClass::Return => t is Return,
        TokenClass::IntType => t is IntType,
        TokenClass::FloatType => t is FloatType,
    }
}

/// The end of the run of tokens of class `c` that starts at `i`.
pub open spec fn skip_end(ts: Seq<TokenView>, i: nat, c: TokenClass) -> nat
    decreases ts.len() - i,
{
    if i < ts.len() && class_holds(c, ts[i as int]) {
        skip_end(ts, i + 1, c)
    } else {
        i
    }
}

/// Stepping over a run of class `c`: the cursor after it, or the end of
/// tokens where the run reaches it.
pub open spec fn skip_run(ts: Seq<TokenView>, i: nat, c: TokenClass) -> Result<nat, ParseError> {
    if skip_end(ts, i, c) < ts.len() {
        Ok(skip_end(ts, i, c))
    } else {
        Err(ParseError::UnexpectedEnd)
    }
}

// ---------------------------------------------------------------------------
// The grammar, as functions from a token sequence and a cursor to a node and
// the cursor after it

pub open spec fn precedence_of(t: TokenView) -> Precedence {
    match t {
        TokenView::Plus | TokenView::Minus => Precedence::Sum,
        TokenView::Asterisk | TokenView::Slash => Precedence::Product,
        TokenView::LeftParen => Precedence::Braces,
        _ => Precedence::Lowest,
    }
}

/// A type name, and the run of the same type name that it starts.
pub open spec fn type_spec(ts: Seq<TokenView>, i: nat) -> Result<(TypeNode, nat), ParseError> {
    if i >= ts.len() {
        Err(ParseError::UnexpectedEnd)
    } else if ts[i as int] is IntType {
        match skip_run(ts, i, TokenClass::IntType) {
            Ok(j) => Ok((TypeNode::IntType, j)),
            Err(e) => Err(e),
        }
    } else if ts[i as int] is FloatType {
        match skip_run(ts, i, TokenClass::FloatType) {
            Ok(j) => Ok((TypeNode::FloatType, j)),
            Err(e) => Err(e),
        }
    } else {
        Err(ParseError::ExpectedType(i as usize))
    }
}

/// The tokens up to the next `;`, each with its precedence; the cursor stops on the `;`.
pub open spec fn fragments_spec(ts: Seq<TokenView>, i: nat) -> Result<
    (Seq<(TokenView, Precedence)>, nat),
    ParseError,
> {
    match skip_run(ts, i, TokenClass::AnyButSemicolon) {
        Ok(j) => Ok(
            (ts.subrange(i as int, j as int).map_values(|t: TokenView| (t, precedence_of(t))), j),
        ),
        Err(e) => Err(e),
    }
}

/// The decimal digit `d`.
pub open spec fn digit_char(d: nat) -> char {
    if d == 0 {
        '0'
    } else if d == 1 {
        '1'
    } else if d == 2 {
        '2'
    } else if d == 3 {
        '3'
    } else if d == 4 {
        '4'
    } else if d == 5 {
        '5'
    } else if d == 6 {
        '6'
    } else if d == 7 {
        '7'
    } else if d == 8 {
        '8'
    } else {
        '9'
    }
}

/// `n` in decimal.
pub open spec fn decimal(n: nat) -> Seq<char>
    decreases n,
{
    if n < 10 {
        seq![digit_char(n)]
    } else {
        decimal(n / 10).push(digit_char(n % 10))
    }
}

/// The note of a statement that is not lowered: its kind and the token index.
pub open spec fn note(kind: Seq<char>, i: nat) -> Seq<char> {
    kind + " statements at token index "@ + decimal(i)
}

/// One statement of a function body.
pub open spec fn statement_spec(ts: Seq<TokenView>, i: nat) -> Result<(StatementView, nat), ParseError> {
    if i >= ts.len() {
        Err(ParseError::UnexpectedEnd)
    } else {
        match ts[i as int] {
            TokenView::Identifier(target) => match skip_run(ts, i, TokenClass::Identifier) {
                Err(e) => Err(e),
                Ok(j1) => match skip_run(ts, j1, TokenClass::Equals) {
                    Err(e) => Err(e),
                    Ok(j2) => match fragments_spec(ts, j2) {
                        Err(e) => Err(e),
                        Ok((fragments, j3)) => match skip_run(ts, j3, TokenClass::Semicolon) {
                            Err(e) => Err(e),
                            Ok(j4) => Ok((StatementView::Assignment(target, fragments), j4)),
                        },
                    },
                },
            },
            TokenView::Var | TokenView::Const => match skip_run(ts, i, TokenClass::VarOrConst) {
                Err(e) => Err(e),
                Ok(j) => Ok((StatementView::NeedsToBeImplemented(note("Var and Const"@, j)), j)),
            },
            TokenView::Return => match skip_run(ts, i, TokenClass::Return) {
                Err(e) => Err(e),
                Ok(j) => Ok((StatementView::NeedsToBeImplemented(note("Return"@, j)), j)),
            },
            t => Ok((StatementView::NeedsToBeImplemented(note(token_label(t), i)), i)),
        }
    }
}

/// The cursor after a statement: past what it consumed, or one token on
/// where it consumed nothing.
pub open spec fn next_statement_start(i: nat, j: nat) -> nat {
    if j > i {
        j
    } else {
        i + 1
    }
}

/// Statements up to the body-closed marker; the cursor stops on the marker.
pub open spec fn body_spec(ts: Seq<TokenView>, i: nat) -> Result<(Seq<StatementView>, nat), ParseError>
    decreases ts.len() - i,
{
    if i >= ts.len() {
        Err(ParseError::UnexpectedEnd)
    } else if ts[i as int] is IdentifierClosed {
        Ok((Seq::empty(), i))
    } else {
        match statement_spec(ts, i) {
            Err(e) => Err(e),
            Ok((s, j)) => match body_spec(ts, next_statement_start(i, j)) {
                Err(e) => Err(e),
                Ok((rest, k)) => Ok((seq![s] + rest, k)),
            },
        }
    }
}

/// After a field or parameter name: `:` (the run of class `colon`) and a
/// type, where a `:` follows.
pub open spec fn entry_type_spec(ts: Seq<TokenView>, i: nat, colon: TokenClass) -> Result<
    (Option<TypeNode>, nat),
    ParseError,
> {
    if i < ts.len() && ts[i as int] is Colon {
        match skip_run(ts, i, colon) {
            Err(e) => Err(e),
            Ok(j) => match type_spec(ts, j) {
                Err(e) => Err(e),
                Ok((t, k)) => Ok((Some(t), k)),
            },
        }
    } else {
        Ok((None, i))
    }
}

/// Fields or parameters: while the cursor is on an identifier, a name, its
/// type where a `:` follows, and any commas.
pub open spec fn entries_spec(ts: Seq<TokenView>, i: nat, colon: TokenClass) -> Result<
    (Seq<(Seq<char>, TypeNode)>, nat),
    ParseError,
>
    decreases ts.len() - i,
    via entries_decreases
{
    if i >= ts.len() {
        Err(ParseError::UnexpectedEnd)
    } else {
        match ts[i as int] {
            TokenView::Identifier(name) => match skip_run(ts, i, TokenClass::Identifier) {
                Err(e) => Err(e),
                Ok(j1) => match entry_type_spec(ts, j1, colon) {
                    Err(e) => Err(e),
                    Ok((ty, j2)) => match skip_run(ts, j2, TokenClass::Comma) {
                        Err(e) => Err(e),
                        Ok(j3) => match entries_spec(ts, j3, colon) {
                            Err(e) => Err(e),
                            Ok((rest, k)) => Ok(
                                (
                                    if ty is Some {
                                        seq![(name, ty->0)] + rest
                                    } else {
                                        rest
                                    },
                                    k,
                                ),
                            ),
                        },
                    },
                },
            },
            _ => Ok((Seq::empty(), i)),
        }
    }
}

/// The declared name after the keyword at `i`, and the cursor after the run
/// of class `c` that covers keyword and name; an empty name where no
/// identifier follows the keyword, the cursor then staying.
pub open spec fn header_spec(ts: Seq<TokenView>, i: nat, c: TokenClass) -> Result<(Seq<char>, nat), ParseError> {
    if i + 1 >= ts.len() {
        Err(ParseError::UnexpectedEnd)
    } else {
        match ts[i + 1 as int] {
            TokenView::Identifier(name) => match skip_run(ts, i, c) {
                Err(e) => Err(e),
                Ok(j) => Ok((name, j)),
            },
            _ => Ok((Seq::empty(), i)),
        }
    }
}

/// `struct NAME { fields }`; the cursor stops on the token after the fields
/// and any inner closing braces, the struct's closing marker.
pub open spec fn struct_spec(ts: Seq<TokenView>, i: nat) -> Result<(StructView, nat), ParseError> {
    match header_spec(ts, i, TokenClass::StructOrIdentifier) {
        Err(e) => Err(e),
        Ok((name, j0)) => match skip_run(ts, j0, TokenClass::LeftBrace) {
            Err(e) => Err(e),
            Ok(j1) => match entries_spec(ts, j1, TokenClass::Colon) {
                Err(e) => Err(e),
                Ok((fields, j2)) => match skip_run(ts, j2, TokenClass::RightBrace) {
                    Err(e) => Err(e),
                    Ok(j3) => Ok((StructView { name, fields }, j3)),
                },
            },
        },
    }
}

/// Parameters: where the cursor is on `(`, the run of `(` and the entries after it.
pub open spec fn parameters_spec(ts: Seq<TokenView>, i: nat) -> Result<
    (Seq<(Seq<char>, TypeNode)>, nat),
    ParseError,
> {
    if i < ts.len() && ts[i as int] is LeftParen {
        match skip_run(ts, i, TokenClass::LeftParen) {
            Err(e) => Err(e),
            Ok(j) => entries_spec(ts, j, TokenClass::ColonOrComma),
        }
    } else {
        Ok((Seq::empty(), i))
    }
}

/// The return type: each `:` and type that follows replaces `current`.
pub open spec fn return_type_spec(ts: Seq<TokenView>, i: nat, current: TypeNode) -> Result<
    (TypeNode, nat),
    ParseError,
>
    decreases ts.len() - i,
    via return_type_decreases
{
    if i >= ts.len() {
        Err(ParseError::UnexpectedEnd)
    } else if ts[i as int] is Colon {
        match skip_run(ts, i, TokenClass::Colon) {
            Err(e) => Err(e),
            Ok(j) => match type_spec(ts, j) {
                Err(e) => Err(e),
                Ok((t, k)) => return_type_spec(ts, k, t),
            },
        }
    } else {
        Ok((current, i))
    }
}

/// `fun NAME (parameters) : type { body }`; the return type is `int` where
/// none is given, and the cursor stops on the body-closed marker.
pub open spec fn function_spec(ts: Seq<TokenView>, i: nat) -> Result<(FunctionView, nat), ParseError> {
    match header_spec(ts, i, TokenClass::FunOrIdentifier) {
        Err(e) => Err(e),
        Ok((name, j0)) => match parameters_spec(ts, j0) {
            Err(e) => Err(e),
            Ok((parameters, j1)) => match skip_run(ts, j1, TokenClass::RightParen) {
                Err(e) => Err(e),
                Ok(j2) => match return_type_spec(ts, j2, TypeNode::IntType) {
                    Err(e) => Err(e),
                    Ok((return_type, j3)) => match skip_run(ts, j3, TokenClass::LeftBrace) {
                        Err(e) => Err(e),
                        Ok(j4) => match body_spec(ts, j4) {
                            Err(e) => Err(e),
                            Ok((body, j5)) => Ok(
                                (FunctionView { name, parameters, return_type, body }, j5),
                            ),
                        },
                    },
                },
            },
        },
    }
}

/// A function declaration: the main function where its name is `main`.
pub open spec fn function_declaration(name: Seq<char>, f: FunctionView) -> AstView {
    if name == "main"@ {
        AstView::MainFunction(f)
    } else {
        AstView::Function(f)
    }
}

pub open spec fn prepend(d: AstView, rest: Result<Seq<AstView>, ParseError>) -> Result<
    Seq<AstView>,
    ParseError,
> {
    match rest {
        Ok(ds) => Ok(seq![d] + ds),
        Err(e) => Err(e),
    }
}

/// The declaration that the token at cursor `i` starts, if any, and the
/// cursor where its builder stopped: `struct` starts a struct, `fun` followed
/// by a name a function, any other token none.
pub open spec fn declaration_spec(ts: Seq<TokenView>, i: nat) -> Result<
    (Option<AstView>, nat),
    ParseError,
> {
    if i >= ts.len() {
        Err(ParseError::UnexpectedEnd)
    } else {
        match ts[i as int] {
            TokenView::Struct => match struct_spec(ts, i) {
                Err(e) => Err(e),
                Ok((s, j)) => Ok((Some(AstView::Struct(s)), j)),
            },
            TokenView::Fun => if i + 1 >= ts.len() {
                Err(ParseError::UnexpectedEnd)
            } else {
                match ts[i + 1 as int] {
                    TokenView::Identifier(name) => match function_spec(ts, i) {
                        Err(e) => Err(e),
                        Ok((f, j)) => Ok((Some(function_declaration(name, f)), j)),
                    },
                    _ => Ok((None, i)),
                }
            },
            _ => Ok((None, i)),
        }
    }
}

/// The declarations from cursor `i` on; after each token that starts one,
/// or not, the scan goes on past the token where the builder stopped.
pub open spec fn declarations_spec(ts: Seq<TokenView>, i: nat) -> Result<Seq<AstView>, ParseError>
    decreases ts.len() - i,
    via declarations_decreases
{
    if i >= ts.len() {
        Ok(Seq::empty())
    } else {
        match declaration_spec(ts, i) {
            Err(e) => Err(e),
            Ok((Some(d), j)) => prepend(d, declarations_spec(ts, j + 1)),
            Ok((None, j)) => declarations_spec(ts, j + 1),
        }
    }
}

/// The declaration tree of a token sequence.
pub open spec fn tree_of(ts: Seq<TokenView>) -> Result<Seq<AstView>, ParseError> {
    declarations_spec(ts, 0)
}

// ---------------------------------------------------------------------------
// The builders never move the cursor back

proof fn lemma_skip_end(ts: Seq<TokenView>, i: nat, c: TokenClass)
    ensures
        skip_end(ts, i, c) >= i,
        i < ts.len() && class_holds(c, ts[i as int]) ==> skip_end(ts, i, c) > i,
        skip_end(ts, i, c) < ts.len() ==> !class_holds(c, ts[skip_end(ts, i, c) as int]),
        forall|k: int| i <= k < skip_end(ts, i, c) ==> class_holds(c, #[trigger] ts[k]),
    decreases ts.len() - i,
{
    if i < ts.len() && class_holds(c, ts[i as int]) {
        lemma_skip_end(ts, i + 1, c);
    }
}

proof fn lemma_type_advances(ts: Seq<TokenView>, i: nat)
    ensures
        type_spec(ts, i) matches Ok((_, j)) ==> j > i && j < ts.len(),
{
    lemma_skip_end(ts, i, TokenClass::IntType);
    lemma_skip_end(ts, i, TokenClass::FloatType);
}

proof fn lemma_entry_type_advances(ts: Seq<TokenView>, i: nat, colon: TokenClass)
    ensures
        entry_type_spec(ts, i, colon) matches Ok((_, j)) ==> j >= i,
{
    lemma_skip_end(ts, i, colon);
    if i < ts.len() && ts[i as int] is Colon {
        if let Ok(j) = skip_run(ts, i, colon) {
            lemma_type_advances(ts, j);
        }
    }
}

#[via_fn]
proof fn entries_decreases(ts: Seq<TokenView>, i: nat, colon: TokenClass) {
    if i < ts.len() && ts[i as int] is Identifier {
        lemma_skip_end(ts, i, TokenClass::Identifier);
        if let Ok(j1) = skip_run(ts, i, TokenClass::Identifier) {
            lemma_entry_type_advances(ts, j1, colon);
            if let Ok((_, j2)) = entry_type_spec(ts, j1, colon) {
                lemma_skip_end(ts, j2, TokenClass::Comma);
            }
        }
    }
}

proof fn lemma_entries_advances(ts: Seq<TokenView>, i: nat, colon: TokenClass)
    ensures
        entries_spec(ts, i, colon) matches Ok((_, j)) ==> j >= i,
    decreases ts.len() - i,
{
    if i < ts.len() && ts[i as int] is Identifier {
        lemma_skip_end(ts, i, TokenClass::Identifier);
        if let Ok(j1) = skip_run(ts, i, TokenClass::Identifier) {
            lemma_entry_type_advances(ts, j1, colon);
            if let Ok((_, j2)) = entry_type_spec(ts, j1, colon) {
                lemma_skip_end(ts, j2, TokenClass::Comma);
                if let Ok(j3) = skip_run(ts, j2, TokenClass::Comma) {
                    lemma_entries_advances(ts, j3, colon);
                }
            }
        }
    }
}

#[via_fn]
proof fn return_type_decreases(ts: Seq<TokenView>, i: nat, current: TypeNode) {
    lemma_skip_end(ts, i, TokenClass::Colon);
    if let Ok(j) = skip_run(ts, i, TokenClass::Colon) {
        lemma_type_advances(ts, j);
    }
}

proof fn lemma_return_type_advances(ts: Seq<TokenView>, i: nat, current: TypeNode)
    ensures
        return_type_spec(ts, i, current) matches Ok((_, j)) ==> j >= i,
    decreases ts.len() - i,
{
    if i < ts.len() && ts[i as int] is Colon {
        lemma_skip_end(ts, i, TokenClass::Colon);
        if let Ok(j) = skip_run(ts, i, TokenClass::Colon) {
            lemma_type_advances(ts, j);
            if let Ok((t, k)) = type_spec(ts, j) {
                lemma_return_type_advances(ts, k, t);
            }
        }
    }
}

proof fn lemma_body_advances(ts: Seq<TokenView>, i: nat)
    ensures
        body_spec(ts, i) matches Ok((_, j)) ==> j >= i && j < ts.len(),
    decreases ts.len() - i,
{
    if i < ts.len() && !(ts[i as int] is IdentifierClosed) {
        if let Ok((_, j)) = statement_spec(ts, i) {
            lemma_body_advances(ts, next_statement_start(i, j));
        }
    }
}

proof fn lemma_header_advances(ts: Seq<TokenView>, i: nat, c: TokenClass)
    ensures
        header_spec(ts, i, c) matches Ok((_, j)) ==> j >= i,
{
    lemma_skip_end(ts, i, c);
}

proof fn lemma_struct_advances(ts: Seq<TokenView>, i: nat)
    ensures
        struct_spec(ts, i) matches Ok((_, j)) ==> j >= i,
{
    lemma_header_advances(ts, i, TokenClass::StructOrIdentifier);
    if let Ok((_, j0)) = header_spec(ts, i, TokenClass::StructOrIdentifier) {
        lemma_skip_end(ts, j0, TokenClass::LeftBrace);
        if let Ok(j1) = skip_run(ts, j0, TokenClass::LeftBrace) {
            lemma_entries_advances(ts, j1, TokenClass::Colon);
            if let Ok((_, j2)) = entries_spec(ts, j1, TokenClass::Colon) {
                lemma_skip_end(ts, j2, TokenClass::RightBrace);
            }
        }
    }
}

proof fn lemma_function_advances(ts: Seq<TokenView>, i: nat)
    ensures
        function_spec(ts, i) matches Ok((_, j)) ==> j >= i && j < ts.len(),
{
    lemma_header_advances(ts, i, TokenClass::FunOrIdentifier);
    if let Ok((_, j0)) = header_spec(ts, i, TokenClass::FunOrIdentifier) {
        lemma_skip_end(ts, j0, TokenClass::LeftParen);
        if let Ok(j) = skip_run(ts, j0, TokenClass::LeftParen) {
            lemma_entries_advances(ts, j, TokenClass::ColonOrComma);
        }
        if let Ok((_, j1)) = parameters_spec(ts, j0) {
            lemma_skip_end(ts, j1, TokenClass::RightParen);
            if let Ok(j2) = skip_run(ts, j1, TokenClass::RightParen) {
                lemma_return_type_advances(ts, j2, TypeNode::IntType);
                if let Ok((_, j3)) = return_type_spec(ts, j2, TypeNode::IntType) {
                    lemma_skip_end(ts, j3, TokenClass::LeftBrace);
                    if let Ok(j4) = skip_run(ts, j3, TokenClass::LeftBrace) {
                        lemma_body_advances(ts, j4);
                    }
                }
            }
        }
    }
}

proof fn lemma_declaration_advances(ts: Seq<TokenView>, i: nat)
    ensures
        declaration_spec(ts, i) matches Ok((_, j)) ==> i <= j < ts.len(),
{
    lemma_struct_advances(ts, i);
    lemma_function_advances(ts, i);
}

#[via_fn]
proof fn declarations_decreases(ts: Seq<TokenView>, i: nat) {
    lemma_declaration_advances(ts, i);
}

proof fn lemma_statement_advances(ts: Seq<TokenView>, i: nat)
    ensures
        statement_spec(ts, i) matches Ok((_, j)) ==> j >= i,
{
    lemma_skip_end(ts, i, TokenClass::Identifier);
    lemma_skip_end(ts, i, TokenClass::VarOrConst);
    lemma_skip_end(ts, i, TokenClass::Return);
    if let Ok(j1) = skip_run(ts, i, TokenClass::Identifier) {
        lemma_skip_end(ts, j1, TokenClass::Equals);
        if let Ok(j2) = skip_run(ts, j1, TokenClass::Equals) {
            lemma_skip_end(ts, j2, TokenClass::AnyButSemicolon);
            if let Ok((_, j3)) = fragments_spec(ts, j2) {
                lemma_skip_end(ts, j3, TokenClass::Semicolon);
            }
        }
    }
}

// ---------------------------------------------------------------------------
// Laws of the tree builder

/// The builders never move the cursor backward: where one succeeds, the
/// cursor it leaves is at or after the one it started from, and within the
/// tokens.
pub proof fn lemma_builders_never_move_back(ts: Seq<TokenView>, i: nat)
    ensures
        type_spec(ts, i) matches Ok((_, j)) ==> i < j < ts.len(),
        statement_spec(ts, i) matches Ok((_, j)) ==> i <= j,
        body_spec(ts, i) matches Ok((_, j)) ==> i <= j < ts.len(),
        struct_spec(ts, i) matches Ok((_, j)) ==> i <= j < ts.len(),
        function_spec(ts, i) matches Ok((_, j)) ==> i <= j < ts.len(),
{
    lemma_type_advances(ts, i);
    lemma_statement_advances(ts, i);
    lemma_body_advances(ts, i);
    lemma_struct_advances(ts, i);
    lemma_function_advances(ts, i);
    if let Ok((_, j)) = struct_spec(ts, i) {
        let (_, j0) = header_spec(ts, i, TokenClass::StructOrIdentifier)->Ok_0;
        let j1 = skip_run(ts, j0, TokenClass::LeftBrace)->Ok_0;
        let (_, j2) = entries_spec(ts, j1, TokenClass::Colon)->Ok_0;
        assert(skip_run(ts, j2, TokenClass::RightBrace) == Ok::<nat, ParseError>(j));
    }
}

/// A `var` or `const` statement does not fail the pass: wherever a token of
/// another kind follows the keywords, it is a placeholder statement, and the
/// cursor moves past the keywords.
pub proof fn lemma_binding_is_placeholder(ts: Seq<TokenView>, i: nat)
    requires
        i < ts.len(),
        ts[i as int] is Var || ts[i as int] is Const,
        skip_end(ts, i, TokenClass::VarOrConst) < ts.len(),
    ensures
        statement_spec(ts, i) matches Ok((StatementView::NeedsToBeImplemented(_), j)) && j > i,
{
    lemma_skip_end(ts, i, TokenClass::VarOrConst);
}

// ---------------------------------------------------------------------------
// The builders

impl TokenClass {
    /// Whether `t` is of this class.
    pub fn holds(&self, t: &Token) -> (r: bool)
        ensures
            r == class_holds(*self, t@),
    {
        match self {
            TokenClass::Struct => matches!(t, Token::Struct),
            TokenClass::StructOrIdentifier => matches!(t, Token::Struct | Token::Identifier(_)),
            TokenClass::FunOrIdentifier => matches!(t, Token::Fun | Token::Identifier(_)),
            TokenClass::Identifier => matches!(t, Token::Identifier(_)),
            TokenClass::LeftBrace => matches!(t, Token::LeftBrace),
            TokenClass::RightBrace => matches!(t, Token::RightBrace),
            TokenClass::LeftParen => matches!(t, Token::LeftParen),
            TokenClass::RightParen => matches!(t, Token::RightParen),
            TokenClass::Colon => matches!(t, Token::Colon),
            TokenClass::ColonOrComma => matches!(t, Token::Colon | Token::Comma),
            TokenClass::Comma => matches!(t, Token::Comma),
            TokenClass::Equals => matches!(t, Token::Equals),
            TokenClass::Semicolon => matches!(t, Token::Semicolon),
            TokenClass::AnyButSemicolon => !matches!(t, Token::Semicolon),
            TokenClass::VarOrConst => matches!(t, Token::Var | Token::Const),
            TokenClass::Return => matches!(t, Token::Return),
            TokenClass::IntType => matches!(t, Token::IntType),
            TokenClass::FloatType => matches!(t, Token::FloatType),
        }
    }
}

/// Moves the cursor over the run of tokens of class `class`; fails where the
/// run reaches the end of the tokens.
pub fn skip_tokens_while(index: &mut usize, tokens: &[Token], class: TokenClass) -> (r: Result<
    (),
    ParseError,
>)
    ensures
        match skip_run(token_views(tokens@), *old(index) as nat, class) {
            Ok(j) => r is Ok && *final(index) == j,
            Err(e) => r == Err::<(), ParseError>(e),
        },
{
    let ghost ts = token_views(tokens@);
    let ghost start = *index as nat;
    while *index < tokens.len() && class.holds(&tokens[*index])
        invariant
            ts == token_views(tokens@),
            skip_end(ts, *index as nat, class) == skip_end(ts, start, class),
        decreases tokens.len() - *index,
    {
        *index = *index + 1;
    }
    if *index < tokens.len() {
        Ok(())
    } else {
        Err(ParseError::UnexpectedEnd)
    }
}

/// A type name at the cursor; the cursor moves past the run of that same
/// type name.
pub fn create_type_ast(index: &mut usize, tokens: &[Token]) -> (r: Result<TypeNode, ParseError>)
    ensures
        outcome(r, *final(index), type_spec(token_views(tokens@), *old(index) as nat)),
{
    if *index >= tokens.len() {
        return Err(ParseError::UnexpectedEnd);
    }
    match &tokens[*index] {
        Token::IntType => match skip_tokens_while(index, tokens, TokenClass::IntType) {
            Ok(()) => Ok(TypeNode::IntType),
            Err(e) => Err(e),
        },
        Token::FloatType => match skip_tokens_while(index, tokens, TokenClass::FloatType) {
            Ok(()) => Ok(TypeNode::FloatType),
            Err(e) => Err(e),
        },
        _ => Err(ParseError::ExpectedType(*index)),
    }
}

pub fn precedence_of_operator(operator: &Token) -> (r: Precedence)
    ensures
        r == precedence_of(operator@),
{
    match operator {
        Token::Plus | Token::Minus => Precedence::Sum,
        Token::Asterisk | Token::Slash => Precedence::Product,
        Token::LeftParen => Precedence::Braces,
        _ => Precedence::Lowest,
    }
}

/// The tokens up to the next `;`, each tagged with its precedence; the
/// cursor stops on the `;`.
pub fn get_current_expression(index: &mut usize, tokens: &[Token]) -> (r: Result<
    Vec<Expression>,
    ParseError,
>)
    ensures
        match fragments_spec(token_views(tokens@), *old(index) as nat) {
            Ok((fs, j)) => r matches Ok(v) && v@.map_values(|e: Expression| e@) == fs
                && *final(index) == j,
            Err(e) => r matches Err(x) && x == e,
        },
{
    let ghost ts = token_views(tokens@);
    let ghost start = *index as nat;
    proof {
        lemma_skip_end(ts, start, TokenClass::AnyButSemicolon);
    }
    if *index >= tokens.len() {
        return Err(ParseError::UnexpectedEnd);
    }
    let mut expressions: Vec<Expression> = Vec::new();
    while *index < tokens.len() && !matches!(tokens[*index], Token::Semicolon)
        invariant
            ts == token_views(tokens@),
            start <= *index <= tokens.len(),
            skip_end(ts, *index as nat, TokenClass::AnyButSemicolon) == skip_end(
                ts,
                start,
                TokenClass::AnyButSemicolon,
            ),
            expressions@.len() == *index - start,
            forall|k: int|
                0 <= k < expressions@.len() ==> #[trigger] expressions@[k]@ == (
                    ts[start + k],
                    precedence_of(ts[start + k]),
                ),
        decreases tokens.len() - *index,
    {
        let token = tokens[*index].duplicate();
        let precedence = precedence_of_operator(&token);
        expressions.push(Expression { token, precedence });
        *index = *index + 1;
    }
    assert(expressions@.map_values(|e: Expression| e@) =~= ts.subrange(
        start as int,
        *index as int,
    ).map_values(|t: TokenView| (t, precedence_of(t))));
    if *index < tokens.len() {
        Ok(expressions)
    } else {
        Err(ParseError::UnexpectedEnd)
    }
}

/// The expression of an assignment, as precedence-tagged fragments.
pub fn parse_expressions(index: &mut usize, tokens: &[Token]) -> (r: Result<
    Vec<Expression>,
    ParseError,
>)
    ensures
        match fragments_spec(token_views(tokens@), *old(index) as nat) {
            Ok((fs, j)) => r matches Ok(v) && v@.map_values(|e: Expression| e@) == fs
                && *final(index) == j,
            Err(e) => r matches Err(x) && x == e,
        },
{
    get_current_expression(index, tokens)
}

fn digit_char_of(d: usize) -> (r: char)
    requires
        d < 10,
    ensures
        r == digit_char(d as nat),
{
    match d {
        0 => '0',
        1 => '1',
        2 => '2',
        3 => '3',
        4 => '4',
        5 => '5',
        6 => '6',
        7 => '7',
        8 => '8',
        _ => '9',
    }
}

/// Appends `n` in decimal.
fn push_decimal(s: &mut String, n: usize)
    ensures
        final(s)@ == old(s)@ + decimal(n as nat),
    decreases n,
{
    if n >= 10 {
        push_decimal(s, n / 10);
    }
    let ghost mid = s@;
    push_char(s, digit_char_of(n % 10));
    proof {
        if n >= 10 {
            assert(s@ =~= old(s)@ + decimal(n as nat));
        } else {
            assert(s@ =~= old(s)@ + decimal(n as nat));
        }
    }
}

/// The note of a statement that is not lowered.
fn make_note(kind: &str, i: usize) -> (r: String)
    ensures
        r@ == note(kind@, i as nat),
{
    let mut s = kind.to_owned();
    s.append(" statements at token index ");
    push_decimal(&mut s, i);
    s
}

/// One statement of a function body. An assignment `target = fragments ;`
/// is lowered; `var`, `const` and `return` statements, and any other token,
/// give a placeholder with a note, the last without moving the cursor.
pub fn create_statement_ast(index: &mut usize, tokens: &[Token]) -> (r: Result<
    StatementNode,
    ParseError,
>)
    ensures
        outcome(r, *final(index), statement_spec(token_views(tokens@), *old(index) as nat)),
{
    if *index >= tokens.len() {
        return Err(ParseError::UnexpectedEnd);
    }
    match &tokens[*index] {
        Token::Identifier(identifier) => {
            let variable = identifier.clone();
            if let Err(e) = skip_tokens_while(index, tokens, TokenClass::Identifier) {
                return Err(e);
            }
            if let Err(e) = skip_tokens_while(index, tokens, TokenClass::Equals) {
                return Err(e);
            }
            let expressions = match parse_expressions(index, tokens) {
                Ok(v) => v,
                Err(e) => return Err(e),
            };
            if let Err(e) = skip_tokens_while(index, tokens, TokenClass::Semicolon) {
                return Err(e);
            }
            Ok(StatementNode::Assignment(AssignmentNode { variable, expressions }))
        },
        Token::Var | Token::Const => {
            if let Err(e) = skip_tokens_while(index, tokens, TokenClass::VarOrConst) {
                return Err(e);
            }
            Ok(StatementNode::NeedsToBeImplemented(make_note("Var and Const", *index)))
        },
        Token::Return => {
            if let Err(e) = skip_tokens_while(index, tokens, TokenClass::Return) {
                return Err(e);
            }
            Ok(StatementNode::NeedsToBeImplemented(make_note("Return", *index)))
        },
        other => Ok(StatementNode::NeedsToBeImplemented(make_note(other.label(), *index))),
    }
}

/// The name after the keyword at the cursor, and the cursor moved over the
/// run of class `class` that covers both.
fn read_header(index: &mut usize, tokens: &[Token], class: TokenClass) -> (r: Result<
    String,
    ParseError,
>)
    ensures
        match header_spec(token_views(tokens@), *old(index) as nat, class) {
            Ok((name, j)) => r matches Ok(x) && x@ == name && *final(index) == j,
            Err(e) => r == Err::<String, ParseError>(e),
        },
{
    if *index >= tokens.len() || *index + 1 >= tokens.len() {
        return Err(ParseError::UnexpectedEnd);
    }
    match &tokens[*index + 1] {
        Token::Identifier(name) => {
            let name = name.clone();
            match skip_tokens_while(index, tokens, class) {
                Ok(()) => Ok(name),
                Err(e) => Err(e),
            }
        },
        _ => Ok(String::new()),
    }
}

/// `struct NAME { NAME: TYPE, ... }`: the cursor stops on the struct's
/// closing marker.
pub fn create_struct_ast(index: &mut usize, tokens: &[Token]) -> (r: Result<
    StructNode,
    ParseError,
>)
    ensures
        outcome(r, *final(index), struct_spec(token_views(tokens@), *old(index) as nat)),
{
    let ghost ts = token_views(tokens@);
    let ghost start = *index as nat;
    let name = match read_header(index, tokens, TokenClass::StructOrIdentifier) {
        Ok(n) => n,
        Err(e) => return Err(e),
    };
    if let Err(e) = skip_tokens_while(index, tokens, TokenClass::LeftBrace) {
        return Err(e);
    }
    let ghost total = entries_spec(ts, *index as nat, TokenClass::Colon);
    let mut fields: Vec<FieldNode> = Vec::new();
    loop
        invariant
            ts == token_views(tokens@),
            start == *old(index),
            *index < tokens.len(),
            struct_spec(ts, start) == match total {
                Err(e) => Err(e),
                Ok((fields, j2)) => match skip_run(ts, j2, TokenClass::RightBrace) {
                    Err(e) => Err(e),
                    Ok(j3) => Ok((StructView { name: name@, fields }, j3)),
                },
            },
            match entries_spec(ts, *index as nat, TokenClass::Colon) {
                Ok((rest, k)) => total == Ok::<(Seq<(Seq<char>, TypeNode)>, nat), ParseError>(
                    (fields@.map_values(|f: FieldNode| f@) + rest, k),
                ),
                Err(e) => total == Err::<(Seq<(Seq<char>, TypeNode)>, nat), ParseError>(e),
            },
        ensures
            !(ts[*index as int] is Identifier),
        decreases tokens.len() - *index,
    {
        let field_name = match &tokens[*index] {
            Token::Identifier(n) => n.clone(),
            _ => break,
        };
        let ghost i0 = *index as nat;
        let ghost before = fields@.map_values(|f: FieldNode| f@);
        let ghost cur = entries_spec(ts, i0, TokenClass::Colon);
        assert(cur is Err ==> total == cur);
        proof {
            lemma_skip_end(ts, i0, TokenClass::Identifier);
        }
        if let Err(e) = skip_tokens_while(index, tokens, TokenClass::Identifier) {
            assert(cur == Err::<(Seq<(Seq<char>, TypeNode)>, nat), ParseError>(e));
            return Err(e);
        }
        let ghost j1 = *index as nat;
        proof {
            lemma_entry_type_advances(ts, j1, TokenClass::Colon);
        }
        if matches!(tokens[*index], Token::Colon) {
            if let Err(e) = skip_tokens_while(index, tokens, TokenClass::Colon) {
                assert(cur == Err::<(Seq<(Seq<char>, TypeNode)>, nat), ParseError>(e));
                return Err(e);
            }
            let data_type = match create_type_ast(index, tokens) {
                Ok(t) => t,
                Err(e) => {
                    assert(cur == Err::<(Seq<(Seq<char>, TypeNode)>, nat), ParseError>(e));
                    return Err(e);
                },
            };
            fields.push(FieldNode { name: field_name, data_type });
        }
        let ghost j2 = *index as nat;
        proof {
            lemma_skip_end(ts, j2, TokenClass::Comma);
        }
        if let Err(e) = skip_tokens_while(index, tokens, TokenClass::Comma) {
            assert(cur == Err::<(Seq<(Seq<char>, TypeNode)>, nat), ParseError>(e));
            return Err(e);
        }
        proof {
            if let Ok((rest, k)) = entries_spec(ts, *index as nat, TokenClass::Colon) {
                let now = fields@.map_values(|f: FieldNode| f@);
                if let Ok((Some(t), _)) = entry_type_spec(ts, j1, TokenClass::Colon) {
                    assert(now =~= before.push(fields@.last()@));
                    assert(before + (seq![now.last()] + rest) =~= now + rest);
                } else {
                    assert(now =~= before);
                }
            }
        }
    }
    assert(fields@.map_values(|f: FieldNode| f@) + Seq::empty() =~= fields@.map_values(
        |f: FieldNode| f@,
    ));
    if let Err(e) = skip_tokens_while(index, tokens, TokenClass::RightBrace) {
        return Err(e);
    }
    Ok(StructNode { name, fields })
}

/// Parameters: where the cursor is on `(`, that run and then, while the
/// cursor is on an identifier, a name, `:` and a type, and any commas.
fn create_parameters(index: &mut usize, tokens: &[Token]) -> (r: Result<
    Vec<ParameterNode>,
    ParseError,
>)
    ensures
        match parameters_spec(token_views(tokens@), *old(index) as nat) {
            Ok((ps, j)) => r matches Ok(v) && v@.map_values(|p: ParameterNode| p@) == ps
                && *final(index) == j,
            Err(e) => r matches Err(x) && x == e,
        },
{
    let ghost ts = token_views(tokens@);
    let mut parameters: Vec<ParameterNode> = Vec::new();
    if !(*index < tokens.len() && matches!(tokens[*index], Token::LeftParen)) {
        assert(parameters@.map_values(|p: ParameterNode| p@) =~= Seq::empty());
        return Ok(parameters);
    }
    if let Err(e) = skip_tokens_while(index, tokens, TokenClass::LeftParen) {
        return Err(e);
    }
    let ghost total = entries_spec(ts, *index as nat, TokenClass::ColonOrComma);
    assert(total == parameters_spec(ts, *old(index) as nat));
    loop
        invariant
            ts == token_views(tokens@),
            total == parameters_spec(ts, *old(index) as nat),
            *index < tokens.len(),
            match entries_spec(ts, *index as nat, TokenClass::ColonOrComma) {
                Ok((rest, k)) => total == Ok::<(Seq<(Seq<char>, TypeNode)>, nat), ParseError>(
                    (parameters@.map_values(|p: ParameterNode| p@) + rest, k),
                ),
                Err(e) => total == Err::<(Seq<(Seq<char>, TypeNode)>, nat), ParseError>(e),
            },
        ensures
            !(ts[*index as int] is Identifier),
        decreases tokens.len() - *index,
    {
        let param_name = match &tokens[*index] {
            Token::Identifier(n) => n.clone(),
            _ => break,
        };
        let ghost i0 = *index as nat;
        let ghost before = parameters@.map_values(|p: ParameterNode| p@);
        let ghost cur = entries_spec(ts, i0, TokenClass::ColonOrComma);
        assert(cur is Err ==> total == cur);
        proof {
            lemma_skip_end(ts, i0, TokenClass::Identifier);
        }
        if let Err(e) = skip_tokens_while(index, tokens, TokenClass::Identifier) {
            assert(cur == Err::<(Seq<(Seq<char>, TypeNode)>, nat), ParseError>(e));
            return Err(e);
        }
        let ghost j1 = *index as nat;
        proof {
            lemma_entry_type_advances(ts, j1, TokenClass::ColonOrComma);
        }
        if matches!(tokens[*index], Token::Colon) {
            if let Err(e) = skip_tokens_while(index, tokens, TokenClass::ColonOrComma) {
                assert(cur == Err::<(Seq<(Seq<char>, TypeNode)>, nat), ParseError>(e));
                return Err(e);
            }
            let data_type = match create_type_ast(index, tokens) {
                Ok(t) => t,
                Err(e) => {
                    assert(cur == Err::<(Seq<(Seq<char>, TypeNode)>, nat), ParseError>(e));
                    return Err(e);
                },
            };
            parameters.push(ParameterNode { name: param_name, data_type });
        }
        let ghost j2 = *index as nat;
        proof {
            lemma_skip_end(ts, j2, TokenClass::Comma);
        }
        if let Err(e) = skip_tokens_while(index, tokens, TokenClass::Comma) {
            assert(cur == Err::<(Seq<(Seq<char>, TypeNode)>, nat), ParseError>(e));
            return Err(e);
        }
        proof {
            if let Ok((rest, k)) = entries_spec(ts, *index as nat, TokenClass::ColonOrComma) {
                let now = parameters@.map_values(|p: ParameterNode| p@);
                if let Ok((Some(t), _)) = entry_type_spec(ts, j1, TokenClass::ColonOrComma) {
                    assert(now =~= before.push(parameters@.last()@));
                    assert(before + (seq![now.last()] + rest) =~= now + rest);
                } else {
                    assert(now =~= before);
                }
            }
        }
    }
    assert(parameters@.map_values(|p: ParameterNode| p@) + Seq::empty() =~= parameters@.map_values(
        |p: ParameterNode| p@,
    ));
    Ok(parameters)
}

/// The return type: `int` unless `:` and a type follow; each further `:`
/// and type replaces it.
fn create_return_type(index: &mut usize, tokens: &[Token]) -> (r: Result<TypeNode, ParseError>)
    ensures
        outcome(
            r,
            *final(index),
            return_type_spec(token_views(tokens@), *old(index) as nat, TypeNode::IntType),
        ),
{
    let ghost ts = token_views(tokens@);
    let ghost total = return_type_spec(ts, *index as nat, TypeNode::IntType);
    let mut return_type = TypeNode::IntType;
    if *index >= tokens.len() {
        return Err(ParseError::UnexpectedEnd);
    }
    while matches!(tokens[*index], Token::Colon)
        invariant
            ts == token_views(tokens@),
            total == return_type_spec(ts, *old(index) as nat, TypeNode::IntType),
            *index < tokens.len(),
            total == return_type_spec(ts, *index as nat, return_type),
        decreases tokens.len() - *index,
    {
        let ghost i0 = *index as nat;
        proof {
            lemma_skip_end(ts, i0, TokenClass::Colon);
        }
        if let Err(e) = skip_tokens_while(index, tokens, TokenClass::Colon) {
            return Err(e);
        }
        proof {
            lemma_type_advances(ts, *index as nat);
        }
        return_type = match create_type_ast(index, tokens) {
            Ok(t) => t,
            Err(e) => return Err(e),
        };
    }
    Ok(return_type)
}

/// Statements up to the body-closed marker, on which the cursor stops. A
/// statement that consumed nothing is stepped over.
fn create_body(index: &mut usize, tokens: &[Token]) -> (r: Result<Vec<StatementNode>, ParseError>)
    ensures
        match body_spec(token_views(tokens@), *old(index) as nat) {
            Ok((body, j)) => r matches Ok(v) && v@.map_values(|s: StatementNode| s@) == body
                && *final(index) == j,
            Err(e) => r matches Err(x) && x == e,
        },
{
    let ghost ts = token_views(tokens@);
    let ghost total = body_spec(ts, *index as nat);
    let mut body: Vec<StatementNode> = Vec::new();
    if *index >= tokens.len() {
        return Err(ParseError::UnexpectedEnd);
    }
    loop
        invariant
            ts == token_views(tokens@),
            total == body_spec(ts, *old(index) as nat),
            *index <= tokens.len(),
            match body_spec(ts, *index as nat) {
                Ok((rest, k)) => total == Ok::<(Seq<StatementView>, nat), ParseError>(
                    (body@.map_values(|s: StatementNode| s@) + rest, k),
                ),
                Err(e) => total == Err::<(Seq<StatementView>, nat), ParseError>(e),
            },
        ensures
            *index < tokens.len(),
            ts[*index as int] is IdentifierClosed,
        decreases tokens.len() - *index,
    {
        if *index >= tokens.len() {
            return Err(ParseError::UnexpectedEnd);
        }
        if matches!(tokens[*index], Token::IdentifierClosed) {
            break;
        }
        let ghost i0 = *index as nat;
        let ghost before = body@.map_values(|s: StatementNode| s@);
        let ghost cur = body_spec(ts, i0);
        assert(cur is Err ==> total == cur);
        let start = *index;
        let statement = match create_statement_ast(index, tokens) {
            Ok(s) => s,
            Err(e) => {
                assert(cur == Err::<(Seq<StatementView>, nat), ParseError>(e));
                return Err(e);
            },
        };
        if *index <= start {
            *index = start + 1;
        }
        body.push(statement);
        proof {
            let now = body@.map_values(|s: StatementNode| s@);
            assert(now =~= before.push(body@.last()@));
            if let Ok((rest, k)) = body_spec(ts, *index as nat) {
                assert(before + (seq![now.last()] + rest) =~= now + rest);
            }
        }
    }
    assert(body@.map_values(|s: StatementNode| s@) + Seq::empty() =~= body@.map_values(
        |s: StatementNode| s@,
    ));
    Ok(body)
}

/// `fun NAME (parameters) : TYPE { statements }`: the cursor stops on the
/// body-closed marker.
pub fn create_function_ast(index: &mut usize, tokens: &[Token]) -> (r: Result<
    FunctionNode,
    ParseError,
>)
    ensures
        outcome(r, *final(index), function_spec(token_views(tokens@), *old(index) as nat)),
{
    let name = match read_header(index, tokens, TokenClass::FunOrIdentifier) {
        Ok(n) => n,
        Err(e) => return Err(e),
    };
    let parameters = match create_parameters(index, tokens) {
        Ok(ps) => ps,
        Err(e) => return Err(e),
    };
    if let Err(e) = skip_tokens_while(index, tokens, TokenClass::RightParen) {
        return Err(e);
    }
    let return_type = match create_return_type(index, tokens) {
        Ok(t) => t,
        Err(e) => return Err(e),
    };
    if let Err(e) = skip_tokens_while(index, tokens, TokenClass::LeftBrace) {
        return Err(e);
    }
    let body = match create_body(index, tokens) {
        Ok(b) => b,
        Err(e) => return Err(e),
    };
    Ok(FunctionNode { name, parameters, return_type, body })
}

/// The main function: a function declaration under the main marker.
pub fn create_main_ast(index: &mut usize, tokens: &[Token]) -> (r: Result<
    MainFunctionNode,
    ParseError,
>)
    ensures
        outcome(r, *final(index), function_spec(token_views(tokens@), *old(index) as nat)),
{
    match create_function_ast(index, tokens) {
        Ok(function) => Ok(MainFunctionNode { function }),
        Err(e) => Err(e),
    }
}

/// The declaration that the token at the cursor starts, if any; the cursor
/// stops where its builder stopped.
fn create_declaration(index: &mut usize, tokens: &[Token]) -> (r: Result<
    Option<AstNode>,
    ParseError,
>)
    ensures
        match declaration_spec(token_views(tokens@), *old(index) as nat) {
            Ok((d, j)) => r matches Ok(x) && *final(index) == j && (x is None <==> d is None) && (
            x matches Some(n) ==> d == Some(n@)),
            Err(e) => r matches Err(x) && x == e,
        },
{
    if *index >= tokens.len() {
        return Err(ParseError::UnexpectedEnd);
    }
    match &tokens[*index] {
        Token::Struct => match create_struct_ast(index, tokens) {
            Ok(node) => Ok(Some(AstNode::Struct(node))),
            Err(e) => Err(e),
        },
        Token::Fun => {
            if *index + 1 >= tokens.len() {
                return Err(ParseError::UnexpectedEnd);
            }
            if let Token::Identifier(name) = &tokens[*index + 1] {
                if *name == "main".to_owned() {
                    match create_main_ast(index, tokens) {
                        Ok(node) => Ok(Some(AstNode::MainFunction(node))),
                        Err(e) => Err(e),
                    }
                } else {
                    match create_function_ast(index, tokens) {
                        Ok(node) => Ok(Some(AstNode::Function(node))),
                        Err(e) => Err(e),
                    }
                }
            } else {
                Ok(None)
            }
        },
        _ => Ok(None),
    }
}

/// The declarations of a token sequence. Each `struct` starts a struct;
/// each `fun` followed by a name starts a function, the main function where
/// the name is `main`; any other token is passed over. After a declaration
/// the scan goes on past the token where its builder stopped.
pub fn create_ast(tokens: &[Token]) -> (r: Result<Vec<AstNode>, ParseError>)
    ensures
        match tree_of(token_views(tokens@)) {
            Ok(ds) => r matches Ok(v) && v@.map_values(|d: AstNode| d@) == ds,
            Err(e) => r matches Err(x) && x == e,
        },
{
    let ghost ts = token_views(tokens@);
    let ghost total = tree_of(ts);
    let mut ast: Vec<AstNode> = Vec::new();
    let mut index: usize = 0;
    while index < tokens.len()
        invariant
            ts == token_views(tokens@),
            total == tree_of(ts),
            index <= tokens.len(),
            match declarations_spec(ts, index as nat) {
                Ok(rest) => total == Ok::<Seq<AstView>, ParseError>(
                    ast@.map_values(|d: AstNode| d@) + rest,
                ),
                Err(e) => total == Err::<Seq<AstView>, ParseError>(e),
            },
        decreases tokens.len() - index,
    {
        let ghost i0 = index as nat;
        let ghost before = ast@.map_values(|d: AstNode| d@);
        let ghost cur = declarations_spec(ts, i0);
        assert(cur is Err ==> total == cur);
        proof {
            lemma_declaration_advances(ts, i0);
        }
        match create_declaration(&mut index, tokens) {
            Ok(Some(node)) => ast.push(node),
            Ok(None) => {},
            Err(e) => {
                assert(cur == Err::<Seq<AstView>, ParseError>(e));
                return Err(e);
            },
        }
        index = index + 1;
        proof {
            let now = ast@.map_values(|d: AstNode| d@);
            if now.len() > before.len() {
                assert(now =~= before.push(ast@.last()@));
                if let Ok(rest) = declarations_spec(ts, index as nat) {
                    assert(before + (seq![now.last()] + rest) =~= now + rest);
                }
            } else {
                assert(now =~= before);
            }
        }
    }
    assert(ast@.map_values(|d: AstNode| d@) + Seq::empty() =~= ast@.map_values(|d: AstNode| d@));
    Ok(ast)
}

} // verus!
