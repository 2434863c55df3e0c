use toylang::ast::{
    create_ast, create_function_ast, create_main_ast, create_statement_ast, create_struct_ast,
    create_type_ast, get_current_expression, parse_expressions, precedence_of_operator,
    skip_tokens_while, AssignmentNode, AstNode, Expression, FieldNode, ParameterNode, ParseError,
    Precedence, StatementNode, TokenClass, TypeNode,
};
use toylang::lexer::{tokenize, Token};

fn ident(s: &str) -> Token {
    Token::Identifier(s.to_string())
}

fn note(s: &str) -> StatementNode {
    StatementNode::NeedsToBeImplemented(s.to_string())
}

#[test]
fn struct_with_two_fields() {
    let tokens = tokenize("struct test { a: int, b: int, }");
    let ast = create_ast(&tokens).unwrap();
    assert_eq!(ast.len(), 1);
    match &ast[0] {
        AstNode::Struct(s) => {
            assert_eq!(s.name, "test");
            assert_eq!(
                s.fields,
                vec![
                    FieldNode { name: "a".to_string(), data_type: TypeNode::IntType },
                    FieldNode { name: "b".to_string(), data_type: TypeNode::IntType },
                ]
            );
        }
        other => panic!("expected a struct, got {:?}", other),
    }
}

#[test]
fn struct_builder_stops_on_closing_marker() {
    let tokens = tokenize("struct point { x: float y: int }");
    let mut index: usize = 0;
    let s = create_struct_ast(&mut index, &tokens).unwrap();
    assert_eq!(s.name, "point");
    assert_eq!(
        s.fields,
        vec![
            FieldNode { name: "x".to_string(), data_type: TypeNode::FloatType },
            FieldNode { name: "y".to_string(), data_type: TypeNode::IntType },
        ]
    );
    assert_eq!(index, tokens.len() - 1);
    assert_eq!(tokens[index], Token::IdentifierClosed);
}

#[test]
fn function_with_assignment() {
    let tokens = tokenize("fun add(a: int, b: int): int { result = a + b; }");
    let ast = create_ast(&tokens).unwrap();
    assert_eq!(ast.len(), 1);
    match &ast[0] {
        AstNode::Function(f) => {
            assert_eq!(f.name, "add");
            assert_eq!(
                f.parameters,
                vec![
                    ParameterNode { name: "a".to_string(), data_type: TypeNode::IntType },
                    ParameterNode { name: "b".to_string(), data_type: TypeNode::IntType },
                ]
            );
            assert_eq!(f.return_type, TypeNode::IntType);
            assert_eq!(
                f.body,
                vec![StatementNode::Assignment(AssignmentNode {
                    variable: "result".to_string(),
                    expressions: vec![
                        Expression { token: ident("a"), precedence: Precedence::Lowest },
                        Expression { token: Token::Plus, precedence: Precedence::Sum },
                        Expression { token: ident("b"), precedence: Precedence::Lowest },
                    ],
                })]
            );
        }
        other => panic!("expected a function, got {:?}", other),
    }
}

#[test]
fn var_statement_is_a_placeholder() {
    let tokens = tokenize("fun f() { var x = 1; }");
    let ast = create_ast(&tokens).unwrap();
    assert_eq!(ast.len(), 1);
    match &ast[0] {
        AstNode::Function(f) => {
            assert_eq!(f.body.len(), 2);
            assert_eq!(f.body[0], note("Var and Const statements at token index 6"));
            assert_eq!(
                f.body[1],
                StatementNode::Assignment(AssignmentNode {
                    variable: "x".to_string(),
                    expressions: vec![Expression {
                        token: Token::IntLiteral(1),
                        precedence: Precedence::Lowest,
                    }],
                })
            );
        }
        other => panic!("expected a function, got {:?}", other),
    }
}

#[test]
fn return_statement_is_a_placeholder() {
    let tokens = tokenize("fun f(a: int, b: int) { return a; }");
    let mut index: usize = 0;
    let f = create_function_ast(&mut index, &tokens).unwrap();
    assert_eq!(index, 15);
    assert_eq!(f.body.len(), 2);
    assert_eq!(f.body[0], note("Return statements at token index 13"));
    assert_eq!(
        f.body[1],
        StatementNode::Assignment(AssignmentNode { variable: "a".to_string(), expressions: vec![] })
    );
}

#[test]
fn unknown_statement_is_stepped_over() {
    let tokens = tokenize("fun f() { 5; }");
    let ast = create_ast(&tokens).unwrap();
    match &ast[0] {
        AstNode::Function(f) => {
            assert_eq!(
                f.body,
                vec![
                    note("IntLiteral statements at token index 5"),
                    note("Semicolon statements at token index 6"),
                ]
            );
        }
        other => panic!("expected a function, got {:?}", other),
    }
}

#[test]
fn statement_builder_on_unknown_token_keeps_cursor() {
    let tokens = tokenize("fun f() { * }");
    let mut index: usize = 5;
    let s = create_statement_ast(&mut index, &tokens).unwrap();
    assert_eq!(s, note("Asterisk statements at token index 5"));
    assert_eq!(index, 5);
}

#[test]
fn main_function_and_default_return_type() {
    let tokens = tokenize("fun main() { x = 1; }\nstruct s { a: float }");
    let ast = create_ast(&tokens).unwrap();
    assert_eq!(ast.len(), 2);
    match &ast[0] {
        AstNode::MainFunction(m) => {
            assert_eq!(m.function.name, "main");
            assert!(m.function.parameters.is_empty());
            assert_eq!(m.function.return_type, TypeNode::IntType);
            assert_eq!(m.function.body.len(), 1);
        }
        other => panic!("expected the main function, got {:?}", other),
    }
    match &ast[1] {
        AstNode::Struct(s) => assert_eq!(s.name, "s"),
        other => panic!("expected a struct, got {:?}", other),
    }
    let mut index: usize = 0;
    let m = create_main_ast(&mut index, &tokens).unwrap();
    assert_eq!(m.function.name, "main");
}

#[test]
fn float_return_type() {
    let tokens = tokenize("fun half(x: float): float { y = x / 2; }");
    let ast = create_ast(&tokens).unwrap();
    match &ast[0] {
        AstNode::Function(f) => {
            assert_eq!(f.return_type, TypeNode::FloatType);
            assert_eq!(f.parameters[0].data_type, TypeNode::FloatType);
        }
        other => panic!("expected a function, got {:?}", other),
    }
}

#[test]
fn precedence_table() {
    let tokens = tokenize("r = (a * b) - c / d;");
    let mut index: usize = 2;
    let fragments = parse_expressions(&mut index, &tokens).unwrap();
    let precedences: Vec<Precedence> = fragments.iter().map(|e| e.precedence).collect();
    assert_eq!(
        precedences,
        vec![
            Precedence::Braces,
            Precedence::Lowest,
            Precedence::Product,
            Precedence::Lowest,
            Precedence::Lowest,
            Precedence::Sum,
            Precedence::Lowest,
            Precedence::Product,
            Precedence::Lowest,
        ]
    );
    assert_eq!(tokens[index], Token::Semicolon);
    assert_eq!(precedence_of_operator(&Token::Minus), Precedence::Sum);
    assert_eq!(precedence_of_operator(&Token::Percent), Precedence::Lowest);
}

#[test]
fn expression_without_semicolon_fails() {
    let tokens = tokenize("a + b");
    let mut index: usize = 0;
    assert_eq!(get_current_expression(&mut index, &tokens), Err(ParseError::UnexpectedEnd));
}

#[test]
fn missing_type_is_an_error() {
    let tokens = tokenize("struct s { a: b }");
    assert_eq!(create_ast(&tokens), Err(ParseError::ExpectedType(5)));
    let mut index: usize = 0;
    assert_eq!(create_type_ast(&mut index, &tokens), Err(ParseError::ExpectedType(0)));
}

#[test]
fn type_builder_consumes_a_run() {
    let tokens = vec![Token::IntType, Token::IntType, Token::Comma];
    let mut index: usize = 0;
    assert_eq!(create_type_ast(&mut index, &tokens), Ok(TypeNode::IntType));
    assert_eq!(index, 2);
    let tokens = vec![Token::FloatType];
    let mut index: usize = 0;
    assert_eq!(create_type_ast(&mut index, &tokens), Err(ParseError::UnexpectedEnd));
}

#[test]
fn unfinished_function_is_an_error() {
    let tokens = tokenize("fun f() {");
    assert_eq!(create_ast(&tokens), Err(ParseError::UnexpectedEnd));
    let tokens = tokenize("fun");
    assert_eq!(create_ast(&tokens), Err(ParseError::UnexpectedEnd));
}

#[test]
fn other_top_level_tokens_are_passed_over() {
    let tokens = tokenize("// note\nx fun 1 struct s { }");
    let ast = create_ast(&tokens).unwrap();
    assert_eq!(ast.len(), 1);
    match &ast[0] {
        AstNode::Struct(s) => {
            assert_eq!(s.name, "s");
            assert!(s.fields.is_empty());
        }
        other => panic!("expected a struct, got {:?}", other),
    }
    assert_eq!(create_ast(&[]), Ok(vec![]));
}

#[test]
fn skipping_a_run() {
    let tokens = vec![Token::Comma, Token::Comma, Token::Semicolon];
    let mut index: usize = 0;
    assert_eq!(skip_tokens_while(&mut index, &tokens, TokenClass::Comma), Ok(()));
    assert_eq!(index, 2);
    let mut index: usize = 0;
    assert_eq!(
        skip_tokens_while(&mut index, &tokens, TokenClass::AnyButSemicolon),
        Ok(())
    );
    assert_eq!(index, 2);
    let mut index: usize = 2;
    assert_eq!(
        skip_tokens_while(&mut index, &tokens, TokenClass::Semicolon),
        Err(ParseError::UnexpectedEnd)
    );
}
