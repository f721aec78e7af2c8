use myc::ast::BinaryOperation;
use myc::ast::Expression;
use myc::ast::FunctionDefinition;
use myc::ast::Program;
use myc::ast::Statement;
use myc::ast::UnaryOperation;
use myc::lexer::Token;

#[test]
fn parse_simple_applcation() {
    let token_stream = vec![
        Token::Int,
        Token::Identifier("main".into()),
        Token::OpenParenthesis,
        Token::Void,
        Token::CloseParenthesis,
        Token::OpenBrace,
        Token::Return,
        Token::Constant(2),
        Token::Semicolon,
        Token::CloseBrace,
    ];

    let expected_ast = Program {
        function_definition: FunctionDefinition {
            name: "main".into(),
            body: Statement::Return(Expression::Constant(2)),
        },
    };

    let ast = myc::parse(token_stream).unwrap();
    assert_eq!(ast, expected_ast);
}

#[test]
fn parse_unary_operation() {
    let token_stream = vec![
        Token::Int,
        Token::Identifier("main".into()),
        Token::OpenParenthesis,
        Token::Void,
        Token::CloseParenthesis,
        Token::OpenBrace,
        Token::Return,
        Token::Minus,
        Token::Constant(5),
        Token::Semicolon,
        Token::CloseBrace,
    ];

    let expected_ast = Program {
        function_definition: FunctionDefinition {
            name: "main".into(),
            body: Statement::Return(Expression::Unary(
                UnaryOperation::Negate,
                Box::new(Expression::Constant(5)),
            )),
        },
    };

    let ast = myc::parse(token_stream).unwrap();
    assert_eq!(ast, expected_ast);
}

#[test]
fn parse_binary_operation() {
    let token_stream = vec![
        Token::Int,
        Token::Identifier("main".into()),
        Token::OpenParenthesis,
        Token::Void,
        Token::CloseParenthesis,
        Token::OpenBrace,
        Token::Return,
        Token::Constant(1),
        Token::Minus,
        Token::Constant(2),
        Token::Minus,
        Token::Constant(3),
        Token::Semicolon,
        Token::CloseBrace,
    ];

    let expected_ast = Program {
        function_definition: FunctionDefinition {
            name: "main".into(),
            body: Statement::Return(Expression::Binary(
                BinaryOperation::Subtract,
                Box::new(Expression::Binary(
                    BinaryOperation::Subtract,
                    Box::new(Expression::Constant(1)),
                    Box::new(Expression::Constant(2)),
                )),
                Box::new(Expression::Constant(3)),
            )),
        },
    };

    let ast = myc::parse(token_stream).unwrap();
    assert_eq!(ast, expected_ast);
}

#[test]
fn parse_binary_precedence_operation() {
    let token_stream = vec![
        Token::Int,
        Token::Identifier("main".into()),
        Token::OpenParenthesis,
        Token::Void,
        Token::CloseParenthesis,
        Token::OpenBrace,
        Token::Return,
        Token::Constant(1),
        Token::Minus,
        Token::Constant(2),
        Token::Star,
        Token::Constant(3),
        Token::Semicolon,
        Token::CloseBrace,
    ];

    let expected_ast = Program {
        function_definition: FunctionDefinition {
            name: "main".into(),
            body: Statement::Return(Expression::Binary(
                BinaryOperation::Subtract,
                Box::new(Expression::Constant(1)),
                Box::new(Expression::Binary(
                    BinaryOperation::Multiply,
                    Box::new(Expression::Constant(2)),
                    Box::new(Expression::Constant(3)),
                )),
            )),
        },
    };

    let ast = myc::parse(token_stream).unwrap();
    assert_eq!(ast, expected_ast);
}

#[test]
fn invalid_function_definition_missing_open_parenthesis() {
    let token_stream = vec![
        Token::Int,
        Token::Identifier("main".into()),
        Token::Void,
        Token::CloseParenthesis,
        Token::OpenBrace,
        Token::Return,
        Token::Constant(2),
        Token::Semicolon,
        Token::CloseBrace,
    ];
    myc::parse(token_stream).unwrap_err();
}

#[test]
fn invalid_function_definition_missing_close_parenthesis() {
    let token_stream = vec![
        Token::Int,
        Token::Identifier("main".into()),
        Token::OpenParenthesis,
        Token::Void,
        Token::OpenBrace,
        Token::Return,
        Token::Constant(2),
        Token::Semicolon,
        Token::CloseBrace,
    ];
    myc::parse(token_stream).unwrap_err();
}

#[test]
fn invalid_function_definition_missing_open_brace() {
    let token_stream = vec![
        Token::Int,
        Token::Identifier("main".into()),
        Token::OpenParenthesis,
        Token::Void,
        Token::CloseParenthesis,
        Token::Return,
        Token::Constant(2),
        Token::Semicolon,
        Token::CloseBrace,
    ];
    myc::parse(token_stream).unwrap_err();
}

#[test]
fn invalid_function_definition_missing_close_brace() {
    let token_stream = vec![
        Token::Int,
        Token::Identifier("main".into()),
        Token::OpenParenthesis,
        Token::Void,
        Token::CloseParenthesis,
        Token::OpenBrace,
        Token::Return,
        Token::Constant(2),
        Token::Semicolon,
    ];
    myc::parse(token_stream).unwrap_err();
}

#[test]
fn invalid_gargabe_at_the_end() {
    let token_stream = vec![
        Token::Int,
        Token::Identifier("main".into()),
        Token::OpenParenthesis,
        Token::Void,
        Token::CloseParenthesis,
        Token::OpenBrace,
        Token::Return,
        Token::Constant(2),
        Token::Semicolon,
        Token::CloseBrace,
        Token::Identifier("foo".into()),
    ];
    myc::parse(token_stream).unwrap_err();
}
