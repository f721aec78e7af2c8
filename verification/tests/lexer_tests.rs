use myc::lexer::identifier_to_token;
use myc::lexer::LexError;
use myc::lexer::Token;

#[test]
fn identifier_to_token_int() {
    assert_eq!(Token::Int, identifier_to_token("int".into()));
}

#[test]
fn identifier_to_token_void() {
    assert_eq!(Token::Void, identifier_to_token("void".into()));
}

#[test]
fn identifier_to_token_return() {
    assert_eq!(Token::Return, identifier_to_token("return".into()));
}

#[test]
fn identifier_to_token_asdf() {
    assert_eq!(
        Token::Identifier("asdf".into()),
        identifier_to_token("asdf".into())
    );
}

#[test]
fn lex_identifier_asdf() {
    let source = "asdf";
    let token = myc::lex(source).unwrap().into_iter().next().unwrap();
    assert_eq!(Token::Identifier("asdf".into()), token);
}

#[test]
fn lex_constant_1() {
    let source = "1";
    let token = myc::lex(source).unwrap().into_iter().next().unwrap();
    assert_eq!(Token::Constant(1), token);
}

#[test]
fn lex_constant_10() {
    let source = "10";
    let token = myc::lex(source).unwrap().into_iter().next().unwrap();
    assert_eq!(Token::Constant(10), token);
}

#[test]
fn lex_invalid_identifier() {
    let source = "1anInvalidIdentifier";
    let result = myc::lex(source);
    assert!(matches!(result, Err(LexError::InvalidNumber(_))));
}

#[test]
fn lex_int_keyword() {
    let source = "int";
    let token = myc::lex(source).unwrap().into_iter().next().unwrap();
    assert_eq!(Token::Int, token);
}

#[test]
fn lex_void_keyword() {
    let source = "void";
    let token = myc::lex(source).unwrap().into_iter().next().unwrap();
    assert_eq!(Token::Void, token);
}

#[test]
fn lex_return_keyword() {
    let source = "return";
    let token = myc::lex(source).unwrap().into_iter().next().unwrap();
    assert_eq!(Token::Return, token);
}

#[test]
fn lex_open_parenthesis() {
    let source = "(";
    let token = myc::lex(source).unwrap().into_iter().next().unwrap();
    assert_eq!(Token::OpenParenthesis, token);
}

#[test]
fn lex_close_parenthesis() {
    let source = ")";
    let token = myc::lex(source).unwrap().into_iter().next().unwrap();
    assert_eq!(Token::CloseParenthesis, token);
}

#[test]
fn lex_open_brace() {
    let source = "{";
    let token = myc::lex(source).unwrap().into_iter().next().unwrap();
    assert_eq!(Token::OpenBrace, token);
}

#[test]
fn lex_close_brace() {
    let source = "}";
    let token = myc::lex(source).unwrap().into_iter().next().unwrap();
    assert_eq!(Token::CloseBrace, token);
}

#[test]
fn lex_semicolon() {
    let source = ";";
    let token = myc::lex(source).unwrap().into_iter().next().unwrap();
    assert_eq!(Token::Semicolon, token);
}

#[test]
fn lex_simple_applcation() {
    let source = "int main(void){return 2;}";
    let tokens = myc::lex(source).unwrap();
    assert_eq!(
        vec![
            Token::Int,
            Token::Identifier("main".into()),
            Token::OpenParenthesis,
            Token::Void,
            Token::CloseParenthesis,
            Token::OpenBrace,
            Token::Return,
            Token::Constant(2),
            Token::Semicolon,
            Token::CloseBrace
        ],
        tokens
    );
}

#[test]
fn lex_blub() {
    let source = "int main    (   void)   {   return  0   ;   }";
    let lexed_successfully = myc::lex(source).is_ok();
    assert!(lexed_successfully);
}

#[test]
fn lex_catch_invalid_identifier() {
    let source = "@";
    let result = myc::lex(source);
    assert_eq!(Err(LexError::InvalidCharacter('@')), result);
}
