use myc::assembly;
use myc::decimal::dec_string_u64;
use myc::lexer::LexError;
use myc::lexer::Token;
use myc::parser::ParseError;
use myc::CompileError;

#[test]
fn compile_return_constant() {
    let out = myc::compile("int main(void){return 2;}").unwrap();
    assert_eq!(
        out,
        "\t.global main\nmain:\n\tpushq\t%rbp\n\tmovq\t%rsp, %rbp\n\tsubq\t$0, %rsp\n\tmovl\t$2, %eax\n\tmovq\t%rbp, %rsp\n\tpopq\t%rbp\n\tret\n\n\t.section .note.GNU-stack,\"\",@progbits"
    );
}

#[test]
fn compile_nested_negation() {
    let out = myc::compile("int main(void){return -(-2);}").unwrap();
    assert!(out.contains("negl\t-4(%rbp)"));
    assert!(out.contains("negl\t-8(%rbp)"));
    assert!(out.contains("subq\t$8, %rsp"));
}

#[test]
fn compile_left_associative_subtraction() {
    let out = myc::compile("int main(void){return 1-2-3;}").unwrap();
    assert!(out.contains("movl\t$1, -4(%rbp)"));
    assert!(out.contains("subl\t$2, -4(%rbp)"));
    assert!(out.contains("subl\t$3, -8(%rbp)"));
    assert!(out.contains("subq\t$8, %rsp"));
}

#[test]
fn compile_precedence_multiplication_first() {
    let out = myc::compile("int main(void){return 1-2*3;}").unwrap();
    // The product is computed first, into the first slot.
    assert!(out.contains("movl\t$2, -4(%rbp)"));
    assert!(out.contains("imull\t$3, %r11d"));
    assert!(out.contains("movl\t$1, -8(%rbp)"));
}

#[test]
fn compile_division() {
    let out = myc::compile("int main(void){return 7/2;}").unwrap();
    assert_eq!(
        out,
        "\t.global main\nmain:\n\tpushq\t%rbp\n\tmovq\t%rsp, %rbp\n\tsubq\t$4, %rsp\n\tmovl\t$7, %eax\n\tcdq\n\tmovl\t$2, %r10d\n\tidivl\t%r10d\n\tmovl\t%eax, -4(%rbp)\n\tmovl\t-4(%rbp), %eax\n\tmovq\t%rbp, %rsp\n\tpopq\t%rbp\n\tret\n\n\t.section .note.GNU-stack,\"\",@progbits"
    );
}

#[test]
fn compile_remainder() {
    let out = myc::compile("int main(void){return 7%2;}").unwrap();
    assert!(out.contains("\tcdq\n\tmovl\t$2, %r10d\n\tidivl\t%r10d\n\tmovl\t%edx, -4(%rbp)"));
}

#[test]
fn compile_invalid_character() {
    let result = myc::compile("@");
    assert_eq!(result, Err(CompileError::Lex(LexError::InvalidCharacter('@'))));
}

#[test]
fn compile_trailing_garbage() {
    let result = myc::compile("int main(void){return 2;} foo");
    assert_eq!(
        result,
        Err(CompileError::Parse(ParseError::UnexpectedToken(
            Token::Identifier("foo".into())
        )))
    );
}

#[test]
fn compile_constant_overflow() {
    let result = myc::compile("int main(void){return 2147483648;}");
    assert_eq!(
        result,
        Err(CompileError::Lex(LexError::InvalidNumber(
            "2147483648".into()
        )))
    );
}

#[test]
fn compile_largest_constant() {
    let out = myc::compile("int main(void){return 2147483647;}").unwrap();
    assert!(out.contains("movl\t$2147483647, %eax"));
}

#[test]
fn compile_unexpected_end() {
    let result = myc::compile("int main(void){return 2;");
    assert_eq!(result, Err(CompileError::Parse(ParseError::UnexpectedEOF)));
}

#[test]
fn compile_rejects_decrement_token() {
    let result = myc::compile("int main(void){return --2;}");
    assert_eq!(
        result,
        Err(CompileError::Parse(ParseError::UnexpectedToken(
            Token::DoubleMinus
        )))
    );
}

#[test]
fn compile_ignores_whitespace() {
    let compact = myc::compile("int main(void){return 0;}").unwrap();
    let airy = myc::compile("int main    (   void)   {   return  0   ;   }").unwrap();
    assert_eq!(compact, airy);
}

#[test]
fn compile_complement() {
    let out = myc::compile("int main(void){return ~0;}").unwrap();
    assert!(out.contains("notl\t-4(%rbp)"));
}

#[test]
fn compile_multiplication_legalized() {
    let out = myc::compile("int main(void){return 2*3;}").unwrap();
    assert!(out.contains("movl\t-4(%rbp), %r11d"));
    assert!(out.contains("imull\t$3, %r11d"));
    assert!(out.contains("movl\t%r11d, -4(%rbp)"));
}

#[test]
fn compile_parenthesized_grouping() {
    // Parentheses override precedence: the subtraction happens first.
    let out = myc::compile("int main(void){return (1-2)*3;}").unwrap();
    assert!(out.contains("subl\t$2, -4(%rbp)"));
    assert!(out.contains("imull\t$3, %r11d"));
}

#[test]
fn lex_operator_tokens() {
    assert_eq!(myc::lex("~").unwrap(), vec![Token::Tilde]);
    assert_eq!(myc::lex("-").unwrap(), vec![Token::Minus]);
    assert_eq!(myc::lex("--").unwrap(), vec![Token::DoubleMinus]);
    assert_eq!(myc::lex("+").unwrap(), vec![Token::Plus]);
    assert_eq!(myc::lex("*").unwrap(), vec![Token::Star]);
    assert_eq!(myc::lex("/").unwrap(), vec![Token::Slash]);
    assert_eq!(myc::lex("%").unwrap(), vec![Token::Percent]);
}

#[test]
fn lex_mixed_alphanumeric_is_invalid_number() {
    let result = myc::lex("12ab3");
    assert_eq!(result, Err(LexError::InvalidNumber("12ab3".into())));
}

#[test]
fn codegen_negative_immediate() {
    let program = assembly::Program {
        function: assembly::Function {
            name: "main".into(),
            instructions: vec![
                assembly::Instruction::Mov {
                    src: assembly::Operand::Imm(-5),
                    dst: assembly::Operand::Register(assembly::Register::AX),
                },
                assembly::Instruction::Ret,
            ],
        },
    };
    let out = myc::codegen(program);
    assert!(out.contains("movl\t$-5, %eax"));
}

#[test]
fn decimal_rendering() {
    assert_eq!(dec_string_u64(0), "0");
    assert_eq!(dec_string_u64(7), "7");
    assert_eq!(dec_string_u64(1234567890), "1234567890");
}

#[test]
fn assembly_frame_grows_with_temporaries() {
    // Three prefix negations need three temporaries: 12 bytes of frame.
    let out = myc::compile("int main(void){return -~-8;}").unwrap();
    assert!(out.contains("subq\t$12, %rsp"));
}
