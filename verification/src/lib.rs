//! A small ahead-of-time compiler for a tiny C-like language: a single
//! `main` function whose body is one `return` statement over integer
//! literals, unary `-` and `~`, and the binary operators `+ - * / %`.
//!
//! The pipeline is linear: source text is lexed to tokens, parsed to an
//! abstract syntax tree, lowered to three-address code, translated to
//! abstract x86-64 assembly over pseudo-registers, rewritten so every
//! pseudo lives in a stack slot, legalized to satisfy x86 operand rules,
//! and finally rendered as AT&T-syntax assembly text. Every stage is a
//! total, deterministic function, and each executable stage is verified
//! against a specification-level model of the same transformation;
//! `compile` chains them and is pinned to `spec_compile`.
use vstd::prelude::*;

pub mod assembly;
pub mod ast;
pub mod codegen;
pub mod decimal;
pub mod lexer;
pub mod parser;
pub mod tacky;

verus! {

/// An error from either of the stages that can reject input.
#[derive(Debug, PartialEq, Eq)]
pub enum CompileError {
    Lex(lexer::LexError),
    Parse(parser::ParseError),
}

/// The mathematical model of a `CompileError`.
pub enum CompileErrorView {
    Lex(lexer::LexErrorView),
    Parse(parser::ParseErrorView),
}

impl View for CompileError {
    type V = CompileErrorView;

    open spec fn view(&self) -> CompileErrorView {
        match self {
            CompileError::Lex(e) => CompileErrorView::Lex(e@),
            CompileError::Parse(e) => CompileErrorView::Parse(e@),
        }
    }
}

/// The whole compiler, as one mathematical function from source text
/// to assembly text or the first error.
pub open spec fn spec_compile(source: Seq<char>) -> Result<Seq<char>, CompileErrorView> {
    match lexer::spec_lex(source) {
        Err(e) => Err(CompileErrorView::Lex(e)),
        Ok(ts) => match parser::spec_parse(ts) {
            Err(e) => Err(CompileErrorView::Parse(e)),
            Ok(p) => Ok(codegen::sp_codegen(assembly::sp_assembly(tacky::sp_lower_program(p)))),
        },
    }
}

/// Lexes a source string.
pub fn lex(source: &str) -> (r: Result<Vec<lexer::Token>, lexer::LexError>)
    ensures
        lexer::lex_view(r) == lexer::spec_lex(source@),
{
    lexer::lex(source)
}

/// Parses a token stream.
pub fn parse(token_stream: Vec<lexer::Token>) -> (r: Result<ast::Program, parser::ParseError>)
    ensures
        ({
            let s = parser::spec_parse(lexer::tokens_view(token_stream@));
            match r {
                Ok(p) => s == Ok::<ast::ProgramView, parser::ParseErrorView>(p@),
                Err(e) => s == Err::<ast::ProgramView, parser::ParseErrorView>(e@),
            }
        }),
{
    parser::parse(token_stream)
}

/// Lowers a program to three-address code.
pub fn tacky(program: ast::Program) -> (r: tacky::Program)
    requires
        tacky::count_ops_stmt(program.function_definition.body) <= u64::MAX,
    ensures
        r@ == tacky::sp_lower_program(program@),
{
    tacky::tacky(program)
}

/// Translates three-address code to legal assembly.
pub fn assembly(program: tacky::Program) -> (r: assembly::Program)
    requires
        program.function.body@.len() <= 0x03ff_ffff,
    ensures
        r@ == assembly::sp_assembly(program@),
{
    assembly::assembly(program)
}

/// Renders legal assembly as text.
pub fn codegen(program: assembly::Program) -> (r: String)
    requires
        assembly::has_no_pseudos(program@.function.instructions),
    ensures
        r@ == codegen::sp_codegen(program@),
{
    codegen::codegen(program)
}

/// Compiles a source string to assembly text, or reports the first
/// lexing or parsing error. The length bound keeps every frame offset
/// within a 32-bit immediate.
pub fn compile(source: &str) -> (r: Result<String, CompileError>)
    requires
        source@.len() <= 0x03ff_fffe,
    ensures
        ({
            let s = spec_compile(source@);
            match r {
                Ok(text) => s == Ok::<Seq<char>, CompileErrorView>(text@),
                Err(e) => s == Err::<Seq<char>, CompileErrorView>(e@),
            }
        }),
{
    let tokens = match lexer::lex(source) {
        Ok(ts) => ts,
        Err(e) => {
            return Err(CompileError::Lex(e));
        },
    };
    proof {
        lexer::lemma_lex_token_count(source@);
        parser::lemma_parse_count_ops(lexer::tokens_view(tokens@));
    }
    let program = match parser::parse(tokens) {
        Ok(p) => p,
        Err(e) => {
            return Err(CompileError::Parse(e));
        },
    };
    let ghost stmt = program.function_definition.body;
    let lowered = tacky::tacky(program);
    proof {
        match stmt {
            ast::Statement::Return(e) => {
                tacky::lemma_lower_counter(e, 0);
            },
        }
        assembly::lemma_assembly_no_pseudos(lowered@);
    }
    let legal = assembly::assembly(lowered);
    Ok(codegen::codegen(legal))
}

} // verus!
