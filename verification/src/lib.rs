//! A small compiler for a C-like language of integer expressions, local
//! variables and structured control flow, targeting a stack machine written
//! out as x86-64 assembly text.
//!
//! The pipeline is `tokenizer` (bytes to tokens), `parser` (tokens to syntax
//! trees with resolved variable offsets) and `codegen` (trees to instructions
//! and their text). Every stage is specified by a spec function over
//! mathematical models of its data, and every executable function is proved
//! against that specification.
//!
//! `machine` gives the generated instructions a meaning: a model of the
//! processor, the value of an expression, the proof that the code of a
//! program of expression statements returns the value of its last statement,
//! and an interpreter that runs any generated program on the model. `laws`
//! states what holds of the pipeline as a whole.
use vstd::prelude::*;
use vstd::string::StringSliceAdditionalSpecFns;

pub mod codegen;
pub mod laws;
pub mod machine;
pub mod parser;
pub mod text;
pub mod tokenizer;

verus! {

/// Why a source text was not compiled: the stage that failed, and its
/// error.
#[derive(Clone, Debug, PartialEq, Eq)]
pub enum CompileError {
    Lex(tokenizer::Error),
    Parse(parser::Error),
    Generate(codegen::Error),
}

/// The mathematical model of a [`CompileError`].
pub enum SpecCompileError {
    Lex(tokenizer::SpecError),
    Parse(parser::SpecError),
    Generate(codegen::Error),
}

impl View for CompileError {
    type V = SpecCompileError;

    open spec fn view(&self) -> SpecCompileError {
        match self {
            CompileError::Lex(e) => SpecCompileError::Lex(e@),
            CompileError::Parse(e) => SpecCompileError::Parse(e@),
            CompileError::Generate(e) => SpecCompileError::Generate(*e),
        }
    }
}

/// The instructions of the program that a source text denotes: its tokens,
/// parsed from an empty symbol table and lowered from the label index 0; or
/// the error of the first stage that fails.
pub open spec fn compiled_code(source: Seq<u8>) -> Result<Seq<codegen::Instr>, SpecCompileError> {
    match tokenizer::rules::lex(source) {
        Err(e) => Err(SpecCompileError::Lex(e)),
        Ok(tokens) => match parser::grammar::program(tokens, Seq::empty()) {
            Err(e) => Err(SpecCompileError::Parse(e)),
            Ok(p) => match codegen::lower::program(p.nodes, 0) {
                Err(e) => Err(SpecCompileError::Generate(e)),
                Ok(l) => Ok(l.code),
            },
        },
    }
}

/// The assembly text of the program that a source text denotes, line by
/// line.
pub open spec fn compiled(source: Seq<u8>) -> Result<Seq<Seq<char>>, SpecCompileError> {
    match compiled_code(source) {
        Err(e) => Err(e),
        Ok(code) => Ok(codegen::instr::render_all(code)),
    }
}

/// Compiles a source text to instructions.
///
/// The result is a function of the text alone. Where any stage fails there
/// is no output at all, only the error.
pub fn compile_code(src: &str) -> (r: Result<Vec<codegen::Instr>, CompileError>)
    ensures
        match compiled_code(src.spec_bytes()) {
            Ok(code) => r matches Ok(out) && out@ == code,
            Err(e) => r matches Err(err) && err@ == e,
        },
{
    let tokens = match tokenizer::tokenize(src) {
        Ok(tokens) => tokens,
        Err(e) => {
            return Err(CompileError::Lex(e));
        },
    };
    let slice = tokens.as_slice();
    assert(slice.deep_view() =~= tokens.deep_view());
    let nodes = match parser::parse(slice) {
        Ok(nodes) => nodes,
        Err(e) => {
            return Err(CompileError::Parse(e));
        },
    };
    let mut generator = codegen::Codegen::new();
    match generator.instructions(&nodes) {
        Ok(code) => Ok(code),
        Err(e) => Err(CompileError::Generate(e)),
    }
}

/// Compiles a source text to assembly text, line by line.
///
/// The result is a function of the text alone. Where any stage fails there
/// is no output at all, only the error.
pub fn compile(src: &str) -> (r: Result<Vec<String>, CompileError>)
    ensures
        match compiled(src.spec_bytes()) {
            Ok(text) => r matches Ok(out) && out.deep_view() == text,
            Err(e) => r matches Err(err) && err@ == e,
        },
{
    match compile_code(src) {
        Ok(code) => Ok(codegen::instr::lines(&code)),
        Err(e) => Err(e),
    }
}

} // verus!
