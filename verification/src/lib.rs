use vstd::prelude::*;

pub mod ast;
pub mod floats;
pub mod interpreter;
pub mod lexer;
pub mod parser;
pub mod text;

use crate::interpreter::{
    eval_program, eval_program_m, println_name, Environment, NativeFn, RuntimeError,
    SpecEvalResult, SpecEvalState, SpecRuntimeError, SpecValue, Value,
};
use crate::lexer::Lexer;
use crate::parser::{
    spec_advance, spec_parse_program, ParseError, Parser, SpecParseError, SpecStep,
};
use crate::text::chars_to_string;

verus! {

/// Any fatal error a run can end in: the first one aborts the run. A
/// lexical error surfaces as [`ParseError::Lex`], since the parser is what
/// pulls tokens.
#[derive(Debug, PartialEq)]
pub enum ToyError {
    Parse(ParseError),
    Runtime(RuntimeError),
}

/// The environment a program starts from: only the built-in `println`.
pub open spec fn initial_env() -> Map<Seq<char>, SpecValue> {
    Map::<Seq<char>, SpecValue>::empty().insert(
        println_name(),
        SpecValue::NativeFunc(NativeFn::Println),
    )
}

/// What a whole run ends in.
pub enum SpecRunOutcome {
    /// The program's value and everything it printed.
    Finished(SpecValue, Seq<char>),
    ParseFail(SpecParseError),
    RunFail(SpecRuntimeError),
}

/// The whole pipeline on a source text: lex and parse the program, then
/// evaluate its statements against a fresh environment.
pub open spec fn spec_run(src: Seq<char>, fuel: nat) -> SpecRunOutcome {
    match spec_advance(src) {
        SpecStep::Parsed(u, st) => match spec_parse_program(st) {
            SpecStep::Parsed(prog, st_end) => match eval_program_m(
                fuel,
                prog,
                SpecEvalState { env: initial_env(), out: Seq::empty() },
            ) {
                SpecEvalResult::Val(v, st_f) => SpecRunOutcome::Finished(v, st_f.out),
                SpecEvalResult::Fault(er) => SpecRunOutcome::RunFail(er),
            },
            SpecStep::Fail(er) => SpecRunOutcome::ParseFail(er),
        },
        SpecStep::Fail(er) => SpecRunOutcome::ParseFail(er),
    }
}

/// Runs a source text through the whole pipeline: the program's last
/// value and everything `println` printed, or the first error. `fuel`
/// bounds how many function calls and loop iterations the run may spend,
/// standing for the resources the host grants it.
pub fn run_program(source: &str, fuel: u64) -> (r: Result<(Value, String), ToyError>)
    ensures
        match spec_run(source@, fuel as nat) {
            SpecRunOutcome::Finished(vm, outm) => r matches Ok(p) && p.0@ == vm && p.1@ == outm,
            SpecRunOutcome::ParseFail(em) => r matches Err(te) && te matches ToyError::Parse(pe)
                && pe@ == em,
            SpecRunOutcome::RunFail(em) => r matches Err(te) && te matches ToyError::Runtime(re)
                && re@ == em,
        },
{
    let lexer = Lexer::new(source);
    let mut parser = match Parser::new(lexer) {
        Ok(p) => p,
        Err(le) => {
            return Err(ToyError::Parse(ParseError::Lex(le)));
        },
    };
    let program = match parser.parse_program() {
        Ok(prog) => prog,
        Err(pe) => {
            return Err(ToyError::Parse(pe));
        },
    };
    let mut env = Environment::new();
    let mut out: Vec<char> = Vec::new();
    match eval_program(&program, &mut env, &mut out, fuel) {
        Ok(v) => {
            let output = chars_to_string(&out);
            Ok((v, output))
        },
        Err(re) => Err(ToyError::Runtime(re)),
    }
}

} // verus!
