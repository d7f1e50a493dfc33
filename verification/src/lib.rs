//! A PostFix interpreter: a reader for PostFix programs and a machine that
//! runs them, step by step, with the configurations it passes through.
use vstd::prelude::*;

pub mod ast;
pub mod command_laws;
pub mod grammar;
pub mod interpreter;
pub mod laws;
pub mod parser;
pub mod reading;
pub mod semantics;
pub mod text;

use crate::ast::{command_models, commands_model};
use crate::grammar::parse_program_spec;
use crate::interpreter::{initial_config, PostFix};
use crate::parser::{parse_answer, parse_program};
use crate::semantics::{run_steps, Outcome};
use crate::text::error_message;

verus! {

/// Whether running `program` with `args` overflows an `i32` somewhere, or
/// reads an integer literal that does not fit in one.
pub open spec fn overflows_somewhere(program: Seq<char>, args: Seq<i32>) -> bool {
    ||| parse_program_spec(program, args.len()) is NumberOutOfRange
    ||| (parse_answer(program, args.len()) matches Ok(cs)
        && run_steps(initial_config(args, cs), u64::MAX as nat).1 is Overflow)
}

/// Reads `program` and runs it with `args`: the integer it leaves on top of
/// the data stack, or the message of the error that stops it.
pub fn process_program(program: &str, args: &[i32]) -> (r: Result<i32, String>)
    requires
        !overflows_somewhere(program@, args@),
    ensures
        match parse_answer(program@, args@.len()) {
            Err(m) => r matches Err(e) && e@ == m,
            Ok(cs) => match run_steps(initial_config(args@, cs), u64::MAX as nat).1 {
                Outcome::Value(n) => r == Ok::<i32, String>(n),
                Outcome::Failed(e) => r matches Err(m) && m@ == error_message(e),
                Outcome::Overflow => false,
            },
        },
{
    let commands = match parse_program(program, args) {
        Ok(c) => c,
        Err(e) => { return Err(e); },
    };
    proof {
        assert(commands_model(commands) =~= command_models(commands@));
    }
    let mut postfix = PostFix::new(vstd::slice::slice_to_vec(args), commands);
    postfix.run()
}

} // verus!
