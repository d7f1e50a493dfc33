//! The small-step semantics of PostFix, as mathematics.
//!
//! A configuration holds the command stack (the next command to run is the
//! last element) and the data stack (the top is the last element).
use vstd::prelude::*;

use crate::ast::{SpecCommand, SpecValue};

verus! {

/// Why a run stops without a value.
#[derive(Debug)]
pub enum ExecError {
    /// An integer was needed but the data stack was empty.
    StackUnderflow,
    /// An integer was needed but the top of the data stack is a sequence.
    ExpectedNumber,
    /// `div` with a zero divisor.
    DivisionByZero,
    /// `rem` with a zero divisor.
    RemainderByZero,
    /// `pop` on an empty data stack.
    PopUnderflow,
    /// `swap` with fewer than two values.
    SwapUnderflow,
    /// `sel` with fewer than three values.
    SelUnderflow,
    /// `nget` on an empty data stack.
    NgetUnderflow,
    /// `nget` with an index outside `1..=size`, `size` counted after the index was popped.
    NgetOutOfBounds { requested: i32, size: usize },
    /// `exec` whose operand is missing or is an integer.
    ExecRequiresSequence,
    /// The program finished with a sequence on top of the data stack.
    FinalValueNotInteger,
    /// The program finished with an empty data stack.
    EmptyStackAtEnd,
    /// The run was cut off after the largest number of steps it was allowed.
    StepLimitReached,
}

/// A configuration of the machine.
pub struct Config {
    pub commands: Seq<SpecCommand>,
    pub data: Seq<SpecValue>,
}

/// How one step ended.
pub enum StepStatus {
    /// The command ran.
    Done,
    /// The command failed with an error.
    Failed(ExecError),
    /// The command's integer result does not fit in an `i32`.
    Overflow,
}

/// What one step leaves behind: the configuration after it, and how it ended.
pub struct Transition {
    pub config: Config,
    pub status: StepStatus,
}

/// How a whole run ended.
pub enum Outcome {
    /// The run finished with this integer on top of the data stack.
    Value(i32),
    /// The run stopped with this error.
    Failed(ExecError),
    /// A command's integer result did not fit in an `i32`.
    Overflow,
}

pub open spec fn done(commands: Seq<SpecCommand>, data: Seq<SpecValue>) -> Transition {
    Transition { config: Config { commands, data }, status: StepStatus::Done }
}

pub open spec fn failed(commands: Seq<SpecCommand>, data: Seq<SpecValue>, e: ExecError) -> Transition {
    Transition { config: Config { commands, data }, status: StepStatus::Failed(e) }
}

/// Pops an integer off the data stack: the stack after the pop, and the integer or the error.
pub open spec fn pop_int(data: Seq<SpecValue>) -> (Seq<SpecValue>, Result<i32, ExecError>) {
    if data.len() == 0 {
        (data, Err(ExecError::StackUnderflow))
    } else {
        match data.last() {
            SpecValue::Number(n) => (data.drop_last(), Ok(n)),
            SpecValue::Sequence(_) => (data.drop_last(), Err(ExecError::ExpectedNumber)),
        }
    }
}

/// Integer quotient rounded toward zero.
pub open spec fn quot(a: int, b: int) -> int {
    let q = (if a < 0 { -a } else { a }) / (if b < 0 { -b } else { b });
    if (a < 0) != (b < 0) { -q } else { q }
}

/// Remainder that takes the sign of the dividend.
pub open spec fn rem(a: int, b: int) -> int {
    let r = (if a < 0 { -a } else { a }) % (if b < 0 { -b } else { b });
    if a < 0 { -r } else { r }
}

/// The commands that pop two integers and push one.
pub open spec fn is_binary(c: SpecCommand) -> bool {
    match c {
        SpecCommand::Add | SpecCommand::Sub | SpecCommand::Mul | SpecCommand::Div
        | SpecCommand::Rem | SpecCommand::Lt | SpecCommand::Gt | SpecCommand::Eq => true,
        _ => false,
    }
}

/// The mathematical result of a binary command on `v2` (deeper) and `v1` (top).
pub open spec fn arith(c: SpecCommand, v2: int, v1: int) -> int {
    match c {
        SpecCommand::Add => v2 + v1,
        SpecCommand::Sub => v2 - v1,
        SpecCommand::Mul => v2 * v1,
        SpecCommand::Div => quot(v2, v1),
        SpecCommand::Rem => rem(v2, v1),
        SpecCommand::Lt => if v2 < v1 { 1 } else { 0 },
        SpecCommand::Gt => if v2 > v1 { 1 } else { 0 },
        SpecCommand::Eq => if v2 == v1 { 1 } else { 0 },
        _ => 0,
    }
}

/// Whether `i32` arithmetic overflows on this binary command (the remainder of
/// `i32::MIN` by `-1` overflows as Rust computes it, though the result would fit).
pub open spec fn overflows(c: SpecCommand, v2: i32, v1: i32) -> bool {
    match c {
        SpecCommand::Rem => v2 == i32::MIN && v1 == -1,
        _ => !(i32::MIN <= arith(c, v2 as int, v1 as int) <= i32::MAX),
    }
}

/// A binary command on the data stack.
pub open spec fn step_binary(c: SpecCommand, rest: Seq<SpecCommand>, data: Seq<SpecValue>) -> Transition {
    let (d1, r1) = pop_int(data);
    match r1 {
        Err(e) => failed(rest, d1, e),
        Ok(v1) => {
            let (d2, r2) = pop_int(d1);
            match r2 {
                Err(e) => failed(rest, d2, e),
                Ok(v2) => {
                    if c is Div && v1 == 0 {
                        failed(rest, d2, ExecError::DivisionByZero)
                    } else if c is Rem && v1 == 0 {
                        failed(rest, d2, ExecError::RemainderByZero)
                    } else if overflows(c, v2, v1) {
                        Transition { config: Config { commands: rest, data: d2 }, status: StepStatus::Overflow }
                    } else {
                        done(rest, d2.push(SpecValue::Number(arith(c, v2 as int, v1 as int) as i32)))
                    }
                },
            }
        },
    }
}

/// Runs command `c`; `rest` is the command stack without it.
pub open spec fn execute(c: SpecCommand, rest: Seq<SpecCommand>, data: Seq<SpecValue>) -> Transition {
    let n = data.len();
    match c {
        SpecCommand::Number(v) => done(rest, data.push(SpecValue::Number(v))),
        SpecCommand::Sequence(s) => done(rest, data.push(SpecValue::Sequence(s))),
        SpecCommand::Pop => {
            if n == 0 {
                failed(rest, data, ExecError::PopUnderflow)
            } else {
                done(rest, data.drop_last())
            }
        },
        SpecCommand::Swap => {
            if n < 2 {
                failed(rest, data, ExecError::SwapUnderflow)
            } else {
                done(rest, data.subrange(0, n - 2).push(data[n - 1]).push(data[n - 2]))
            }
        },
        SpecCommand::Sel => {
            if n < 3 {
                failed(rest, data, ExecError::SelUnderflow)
            } else {
                let (d3, r) = pop_int(data.subrange(0, n - 2));
                match r {
                    Err(e) => failed(rest, d3, e),
                    Ok(t) => done(rest, d3.push(if t != 0 { data[n - 2] } else { data[n - 1] })),
                }
            }
        },
        SpecCommand::Nget => {
            if n == 0 {
                failed(rest, data, ExecError::NgetUnderflow)
            } else {
                let (d1, r) = pop_int(data);
                match r {
                    Err(e) => failed(rest, d1, e),
                    Ok(k) => {
                        if k <= 0 || k > d1.len() {
                            failed(rest, d1, ExecError::NgetOutOfBounds { requested: k, size: d1.len() as usize })
                        } else {
                            done(rest, d1.push(d1[d1.len() - k]))
                        }
                    },
                }
            }
        },
        SpecCommand::Exec => {
            if n == 0 {
                failed(rest, data, ExecError::ExecRequiresSequence)
            } else {
                match data.last() {
                    SpecValue::Sequence(s) => done(rest + s.reverse(), data.drop_last()),
                    SpecValue::Number(_) => failed(rest, data.drop_last(), ExecError::ExecRequiresSequence),
                }
            }
        },
        _ => step_binary(c, rest, data),
    }
}

/// One step: run the command on top of the command stack.
pub open spec fn step(cfg: Config) -> Transition
    recommends
        cfg.commands.len() > 0,
{
    execute(cfg.commands.last(), cfg.commands.drop_last(), cfg.data)
}

/// What a finished program answers: the integer on top of the data stack.
pub open spec fn final_outcome(data: Seq<SpecValue>) -> Outcome {
    if data.len() == 0 {
        Outcome::Failed(ExecError::EmptyStackAtEnd)
    } else {
        match data.last() {
            SpecValue::Number(n) => Outcome::Value(n),
            SpecValue::Sequence(_) => Outcome::Failed(ExecError::FinalValueNotInteger),
        }
    }
}

/// Runs from `cfg` for at most `fuel` steps: the last configuration and the outcome.
pub open spec fn run_steps(cfg: Config, fuel: nat) -> (Config, Outcome)
    decreases fuel,
{
    if cfg.commands.len() == 0 {
        (cfg, final_outcome(cfg.data))
    } else if fuel == 0 {
        (cfg, Outcome::Failed(ExecError::StepLimitReached))
    } else {
        let t = step(cfg);
        match t.status {
            StepStatus::Done => run_steps(t.config, (fuel - 1) as nat),
            StepStatus::Failed(e) => (t.config, Outcome::Failed(e)),
            StepStatus::Overflow => (t.config, Outcome::Overflow),
        }
    }
}

} // verus!
