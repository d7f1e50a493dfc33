//! The PostFix machine.
use vstd::prelude::*;

use crate::ast::{
    command_models, commands_model, copy_commands, copy_value, value_models, Command, SpecCommand, SpecValue,
    Value,
};
use crate::text::{
    config_text, error_message, fmt_args, fmt_config, int_text, ints_text, nat_text, push_int, push_nat,
    push_words, rule_label, rule_name, words_text,
};
use crate::semantics::{
    arith, execute, final_outcome, run_steps, step, Outcome, is_binary, overflows, pop_int, quot, rem, Config, ExecError, StepStatus,
};

verus! {

/// A PostFix machine: a command stack, a data stack, and the program and
/// arguments it was started with.
pub struct PostFix {
    data_stack: Vec<Value>,
    command_stack: Vec<Command>,
    args: Vec<i32>,
    original_commands: Vec<Command>,
}

/// The configuration a program starts in: the first command on top of the
/// command stack, the first argument on top of the data stack.
pub open spec fn initial_config(args: Seq<i32>, program: Seq<SpecCommand>) -> Config {
    Config {
        commands: program.reverse(),
        data: args.map_values(|a: i32| SpecValue::Number(a)).reverse(),
    }
}

/// `quot` on machine integers, when the divisor is not zero; `None` when the quotient does not fit.
fn checked_quot(a: i32, b: i32) -> (r: Option<i32>)
    requires
        b != 0,
    ensures
        r is None <==> !(i32::MIN <= quot(a as int, b as int) <= i32::MAX),
        r matches Some(q) ==> q == quot(a as int, b as int),
{
    let x: i64 = a as i64;
    let y: i64 = b as i64;
    let q: i64 = if y > 0 {
        x / y
    } else {
        let ny: i64 = -y;
        let q1: i64 = x / ny;
        -q1
    };
    if q < i32::MIN as i64 || q > i32::MAX as i64 {
        None
    } else {
        Some(q as i32)
    }
}

/// `rem` on machine integers, when the divisor is not zero.
fn checked_rem(a: i32, b: i32) -> (r: i32)
    requires
        b != 0,
    ensures
        r == rem(a as int, b as int),
{
    let x: i64 = a as i64;
    let y: i64 = b as i64;
    let m: i64 = if y > 0 { y } else { -y };
    let r: i64 = x % m;
    assert(-m < r < m);
    r as i32
}

/// The result of a binary command; `None` where it overflows.
fn apply_binary(cmd: &Command, v2: i32, v1: i32) -> (r: Option<i32>)
    requires
        is_binary(cmd@),
        cmd@ is Div ==> v1 != 0,
        cmd@ is Rem ==> v1 != 0,
    ensures
        r is None <==> overflows(cmd@, v2, v1),
        r matches Some(x) ==> x == arith(cmd@, v2 as int, v1 as int),
{
    let a: i64 = v2 as i64;
    let b: i64 = v1 as i64;
    let wide: i64 = match cmd {
        Command::Add => a + b,
        Command::Sub => a - b,
        Command::Mul => {
            assert(-0x8000_0000 <= a <= 0x7fff_ffff && -0x8000_0000 <= b <= 0x7fff_ffff ==> -0x4000_0000_0000_0000 <= a * b <= 0x4000_0000_0000_0000) by (nonlinear_arith);
            a * b
        },
        Command::Div => {
            match checked_quot(v2, v1) {
                Some(q) => q as i64,
                None => { return None; },
            }
        },
        Command::Rem => {
            if v2 == i32::MIN && v1 == -1 {
                return None;
            }
            checked_rem(v2, v1) as i64
        },
        Command::Lt => if v2 < v1 { 1 } else { 0 },
        Command::Gt => if v2 > v1 { 1 } else { 0 },
        _ => if v2 == v1 { 1 } else { 0 },
    };
    if wide < i32::MIN as i64 || wide > i32::MAX as i64 {
        None
    } else {
        Some(wide as i32)
    }
}

/// The first two lines of a trace: the program with its arguments, then the configuration.
pub open spec fn trace_header(args: Seq<i32>, program: Seq<SpecCommand>, cfg: Config) -> Seq<Seq<char>> {
    seq![
        "(IF ⟨"@ + "(postfix "@ + nat_text(args.len()) + " "@ + words_text(program) + ")"@ + ", "@
            + "["@ + ints_text(args) + "]"@ + "⟩)"@,
        "= "@ + config_text(cfg),
    ]
}

/// The line that records a step: the configuration it reached and the rule it applied.
pub open spec fn step_line(after: Config, rule: Seq<char>) -> Seq<char> {
    "⇒ "@ + config_text(after) + (if after.commands.len() == 0 { " ∈ FC"@ } else { Seq::empty() })
        + "  ["@ + rule + "]"@
}

/// The lines a run from `cfg` records with at most `fuel` steps: one per step
/// that succeeds, then the final configuration and value when there is one.
pub open spec fn trace_steps(cfg: Config, fuel: nat) -> Seq<Seq<char>>
    decreases fuel,
{
    if cfg.commands.len() == 0 {
        match final_outcome(cfg.data) {
            Outcome::Value(n) => seq!["(OF "@ + config_text(cfg) + ") = "@ + int_text(n as int)],
            _ => Seq::empty(),
        }
    } else if fuel == 0 {
        Seq::empty()
    } else {
        let t = step(cfg);
        match t.status {
            StepStatus::Done => seq![step_line(t.config, rule_label(cfg.commands.last(), cfg.data))]
                + trace_steps(t.config, (fuel - 1) as nat),
            _ => Seq::empty(),
        }
    }
}

/// The texts of a list of strings.
pub open spec fn texts(lines: Seq<String>) -> Seq<Seq<char>> {
    lines.map_values(|l: String| l@)
}

impl PostFix {
    /// The machine's configuration.
    pub closed spec fn config(&self) -> Config {
        Config { commands: command_models(self.command_stack@), data: value_models(self.data_stack@) }
    }

    /// The arguments the machine was started with.
    pub closed spec fn args(&self) -> Seq<i32> {
        self.args@
    }

    /// The program the machine was started with.
    pub closed spec fn program(&self) -> Seq<SpecCommand> {
        command_models(self.original_commands@)
    }

    /// Starts a machine on `commands`, with `params` on the data stack (`params[0]` on top).
    pub fn new(params: Vec<i32>, commands: Vec<Command>) -> (p: Self)
        ensures
            p.config() == initial_config(params@, command_models(commands@)),
            p.args() == params@,
            p.program() == command_models(commands@),
    {
        let args = params.clone();
        let original_commands = copy_commands(&commands);
        proof {
            assert(commands_model(commands) =~= command_models(commands@));
            assert(commands_model(original_commands) =~= command_models(original_commands@));
        }
        let mut data_stack: Vec<Value> = Vec::new();
        let mut i: usize = params.len();
        while i > 0
            invariant
                i <= params@.len(),
                data_stack@.len() == params@.len() - i,
                forall|j: int| 0 <= j < data_stack@.len() ==> #[trigger] data_stack@[j] == Value::Number(params@[params@.len() - 1 - j]),
            decreases i,
        {
            i = i - 1;
            data_stack.push(Value::Number(params[i]));
        }
        let mut rest = commands;
        let ghost all = rest@;
        let mut command_stack: Vec<Command> = Vec::new();
        while rest.len() > 0
            invariant
                rest@.len() + command_stack@.len() == all.len(),
                rest@ == all.subrange(0, rest@.len() as int),
                forall|j: int| 0 <= j < command_stack@.len() ==> #[trigger] command_stack@[j] == all[all.len() - 1 - j],
            decreases rest@.len(),
        {
            let c = rest.pop().unwrap();
            command_stack.push(c);
        }
        let p = PostFix { data_stack, command_stack, args, original_commands };
        proof {
            let init = initial_config(params@, command_models(all));
            assert(p.config().commands =~= init.commands);
            assert(p.config().data =~= init.data);
        }
        p
    }

    /// Runs `cmd`, which has already been taken off the command stack.
    fn execute(&mut self, cmd: Command) -> (r: StepStatus)
        ensures
            final(self).config() == execute(cmd@, old(self).config().commands, old(self).config().data).config,
            r == execute(cmd@, old(self).config().commands, old(self).config().data).status,
            final(self).args() == old(self).args(),
            final(self).program() == old(self).program(),
    {
        let ghost rest = self.config().commands;
        let ghost data = self.config().data;
        match cmd {
            Command::Number(n) => {
                self.data_stack.push(Value::Number(n));
                proof { assert(self.config().data =~= data.push(SpecValue::Number(n))); }
                StepStatus::Done
            },
            Command::Sequence(cmds) => {
                let ghost s = commands_model(cmds);
                self.data_stack.push(Value::Sequence(cmds));
                proof { assert(self.config().data =~= data.push(SpecValue::Sequence(s))); }
                StepStatus::Done
            },
            Command::Pop => {
                if self.data_stack.len() == 0 {
                    return StepStatus::Failed(ExecError::PopUnderflow);
                }
                self.data_stack.pop();
                proof { assert(self.config().data =~= data.drop_last()); }
                StepStatus::Done
            },
            Command::Swap => {
                if self.data_stack.len() < 2 {
                    return StepStatus::Failed(ExecError::SwapUnderflow);
                }
                let v1 = self.data_stack.pop().unwrap();
                let v2 = self.data_stack.pop().unwrap();
                self.data_stack.push(v1);
                self.data_stack.push(v2);
                proof {
                    let n = data.len() as int;
                    assert(self.config().data =~= data.subrange(0, n - 2).push(data[n - 1]).push(data[n - 2]));
                }
                StepStatus::Done
            },
            Command::Sel => {
                if self.data_stack.len() < 3 {
                    return StepStatus::Failed(ExecError::SelUnderflow);
                }
                let v1 = self.data_stack.pop().unwrap();
                let v2 = self.data_stack.pop().unwrap();
                proof {
                    let n = data.len() as int;
                    assert(value_models(self.data_stack@) =~= data.subrange(0, n - 2));
                }
                let v3 = match self.pop_int() {
                    Ok(v) => v,
                    Err(e) => { return StepStatus::Failed(e); },
                };
                let ghost d3 = self.config().data;
                let result = if v3 != 0 { v2 } else { v1 };
                self.data_stack.push(result);
                proof { assert(self.config().data =~= d3.push(result@)); }
                StepStatus::Done
            },
            Command::Nget => {
                if self.data_stack.len() == 0 {
                    return StepStatus::Failed(ExecError::NgetUnderflow);
                }
                let n = match self.pop_int() {
                    Ok(v) => v,
                    Err(e) => { return StepStatus::Failed(e); },
                };
                let len = self.data_stack.len();
                if n <= 0 || n as usize > len {
                    return StepStatus::Failed(ExecError::NgetOutOfBounds { requested: n, size: len });
                }
                let ghost d1 = self.config().data;
                let value = copy_value(&self.data_stack[len - n as usize]);
                self.data_stack.push(value);
                proof { assert(self.config().data =~= d1.push(d1[d1.len() - n])); }
                StepStatus::Done
            },
            Command::Exec => {
                match self.data_stack.pop() {
                    Some(Value::Sequence(mut cmds)) => {
                        let ghost d1 = self.config().data;
                        proof { assert(d1 =~= data.drop_last()); }
                        let ghost orig = cmds;
                        let ghost all = cmds@;
                        proof { assert(commands_model(orig) =~= command_models(all)); }
                        let ghost base = self.command_stack@;
                        while cmds.len() > 0
                            invariant
                                cmds@.len() <= all.len(),
                                cmds@ == all.subrange(0, cmds@.len() as int),
                                self.args@ == old(self).args@,
                                self.original_commands@ == old(self).original_commands@,
                                self.command_stack@ =~= base + all.subrange(cmds@.len() as int, all.len() as int).reverse(),
                                value_models(self.data_stack@) == d1,
                            decreases cmds@.len(),
                        {
                            let c = cmds.pop().unwrap();
                            self.command_stack.push(c);
                        }
                        proof {
                            assert(command_models(self.command_stack@) =~= rest + command_models(all).reverse());
                        }
                        StepStatus::Done
                    },
                    Some(Value::Number(_)) => {
                        proof { assert(self.config().data =~= data.drop_last()); }
                        StepStatus::Failed(ExecError::ExecRequiresSequence)
                    },
                    None => StepStatus::Failed(ExecError::ExecRequiresSequence),
                }
            },
            _ => {
                let v1 = match self.pop_int() {
                    Ok(v) => v,
                    Err(e) => { return StepStatus::Failed(e); },
                };
                let v2 = match self.pop_int() {
                    Ok(v) => v,
                    Err(e) => { return StepStatus::Failed(e); },
                };
                let is_div = match cmd { Command::Div => true, _ => false };
                let is_rem = match cmd { Command::Rem => true, _ => false };
                if is_div && v1 == 0 {
                    return StepStatus::Failed(ExecError::DivisionByZero);
                }
                if is_rem && v1 == 0 {
                    return StepStatus::Failed(ExecError::RemainderByZero);
                }
                match apply_binary(&cmd, v2, v1) {
                    Some(x) => {
                        let ghost d2 = self.config().data;
                        self.data_stack.push(Value::Number(x));
                        proof { assert(self.config().data =~= d2.push(SpecValue::Number(x))); }
                        StepStatus::Done
                    },
                    None => StepStatus::Overflow,
                }
            },
        }
    }

    /// Takes the next command off the command stack and runs it; `None` when
    /// the command stack is empty, and then the machine is left as it was.
    pub fn step(&mut self) -> (r: Option<StepStatus>)
        ensures
            old(self).config().commands.len() == 0 ==> r is None && final(self).config() == old(self).config(),
            old(self).config().commands.len() > 0 ==> r == Some(step(old(self).config()).status)
                && final(self).config() == step(old(self).config()).config,
            final(self).args() == old(self).args(),
            final(self).program() == old(self).program(),
    {
        let ghost cfg = self.config();
        match self.command_stack.pop() {
            Some(cmd) => {
                proof { assert(self.config().commands =~= cfg.commands.drop_last()); }
                Some(self.execute(cmd))
            },
            None => None,
        }
    }

    /// The answer of a finished run: the integer on top of the data stack.
    fn final_value(&self) -> (r: Outcome)
        ensures
            r == final_outcome(self.config().data),
    {
        let n = self.data_stack.len();
        if n == 0 {
            Outcome::Failed(ExecError::EmptyStackAtEnd)
        } else {
            match &self.data_stack[n - 1] {
                Value::Number(v) => Outcome::Value(*v),
                Value::Sequence(_) => Outcome::Failed(ExecError::FinalValueNotInteger),
            }
        }
    }

    /// Runs the program for at most `max_steps` steps.
    pub fn run_outcome(&mut self, max_steps: u64) -> (r: Outcome)
        ensures
            (final(self).config(), r) == run_steps(old(self).config(), max_steps as nat),
            final(self).args() == old(self).args(),
            final(self).program() == old(self).program(),
    {
        let ghost cfg0 = self.config();
        let mut left: u64 = max_steps;
        loop
            invariant
                cfg0 == old(self).config(),
                run_steps(self.config(), left as nat) == run_steps(cfg0, max_steps as nat),
                self.args() == old(self).args(),
                self.program() == old(self).program(),
            decreases left,
        {
            if self.command_stack.len() == 0 {
                return self.final_value();
            }
            if left == 0 {
                return Outcome::Failed(ExecError::StepLimitReached);
            }
            match self.step() {
                Some(StepStatus::Done) => {
                    left = left - 1;
                },
                Some(StepStatus::Failed(e)) => {
                    return Outcome::Failed(e);
                },
                _ => {
                    return Outcome::Overflow;
                },
            }
        }
    }

    /// Runs the program for at most `max_steps` steps and records each step;
    /// the lines are those the program prints, in order.
    pub fn run_traced(&mut self, max_steps: u64) -> (r: (Vec<String>, Outcome))
        ensures
            (final(self).config(), r.1) == run_steps(old(self).config(), max_steps as nat),
            texts(r.0@) == trace_header(old(self).args(), old(self).program(), old(self).config())
                + trace_steps(old(self).config(), max_steps as nat),
            final(self).args() == old(self).args(),
            final(self).program() == old(self).program(),
    {
        let ghost cfg0 = self.config();
        let ghost header = trace_header(self.args(), self.program(), cfg0);
        let mut trace: Vec<String> = Vec::new();
        let mut first = String::from_str("(IF ⟨");
        first.append("(postfix ");
        push_nat(&mut first, self.args.len() as u64);
        first.append(" ");
        push_words(&mut first, &self.original_commands);
        first.append(")");
        first.append(", ");
        let args_text = fmt_args(&self.args);
        first.append(args_text.as_str());
        first.append("⟩)");
        trace.push(first);
        let mut second = String::from_str("= ");
        let config = fmt_config(self.command_stack.as_slice(), self.data_stack.as_slice());
        second.append(config.as_str());
        trace.push(second);
        proof {
            assert(commands_model(self.original_commands) =~= command_models(self.original_commands@));
            assert(trace@[0]@ =~= header[0]);
            assert(trace@[1]@ =~= header[1]);
            assert(texts(trace@) =~= header);
        }
        let mut left: u64 = max_steps;
        loop
            invariant
                cfg0 == old(self).config(),
                header == trace_header(old(self).args(), old(self).program(), cfg0),
                run_steps(self.config(), left as nat) == run_steps(cfg0, max_steps as nat),
                texts(trace@) + trace_steps(self.config(), left as nat) == header + trace_steps(cfg0, max_steps as nat),
                self.args() == old(self).args(),
                self.program() == old(self).program(),
            decreases left,
        {
            if self.command_stack.len() == 0 {
                let outcome = self.final_value();
                match outcome {
                    Outcome::Value(n) => {
                        let mut last = String::from_str("(OF ");
                        let config = fmt_config(self.command_stack.as_slice(), self.data_stack.as_slice());
                        last.append(config.as_str());
                        last.append(") = ");
                        push_int(&mut last, n);
                        trace.push(last);
                        proof {
                            assert(texts(trace@) =~= header + trace_steps(cfg0, max_steps as nat));
                        }
                    },
                    _ => {
                        proof {
                            assert(texts(trace@) =~= header + trace_steps(cfg0, max_steps as nat));
                        }
                    },
                }
                return (trace, outcome);
            }
            if left == 0 {
                proof {
                    assert(texts(trace@) =~= header + trace_steps(cfg0, max_steps as nat));
                }
                return (trace, Outcome::Failed(ExecError::StepLimitReached));
            }
            let ghost before = self.config();
            let rule = rule_name(&self.command_stack[self.command_stack.len() - 1], self.data_stack.as_slice());
            match self.step() {
                Some(StepStatus::Done) => {
                    let mut line = String::from_str("⇒ ");
                    let config = fmt_config(self.command_stack.as_slice(), self.data_stack.as_slice());
                    line.append(config.as_str());
                    if self.command_stack.len() == 0 {
                        line.append(" ∈ FC");
                    }
                    line.append("  [");
                    line.append(rule);
                    line.append("]");
                    let ghost prev = texts(trace@);
                    trace.push(line);
                    proof {
                        assert(line@ =~= step_line(self.config(), rule_label(before.commands.last(), before.data)));
                        assert(texts(trace@) =~= prev.push(line@));
                        assert(trace_steps(before, left as nat) =~= seq![line@] + trace_steps(self.config(), (left - 1) as nat));
                        assert(texts(trace@) + trace_steps(self.config(), (left - 1) as nat) =~= prev + trace_steps(before, left as nat));
                    }
                    left = left - 1;
                },
                Some(StepStatus::Failed(e)) => {
                    proof {
                        assert(texts(trace@) =~= header + trace_steps(cfg0, max_steps as nat));
                    }
                    return (trace, Outcome::Failed(e));
                },
                _ => {
                    proof {
                        assert(texts(trace@) =~= header + trace_steps(cfg0, max_steps as nat));
                    }
                    return (trace, Outcome::Overflow);
                },
            }
        }
    }

    /// Runs the program to its end and answers the integer it leaves on top of
    /// the data stack, or the message of the error it stops with.
    pub fn run(&mut self) -> (r: Result<i32, String>)
        requires
            !(run_steps(old(self).config(), u64::MAX as nat).1 is Overflow),
        ensures
            final(self).config() == run_steps(old(self).config(), u64::MAX as nat).0,
            match run_steps(old(self).config(), u64::MAX as nat).1 {
                Outcome::Value(n) => r == Ok::<i32, String>(n),
                Outcome::Failed(e) => r matches Err(m) && m@ == error_message(e),
                Outcome::Overflow => false,
            },
    {
        match self.run_outcome(u64::MAX) {
            Outcome::Value(n) => Ok(n),
            Outcome::Failed(e) => Err(e.message()),
            Outcome::Overflow => Err(String::new()),
        }
    }

    /// Pops an integer off the data stack.
    fn pop_int(&mut self) -> (r: Result<i32, ExecError>)
        ensures
            final(self).command_stack@ == old(self).command_stack@,
            final(self).args@ == old(self).args@,
            final(self).original_commands@ == old(self).original_commands@,
            (value_models(final(self).data_stack@), r) == pop_int(value_models(old(self).data_stack@)),
    {
        let ghost before = value_models(self.data_stack@);
        match self.data_stack.pop() {
            Some(Value::Number(n)) => {
                proof { assert(value_models(self.data_stack@) =~= before.drop_last()); }
                Ok(n)
            },
            Some(Value::Sequence(_)) => {
                proof { assert(value_models(self.data_stack@) =~= before.drop_last()); }
                Err(ExecError::ExpectedNumber)
            },
            None => Err(ExecError::StackUnderflow),
        }
    }
}

} // verus!
