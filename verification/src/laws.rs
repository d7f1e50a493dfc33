//! Properties of the machine that hold across steps and runs.
use vstd::prelude::*;

use crate::ast::{SpecCommand, SpecValue};
use crate::grammar::{read_command, Parsed, Rule};
use crate::interpreter::{initial_config, step_line, trace_header, trace_steps};
use crate::reading::{lemma_read_command, lemma_words_cons};
use crate::semantics::{done, final_outcome, run_steps, step, Config, ExecError, Outcome, StepStatus};
use crate::text::{
    command_text, config_text, data_text, int_text, ints_text, nat_text, queue_text, rule_label,
    value_text, values_text, words_text,
};

verus! {

/// A larger step limit changes nothing for a run that finished within the
/// smaller one: the same last configuration, the same outcome.
pub proof fn lemma_more_steps_same_run(cfg: Config, fuel: nat, more: nat)
    requires
        run_steps(cfg, fuel).1 != Outcome::Failed(ExecError::StepLimitReached),
    ensures
        run_steps(cfg, fuel + more) == run_steps(cfg, fuel),
    decreases fuel,
{
    if cfg.commands.len() > 0 && fuel > 0 {
        let t = step(cfg);
        if t.status is Done {
            lemma_more_steps_same_run(t.config, (fuel - 1) as nat, more);
            assert((fuel + more - 1) as nat == ((fuel - 1) as nat + more) as nat);
        }
    }
}

/// `cfg` with `below` under its command stack.
pub open spec fn beneath(below: Seq<SpecCommand>, cfg: Config) -> Config {
    Config { commands: below + cfg.commands, data: cfg.data }
}

/// The configuration with these stacks.
pub open spec fn config_of(commands: Seq<SpecCommand>, data: Seq<SpecValue>) -> Config {
    Config { commands, data }
}

/// A step reads only the command it runs: the commands below it on the
/// command stack stay below, untouched.
pub proof fn lemma_step_frame(below: Seq<SpecCommand>, cfg: Config)
    requires
        cfg.commands.len() > 0,
    ensures
        step(beneath(below, cfg)).config == beneath(below, step(cfg).config),
        step(beneath(below, cfg)).status == step(cfg).status,
{
    let all = below + cfg.commands;
    assert(all.last() == cfg.commands.last());
    assert(all.drop_last() =~= below + cfg.commands.drop_last());
    match cfg.commands.last() {
        SpecCommand::Exec => {
            let data = cfg.data;
            if data.len() > 0 {
                match data.last() {
                    SpecValue::Sequence(s) => {
                        assert((below + cfg.commands.drop_last()) + s.reverse() =~= below + (cfg.commands.drop_last() + s.reverse()));
                    },
                    _ => {},
                }
            }
        },
        _ => {},
    }
}

/// Pushing a sequence and executing it runs its commands in its place.
pub proof fn lemma_exec_runs_sequence(rest: Seq<SpecCommand>, s: Seq<SpecCommand>, data: Seq<SpecValue>, fuel: nat)
    ensures
        run_steps(config_of(rest.push(SpecCommand::Exec).push(SpecCommand::Sequence(s)), data), fuel + 2)
            == run_steps(config_of(rest + s.reverse(), data), fuel),
{
    let c0 = Config { commands: rest.push(SpecCommand::Exec).push(SpecCommand::Sequence(s)), data };
    let t0 = step(c0);
    assert(c0.commands.last() == SpecCommand::Sequence(s));
    assert(c0.commands.drop_last() =~= rest.push(SpecCommand::Exec));
    assert(t0 == done(rest.push(SpecCommand::Exec), data.push(SpecValue::Sequence(s))));
    let c1 = t0.config;
    assert(c1.commands.last() == SpecCommand::Exec);
    assert(c1.commands.drop_last() =~= rest);
    assert(c1.data.last() == SpecValue::Sequence(s));
    assert(c1.data.drop_last() =~= data);
    let t1 = step(c1);
    assert(t1.status is Done);
    assert(t1.config == Config { commands: rest + s.reverse(), data });
    assert(c0.commands.len() > 0);
    assert(run_steps(c0, fuel + 2) == run_steps(c1, (fuel + 1) as nat));
    assert(run_steps(c1, (fuel + 1) as nat) == run_steps(t1.config, fuel));
}

/// Two swaps in a row leave the data stack as it was.
pub proof fn lemma_swap_twice(rest: Seq<SpecCommand>, data: Seq<SpecValue>, fuel: nat)
    requires
        data.len() >= 2,
    ensures
        run_steps(config_of(rest.push(SpecCommand::Swap).push(SpecCommand::Swap), data), fuel + 2)
            == run_steps(config_of(rest, data), fuel),
{
    let c0 = Config { commands: rest.push(SpecCommand::Swap).push(SpecCommand::Swap), data };
    let t0 = step(c0);
    assert(c0.commands.last() == SpecCommand::Swap);
    assert(c0.commands.drop_last() =~= rest.push(SpecCommand::Swap));
    let n = data.len() as int;
    let d1 = data.subrange(0, n - 2).push(data[n - 1]).push(data[n - 2]);
    assert(t0 == done(rest.push(SpecCommand::Swap), d1));
    let c1 = t0.config;
    assert(c1.commands.last() == SpecCommand::Swap);
    assert(c1.commands.drop_last() =~= rest);
    let t1 = step(c1);
    assert(d1.subrange(0, n - 2).push(d1[n - 1]).push(d1[n - 2]) =~= data);
    assert(t1 == done(rest, data));
    assert(t1.config == Config { commands: rest, data });
    assert(c0.commands.len() > 0);
    assert(run_steps(c0, fuel + 2) == run_steps(c1, (fuel + 1) as nat));
    assert(run_steps(c1, (fuel + 1) as nat) == run_steps(t1.config, fuel));
}

/// A run answers a value only when it has run out of commands with that
/// integer on top of the data stack, and the last line of its trace reports
/// that configuration and that value.
pub proof fn lemma_value_ends_run(cfg: Config, fuel: nat, n: i32)
    requires
        run_steps(cfg, fuel).1 == Outcome::Value(n),
    ensures
        run_steps(cfg, fuel).0.commands.len() == 0,
        run_steps(cfg, fuel).0.data.len() > 0,
        run_steps(cfg, fuel).0.data.last() == SpecValue::Number(n),
        trace_steps(cfg, fuel).len() > 0,
        trace_steps(cfg, fuel).last() == "(OF "@ + config_text(run_steps(cfg, fuel).0) + ") = "@ + int_text(n as int),
    decreases fuel,
{
    if cfg.commands.len() > 0 && fuel > 0 {
        let t = step(cfg);
        if t.status is Done {
            lemma_value_ends_run(t.config, (fuel - 1) as nat, n);
            let rest = trace_steps(t.config, (fuel - 1) as nat);
            let first = step_line(t.config, rule_label(cfg.commands.last(), cfg.data));
            assert(trace_steps(cfg, fuel) == seq![first] + rest);
            assert((seq![first] + rest).last() == rest.last());
        }
    }
}

/// Whether a run from `cfg` uses up all its commands within `fuel` steps
/// and then answers what its data stack holds.
pub open spec fn runs_to_end(cfg: Config, fuel: nat) -> bool {
    let (last, outcome) = run_steps(cfg, fuel);
    last.commands.len() == 0 && outcome == final_outcome(last.data)
}

/// How many steps a run from `cfg` takes within `fuel` steps.
pub open spec fn steps_taken(cfg: Config, fuel: nat) -> nat
    decreases fuel,
{
    if cfg.commands.len() == 0 || fuel == 0 {
        0
    } else {
        let t = step(cfg);
        if t.status is Done {
            1 + steps_taken(t.config, (fuel - 1) as nat)
        } else {
            1
        }
    }
}

/// A step never answers with an error that only the end of a run gives.
proof fn lemma_step_error_kind(cfg: Config)
    requires
        cfg.commands.len() > 0,
        step(cfg).status matches StepStatus::Failed(e),
    ensures
        step(cfg).status matches StepStatus::Failed(e) && !(e is EmptyStackAtEnd) && !(e is FinalValueNotInteger)
            && !(e is StepLimitReached),
{
}

/// Sequencing: once the commands on top of the command stack have run to
/// their end, the commands below them run on the data stack they left.
pub proof fn lemma_run_in_sequence(below: Seq<SpecCommand>, cfg: Config, fuel: nat)
    requires
        runs_to_end(cfg, fuel),
    ensures
        steps_taken(cfg, fuel) <= fuel,
        run_steps(beneath(below, cfg), fuel) == run_steps(
            config_of(below, run_steps(cfg, fuel).0.data),
            (fuel - steps_taken(cfg, fuel)) as nat,
        ),
    decreases fuel,
{
    if cfg.commands.len() == 0 {
        assert(beneath(below, cfg) =~= config_of(below, cfg.data));
    } else if fuel == 0 {
    } else {
        let t = step(cfg);
        match t.status {
            StepStatus::Done => {
                lemma_step_frame(below, cfg);
                lemma_run_in_sequence(below, t.config, (fuel - 1) as nat);
                assert(beneath(below, cfg).commands.len() > 0);
            },
            StepStatus::Failed(e) => {
                lemma_step_error_kind(cfg);
            },
            StepStatus::Overflow => {},
        }
    }
}

/// The decimal texts of `args`, separated by `, `, list `args[0]` first and
/// then the others in the order they were given.
pub proof fn lemma_ints_text_in_order(args: Seq<i32>)
    requires
        args.len() >= 1,
    ensures
        ints_text(args) == (if args.len() == 1 {
            int_text(args[0] as int)
        } else {
            int_text(args[0] as int) + ", "@ + ints_text(args.drop_first())
        }),
    decreases args.len(),
{
    if args.len() == 2 {
        assert(args.drop_last() =~= seq![args[0]]);
        assert(args.drop_first() =~= seq![args[1]]);
        assert(ints_text(args.drop_last()) == int_text(args[0] as int));
        assert(ints_text(args.drop_first()) == int_text(args[1] as int));
    } else if args.len() > 2 {
        lemma_ints_text_in_order(args.drop_last());
        assert(args.drop_last().drop_first() =~= args.drop_first().drop_last());
        assert(args.drop_first().last() == args.last());
        assert(ints_text(args) =~= int_text(args[0] as int) + ", "@ + ints_text(args.drop_first()));
    }
}

/// The first line of a trace shows the program with its number of
/// arguments, then the arguments in the order they were given:
/// `(IF ⟨(postfix n prog), [a0, a1, ...]⟩)`.
pub proof fn lemma_trace_first_line(args: Seq<i32>, program: Seq<SpecCommand>, cfg: Config)
    ensures
        ({
            let lines = trace_header(args, program, cfg);
            let opening = "(IF ⟨"@ + "(postfix "@ + nat_text(args.len()) + " "@ + words_text(program) + ")"@
                + ", "@ + "["@;
            let closing = "]"@ + "⟩)"@;
            &&& lines.len() == 2
            &&& args.len() == 0 ==> lines[0] == opening + closing
            &&& args.len() == 1 ==> lines[0] == opening + int_text(args[0] as int) + closing
            &&& args.len() >= 2 ==> lines[0] == opening + int_text(args[0] as int) + ", "@
                + ints_text(args.drop_first()) + closing
        }),
{
    let opening = "(IF ⟨"@ + "(postfix "@ + nat_text(args.len()) + " "@ + words_text(program) + ")"@
        + ", "@ + "["@;
    let closing = "]"@ + "⟩)"@;
    let line = trace_header(args, program, cfg)[0];
    assert(line =~= opening + ints_text(args) + closing);
    if args.len() == 0 {
        assert(line =~= opening + closing);
    } else {
        lemma_ints_text_in_order(args);
        if args.len() == 1 {
            assert(line =~= opening + int_text(args[0] as int) + closing);
        } else {
            assert(line =~= opening + int_text(args[0] as int) + ", "@ + ints_text(args.drop_first()) + closing);
        }
    }
}

/// An integer value is shown as the decimal text of that integer with its
/// sign, the text its literal has in a program: a negative one starts with
/// `-`, and the text reads back as the same integer.
pub proof fn lemma_number_text(n: i32)
    ensures
        value_text(SpecValue::Number(n)) == command_text(SpecCommand::Number(n)),
        n < 0 ==> value_text(SpecValue::Number(n))[0] == '-',
        read_command(value_text(SpecValue::Number(n)), 0) == Ok::<(Parsed, int), (int, Rule)>(
            (Parsed::Number(n as int), value_text(SpecValue::Number(n)).len() as int),
        ),
{
    let t = value_text(SpecValue::Number(n));
    assert(t.subrange(0, t.len() as int) =~= t);
    lemma_read_command(t, 0, SpecCommand::Number(n));
}

/// A program starts with its first command next to run and its first
/// argument on top of the data stack, the others beneath in order.
pub proof fn lemma_initial_config(args: Seq<i32>, program: Seq<SpecCommand>)
    ensures
        ({
            let cfg = initial_config(args, program);
            &&& cfg.commands.len() == program.len()
            &&& forall|k: int| 0 <= k < program.len() ==> #[trigger] cfg.commands[program.len() - 1 - k] == program[k]
            &&& cfg.data.len() == args.len()
            &&& forall|k: int| 0 <= k < args.len() ==> #[trigger] cfg.data[args.len() - 1 - k] == SpecValue::Number(args[k])
        }),
{
}

/// The texts of the values of `vs`, separated by `, `, list `vs[0]` first
/// and then the others in order.
pub proof fn lemma_values_text_in_order(vs: Seq<SpecValue>)
    requires
        vs.len() >= 1,
    ensures
        values_text(vs) == (if vs.len() == 1 {
            value_text(vs[0])
        } else {
            value_text(vs[0]) + ", "@ + values_text(vs.drop_first())
        }),
    decreases vs.len(),
{
    if vs.len() == 2 {
        assert(vs.drop_last() =~= seq![vs[0]]);
        assert(vs.drop_first() =~= seq![vs[1]]);
        assert(values_text(vs.drop_last()) == value_text(vs[0]));
        assert(values_text(vs.drop_first()) == value_text(vs[1]));
    } else if vs.len() > 2 {
        lemma_values_text_in_order(vs.drop_last());
        assert(vs.drop_last().drop_first() =~= vs.drop_first().drop_last());
        assert(vs.drop_first().last() == vs.last());
        assert(values_text(vs) =~= value_text(vs[0]) + ", "@ + values_text(vs.drop_first()));
    }
}

/// The data stack is shown top first: `[top, next, ...]`.
pub proof fn lemma_data_text_top_first(data: Seq<SpecValue>)
    requires
        data.len() >= 1,
    ensures
        data_text(data) == "["@ + value_text(data.last()) + (if data.len() == 1 {
            Seq::<char>::empty()
        } else {
            ", "@ + values_text(data.drop_last().reverse())
        }) + "]"@,
{
    let r = data.reverse();
    lemma_values_text_in_order(r);
    assert(r[0] == data.last());
    assert(r.drop_first() =~= data.drop_last().reverse());
    if data.len() == 1 {
        assert(data_text(data) =~= "["@ + value_text(data.last()) + Seq::<char>::empty() + "]"@);
    } else {
        assert(data_text(data) =~= "["@ + value_text(data.last()) + (", "@ + values_text(data.drop_last().reverse())) + "]"@);
    }
}

/// The command stack is shown as a queue, the next command to run first:
/// `(next following ...)`.
pub proof fn lemma_queue_text_next_first(commands: Seq<SpecCommand>)
    requires
        commands.len() >= 1,
    ensures
        queue_text(commands) == "("@ + command_text(commands.last()) + (if commands.len() == 1 {
            Seq::<char>::empty()
        } else {
            " "@ + words_text(commands.drop_last().reverse())
        }) + ")"@,
{
    let r = commands.reverse();
    let rest = commands.drop_last().reverse();
    assert(r =~= seq![commands.last()] + rest);
    lemma_words_cons(commands.last(), rest);
    if commands.len() == 1 {
        assert(queue_text(commands) =~= "("@ + command_text(commands.last()) + Seq::<char>::empty() + ")"@);
    } else {
        assert(queue_text(commands) =~= "("@ + command_text(commands.last()) + (" "@ + words_text(rest)) + ")"@);
    }
}

/// A run that has no command left answers the integer on top of the data
/// stack; an empty stack, or a sequence on top, is an error. A run that still
/// has commands when its step limit is used up stops with that error.
pub proof fn lemma_run_end(cfg: Config, fuel: nat)
    ensures
        cfg.commands.len() == 0 ==> run_steps(cfg, fuel).0 == cfg,
        cfg.commands.len() == 0 && cfg.data.len() == 0 ==> run_steps(cfg, fuel).1 == Outcome::Failed(
            ExecError::EmptyStackAtEnd,
        ),
        cfg.commands.len() == 0 && cfg.data.len() > 0 && cfg.data.last() is Number ==> run_steps(cfg, fuel).1
            == Outcome::Value(cfg.data.last()->Number_0),
        cfg.commands.len() == 0 && cfg.data.len() > 0 && cfg.data.last() is Sequence ==> run_steps(cfg, fuel).1
            == Outcome::Failed(ExecError::FinalValueNotInteger),
        cfg.commands.len() > 0 && fuel == 0 ==> run_steps(cfg, fuel) == (cfg, Outcome::Failed(ExecError::StepLimitReached)),
{
}

} // verus!
