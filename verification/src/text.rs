//! Text of numbers, commands, values and machine configurations.
use vstd::prelude::*;

use crate::ast::{
    command_model, command_models, commands_model, value_model, value_models, Command, SpecCommand,
    SpecValue, Value,
};
use crate::semantics::{Config, ExecError};

verus! {

/// The decimal digit `d`.
pub open spec fn digit_char(d: nat) -> char {
    (48 + d) as char
}

/// The decimal text of a natural number, without leading zeros.
pub open spec fn nat_text(n: nat) -> Seq<char>
    decreases n,
{
    if n < 10 {
        seq![digit_char(n)]
    } else {
        nat_text(n / 10).push(digit_char(n % 10))
    }
}

/// The decimal text of an integer, with a leading `-` when it is negative.
pub open spec fn int_text(i: int) -> Seq<char> {
    if i < 0 {
        seq!['-'] + nat_text((-i) as nat)
    } else {
        nat_text(i as nat)
    }
}

/// The text of a command, as it is written in a program.
pub open spec fn command_text(c: SpecCommand) -> Seq<char>
    decreases c,
{
    match c {
        SpecCommand::Number(n) => int_text(n as int),
        SpecCommand::Add => "add"@,
        SpecCommand::Sub => "sub"@,
        SpecCommand::Mul => "mul"@,
        SpecCommand::Div => "div"@,
        SpecCommand::Rem => "rem"@,
        SpecCommand::Lt => "lt"@,
        SpecCommand::Gt => "gt"@,
        SpecCommand::Eq => "eq"@,
        SpecCommand::Pop => "pop"@,
        SpecCommand::Swap => "swap"@,
        SpecCommand::Sel => "sel"@,
        SpecCommand::Nget => "nget"@,
        SpecCommand::Exec => "exec"@,
        SpecCommand::Sequence(s) => "("@ + words_text(s) + ")"@,
    }
}

/// The texts of the commands of `s`, separated by single spaces.
pub open spec fn words_text(s: Seq<SpecCommand>) -> Seq<char>
    decreases s,
{
    if s.len() == 0 {
        Seq::empty()
    } else if s.len() == 1 {
        command_text(s[0])
    } else {
        words_text(s.drop_last()) + " "@ + command_text(s.last())
    }
}

/// The text of a sequence of commands: `(c1 c2 ...)`.
pub open spec fn sequence_text(s: Seq<SpecCommand>) -> Seq<char> {
    "("@ + words_text(s) + ")"@
}

/// The text of a value.
pub open spec fn value_text(v: SpecValue) -> Seq<char> {
    match v {
        SpecValue::Number(n) => int_text(n as int),
        SpecValue::Sequence(s) => sequence_text(s),
    }
}

/// The texts of the values of `s`, separated by `, `.
pub open spec fn values_text(s: Seq<SpecValue>) -> Seq<char>
    decreases s.len(),
{
    if s.len() == 0 {
        Seq::empty()
    } else if s.len() == 1 {
        value_text(s[0])
    } else {
        values_text(s.drop_last()) + ", "@ + value_text(s.last())
    }
}

/// The command stack as a queue, next command first: `(c1 c2 ...)`.
pub open spec fn queue_text(commands: Seq<SpecCommand>) -> Seq<char> {
    sequence_text(commands.reverse())
}

/// The data stack, top first: `[v1, v2, ...]`.
pub open spec fn data_text(data: Seq<SpecValue>) -> Seq<char> {
    "["@ + values_text(data.reverse()) + "]"@
}

/// A configuration: `⟨queue, data⟩`.
pub open spec fn config_text(cfg: Config) -> Seq<char> {
    "⟨"@ + queue_text(cfg.commands) + ", "@ + data_text(cfg.data) + "⟩"@
}

/// The decimal texts of `s`, separated by `, `.
pub open spec fn ints_text(s: Seq<i32>) -> Seq<char>
    decreases s.len(),
{
    if s.len() == 0 {
        Seq::empty()
    } else if s.len() == 1 {
        int_text(s[0] as int)
    } else {
        ints_text(s.drop_last()) + ", "@ + int_text(s.last() as int)
    }
}

/// The name of the rewrite rule that command `c` applies on data stack `data`.
pub open spec fn rule_label(c: SpecCommand, data: Seq<SpecValue>) -> Seq<char> {
    let n = data.len();
    match c {
        SpecCommand::Number(_) => "num"@,
        SpecCommand::Sequence(_) => "seq"@,
        SpecCommand::Pop => "pop"@,
        SpecCommand::Nget => "nget"@,
        SpecCommand::Swap => "swap"@,
        SpecCommand::Exec => "execute"@,
        SpecCommand::Add | SpecCommand::Sub | SpecCommand::Mul | SpecCommand::Div
        | SpecCommand::Rem => "arithop"@,
        SpecCommand::Sel => {
            if n >= 3 && data[n - 3] != SpecValue::Number(0) {
                "sel-true"@
            } else {
                "sel-false"@
            }
        },
        SpecCommand::Lt | SpecCommand::Gt | SpecCommand::Eq => {
            if n >= 2 && relation_holds(c, data[n - 2], data[n - 1]) {
                "relop-true"@
            } else {
                "relop-false"@
            }
        },
    }
}

/// Whether comparison `c` holds of `v2` (deeper) and `v1` (top); false unless both are integers.
pub open spec fn relation_holds(c: SpecCommand, v2: SpecValue, v1: SpecValue) -> bool {
    match (v2, v1) {
        (SpecValue::Number(a), SpecValue::Number(b)) => match c {
            SpecCommand::Lt => a < b,
            SpecCommand::Gt => a > b,
            _ => a == b,
        },
        _ => false,
    }
}

/// The message of an error.
pub open spec fn error_message(e: ExecError) -> Seq<char> {
    match e {
        ExecError::StackUnderflow => "Stack underflow"@,
        ExecError::ExpectedNumber => "Expected number but got executable sequence"@,
        ExecError::DivisionByZero => "Division by zero"@,
        ExecError::RemainderByZero => "Remainder by zero"@,
        ExecError::PopUnderflow => "pop: stack underflow"@,
        ExecError::SwapUnderflow => "swap: stack underflow (need 2 values)"@,
        ExecError::SelUnderflow => "sel: stack underflow (need 3 values)"@,
        ExecError::NgetUnderflow => "nget: stack underflow"@,
        ExecError::NgetOutOfBounds { requested, size } => "nget: index out of bounds (requested "@
            + int_text(requested as int) + ", but stack size is "@ + nat_text(size as nat) + ")"@,
        ExecError::ExecRequiresSequence => "exec requires a sequence"@,
        ExecError::FinalValueNotInteger => "Final value is not an integer"@,
        ExecError::EmptyStackAtEnd => "Empty stack at end"@,
        ExecError::StepLimitReached => "Step limit reached"@,
    }
}

/// The one-character text of digit `d`.
fn digit_str(d: u64) -> (r: &'static str)
    requires
        d < 10,
    ensures
        r@ == seq![digit_char(d as nat)],
{
    proof {
        reveal_strlit("0");
        reveal_strlit("1");
        reveal_strlit("2");
        reveal_strlit("3");
        reveal_strlit("4");
        reveal_strlit("5");
        reveal_strlit("6");
        reveal_strlit("7");
        reveal_strlit("8");
        reveal_strlit("9");
    }
    if d == 0 { "0" }
    else if d == 1 { "1" }
    else if d == 2 { "2" }
    else if d == 3 { "3" }
    else if d == 4 { "4" }
    else if d == 5 { "5" }
    else if d == 6 { "6" }
    else if d == 7 { "7" }
    else if d == 8 { "8" }
    else { "9" }
}

/// Appends the decimal text of `n`.
pub fn push_nat(out: &mut String, n: u64)
    ensures
        final(out)@ == old(out)@ + nat_text(n as nat),
    decreases n,
{
    if n >= 10 {
        push_nat(out, n / 10);
    }
    out.append(digit_str(n % 10));
}

/// Appends the decimal text of `n`.
pub fn push_int(out: &mut String, n: i32)
    ensures
        final(out)@ == old(out)@ + int_text(n as int),
{
    if n < 0 {
        proof { reveal_strlit("-"); }
        out.append("-");
        let m: i64 = -(n as i64);
        push_nat(out, m as u64);
    } else {
        push_nat(out, n as u64);
    }
}

/// Appends the text of a command.
pub fn push_command(out: &mut String, c: &Command)
    ensures
        final(out)@ == old(out)@ + command_text(c@),
    decreases c,
{
    match c {
        Command::Number(n) => push_int(out, *n),
        Command::Add => out.append("add"),
        Command::Sub => out.append("sub"),
        Command::Mul => out.append("mul"),
        Command::Div => out.append("div"),
        Command::Rem => out.append("rem"),
        Command::Lt => out.append("lt"),
        Command::Gt => out.append("gt"),
        Command::Eq => out.append("eq"),
        Command::Pop => out.append("pop"),
        Command::Swap => out.append("swap"),
        Command::Sel => out.append("sel"),
        Command::Nget => out.append("nget"),
        Command::Exec => out.append("exec"),
        Command::Sequence(v) => {
            let ghost before = out@;
            out.append("(");
            push_words(out, v);
            out.append(")");
            proof {
                assert(out@ =~= before + ("("@ + words_text(commands_model(*v)) + ")"@));
            }
        },
    }
}

/// Appends the texts of the commands of `v`, separated by single spaces.
pub fn push_words(out: &mut String, v: &Vec<Command>)
    ensures
        final(out)@ == old(out)@ + words_text(commands_model(*v)),
    decreases v,
{
    let ghost base = out@;
    let ghost model = commands_model(*v);
    let mut i: usize = 0;
    while i < v.len()
        invariant
            i <= v@.len(),
            model == commands_model(*v),
            out@ == base + words_text(model.take(i as int)),
        decreases v@.len() - i,
    {
        let ghost prefix = out@;
        if i > 0 {
            out.append(" ");
        }
        proof {
            assert(decreases_to!(v => v[i as int]));
        }
        push_command(out, &v[i]);
        proof {
            let t = model.take(i + 1);
            assert(t.drop_last() =~= model.take(i as int));
            assert(t.last() == command_model(v@[i as int]));
            if i == 0 {
                assert(model.take(0) =~= Seq::<SpecCommand>::empty());
                assert(out@ =~= base + words_text(t));
            } else {
                assert(out@ =~= base + words_text(t));
            }
        }
        i = i + 1;
    }
    proof {
        assert(model.take(v@.len() as int) =~= model);
    }
}

/// The text of a command.
pub fn fmt_cmd(cmd: &Command) -> (r: String)
    ensures
        r@ == command_text(cmd@),
{
    let mut out = String::new();
    push_command(&mut out, cmd);
    out
}

/// The text of a sequence of commands: `(c1 c2 ...)`.
pub fn fmt_seq(cmds: &[Command]) -> (r: String)
    ensures
        r@ == sequence_text(command_models(cmds@)),
{
    let ghost model = command_models(cmds@);
    let mut out = String::new();
    out.append("(");
    let ghost base = out@;
    let n = cmds.len();
    let mut i: usize = 0;
    while i < n
        invariant
            n == cmds@.len(),
            i <= n,
            model == command_models(cmds@),
            out@ == base + words_text(model.take(i as int)),
        decreases n - i,
    {
        if i > 0 {
            out.append(" ");
        }
        push_command(&mut out, &cmds[i]);
        proof {
            let t = model.take(i + 1);
            assert(t.drop_last() =~= model.take(i as int));
            assert(t.last() == command_model(cmds@[i as int]));
            if i == 0 {
                assert(model.take(0) =~= Seq::<SpecCommand>::empty());
            }
            assert(out@ =~= base + words_text(t));
        }
        i = i + 1;
    }
    proof {
        assert(model.take(n as int) =~= model);
    }
    out.append(")");
    out
}

/// The text of a value.
pub fn fmt_val(val: &Value) -> (r: String)
    ensures
        r@ == value_text(val@),
{
    match val {
        Value::Number(n) => {
            let mut out = String::new();
            push_int(&mut out, *n);
            out
        },
        Value::Sequence(cmds) => {
            let r = fmt_seq(cmds.as_slice());
            proof {
                assert(command_models(cmds@) =~= commands_model(*cmds));
            }
            r
        },
    }
}

/// The command stack as a queue, next command first: `(c1 c2 ...)`.
pub fn fmt_queue(cmd_stack: &[Command]) -> (r: String)
    ensures
        r@ == queue_text(command_models(cmd_stack@)),
{
    let ghost rev = command_models(cmd_stack@).reverse();
    let mut out = String::new();
    out.append("(");
    let ghost base = out@;
    let n = cmd_stack.len();
    let mut i: usize = 0;
    while i < n
        invariant
            n == cmd_stack@.len(),
            i <= n,
            rev == command_models(cmd_stack@).reverse(),
            out@ == base + words_text(rev.take(i as int)),
        decreases n - i,
    {
        if i > 0 {
            out.append(" ");
        }
        push_command(&mut out, &cmd_stack[n - 1 - i]);
        proof {
            let t = rev.take(i + 1);
            assert(t.drop_last() =~= rev.take(i as int));
            assert(t.last() == command_model(cmd_stack@[n - 1 - i]));
            if i == 0 {
                assert(rev.take(0) =~= Seq::<SpecCommand>::empty());
            }
            assert(out@ =~= base + words_text(t));
        }
        i = i + 1;
    }
    proof {
        assert(rev.take(n as int) =~= rev);
    }
    out.append(")");
    out
}

/// The data stack, top first: `[v1, v2, ...]`.
pub fn fmt_data(data_stack: &[Value]) -> (r: String)
    ensures
        r@ == data_text(value_models(data_stack@)),
{
    let ghost rev = value_models(data_stack@).reverse();
    let mut out = String::new();
    out.append("[");
    let ghost base = out@;
    let n = data_stack.len();
    let mut i: usize = 0;
    while i < n
        invariant
            n == data_stack@.len(),
            i <= n,
            rev == value_models(data_stack@).reverse(),
            out@ == base + values_text(rev.take(i as int)),
        decreases n - i,
    {
        if i > 0 {
            out.append(", ");
        }
        let item = fmt_val(&data_stack[n - 1 - i]);
        out.append(item.as_str());
        proof {
            let t = rev.take(i + 1);
            assert(t.drop_last() =~= rev.take(i as int));
            assert(t.last() == value_model(data_stack@[n - 1 - i]));
            if i == 0 {
                assert(rev.take(0) =~= Seq::<SpecValue>::empty());
            }
            assert(out@ =~= base + values_text(t));
        }
        i = i + 1;
    }
    proof {
        assert(rev.take(n as int) =~= rev);
    }
    out.append("]");
    out
}

/// A configuration: `⟨queue, data⟩`.
pub fn fmt_config(cmd_stack: &[Command], data_stack: &[Value]) -> (r: String)
    ensures
        r@ == config_text(Config { commands: command_models(cmd_stack@), data: value_models(data_stack@) }),
{
    let mut out = String::new();
    out.append("⟨");
    let q = fmt_queue(cmd_stack);
    out.append(q.as_str());
    out.append(", ");
    let d = fmt_data(data_stack);
    out.append(d.as_str());
    out.append("⟩");
    out
}

/// The name of the rewrite rule that `cmd` applies on `data_stack`.
pub fn rule_name(cmd: &Command, data_stack: &[Value]) -> (r: &'static str)
    ensures
        r@ == rule_label(cmd@, value_models(data_stack@)),
{
    match cmd {
        Command::Number(_) => "num",
        Command::Sequence(_) => "seq",
        Command::Pop => "pop",
        Command::Nget => "nget",
        Command::Swap => "swap",
        Command::Exec => "execute",
        Command::Add | Command::Sub | Command::Mul | Command::Div | Command::Rem => "arithop",
        Command::Sel => {
            let n = data_stack.len();
            if n >= 3 {
                match &data_stack[n - 3] {
                    Value::Number(0) => "sel-false",
                    _ => "sel-true",
                }
            } else {
                "sel-false"
            }
        },
        _ => relop_rule(data_stack, cmd),
    }
}

/// The rule name of comparison `cmd` on `data_stack`.
fn relop_rule(data_stack: &[Value], cmd: &Command) -> (r: &'static str)
    requires
        cmd@ is Lt || cmd@ is Gt || cmd@ is Eq,
    ensures
        r@ == rule_label(cmd@, value_models(data_stack@)),
{
    let n = data_stack.len();
    if n >= 2 {
        match (&data_stack[n - 2], &data_stack[n - 1]) {
            (Value::Number(v2), Value::Number(v1)) => {
                let holds = match cmd {
                    Command::Lt => *v2 < *v1,
                    Command::Gt => *v2 > *v1,
                    _ => *v2 == *v1,
                };
                if holds { "relop-true" } else { "relop-false" }
            },
            _ => "relop-false",
        }
    } else {
        "relop-false"
    }
}

impl ExecError {
    /// The message of this error.
    pub fn message(&self) -> (r: String)
        ensures
            r@ == error_message(*self),
    {
        match self {
            ExecError::StackUnderflow => String::from_str("Stack underflow"),
            ExecError::ExpectedNumber => String::from_str("Expected number but got executable sequence"),
            ExecError::DivisionByZero => String::from_str("Division by zero"),
            ExecError::RemainderByZero => String::from_str("Remainder by zero"),
            ExecError::PopUnderflow => String::from_str("pop: stack underflow"),
            ExecError::SwapUnderflow => String::from_str("swap: stack underflow (need 2 values)"),
            ExecError::SelUnderflow => String::from_str("sel: stack underflow (need 3 values)"),
            ExecError::NgetUnderflow => String::from_str("nget: stack underflow"),
            ExecError::NgetOutOfBounds { requested, size } => {
                let mut out = String::from_str("nget: index out of bounds (requested ");
                push_int(&mut out, *requested);
                out.append(", but stack size is ");
                push_nat(&mut out, *size as u64);
                out.append(")");
                out
            },
            ExecError::ExecRequiresSequence => String::from_str("exec requires a sequence"),
            ExecError::FinalValueNotInteger => String::from_str("Final value is not an integer"),
            ExecError::EmptyStackAtEnd => String::from_str("Empty stack at end"),
            ExecError::StepLimitReached => String::from_str("Step limit reached"),
        }
    }
}

/// A list of integers: `[a1, a2, ...]`.
pub fn fmt_args(args: &Vec<i32>) -> (r: String)
    ensures
        r@ == "["@ + ints_text(args@) + "]"@,
{
    let mut out = String::new();
    out.append("[");
    let ghost base = out@;
    let mut i: usize = 0;
    while i < args.len()
        invariant
            i <= args@.len(),
            out@ == base + ints_text(args@.take(i as int)),
        decreases args@.len() - i,
    {
        if i > 0 {
            out.append(", ");
        }
        push_int(&mut out, args[i]);
        proof {
            let t = args@.take(i + 1);
            assert(t.drop_last() =~= args@.take(i as int));
            if i == 0 {
                assert(args@.take(0) =~= Seq::<i32>::empty());
            }
            assert(out@ =~= base + ints_text(t));
        }
        i = i + 1;
    }
    proof {
        assert(args@.take(args@.len() as int) =~= args@);
    }
    out.append("]");
    out
}

} // verus!
