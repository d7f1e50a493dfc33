use vstd::prelude::*;

verus! {

/// A PostFix command, as it appears in a program or inside an executable sequence.
#[derive(Debug)]
pub enum Command {
    Number(i32),
    Add,
    Sub,
    Mul,
    Div,
    Rem,
    Eq,
    Gt,
    Lt,
    Pop,
    Swap,
    Sel,
    Nget,
    Exec,
    Sequence(Vec<Command>),
}

/// A value on the data stack: an integer or an executable sequence.
#[derive(Debug)]
pub enum Value {
    Number(i32),
    Sequence(Vec<Command>),
}

/// The mathematical model of a `Command`: nested vectors become sequences.
pub enum SpecCommand {
    Number(i32),
    Add,
    Sub,
    Mul,
    Div,
    Rem,
    Eq,
    Gt,
    Lt,
    Pop,
    Swap,
    Sel,
    Nget,
    Exec,
    Sequence(Seq<SpecCommand>),
}

/// The mathematical model of a `Value`.
pub enum SpecValue {
    Number(i32),
    Sequence(Seq<SpecCommand>),
}

/// The model of a command.
pub open spec fn command_model(c: Command) -> SpecCommand
    decreases c,
{
    match c {
        Command::Number(n) => SpecCommand::Number(n),
        Command::Add => SpecCommand::Add,
        Command::Sub => SpecCommand::Sub,
        Command::Mul => SpecCommand::Mul,
        Command::Div => SpecCommand::Div,
        Command::Rem => SpecCommand::Rem,
        Command::Eq => SpecCommand::Eq,
        Command::Gt => SpecCommand::Gt,
        Command::Lt => SpecCommand::Lt,
        Command::Pop => SpecCommand::Pop,
        Command::Swap => SpecCommand::Swap,
        Command::Sel => SpecCommand::Sel,
        Command::Nget => SpecCommand::Nget,
        Command::Exec => SpecCommand::Exec,
        Command::Sequence(v) => SpecCommand::Sequence(commands_model(v)),
    }
}

/// The model of a vector of commands.
pub open spec fn commands_model(v: Vec<Command>) -> Seq<SpecCommand>
    decreases v,
{
    Seq::new(v@.len(), |i: int| if 0 <= i < v@.len() { command_model(v@[i]) } else { SpecCommand::Add })
}

/// The model of a value.
pub open spec fn value_model(v: Value) -> SpecValue {
    match v {
        Value::Number(n) => SpecValue::Number(n),
        Value::Sequence(cmds) => SpecValue::Sequence(commands_model(cmds)),
    }
}

/// The models of a sequence of commands, element by element.
pub open spec fn command_models(s: Seq<Command>) -> Seq<SpecCommand> {
    s.map_values(|c: Command| command_model(c))
}

/// The models of a sequence of values, element by element.
pub open spec fn value_models(s: Seq<Value>) -> Seq<SpecValue> {
    s.map_values(|v: Value| value_model(v))
}

impl View for Value {
    type V = SpecValue;

    open spec fn view(&self) -> SpecValue {
        value_model(*self)
    }
}

impl View for Command {
    type V = SpecCommand;

    open spec fn view(&self) -> SpecCommand {
        command_model(*self)
    }
}

/// Copies a command, nested sequences included.
pub fn copy_command(c: &Command) -> (r: Command)
    ensures
        r@ == c@,
    decreases c,
{
    match c {
        Command::Number(n) => Command::Number(*n),
        Command::Add => Command::Add,
        Command::Sub => Command::Sub,
        Command::Mul => Command::Mul,
        Command::Div => Command::Div,
        Command::Rem => Command::Rem,
        Command::Eq => Command::Eq,
        Command::Gt => Command::Gt,
        Command::Lt => Command::Lt,
        Command::Pop => Command::Pop,
        Command::Swap => Command::Swap,
        Command::Sel => Command::Sel,
        Command::Nget => Command::Nget,
        Command::Exec => Command::Exec,
        Command::Sequence(v) => Command::Sequence(copy_commands(v)),
    }
}

/// Copies a vector of commands.
pub fn copy_commands(v: &Vec<Command>) -> (r: Vec<Command>)
    ensures
        commands_model(r) == commands_model(*v),
    decreases v,
{
    let mut r: Vec<Command> = Vec::new();
    let mut i: usize = 0;
    while i < v.len()
        invariant
            i <= v.len(),
            r@.len() == i,
            forall|j: int| 0 <= j < i ==> command_model(#[trigger] r@[j]) == command_model(v@[j]),
        decreases v.len() - i,
    {
        proof {
            assert(decreases_to!(v => v@));
        }
        let c = copy_command(&v[i]);
        r.push(c);
        i = i + 1;
    }
    assert(commands_model(r) =~= commands_model(*v));
    r
}

/// Copies a value, nested sequences included.
pub fn copy_value(v: &Value) -> (r: Value)
    ensures
        r@ == v@,
{
    match v {
        Value::Number(n) => Value::Number(*n),
        Value::Sequence(cmds) => Value::Sequence(copy_commands(cmds)),
    }
}

impl Clone for Command {
    fn clone(&self) -> (r: Self)
        ensures
            r@ == self@,
    {
        copy_command(self)
    }
}

impl Clone for Value {
    fn clone(&self) -> (r: Self)
        ensures
            r@ == self@,
    {
        copy_value(self)
    }
}

} // verus!
