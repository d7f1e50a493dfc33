//! The grammar of PostFix programs, as mathematics.
//!
//! ```text
//! program             = "(" "postfix" arg_count commands ")" EOI
//! arg_count           = digit+
//! commands            = "(" command* ")"
//! command             = number | infix_op | comparison_op | stack_op | executable_sequence
//! number              = "-"? digit+                      (no space inside)
//! infix_op            = "add" | "sub" | "mul" | "div" | "rem"
//! comparison_op       = "lt" | "gt" | "eq"
//! stack_op            = "pop" | "swap" | "sel" | "nget" | "exec"
//! executable_sequence = "(" command* ")"
//! ```
//!
//! Spaces, tabs, carriage returns and line feeds may stand before and after
//! every token. Positions are indices into the program's characters.
use vstd::prelude::*;

use crate::ast::SpecCommand;
use crate::text::command_text;

verus! {

/// The rules of the grammar that a syntax error names as expected.
#[allow(non_camel_case_types)]
#[derive(Clone, Copy, Debug, PartialEq, Eq, Hash, PartialOrd, Ord)]
pub enum Rule {
    program,
    arg_count,
    commands,
    command,
    EOI,
}

/// A command as the grammar reads it: integers are not yet bounded.
pub enum Parsed {
    Number(int),
    Word(SpecCommand),
    Sequence(Seq<Parsed>),
}

pub open spec fn is_space(c: char) -> bool {
    c == ' ' || c == '\t' || c == '\n' || c == '\r'
}

pub open spec fn is_digit(c: char) -> bool {
    '0' <= c && c <= '9'
}

/// The first position at or after `i` that does not hold a space.
pub open spec fn skip_space(s: Seq<char>, i: int) -> int
    decreases s.len() - i,
{
    if 0 <= i < s.len() && is_space(s[i]) {
        skip_space(s, i + 1)
    } else {
        i
    }
}

/// The end of the run of digits that starts at `i`.
pub open spec fn digits_end(s: Seq<char>, i: int) -> int
    decreases s.len() - i,
{
    if 0 <= i < s.len() && is_digit(s[i]) {
        digits_end(s, i + 1)
    } else {
        i
    }
}

/// The value of the decimal digits `s[i..j]`.
pub open spec fn digits_value(s: Seq<char>, i: int, j: int) -> int
    decreases j - i,
{
    if j <= i {
        0
    } else {
        digits_value(s, i, j - 1) * 10 + (s[j - 1] as int - 48)
    }
}

/// Whether `w` stands in `s` at position `i`.
pub open spec fn has_text(s: Seq<char>, i: int, w: Seq<char>) -> bool {
    0 <= i && i + w.len() <= s.len() && s.subrange(i, i + w.len()) == w
}

/// The operator written at `i`, if one is.
pub open spec fn word_at(s: Seq<char>, i: int) -> Option<SpecCommand> {
    if has_text(s, i, command_text(SpecCommand::Add)) {
        Some(SpecCommand::Add)
    } else if has_text(s, i, command_text(SpecCommand::Sub)) {
        Some(SpecCommand::Sub)
    } else if has_text(s, i, command_text(SpecCommand::Mul)) {
        Some(SpecCommand::Mul)
    } else if has_text(s, i, command_text(SpecCommand::Div)) {
        Some(SpecCommand::Div)
    } else if has_text(s, i, command_text(SpecCommand::Rem)) {
        Some(SpecCommand::Rem)
    } else if has_text(s, i, command_text(SpecCommand::Lt)) {
        Some(SpecCommand::Lt)
    } else if has_text(s, i, command_text(SpecCommand::Gt)) {
        Some(SpecCommand::Gt)
    } else if has_text(s, i, command_text(SpecCommand::Eq)) {
        Some(SpecCommand::Eq)
    } else if has_text(s, i, command_text(SpecCommand::Pop)) {
        Some(SpecCommand::Pop)
    } else if has_text(s, i, command_text(SpecCommand::Swap)) {
        Some(SpecCommand::Swap)
    } else if has_text(s, i, command_text(SpecCommand::Sel)) {
        Some(SpecCommand::Sel)
    } else if has_text(s, i, command_text(SpecCommand::Nget)) {
        Some(SpecCommand::Nget)
    } else if has_text(s, i, command_text(SpecCommand::Exec)) {
        Some(SpecCommand::Exec)
    } else {
        None
    }
}

/// Whether a number starts at `i`: a digit, or `-` and a digit.
pub open spec fn number_at(s: Seq<char>, i: int) -> bool {
    (0 <= i < s.len() && is_digit(s[i])) || (0 <= i && i + 1 < s.len() && s[i] == '-' && is_digit(s[i + 1]))
}

pub proof fn lemma_skip_space(s: Seq<char>, i: int)
    ensures
        skip_space(s, i) >= i,
        0 <= i <= s.len() ==> skip_space(s, i) <= s.len(),
    decreases s.len() - i,
{
    if 0 <= i < s.len() && is_space(s[i]) {
        lemma_skip_space(s, i + 1);
    }
}

pub proof fn lemma_digits_end(s: Seq<char>, i: int)
    ensures
        digits_end(s, i) >= i,
        0 <= i <= s.len() ==> digits_end(s, i) <= s.len(),
    decreases s.len() - i,
{
    if 0 <= i < s.len() && is_digit(s[i]) {
        lemma_digits_end(s, i + 1);
    }
}

pub proof fn lemma_digits_run(s: Seq<char>, i: int, k: int)
    requires
        0 <= i <= k < digits_end(s, i),
    ensures
        is_digit(s[k]),
    decreases s.len() - i,
{
    if 0 <= i < s.len() && is_digit(s[i]) {
        if k > i {
            lemma_digits_run(s, i + 1, k);
        }
    }
}

/// Reads one command at `i` (spaces already skipped): the command and the
/// position after it, or the position and rule of the syntax error.
pub open spec fn read_command(s: Seq<char>, i: int) -> Result<(Parsed, int), (int, Rule)>
    decreases s.len() - i, 0int,
{
    if 0 <= i < s.len() && s[i] == '(' {
        match read_items(s, i + 1) {
            Ok((items, j)) => Ok((Parsed::Sequence(items), j)),
            Err(e) => Err(e),
        }
    } else if number_at(s, i) {
        let neg = s[i] == '-';
        let start = if neg { i + 1 } else { i };
        let end = digits_end(s, start);
        let v = digits_value(s, start, end);
        Ok((Parsed::Number(if neg { -v } else { v }), end))
    } else {
        match word_at(s, i) {
            Some(w) => Ok((Parsed::Word(w), i + command_text(w).len())),
            None => Err((i, Rule::command)),
        }
    }
}

/// Reads commands from `i` up to and including the `)` that closes them.
pub open spec fn read_items(s: Seq<char>, i: int) -> Result<(Seq<Parsed>, int), (int, Rule)>
    decreases s.len() - i, 1int,
{
    let j = skip_space(s, i);
    proof {
        lemma_skip_space(s, i);
    }
    if 0 <= j < s.len() && s[j] == ')' {
        Ok((Seq::empty(), j + 1))
    } else {
        match read_command(s, j) {
            Err(e) => Err(e),
            Ok((c, k)) => {
                if k <= j || k > s.len() {
                    Err((j, Rule::command))
                } else {
                    match read_items(s, k) {
                        Err(e) => Err(e),
                        Ok((cs, e)) => Ok((seq![c] + cs, e)),
                    }
                }
            },
        }
    }
}

/// The syntax of a whole program: the span of the argument count and the
/// commands, or the position and rule of the syntax error.
pub open spec fn read_program(s: Seq<char>) -> Result<(int, int, Seq<Parsed>), (int, Rule)> {
    let p0 = skip_space(s, 0);
    if !has_text(s, p0, "("@) {
        Err((p0, Rule::program))
    } else {
        let p1 = skip_space(s, p0 + 1);
        if !has_text(s, p1, "postfix"@) {
            Err((p1, Rule::program))
        } else {
            let p2 = skip_space(s, p1 + 7);
            let p3 = digits_end(s, p2);
            if p3 == p2 {
                Err((p2, Rule::arg_count))
            } else {
                let p4 = skip_space(s, p3);
                if !has_text(s, p4, "("@) {
                    Err((p4, Rule::commands))
                } else {
                    match read_items(s, p4 + 1) {
                        Err(e) => Err(e),
                        Ok((items, p5)) => {
                            let p6 = skip_space(s, p5);
                            if !has_text(s, p6, ")"@) {
                                Err((p6, Rule::program))
                            } else {
                                let p7 = skip_space(s, p6 + 1);
                                if p7 < s.len() {
                                    Err((p7, Rule::EOI))
                                } else {
                                    Ok((p2, p3, items))
                                }
                            }
                        },
                    }
                }
            }
        }
    }
}

/// Whether every integer literal in `p` fits in an `i32`.
pub open spec fn fits(p: Parsed) -> bool
    decreases p,
{
    match p {
        Parsed::Number(v) => i32::MIN <= v <= i32::MAX,
        Parsed::Word(_) => true,
        Parsed::Sequence(items) => forall|k: int| 0 <= k < items.len() ==> fits(#[trigger] items[k]),
    }
}

/// The command that `p` stands for, when its literals fit.
pub open spec fn to_command(p: Parsed) -> SpecCommand
    decreases p,
{
    match p {
        Parsed::Number(v) => SpecCommand::Number(v as i32),
        Parsed::Word(w) => w,
        Parsed::Sequence(items) => SpecCommand::Sequence(to_commands(items)),
    }
}

/// The commands that `items` stand for.
pub open spec fn to_commands(items: Seq<Parsed>) -> Seq<SpecCommand>
    decreases items,
{
    Seq::new(items.len(), |k: int| if 0 <= k < items.len() { to_command(items[k]) } else { SpecCommand::Add })
}

/// How reading a program against its arguments ends.
pub enum ProgramParse {
    /// A syntax error at this position, where this rule was expected.
    SyntaxError(int, Rule),
    /// The argument count does not fit in a `usize`.
    ArgCountTooLarge,
    /// The program declares this many arguments, and another number was given.
    ArgCountMismatch(nat),
    /// An integer literal does not fit in an `i32`.
    NumberOutOfRange,
    /// The program's commands.
    Commands(Seq<SpecCommand>),
}

/// Reads program `s`, which is to run with `n_args` arguments.
pub open spec fn parse_program_spec(s: Seq<char>, n_args: nat) -> ProgramParse {
    match read_program(s) {
        Err((pos, rule)) => ProgramParse::SyntaxError(pos, rule),
        Ok((start, end, items)) => {
            let declared = digits_value(s, start, end);
            if declared > usize::MAX {
                ProgramParse::ArgCountTooLarge
            } else if declared != n_args {
                ProgramParse::ArgCountMismatch(declared as nat)
            } else if !(forall|k: int| 0 <= k < items.len() ==> fits(#[trigger] items[k])) {
                ProgramParse::NumberOutOfRange
            } else {
                ProgramParse::Commands(to_commands(items))
            }
        },
    }
}

} // verus!
