//! Reading PostFix programs.
use vstd::prelude::*;

use crate::ast::{commands_model, Command, SpecCommand};
use crate::grammar::{
    digits_end, digits_value, fits, has_text, is_digit, is_space, lemma_digits_end,
    lemma_digits_run, number_at, read_command, read_items, read_program, to_command, to_commands,
    word_at, Parsed, Rule,
};
use crate::grammar::{parse_program_spec, ProgramParse};
use crate::text::{command_text, nat_text, push_nat};
use vstd::string::StringSliceAdditionalSpecFns;
use vstd::utf8::{
    encode_scalar, encode_utf8, encode_utf8_first_scalar, encode_utf8_valid_utf8, is_char_boundary,
    pop_first_scalar,
};

verus! {

/// The characters of `program`.
fn program_chars(program: &str) -> (v: Vec<char>)
    ensures
        v@ == program@,
{
    let mut v: Vec<char> = Vec::new();
    for c in it: program.chars()
        invariant
            v@ == it.seq().take(it.index() as int),
    {
        v.push(c);
    }
    v
}

fn space(c: char) -> (r: bool)
    ensures
        r == is_space(c),
{
    c == ' ' || c == '\t' || c == '\n' || c == '\r'
}

fn digit(c: char) -> (r: bool)
    ensures
        r == is_digit(c),
{
    '0' <= c && c <= '9'
}

/// The first position at or after `i` that does not hold a space.
fn skip_spaces(s: &Vec<char>, i: usize) -> (r: usize)
    requires
        i <= s@.len(),
    ensures
        r == crate::grammar::skip_space(s@, i as int),
        i <= r <= s@.len(),
{
    let mut j = i;
    while j < s.len() && space(s[j])
        invariant
            i <= j <= s@.len(),
            crate::grammar::skip_space(s@, j as int) == crate::grammar::skip_space(s@, i as int),
        decreases s@.len() - j,
    {
        j = j + 1;
    }
    j
}

/// Whether `w` stands in `s` at position `i`; the position after it when it does.
fn text_at(s: &Vec<char>, i: usize, w: &str) -> (r: Option<usize>)
    requires
        i <= s@.len(),
    ensures
        r is Some == has_text(s@, i as int, w@),
        r matches Some(e) ==> e == i + w@.len(),
{
    let n = w.unicode_len();
    let len = s.len();
    if n > len - i {
        return None;
    }
    let mut k: usize = 0;
    while k < n
        invariant
            n == w@.len(),
            len == s@.len(),
            i + n <= len,
            k <= n,
            forall|j: int| 0 <= j < k ==> s@[i + j] == w@[j],
        decreases n - k,
    {
        if s[i + k] != w.get_char(k) {
            proof {
                assert(s@.subrange(i as int, i + n)[k as int] != w@[k as int]);
            }
            return None;
        }
        k = k + 1;
    }
    proof {
        assert(s@.subrange(i as int, i + n) =~= w@);
    }
    Some(i + n)
}

/// The operator written at `i`, with the position after it.
fn word(s: &Vec<char>, i: usize) -> (r: Option<(Command, usize)>)
    requires
        i <= s@.len(),
    ensures
        match word_at(s@, i as int) {
            Some(w) => r matches Some((c, e)) && c@ == w && e == i + command_text(w).len(),
            None => r is None,
        },
{
    if let Some(e) = text_at(s, i, "add") {
        return Some((Command::Add, e));
    }
    if let Some(e) = text_at(s, i, "sub") {
        return Some((Command::Sub, e));
    }
    if let Some(e) = text_at(s, i, "mul") {
        return Some((Command::Mul, e));
    }
    if let Some(e) = text_at(s, i, "div") {
        return Some((Command::Div, e));
    }
    if let Some(e) = text_at(s, i, "rem") {
        return Some((Command::Rem, e));
    }
    if let Some(e) = text_at(s, i, "lt") {
        return Some((Command::Lt, e));
    }
    if let Some(e) = text_at(s, i, "gt") {
        return Some((Command::Gt, e));
    }
    if let Some(e) = text_at(s, i, "eq") {
        return Some((Command::Eq, e));
    }
    if let Some(e) = text_at(s, i, "pop") {
        return Some((Command::Pop, e));
    }
    if let Some(e) = text_at(s, i, "swap") {
        return Some((Command::Swap, e));
    }
    if let Some(e) = text_at(s, i, "sel") {
        return Some((Command::Sel, e));
    }
    if let Some(e) = text_at(s, i, "nget") {
        return Some((Command::Nget, e));
    }
    if let Some(e) = text_at(s, i, "exec") {
        return Some((Command::Exec, e));
    }
    None
}

/// Whether an executable command result agrees with the grammar's.
pub open spec fn command_agrees(
    r: Result<(Command, usize, bool), (usize, Rule)>,
    g: Result<(Parsed, int), (int, Rule)>,
) -> bool {
    match (r, g) {
        (Ok((c, e, f)), Ok((p, k))) => e == k && f == fits(p) && (f ==> c@ == to_command(p)),
        (Err((pos, rule)), Err((q, rule2))) => pos == q && rule == rule2,
        _ => false,
    }
}

/// Whether every item fits.
pub open spec fn all_fit(items: Seq<Parsed>) -> bool {
    forall|k: int| 0 <= k < items.len() ==> fits(#[trigger] items[k])
}

/// Whether an executable list result agrees with the grammar's.
pub open spec fn items_agree(
    r: Result<(Vec<Command>, usize, bool), (usize, Rule)>,
    g: Result<(Seq<Parsed>, int), (int, Rule)>,
) -> bool {
    match (r, g) {
        (Ok((v, e, f)), Ok((items, k))) => e == k && f == all_fit(items) && (f ==> commands_model(v) == to_commands(items)),
        (Err((pos, rule)), Err((q, rule2))) => pos == q && rule == rule2,
        _ => false,
    }
}

/// `g` with `done` put in front of the items it read.
pub open spec fn after(done: Seq<Parsed>, g: Result<(Seq<Parsed>, int), (int, Rule)>) -> Result<(Seq<Parsed>, int), (int, Rule)> {
    match g {
        Ok((items, e)) => Ok((done + items, e)),
        Err(x) => Err(x),
    }
}

proof fn lemma_digits_value_grows(s: Seq<char>, i: int, j: int)
    requires
        i <= j,
        forall|k: int| i <= k < j ==> is_digit(#[trigger] s[k]),
    ensures
        digits_value(s, i, j) >= 0,
    decreases j - i,
{
    if j > i {
        lemma_digits_value_grows(s, i, j - 1);
    }
}

/// Reads the integer literal at `i`: its value when it fits in an `i32`, the
/// position after it, and whether it fits.
fn number(s: &Vec<char>, i: usize) -> (r: (i32, usize, bool))
    requires
        i <= s@.len(),
        number_at(s@, i as int),
    ensures
        ({
            let neg = s@[i as int] == '-';
            let start = if neg { i + 1 } else { i as int };
            let end = digits_end(s@, start);
            let v = digits_value(s@, start, end);
            let val = if neg { -v } else { v };
            &&& r.1 == end
            &&& r.1 <= s@.len()
            &&& r.2 == (i32::MIN <= val <= i32::MAX)
            &&& r.2 ==> r.0 == val
        }),
{
    let len = s.len();
    let neg = s[i] == '-';
    let start: usize = if neg { i + 1 } else { i };
    let mut k: usize = start;
    let mut acc: u64 = 0;
    let mut big = false;
    while k < len && digit(s[k])
        invariant
            len == s@.len(),
            start <= k <= len,
            digits_end(s@, k as int) == digits_end(s@, start as int),
            forall|j: int| start <= j < k ==> is_digit(#[trigger] s@[j]),
            !big ==> acc == digits_value(s@, start as int, k as int) && acc <= 0x8000_0000,
            big ==> digits_value(s@, start as int, k as int) > 0x8000_0000,
        decreases len - k,
    {
        let d = s[k];
        proof {
            lemma_digits_value_grows(s@, start as int, k as int);
        }
        if !big {
            let dv: u64 = (d as u32 - '0' as u32) as u64;
            acc = acc * 10 + dv;
            if acc > 0x8000_0000 {
                big = true;
            }
        }
        k = k + 1;
    }
    proof {
        lemma_digits_value_grows(s@, start as int, k as int);
        lemma_digits_end(s@, start as int);
    }
    if big {
        (0, k, false)
    } else if neg {
        let v: i64 = -(acc as i64);
        (v as i32, k, true)
    } else if acc > 0x7fff_ffff {
        (0, k, false)
    } else {
        (acc as i32, k, true)
    }
}

/// Reads one command at `i` (spaces already skipped).
fn parse_command(s: &Vec<char>, i: usize) -> (r: Result<(Command, usize, bool), (usize, Rule)>)
    requires
        i <= s@.len(),
    ensures
        command_agrees(r, read_command(s@, i as int)),
        r matches Ok((c, e, f)) ==> e <= s@.len(),
        r matches Err((pos, rule)) ==> pos <= s@.len(),
    decreases s@.len() - i, 0int,
{
    let len = s.len();
    if i < len && s[i] == '(' {
        match parse_commands(s, i + 1) {
            Ok((items, e, f)) => {
                proof {
                    if f {
                        assert(commands_model(items) == to_commands((read_items(s@, i + 1)->Ok_0).0));
                    }
                }
                Ok((Command::Sequence(items), e, f))
            },
            Err(x) => Err(x),
        }
    } else if (i < len && digit(s[i])) || (i < len && s[i] == '-' && i + 1 < len && digit(s[i + 1])) {
        let (v, e, f) = number(s, i);
        Ok((Command::Number(v), e, f))
    } else {
        match word(s, i) {
            Some((c, e)) => Ok((c, e, true)),
            None => Err((i, Rule::command)),
        }
    }
}

/// Reads commands from `i` up to and including the `)` that closes them.
fn parse_commands(s: &Vec<char>, i: usize) -> (r: Result<(Vec<Command>, usize, bool), (usize, Rule)>)
    requires
        i <= s@.len(),
    ensures
        items_agree(r, read_items(s@, i as int)),
        r matches Ok((v, e, f)) ==> e <= s@.len(),
        r matches Err((pos, rule)) ==> pos <= s@.len(),
    decreases s@.len() - i, 1int,
{
    let len = s.len();
    let mut out: Vec<Command> = Vec::new();
    let mut ok = true;
    let ghost mut done: Seq<Parsed> = Seq::empty();
    let mut cur = i;
    proof {
        assert(after(done, read_items(s@, i as int)) =~= read_items(s@, i as int)) by {
            match read_items(s@, i as int) {
                Ok((items, e)) => { assert(done + items =~= items); },
                Err(_) => {},
            }
        }
        assert(commands_model(out) =~= to_commands(done));
    }
    loop
        invariant
            len == s@.len(),
            i <= cur <= len,
            read_items(s@, i as int) == after(done, read_items(s@, cur as int)),
            ok == all_fit(done),
            ok ==> commands_model(out) == to_commands(done),
        decreases len - cur,
    {
        let j = skip_spaces(s, cur);
        if j < len && s[j] == ')' {
            proof {
                assert(done + Seq::<Parsed>::empty() =~= done);
            }
            return Ok((out, j + 1, ok));
        }
        match parse_command(s, j) {
            Err(x) => {
                return Err(x);
            },
            Ok((c, k, f)) => {
                if k <= j || k > len {
                    return Err((j, Rule::command));
                }
                let ghost p = (read_command(s@, j as int)->Ok_0).0;
                let ghost prev_out = out;
                proof {
                    match read_items(s@, k as int) {
                        Ok((cs, e)) => {
                            assert(done + (seq![p] + cs) =~= done.push(p) + cs);
                        },
                        Err(_) => {},
                    }
                }
                out.push(c);
                ok = ok && f;
                proof {
                    let d2 = done.push(p);
                    assert(d2.drop_last() =~= done);
                    if ok {
                        assert(c@ == to_command(p));
                        assert(commands_model(prev_out) == to_commands(done));
                        assert forall|t: int| 0 <= t < d2.len() implies #[trigger] commands_model(out)[t] == to_commands(d2)[t] by {
                            if t < done.len() {
                                assert(out@[t] == prev_out@[t]);
                                assert(commands_model(prev_out)[t] == to_commands(done)[t]);
                            }
                        }
                        assert(commands_model(out) =~= to_commands(d2));
                    }
                    assert(ok == all_fit(d2)) by {
                        if ok {
                            assert forall|t: int| 0 <= t < d2.len() implies fits(#[trigger] d2[t]) by {
                                if t < done.len() {
                                    assert(d2[t] == done[t]);
                                }
                            }
                        } else if !f {
                            assert(!fits(d2[d2.len() - 1]));
                        } else {
                            let t = choose|t: int| 0 <= t < done.len() && !fits(#[trigger] done[t]);
                            assert(d2[t] == done[t]);
                        }
                    }
                    done = d2;
                }
                cur = k;
            },
        }
    }
}

/// Whether an executable syntax result agrees with the grammar's.
pub open spec fn syntax_agrees(
    r: Result<(usize, usize, Vec<Command>, bool), (usize, Rule)>,
    g: Result<(int, int, Seq<Parsed>), (int, Rule)>,
) -> bool {
    match (r, g) {
        (Ok((a, b, v, f)), Ok((a2, b2, items))) => a == a2 && b == b2 && f == all_fit(items)
            && (f ==> commands_model(v) == to_commands(items)),
        (Err((pos, rule)), Err((q, rule2))) => pos == q && rule == rule2,
        _ => false,
    }
}

/// The end of the run of digits that starts at `i`.
fn digits_from(s: &Vec<char>, i: usize) -> (r: usize)
    requires
        i <= s@.len(),
    ensures
        r == digits_end(s@, i as int),
        i <= r <= s@.len(),
{
    let mut j = i;
    while j < s.len() && digit(s[j])
        invariant
            i <= j <= s@.len(),
            digits_end(s@, j as int) == digits_end(s@, i as int),
        decreases s@.len() - j,
    {
        j = j + 1;
    }
    j
}

/// Reads the syntax of a whole program.
fn syntax(s: &Vec<char>) -> (r: Result<(usize, usize, Vec<Command>, bool), (usize, Rule)>)
    ensures
        syntax_agrees(r, read_program(s@)),
        r matches Ok((a, b, v, f)) ==> a <= b <= s@.len(),
        r matches Err((pos, rule)) ==> pos <= s@.len(),
{
    proof {
        reveal_strlit("(");
        reveal_strlit(")");
        reveal_strlit("postfix");
    }
    let p0 = skip_spaces(s, 0);
    let p0e = match text_at(s, p0, "(") {
        Some(e) => e,
        None => { return Err((p0, Rule::program)); },
    };
    let p1 = skip_spaces(s, p0e);
    let p1e = match text_at(s, p1, "postfix") {
        Some(e) => e,
        None => { return Err((p1, Rule::program)); },
    };
    let p2 = skip_spaces(s, p1e);
    let p3 = digits_from(s, p2);
    if p3 == p2 {
        return Err((p2, Rule::arg_count));
    }
    let p4 = skip_spaces(s, p3);
    let p4e = match text_at(s, p4, "(") {
        Some(e) => e,
        None => { return Err((p4, Rule::commands)); },
    };
    match parse_commands(s, p4e) {
        Err(x) => Err(x),
        Ok((items, p5, f)) => {
            let p6 = skip_spaces(s, p5);
            let p6e = match text_at(s, p6, ")") {
                Some(e) => e,
                None => { return Err((p6, Rule::program)); },
            };
            let p7 = skip_spaces(s, p6e);
            if p7 < s.len() {
                Err((p7, Rule::EOI))
            } else {
                Ok((p2, p3, items, f))
            }
        },
    }
}

/// The value of the digits `s[i..j]`, or `None` when it does not fit in a `usize`.
fn count_value(s: &Vec<char>, i: usize, j: usize) -> (r: Option<usize>)
    requires
        i <= j <= s@.len(),
        forall|k: int| i <= k < j ==> is_digit(#[trigger] s@[k]),
    ensures
        r is None <==> digits_value(s@, i as int, j as int) > usize::MAX,
        r matches Some(v) ==> v == digits_value(s@, i as int, j as int),
{
    let mut k = i;
    let mut acc: usize = 0;
    let mut big = false;
    while k < j
        invariant
            i <= k <= j,
            j <= s@.len(),
            forall|t: int| i <= t < j ==> is_digit(#[trigger] s@[t]),
            !big ==> acc == digits_value(s@, i as int, k as int),
            big ==> digits_value(s@, i as int, k as int) > usize::MAX,
        decreases j - k,
    {
        proof {
            lemma_digits_value_grows(s@, i as int, k as int);
        }
        if !big {
            let d: usize = (s[k] as u32 - '0' as u32) as usize;
            match acc.checked_mul(10) {
                Some(m) => match m.checked_add(d) {
                    Some(v) => { acc = v; },
                    None => { big = true; },
                },
                None => {
                    big = true;
                },
            }
        }
        k = k + 1;
    }
    if big { None } else { Some(acc) }
}

/// The offset in bytes of character `pos` of `s`, in its UTF-8 encoding.
pub open spec fn byte_offset(s: Seq<char>, pos: int) -> int {
    encode_utf8(s.take(pos)).len() as int
}

proof fn lemma_prefix_boundary(s: Seq<char>, k: int)
    requires
        0 <= k <= s.len(),
    ensures
        is_char_boundary(encode_utf8(s), byte_offset(s, k)),
        byte_offset(s, k) <= encode_utf8(s).len(),
    decreases k,
{
    encode_utf8_valid_utf8(s);
    if k == 0 {
        assert(s.take(0) =~= Seq::<char>::empty());
    } else {
        let rest = s.drop_first();
        encode_utf8_first_scalar(s);
        encode_utf8_valid_utf8(rest);
        lemma_prefix_boundary(rest, k - 1);
        assert(pop_first_scalar(encode_utf8(s)) =~= encode_utf8(rest));
        assert(s.take(k).drop_first() =~= rest.take(k - 1));
        assert(encode_utf8(s.take(k)) =~= encode_scalar(s[0] as u32) + encode_utf8(rest.take(k - 1)));
        assert(encode_utf8(s) =~= encode_scalar(s[0] as u32) + encode_utf8(rest));
    }
}

/// What pest displays for a parsing error in `input` at byte `byte_pos`,
/// where rule `expected` was expected.
pub uninterp spec fn pest_parse_error(input: Seq<char>, byte_pos: int, expected: Rule) -> Seq<char>;

/// Renders a syntax error as pest displays one: `pest::Position::new(input,
/// byte_pos)`, which is `Some` exactly when `byte_pos` is a character boundary
/// of `input` (the `requires`), then `pest::error::Error::new_from_pos` with
/// `ErrorVariant::ParsingError { positives: [expected], negatives: [] }`,
/// formatted by its `Display`. The contract claims only that the text is a
/// function of the input, the position and the rule; what the text says (the
/// line and column, the line of input, the `expected ...` note) is left
/// unstated.
#[verifier::external_body]
fn render_pest_error(input: &str, byte_pos: usize, expected: Rule) -> (r: String)
    requires
        is_char_boundary(input.spec_bytes(), byte_pos as int),
    ensures
        r@ == pest_parse_error(input@, byte_pos as int, expected),
{
    let variant = pest::error::ErrorVariant::ParsingError { positives: vec![expected], negatives: Vec::new() };
    match pest::Position::new(input, byte_pos) {
        Some(at) => pest::error::Error::new_from_pos(variant, at).to_string(),
        None => String::new(),
    }
}

/// The message of a syntax error at character `pos` of `program`.
pub open spec fn syntax_error_message(program: Seq<char>, pos: int, rule: Rule) -> Seq<char> {
    "Parse error: "@ + pest_parse_error(program, byte_offset(program, pos), rule)
}

/// What `parse_program` answers, when no integer literal is out of range.
pub open spec fn parse_answer(program: Seq<char>, n_args: nat) -> Result<Seq<SpecCommand>, Seq<char>> {
    match parse_program_spec(program, n_args) {
        ProgramParse::SyntaxError(pos, rule) => Err(syntax_error_message(program, pos, rule)),
        ProgramParse::ArgCountTooLarge => Err("Invalid arg count: number too large to fit in target type"@),
        ProgramParse::ArgCountMismatch(n) => Err("Arg count mismatch: expected "@ + nat_text(n)
            + " arguments, got "@ + nat_text(n_args)),
        ProgramParse::NumberOutOfRange => Err(Seq::empty()),
        ProgramParse::Commands(cs) => Ok(cs),
    }
}

/// Reads `program`, which is to run with `args`; `None` when an integer
/// literal does not fit in an `i32`.
pub fn parse_program_checked(program: &str, args: &[i32]) -> (r: Option<Result<Vec<Command>, String>>)
    ensures
        r is None <==> parse_program_spec(program@, args@.len()) is NumberOutOfRange,
        r matches Some(Ok(v)) ==> parse_answer(program@, args@.len()) == Ok::<Seq<SpecCommand>, Seq<char>>(commands_model(v)),
        r matches Some(Err(m)) ==> parse_answer(program@, args@.len()) == Err::<Seq<SpecCommand>, Seq<char>>(m@),
{
    let s = program_chars(program);
    match syntax(&s) {
        Err((pos, rule)) => {
            let total = program.as_bytes().len();
            let prefix = program.substring_char(0, pos);
            let byte_pos = prefix.len();
            proof {
                assert(prefix@ =~= program@.take(pos as int));
                lemma_prefix_boundary(program@, pos as int);
                assert(byte_pos == byte_offset(program@, pos as int));
            }
            let mut msg = String::from_str("Parse error: ");
            let detail = render_pest_error(program, byte_pos, rule);
            msg.append(detail.as_str());
            Some(Err(msg))
        },
        Ok((start, end, items, f)) => {
            proof {
                lemma_digits_end(s@, start as int);
                assert forall|k: int| start <= k < end implies is_digit(#[trigger] s@[k]) by {
                    lemma_digits_run(s@, start as int, k);
                }
            }
            match count_value(&s, start, end) {
                None => Some(Err(String::from_str("Invalid arg count: number too large to fit in target type"))),
                Some(declared) => {
                    if declared != args.len() {
                        let mut msg = String::from_str("Arg count mismatch: expected ");
                        push_nat(&mut msg, declared as u64);
                        msg.append(" arguments, got ");
                        push_nat(&mut msg, args.len() as u64);
                        Some(Err(msg))
                    } else if !f {
                        None
                    } else {
                        Some(Ok(items))
                    }
                },
            }
        },
    }
}

/// Reads `program`, which is to run with `args`: its commands, or the message
/// of the error that stops it.
pub fn parse_program(program: &str, args: &[i32]) -> (r: Result<Vec<Command>, String>)
    requires
        !(parse_program_spec(program@, args@.len()) is NumberOutOfRange),
    ensures
        match parse_answer(program@, args@.len()) {
            Ok(cs) => r matches Ok(v) && commands_model(v) == cs,
            Err(m) => r matches Err(e) && e@ == m,
        },
{
    match parse_program_checked(program, args) {
        Some(r) => r,
        None => Err(String::new()),
    }
}

} // verus!
