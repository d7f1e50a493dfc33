//! Reading back what the formatter writes: the text of a command, of a
//! sequence and of a whole program reads as the same commands.
use vstd::prelude::*;

use crate::ast::SpecCommand;
use crate::grammar::{
    digits_end, digits_value, fits, has_text, is_digit, is_space, to_command, to_commands, Parsed,
    Rule,
};
use crate::grammar::{parse_program_spec, ProgramParse};
use crate::text::{command_text, digit_char, nat_text, sequence_text, words_text};

verus! {

/// What the grammar reads for command `c`.
pub open spec fn parsed_of(c: SpecCommand) -> Parsed
    decreases c,
{
    match c {
        SpecCommand::Number(n) => Parsed::Number(n as int),
        SpecCommand::Sequence(s) => Parsed::Sequence(parsed_seq(s)),
        _ => Parsed::Word(c),
    }
}

/// What the grammar reads for the commands `cs`.
pub open spec fn parsed_seq(cs: Seq<SpecCommand>) -> Seq<Parsed>
    decreases cs,
{
    Seq::new(cs.len(), |k: int| if 0 <= k < cs.len() { parsed_of(cs[k]) } else { Parsed::Number(0) })
}

proof fn lemma_to_command_parsed(c: SpecCommand)
    ensures
        to_command(parsed_of(c)) == c,
        fits(parsed_of(c)),
    decreases c,
{
    match c {
        SpecCommand::Sequence(s) => {
            lemma_to_commands_parsed(s);
        },
        _ => {},
    }
}

proof fn lemma_to_commands_parsed(cs: Seq<SpecCommand>)
    ensures
        to_commands(parsed_seq(cs)) == cs,
        forall|k: int| 0 <= k < cs.len() ==> fits(#[trigger] parsed_seq(cs)[k]),
    decreases cs,
{
    assert forall|k: int| 0 <= k < cs.len() implies to_command(#[trigger] parsed_seq(cs)[k]) == cs[k] && fits(parsed_seq(cs)[k]) by {
        lemma_to_command_parsed(cs[k]);
    }
    assert(to_commands(parsed_seq(cs)) =~= cs);
}

proof fn lemma_nat_text_digits(n: nat)
    ensures
        nat_text(n).len() >= 1,
        forall|k: int| 0 <= k < nat_text(n).len() ==> is_digit(#[trigger] nat_text(n)[k]),
    decreases n,
{
    if n >= 10 {
        lemma_nat_text_digits(n / 10);
    }
}

proof fn lemma_digits_value_text(s: Seq<char>, i: int, n: nat)
    requires
        has_text(s, i, nat_text(n)),
    ensures
        digits_value(s, i, i + nat_text(n).len()) == n,
    decreases n,
{
    let t = nat_text(n);
    assert(s[i + t.len() - 1] == t[t.len() - 1]) by {
        assert(s.subrange(i, i + t.len())[t.len() - 1] == t[t.len() - 1]);
    }
    let d = n % 10;
    assert(t[t.len() - 1] == digit_char(d));
    assert(digit_char(d) as int == 48 + d);
    if n >= 10 {
        let u = nat_text(n / 10);
        assert(t.subrange(0, u.len() as int) =~= u);
        assert(s.subrange(i, i + u.len()) =~= s.subrange(i, i + t.len()).subrange(0, u.len() as int));
        lemma_digits_value_text(s, i, n / 10);
        assert(n == (n / 10) * 10 + n % 10);
        assert(digits_value(s, i, i + t.len()) == digits_value(s, i, i + u.len()) * 10 + (s[i + t.len() - 1] as int - 48));
    } else {
        assert(digits_value(s, i, i + 1) == digits_value(s, i, i) * 10 + (s[i] as int - 48));
    }
}

proof fn lemma_digits_end_at(s: Seq<char>, i: int, k: int)
    requires
        0 <= i <= k <= s.len(),
        forall|t: int| i <= t < k ==> is_digit(#[trigger] s[t]),
        k == s.len() || !is_digit(s[k]),
    ensures
        digits_end(s, i) == k,
    decreases k - i,
{
    if i < k {
        lemma_digits_end_at(s, i + 1, k);
    }
}

/// The operators: the commands that are written as a word.
pub open spec fn is_word(c: SpecCommand) -> bool {
    !(c is Number) && !(c is Sequence)
}


/// The first two characters of `t` at `i`, when `t` stands there.
proof fn lemma_has_text_chars(s: Seq<char>, i: int, t: Seq<char>)
    requires
        has_text(s, i, t),
        t.len() >= 2,
    ensures
        s[i] == t[0],
        s[i + 1] == t[1],
{
    assert(s.subrange(i, i + t.len())[0] == t[0]);
    assert(s.subrange(i, i + t.len())[1] == t[1]);
}

proof fn lemma_word_read(s: Seq<char>, i: int, c: SpecCommand)
    requires
        is_word(c),
        has_text(s, i, command_text(c)),
    ensures
        crate::grammar::word_at(s, i) == Some(c),
        !crate::grammar::number_at(s, i),
        s[i] != '(',
{
    reveal_strlit("add");
    reveal_strlit("sub");
    reveal_strlit("mul");
    reveal_strlit("div");
    reveal_strlit("rem");
    reveal_strlit("lt");
    reveal_strlit("gt");
    reveal_strlit("eq");
    reveal_strlit("pop");
    reveal_strlit("swap");
    reveal_strlit("sel");
    reveal_strlit("nget");
    reveal_strlit("exec");
    let t = command_text(c);
    lemma_has_text_chars(s, i, t);
    let ws = seq![
        SpecCommand::Add, SpecCommand::Sub, SpecCommand::Mul, SpecCommand::Div, SpecCommand::Rem,
        SpecCommand::Lt, SpecCommand::Gt, SpecCommand::Eq, SpecCommand::Pop, SpecCommand::Swap,
        SpecCommand::Sel, SpecCommand::Nget, SpecCommand::Exec,
    ];
    assert forall|k: int| 0 <= k < ws.len() && ws[k] != c implies !has_text(s, i, #[trigger] command_text(ws[k])) by {
        if has_text(s, i, command_text(ws[k])) {
            lemma_has_text_chars(s, i, command_text(ws[k]));
        }
    }
    assert(!has_text(s, i, command_text(ws[0])) || c == ws[0]);
    assert(!has_text(s, i, command_text(ws[1])) || c == ws[1]);
    assert(!has_text(s, i, command_text(ws[2])) || c == ws[2]);
    assert(!has_text(s, i, command_text(ws[3])) || c == ws[3]);
    assert(!has_text(s, i, command_text(ws[4])) || c == ws[4]);
    assert(!has_text(s, i, command_text(ws[5])) || c == ws[5]);
    assert(!has_text(s, i, command_text(ws[6])) || c == ws[6]);
    assert(!has_text(s, i, command_text(ws[7])) || c == ws[7]);
    assert(!has_text(s, i, command_text(ws[8])) || c == ws[8]);
    assert(!has_text(s, i, command_text(ws[9])) || c == ws[9]);
    assert(!has_text(s, i, command_text(ws[10])) || c == ws[10]);
    assert(!has_text(s, i, command_text(ws[11])) || c == ws[11]);
    assert(!has_text(s, i, command_text(ws[12])) || c == ws[12]);
}

/// The text of the commands `seq![c] + rest`: that of `c`, then of the rest
/// after a space.
pub proof fn lemma_words_cons(c: SpecCommand, rest: Seq<SpecCommand>)
    ensures
        words_text(seq![c] + rest) == (if rest.len() == 0 {
            command_text(c)
        } else {
            command_text(c) + " "@ + words_text(rest)
        }),
    decreases rest.len(),
{
    let xs = seq![c] + rest;
    if rest.len() == 0 {
        assert(xs =~= seq![c]);
        assert(xs[0] == c);
    } else if rest.len() == 1 {
        assert(xs.drop_last() =~= seq![c]);
        assert(seq![c][0] == c);
        assert(words_text(seq![c]) == command_text(c));
        assert(xs.last() == rest[0]);
        assert(words_text(rest) == command_text(rest[0]));
        assert(words_text(xs) == words_text(xs.drop_last()) + " "@ + command_text(xs.last()));
    } else {
        assert(xs.drop_last() =~= seq![c] + rest.drop_last());
        lemma_words_cons(c, rest.drop_last());
        assert(words_text(xs) =~= command_text(c) + " "@ + words_text(rest));
    }
}

/// Text `a + b` at `i` is `a` at `i` and `b` right after it.
proof fn lemma_has_text_split(s: Seq<char>, i: int, a: Seq<char>, b: Seq<char>)
    requires
        has_text(s, i, a + b),
    ensures
        has_text(s, i, a),
        has_text(s, i + a.len(), b),
{
    assert((a + b).subrange(0, a.len() as int) =~= a);
    assert((a + b).subrange(a.len() as int, (a + b).len() as int) =~= b);
    assert(s.subrange(i, i + a.len()) =~= s.subrange(i, i + (a + b).len()).subrange(0, a.len() as int));
    assert(s.subrange(i + a.len(), i + a.len() + b.len()) =~= s.subrange(i, i + (a + b).len()).subrange(
        a.len() as int,
        (a + b).len() as int,
    ));
}

/// The character at `i + k` when text `t` stands at `i`.
proof fn lemma_has_text_char(s: Seq<char>, i: int, t: Seq<char>, k: int)
    requires
        has_text(s, i, t),
        0 <= k < t.len(),
    ensures
        s[i + k] == t[k],
{
    assert(s.subrange(i, i + t.len())[k] == t[k]);
}

/// Whether a number ending just before `k` cannot go on at `k`.
pub open spec fn ends_token(s: Seq<char>, k: int) -> bool {
    k >= s.len() || !is_digit(s[k])
}

proof fn lemma_read_digits(s: Seq<char>, i: int, n: nat)
    requires
        has_text(s, i, nat_text(n)),
        ends_token(s, i + nat_text(n).len()),
    ensures
        digits_end(s, i) == i + nat_text(n).len(),
        digits_value(s, i, i + nat_text(n).len()) == n,
        is_digit(s[i]),
{
    let t = nat_text(n);
    lemma_nat_text_digits(n);
    assert forall|k: int| i <= k < i + t.len() implies is_digit(#[trigger] s[k]) by {
        lemma_has_text_char(s, i, t, k - i);
    }
    lemma_digits_end_at(s, i, i + t.len());
    lemma_digits_value_text(s, i, n);
}

/// The text of command `c`, followed by anything a number cannot go on
/// with, reads as `c`.
pub proof fn lemma_read_command(s: Seq<char>, i: int, c: SpecCommand)
    requires
        has_text(s, i, command_text(c)),
        ends_token(s, i + command_text(c).len()),
    ensures
        crate::grammar::read_command(s, i) == Ok::<(Parsed, int), (int, Rule)>((parsed_of(c), i + command_text(c).len())),
        command_text(c).len() >= 1,
        !is_space(s[i]),
        s[i] != ')',
    decreases c,
{
    let t = command_text(c);
    match c {
        SpecCommand::Number(n) => {
            if n < 0 {
                let m = (-n) as nat;
                lemma_has_text_split(s, i, seq!['-'], nat_text(m));
                lemma_has_text_char(s, i, seq!['-'], 0);
                lemma_read_digits(s, i + 1, m);
            } else {
                lemma_read_digits(s, i, n as nat);
            }
        },
        SpecCommand::Sequence(cs) => {
            reveal_strlit("(");
            reveal_strlit(")");
            let w = words_text(cs);
            lemma_has_text_split(s, i, "("@ + w, ")"@);
            lemma_has_text_split(s, i, "("@, w);
            lemma_has_text_char(s, i, "("@, 0);
            lemma_has_text_char(s, i + 1 + w.len(), ")"@, 0);
            lemma_read_items(s, i + 1, cs);
        },
        _ => {
            reveal_strlit("add");
            reveal_strlit("sub");
            reveal_strlit("mul");
            reveal_strlit("div");
            reveal_strlit("rem");
            reveal_strlit("lt");
            reveal_strlit("gt");
            reveal_strlit("eq");
            reveal_strlit("pop");
            reveal_strlit("swap");
            reveal_strlit("sel");
            reveal_strlit("nget");
            reveal_strlit("exec");
            lemma_word_read(s, i, c);
            lemma_has_text_char(s, i, t, 0);
        },
    }
}

/// The text of the commands `cs`, then `)`, reads as `cs` up to and
/// including the `)`.
pub proof fn lemma_read_items(s: Seq<char>, i: int, cs: Seq<SpecCommand>)
    requires
        has_text(s, i, words_text(cs)),
        i + words_text(cs).len() < s.len(),
        s[i + words_text(cs).len()] == ')',
    ensures
        crate::grammar::read_items(s, i) == Ok::<(Seq<Parsed>, int), (int, Rule)>((parsed_seq(cs), i + words_text(cs).len() + 1)),
        cs.len() > 0 ==> !is_space(s[i]),
    decreases cs,
{
    if cs.len() == 0 {
        assert(parsed_seq(cs) =~= Seq::<Parsed>::empty());
        assert(crate::grammar::skip_space(s, i) == i);
    } else {
        let c = cs[0];
        let rest = cs.drop_first();
        assert(cs =~= seq![c] + rest);
        lemma_words_cons(c, rest);
        let t = command_text(c);
        let k = i + t.len();
        if rest.len() == 0 {
            assert(words_text(cs) == t);
            lemma_read_command(s, i, c);
            assert(crate::grammar::skip_space(s, i) == i);
            assert(crate::grammar::skip_space(s, k) == k);
            assert(crate::grammar::read_items(s, k) == Ok::<(Seq<Parsed>, int), (int, Rule)>((Seq::<Parsed>::empty(), k + 1)));
            assert(parsed_seq(cs) =~= seq![parsed_of(c)] + Seq::<Parsed>::empty());
        } else {
            reveal_strlit(" ");
            let w = words_text(rest);
            assert(words_text(cs) == t + " "@ + w);
            lemma_has_text_split(s, i, t + " "@, w);
            lemma_has_text_split(s, i, t, " "@);
            lemma_has_text_char(s, k, " "@, 0);
            lemma_read_command(s, i, c);
            lemma_read_items(s, k + 1, rest);
            assert(crate::grammar::skip_space(s, i) == i);
            assert(crate::grammar::skip_space(s, k + 1) == k + 1);
            assert(crate::grammar::skip_space(s, k) == k + 1);
            assert(crate::grammar::read_items(s, k) == crate::grammar::read_items(s, k + 1));
            assert(parsed_seq(cs) =~= seq![parsed_of(c)] + parsed_seq(rest));
        }
    }
}

/// The text of a program that declares `n` arguments and runs `cs`.
pub open spec fn program_text(n: nat, cs: Seq<SpecCommand>) -> Seq<char> {
    "(postfix "@ + nat_text(n) + " "@ + sequence_text(cs) + ")"@
}

/// Reading the text of a program, with as many arguments as it declares,
/// gives back the commands it was written from.
#[verifier::rlimit(60)]
pub proof fn lemma_read_program_text(n: nat, cs: Seq<SpecCommand>)
    requires
        n <= usize::MAX,
    ensures
        parse_program_spec(program_text(n, cs), n) == ProgramParse::Commands(cs),
{
    reveal_strlit("(postfix ");
    reveal_strlit("postfix");
    reveal_strlit("(");
    reveal_strlit(")");
    reveal_strlit(" ");
    let s = program_text(n, cs);
    let a = "(postfix "@;
    let t = nat_text(n);
    let w = words_text(cs);
    let l = t.len() as int;
    let wl = w.len() as int;
    assert(s =~= a + t + " "@ + "("@ + w + ")"@ + ")"@);
    assert(s.len() == 9 + l + 1 + 1 + wl + 2);
    assert(has_text(s, 0, s)) by {
        assert(s.subrange(0, s.len() as int) =~= s);
    }
    lemma_has_text_split(s, 0, a + t + " "@ + "("@ + w + ")"@, ")"@);
    lemma_has_text_split(s, 0, a + t + " "@ + "("@ + w, ")"@);
    lemma_has_text_split(s, 0, a + t + " "@ + "("@, w);
    lemma_has_text_split(s, 0, a + t + " "@, "("@);
    lemma_has_text_split(s, 0, a + t, " "@);
    lemma_has_text_split(s, 0, a, t);
    lemma_has_text_char(s, 9 + l, " "@, 0);
    lemma_has_text_char(s, 10 + l, "("@, 0);
    lemma_has_text_char(s, 11 + l + wl, ")"@, 0);
    lemma_has_text_char(s, 12 + l + wl, ")"@, 0);
    assert(s[0] == '(');
    assert(s[1] == 'p');
    assert(s[8] == ' ');
    assert(s.subrange(0, 1) =~= "("@);
    assert(s.subrange(1, 8) =~= "postfix"@);
    lemma_read_digits(s, 9, n);
    lemma_read_items(s, 11 + l, cs);
    assert(crate::grammar::skip_space(s, 0) == 0);
    assert(crate::grammar::skip_space(s, 1) == 1);
    assert(crate::grammar::skip_space(s, 9) == 9);
    assert(crate::grammar::skip_space(s, 8) == 9);
    assert(crate::grammar::skip_space(s, 10 + l) == 10 + l);
    assert(crate::grammar::skip_space(s, 9 + l) == 10 + l);
    assert(crate::grammar::skip_space(s, 12 + l + wl) == 12 + l + wl);
    assert(crate::grammar::skip_space(s, 13 + l + wl) == 13 + l + wl);
    assert(crate::grammar::read_program(s) == Ok::<(int, int, Seq<Parsed>), (int, Rule)>((9, 9 + l, parsed_seq(cs))));
    lemma_to_commands_parsed(cs);
}

} // verus!
