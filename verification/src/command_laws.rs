//! What each command does to the stacks, stated by its effect on the values
//! it reads: the integers it computes, the positions it moves or keeps.
use vstd::prelude::*;

use crate::ast::{SpecCommand, SpecValue};
use crate::semantics::{execute, ExecError, StepStatus};
use crate::text::rule_label;

verus! {

/// `below` with the integers `v2` and then `v1` (on top) pushed on it.
pub open spec fn with_two(below: Seq<SpecValue>, v2: i32, v1: i32) -> Seq<SpecValue> {
    below.push(SpecValue::Number(v2)).push(SpecValue::Number(v1))
}

/// The integer a value holds, 0 for a sequence.
pub open spec fn number_value(v: SpecValue) -> int {
    match v {
        SpecValue::Number(n) => n as int,
        SpecValue::Sequence(_) => 0,
    }
}

/// The absolute value of `x`.
pub open spec fn abs(x: int) -> int {
    if x < 0 { -x } else { x }
}

/// `lt`, `gt` and `eq` compare the deeper integer `v2` with the top one `v1`:
/// they replace both by 1 when `v2 < v1`, `v2 > v1`, `v2 == v1` respectively,
/// and by 0 otherwise; the trace names the step `relop-true` exactly when 1 is
/// pushed.
pub proof fn lemma_comparison(c: SpecCommand, rest: Seq<SpecCommand>, below: Seq<SpecValue>, v2: i32, v1: i32)
    requires
        c is Lt || c is Gt || c is Eq,
    ensures
        ({
            let data = with_two(below, v2, v1);
            let holds = if c is Lt { v2 < v1 } else if c is Gt { v2 > v1 } else { v2 == v1 };
            let t = execute(c, rest, data);
            &&& t.status == StepStatus::Done
            &&& t.config.commands == rest
            &&& t.config.data == below.push(SpecValue::Number(if holds { 1i32 } else { 0i32 }))
            &&& rule_label(c, data) == (if holds { "relop-true"@ } else { "relop-false"@ })
        }),
{
    let data = with_two(below, v2, v1);
    assert(data.drop_last() =~= below.push(SpecValue::Number(v2)));
    assert(data.drop_last().drop_last() =~= below);
    assert(data[data.len() - 2] == SpecValue::Number(v2));
}

/// Of `lt`, `gt` and `eq` on the same two integers exactly one pushes 1,
/// and `gt` on `v2, v1` pushes what `lt` pushes on `v1, v2`.
pub proof fn lemma_comparisons_agree(rest: Seq<SpecCommand>, below: Seq<SpecValue>, v2: i32, v1: i32)
    ensures
        ({
            let lt = execute(SpecCommand::Lt, rest, with_two(below, v2, v1)).config.data.last();
            let gt = execute(SpecCommand::Gt, rest, with_two(below, v2, v1)).config.data.last();
            let eq = execute(SpecCommand::Eq, rest, with_two(below, v2, v1)).config.data.last();
            let lt_swapped = execute(SpecCommand::Lt, rest, with_two(below, v1, v2)).config.data.last();
            &&& number_value(lt) + number_value(gt) + number_value(eq) == 1
            &&& 0 <= number_value(lt) <= 1 && 0 <= number_value(gt) <= 1 && 0 <= number_value(eq) <= 1
            &&& gt == lt_swapped
        }),
{
    lemma_comparison(SpecCommand::Lt, rest, below, v2, v1);
    lemma_comparison(SpecCommand::Gt, rest, below, v2, v1);
    lemma_comparison(SpecCommand::Eq, rest, below, v2, v1);
    lemma_comparison(SpecCommand::Lt, rest, below, v1, v2);
}

/// `add`, `sub` and `mul` replace the deeper integer `v2` and the top one
/// `v1` by the exact sum `v2 + v1`, difference `v2 - v1` or product `v2 * v1`,
/// signs included, when it fits in an `i32`; otherwise they overflow.
pub proof fn lemma_add_sub_mul(c: SpecCommand, rest: Seq<SpecCommand>, below: Seq<SpecValue>, v2: i32, v1: i32)
    requires
        c is Add || c is Sub || c is Mul,
    ensures
        ({
            let exact: int = if c is Add { v2 + v1 } else if c is Sub { v2 - v1 } else { v2 * v1 };
            let t = execute(c, rest, with_two(below, v2, v1));
            &&& t.config.commands == rest
            &&& i32::MIN <= exact <= i32::MAX ==> t.status == StepStatus::Done
                && t.config.data == below.push(SpecValue::Number(exact as i32))
            &&& !(i32::MIN <= exact <= i32::MAX) ==> t.status == StepStatus::Overflow
        }),
{
    let data = with_two(below, v2, v1);
    assert(data.drop_last() =~= below.push(SpecValue::Number(v2)));
    assert(data.drop_last().drop_last() =~= below);
}

/// A product is negative exactly when one factor is negative and the other positive.
pub proof fn lemma_mul_sign(rest: Seq<SpecCommand>, below: Seq<SpecValue>, v2: i32, v1: i32)
    requires
        i32::MIN <= v2 * v1 <= i32::MAX,
    ensures
        ({
            let p = number_value(execute(SpecCommand::Mul, rest, with_two(below, v2, v1)).config.data.last());
            &&& p < 0 <==> ((v2 < 0 && v1 > 0) || (v2 > 0 && v1 < 0))
            &&& p == number_value(execute(SpecCommand::Mul, rest, with_two(below, v1, v2)).config.data.last())
        }),
{
    lemma_add_sub_mul(SpecCommand::Mul, rest, below, v2, v1);
    lemma_add_sub_mul(SpecCommand::Mul, rest, below, v1, v2);
    let a = v2 as int;
    let b = v1 as int;
    assert(a * b < 0 <==> ((a < 0 && b > 0) || (a > 0 && b < 0))) by (nonlinear_arith);
    assert(a * b == b * a) by (nonlinear_arith);
}

/// `div` and `rem` on `v2` (deeper) and `v1` (top), `v1` not zero, push the
/// quotient `q` and remainder `r` of division rounded toward zero: `v1 * q +
/// r == v2`, `|r| < |v1|`, and `r` is zero or has the sign of `v2`. A zero
/// divisor is an error, and `i32::MIN` by `-1` overflows.
pub proof fn lemma_div_rem(rest: Seq<SpecCommand>, below: Seq<SpecValue>, v2: i32, v1: i32)
    ensures
        ({
            let data = with_two(below, v2, v1);
            let d = execute(SpecCommand::Div, rest, data);
            let m = execute(SpecCommand::Rem, rest, data);
            let q = number_value(d.config.data.last());
            let r = number_value(m.config.data.last());
            &&& d.config.commands == rest && m.config.commands == rest
            &&& v1 == 0 ==> d.status == StepStatus::Failed(ExecError::DivisionByZero) && d.config.data == below
                && m.status == StepStatus::Failed(ExecError::RemainderByZero) && m.config.data == below
            &&& v1 != 0 && v2 == i32::MIN && v1 == -1 ==> d.status == StepStatus::Overflow
                && m.status == StepStatus::Overflow
            &&& v1 != 0 && !(v2 == i32::MIN && v1 == -1) ==> {
                &&& d.status == StepStatus::Done && m.status == StepStatus::Done
                &&& d.config.data.len() == below.len() + 1 && d.config.data.drop_last() == below
                &&& m.config.data.len() == below.len() + 1 && m.config.data.drop_last() == below
                &&& d.config.data.last() is Number && m.config.data.last() is Number
                &&& v1 * q + r == v2
                &&& abs(r) < abs(v1 as int)
                &&& (r == 0 || (r < 0) == (v2 < 0))
            }
        }),
{
    let data = with_two(below, v2, v1);
    assert(data.drop_last() =~= below.push(SpecValue::Number(v2)));
    assert(data.drop_last().drop_last() =~= below);
    if v1 != 0 && !(v2 == i32::MIN && v1 == -1) {
        let a = v2 as int;
        let b = v1 as int;
        let x = abs(a);
        let y = abs(b);
        let qq = x / y;
        let rr = x % y;
        assert(x == y * qq + rr && 0 <= rr < y && qq >= 0) by (nonlinear_arith)
            requires
                y > 0,
                x >= 0,
                qq == x / y,
                rr == x % y,
        ;
        let q = crate::semantics::quot(a, b);
        let r = crate::semantics::rem(a, b);
        assert(b * q + r == a) by (nonlinear_arith)
            requires
                x == abs(a),
                y == abs(b),
                x == y * qq + rr,
                q == (if (a < 0) != (b < 0) { -qq } else { qq }),
                r == (if a < 0 { -rr } else { rr }),
        ;
        assert(q * y <= x) by (nonlinear_arith)
            requires
                q == (if (a < 0) != (b < 0) { -qq } else { qq }),
                qq >= 0,
                rr >= 0,
                x == y * qq + rr,
                y > 0,
                q >= 0 || q <= 0,
                (a < 0) != (b < 0) ==> q <= 0,
        ;
        assert(i32::MIN <= q <= i32::MAX) by (nonlinear_arith)
            requires
                x == abs(a),
                y == abs(b),
                y >= 1,
                x <= 0x8000_0000,
                x == y * qq + rr,
                qq >= 0,
                rr >= 0,
                q == (if (a < 0) != (b < 0) { -qq } else { qq }),
                !(a == -0x8000_0000 && b == -1),
                -0x8000_0000 <= a <= 0x7fff_ffff,
                -0x8000_0000 <= b <= 0x7fff_ffff,
        ;
    }
}

/// `pop` drops the top value and keeps every other one in place; it fails
/// on an empty stack and leaves it empty.
pub proof fn lemma_pop(rest: Seq<SpecCommand>, data: Seq<SpecValue>)
    ensures
        ({
            let t = execute(SpecCommand::Pop, rest, data);
            let n = data.len();
            &&& t.config.commands == rest
            &&& n == 0 ==> t.status == StepStatus::Failed(ExecError::PopUnderflow) && t.config.data == data
            &&& n > 0 ==> t.status == StepStatus::Done && t.config.data.len() == n - 1
                && forall|k: int| 0 <= k < n - 1 ==> #[trigger] t.config.data[k] == data[k]
        }),
{
}

/// `swap` exchanges the two top values and keeps every deeper one in place;
/// with fewer than two values it fails and changes nothing.
pub proof fn lemma_swap(rest: Seq<SpecCommand>, data: Seq<SpecValue>)
    ensures
        ({
            let t = execute(SpecCommand::Swap, rest, data);
            let n = data.len();
            &&& t.config.commands == rest
            &&& n < 2 ==> t.status == StepStatus::Failed(ExecError::SwapUnderflow) && t.config.data == data
            &&& n >= 2 ==> {
                &&& t.status == StepStatus::Done
                &&& t.config.data.len() == n
                &&& forall|k: int| 0 <= k < n - 2 ==> #[trigger] t.config.data[k] == data[k]
                &&& t.config.data[n - 2] == data[n - 1]
                &&& t.config.data[n - 1] == data[n - 2]
            }
        }),
{
}

/// `sel` with an integer `t` third from the top replaces the three top
/// values by the second (when `t` is not zero) or the top one (when it is),
/// keeping every deeper value in place; the trace names the step `sel-true`
/// exactly when the second is kept.
pub proof fn lemma_sel(rest: Seq<SpecCommand>, data: Seq<SpecValue>, test: i32)
    requires
        data.len() >= 3,
        data[data.len() - 3] == SpecValue::Number(test),
    ensures
        ({
            let t = execute(SpecCommand::Sel, rest, data);
            let n = data.len();
            &&& t.status == StepStatus::Done
            &&& t.config.commands == rest
            &&& t.config.data.len() == n - 2
            &&& forall|k: int| 0 <= k < n - 3 ==> #[trigger] t.config.data[k] == data[k]
            &&& t.config.data[n - 3] == (if test != 0 { data[n - 2] } else { data[n - 1] })
            &&& rule_label(SpecCommand::Sel, data) == (if test != 0 { "sel-true"@ } else { "sel-false"@ })
        }),
{
    let n = data.len() as int;
    assert(data.subrange(0, n - 2).last() == data[n - 3]);
    assert(data.subrange(0, n - 2).drop_last() =~= data.subrange(0, n - 3));
}

/// `nget` with an integer `k` on top, `1 <= k <= m` where `m` values lie
/// below it, replaces `k` by a copy of the `k`-th of those values counted
/// from the top, and keeps every other value in place.
pub proof fn lemma_nget(rest: Seq<SpecCommand>, data: Seq<SpecValue>, k: i32)
    requires
        data.len() >= 1,
        data.last() == SpecValue::Number(k),
        1 <= k <= data.len() - 1,
    ensures
        ({
            let t = execute(SpecCommand::Nget, rest, data);
            let n = data.len();
            &&& t.status == StepStatus::Done
            &&& t.config.commands == rest
            &&& t.config.data.len() == n
            &&& forall|j: int| 0 <= j < n - 1 ==> #[trigger] t.config.data[j] == data[j]
            &&& t.config.data[n - 1] == data[n - 1 - k]
        }),
{
}

/// `nget` with an integer on top outside `1..=m`, where `m` values lie below
/// it, fails naming that integer and `m`.
pub proof fn lemma_nget_out_of_bounds(rest: Seq<SpecCommand>, data: Seq<SpecValue>, k: i32)
    requires
        data.len() >= 1,
        data.last() == SpecValue::Number(k),
        !(1 <= k <= data.len() - 1),
    ensures
        execute(SpecCommand::Nget, rest, data).status == StepStatus::Failed(
            ExecError::NgetOutOfBounds { requested: k, size: (data.len() - 1) as usize },
        ),
        execute(SpecCommand::Nget, rest, data).config.data == data.drop_last(),
{
}

/// `exec` with a sequence on top removes it and makes its commands the next
/// ones to run, first command first, above the commands that were waiting.
pub proof fn lemma_exec(rest: Seq<SpecCommand>, data: Seq<SpecValue>, s: Seq<SpecCommand>)
    requires
        data.len() >= 1,
        data.last() == SpecValue::Sequence(s),
    ensures
        ({
            let t = execute(SpecCommand::Exec, rest, data);
            let cs = t.config.commands;
            &&& t.status == StepStatus::Done
            &&& t.config.data == data.drop_last()
            &&& cs.len() == rest.len() + s.len()
            &&& forall|k: int| 0 <= k < rest.len() ==> #[trigger] cs[k] == rest[k]
            &&& forall|j: int| 0 <= j < s.len() ==> #[trigger] cs[cs.len() - 1 - j] == s[j]
        }),
{
    let cs = execute(SpecCommand::Exec, rest, data).config.commands;
    assert forall|j: int| 0 <= j < s.len() implies #[trigger] cs[cs.len() - 1 - j] == s[j] by {
        assert(cs[cs.len() - 1 - j] == s.reverse()[s.len() - 1 - j]);
    }
}

/// Integer literals and sequences are pushed as they are, on top of the
/// values already there.
pub proof fn lemma_push(rest: Seq<SpecCommand>, data: Seq<SpecValue>, v: i32, s: Seq<SpecCommand>)
    ensures
        execute(SpecCommand::Number(v), rest, data).status == StepStatus::Done,
        execute(SpecCommand::Number(v), rest, data).config.commands == rest,
        execute(SpecCommand::Number(v), rest, data).config.data == data.push(SpecValue::Number(v)),
        execute(SpecCommand::Sequence(s), rest, data).status == StepStatus::Done,
        execute(SpecCommand::Sequence(s), rest, data).config.commands == rest,
        execute(SpecCommand::Sequence(s), rest, data).config.data == data.push(SpecValue::Sequence(s)),
{
}

} // verus!
