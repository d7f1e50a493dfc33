// Tests of the reader, the formatter, the traces and the error messages.

use postfix_processor::ast::{Command, Value};
use postfix_processor::interpreter::PostFix;
use postfix_processor::parser::{parse_program, parse_program_checked};
use postfix_processor::process_program;
use postfix_processor::semantics::{ExecError, Outcome};
use postfix_processor::text::{
    fmt_args, fmt_cmd, fmt_config, fmt_data, fmt_queue, fmt_seq, fmt_val, rule_name,
};

fn run_text(program: &str, args: &[i32]) -> Result<i32, String> {
    let commands = parse_program(program, args)?;
    PostFix::new(args.to_vec(), commands).run()
}

fn error_of(program: &str) -> String {
    run_text(program, &[]).unwrap_err()
}

#[test]
fn stack_underflow_message() {
    assert_eq!(error_of("(postfix 0 (add))"), "Stack underflow");
}

#[test]
fn expected_number_message() {
    assert_eq!(
        error_of("(postfix 0 ((1) 2 add))"),
        "Expected number but got executable sequence"
    );
}

#[test]
fn division_and_remainder_by_zero_messages() {
    assert_eq!(error_of("(postfix 0 (10 0 div))"), "Division by zero");
    assert_eq!(error_of("(postfix 0 (10 0 rem))"), "Remainder by zero");
}

#[test]
fn underflow_messages_of_stack_commands() {
    assert_eq!(error_of("(postfix 0 (pop))"), "pop: stack underflow");
    assert_eq!(error_of("(postfix 0 (1 swap))"), "swap: stack underflow (need 2 values)");
    assert_eq!(error_of("(postfix 0 (1 2 sel))"), "sel: stack underflow (need 3 values)");
    assert_eq!(error_of("(postfix 0 (nget))"), "nget: stack underflow");
}

#[test]
fn nget_out_of_bounds_message() {
    assert_eq!(
        error_of("(postfix 0 (7 5 nget))"),
        "nget: index out of bounds (requested 5, but stack size is 1)"
    );
    assert_eq!(
        error_of("(postfix 0 (7 -1 nget))"),
        "nget: index out of bounds (requested -1, but stack size is 1)"
    );
}

#[test]
fn exec_needs_a_sequence() {
    assert_eq!(error_of("(postfix 0 (3 exec))"), "exec requires a sequence");
    assert_eq!(error_of("(postfix 0 (exec))"), "exec requires a sequence");
}

#[test]
fn final_value_messages() {
    assert_eq!(error_of("(postfix 0 ((1 2)))"), "Final value is not an integer");
    assert_eq!(error_of("(postfix 0 ())"), "Empty stack at end");
}

#[test]
fn step_limit_cuts_a_run_off() {
    let loop_program = "(postfix 0 ((1 nget exec) 1 nget exec))";
    let commands = parse_program(loop_program, &[]).unwrap();
    let mut postfix = PostFix::new(vec![], commands);
    match postfix.run_outcome(1000) {
        Outcome::Failed(ExecError::StepLimitReached) => {}
        _ => panic!("the run should have been cut off"),
    }
    assert_eq!(ExecError::StepLimitReached.message(), "Step limit reached");
}

#[test]
fn larger_step_limit_gives_same_answer() {
    let program = "(postfix 0 (5 4 3 2 1 mul mul mul mul))";
    for limit in [9u64, 10, 100, 1000] {
        let commands = parse_program(program, &[]).unwrap();
        let mut postfix = PostFix::new(vec![], commands);
        match postfix.run_outcome(limit) {
            Outcome::Value(v) => assert_eq!(v, 120),
            _ => panic!("the run should finish within {} steps", limit),
        }
    }
    let commands = parse_program(program, &[]).unwrap();
    let mut postfix = PostFix::new(vec![], commands);
    assert!(matches!(
        postfix.run_outcome(8),
        Outcome::Failed(ExecError::StepLimitReached)
    ));
}

#[test]
fn overflow_is_reported() {
    for program in [
        "(postfix 0 (2147483647 1 add))",
        "(postfix 0 (-2147483648 1 sub))",
        "(postfix 0 (65536 65536 mul))",
        "(postfix 0 (-2147483648 -1 div))",
        "(postfix 0 (-2147483648 -1 rem))",
    ] {
        let commands = parse_program(program, &[]).unwrap();
        let mut postfix = PostFix::new(vec![], commands);
        assert!(matches!(postfix.run_outcome(100), Outcome::Overflow), "{}", program);
    }
}

#[test]
fn truncating_division_and_remainder() {
    assert_eq!(run_text("(postfix 0 (-7 2 div))", &[]).unwrap(), -3);
    assert_eq!(run_text("(postfix 0 (7 -2 div))", &[]).unwrap(), -3);
    assert_eq!(run_text("(postfix 0 (-7 -2 div))", &[]).unwrap(), 3);
    assert_eq!(run_text("(postfix 0 (-7 2 rem))", &[]).unwrap(), -1);
    assert_eq!(run_text("(postfix 0 (7 -2 rem))", &[]).unwrap(), 1);
    assert_eq!(run_text("(postfix 0 (-2147483648 1 div))", &[]).unwrap(), -2147483648);
}

#[test]
fn arguments_first_on_top() {
    assert_eq!(run_text("(postfix 2 (sub))", &[5, 3]).unwrap(), -2);
    assert_eq!(run_text("(postfix 3 (pop pop))", &[1, 2, 3]).unwrap(), 3);
}

#[test]
fn exec_runs_the_sequence_in_place() {
    assert_eq!(run_text("(postfix 0 ((3 4 add) exec))", &[]).unwrap(), 7);
    assert_eq!(run_text("(postfix 0 (3 4 add))", &[]).unwrap(), 7);
    assert_eq!(run_text("(postfix 1 ((2 mul) exec))", &[21]).unwrap(), 42);
}

#[test]
fn swap_twice_changes_nothing() {
    assert_eq!(run_text("(postfix 0 (1 2 swap swap))", &[]).unwrap(), 2);
    assert_eq!(run_text("(postfix 0 (1 2))", &[]).unwrap(), 2);
}

#[test]
fn nget_copies_sequences() {
    assert_eq!(run_text("(postfix 0 ((5) 1 nget exec swap exec add))", &[]).unwrap(), 10);
}

#[test]
fn relations_and_selection() {
    assert_eq!(run_text("(postfix 0 (3 3 lt))", &[]).unwrap(), 0);
    assert_eq!(run_text("(postfix 0 (3 2 gt))", &[]).unwrap(), 1);
    assert_eq!(run_text("(postfix 0 (2 3 eq))", &[]).unwrap(), 0);
    assert_eq!(run_text("(postfix 0 (-1 20 10 sel))", &[]).unwrap(), 20);
}

#[test]
fn arg_count_errors() {
    assert_eq!(
        parse_program("(postfix 2 (add))", &[5]).unwrap_err(),
        "Arg count mismatch: expected 2 arguments, got 1"
    );
    assert_eq!(
        parse_program("(postfix 99999999999999999999999 (add))", &[5]).unwrap_err(),
        "Invalid arg count: number too large to fit in target type"
    );
}

#[test]
fn syntax_errors_are_rendered_by_pest() {
    let msg = parse_program("(postfix 0 (3 4 foo))", &[]).unwrap_err();
    assert!(msg.starts_with("Parse error: "), "{}", msg);
    assert!(msg.contains("1:17"), "{}", msg);
    assert!(msg.contains("expected command"), "{}", msg);
    assert!(msg.contains("(postfix 0 (3 4 foo))"), "{}", msg);

    let msg = parse_program("(postfix (3))", &[]).unwrap_err();
    assert!(msg.contains("1:10") && msg.contains("expected arg_count"), "{}", msg);

    let msg = parse_program("(postfix 0 (1)) 2", &[]).unwrap_err();
    assert!(msg.contains("1:17") && msg.contains("expected EOI"), "{}", msg);

    let msg = parse_program("postfix 0 (1)", &[]).unwrap_err();
    assert!(msg.contains("1:1") && msg.contains("expected program"), "{}", msg);

    let msg = parse_program("(postfix 0 1)", &[]).unwrap_err();
    assert!(msg.contains("1:12") && msg.contains("expected commands"), "{}", msg);
}

#[test]
fn syntax_error_position_counts_characters() {
    let msg = parse_program("(postfix 0 (\u{e9} 1))", &[]).unwrap_err();
    assert!(msg.contains("1:13") && msg.contains("expected command"), "{}", msg);
}

#[test]
fn literal_out_of_range_is_flagged() {
    assert!(parse_program_checked("(postfix 0 (2147483648))", &[]).is_none());
    assert!(parse_program_checked("(postfix 0 ((-2147483649)))", &[]).is_none());
    let ok = parse_program_checked("(postfix 0 (-2147483648 2147483647))", &[]);
    assert!(matches!(ok, Some(Ok(_))));
    // a syntax error is reported before a literal out of range
    assert!(matches!(
        parse_program_checked("(postfix 0 (2147483648 foo))", &[]),
        Some(Err(_))
    ));
}

#[test]
fn layout_is_free() {
    let program = " ( postfix\t1\n( 2 add\r\n(3 4)exec) ) ";
    assert_eq!(run_text(program, &[1]).unwrap(), 4);
    assert_eq!(run_text("(postfix 0 (3 4add))", &[]).unwrap(), 7);
}

#[test]
fn formatting_of_commands_and_values() {
    let seq = vec![Command::Number(-5), Command::Sequence(vec![Command::Add, Command::Exec]), Command::Nget];
    assert_eq!(fmt_cmd(&Command::Number(-2147483648)), "-2147483648");
    assert_eq!(fmt_cmd(&Command::Swap), "swap");
    assert_eq!(fmt_seq(&seq), "(-5 (add exec) nget)");
    assert_eq!(fmt_seq(&vec![]), "()");
    assert_eq!(fmt_val(&Value::Number(0)), "0");
    assert_eq!(fmt_val(&Value::Sequence(vec![Command::Lt])), "(lt)");
    assert_eq!(fmt_queue(&vec![Command::Mul, Command::Number(2)]), "(2 mul)");
    assert_eq!(
        fmt_data(&vec![Value::Number(1), Value::Sequence(vec![]), Value::Number(3)]),
        "[3, (), 1]"
    );
    assert_eq!(
        fmt_config(&vec![Command::Add], &vec![Value::Number(1), Value::Number(2)]),
        "⟨(add), [2, 1]⟩"
    );
    assert_eq!(fmt_args(&vec![4, -1]), "[4, -1]");
    assert_eq!(fmt_args(&vec![]), "[]");
}

#[test]
fn printed_program_reads_back() {
    let commands = parse_program("(postfix 0 (1 -2 (3 (add sub) mul div rem) lt gt eq pop swap sel nget exec))", &[]).unwrap();
    let text = format!("(postfix 0 {})", fmt_seq(&commands));
    assert_eq!(text, "(postfix 0 (1 -2 (3 (add sub) mul div rem) lt gt eq pop swap sel nget exec))");
    let again = parse_program(&text, &[]).unwrap();
    assert_eq!(fmt_seq(&again), fmt_seq(&commands));
}

#[test]
fn rule_names() {
    let d = |v: &[i32]| v.iter().map(|n| Value::Number(*n)).collect::<Vec<_>>();
    assert_eq!(rule_name(&Command::Number(1), &d(&[])), "num");
    assert_eq!(rule_name(&Command::Sequence(vec![]), &d(&[])), "seq");
    assert_eq!(rule_name(&Command::Exec, &d(&[])), "execute");
    assert_eq!(rule_name(&Command::Rem, &d(&[])), "arithop");
    assert_eq!(rule_name(&Command::Sel, &d(&[0, 1, 2])), "sel-false");
    assert_eq!(rule_name(&Command::Sel, &d(&[7, 1, 2])), "sel-true");
    assert_eq!(rule_name(&Command::Sel, &d(&[1, 2])), "sel-false");
    assert_eq!(rule_name(&Command::Lt, &d(&[1, 2])), "relop-true");
    assert_eq!(rule_name(&Command::Gt, &d(&[1, 2])), "relop-false");
    assert_eq!(rule_name(&Command::Eq, &d(&[2, 2])), "relop-true");
    assert_eq!(rule_name(&Command::Eq, &d(&[2])), "relop-false");
}

#[test]
fn trace_of_a_run() {
    let commands = parse_program("(postfix 1 (4 add))", &[3]).unwrap();
    let mut postfix = PostFix::new(vec![3], commands);
    let (trace, outcome) = postfix.run_traced(u64::MAX);
    assert!(matches!(outcome, Outcome::Value(7)));
    assert_eq!(
        trace,
        vec![
            "(IF ⟨(postfix 1 4 add), [3]⟩)",
            "= ⟨(4 add), [3]⟩",
            "⇒ ⟨(add), [4, 3]⟩  [num]",
            "⇒ ⟨(), [7]⟩ ∈ FC  [arithop]",
            "(OF ⟨(), [7]⟩) = 7",
        ]
    );
}

#[test]
fn trace_stops_at_an_error() {
    let commands = parse_program("(postfix 0 (1 0 div 5))", &[]).unwrap();
    let mut postfix = PostFix::new(vec![], commands);
    let (trace, outcome) = postfix.run_traced(u64::MAX);
    assert!(matches!(outcome, Outcome::Failed(ExecError::DivisionByZero)));
    assert_eq!(
        trace,
        vec![
            "(IF ⟨(postfix 0 1 0 div 5), []⟩)",
            "= ⟨(1 0 div 5), []⟩",
            "⇒ ⟨(0 div 5), [1]⟩  [num]",
            "⇒ ⟨(div 5), [0, 1]⟩  [num]",
        ]
    );
}

#[test]
fn stepping_one_command_at_a_time() {
    let mut postfix = PostFix::new(vec![], vec![Command::Number(1), Command::Sequence(vec![Command::Pop]), Command::Exec]);
    assert!(matches!(postfix.step(), Some(postfix_processor::semantics::StepStatus::Done)));
    assert!(matches!(postfix.step(), Some(postfix_processor::semantics::StepStatus::Done)));
    assert!(matches!(postfix.step(), Some(postfix_processor::semantics::StepStatus::Done)));
    assert!(matches!(postfix.step(), Some(postfix_processor::semantics::StepStatus::Done)));
    assert!(postfix.step().is_none());
    assert_eq!(postfix.run().unwrap_err(), "Empty stack at end");
}

#[test]
fn process_program_reads_and_runs() {
    assert_eq!(process_program("(postfix 2 (mul))", &[6, 7]).unwrap(), 42);
    assert_eq!(
        process_program("(postfix 1 (mul))", &[6, 7]).unwrap_err(),
        "Arg count mismatch: expected 1 arguments, got 2"
    );
    assert_eq!(process_program("(postfix 0 (mul))", &[]).unwrap_err(), "Stack underflow");
}

#[test]
fn clones_are_deep() {
    let c = Command::Sequence(vec![Command::Number(1), Command::Sequence(vec![Command::Add])]);
    assert_eq!(fmt_cmd(&c.clone()), fmt_cmd(&c));
    let v = Value::Sequence(vec![Command::Sub]);
    assert_eq!(fmt_val(&v.clone()), "(sub)");
}

#[test]
fn programs_run_in_sequence() {
    assert_eq!(run_text("(postfix 0 (1 2 add))", &[]).unwrap(), 3);
    assert_eq!(run_text("(postfix 1 (3 mul))", &[3]).unwrap(), 9);
    assert_eq!(run_text("(postfix 0 (1 2 add 3 mul))", &[]).unwrap(), 9);
}

#[test]
fn commands_below_wait_their_turn() {
    let mut alone = PostFix::new(vec![], vec![Command::Number(2), Command::Number(5), Command::Sub]);
    let mut with_more = PostFix::new(vec![], vec![Command::Number(2), Command::Number(5), Command::Sub, Command::Number(1)]);
    for _ in 0..3 {
        assert!(alone.step().is_some());
        assert!(with_more.step().is_some());
    }
    assert_eq!(alone.run().unwrap(), -3);
    assert_eq!(with_more.run().unwrap(), 1);
}
