// Unit tests of the PostFix machine.

use postfix_processor::ast::Command;
use postfix_processor::interpreter::PostFix;

#[test]
fn test_arithmetic_operations() {
    let commands = vec![Command::Number(3), Command::Number(4), Command::Add];
    let mut postfix = PostFix::new(vec![], commands);
    assert_eq!(postfix.run().unwrap(), 7);

    let commands = vec![Command::Number(10), Command::Number(3), Command::Sub];
    let mut postfix = PostFix::new(vec![], commands);
    assert_eq!(postfix.run().unwrap(), 7);

    let commands = vec![Command::Number(5), Command::Number(6), Command::Mul];
    let mut postfix = PostFix::new(vec![], commands);
    assert_eq!(postfix.run().unwrap(), 30);

    let commands = vec![Command::Number(20), Command::Number(4), Command::Div];
    let mut postfix = PostFix::new(vec![], commands);
    assert_eq!(postfix.run().unwrap(), 5);

    let commands = vec![Command::Number(17), Command::Number(5), Command::Rem];
    let mut postfix = PostFix::new(vec![], commands);
    assert_eq!(postfix.run().unwrap(), 2);
}

#[test]
fn test_comparison_operations() {
    let commands = vec![Command::Number(3), Command::Number(5), Command::Lt];
    let mut postfix = PostFix::new(vec![], commands);
    assert_eq!(postfix.run().unwrap(), 1);

    let commands = vec![Command::Number(5), Command::Number(3), Command::Gt];
    let mut postfix = PostFix::new(vec![], commands);
    assert_eq!(postfix.run().unwrap(), 1);

    let commands = vec![Command::Number(4), Command::Number(4), Command::Eq];
    let mut postfix = PostFix::new(vec![], commands);
    assert_eq!(postfix.run().unwrap(), 1);

    let commands = vec![Command::Number(3), Command::Number(5), Command::Eq];
    let mut postfix = PostFix::new(vec![], commands);
    assert_eq!(postfix.run().unwrap(), 0);
}

#[test]
fn test_stack_operations() {
    let commands = vec![
        Command::Number(1),
        Command::Number(2),
        Command::Number(3),
        Command::Pop,
    ];
    let mut postfix = PostFix::new(vec![], commands);
    assert_eq!(postfix.run().unwrap(), 2);

    let commands = vec![Command::Number(1), Command::Number(2), Command::Swap];
    let mut postfix = PostFix::new(vec![], commands);
    assert_eq!(postfix.run().unwrap(), 1);
}

#[test]
fn test_nget() {
    let commands = vec![
        Command::Number(10),
        Command::Number(20),
        Command::Number(30),
        Command::Number(1),
        Command::Nget,
    ];
    let mut postfix = PostFix::new(vec![], commands);
    assert_eq!(postfix.run().unwrap(), 30);

    let commands = vec![
        Command::Number(10),
        Command::Number(20),
        Command::Number(30),
        Command::Number(2),
        Command::Nget,
    ];
    let mut postfix = PostFix::new(vec![], commands);
    assert_eq!(postfix.run().unwrap(), 20);
}

#[test]
fn test_sel() {
    let commands = vec![
        Command::Number(0),
        Command::Number(20),
        Command::Number(10),
        Command::Sel,
    ];
    let mut postfix = PostFix::new(vec![], commands);
    assert_eq!(postfix.run().unwrap(), 10);

    let commands = vec![
        Command::Number(0),
        Command::Number(20),
        Command::Number(5),
        Command::Sel,
    ];
    let mut postfix = PostFix::new(vec![], commands);
    assert_eq!(postfix.run().unwrap(), 5);
}

#[test]
fn test_exec() {
    let seq = vec![Command::Number(5), Command::Mul];
    let commands = vec![Command::Number(2), Command::Sequence(seq), Command::Exec];
    let mut postfix = PostFix::new(vec![], commands);
    assert_eq!(postfix.run().unwrap(), 10);
}

#[test]
fn test_with_parameters() {
    let commands = vec![Command::Add];
    let mut postfix = PostFix::new(vec![3, 4], commands);
    assert_eq!(postfix.run().unwrap(), 7);
}

#[test]
fn test_division_by_zero() {
    let commands = vec![Command::Number(10), Command::Number(0), Command::Div];
    let mut postfix = PostFix::new(vec![], commands);
    assert!(postfix.run().is_err());
}

#[test]
fn test_stack_underflow() {
    let commands = vec![Command::Pop];
    let mut postfix = PostFix::new(vec![], commands);
    assert!(postfix.run().is_err());

    let commands = vec![Command::Number(5), Command::Add];
    let mut postfix = PostFix::new(vec![], commands);
    assert!(postfix.run().is_err());
}

#[test]
fn test_complex_expression() {
    let add_seq = vec![Command::Number(4), Command::Add];
    let commands = vec![
        Command::Number(3),
        Command::Sequence(add_seq),
        Command::Exec,
        Command::Number(5),
        Command::Mul,
    ];
    let mut postfix = PostFix::new(vec![], commands);
    assert_eq!(postfix.run().unwrap(), 35);
}

#[test]
fn test_conditional_execution() {
    let seq1 = vec![Command::Number(10)];
    let seq2 = vec![Command::Number(20)];
    let commands = vec![
        Command::Number(0),
        Command::Sequence(seq1),
        Command::Sequence(seq2),
        Command::Sel,
        Command::Exec,
    ];
    let mut postfix = PostFix::new(vec![], commands);
    assert_eq!(postfix.run().unwrap(), 20);
}
