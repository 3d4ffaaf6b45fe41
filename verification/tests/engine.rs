use brainfuck::interpreter::interpret;
use brainfuck::interpreter::Interpreter;
use brainfuck::interpreter::InterpreterError;
use brainfuck::interpreter::RunStatus;
use brainfuck::ir::Atom;

const FUEL: u64 = 1_000_000;

#[test]
fn empty_program_finishes() {
    let prog: Vec<Atom> = vec![];
    let (out, status) = interpret(&prog, vec![], FUEL);
    assert!(matches!(status, RunStatus::Done));
    assert!(out.is_empty());
}

#[test]
fn print_reads_the_addressed_cell() {
    let prog = vec![
        Atom::SetValue(65, 0),
        Atom::SetValue(66, 1),
        Atom::Print(0),
        Atom::Print(1),
    ];
    let (out, status) = interpret(&prog, vec![], FUEL);
    assert!(matches!(status, RunStatus::Done));
    assert_eq!(out, vec![65, 66]);
}

#[test]
fn read_consumes_input_in_order() {
    let prog = vec![Atom::Read(0), Atom::Read(1), Atom::Print(1), Atom::Print(0)];
    let (out, status) = interpret(&prog, vec![10, 20], FUEL);
    assert!(matches!(status, RunStatus::Done));
    assert_eq!(out, vec![20, 10]);
}

#[test]
fn read_on_exhausted_input_fails() {
    let prog = vec![Atom::Read(0)];
    let (out, status) = interpret(&prog, vec![], FUEL);
    assert!(matches!(
        status,
        RunStatus::Error(InterpreterError::EmptyInput)
    ));
    assert!(out.is_empty());
}

#[test]
fn pointer_wraps_at_tape_end() {
    // A cell is written at index 0; moving to the last cell and one further
    // must land back on index 0.
    let prog = vec![
        Atom::SetValue(7, 0),
        Atom::MovePtr(29_999),
        Atom::MovePtr(1),
        Atom::Print(0),
    ];
    let (out, status) = interpret(&prog, vec![], FUEL);
    assert!(matches!(status, RunStatus::Done));
    assert_eq!(out, vec![7]);
}

#[test]
fn negative_offsets_wrap_backwards() {
    let prog = vec![Atom::SetValue(9, -1), Atom::MovePtr(29_999), Atom::Print(0)];
    let (out, status) = interpret(&prog, vec![], FUEL);
    assert!(matches!(status, RunStatus::Done));
    assert_eq!(out, vec![9]);
}

#[test]
fn cell_increment_wraps_at_256() {
    let prog = vec![Atom::SetValue(255, 0), Atom::IncValue(1, 0), Atom::Print(0)];
    let (out, status) = interpret(&prog, vec![], FUEL);
    assert!(matches!(status, RunStatus::Done));
    assert_eq!(out, vec![0]);
}

#[test]
fn cell_decrement_wraps_below_zero() {
    let prog = vec![Atom::IncValue(-1, 0), Atom::Print(0)];
    let (out, status) = interpret(&prog, vec![], FUEL);
    assert!(matches!(status, RunStatus::Done));
    assert_eq!(out, vec![255]);
}

#[test]
fn loop_runs_while_cell_nonzero() {
    // Counts the cell down to zero, printing each value.
    let prog = vec![
        Atom::IncValue(3, 0),
        Atom::Loop(vec![Atom::Print(0), Atom::IncValue(-1, 0)]),
        Atom::Print(0),
    ];
    let (out, status) = interpret(&prog, vec![], FUEL);
    assert!(matches!(status, RunStatus::Done));
    assert_eq!(out, vec![3, 2, 1, 0]);
}

#[test]
fn nonterminating_loop_exhausts_budget() {
    let prog = vec![Atom::IncValue(1, 0), Atom::Loop(vec![])];
    let mut engine = Interpreter::new(vec![]);
    let (status, left) = engine.interpret(&prog, 10);
    assert!(matches!(status, RunStatus::OutOfFuel));
    assert_eq!(left, 0);
}

#[test]
fn engine_reports_unspent_budget() {
    let prog = vec![
        Atom::IncValue(2, 0),
        Atom::Loop(vec![Atom::IncValue(-1, 0)]),
    ];
    let mut engine = Interpreter::new(vec![]);
    let (status, left) = engine.interpret(&prog, 10);
    assert!(matches!(status, RunStatus::Done));
    assert_eq!(left, 8);
    assert!(engine.into_output().is_empty());
}
