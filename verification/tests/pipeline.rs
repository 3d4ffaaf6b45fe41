use brainfuck::interpreter::interpret;
use brainfuck::interpreter::InterpreterError;
use brainfuck::interpreter::RunStatus;
use brainfuck::ir::Atom;
use brainfuck::opt::run_opts;

const FUEL: u64 = 1_000_000;

fn outputs_match(prog: Vec<Atom>, input: Vec<u8>) -> (Vec<u8>, RunStatus) {
    let (out_plain, status_plain) = interpret(&prog, input.clone(), FUEL);
    let optimized = run_opts(prog);
    let (out_opt, status_opt) = interpret(&optimized, input, FUEL);
    assert_eq!(out_plain, out_opt);
    match (&status_plain, &status_opt) {
        (RunStatus::Done, RunStatus::Done) => {}
        (
            RunStatus::Error(InterpreterError::EmptyInput),
            RunStatus::Error(InterpreterError::EmptyInput),
        ) => {}
        (a, b) => panic!("outcomes differ: {:?} vs {:?}", a, b),
    }
    (out_opt, status_opt)
}

#[test]
fn move_fusion_preserves_target() {
    // MovePtr(2) then MovePtr(-1) lands on cell 1, as MovePtr(1) would.
    let prog = vec![
        Atom::SetValue(42, 1),
        Atom::MovePtr(2),
        Atom::MovePtr(-1),
        Atom::Print(0),
    ];
    let (out, _) = outputs_match(prog, vec![]);
    assert_eq!(out, vec![42]);
}

#[test]
fn increment_fusion_preserves_sum() {
    let prog = vec![Atom::IncValue(3, 0), Atom::IncValue(4, 0), Atom::Print(0)];
    let (out, _) = outputs_match(prog, vec![]);
    assert_eq!(out, vec![7]);
}

#[test]
fn set_after_increment_wins() {
    let prog = vec![Atom::IncValue(9, 0), Atom::SetValue(5, 0), Atom::Print(0)];
    let (out, _) = outputs_match(prog, vec![]);
    assert_eq!(out, vec![5]);
}

#[test]
fn increment_folds_into_set() {
    let prog = vec![Atom::SetValue(5, 0), Atom::IncValue(2, 0), Atom::Print(0)];
    let (out, _) = outputs_match(prog, vec![]);
    assert_eq!(out, vec![7]);
    let optimized = run_opts(vec![Atom::SetValue(5, 0), Atom::IncValue(2, 0)]);
    assert_eq!(optimized, vec![Atom::SetValue(7, 0)]);
}

#[test]
fn last_set_wins() {
    let prog = vec![Atom::SetValue(5, 0), Atom::SetValue(11, 0), Atom::Print(0)];
    let (out, _) = outputs_match(prog, vec![]);
    assert_eq!(out, vec![11]);
}

#[test]
fn set_increment_fusion_wraps() {
    let optimized = run_opts(vec![Atom::SetValue(255, 0), Atom::IncValue(1, 0)]);
    assert_eq!(optimized, vec![Atom::SetValue(0, 0)]);
}

#[test]
fn clean_drops_noops() {
    let optimized = run_opts(vec![
        Atom::MovePtr(0),
        Atom::IncValue(0, 5),
        Atom::Print(0),
    ]);
    assert_eq!(optimized, vec![Atom::Print(0)]);
}

#[test]
fn zero_loop_becomes_set() {
    let prog = vec![
        Atom::IncValue(5, 0),
        Atom::Loop(vec![Atom::IncValue(-1, 0)]),
        Atom::Print(0),
    ];
    let optimized = run_opts(clone_prog(&prog));
    assert_eq!(optimized, vec![Atom::SetValue(0, 0), Atom::Print(0)]);
    let (out, _) = outputs_match(prog, vec![]);
    assert_eq!(out, vec![0]);
}

#[test]
fn offsets_replace_pointer_motion() {
    let prog = vec![
        Atom::MovePtr(3),
        Atom::IncValue(7, 0),
        Atom::MovePtr(-3),
        Atom::Print(3),
    ];
    let optimized = run_opts(clone_prog(&prog));
    assert_eq!(optimized, vec![Atom::IncValue(7, 3), Atom::Print(3)]);
    let (out, _) = outputs_match(prog, vec![]);
    assert_eq!(out, vec![7]);
}

#[test]
fn reorder_sorts_runs_and_keeps_equal_offsets_in_order() {
    // The two offset-0 atoms must stay in arrival order: the stable sort
    // brings them together and the second combine fuses Inc-then-Set into
    // Set.  An order swap would have produced SetValue(6, 0) instead.
    let prog = vec![
        Atom::IncValue(1, 0),
        Atom::SetValue(2, 1),
        Atom::SetValue(5, 0),
    ];
    let optimized = run_opts(prog);
    assert_eq!(optimized, vec![Atom::SetValue(5, 0), Atom::SetValue(2, 1)]);
}

#[test]
fn flush_precedes_every_loop() {
    let prog = vec![
        Atom::MovePtr(2),
        Atom::IncValue(1, 0),
        Atom::Loop(vec![Atom::IncValue(-1, 0), Atom::Print(0)]),
    ];
    let optimized = run_opts(clone_prog(&prog));
    assert_eq!(
        optimized,
        vec![
            Atom::IncValue(1, 2),
            Atom::MovePtr(2),
            Atom::Loop(vec![Atom::IncValue(-1, 0), Atom::Print(0)]),
        ]
    );
    let (out, _) = outputs_match(prog, vec![]);
    assert_eq!(out, vec![0]);
}

#[test]
fn cat_until_eof_before_and_after_optimization() {
    // "cat": seed the cell, then loop reading and echoing until the input
    // runs dry; reading past the end fails with EmptyInput after printing
    // everything that was read.
    let prog = vec![
        Atom::IncValue(1, 0),
        Atom::Loop(vec![Atom::Read(0), Atom::Print(0)]),
    ];
    let (out, status) = outputs_match(prog, vec![b'a', b'b']);
    assert_eq!(out, vec![b'a', b'b']);
    assert!(matches!(
        status,
        RunStatus::Error(InterpreterError::EmptyInput)
    ));
}

#[test]
fn nested_loops_survive_optimization() {
    // Outer loop body zeroes an inner counter each round.
    let prog = vec![
        Atom::IncValue(3, 0),
        Atom::Loop(vec![
            Atom::IncValue(2, 1),
            Atom::MovePtr(1),
            Atom::Loop(vec![Atom::IncValue(-1, 0)]),
            Atom::MovePtr(-1),
            Atom::Print(1),
            Atom::IncValue(-1, 0),
        ]),
    ];
    let (out, _) = outputs_match(prog, vec![]);
    assert_eq!(out, vec![0, 0, 0]);
}

fn clone_prog(v: &[Atom]) -> Vec<Atom> {
    v.iter().map(clone_atom).collect()
}

fn clone_atom(a: &Atom) -> Atom {
    match a {
        Atom::MovePtr(o) => Atom::MovePtr(*o),
        Atom::SetValue(v, o) => Atom::SetValue(*v, *o),
        Atom::IncValue(d, o) => Atom::IncValue(*d, *o),
        Atom::Print(o) => Atom::Print(*o),
        Atom::Read(o) => Atom::Read(*o),
        Atom::Loop(b) => Atom::Loop(clone_prog(b)),
    }
}
