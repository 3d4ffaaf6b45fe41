use vstd::prelude::*;

use crate::ir::lemma_prog_view_index;
use crate::ir::lemma_prog_view_len;
use crate::ir::prog_view;
use crate::ir::Atom;
use crate::ir::AtomV;
use crate::semantics::cell_add;
use crate::semantics::get_cell;
use crate::semantics::init_state;
use crate::semantics::lemma_run_fuel_bound;
use crate::semantics::move_ptr;
use crate::semantics::offset_index;
use crate::semantics::offset_u8;
use crate::semantics::print_cell;
use crate::semantics::read_cell;
use crate::semantics::run;
use crate::semantics::set_cell;
use crate::semantics::Outcome;
use crate::semantics::State;
use crate::semantics::MEM_SIZE;

verus! {

/// Declares `std::io::Error` so the error enum can carry a resource-layer
/// failure, as callers that drive real streams expect; the engine itself
/// works on in-memory buffers and never constructs one.
#[verifier::external_type_specification]
#[verifier::external_body]
pub struct ExIoError(std::io::Error);

/// A failed execution.
///
/// `IndexOutOfBounds` is defensive: addressing goes through a bounds-checked
/// accessor even though the wrapping arithmetic keeps every index on the
/// tape (and the accessors' contracts prove that it is never returned).
/// `EmptyInput` is a `Read` against an exhausted input.  `IOError` wraps a
/// failure of an outside input or output resource; the in-memory engine has
/// none, so it is never produced here.
#[derive(Debug)]
pub enum InterpreterError {
    IndexOutOfBounds(usize),
    EmptyInput,
    IOError(std::io::Error),
}

/// How a bounded run ended.  The engine bounds the total number of loop
/// iterations by an explicit budget, so that it is total: `OutOfFuel`
/// reports that the budget was spent before the program finished.
#[derive(Debug)]
pub enum RunStatus {
    Done,
    Error(InterpreterError),
    OutOfFuel,
}

/// The reference execution engine: a circular byte tape, a pointer, an
/// in-memory input buffer with a read position, and an output buffer.
pub struct Interpreter {
    memory: Vec<u8>,
    ptr: usize,
    input: Vec<u8>,
    input_pos: usize,
    output: Vec<u8>,
}

impl Interpreter {
    pub closed spec fn wf(self) -> bool {
        &&& self.memory@.len() == MEM_SIZE
        &&& self.ptr < MEM_SIZE
        &&& self.input_pos <= self.input@.len()
    }

    /// The machine state this engine currently embodies.
    pub closed spec fn st(self) -> State {
        State {
            mem: self.memory@,
            ptr: self.ptr as int,
            input: self.input@.skip(self.input_pos as int),
            output: self.output@,
        }
    }

    /// The bytes printed so far.
    pub closed spec fn output_view(self) -> Seq<u8> {
        self.output@
    }

    pub fn new(input: Vec<u8>) -> (r: Interpreter)
        ensures
            r.wf(),
            r.st() == init_state(input@),
    {
        let r = Interpreter {
            memory: vec![0u8; MEM_SIZE],
            ptr: 0,
            input,
            input_pos: 0,
            output: Vec::new(),
        };
        proof {
            assert(r.st().mem =~= init_state(r.input@).mem);
            assert(r.st().input =~= r.input@);
            assert(r.st() =~= init_state(r.input@));
        }
        r
    }

    /// Hand back the output accumulated so far, consuming the engine.
    pub fn into_output(self) -> (r: Vec<u8>)
        ensures
            r@ == self.output_view(),
    {
        self.output
    }

    fn get_memory_offset(&self, offset: isize) -> (r: Result<u8, InterpreterError>)
        requires
            self.wf(),
        ensures
            r matches Ok(v) && v == get_cell(self.st(), offset),
    {
        let idx = offset_index(self.ptr, offset);
        if idx < self.memory.len() {
            Ok(self.memory[idx])
        } else {
            Err(InterpreterError::IndexOutOfBounds(idx))
        }
    }

    fn set_memory_offset(&mut self, offset: isize, value: u8) -> (r: Result<(), InterpreterError>)
        requires
            old(self).wf(),
        ensures
            final(self).wf(),
            r is Ok,
            final(self).st() == set_cell(old(self).st(), offset, value),
    {
        let idx = offset_index(self.ptr, offset);
        if idx < self.memory.len() {
            self.memory[idx] = value;
            proof {
                assert(self.st() =~= set_cell(old(self).st(), offset, value));
            }
            Ok(())
        } else {
            Err(InterpreterError::IndexOutOfBounds(idx))
        }
    }

    /// Execute `ir` against the current state, spending at most `fuel` loop
    /// iterations.  The result and the state afterwards are exactly what the
    /// big-step semantics [`run`] prescribes; on `Done` the returned number
    /// is the unspent budget.
    #[verifier::loop_isolation(false)]
    pub fn interpret(&mut self, ir: &Vec<Atom>, fuel: u64) -> (r: (RunStatus, u64))
        requires
            old(self).wf(),
        ensures
            final(self).wf(),
            match run(prog_view(ir@), old(self).st(), fuel as nat) {
                Outcome::Done(s2, f2) => r.0 is Done && final(self).st() == s2 && r.1 == f2,
                Outcome::Fail(s2) => (r.0 matches RunStatus::Error(e) && e is EmptyInput)
                    && final(self).st() == s2,
                Outcome::OutOfFuel => r.0 is OutOfFuel,
            },
        decreases fuel,
    {
        let ghost v = prog_view(ir@);
        let ghost st0 = self.st();
        proof {
            lemma_prog_view_len(ir@);
            assert(v.skip(0) =~= v);
        }
        let mut fuel_left: u64 = fuel;
        let mut i: usize = 0;
        while i < ir.len()
            invariant
                self.wf(),
                i <= ir@.len(),
                fuel_left <= fuel,
                v == prog_view(ir@),
                v.len() == ir@.len(),
                run(v, st0, fuel as nat) == run(
                    v.skip(i as int),
                    self.st(),
                    fuel_left as nat,
                ),
            decreases ir@.len() - i,
        {
            proof {
                lemma_prog_view_index(ir@, i as int);
                assert(v.skip(i as int)[0] == v[i as int]);
                assert(v.skip(i as int).skip(1) =~= v.skip(i as int + 1));
            }
            let ghost pre = self.st();
            match &ir[i] {
                Atom::MovePtr(o) => {
                    self.ptr = offset_index(self.ptr, *o);
                    proof {
                        assert(self.st() =~= move_ptr(pre, *o));
                    }
                },
                Atom::SetValue(value, o) => {
                    let res = self.set_memory_offset(*o, *value);
                    proof {
                        assert(res is Ok);
                    }
                },
                Atom::IncValue(d, o) => {
                    let old_value = match self.get_memory_offset(*o) {
                        Ok(x) => x,
                        Err(e) => {
                            return (RunStatus::Error(e), 0);
                        },
                    };
                    let new_value = offset_u8(old_value, *d);
                    let res = self.set_memory_offset(*o, new_value);
                    proof {
                        assert(res is Ok);
                    }
                },
                Atom::Print(o) => {
                    let to_write = match self.get_memory_offset(*o) {
                        Ok(x) => x,
                        Err(e) => {
                            return (RunStatus::Error(e), 0);
                        },
                    };
                    self.output.push(to_write);
                    proof {
                        assert(self.st() =~= print_cell(pre, *o));
                    }
                },
                Atom::Read(o) => {
                    if self.input_pos < self.input.len() {
                        let c = self.input[self.input_pos];
                        self.input_pos = self.input_pos + 1;
                        let ghost mid = self.st();
                        proof {
                            assert(pre.input[0] == c);
                            assert(mid.input =~= pre.input.skip(1));
                        }
                        let res = self.set_memory_offset(*o, c);
                        proof {
                            assert(res is Ok);
                            assert(self.st() =~= read_cell(pre, *o));
                        }
                    } else {
                        proof {
                            assert(pre.input.len() == 0);
                            assert(run(v.skip(i as int), pre, fuel_left as nat) == Outcome::Fail(
                                pre,
                            ));
                        }
                        return (RunStatus::Error(InterpreterError::EmptyInput), 0);
                    }
                },
                Atom::Loop(sub) => {
                    let ghost bodyv = prog_view(sub@);
                    proof {
                        assert(v[i as int] == AtomV::Loop(bodyv));
                    }
                    let mut c = match self.get_memory_offset(0) {
                        Ok(x) => x,
                        Err(e) => {
                            return (RunStatus::Error(e), 0);
                        },
                    };
                    while c != 0
                        invariant
                            self.wf(),
                            fuel_left <= fuel,
                            i < v.len(),
                            v.skip(i as int)[0] == AtomV::Loop(bodyv),
                            c == get_cell(self.st(), 0),
                            run(v, st0, fuel as nat) == run(
                                v.skip(i as int),
                                self.st(),
                                fuel_left as nat,
                            ),
                        decreases fuel_left,
                    {
                        let ghost loop_pre = self.st();
                        let ghost fl_top = fuel_left as nat;
                        if fuel_left == 0 {
                            proof {
                                assert(run(v.skip(i as int), loop_pre, fl_top)
                                    == Outcome::OutOfFuel);
                            }
                            return (RunStatus::OutOfFuel, 0);
                        }
                        fuel_left = fuel_left - 1;
                        let (status, f2) = self.interpret(sub, fuel_left);
                        proof {
                            lemma_run_fuel_bound(bodyv, loop_pre, fuel_left as nat);
                            assert(run(v.skip(i as int), loop_pre, fl_top) == match run(
                                bodyv,
                                loop_pre,
                                (fl_top - 1) as nat,
                            ) {
                                Outcome::Done(st2, f2a) => run(v.skip(i as int), st2, f2a),
                                Outcome::Fail(st2) => Outcome::Fail(st2),
                                Outcome::OutOfFuel => Outcome::OutOfFuel,
                            });
                        }
                        match status {
                            RunStatus::Done => {
                                fuel_left = f2;
                            },
                            RunStatus::Error(e) => {
                                return (RunStatus::Error(e), 0);
                            },
                            RunStatus::OutOfFuel => {
                                return (RunStatus::OutOfFuel, 0);
                            },
                        }
                        c = match self.get_memory_offset(0) {
                            Ok(x) => x,
                            Err(e) => {
                                return (RunStatus::Error(e), 0);
                            },
                        };
                    }
                },
            }
            i = i + 1;
        }
        proof {
            assert(v.skip(i as int) =~= Seq::<AtomV>::empty());
        }
        (RunStatus::Done, fuel_left)
    }
}

/// Run `ir` against `input` on a fresh engine, spending at most `fuel` loop
/// iterations, and hand back the output together with how the run ended.
pub fn interpret(ir: &Vec<Atom>, input: Vec<u8>, fuel: u64) -> (r: (Vec<u8>, RunStatus))
    ensures
        match run(prog_view(ir@), init_state(input@), fuel as nat) {
            Outcome::Done(s2, f2) => r.1 is Done && r.0@ == s2.output,
            Outcome::Fail(s2) => (r.1 matches RunStatus::Error(e) && e is EmptyInput) && r.0@
                == s2.output,
            Outcome::OutOfFuel => r.1 is OutOfFuel,
        },
{
    let mut engine = Interpreter::new(input);
    let (status, _) = engine.interpret(ir, fuel);
    (engine.into_output(), status)
}

} // verus!
