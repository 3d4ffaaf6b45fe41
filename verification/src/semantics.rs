use vstd::arithmetic::div_mod::lemma_fundamental_div_mod;
use vstd::arithmetic::div_mod::lemma_mod_multiples_vanish;
use vstd::arithmetic::div_mod::lemma_small_mod;
use vstd::prelude::*;

use crate::ir::AtomV;

verus! {

/// Number of byte cells on the circular tape.
pub const MEM_SIZE: usize = 30000;

/// Mathematical machine state: the tape, the pointer, the input bytes not
/// yet consumed, and the output bytes produced so far.
#[verifier::ext_equal]
pub struct State {
    pub mem: Seq<u8>,
    pub ptr: int,
    pub input: Seq<u8>,
    pub output: Seq<u8>,
}

pub open spec fn state_wf(st: State) -> bool {
    &&& st.mem.len() == MEM_SIZE
    &&& 0 <= st.ptr < MEM_SIZE
}

/// The state a run starts from: an all-zero tape, the pointer at cell 0,
/// the whole input ahead, no output yet.
pub open spec fn init_state(input: Seq<u8>) -> State {
    State { mem: Seq::new(MEM_SIZE as nat, |i: int| 0u8), ptr: 0, input, output: Seq::empty() }
}

/// The tape index addressed by an atom with displacement `off` while the
/// pointer stands at `ptr`: Euclidean remainder, always in `0..MEM_SIZE`.
pub open spec fn cell_index(ptr: int, off: isize) -> int {
    (ptr + off) % (MEM_SIZE as int)
}

pub open spec fn get_cell(st: State, off: isize) -> u8 {
    st.mem[cell_index(st.ptr, off)]
}

pub open spec fn set_cell(st: State, off: isize, v: u8) -> State {
    State { mem: st.mem.update(cell_index(st.ptr, off), v), ..st }
}

/// Cell arithmetic wraps modulo 256.
pub open spec fn cell_add(v: u8, d: i8) -> u8 {
    (((v as int) + (d as int)) % 256) as u8
}

pub open spec fn move_ptr(st: State, off: isize) -> State {
    State { ptr: cell_index(st.ptr, off), ..st }
}

pub open spec fn print_cell(st: State, off: isize) -> State {
    State { output: st.output.push(get_cell(st, off)), ..st }
}

/// Consume the next input byte into the cell at `off`.
pub open spec fn read_cell(st: State, off: isize) -> State
    recommends
        st.input.len() > 0,
{
    State { input: st.input.skip(1), ..set_cell(st, off, st.input[0]) }
}

/// Result of running a program with a bounded budget of loop iterations.
///
/// `Done` carries the final state and the unspent budget; `Fail` is a `Read`
/// that found the input exhausted, with the state at that moment (its output
/// is still observable); `OutOfFuel` means the budget was hit before the run
/// could finish.
pub enum Outcome {
    Done(State, nat),
    Fail(State),
    OutOfFuel,
}

/// Big-step semantics of a program.  `fuel` bounds the total number of loop
/// iterations, so the definition is total; a run of a terminating program is
/// `Done` or `Fail` for every large enough `fuel`.
pub open spec fn run(p: Seq<AtomV>, st: State, fuel: nat) -> Outcome
    decreases fuel, p.len(),
{
    if p.len() == 0 {
        Outcome::Done(st, fuel)
    } else {
        let rest = p.skip(1);
        match p[0] {
            AtomV::MovePtr(o) => run(rest, move_ptr(st, o), fuel),
            AtomV::SetValue(v, o) => run(rest, set_cell(st, o, v), fuel),
            AtomV::IncValue(d, o) => run(
                rest,
                set_cell(st, o, cell_add(get_cell(st, o), d)),
                fuel,
            ),
            AtomV::Print(o) => run(rest, print_cell(st, o), fuel),
            AtomV::Read(o) => if st.input.len() == 0 {
                Outcome::Fail(st)
            } else {
                run(rest, read_cell(st, o), fuel)
            },
            AtomV::Loop(body) => if get_cell(st, 0) == 0 {
                run(rest, st, fuel)
            } else if fuel == 0 {
                Outcome::OutOfFuel
            } else {
                match run(body, st, (fuel - 1) as nat) {
                    Outcome::Done(st2, f2) => run(
                        p,
                        st2,
                        if f2 < fuel {
                            f2
                        } else {
                            (fuel - 1) as nat
                        },
                    ),
                    Outcome::Fail(st2) => Outcome::Fail(st2),
                    Outcome::OutOfFuel => Outcome::OutOfFuel,
                }
            },
        }
    }
}

/// The unspent budget of a finished run never exceeds the starting budget.
pub proof fn lemma_run_fuel_bound(p: Seq<AtomV>, st: State, fuel: nat)
    ensures
        run(p, st, fuel) matches Outcome::Done(s2, f2) ==> f2 <= fuel,
    decreases fuel, p.len(),
{
    if p.len() > 0 {
        let rest = p.skip(1);
        match p[0] {
            AtomV::MovePtr(o) => lemma_run_fuel_bound(rest, move_ptr(st, o), fuel),
            AtomV::SetValue(v, o) => lemma_run_fuel_bound(rest, set_cell(st, o, v), fuel),
            AtomV::IncValue(d, o) => lemma_run_fuel_bound(
                rest,
                set_cell(st, o, cell_add(get_cell(st, o), d)),
                fuel,
            ),
            AtomV::Print(o) => lemma_run_fuel_bound(rest, print_cell(st, o), fuel),
            AtomV::Read(o) => {
                if st.input.len() > 0 {
                    lemma_run_fuel_bound(rest, read_cell(st, o), fuel);
                }
            },
            AtomV::Loop(body) => {
                if get_cell(st, 0) == 0 {
                    lemma_run_fuel_bound(rest, st, fuel);
                } else if fuel > 0 {
                    lemma_run_fuel_bound(body, st, (fuel - 1) as nat);
                    match run(body, st, (fuel - 1) as nat) {
                        Outcome::Done(st2, f2) => {
                            lemma_run_fuel_bound(p, st2, f2);
                        },
                        _ => {},
                    }
                }
            },
        }
    }
}

/// Well-formedness of the state is preserved by every step, hence by a run.
pub proof fn lemma_run_preserves_wf(p: Seq<AtomV>, st: State, fuel: nat)
    requires
        state_wf(st),
    ensures
        run(p, st, fuel) matches Outcome::Done(s2, f2) ==> state_wf(s2),
        run(p, st, fuel) matches Outcome::Fail(s2) ==> state_wf(s2),
    decreases fuel, p.len(),
{
    if p.len() > 0 {
        let rest = p.skip(1);
        match p[0] {
            AtomV::MovePtr(o) => lemma_run_preserves_wf(rest, move_ptr(st, o), fuel),
            AtomV::SetValue(v, o) => lemma_run_preserves_wf(rest, set_cell(st, o, v), fuel),
            AtomV::IncValue(d, o) => lemma_run_preserves_wf(
                rest,
                set_cell(st, o, cell_add(get_cell(st, o), d)),
                fuel,
            ),
            AtomV::Print(o) => lemma_run_preserves_wf(rest, print_cell(st, o), fuel),
            AtomV::Read(o) => {
                if st.input.len() > 0 {
                    lemma_run_preserves_wf(rest, read_cell(st, o), fuel);
                }
            },
            AtomV::Loop(body) => {
                if get_cell(st, 0) == 0 {
                    lemma_run_preserves_wf(rest, st, fuel);
                } else if fuel > 0 {
                    lemma_run_fuel_bound(body, st, (fuel - 1) as nat);
                    lemma_run_preserves_wf(body, st, (fuel - 1) as nat);
                    match run(body, st, (fuel - 1) as nat) {
                        Outcome::Done(st2, f2) => {
                            lemma_run_preserves_wf(p, st2, f2);
                        },
                        _ => {},
                    }
                }
            },
        }
    }
}

/// Wrapping byte addition: the executable counterpart of [`cell_add`].
pub fn offset_u8(v: u8, d: i8) -> (r: u8)
    ensures
        r == cell_add(v, d),
{
    let dd: u16 = ((d as i16) + 256) as u16;
    let s: u16 = (v as u16) + dd;
    let r: u16 = s % 256;
    proof {
        lemma_mod_multiples_vanish(1, (v as int) + (d as int), 256);
    }
    r as u8
}

/// The executable counterpart of [`cell_index`]: resolves a displacement
/// against the pointer, wrapping on the circular tape.
pub fn offset_index(ptr: usize, off: isize) -> (r: usize)
    requires
        ptr < MEM_SIZE,
    ensures
        r < MEM_SIZE,
        r as int == cell_index(ptr as int, off),
{
    let m: usize = MEM_SIZE;
    if off >= 0 {
        let k: usize = (off as usize) % m;
        let r: usize = (ptr + k) % m;
        proof {
            lemma_fundamental_div_mod(off as int, m as int);
            lemma_mod_multiples_vanish(
                (off as int) / (m as int),
                (ptr as int) + (off as int) % (m as int),
                m as int,
            );
        }
        r
    } else {
        let n1: usize = (-(off + 1)) as usize;
        let k: usize = n1 % m;
        let r: usize = (ptr + m - 1 - k) % m;
        proof {
            let q = (n1 as int) / (m as int);
            lemma_fundamental_div_mod(n1 as int, m as int);
            // ptr + off == (ptr - 1 - k) - q * m, and the emitted index adds one
            // more multiple of m to stay non-negative.
            lemma_mod_multiples_vanish(-q - 1, (ptr as int) + (m as int) - 1 - (k as int), m as int);
            assert((ptr as int) + (off as int) == ((ptr as int) + (m as int) - 1 - (k as int)) + (
            m as int) * (-q - 1));
        }
        r
    }
}

/// A spent budget stays spent: adding headroom shifts a finished run's
/// unspent budget by the same amount and cannot change its result.
pub proof fn lemma_run_fuel_mono(p: Seq<AtomV>, st: State, fuel: nat, extra: nat)
    ensures
        run(p, st, fuel) matches Outcome::Done(s2, f2) ==> run(p, st, (fuel + extra) as nat)
            == Outcome::Done(s2, (f2 + extra) as nat),
        run(p, st, fuel) matches Outcome::Fail(s2) ==> run(p, st, (fuel + extra) as nat)
            == Outcome::Fail(s2),
    decreases fuel, p.len(),
{
    if p.len() > 0 {
        let rest = p.skip(1);
        match p[0] {
            AtomV::MovePtr(o) => lemma_run_fuel_mono(rest, move_ptr(st, o), fuel, extra),
            AtomV::SetValue(v, o) => lemma_run_fuel_mono(rest, set_cell(st, o, v), fuel, extra),
            AtomV::IncValue(d, o) => lemma_run_fuel_mono(
                rest,
                set_cell(st, o, cell_add(get_cell(st, o), d)),
                fuel,
                extra,
            ),
            AtomV::Print(o) => lemma_run_fuel_mono(rest, print_cell(st, o), fuel, extra),
            AtomV::Read(o) => {
                if st.input.len() > 0 {
                    lemma_run_fuel_mono(rest, read_cell(st, o), fuel, extra);
                }
            },
            AtomV::Loop(body) => {
                if get_cell(st, 0) == 0 {
                    lemma_run_fuel_mono(rest, st, fuel, extra);
                } else if fuel > 0 {
                    lemma_run_fuel_bound(body, st, (fuel - 1) as nat);
                    lemma_run_fuel_mono(body, st, (fuel - 1) as nat, extra);
                    match run(body, st, (fuel - 1) as nat) {
                        Outcome::Done(st2, f2) => {
                            lemma_run_fuel_bound(body, st, (fuel + extra - 1) as nat);
                            lemma_run_fuel_mono(p, st2, f2, extra);
                        },
                        _ => {},
                    }
                }
            },
        }
    }
}

} // verus!
