use vstd::arithmetic::div_mod::lemma_fundamental_div_mod;
use vstd::arithmetic::div_mod::lemma_mod_multiples_vanish;
use vstd::arithmetic::div_mod::lemma_small_mod;
use vstd::prelude::*;

use crate::ir::AtomV;
use crate::opt::data_key;
use crate::opt::fuse;
use crate::opt::insert_sorted;
use crate::opt::is_data;
use crate::opt::sort_data;
use crate::opt::spec_clean;
use crate::semantics::cell_add;
use crate::semantics::cell_index;
use crate::semantics::get_cell;
use crate::semantics::lemma_run_fuel_bound;
use crate::semantics::lemma_run_fuel_mono;
use crate::semantics::lemma_run_preserves_wf;
use crate::semantics::move_ptr;
use crate::semantics::print_cell;
use crate::semantics::read_cell;
use crate::semantics::run;
use crate::semantics::set_cell;
use crate::semantics::state_wf;
use crate::semantics::Outcome;
use crate::semantics::State;
use crate::semantics::MEM_SIZE;

verus! {

proof fn lemma_cons(x: AtomV, t: Seq<AtomV>)
    ensures
        (seq![x] + t).len() == 1 + t.len(),
        (seq![x] + t)[0] == x,
        (seq![x] + t).skip(1) == t,
{
    assert((seq![x] + t).skip(1) =~= t);
}

// ---------------------------------------------------------------------------
// Idempotence of clean
// ---------------------------------------------------------------------------
/// Cleaning is idempotent: a second `clean` finds nothing left to drop.
pub proof fn lemma_clean_idempotent(p: Seq<AtomV>)
    ensures
        spec_clean(spec_clean(p)) == spec_clean(p),
    decreases p,
{
    if p.len() > 0 {
        let t = spec_clean(p.skip(1));
        lemma_clean_idempotent(p.skip(1));
        match p[0] {
            AtomV::MovePtr(o) => {
                if o != 0 {
                    lemma_cons(p[0], t);
                }
            },
            AtomV::IncValue(d, o) => {
                if d != 0 {
                    lemma_cons(p[0], t);
                }
            },
            AtomV::Loop(b) => {
                lemma_clean_idempotent(b);
                lemma_cons(AtomV::Loop(spec_clean(b)), t);
            },
            x => {
                lemma_cons(x, t);
            },
        }
    }
}

// ---------------------------------------------------------------------------
// Fusion correctness
// ---------------------------------------------------------------------------
/// Each `combine` fusion rule is sound: the fused atom drives any state
/// exactly where the original pair drove it.  The pointer-motion rule is
/// stated where the sum of the two displacements does not overflow `isize`;
/// on an overflowing pair the wrapped sum lands elsewhere on the tape.
#[verifier::rlimit(100)]
#[verifier::spinoff_prover]
pub proof fn lemma_fuse_correct(
    a: AtomV,
    b: AtomV,
    c: AtomV,
    rest: Seq<AtomV>,
    st: State,
    fuel: nat,
)
    requires
        state_wf(st),
        fuse(a, b) == Some(c),
        a matches AtomV::MovePtr(x) ==> (b matches AtomV::MovePtr(y) ==> isize::MIN <= x + y
            <= isize::MAX),
    ensures
        run(seq![a, b] + rest, st, fuel) == run(seq![c] + rest, st, fuel),
{
    let m = MEM_SIZE as int;
    reveal_with_fuel(run, 3);
    lemma_cons(c, rest);
    assert(seq![a, b] + rest =~= seq![a] + (seq![b] + rest));
    lemma_cons(a, seq![b] + rest);
    lemma_cons(b, rest);
    match (a, b) {
        (AtomV::MovePtr(x), AtomV::MovePtr(y)) => {
            let st1 = move_ptr(st, x);
            lemma_fundamental_div_mod(st.ptr + x, m);
            lemma_mod_multiples_vanish((st.ptr + x) / m, (st.ptr + x) % m + y, m);
            assert(move_ptr(st1, y) =~= move_ptr(st, (x + y) as isize));
            assert(run(seq![a, b] + rest, st, fuel) == run(seq![c] + rest, st, fuel));
        },
        (AtomV::IncValue(x, o1), AtomV::IncValue(y, o2)) => {
            let idx = cell_index(st.ptr, o1);
            let v = st.mem[idx];
            let st1 = set_cell(st, o1, cell_add(v, x));
            assert(st1.mem[idx] == cell_add(v, x));
            assert(get_cell(st1, o1) == cell_add(v, x));
            // ((v + x) % 256 + y) % 256 == (v + (x + y)) % 256, and the wrapped
            // delta differs from x + y by a multiple of 256.
            lemma_fundamental_div_mod(v + x, 256);
            lemma_mod_multiples_vanish((v + x) / 256, (v + x) % 256 + y, 256);
            let w = vstd::wrapping::i8_specs::wrapping_add(x, y);
            if x + y > i8::MAX {
                lemma_mod_multiples_vanish(1, v + w, 256);
            } else if x + y < i8::MIN {
                lemma_mod_multiples_vanish(-1, v + w, 256);
            }
            assert(cell_add(cell_add(v, x), y) == cell_add(v, w));
            assert(set_cell(st1, o1, cell_add(get_cell(st1, o1), y)) =~= set_cell(
                st,
                o1,
                cell_add(v, w),
            ));
            assert(run(seq![a, b] + rest, st, fuel) == run(seq![c] + rest, st, fuel));
        },
        (AtomV::IncValue(x, o1), AtomV::SetValue(sv, o2)) => {
            let st1 = set_cell(st, o1, cell_add(get_cell(st, o1), x));
            assert(set_cell(st1, o1, sv) =~= set_cell(st, o1, sv));
            assert(run(seq![a, b] + rest, st, fuel) == run(seq![c] + rest, st, fuel));
        },
        (AtomV::SetValue(sv, o1), AtomV::IncValue(d, o2)) => {
            let idx = cell_index(st.ptr, o1);
            let st1 = set_cell(st, o1, sv);
            assert(get_cell(st1, o1) == sv);
            assert(set_cell(st1, o1, cell_add(sv, d)) =~= set_cell(st, o1, cell_add(sv, d)));
            assert(run(seq![a, b] + rest, st, fuel) == run(seq![c] + rest, st, fuel));
        },
        (AtomV::SetValue(v1, o1), AtomV::SetValue(v2, o2)) => {
            let st1 = set_cell(st, o1, v1);
            assert(set_cell(st1, o1, v2) =~= set_cell(st, o1, v2));
            assert(run(seq![a, b] + rest, st, fuel) == run(seq![c] + rest, st, fuel));
        },
        _ => {},
    }
}

// ---------------------------------------------------------------------------
// Semantic preservation of clean
// ---------------------------------------------------------------------------
/// `clean` preserves the semantics exactly: dropped atoms were state no-ops,
/// so the cleaned program makes every run end in the same outcome, with the
/// same unspent budget.
pub proof fn lemma_clean_preserves_run(p: Seq<AtomV>, st: State, fuel: nat)
    requires
        state_wf(st),
    ensures
        run(spec_clean(p), st, fuel) == run(p, st, fuel),
    decreases fuel, p.len(),
{
    if p.len() > 0 {
        let rest = p.skip(1);
        let t = spec_clean(rest);
        match p[0] {
            AtomV::MovePtr(o) => {
                if o == 0 {
                    lemma_small_mod(st.ptr as nat, MEM_SIZE as nat);
                    assert(move_ptr(st, 0) =~= st);
                    lemma_clean_preserves_run(rest, st, fuel);
                } else {
                    lemma_cons(p[0], t);
                    lemma_clean_preserves_run(rest, move_ptr(st, o), fuel);
                }
            },
            AtomV::SetValue(v, o) => {
                lemma_cons(p[0], t);
                lemma_clean_preserves_run(rest, set_cell(st, o, v), fuel);
            },
            AtomV::IncValue(d, o) => {
                let st1 = set_cell(st, o, cell_add(get_cell(st, o), d));
                if d == 0 {
                    assert(cell_add(get_cell(st, o), 0) == get_cell(st, o));
                    assert(st1.mem =~= st.mem);
                    assert(st1 =~= st);
                    lemma_clean_preserves_run(rest, st, fuel);
                } else {
                    lemma_cons(p[0], t);
                    lemma_clean_preserves_run(rest, st1, fuel);
                }
            },
            AtomV::Print(o) => {
                lemma_cons(p[0], t);
                lemma_clean_preserves_run(rest, print_cell(st, o), fuel);
            },
            AtomV::Read(o) => {
                lemma_cons(p[0], t);
                if st.input.len() > 0 {
                    lemma_clean_preserves_run(rest, read_cell(st, o), fuel);
                }
            },
            AtomV::Loop(b) => {
                let cl = seq![AtomV::Loop(spec_clean(b))] + t;
                lemma_cons(AtomV::Loop(spec_clean(b)), t);
                if get_cell(st, 0) == 0 {
                    lemma_clean_preserves_run(rest, st, fuel);
                } else if fuel > 0 {
                    lemma_clean_preserves_run(b, st, (fuel - 1) as nat);
                    lemma_run_fuel_bound(b, st, (fuel - 1) as nat);
                    match run(b, st, (fuel - 1) as nat) {
                        Outcome::Done(st2, f2) => {
                            lemma_run_preserves_wf(b, st, (fuel - 1) as nat);
                            lemma_clean_preserves_run(p, st2, f2);
                            assert(run(cl, st2, f2) == run(spec_clean(p), st2, f2));
                        },
                        _ => {},
                    }
                }
            },
        }
    }
}

// ---------------------------------------------------------------------------
// The zero-loop idiom
// ---------------------------------------------------------------------------
/// A loop whose body is exactly `IncValue(-1, 0)` drives the current cell to
/// zero and is behaviorally indistinguishable from `SetValue(0, 0)`: whenever
/// the loop form finishes or fails, the store form reaches the same outcome
/// (it only spends less of the iteration budget).
pub proof fn lemma_zero_loop_idiom(rest: Seq<AtomV>, st: State, fuel: nat)
    requires
        state_wf(st),
    ensures
        run(seq![AtomV::Loop(seq![AtomV::IncValue(-1i8, 0isize)])] + rest, st, fuel)
            matches Outcome::Done(s2, f2) ==> (run(seq![AtomV::SetValue(0, 0)] + rest, st, fuel)
            matches Outcome::Done(s3, f3) && s3 == s2 && f2 <= f3),
        run(seq![AtomV::Loop(seq![AtomV::IncValue(-1i8, 0isize)])] + rest, st, fuel)
            matches Outcome::Fail(s2) ==> run(seq![AtomV::SetValue(0, 0)] + rest, st, fuel)
            == Outcome::Fail(s2),
    decreases get_cell(st, 0),
{
    reveal_with_fuel(run, 3);
    let body = seq![AtomV::IncValue(-1i8, 0isize)];
    let lp = seq![AtomV::Loop(body)] + rest;
    let sp = seq![AtomV::SetValue(0u8, 0isize)] + rest;
    lemma_cons(AtomV::Loop(body), rest);
    lemma_cons(AtomV::SetValue(0u8, 0isize), rest);
    lemma_small_mod(st.ptr as nat, MEM_SIZE as nat);
    let v = get_cell(st, 0);
    if v == 0 {
        assert(set_cell(st, 0, 0).mem =~= st.mem);
        assert(set_cell(st, 0, 0) =~= st);
    } else if fuel > 0 {
        assert(body.skip(1) =~= Seq::<AtomV>::empty());
        let st1 = set_cell(st, 0, cell_add(v, -1i8));
        assert(cell_add(v, -1i8) == v - 1);
        assert(run(body, st, (fuel - 1) as nat) == Outcome::Done(st1, (fuel - 1) as nat));
        assert(run(lp, st, fuel) == run(lp, st1, (fuel - 1) as nat));
        assert(get_cell(st1, 0) == v - 1);
        lemma_zero_loop_idiom(rest, st1, (fuel - 1) as nat);
        assert(set_cell(st1, 0, 0).mem =~= set_cell(st, 0, 0).mem);
        assert(set_cell(st1, 0, 0) =~= set_cell(st, 0, 0));
        let scc = set_cell(st, 0, 0);
        assert(run(sp, st1, (fuel - 1) as nat) == run(rest, scc, (fuel - 1) as nat));
        assert(run(sp, st, fuel) == run(rest, scc, fuel));
        lemma_run_fuel_mono(rest, scc, (fuel - 1) as nat, 1);
    }
}

// ---------------------------------------------------------------------------
// The offset-flush invariant
// ---------------------------------------------------------------------------
/// Every `Loop` in a flushed program stands right after a `MovePtr` at its
/// nesting level (possibly `MovePtr(0)`), so the pointer is physically in
/// place when the loop's offset-0 condition is tested.
pub open spec fn atom_flushed(a: AtomV) -> bool
    decreases a, 2nat,
{
    match a {
        AtomV::Loop(b) => seq_flushed(b),
        _ => true,
    }
}

pub open spec fn chain_flushed(p: Seq<AtomV>) -> bool
    decreases p, 0nat,
{
    if p.len() == 0 {
        true
    } else {
        &&& atom_flushed(p[0])
        &&& (p.len() > 1 && p[1] is Loop ==> p[0] is MovePtr)
        &&& chain_flushed(p.skip(1))
    }
}

pub open spec fn seq_flushed(p: Seq<AtomV>) -> bool
    decreases p, 1nat,
{
    p.len() == 0 || (!(p[0] is Loop) && chain_flushed(p))
}

#[verifier::rlimit(50)]
proof fn lemma_offset_rec_flushed(p: Seq<AtomV>, acc: isize)
    ensures
        chain_flushed(crate::opt::offset_rec(p, acc)),
        seq_flushed(crate::opt::offset_rec(p, acc)),
        crate::opt::offset_rec(p, acc).len() > 0,
        !(crate::opt::offset_rec(p, acc)[0] is Loop),
    decreases p,
{
    let r = crate::opt::offset_rec(p, acc);
    if p.len() == 0 {
        assert(r =~= seq![AtomV::MovePtr(acc)] + Seq::<AtomV>::empty());
        lemma_cons(AtomV::MovePtr(acc), Seq::<AtomV>::empty());
        assert(atom_flushed(AtomV::MovePtr(acc)));
        assert(chain_flushed(Seq::<AtomV>::empty()));
        assert(chain_flushed(r));
    } else {
        match p[0] {
            AtomV::MovePtr(o) => {
                lemma_offset_rec_flushed(
                    p.skip(1),
                    vstd::wrapping::isize_specs::wrapping_add(acc, o),
                );
            },
            AtomV::Loop(b) => {
                lemma_offset_rec_flushed(b, 0);
                lemma_offset_rec_flushed(p.skip(1), 0);
                let ob = AtomV::Loop(crate::opt::spec_offset_op(b));
                let t = crate::opt::offset_rec(p.skip(1), 0);
                assert(seq![AtomV::MovePtr(acc), ob] + t =~= seq![AtomV::MovePtr(acc)] + (seq![ob]
                    + t));
                lemma_cons(ob, t);
                lemma_cons(AtomV::MovePtr(acc), seq![ob] + t);
                assert(atom_flushed(AtomV::MovePtr(acc)));
                assert((seq![ob] + t)[1] == t[0]);
                assert(atom_flushed(ob));
                assert(chain_flushed(seq![ob] + t));
                assert((seq![AtomV::MovePtr(acc)] + (seq![ob] + t))[1] == ob);
                assert(chain_flushed(r));
            },
            AtomV::SetValue(v, o) => {
                lemma_offset_rec_flushed(p.skip(1), acc);
                let t = crate::opt::offset_rec(p.skip(1), acc);
                let h = AtomV::SetValue(v, vstd::wrapping::isize_specs::wrapping_add(acc, o));
                lemma_cons(h, t);
                assert(atom_flushed(h));
                assert((seq![h] + t)[1] == t[0]);
                assert(chain_flushed(r));
            },
            AtomV::IncValue(d, o) => {
                lemma_offset_rec_flushed(p.skip(1), acc);
                let t = crate::opt::offset_rec(p.skip(1), acc);
                let h = AtomV::IncValue(d, vstd::wrapping::isize_specs::wrapping_add(acc, o));
                lemma_cons(h, t);
                assert(atom_flushed(h));
                assert((seq![h] + t)[1] == t[0]);
                assert(chain_flushed(r));
            },
            AtomV::Print(o) => {
                lemma_offset_rec_flushed(p.skip(1), acc);
                let t = crate::opt::offset_rec(p.skip(1), acc);
                let h = AtomV::Print(vstd::wrapping::isize_specs::wrapping_add(acc, o));
                lemma_cons(h, t);
                assert(atom_flushed(h));
                assert((seq![h] + t)[1] == t[0]);
                assert(chain_flushed(r));
            },
            AtomV::Read(o) => {
                lemma_offset_rec_flushed(p.skip(1), acc);
                let t = crate::opt::offset_rec(p.skip(1), acc);
                let h = AtomV::Read(vstd::wrapping::isize_specs::wrapping_add(acc, o));
                lemma_cons(h, t);
                assert(atom_flushed(h));
                assert((seq![h] + t)[1] == t[0]);
                assert(chain_flushed(r));
            },
        }
    }
}

/// After `offset_op`, every `Loop` atom is immediately preceded, at its
/// nesting level, by a `MovePtr` flush.
pub proof fn lemma_offset_op_flushed(p: Seq<AtomV>)
    ensures
        seq_flushed(crate::opt::spec_offset_op(p)),
{
    lemma_offset_rec_flushed(p, 0);
}

// ---------------------------------------------------------------------------
// Reorder stability: offsets are non-decreasing inside every data run
// ---------------------------------------------------------------------------
/// All atoms of a data run are pure data ops.
pub open spec fn all_data(s: Seq<AtomV>) -> bool {
    forall|i: int| 0 <= i < s.len() ==> is_data(#[trigger] s[i])
}

/// Adjacent pure data atoms carry non-decreasing offsets; since barriers end
/// every run, this says each maximal data run is sorted by offset.  `Loop`
/// bodies satisfy the same condition.
pub open spec fn atom_sorted(a: AtomV) -> bool
    decreases a, 1nat,
{
    match a {
        AtomV::Loop(b) => prog_runs_sorted(b),
        _ => true,
    }
}

pub open spec fn prog_runs_sorted(p: Seq<AtomV>) -> bool
    decreases p, 0nat,
{
    if p.len() == 0 {
        true
    } else {
        &&& atom_sorted(p[0])
        &&& (p.len() > 1 && is_data(p[0]) && is_data(p[1]) ==> data_key(p[0]) <= data_key(p[1]))
        &&& prog_runs_sorted(p.skip(1))
    }
}

proof fn lemma_sorted_push(s: Seq<AtomV>, a: AtomV)
    requires
        prog_runs_sorted(s),
        atom_sorted(a),
        s.len() > 0 && is_data(s.last()) && is_data(a) ==> data_key(s.last()) <= data_key(a),
    ensures
        prog_runs_sorted(s.push(a)),
    decreases s.len(),
{
    if s.len() == 0 {
        assert(s.push(a).skip(1) =~= Seq::<AtomV>::empty());
        assert(s.push(a)[0] == a);
        assert(prog_runs_sorted(Seq::<AtomV>::empty()));
        assert(prog_runs_sorted(s.push(a)));
    } else {
        lemma_sorted_push(s.skip(1), a);
        assert(s.push(a).skip(1) =~= s.skip(1).push(a));
        assert(s.push(a)[0] == s[0]);
        assert(s.push(a)[1] == (if s.len() > 1 { s[1] } else { a }));
        assert(prog_runs_sorted(s.push(a)));
    }
}

proof fn lemma_insert_sorted_runs(s: Seq<AtomV>, a: AtomV)
    requires
        prog_runs_sorted(s),
        all_data(s),
        is_data(a),
    ensures
        prog_runs_sorted(insert_sorted(s, a)),
        all_data(insert_sorted(s, a)),
        insert_sorted(s, a).len() == s.len() + 1,
        insert_sorted(s, a).last() == a || (s.len() > 0 && insert_sorted(s, a).last() == s.last()),
    decreases s.len(),
{
    if s.len() == 0 {
        assert(insert_sorted(s, a) =~= Seq::<AtomV>::empty().push(a));
        lemma_sorted_push(Seq::<AtomV>::empty(), a);
        assert(all_data(insert_sorted(s, a)));
    } else if data_key(s.last()) <= data_key(a) {
        lemma_sorted_push(s, a);
        assert(all_data(s.push(a)));
    } else {
        assert(prog_runs_sorted(s.drop_last()) && all_data(s.drop_last())) by {
            lemma_sorted_drop_last(s);
        }
        lemma_insert_sorted_runs(s.drop_last(), a);
        let t = insert_sorted(s.drop_last(), a);
        assert(s.len() > 1 ==> data_key(s.drop_last().last()) <= data_key(s.last())) by {
            if s.len() > 1 {
                lemma_sorted_adjacent(s, s.len() as int - 2);
            }
        }
        assert(is_data(t.last()) && data_key(t.last()) <= data_key(s.last()));
        lemma_sorted_push(t, s.last());
        assert(all_data(t.push(s.last())));
    }
}

/// A sorted all-data sequence stays sorted when its last element is dropped.
proof fn lemma_sorted_drop_last(s: Seq<AtomV>)
    requires
        prog_runs_sorted(s),
        s.len() > 0,
    ensures
        prog_runs_sorted(s.drop_last()),
    decreases s.len(),
{
    if s.len() > 1 {
        lemma_sorted_drop_last(s.skip(1));
        assert(s.drop_last().skip(1) =~= s.skip(1).drop_last());
        assert(s.drop_last()[0] == s[0]);
        assert(s.drop_last().len() > 1 ==> s.drop_last()[1] == s[1]);
        assert(prog_runs_sorted(s.drop_last()));
    } else {
        assert(s.drop_last() =~= Seq::<AtomV>::empty());
    }
}

/// In a sorted all-data sequence adjacent keys are non-decreasing.
proof fn lemma_sorted_adjacent(s: Seq<AtomV>, i: int)
    requires
        prog_runs_sorted(s),
        all_data(s),
        0 <= i,
        i + 1 < s.len(),
    ensures
        data_key(s[i]) <= data_key(s[i + 1]),
    decreases i,
{
    if i > 0 {
        assert(prog_runs_sorted(s.skip(1)));
        assert(all_data(s.skip(1))) by {
            assert(forall|m: int| 0 <= m < s.skip(1).len() ==> #[trigger] s.skip(1)[m] == s[m + 1]);
        }
        lemma_sorted_adjacent(s.skip(1), i - 1);
    }
}

proof fn lemma_sort_data_runs(s: Seq<AtomV>)
    requires
        all_data(s),
    ensures
        prog_runs_sorted(sort_data(s)),
        all_data(sort_data(s)),
    decreases s.len(),
{
    if s.len() > 0 {
        assert(all_data(s.drop_last())) by {
            assert(forall|m: int|
                0 <= m < s.drop_last().len() ==> #[trigger] s.drop_last()[m] == s[m]);
        }
        lemma_sort_data_runs(s.drop_last());
        lemma_insert_sorted_runs(sort_data(s.drop_last()), s.last());
    }
}

proof fn lemma_sorted_concat(s: Seq<AtomV>, t: Seq<AtomV>)
    requires
        prog_runs_sorted(s),
        prog_runs_sorted(t),
        s.len() > 0 && t.len() > 0 && is_data(s.last()) && is_data(t[0]) ==> data_key(s.last())
            <= data_key(t[0]),
    ensures
        prog_runs_sorted(s + t),
    decreases s.len(),
{
    if s.len() == 0 {
        assert(s + t =~= t);
    } else {
        lemma_sorted_concat(s.skip(1), t);
        assert((s + t).skip(1) =~= s.skip(1) + t);
        assert((s + t)[0] == s[0]);
        if s.len() > 1 {
            assert((s + t)[1] == s[1]);
        } else if t.len() > 0 {
            assert((s + t)[1] == t[0]);
        }
        assert(prog_runs_sorted(s + t));
    }
}

proof fn lemma_reorder_rec_sorted(p: Seq<AtomV>, pend: Seq<AtomV>)
    requires
        all_data(pend),
    ensures
        prog_runs_sorted(crate::opt::reorder_rec(p, pend)),
    decreases p, 2nat,
{
    if p.len() == 0 {
        lemma_sort_data_runs(pend);
    } else {
        match p[0] {
            AtomV::SetValue(v, o) => {
                assert(all_data(pend.push(p[0]))) by {
                    assert(forall|m: int|
                        0 <= m < pend.len() ==> pend.push(p[0])[m] == #[trigger] pend[m]);
                }
                lemma_reorder_rec_sorted(p.skip(1), pend.push(p[0]));
            },
            AtomV::IncValue(d, o) => {
                assert(all_data(pend.push(p[0]))) by {
                    assert(forall|m: int|
                        0 <= m < pend.len() ==> pend.push(p[0])[m] == #[trigger] pend[m]);
                }
                lemma_reorder_rec_sorted(p.skip(1), pend.push(p[0]));
            },
            AtomV::Loop(b) => {
                lemma_reorder_rec_sorted(b, Seq::empty());
                lemma_reorder_rec_sorted(p.skip(1), Seq::empty());
                lemma_sort_data_runs(pend);
                let x = AtomV::Loop(crate::opt::spec_reorder(b));
                lemma_barrier_glue(sort_data(pend), x, crate::opt::reorder_rec(p.skip(1), Seq::empty()));
            },
            x => {
                lemma_reorder_rec_sorted(p.skip(1), Seq::empty());
                lemma_sort_data_runs(pend);
                lemma_barrier_glue(sort_data(pend), x, crate::opt::reorder_rec(p.skip(1), Seq::empty()));
            },
        }
    }
}

/// A run, a barrier, and a sorted tail concatenate to a sorted program.
proof fn lemma_barrier_glue(s: Seq<AtomV>, x: AtomV, t: Seq<AtomV>)
    requires
        prog_runs_sorted(s),
        atom_sorted(x),
        !is_data(x),
        prog_runs_sorted(t),
    ensures
        prog_runs_sorted(s + seq![x] + t),
{
    lemma_cons(x, t);
    assert(prog_runs_sorted(seq![x] + t)) by {
        assert((seq![x] + t).len() > 1 ==> (seq![x] + t)[1] == t[0]);
        assert(prog_runs_sorted((seq![x] + t).skip(1)));
    }
    lemma_sorted_concat(s, seq![x] + t);
    assert(s + seq![x] + t =~= s + (seq![x] + t));
}

/// After `reorder`, within every maximal run of pure data atoms the offsets
/// of `SetValue` and `IncValue` atoms are non-decreasing, at every nesting
/// level.  (That equal offsets keep their arrival order is built into
/// `insert_sorted`, which places each atom after every equal key.)
pub proof fn lemma_reorder_sorted(p: Seq<AtomV>)
    ensures
        prog_runs_sorted(crate::opt::spec_reorder(p)),
{
    lemma_reorder_rec_sorted(p, Seq::empty());
}

// ---------------------------------------------------------------------------
// Semantic preservation of zero_loops
// ---------------------------------------------------------------------------
proof fn lemma_zl_len(p: Seq<AtomV>)
    ensures
        crate::opt::spec_zero_loops(p).len() == p.len(),
    decreases p,
{
    if p.len() > 0 {
        lemma_zl_len(p.skip(1));
        lemma_cons(crate::opt::zl_atom(p[0]), crate::opt::spec_zero_loops(p.skip(1)));
    }
}

/// Only the decrement idiom itself maps to it under `zero_loops`.
proof fn lemma_dec_loop_source(b: Seq<AtomV>)
    requires
        crate::opt::is_dec_loop(crate::opt::spec_zero_loops(b)),
    ensures
        b == seq![AtomV::IncValue(-1i8, 0isize)],
{
    let zb = crate::opt::spec_zero_loops(b);
    lemma_zl_len(b);
    lemma_cons(crate::opt::zl_atom(b[0]), crate::opt::spec_zero_loops(b.skip(1)));
    assert(zb[0] == crate::opt::zl_atom(b[0]));
    match b[0] {
        AtomV::Loop(c) => {
            assert(false);
        },
        x => {
            assert(crate::opt::zl_atom(x) == x);
        },
    }
    assert(b =~= seq![AtomV::IncValue(-1i8, 0isize)]);
}

/// `zero_loops` preserves the semantics: every finished or failed run of the
/// original program ends in the same state and output on the rewritten one,
/// which only spends less of the iteration budget.
#[verifier::rlimit(100)]
#[verifier::spinoff_prover]
pub proof fn lemma_zero_loops_preserves_run(p: Seq<AtomV>, st: State, fuel: nat)
    requires
        state_wf(st),
    ensures
        run(p, st, fuel) matches Outcome::Done(s2, f2) ==> (run(
            crate::opt::spec_zero_loops(p),
            st,
            fuel,
        ) matches Outcome::Done(s3, f3) && s3 == s2 && f2 <= f3),
        run(p, st, fuel) matches Outcome::Fail(s2) ==> run(crate::opt::spec_zero_loops(p), st, fuel)
            == Outcome::Fail(s2),
    decreases fuel, p.len(), 1nat,
{
    if p.len() > 0 {
        let rest = p.skip(1);
        let zp = crate::opt::spec_zero_loops(p);
        let zr = crate::opt::spec_zero_loops(rest);
        lemma_cons(crate::opt::zl_atom(p[0]), zr);
        match p[0] {
            AtomV::MovePtr(o) => {
                lemma_zero_loops_preserves_run(rest, move_ptr(st, o), fuel);
            },
            AtomV::SetValue(v, o) => {
                lemma_zero_loops_preserves_run(rest, set_cell(st, o, v), fuel);
            },
            AtomV::IncValue(d, o) => {
                lemma_zero_loops_preserves_run(
                    rest,
                    set_cell(st, o, cell_add(get_cell(st, o), d)),
                    fuel,
                );
            },
            AtomV::Print(o) => {
                lemma_zero_loops_preserves_run(rest, print_cell(st, o), fuel);
            },
            AtomV::Read(o) => {
                if st.input.len() > 0 {
                    lemma_zero_loops_preserves_run(rest, read_cell(st, o), fuel);
                }
            },
            AtomV::Loop(b) => {
                lemma_zl_loop_case(p, b, rest, st, fuel);
            },
        }
    }
}

#[verifier::rlimit(100)]
#[verifier::spinoff_prover]
proof fn lemma_zl_loop_case(p: Seq<AtomV>, b: Seq<AtomV>, rest: Seq<AtomV>, st: State, fuel: nat)
    requires
        state_wf(st),
        p.len() > 0,
        p[0] == AtomV::Loop(b),
        rest == p.skip(1),
    ensures
        run(p, st, fuel) matches Outcome::Done(s2, f2) ==> (run(
            crate::opt::spec_zero_loops(p),
            st,
            fuel,
        ) matches Outcome::Done(s3, f3) && s3 == s2 && f2 <= f3),
        run(p, st, fuel) matches Outcome::Fail(s2) ==> run(crate::opt::spec_zero_loops(p), st, fuel)
            == Outcome::Fail(s2),
    decreases fuel, p.len(), 0nat,
{
    let zp = crate::opt::spec_zero_loops(p);
    let zr = crate::opt::spec_zero_loops(rest);
    let zb = crate::opt::spec_zero_loops(b);
    lemma_cons(crate::opt::zl_atom(p[0]), zr);
    lemma_small_mod(st.ptr as nat, MEM_SIZE as nat);
    if crate::opt::is_dec_loop(zb) {
        lemma_dec_loop_source(b);
        let scc = set_cell(st, 0, 0);
        lemma_zero_loop_idiom(rest, st, fuel);
        lemma_zero_loops_preserves_run(rest, scc, fuel);
        assert(seq![AtomV::Loop(b)] + rest =~= p);
        lemma_cons(AtomV::SetValue(0u8, 0isize), rest);
        assert(run(zp, st, fuel) == run(zr, scc, fuel));
        assert(run(seq![AtomV::SetValue(0u8, 0isize)] + rest, st, fuel) == run(rest, scc, fuel));
        match run(p, st, fuel) {
            Outcome::Done(s2, f2) => {
                assert(run(seq![AtomV::SetValue(0u8, 0isize)] + rest, st, fuel)
                    matches Outcome::Done(s3, f3) && s3 == s2 && f2 <= f3);
                assert(run(rest, scc, fuel) matches Outcome::Done(s3, f3) && s3 == s2 && f2 <= f3);
            },
            Outcome::Fail(s2) => {
                assert(run(seq![AtomV::SetValue(0u8, 0isize)] + rest, st, fuel) == Outcome::Fail(
                    s2,
                ));
                assert(run(rest, scc, fuel) == Outcome::Fail(s2));
                assert(run(zr, scc, fuel) == Outcome::Fail(s2));
            },
            _ => {},
        }
    } else {
        if get_cell(st, 0) == 0 {
            lemma_zero_loops_preserves_run(rest, st, fuel);
        } else if fuel > 0 {
            lemma_zero_loops_preserves_run(b, st, (fuel - 1) as nat);
            lemma_run_fuel_bound(b, st, (fuel - 1) as nat);
            lemma_run_fuel_bound(zb, st, (fuel - 1) as nat);
            lemma_run_preserves_wf(b, st, (fuel - 1) as nat);
            match run(b, st, (fuel - 1) as nat) {
                Outcome::Done(st2, f2b) => {
                    lemma_zero_loops_preserves_run(p, st2, f2b);
                    match run(zb, st, (fuel - 1) as nat) {
                        Outcome::Done(st3, f3b) => {
                            assert(st3 == st2 && f2b <= f3b);
                            lemma_run_fuel_mono(zp, st2, f2b, (f3b - f2b) as nat);
                            assert(run(zp, st, fuel) == run(zp, st2, f3b));
                        },
                        _ => {},
                    }
                },
                _ => {},
            }
        }
    }
}

} // verus!
