use vstd::prelude::*;
use vstd::wrapping::i8_specs;
use vstd::wrapping::isize_specs;

use crate::ir::atom_view;
use crate::ir::lemma_prog_view_index;
use crate::ir::lemma_prog_view_len;
use crate::ir::lemma_prog_view_push;
use crate::ir::prog_view;
use crate::ir::Atom;
use crate::ir::AtomV;
use crate::semantics::cell_add;
use crate::semantics::offset_u8;

verus! {

// ---------------------------------------------------------------------------
// Shared sequence facts
// ---------------------------------------------------------------------------
proof fn lemma_push_assoc(a: Seq<AtomV>, x: AtomV, b: Seq<AtomV>)
    ensures
        a.push(x) + b == a + (seq![x] + b),
{
    assert(a.push(x) + b =~= a + (seq![x] + b));
}

proof fn lemma_prog_view_concat(a: Seq<Atom>, b: Seq<Atom>)
    ensures
        prog_view(a + b) == prog_view(a) + prog_view(b),
    decreases a,
{
    if a.len() == 0 {
        assert(a + b =~= b);
        assert(prog_view(a) + prog_view(b) =~= prog_view(b));
    } else {
        lemma_prog_view_concat(a.skip(1), b);
        assert((a + b).skip(1) =~= a.skip(1) + b);
        assert((a + b)[0] == a[0]);
        assert(seq![atom_view(a[0])] + (prog_view(a.skip(1)) + prog_view(b)) =~= (seq![
            atom_view(a[0]),
        ] + prog_view(a.skip(1))) + prog_view(b));
    }
}

// ---------------------------------------------------------------------------
// combine: adjacent-atom fusion, a left-to-right coalescing fold
// ---------------------------------------------------------------------------
/// The five fusion rules.  `None` means the pair stays as it is.
pub open spec fn fuse(a: AtomV, b: AtomV) -> Option<AtomV> {
    match (a, b) {
        (AtomV::MovePtr(x), AtomV::MovePtr(y)) => Some(
            AtomV::MovePtr(isize_specs::wrapping_add(x, y)),
        ),
        (AtomV::IncValue(x, o1), AtomV::IncValue(y, o2)) => if o1 == o2 {
            Some(AtomV::IncValue(i8_specs::wrapping_add(x, y), o1))
        } else {
            None
        },
        (AtomV::IncValue(x, o1), AtomV::SetValue(sv, o2)) => if o1 == o2 {
            Some(AtomV::SetValue(sv, o1))
        } else {
            None
        },
        (AtomV::SetValue(sv, o1), AtomV::IncValue(d, o2)) => if o1 == o2 {
            Some(AtomV::SetValue(cell_add(sv, d), o1))
        } else {
            None
        },
        (AtomV::SetValue(v1, o1), AtomV::SetValue(v2, o2)) => if o1 == o2 {
            Some(AtomV::SetValue(v2, o1))
        } else {
            None
        },
        _ => None,
    }
}

/// Loop bodies are combined first; every other atom is untouched.
pub open spec fn comb_atom(a: AtomV) -> AtomV
    decreases a, 2nat,
{
    match a {
        AtomV::Loop(b) => AtomV::Loop(spec_combine(b)),
        x => x,
    }
}

/// The coalescing fold: `pending` is the most recently accumulated atom.
pub open spec fn combine_rec(p: Seq<AtomV>, pending: AtomV) -> Seq<AtomV>
    decreases p, 0nat,
{
    if p.len() == 0 {
        seq![pending]
    } else {
        let h = comb_atom(p[0]);
        match fuse(pending, h) {
            Some(c) => combine_rec(p.skip(1), c),
            None => seq![pending] + combine_rec(p.skip(1), h),
        }
    }
}

pub open spec fn spec_combine(p: Seq<AtomV>) -> Seq<AtomV>
    decreases p, 1nat,
{
    if p.len() == 0 {
        p
    } else {
        combine_rec(p.skip(1), comb_atom(p[0]))
    }
}

/// Attempt one fusion; on failure both atoms come back unchanged.
fn try_fuse(a: Atom, b: Atom) -> (r: Result<Atom, (Atom, Atom)>)
    ensures
        match fuse(atom_view(a), atom_view(b)) {
            Some(c) => r matches Ok(x) && atom_view(x) == c,
            None => r matches Err(p) && p.0 == a && p.1 == b,
        },
{
    match (a, b) {
        (Atom::MovePtr(x), Atom::MovePtr(y)) => Ok(Atom::MovePtr(x.wrapping_add(y))),
        (Atom::IncValue(x, o1), Atom::IncValue(y, o2)) => if o1 == o2 {
            Ok(Atom::IncValue(x.wrapping_add(y), o1))
        } else {
            Err((Atom::IncValue(x, o1), Atom::IncValue(y, o2)))
        },
        (Atom::IncValue(x, o1), Atom::SetValue(sv, o2)) => if o1 == o2 {
            Ok(Atom::SetValue(sv, o1))
        } else {
            Err((Atom::IncValue(x, o1), Atom::SetValue(sv, o2)))
        },
        (Atom::SetValue(sv, o1), Atom::IncValue(d, o2)) => if o1 == o2 {
            Ok(Atom::SetValue(offset_u8(sv, d), o1))
        } else {
            Err((Atom::SetValue(sv, o1), Atom::IncValue(d, o2)))
        },
        (Atom::SetValue(v1, o1), Atom::SetValue(v2, o2)) => if o1 == o2 {
            Ok(Atom::SetValue(v2, o1))
        } else {
            Err((Atom::SetValue(v1, o1), Atom::SetValue(v2, o2)))
        },
        (x, y) => Err((x, y)),
    }
}

/// Fuse adjacent atoms left to right, recursing into `Loop` bodies first.
pub fn combine(ir: &Vec<Atom>) -> (r: Vec<Atom>)
    ensures
        prog_view(r@) == spec_combine(prog_view(ir@)),
    decreases ir@,
{
    let ghost pv = prog_view(ir@);
    proof {
        lemma_prog_view_len(ir@);
        assert(pv.skip(0) =~= pv);
    }
    let mut out: Vec<Atom> = Vec::new();
    let mut pending: Option<Atom> = None;
    let mut i: usize = 0;
    #[verifier::loop_isolation(false)]
    while i < ir.len()
        invariant
            i <= ir@.len(),
            i == 0 ==> out@.len() == 0 && pending is None,
            i > 0 ==> (pending matches Some(pa) && spec_combine(pv) == prog_view(out@)
                + combine_rec(pv.skip(i as int), atom_view(pa))),
        decreases ir@.len() - i,
    {
        proof {
            lemma_prog_view_index(ir@, i as int);
            assert(pv.skip(i as int).skip(1) =~= pv.skip(i as int + 1));
        }
        let h: Atom = match &ir[i] {
            Atom::Loop(sub) => Atom::Loop(combine(sub)),
            Atom::MovePtr(o) => Atom::MovePtr(*o),
            Atom::SetValue(v, o) => Atom::SetValue(*v, *o),
            Atom::IncValue(d, o) => Atom::IncValue(*d, *o),
            Atom::Print(o) => Atom::Print(*o),
            Atom::Read(o) => Atom::Read(*o),
        };
        proof {
            assert(atom_view(h) == comb_atom(pv[i as int]));
        }
        let next_pending: Option<Atom>;
        match pending {
            None => {
                next_pending = Some(h);
                proof {
                    assert(prog_view(out@) =~= Seq::<AtomV>::empty());
                    assert(Seq::<AtomV>::empty() + combine_rec(pv.skip(1), atom_view(h))
                        =~= combine_rec(pv.skip(1), atom_view(h)));
                }
            },
            Some(pa) => {
                match try_fuse(pa, h) {
                    Ok(c) => {
                        next_pending = Some(c);
                    },
                    Err(back) => {
                        let (pa2, h2) = back;
                        let ghost outv = out@;
                        out.push(pa2);
                        proof {
                            lemma_prog_view_push(outv, pa2);
                            lemma_push_assoc(
                                prog_view(outv),
                                atom_view(pa2),
                                combine_rec(pv.skip(i as int + 1), atom_view(h2)),
                            );
                        }
                        next_pending = Some(h2);
                    },
                }
            },
        }
        pending = next_pending;
        i = i + 1;
    }
    proof {
        if pv.len() > 0 {
            assert(pv.skip(i as int) =~= Seq::<AtomV>::empty());
        }
    }
    match pending {
        Some(pa) => {
            let ghost outv = out@;
            out.push(pa);
            proof {
                lemma_prog_view_push(outv, pa);
                assert(prog_view(outv).push(atom_view(pa)) =~= prog_view(outv) + seq![
                    atom_view(pa),
                ]);
            }
        },
        None => {
            proof {
                assert(prog_view(out@) =~= spec_combine(pv));
            }
        },
    }
    out
}

// ---------------------------------------------------------------------------
// clean: drop atoms with no observable effect
// ---------------------------------------------------------------------------
pub open spec fn spec_clean(p: Seq<AtomV>) -> Seq<AtomV>
    decreases p,
{
    if p.len() == 0 {
        Seq::empty()
    } else {
        let t = spec_clean(p.skip(1));
        match p[0] {
            AtomV::MovePtr(o) => if o == 0 {
                t
            } else {
                seq![p[0]] + t
            },
            AtomV::IncValue(d, o) => if d == 0 {
                t
            } else {
                seq![p[0]] + t
            },
            AtomV::Loop(b) => seq![AtomV::Loop(spec_clean(b))] + t,
            x => seq![x] + t,
        }
    }
}

/// Drop `MovePtr(0)` and `IncValue(0, _)`; everything else, and order, stays.
pub fn clean(ir: &Vec<Atom>) -> (r: Vec<Atom>)
    ensures
        prog_view(r@) == spec_clean(prog_view(ir@)),
    decreases ir@,
{
    let ghost pv = prog_view(ir@);
    proof {
        lemma_prog_view_len(ir@);
        assert(pv.skip(0) =~= pv);
    }
    let mut out: Vec<Atom> = Vec::new();
    let mut i: usize = 0;
    #[verifier::loop_isolation(false)]
    while i < ir.len()
        invariant
            i <= ir@.len(),
            spec_clean(pv) == prog_view(out@) + spec_clean(pv.skip(i as int)),
        decreases ir@.len() - i,
    {
        proof {
            lemma_prog_view_index(ir@, i as int);
            assert(pv.skip(i as int).skip(1) =~= pv.skip(i as int + 1));
        }
        let kept: Option<Atom> = match &ir[i] {
            Atom::MovePtr(o) => if *o == 0 {
                None
            } else {
                Some(Atom::MovePtr(*o))
            },
            Atom::IncValue(d, o) => if *d == 0 {
                None
            } else {
                Some(Atom::IncValue(*d, *o))
            },
            Atom::SetValue(v, o) => Some(Atom::SetValue(*v, *o)),
            Atom::Print(o) => Some(Atom::Print(*o)),
            Atom::Read(o) => Some(Atom::Read(*o)),
            Atom::Loop(sub) => Some(Atom::Loop(clean(sub))),
        };
        match kept {
            Some(a) => {
                let ghost outv = out@;
                out.push(a);
                proof {
                    lemma_prog_view_push(outv, a);
                    lemma_push_assoc(
                        prog_view(outv),
                        atom_view(a),
                        spec_clean(pv.skip(i as int + 1)),
                    );
                }
            },
            None => {},
        }
        i = i + 1;
    }
    proof {
        assert(pv.skip(i as int) =~= Seq::<AtomV>::empty());
        assert(prog_view(out@) + Seq::<AtomV>::empty() =~= prog_view(out@));
    }
    out
}

// ---------------------------------------------------------------------------
// zero_loops: recognize the "decrement to zero" idiom
// ---------------------------------------------------------------------------
/// A loop body that is exactly one `IncValue(-1, 0)`.
pub open spec fn is_dec_loop(b: Seq<AtomV>) -> bool {
    b.len() == 1 && b[0] == AtomV::IncValue(-1i8, 0isize)
}

pub open spec fn zl_atom(a: AtomV) -> AtomV
    decreases a, 1nat,
{
    match a {
        AtomV::Loop(b) => {
            let nb = spec_zero_loops(b);
            if is_dec_loop(nb) {
                AtomV::SetValue(0, 0)
            } else {
                AtomV::Loop(nb)
            }
        },
        x => x,
    }
}

pub open spec fn spec_zero_loops(p: Seq<AtomV>) -> Seq<AtomV>
    decreases p, 0nat,
{
    if p.len() == 0 {
        Seq::empty()
    } else {
        seq![zl_atom(p[0])] + spec_zero_loops(p.skip(1))
    }
}

/// Bottom-up, replace every loop whose optimized body is exactly
/// `IncValue(-1, 0)` by `SetValue(0, 0)`.
pub fn zero_loops(ir: &Vec<Atom>) -> (r: Vec<Atom>)
    ensures
        prog_view(r@) == spec_zero_loops(prog_view(ir@)),
    decreases ir@,
{
    let ghost pv = prog_view(ir@);
    proof {
        lemma_prog_view_len(ir@);
        assert(pv.skip(0) =~= pv);
    }
    let mut out: Vec<Atom> = Vec::new();
    let mut i: usize = 0;
    #[verifier::loop_isolation(false)]
    while i < ir.len()
        invariant
            i <= ir@.len(),
            spec_zero_loops(pv) == prog_view(out@) + spec_zero_loops(pv.skip(i as int)),
        decreases ir@.len() - i,
    {
        proof {
            lemma_prog_view_index(ir@, i as int);
            assert(pv.skip(i as int).skip(1) =~= pv.skip(i as int + 1));
        }
        let a: Atom = match &ir[i] {
            Atom::Loop(sub) => {
                let nb = zero_loops(sub);
                proof {
                    lemma_prog_view_len(nb@);
                }
                let mut is_dec = false;
                if nb.len() == 1 {
                    match &nb[0] {
                        Atom::IncValue(d, o) => {
                            if *d == -1 && *o == 0 {
                                is_dec = true;
                            }
                        },
                        _ => {},
                    }
                }
                proof {
                    if nb@.len() == 1 {
                        lemma_prog_view_index(nb@, 0);
                    }
                    assert(is_dec == is_dec_loop(prog_view(nb@)));
                }
                if is_dec {
                    Atom::SetValue(0, 0)
                } else {
                    Atom::Loop(nb)
                }
            },
            Atom::MovePtr(o) => Atom::MovePtr(*o),
            Atom::SetValue(v, o) => Atom::SetValue(*v, *o),
            Atom::IncValue(d, o) => Atom::IncValue(*d, *o),
            Atom::Print(o) => Atom::Print(*o),
            Atom::Read(o) => Atom::Read(*o),
        };
        proof {
            assert(atom_view(a) == zl_atom(pv[i as int]));
        }
        let ghost outv = out@;
        out.push(a);
        proof {
            lemma_prog_view_push(outv, a);
            lemma_push_assoc(
                prog_view(outv),
                atom_view(a),
                spec_zero_loops(pv.skip(i as int + 1)),
            );
        }
        i = i + 1;
    }
    proof {
        assert(pv.skip(i as int) =~= Seq::<AtomV>::empty());
        assert(prog_view(out@) + Seq::<AtomV>::empty() =~= prog_view(out@));
    }
    out
}

// ---------------------------------------------------------------------------
// offset_op: thread pointer motion into the offsets of data and I/O atoms
// ---------------------------------------------------------------------------
pub open spec fn offset_rec(p: Seq<AtomV>, acc: isize) -> Seq<AtomV>
    decreases p, 0nat,
{
    if p.len() == 0 {
        seq![AtomV::MovePtr(acc)]
    } else {
        match p[0] {
            AtomV::MovePtr(o) => offset_rec(p.skip(1), isize_specs::wrapping_add(acc, o)),
            AtomV::SetValue(v, o) => seq![
                AtomV::SetValue(v, isize_specs::wrapping_add(acc, o)),
            ] + offset_rec(p.skip(1), acc),
            AtomV::IncValue(d, o) => seq![
                AtomV::IncValue(d, isize_specs::wrapping_add(acc, o)),
            ] + offset_rec(p.skip(1), acc),
            AtomV::Print(o) => seq![AtomV::Print(isize_specs::wrapping_add(acc, o))] + offset_rec(
                p.skip(1),
                acc,
            ),
            AtomV::Read(o) => seq![AtomV::Read(isize_specs::wrapping_add(acc, o))] + offset_rec(
                p.skip(1),
                acc,
            ),
            AtomV::Loop(b) => seq![AtomV::MovePtr(acc), AtomV::Loop(spec_offset_op(b))]
                + offset_rec(p.skip(1), 0),
        }
    }
}

pub open spec fn spec_offset_op(p: Seq<AtomV>) -> Seq<AtomV>
    decreases p, 1nat,
{
    offset_rec(p, 0)
}

/// Fold pointer motion into a running accumulator, flushing it before every
/// `Loop` and once at the end of the sequence (possibly as `MovePtr(0)`; a
/// later `clean` drops no-op flushes).
pub fn offset_op(ir: &Vec<Atom>) -> (r: Vec<Atom>)
    ensures
        prog_view(r@) == spec_offset_op(prog_view(ir@)),
    decreases ir@,
{
    let ghost pv = prog_view(ir@);
    proof {
        lemma_prog_view_len(ir@);
        assert(pv.skip(0) =~= pv);
    }
    let mut out: Vec<Atom> = Vec::new();
    let mut acc: isize = 0;
    let mut i: usize = 0;
    #[verifier::loop_isolation(false)]
    while i < ir.len()
        invariant
            i <= ir@.len(),
            spec_offset_op(pv) == prog_view(out@) + offset_rec(pv.skip(i as int), acc),
        decreases ir@.len() - i,
    {
        proof {
            lemma_prog_view_index(ir@, i as int);
            assert(pv.skip(i as int).skip(1) =~= pv.skip(i as int + 1));
        }
        match &ir[i] {
            Atom::MovePtr(o) => {
                acc = acc.wrapping_add(*o);
            },
            Atom::SetValue(v, o) => {
                let a = Atom::SetValue(*v, acc.wrapping_add(*o));
                let ghost outv = out@;
                out.push(a);
                proof {
                    lemma_prog_view_push(outv, a);
                    lemma_push_assoc(
                        prog_view(outv),
                        atom_view(a),
                        offset_rec(pv.skip(i as int + 1), acc),
                    );
                }
            },
            Atom::IncValue(d, o) => {
                let a = Atom::IncValue(*d, acc.wrapping_add(*o));
                let ghost outv = out@;
                out.push(a);
                proof {
                    lemma_prog_view_push(outv, a);
                    lemma_push_assoc(
                        prog_view(outv),
                        atom_view(a),
                        offset_rec(pv.skip(i as int + 1), acc),
                    );
                }
            },
            Atom::Print(o) => {
                let a = Atom::Print(acc.wrapping_add(*o));
                let ghost outv = out@;
                out.push(a);
                proof {
                    lemma_prog_view_push(outv, a);
                    lemma_push_assoc(
                        prog_view(outv),
                        atom_view(a),
                        offset_rec(pv.skip(i as int + 1), acc),
                    );
                }
            },
            Atom::Read(o) => {
                let a = Atom::Read(acc.wrapping_add(*o));
                let ghost outv = out@;
                out.push(a);
                proof {
                    lemma_prog_view_push(outv, a);
                    lemma_push_assoc(
                        prog_view(outv),
                        atom_view(a),
                        offset_rec(pv.skip(i as int + 1), acc),
                    );
                }
            },
            Atom::Loop(sub) => {
                let flush = Atom::MovePtr(acc);
                let ghost outv0 = out@;
                out.push(flush);
                proof {
                    lemma_prog_view_push(outv0, flush);
                }
                let nb = offset_op(sub);
                let a = Atom::Loop(nb);
                let ghost outv1 = out@;
                out.push(a);
                proof {
                    lemma_prog_view_push(outv1, a);
                    assert(prog_view(outv0).push(atom_view(flush)).push(atom_view(a)) + offset_rec(
                        pv.skip(i as int + 1),
                        0,
                    ) =~= prog_view(outv0) + (seq![atom_view(flush), atom_view(a)] + offset_rec(
                        pv.skip(i as int + 1),
                        0,
                    )));
                }
                acc = 0;
            },
        }
        i = i + 1;
    }
    proof {
        assert(pv.skip(i as int) =~= Seq::<AtomV>::empty());
    }
    let ghost outv = out@;
    out.push(Atom::MovePtr(acc));
    proof {
        lemma_prog_view_push(outv, Atom::MovePtr(acc));
        assert(prog_view(outv).push(AtomV::MovePtr(acc)) =~= prog_view(outv) + seq![
            AtomV::MovePtr(acc),
        ]);
    }
    out
}

// ---------------------------------------------------------------------------
// reorder: stably sort maximal runs of pure data atoms by offset
// ---------------------------------------------------------------------------
/// Pure data atoms: no control or I/O effect, so within a run they may be
/// scheduled freely across distinct offsets.
pub open spec fn is_data(a: AtomV) -> bool {
    a is SetValue || a is IncValue
}

pub open spec fn data_key(a: AtomV) -> isize {
    match a {
        AtomV::SetValue(_, o) => o,
        AtomV::IncValue(_, o) => o,
        _ => 0,
    }
}

/// Insert `a` after every element whose key is at most `data_key(a)`: the
/// insertion that keeps equal keys in arrival order.
pub open spec fn insert_sorted(s: Seq<AtomV>, a: AtomV) -> Seq<AtomV>
    decreases s.len(),
{
    if s.len() == 0 {
        seq![a]
    } else if data_key(s.last()) <= data_key(a) {
        s.push(a)
    } else {
        insert_sorted(s.drop_last(), a).push(s.last())
    }
}

/// Stable insertion sort by offset.
pub open spec fn sort_data(s: Seq<AtomV>) -> Seq<AtomV>
    decreases s.len(),
{
    if s.len() == 0 {
        s
    } else {
        insert_sorted(sort_data(s.drop_last()), s.last())
    }
}

pub open spec fn reorder_rec(p: Seq<AtomV>, pend: Seq<AtomV>) -> Seq<AtomV>
    decreases p, 0nat,
{
    if p.len() == 0 {
        sort_data(pend)
    } else {
        match p[0] {
            AtomV::SetValue(v, o) => reorder_rec(p.skip(1), pend.push(p[0])),
            AtomV::IncValue(d, o) => reorder_rec(p.skip(1), pend.push(p[0])),
            AtomV::Loop(b) => sort_data(pend) + seq![AtomV::Loop(spec_reorder(b))] + reorder_rec(
                p.skip(1),
                Seq::empty(),
            ),
            x => sort_data(pend) + seq![x] + reorder_rec(p.skip(1), Seq::empty()),
        }
    }
}

pub open spec fn spec_reorder(p: Seq<AtomV>) -> Seq<AtomV>
    decreases p, 1nat,
{
    reorder_rec(p, Seq::empty())
}

fn data_key_exec(a: &Atom) -> (r: isize)
    requires
        is_data(atom_view(*a)),
    ensures
        r == data_key(atom_view(*a)),
{
    match a {
        Atom::SetValue(_, o) => *o,
        Atom::IncValue(_, o) => *o,
        _ => 0,
    }
}

proof fn lemma_insert_sorted_at(s: Seq<AtomV>, a: AtomV, j: int)
    requires
        0 <= j <= s.len(),
        forall|m: int| j <= m < s.len() ==> data_key(s[m]) > data_key(a),
        j > 0 ==> data_key(s[j - 1]) <= data_key(a),
    ensures
        insert_sorted(s, a) == s.insert(j, a),
    decreases s.len(),
{
    if s.len() == 0 {
        assert(insert_sorted(s, a) =~= s.insert(0, a));
    } else if j == s.len() {
        assert(insert_sorted(s, a) =~= s.insert(j, a));
    } else {
        assert(data_key(s.last()) > data_key(a));
        lemma_insert_sorted_at(s.drop_last(), a, j);
        assert(s.drop_last().insert(j, a).push(s.last()) =~= s.insert(j, a));
    }
}

/// Insert a pure data atom into an already sorted run, after its equals.
fn push_sorted(run: &mut Vec<Atom>, a: Atom)
    requires
        is_data(atom_view(a)),
        forall|m: int| 0 <= m < old(run)@.len() ==> is_data(atom_view(old(run)@[m])),
    ensures
        forall|m: int| 0 <= m < final(run)@.len() ==> is_data(atom_view(final(run)@[m])),
        prog_view(final(run)@) == insert_sorted(prog_view(old(run)@), atom_view(a)),
{
    proof {
        lemma_prog_view_len(run@);
    }
    let ka = data_key_exec(&a);
    let mut j: usize = run.len();
    #[verifier::loop_isolation(false)]
    while j > 0 && data_key_exec(&run[j - 1]) > ka
        invariant
            j <= run@.len(),
            forall|m: int|
                j <= m < run@.len() ==> data_key(atom_view(run@[m])) > data_key(atom_view(a)),
        decreases j,
    {
        j = j - 1;
    }
    let ghost runv = run@;
    run.insert(j, a);
    proof {
        lemma_insert_sorted_prog(runv, a, j as int);
    }
}

/// `prog_view` commutes with the insertion, so the executable insert matches
/// the specification-level one.
proof fn lemma_insert_sorted_prog(runv: Seq<Atom>, a: Atom, j: int)
    requires
        0 <= j <= runv.len(),
        forall|m: int| j <= m < runv.len() ==> data_key(atom_view(runv[m])) > data_key(atom_view(a)),
        j > 0 ==> data_key(atom_view(runv[j - 1])) <= data_key(atom_view(a)),
    ensures
        prog_view(runv.insert(j, a)) == insert_sorted(prog_view(runv), atom_view(a)),
{
    lemma_prog_view_len(runv);
    lemma_prog_view_len(runv.insert(j, a));
    assert forall|m: int| 0 <= m < runv.len() implies #[trigger] prog_view(runv)[m] == atom_view(
        runv[m],
    ) by {
        lemma_prog_view_index(runv, m);
    }
    assert forall|m: int| 0 <= m < runv.insert(j, a).len() implies #[trigger] prog_view(
        runv.insert(j, a),
    )[m] == atom_view(runv.insert(j, a)[m]) by {
        lemma_prog_view_index(runv.insert(j, a), m);
    }
    lemma_insert_sorted_at(prog_view(runv), atom_view(a), j);
    assert(prog_view(runv.insert(j, a)) =~= prog_view(runv).insert(j, atom_view(a)));
}

/// Within every maximal run of pure data atoms, stably sort by offset;
/// barriers (`MovePtr`, `Print`, `Read`, `Loop`) keep their positions.
pub fn reorder(ir: &Vec<Atom>) -> (r: Vec<Atom>)
    ensures
        prog_view(r@) == spec_reorder(prog_view(ir@)),
    decreases ir@,
{
    let ghost pv = prog_view(ir@);
    proof {
        lemma_prog_view_len(ir@);
        assert(pv.skip(0) =~= pv);
    }
    let mut out: Vec<Atom> = Vec::new();
    let mut run: Vec<Atom> = Vec::new();
    let ghost mut pend: Seq<AtomV> = Seq::empty();
    let mut i: usize = 0;
    proof {
        assert(prog_view(run@) =~= sort_data(pend));
        assert(prog_view(out@) + reorder_rec(pv, pend) =~= reorder_rec(pv, pend));
    }
    #[verifier::loop_isolation(false)]
    while i < ir.len()
        invariant
            i <= ir@.len(),
            forall|m: int| 0 <= m < run@.len() ==> is_data(atom_view(run@[m])),
            prog_view(run@) == sort_data(pend),
            spec_reorder(pv) == prog_view(out@) + reorder_rec(pv.skip(i as int), pend),
        decreases ir@.len() - i,
    {
        proof {
            lemma_prog_view_index(ir@, i as int);
            assert(pv.skip(i as int).skip(1) =~= pv.skip(i as int + 1));
        }
        let barrier: Option<Atom> = match &ir[i] {
            Atom::SetValue(v, o) => {
                let a = Atom::SetValue(*v, *o);
                proof {
                    assert(pend.push(atom_view(a)).drop_last() =~= pend);
                }
                push_sorted(&mut run, a);
                proof {
                    pend = pend.push(atom_view(a));
                }
                None
            },
            Atom::IncValue(d, o) => {
                let a = Atom::IncValue(*d, *o);
                proof {
                    assert(pend.push(atom_view(a)).drop_last() =~= pend);
                }
                push_sorted(&mut run, a);
                proof {
                    pend = pend.push(atom_view(a));
                }
                None
            },
            Atom::Loop(sub) => Some(Atom::Loop(reorder(sub))),
            Atom::MovePtr(o) => Some(Atom::MovePtr(*o)),
            Atom::Print(o) => Some(Atom::Print(*o)),
            Atom::Read(o) => Some(Atom::Read(*o)),
        };
        match barrier {
            Some(b) => {
                proof {
                    assert(atom_view(b) == pv[i as int] || (pv[i as int] matches AtomV::Loop(bb)
                        && atom_view(b) == AtomV::Loop(spec_reorder(bb))));
                }
                let ghost outv = out@;
                let ghost runv = run@;
                out.append(&mut run);
                proof {
                    lemma_prog_view_concat(outv, runv);
                }
                let ghost outv2 = out@;
                out.push(b);
                proof {
                    lemma_prog_view_push(outv2, b);
                    pend = Seq::empty();
                    assert(prog_view(run@) =~= sort_data(pend));
                    assert((prog_view(outv) + prog_view(runv)).push(atom_view(b)) + reorder_rec(
                        pv.skip(i as int + 1),
                        pend,
                    ) =~= prog_view(outv) + ((prog_view(runv) + seq![atom_view(b)]) + reorder_rec(
                        pv.skip(i as int + 1),
                        pend,
                    )));
                }
            },
            None => {},
        }
        i = i + 1;
    }
    proof {
        assert(pv.skip(i as int) =~= Seq::<AtomV>::empty());
    }
    let ghost outv = out@;
    let ghost runv = run@;
    out.append(&mut run);
    proof {
        lemma_prog_view_concat(outv, runv);
    }
    out
}

// ---------------------------------------------------------------------------
// The pipeline
// ---------------------------------------------------------------------------
/// The fixed pass order: `combine, clean, zero_loops, offset_op, reorder`,
/// then `combine, clean` once more.
pub open spec fn spec_run_opts(p: Seq<AtomV>) -> Seq<AtomV> {
    spec_clean(
        spec_combine(spec_reorder(spec_offset_op(spec_zero_loops(spec_clean(spec_combine(p)))))),
    )
}

/// Run the whole optimization pipeline over a program.
pub fn run_opts(ir: Vec<Atom>) -> (r: Vec<Atom>)
    ensures
        prog_view(r@) == spec_run_opts(prog_view(ir@)),
{
    let p1 = combine(&ir);
    let p2 = clean(&p1);
    let p3 = zero_loops(&p2);
    let p4 = offset_op(&p3);
    let p5 = reorder(&p4);
    let p6 = combine(&p5);
    clean(&p6)
}

} // verus!
