use vstd::prelude::*;

verus! {

/// One instruction node of the program tree.
///
/// `offset` fields are signed displacements relative to the pointer value at
/// the moment the atom executes.  A `Loop` repeatedly executes its body while
/// the cell at the current pointer (offset 0) is nonzero, testing before
/// every iteration.
#[derive(Debug, PartialEq, Eq)]
pub enum Atom {
    MovePtr(isize),
    SetValue(u8, isize),
    IncValue(i8, isize),
    Print(isize),
    Read(isize),
    Loop(Vec<Atom>),
}

/// Mathematical model of an instruction node: the same shape as [`Atom`],
/// with `Loop` bodies as sequences.  All contracts about programs are stated
/// over `Seq<AtomV>`.
#[verifier::ext_equal]
pub enum AtomV {
    MovePtr(isize),
    SetValue(u8, isize),
    IncValue(i8, isize),
    Print(isize),
    Read(isize),
    Loop(Seq<AtomV>),
}

/// The model value of a single atom.
pub open spec fn atom_view(a: Atom) -> AtomV
    decreases a,
{
    match a {
        Atom::MovePtr(o) => AtomV::MovePtr(o),
        Atom::SetValue(v, o) => AtomV::SetValue(v, o),
        Atom::IncValue(d, o) => AtomV::IncValue(d, o),
        Atom::Print(o) => AtomV::Print(o),
        Atom::Read(o) => AtomV::Read(o),
        Atom::Loop(body) => AtomV::Loop(prog_view(body@)),
    }
}

/// The model value of a program: atoms viewed elementwise.
pub open spec fn prog_view(p: Seq<Atom>) -> Seq<AtomV>
    decreases p,
{
    if p.len() == 0 {
        Seq::empty()
    } else {
        seq![atom_view(p[0])] + prog_view(p.skip(1))
    }
}

pub broadcast proof fn lemma_prog_view_len(p: Seq<Atom>)
    ensures
        (#[trigger] prog_view(p)).len() == p.len(),
    decreases p,
{
    if p.len() > 0 {
        lemma_prog_view_len(p.skip(1));
    }
}

pub broadcast proof fn lemma_prog_view_index(p: Seq<Atom>, i: int)
    requires
        0 <= i < p.len(),
    ensures
        #[trigger] prog_view(p)[i] == atom_view(p[i]),
    decreases p,
{
    lemma_prog_view_len(p.skip(1));
    if i > 0 {
        lemma_prog_view_index(p.skip(1), i - 1);
    }
}

pub broadcast proof fn lemma_prog_view_push(p: Seq<Atom>, a: Atom)
    ensures
        #[trigger] prog_view(p.push(a)) == prog_view(p).push(atom_view(a)),
    decreases p,
{
    reveal_with_fuel(prog_view, 3);
    if p.len() == 0 {
        assert(p.push(a).skip(1) =~= Seq::<Atom>::empty());
        assert(p.push(a)[0] == a);
        assert(prog_view(p.push(a)) == seq![atom_view(a)] + Seq::<AtomV>::empty());
        assert(seq![atom_view(a)] + Seq::<AtomV>::empty() =~= prog_view(p).push(atom_view(a)));
    } else {
        lemma_prog_view_push(p.skip(1), a);
        assert(p.push(a).skip(1) =~= p.skip(1).push(a));
        assert(p.push(a)[0] == p[0]);
        assert(prog_view(p.push(a)) == seq![atom_view(p[0])] + prog_view(p.skip(1)).push(
            atom_view(a),
        ));
        assert(seq![atom_view(p[0])] + prog_view(p.skip(1)).push(atom_view(a)) =~= (seq![
            atom_view(p[0]),
        ] + prog_view(p.skip(1))).push(atom_view(a)));
    }
}

} // verus!
