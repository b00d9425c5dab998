//! The four-stage driver: greedy table descent, stage by stage, with a
//! final check that the cube really reached the solved state.

use vstd::prelude::*;

use crate::cube::{apply_moves, lemma_apply_moves_concat, solved_view, wf, Cube, Move};
use crate::lookup_table::LookupTable;
use crate::stages::{G1, G2, G3, G4};

verus! {

/// Failure of the descent: either no pool move lowered the recorded
/// distance, or the four stages finished without reaching the solved cube.
/// Both point at a corrupt or foreign table.
#[derive(Clone, Copy, Debug, PartialEq, Eq)]
pub enum SolveError {
    DescentStuck,
    NotSolved,
}

/// Solve the cube with the four stage tables.  On success the returned
/// moves, applied in order to `cube`, yield the solved cube; a solved input
/// yields the empty sequence; each stage's descent lowers a byte-valued
/// distance with every move, so at most 1020 moves come back.
pub fn solve(
    cube: &Cube,
    t1: &LookupTable<G1>,
    t2: &LookupTable<G2>,
    t3: &LookupTable<G3>,
    t4: &LookupTable<G4>,
) -> (r: Result<Vec<Move>, SolveError>)
    requires
        wf(cube@),
        t1.wf(),
        t2.wf(),
        t3.wf(),
        t4.wf(),
    ensures
        match r {
            Ok(ms) => apply_moves(cube@, ms@) == solved_view() && ms@.len() <= 1020,
            Err(_) => true,
        },
        cube@ == solved_view() ==> (r matches Ok(ms) && ms@ == Seq::<Move>::empty()),
{
    let mut work = cube.duplicate();
    let mut moves: Vec<Move> = Vec::new();
    proof {
        if cube@ == solved_view() {
            t1.lemma_solved_domain();
            t2.lemma_solved_domain();
            t3.lemma_solved_domain();
            t4.lemma_solved_domain();
        }
    }
    let ghost m0 = moves@;
    let ghost w0 = work@;
    if !t1.descend(&mut work, &mut moves) {
        return Err(SolveError::DescentStuck);
    }
    let ghost m1 = moves@;
    let ghost w1 = work@;
    if !t2.descend(&mut work, &mut moves) {
        return Err(SolveError::DescentStuck);
    }
    let ghost m2 = moves@;
    let ghost w2 = work@;
    if !t3.descend(&mut work, &mut moves) {
        return Err(SolveError::DescentStuck);
    }
    let ghost m3 = moves@;
    let ghost w3 = work@;
    if !t4.descend(&mut work, &mut moves) {
        return Err(SolveError::DescentStuck);
    }
    proof {
        assert(m0 =~= Seq::<Move>::empty());
        assert(m1.skip(0) =~= m1);
        assert(w1 == apply_moves(cube@, m1));
        assert(m2 =~= m2.take(m1.len() as int) + m2.skip(m1.len() as int));
        lemma_apply_moves_concat(cube@, m1, m2.skip(m1.len() as int));
        assert(w2 == apply_moves(cube@, m2));
        assert(m3 =~= m3.take(m2.len() as int) + m3.skip(m2.len() as int));
        lemma_apply_moves_concat(cube@, m2, m3.skip(m2.len() as int));
        assert(w3 == apply_moves(cube@, m3));
        assert(moves@ =~= moves@.take(m3.len() as int) + moves@.skip(m3.len() as int));
        lemma_apply_moves_concat(cube@, m3, moves@.skip(m3.len() as int));
        assert(work@ == apply_moves(cube@, moves@));
    }
    if work.is_solved() {
        Ok(moves)
    } else {
        Err(SolveError::NotSolved)
    }
}

} // verus!
