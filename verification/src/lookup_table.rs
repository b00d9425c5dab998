//! The per-stage distance table: one byte per coordinate, built by
//! iterative-deepening depth-first search from the solved cube (chosen over
//! breadth-first search so that no frontier of full cube states is ever
//! held in memory).

use vstd::prelude::*;

use crate::cube::{
    apply_moves, lemma_solved_wf, lemma_turn_wf, solved_view, spec_turn, wf, Cube, CubeView, Move,
};
use crate::stages::{lemma_g3_domain_closed, lemma_g4_domain_closed, Stage, G1, G2, G3, G4};

verus! {

/// The byte marking a coordinate not yet reached during construction.
pub const UNVISITED: u8 = 255;

/// Every move of `ms` is drawn from the stage's pool.
pub open spec fn pool_only<S: Stage>(stage: S, ms: Seq<Move>) -> bool {
    forall|j: int| 0 <= j < ms.len() ==> stage.spec_pool().contains(#[trigger] ms[j])
}

/// Some `n`-move pool sequence takes `v` to a state at the stage's home
/// coordinate (the solved cube's).
pub open spec fn reaches_home<S: Stage>(stage: S, v: CubeView, n: int) -> bool {
    exists|ms: Seq<Move>|
        #![trigger pool_only(stage, ms)]
        ms.len() == n && pool_only(stage, ms) && stage.spec_index(apply_moves(v, ms))
            == stage.spec_index(solved_view())
}

/// The table's defining property: on every well-formed state of the
/// stage's domain, the byte at its coordinate is the least number of pool
/// moves to a state at the home coordinate.  The builder's search
/// establishes this by construction; that every coordinate is reached (and
/// hence that the property can be discharged) rests on the pool generating
/// the stage's coset space, which is taken as a hypothesis by the contracts
/// that need it rather than proved.
pub open spec fn exact<S: Stage>(stage: S, data: Seq<u8>) -> bool {
    forall|v: CubeView|
        wf(v) && #[trigger] stage.spec_domain(v) ==> {
            &&& 0 <= stage.spec_index(v) < data.len()
            &&& data[stage.spec_index(v)] != UNVISITED
            &&& reaches_home(stage, v, data[stage.spec_index(v)] as int)
            &&& forall|n: int|
                0 <= n < data[stage.spec_index(v)] ==> !reaches_home(stage, v, n)
        }
}

/// Every pool move keeps a well-formed state of the domain in the domain.
pub open spec fn pool_closed<S: Stage>(stage: S) -> bool {
    forall|v: CubeView, m: Move|
        wf(v) && stage.spec_domain(v) && stage.spec_pool().contains(m) ==> stage.spec_domain(
            #[trigger] spec_turn(v, m),
        )
}

/// Stage one's domain is every well-formed state, so its pool preserves it.
pub proof fn lemma_g1_pool_closed()
    ensures
        pool_closed(G1),
{
    assert forall|v: CubeView, m: Move|
        wf(v) && G1.spec_domain(v) && G1.spec_pool().contains(m) implies G1.spec_domain(
        #[trigger] spec_turn(v, m),
    ) by {}
}

/// Stage two's domain is every well-formed state, so its pool preserves it.
pub proof fn lemma_g2_pool_closed()
    ensures
        pool_closed(G2),
{
    assert forall|v: CubeView, m: Move|
        wf(v) && G2.spec_domain(v) && G2.spec_pool().contains(m) implies G2.spec_domain(
        #[trigger] spec_turn(v, m),
    ) by {}
}

/// Stage three's pool preserves its domain: no pool move carries an M-slice
/// piece into the E-slice.
pub proof fn lemma_g3_pool_closed()
    ensures
        pool_closed(G3),
{
    assert forall|v: CubeView, m: Move|
        wf(v) && G3.spec_domain(v) && G3.spec_pool().contains(m) implies G3.spec_domain(
        #[trigger] spec_turn(v, m),
    ) by {
        lemma_g3_domain_closed(v, m);
    }
}

/// Stage four's pool preserves its domain: half turns keep every
/// constrained piece within its slice or tetrad.
pub proof fn lemma_g4_pool_closed()
    ensures
        pool_closed(G4),
{
    assert forall|v: CubeView, m: Move|
        wf(v) && G4.spec_domain(v) && G4.spec_pool().contains(m) implies G4.spec_domain(
        #[trigger] spec_turn(v, m),
    ) by {
        lemma_g4_domain_closed(v, m);
    }
}

/// How many coordinates have been assigned a depth.
spec fn count_filled(s: Seq<u8>) -> nat
    decreases s.len(),
{
    if s.len() == 0 {
        0
    } else {
        count_filled(s.drop_last()) + (if s.last() != UNVISITED {
            1nat
        } else {
            0nat
        })
    }
}

proof fn lemma_count_filled_le(s: Seq<u8>)
    ensures
        count_filled(s) <= s.len(),
    decreases s.len(),
{
    if s.len() > 0 {
        lemma_count_filled_le(s.drop_last());
    }
}

proof fn lemma_count_filled_zero(s: Seq<u8>)
    requires
        forall|i: int| 0 <= i < s.len() ==> s[i] == UNVISITED,
    ensures
        count_filled(s) == 0,
    decreases s.len(),
{
    if s.len() > 0 {
        lemma_count_filled_zero(s.drop_last());
    }
}

proof fn lemma_count_filled_update(s: Seq<u8>, i: int, v: u8)
    requires
        0 <= i < s.len(),
        s[i] == UNVISITED,
        v != UNVISITED,
    ensures
        count_filled(s.update(i, v)) == count_filled(s) + 1,
    decreases s.len(),
{
    if i == s.len() - 1 {
        assert(s.update(i, v).drop_last() =~= s.drop_last());
        assert(s.update(i, v).last() == v);
    } else {
        assert(s.update(i, v).drop_last() =~= s.drop_last().update(i, v));
        lemma_count_filled_update(s.drop_last(), i, v);
        assert(s.update(i, v).last() == s.last());
    }
}

/// What construction maintains: proper length, the solved cube's entry
/// already zero, and no recorded depth beyond the current search horizon.
spec fn build_inv<S: Stage>(stage: S, d: Seq<u8>, limit: u8) -> bool {
    &&& d.len() == stage.spec_size()
    &&& 0 <= stage.spec_index(solved_view()) < d.len()
    &&& d[stage.spec_index(solved_view())] == 0
    &&& forall|i: int| 0 <= i < d.len() ==> (d[i] != UNVISITED ==> d[i] <= limit)
    &&& forall|i: int|
        0 <= i < d.len() && i != stage.spec_index(solved_view()) ==> d[i] != 0
}

/// One branch of the bounded depth-first search: try every pool move from
/// `parent`, record coordinates first met at the horizon, and recurse on
/// shallower children.
fn dfs_fill<S: Stage>(
    stage: &S,
    data: &mut Vec<u8>,
    num_items: &mut usize,
    parent: &Cube,
    parent_depth: u8,
    depth_limit: u8,
)
    requires
        wf(parent@),
        build_inv(*stage, old(data)@, depth_limit),
        *old(num_items) == count_filled(old(data)@),
        parent_depth < depth_limit,
    ensures
        build_inv(*stage, final(data)@, depth_limit),
        *final(num_items) == count_filled(final(data)@),
    decreases depth_limit - parent_depth,
{
    let pool = stage.move_pool();
    let mut ti: usize = 0;
    while ti < pool.len()
        invariant
            wf(parent@),
            build_inv(*stage, data@, depth_limit),
            *num_items == count_filled(data@),
            parent_depth < depth_limit,
        decreases pool@.len() - ti,
    {
        let m = pool[ti];
        let mut child = parent.duplicate();
        child.turn(&m);
        proof {
            lemma_turn_wf(parent@, m);
        }
        let index = stage.indexer(&child);
        let depth = parent_depth + 1;
        if data[index] >= depth {
            if depth == depth_limit {
                if data[index] > depth {
                    proof {
                        assert(data@[index as int] == UNVISITED);
                        lemma_count_filled_update(data@, index as int, depth);
                        lemma_count_filled_le(data@.update(index as int, depth));
                    }
                    data[index] = depth;
                    let cur_len = data.len();
                    proof {
                        assert(*num_items + 1 == count_filled(data@));
                        assert(count_filled(data@) <= data@.len());
                        assert(data@.len() == cur_len);
                    }
                    *num_items += 1;
                }
            } else {
                dfs_fill(stage, data, num_items, &child, depth, depth_limit);
            }
        }
        ti += 1;
    }
}

/// A distance table for one stage: `data[i]` holds the least number of pool
/// moves from any state with coordinate `i` to the stage's target coset.
/// The contracts pin the length, that the solved cube's coordinate and no
/// other sits at distance zero, and (through [`Self::complete`]) that every
/// coordinate was reached; that each recorded depth is minimal rests on the
/// search itself and is not formalised.
pub struct LookupTable<S: Stage> {
    data: Vec<u8>,
    stage: S,
}

impl<S: Stage> LookupTable<S> {
    /// The table bytes.
    pub closed spec fn data_spec(&self) -> Seq<u8> {
        self.data@
    }

    /// The stage the table belongs to.
    pub closed spec fn stage_spec(&self) -> S {
        self.stage
    }

    /// The table has one byte per coordinate, records the solved cube's
    /// coordinate at distance zero, and records no other coordinate at
    /// distance zero: a recorded zero identifies the stage's target coset.
    pub open spec fn wf(&self) -> bool {
        &&& self.data_spec().len() == self.stage_spec().spec_size()
        &&& 0 <= self.stage_spec().spec_index(solved_view()) < self.data_spec().len()
        &&& self.data_spec()[self.stage_spec().spec_index(solved_view())] == 0
        &&& forall|i: int|
            0 <= i < self.data_spec().len() && i != self.stage_spec().spec_index(solved_view())
                ==> self.data_spec()[i] != 0
    }

    /// Every coordinate has been assigned a depth: the sentinel is absent.
    pub open spec fn complete(&self) -> bool {
        forall|i: int| 0 <= i < self.data_spec().len() ==> self.data_spec()[i] != UNVISITED
    }

    /// The solved cube lies in this stage's domain.
    pub proof fn lemma_solved_domain(&self)
        ensures
            self.stage_spec().spec_domain(solved_view()),
    {
        self.stage.lemma_solved();
    }

    /// Build the table in memory by iterative-deepening depth-first search
    /// from the solved cube, one horizon at a time, then check coverage:
    /// `Some` is returned only when every coordinate was reached, so a
    /// surviving unvisited sentinel (the unrecoverable error of the design)
    /// is impossible in a returned table.  `None` means the pool failed to
    /// reach some coordinate within the byte-valued horizon.
    pub fn new(stage: S) -> (r: Option<Self>)
        ensures
            match r {
                Some(t) => t.wf() && t.complete() && t.stage_spec() == stage,
                None => true,
            },
    {
        let size = stage.size();
        let mut data: Vec<u8> = Vec::new();
        while data.len() < size
            invariant
                data@.len() <= size,
                forall|i: int| 0 <= i < data@.len() ==> data@[i] == UNVISITED,
            decreases size - data@.len(),
        {
            data.push(UNVISITED);
        }
        let solved = Cube::new();
        proof {
            lemma_solved_wf();
            stage.lemma_solved();
            lemma_count_filled_zero(data@);
        }
        let root = stage.indexer(&solved);
        proof {
            lemma_count_filled_update(data@, root as int, 0);
        }
        data[root] = 0;
        let mut num_items: usize = 1;
        let mut depth_limit: u8 = 0;
        while num_items < size && depth_limit < 254
            invariant
                size == stage.spec_size(),
                build_inv(stage, data@, depth_limit),
                num_items == count_filled(data@),
            decreases 254 - depth_limit,
        {
            depth_limit += 1;
            let start = Cube::new();
            proof {
                lemma_solved_wf();
            }
            dfs_fill(&stage, &mut data, &mut num_items, &start, 0, depth_limit);
        }
        let mut i: usize = 0;
        while i < size
            invariant
                size == data@.len(),
                size == stage.spec_size(),
                0 <= stage.spec_index(solved_view()) < data@.len(),
                data@[stage.spec_index(solved_view())] == 0,
                forall|j: int|
                    0 <= j < data@.len() && j != stage.spec_index(solved_view()) ==> data@[j]
                        != 0,
                forall|j: int| 0 <= j < i ==> data@[j] != UNVISITED,
            decreases size - i,
        {
            if data[i] == UNVISITED {
                return None;
            }
            i += 1;
        }
        let t = LookupTable { data, stage };
        proof {
            assert(t.wf());
            assert(t.complete());
        }
        Some(t)
    }

    /// Wrap already-computed bytes, after checking the length, that the
    /// solved cube's coordinate (and no other) is at distance zero, and
    /// that the unvisited sentinel is absent; `None` when any check fails.
    pub fn from_bytes(stage: S, data: Vec<u8>) -> (r: Option<Self>)
        ensures
            match r {
                Some(t) => t.wf() && t.complete() && t.stage_spec() == stage && t.data_spec()
                    == data@,
                None => data@.len() != stage.spec_size() || data@[stage.spec_index(solved_view())]
                    != 0 || exists|i: int|
                    0 <= i < data@.len() && ((i != stage.spec_index(solved_view()) && data@[i]
                        == 0) || data@[i] == UNVISITED),
            },
    {
        let size = stage.size();
        if data.len() != size {
            return None;
        }
        let solved = Cube::new();
        proof {
            lemma_solved_wf();
            stage.lemma_solved();
        }
        let root = stage.indexer(&solved);
        if data[root] != 0 {
            return None;
        }
        let mut i: usize = 0;
        while i < size
            invariant
                size == data@.len(),
                root < size,
                root == stage.spec_index(solved_view()),
                forall|j: int|
                    0 <= j < i ==> (j == root || data@[j] != 0) && data@[j] != UNVISITED,
            decreases size - i,
        {
            if i != root && data[i] == 0 {
                return None;
            }
            if data[i] == UNVISITED {
                return None;
            }
            i += 1;
        }
        Some(LookupTable { data, stage })
    }

    /// Whether construction reached every coordinate.
    pub fn is_complete(&self) -> (r: bool)
        ensures
            r == self.complete(),
    {
        let mut i: usize = 0;
        while i < self.data.len()
            invariant
                forall|j: int| 0 <= j < i ==> self.data_spec()[j] != UNVISITED,
                i <= self.data.len(),
            decreases self.data.len() - i,
        {
            if self.data[i] == UNVISITED {
                proof {
                    assert(self.data_spec()[i as int] == UNVISITED);
                }
                return false;
            }
            i += 1;
        }
        true
    }

    /// The table bytes, for persistence.
    pub fn data(&self) -> (r: &Vec<u8>)
        ensures
            r@ == self.data_spec(),
    {
        &self.data
    }

    /// The stage's table size.
    pub fn size(&self) -> (r: usize)
        ensures
            r == self.stage_spec().spec_size(),
    {
        self.stage.size()
    }

    /// The recorded distance of the cube's coordinate.
    pub fn eval(&self, cube: &Cube) -> (r: u8)
        requires
            self.wf(),
            wf(cube@),
        ensures
            self.stage_spec().spec_domain(cube@) ==> r == self.data_spec()[self.stage_spec(
            ).spec_index(cube@)],
            self.stage_spec().spec_domain(cube@) ==> 0 <= self.stage_spec().spec_index(cube@)
                < self.data_spec().len(),
    {
        let idx = self.stage.indexer(cube);
        self.data[idx]
    }

    /// No pool move that stays in the stage's domain lowers the recorded
    /// distance of `v`: the meaning of a failed descent.
    pub open spec fn stuck_at(self, v: CubeView) -> bool {
        forall|m: Move|
            self.stage_spec().spec_pool().contains(m) && self.stage_spec().spec_domain(
                #[trigger] spec_turn(v, m),
            ) ==> 0 <= self.stage_spec().spec_index(spec_turn(v, m)) < self.data_spec().len()
                && self.data_spec()[self.stage_spec().spec_index(spec_turn(v, m))]
                >= self.data_spec()[self.stage_spec().spec_index(v)]
    }

    /// Greedy descent for this stage: while the recorded distance is
    /// positive, play the first pool move that strictly decreases it,
    /// appending each played move (all drawn from the stage's pool).  On
    /// success the reached state's recorded distance is zero, so (the table
    /// being well-formed) its coordinate is the solved cube's; each played
    /// move lowered the distance, so at most 255 moves are played.  A
    /// `false` return means exactly that no domain-preserving pool move
    /// lowers the recorded distance at the reached state; on a table with
    /// exact distances whose pool preserves the domain, that cannot happen,
    /// and success is owed.
    pub fn descend(&self, cube: &mut Cube, moves: &mut Vec<Move>) -> (r: bool)
        requires
            self.wf(),
            wf(old(cube)@),
        ensures
            wf(final(cube)@),
            final(moves)@.len() >= old(moves)@.len(),
            final(moves)@.len() <= old(moves)@.len() + 255,
            final(moves)@.take(old(moves)@.len() as int) == old(moves)@,
            final(cube)@ == apply_moves(old(cube)@, final(moves)@.skip(old(moves)@.len() as int)),
            forall|j: int|
                old(moves)@.len() <= j < final(moves)@.len() ==> self.stage_spec(
                ).spec_pool().contains(#[trigger] final(moves)@[j]),
            r ==> (self.stage_spec().spec_domain(final(cube)@) ==> self.data_spec()[
                self.stage_spec().spec_index(final(cube)@)] == 0),
            r ==> (self.stage_spec().spec_domain(final(cube)@) ==> self.stage_spec().spec_index(
                final(cube)@,
            ) == self.stage_spec().spec_index(solved_view())),
            !r ==> (self.stage_spec().spec_domain(final(cube)@) ==> self.stuck_at(final(cube)@)),
            (exact(self.stage_spec(), self.data_spec()) && pool_closed(self.stage_spec())
                && self.stage_spec().spec_domain(old(cube)@)) ==> (r && self.stage_spec(
            ).spec_domain(final(cube)@)),
            (self.stage_spec().spec_domain(old(cube)@) && self.data_spec()[self.stage_spec(
            ).spec_index(old(cube)@)] == 0) ==> (final(cube)@ == old(cube)@ && final(moves)@
                == old(moves)@ && r),
    {
        proof {
            assert(moves@.take(moves@.len() as int) =~= moves@);
            assert(moves@.skip(moves@.len() as int) =~= Seq::<Move>::empty());
        }
        let mut d = self.eval(cube);
        if d == 0 {
            return true;
        }
        let ghost base = moves@.len() as int;
        let ghost d0 = d as int;
        let ghost hyp = exact(self.stage_spec(), self.data_spec()) && pool_closed(
            self.stage_spec(),
        ) && self.stage_spec().spec_domain(old(cube)@);
        while d > 0
            invariant
                self.wf(),
                wf(cube@),
                moves@.len() >= old(moves)@.len(),
                base == old(moves)@.len(),
                moves@.take(base) == old(moves)@,
                cube@ == apply_moves(old(cube)@, moves@.skip(base)),
                moves@.len() + d <= base + d0,
                d0 <= 255,
                forall|j: int|
                    base <= j < moves@.len() ==> self.stage_spec().spec_pool().contains(
                        #[trigger] moves@[j],
                    ),
                hyp == (exact(self.stage_spec(), self.data_spec()) && pool_closed(
                    self.stage_spec(),
                ) && self.stage_spec().spec_domain(old(cube)@)),
                hyp ==> self.stage_spec().spec_domain(cube@),
                self.stage_spec().spec_domain(cube@) ==> d == self.data_spec()[self.stage_spec(
                ).spec_index(cube@)],
                self.stage_spec().spec_domain(cube@) ==> 0 <= self.stage_spec().spec_index(cube@)
                    < self.data_spec().len(),
                self.stage_spec().spec_domain(old(cube)@) ==> self.data_spec()[self.stage_spec(
                ).spec_index(old(cube)@)] != 0,
            decreases d,
        {
            let pool = self.stage.move_pool();
            let mut k: usize = 0;
            let mut stepped = false;
            let mut nd: u8 = d;
            while k < pool.len() && !stepped
                invariant
                    self.wf(),
                    wf(cube@),
                    pool@ == self.stage_spec().spec_pool(),
                    moves@.len() >= old(moves)@.len(),
                    base == old(moves)@.len(),
                    moves@.take(base) == old(moves)@,
                    cube@ == apply_moves(old(cube)@, moves@.skip(base)),
                    !stepped ==> moves@.len() + d <= base + d0,
                    stepped ==> moves@.len() + nd <= base + d0,
                    d0 <= 255,
                    forall|j: int|
                        base <= j < moves@.len() ==> self.stage_spec().spec_pool().contains(
                            #[trigger] moves@[j],
                        ),
                    hyp == (exact(self.stage_spec(), self.data_spec()) && pool_closed(
                        self.stage_spec(),
                    ) && self.stage_spec().spec_domain(old(cube)@)),
                    hyp ==> self.stage_spec().spec_domain(cube@),
                    stepped ==> (self.stage_spec().spec_domain(cube@) ==> nd == self.data_spec()[
                        self.stage_spec().spec_index(cube@)]),
                    !stepped ==> (self.stage_spec().spec_domain(cube@) ==> d == self.data_spec()[
                        self.stage_spec().spec_index(cube@)]),
                    self.stage_spec().spec_domain(cube@) ==> 0 <= self.stage_spec().spec_index(
                        cube@,
                    ) < self.data_spec().len(),
                    !stepped ==> forall|k2: int|
                        0 <= k2 < k ==> (self.stage_spec().spec_domain(
                            spec_turn(cube@, #[trigger] pool@[k2]),
                        ) ==> 0 <= self.stage_spec().spec_index(spec_turn(cube@, pool@[k2]))
                            < self.data_spec().len() && self.data_spec()[self.stage_spec(
                        ).spec_index(spec_turn(cube@, pool@[k2]))] >= d),
                    self.stage_spec().spec_domain(old(cube)@) ==> self.data_spec()[
                        self.stage_spec().spec_index(old(cube)@)] != 0,
                    stepped ==> nd < d,
                    k <= pool@.len(),
                decreases pool@.len() - k,
            {
                let m = pool[k];
                let mut trial = cube.duplicate();
                trial.turn(&m);
                proof {
                    lemma_turn_wf(cube@, m);
                }
                let td = self.eval(&trial);
                if td < d {
                    let ghost before = moves@;
                    let ghost vbefore = cube@;
                    cube.turn(&m);
                    moves.push(m);
                    nd = td;
                    stepped = true;
                    proof {
                        assert(moves@ =~= before.push(m));
                        assert(moves@.take(base) =~= before.take(base));
                        assert(moves@.skip(base) =~= before.skip(base).push(m));
                        assert(before.skip(base).push(m) =~= before.skip(base) + seq![m]);
                        crate::cube::lemma_apply_moves_concat(
                            old(cube)@,
                            before.skip(base),
                            seq![m],
                        );
                        assert(seq![m].drop_first() =~= Seq::<Move>::empty());
                        assert(apply_moves(spec_turn(vbefore, m), Seq::<Move>::empty())
                            == spec_turn(vbefore, m));
                        assert(seq![m][0] == m);
                        assert(apply_moves(vbefore, seq![m]) == spec_turn(vbefore, m));
                        assert(self.stage_spec().spec_pool().contains(pool@[k as int]));
                        if hyp {
                            assert(self.stage_spec().spec_domain(cube@));
                        }
                    }
                }
                k += 1;
            }
            if !stepped {
                proof {
                    if hyp {
                        assert(self.stage_spec().spec_domain(cube@));
                        assert(d == self.data_spec()[self.stage_spec().spec_index(cube@)]);
                        assert(reaches_home(
                            self.stage_spec(),
                            cube@,
                            self.data_spec()[self.stage_spec().spec_index(cube@)] as int,
                        ));
                        let ms = choose|ms: Seq<Move>|
                            #![trigger pool_only(self.stage_spec(), ms)]
                            ms.len() == d as int && pool_only(self.stage_spec(), ms)
                                && self.stage_spec().spec_index(apply_moves(cube@, ms))
                                == self.stage_spec().spec_index(solved_view());
                        let mstar = ms[0];
                        assert(self.stage_spec().spec_pool().contains(mstar));
                        let j = choose|j: int|
                            0 <= j < pool@.len() && pool@[j] == mstar;
                        let child = spec_turn(cube@, mstar);
                        lemma_turn_wf(cube@, mstar);
                        assert(self.stage_spec().spec_domain(child));
                        let tail = ms.drop_first();
                        assert(apply_moves(cube@, ms) == apply_moves(child, tail));
                        assert forall|j2: int|
                            0 <= j2 < tail.len() implies self.stage_spec().spec_pool().contains(
                            #[trigger] tail[j2],
                        ) by {
                            assert(tail[j2] == ms[j2 + 1]);
                        }
                        assert(pool_only(self.stage_spec(), tail));
                        assert(reaches_home(self.stage_spec(), child, d - 1));
                        let dc = self.data_spec()[self.stage_spec().spec_index(child)];
                        assert(!(d - 1 < dc));
                        assert(self.data_spec()[self.stage_spec().spec_index(
                            spec_turn(cube@, pool@[j]),
                        )] >= d);
                        assert(false);
                    }
                    if self.stage_spec().spec_domain(cube@) {
                        assert forall|m: Move|
                            self.stage_spec().spec_pool().contains(m) && self.stage_spec(
                            ).spec_domain(#[trigger] spec_turn(cube@, m)) implies 0
                            <= self.stage_spec().spec_index(spec_turn(cube@, m))
                            < self.data_spec().len() && self.data_spec()[self.stage_spec(
                        ).spec_index(spec_turn(cube@, m))] >= self.data_spec()[self.stage_spec(
                        ).spec_index(cube@)] by {
                            let k2 = choose|k2: int|
                                0 <= k2 < pool@.len() && pool@[k2] == m;
                            assert(self.stage_spec().spec_domain(
                                spec_turn(cube@, pool@[k2]),
                            ));
                            assert(self.data_spec()[self.stage_spec().spec_index(
                                spec_turn(cube@, pool@[k2]),
                            )] >= d);
                            assert(d == self.data_spec()[self.stage_spec().spec_index(cube@)]);
                        }
                        assert(self.stuck_at(cube@));
                    }
                }
                return false;
            }
            d = nd;
        }
        true
    }
}

} // verus!
