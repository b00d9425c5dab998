//! The four Thistlethwaite stages.  Each stage carries a move pool, a table
//! size, and a coordinate function that is constant on cosets of the stage's
//! target subgroup.

use vstd::prelude::*;

use crate::combinatorics::{
    comb_rank, combination_rank, crank, find_in, idx_of, lemma_binom_values, lemma_fact_values,
    lemma_idx_of_unique, lemma_remove2_props, map_idx, perm_parity, perm_rank,
    permutation_parity, permutation_rank, remove2, remove_two, sort_u8, spec_binom, u8_le,
};
use crate::cube::{
    dims_ok, lemma_solved_wf, lemma_turn_wf, lemma_wf_no_dup, solved_view, spec_b, spec_d,
    spec_f, spec_l, spec_r, spec_turn, spec_u, wf, Corner, Cube, CubeView, Edge, Move,
};

verus! {

/// `[0, 1, .., n-1]` as bytes.
pub open spec fn iota(n: nat) -> Seq<u8> {
    Seq::new(n, |i: int| i as u8)
}

/// A stage descriptor: table size, move pool, and the coordinate function
/// (exact on the stage's domain, always within the table).
pub trait Stage: Sized {
    /// Number of distinct coordinates.
    spec fn spec_size(&self) -> int;

    /// The moves the stage may use.
    spec fn spec_pool(&self) -> Seq<Move>;

    /// The states on which the coordinate formula is meaningful; it contains
    /// every state the stage's search meets, and in particular the solved
    /// cube.
    spec fn spec_domain(&self, v: CubeView) -> bool;

    /// The coordinate.
    spec fn spec_index(&self, v: CubeView) -> int;

    /// The solved cube lies in the domain.
    proof fn lemma_solved(&self)
        ensures
            self.spec_domain(solved_view()),
    ;

    fn size(&self) -> (r: usize)
        ensures
            r == self.spec_size(),
            r >= 1,
    ;

    fn move_pool(&self) -> (r: Vec<Move>)
        ensures
            r@ == self.spec_pool(),
    ;

    fn indexer(&self, cube: &Cube) -> (r: usize)
        requires
            wf(cube@),
        ensures
            r < self.spec_size(),
            self.spec_domain(cube@) ==> r == self.spec_index(cube@),
    ;
}

/// `[0, 1, .., n-1]` as a vector.
fn range_vec(n: usize) -> (r: Vec<u8>)
    requires
        n <= 255,
    ensures
        r@ == iota(n as nat),
        r@.no_duplicates(),
{
    let mut r: Vec<u8> = Vec::new();
    let mut i: usize = 0;
    while i < n
        invariant
            i <= n,
            n <= 255,
            r@ =~= iota(i as nat),
        decreases n - i,
    {
        r.push(i as u8);
        proof {
            assert(r@ =~= iota((i + 1) as nat));
        }
        i += 1;
    }
    r
}

/// The slot of each listed edge piece, in order.
fn edge_positions(cube: &Cube, pieces: &Vec<u8>) -> (r: Vec<u8>)
    requires
        wf(cube@),
        forall|i: int| 0 <= i < pieces@.len() ==> pieces@[i] < 12,
    ensures
        r@ == map_idx(pieces@, cube@.edges),
        r@.len() == pieces@.len(),
        forall|i: int|
            0 <= i < r@.len() ==> r@[i] < 12 && cube@.edges[r@[i] as int] == pieces@[i],
        pieces@.no_duplicates() ==> r@.no_duplicates(),
{
    proof {
        lemma_wf_no_dup(cube@);
    }
    let mut r: Vec<u8> = Vec::new();
    let mut i: usize = 0;
    while i < pieces.len()
        invariant
            wf(cube@),
            i <= pieces@.len(),
            forall|j: int| 0 <= j < pieces@.len() ==> pieces@[j] < 12,
            r@ =~= map_idx(pieces@, cube@.edges).take(i as int),
            forall|j: int|
                0 <= j < i ==> r@[j] < 12 && cube@.edges[r@[j] as int] == pieces@[j],
        decreases pieces@.len() - i,
    {
        let e = Edge::from_index(pieces[i] as usize);
        let pos = cube.get_edge_position(&e);
        let slot = pos.index();
        proof {
            lemma_wf_no_dup(cube@);
            lemma_idx_of_unique(cube@.edges, pieces@[i as int], slot as int);
        }
        r.push(slot as u8);
        proof {
            assert(r@ =~= map_idx(pieces@, cube@.edges).take(i + 1));
        }
        i += 1;
    }
    proof {
        assert(map_idx(pieces@, cube@.edges).take(pieces@.len() as int) =~= map_idx(
            pieces@,
            cube@.edges,
        ));
        if pieces@.no_duplicates() {
            assert forall|a: int, b: int|
                0 <= a < r@.len() && 0 <= b < r@.len() && a != b implies r@[a] != r@[b] by {
                assert(cube@.edges[r@[a] as int] == pieces@[a]);
                assert(cube@.edges[r@[b] as int] == pieces@[b]);
            }
        }
    }
    r
}

/// The slot of each listed corner piece, in order.
fn corner_positions(cube: &Cube, pieces: &Vec<u8>) -> (r: Vec<u8>)
    requires
        wf(cube@),
        forall|i: int| 0 <= i < pieces@.len() ==> pieces@[i] < 8,
    ensures
        r@ == map_idx(pieces@, cube@.corners),
        r@.len() == pieces@.len(),
        forall|i: int|
            0 <= i < r@.len() ==> r@[i] < 8 && cube@.corners[r@[i] as int] == pieces@[i],
        pieces@.no_duplicates() ==> r@.no_duplicates(),
{
    proof {
        lemma_wf_no_dup(cube@);
    }
    let mut r: Vec<u8> = Vec::new();
    let mut i: usize = 0;
    while i < pieces.len()
        invariant
            wf(cube@),
            i <= pieces@.len(),
            forall|j: int| 0 <= j < pieces@.len() ==> pieces@[j] < 8,
            r@ =~= map_idx(pieces@, cube@.corners).take(i as int),
            forall|j: int|
                0 <= j < i ==> r@[j] < 8 && cube@.corners[r@[j] as int] == pieces@[j],
        decreases pieces@.len() - i,
    {
        let c = Corner::from_index(pieces[i] as usize);
        let pos = cube.get_corner_position(&c);
        let slot = pos.index();
        proof {
            lemma_wf_no_dup(cube@);
            lemma_idx_of_unique(cube@.corners, pieces@[i as int], slot as int);
        }
        r.push(slot as u8);
        proof {
            assert(r@ =~= map_idx(pieces@, cube@.corners).take(i + 1));
        }
        i += 1;
    }
    proof {
        assert(map_idx(pieces@, cube@.corners).take(pieces@.len() as int) =~= map_idx(
            pieces@,
            cube@.corners,
        ));
        if pieces@.no_duplicates() {
            assert forall|a: int, b: int|
                0 <= a < r@.len() && 0 <= b < r@.len() && a != b implies r@[a] != r@[b] by {
                assert(cube@.corners[r@[a] as int] == pieces@[a]);
                assert(cube@.corners[r@[b] as int] == pieces@[b]);
            }
        }
    }
    r
}

/// Stage one: orient all twelve edges.  All eighteen moves are available.
#[derive(Clone, Copy)]
pub struct G1;

/// Stage two: orient all corners and confine the E-slice edge pieces to the
/// E-slice.  F and B quarter turns are forbidden.
#[derive(Clone, Copy)]
pub struct G2;

pub open spec fn g1_pool() -> Seq<Move> {
    seq![
        Move::U,
        Move::Up,
        Move::U2,
        Move::L,
        Move::Lp,
        Move::L2,
        Move::D,
        Move::Dp,
        Move::D2,
        Move::R,
        Move::Rp,
        Move::R2,
        Move::F,
        Move::Fp,
        Move::F2,
        Move::B,
        Move::Bp,
        Move::B2,
    ]
}

pub open spec fn g2_pool() -> Seq<Move> {
    seq![
        Move::U,
        Move::Up,
        Move::U2,
        Move::L,
        Move::Lp,
        Move::L2,
        Move::D,
        Move::Dp,
        Move::D2,
        Move::R,
        Move::Rp,
        Move::R2,
        Move::F2,
        Move::B2,
    ]
}

/// The first eleven edge flips as a base-two number (the twelfth is fixed by
/// the even-sum invariant).
pub open spec fn g1_index(v: CubeView) -> int {
    v.eo[0] + 2 * v.eo[1] + 4 * v.eo[2] + 8 * v.eo[3] + 16 * v.eo[4] + 32 * v.eo[5] + 64 * v.eo[6]
        + 128 * v.eo[7] + 256 * v.eo[8] + 512 * v.eo[9] + 1024 * v.eo[10]
}

impl Stage for G1 {
    open spec fn spec_size(&self) -> int {
        2048
    }

    open spec fn spec_pool(&self) -> Seq<Move> {
        g1_pool()
    }

    open spec fn spec_domain(&self, v: CubeView) -> bool {
        true
    }

    open spec fn spec_index(&self, v: CubeView) -> int {
        g1_index(v)
    }

    proof fn lemma_solved(&self) {
    }

    fn size(&self) -> (r: usize) {
        2048
    }

    fn move_pool(&self) -> (r: Vec<Move>) {
        let mut v: Vec<Move> = Vec::new();
        v.push(Move::U);
        v.push(Move::Up);
        v.push(Move::U2);
        v.push(Move::L);
        v.push(Move::Lp);
        v.push(Move::L2);
        v.push(Move::D);
        v.push(Move::Dp);
        v.push(Move::D2);
        v.push(Move::R);
        v.push(Move::Rp);
        v.push(Move::R2);
        v.push(Move::F);
        v.push(Move::Fp);
        v.push(Move::F2);
        v.push(Move::B);
        v.push(Move::Bp);
        v.push(Move::B2);
        proof {
            assert(v@ =~= g1_pool());
        }
        v
    }

    fn indexer(&self, cube: &Cube) -> (r: usize) {
        let r = cube.get_edge_orientation(&Edge::UR) as usize + 2 * cube.get_edge_orientation(
            &Edge::UB,
        ) as usize + 4 * cube.get_edge_orientation(&Edge::UL) as usize + 8
            * cube.get_edge_orientation(&Edge::UF) as usize + 16 * cube.get_edge_orientation(
            &Edge::RF,
        ) as usize + 32 * cube.get_edge_orientation(&Edge::RB) as usize + 64
            * cube.get_edge_orientation(&Edge::LB) as usize + 128 * cube.get_edge_orientation(
            &Edge::LF,
        ) as usize + 256 * cube.get_edge_orientation(&Edge::DR) as usize + 512
            * cube.get_edge_orientation(&Edge::DB) as usize + 1024 * cube.get_edge_orientation(
            &Edge::DL,
        ) as usize;
        r
    }
}

/// The seven leading corner twists as a base-three number (the eighth is
/// fixed by the twist-sum invariant).
pub open spec fn g2_corner_index(v: CubeView) -> int {
    v.co[0] + 3 * v.co[1] + 9 * v.co[2] + 27 * v.co[3] + 81 * v.co[4] + 243 * v.co[5] + 729
        * v.co[6]
}

/// The current slots of the four E-slice pieces RF, RB, LB, LF.
pub open spec fn g2_eslice_slots(v: CubeView) -> Seq<u8> {
    map_idx(seq![4u8, 5u8, 6u8, 7u8], v.edges)
}

/// Corner-twist number times 495 plus the co-lex rank of the E-slice
/// occupancy among the twelve slots.
pub open spec fn g2_index(v: CubeView) -> int {
    g2_corner_index(v) * 495 + comb_rank(g2_eslice_slots(v), iota(12))
}

impl Stage for G2 {
    open spec fn spec_size(&self) -> int {
        1082565
    }

    open spec fn spec_pool(&self) -> Seq<Move> {
        g2_pool()
    }

    open spec fn spec_domain(&self, v: CubeView) -> bool {
        true
    }

    open spec fn spec_index(&self, v: CubeView) -> int {
        g2_index(v)
    }

    proof fn lemma_solved(&self) {
    }

    fn size(&self) -> (r: usize) {
        1082565
    }

    fn move_pool(&self) -> (r: Vec<Move>) {
        let mut v: Vec<Move> = Vec::new();
        v.push(Move::U);
        v.push(Move::Up);
        v.push(Move::U2);
        v.push(Move::L);
        v.push(Move::Lp);
        v.push(Move::L2);
        v.push(Move::D);
        v.push(Move::Dp);
        v.push(Move::D2);
        v.push(Move::R);
        v.push(Move::Rp);
        v.push(Move::R2);
        v.push(Move::F2);
        v.push(Move::B2);
        proof {
            assert(v@ =~= g2_pool());
        }
        v
    }

    fn indexer(&self, cube: &Cube) -> (r: usize) {
        let corner_part = cube.get_corner_orientation(&Corner::URF) as usize + 3
            * cube.get_corner_orientation(&Corner::URB) as usize + 9 * cube.get_corner_orientation(
            &Corner::ULB,
        ) as usize + 27 * cube.get_corner_orientation(&Corner::ULF) as usize + 81
            * cube.get_corner_orientation(&Corner::DRB) as usize + 243
            * cube.get_corner_orientation(&Corner::DRF) as usize + 729
            * cube.get_corner_orientation(&Corner::DLF) as usize;
        let mut pieces: Vec<u8> = Vec::new();
        pieces.push(4);
        pieces.push(5);
        pieces.push(6);
        pieces.push(7);
        proof {
            assert(pieces@ =~= seq![4u8, 5u8, 6u8, 7u8]);
        }
        let slots = edge_positions(cube, &pieces);
        let ground = range_vec(12);
        proof {
            assert forall|i: int| 0 <= i < slots@.len() implies ground@.contains(slots@[i]) by {
                assert(ground@[slots@[i] as int] == slots@[i]);
            }
            lemma_binom_values();
        }
        let eslice = combination_rank(&slots, &ground);
        corner_part * 495 + eslice
    }
}

/// All twelve edge flips are zero.
pub open spec fn eo_zero(v: CubeView) -> bool {
    forall|i: int| 0 <= i < 12 ==> v.eo[i] == 0
}

proof fn lemma_eo_zero_u(v: CubeView)
    requires
        dims_ok(v),
        eo_zero(v),
    ensures
        eo_zero(spec_u(v)),
        dims_ok(spec_u(v)),
{
}

proof fn lemma_eo_zero_d(v: CubeView)
    requires
        dims_ok(v),
        eo_zero(v),
    ensures
        eo_zero(spec_d(v)),
        dims_ok(spec_d(v)),
{
}

proof fn lemma_eo_zero_r(v: CubeView)
    requires
        dims_ok(v),
        eo_zero(v),
    ensures
        eo_zero(spec_r(v)),
        dims_ok(spec_r(v)),
{
}

proof fn lemma_eo_zero_l(v: CubeView)
    requires
        dims_ok(v),
        eo_zero(v),
    ensures
        eo_zero(spec_l(v)),
        dims_ok(spec_l(v)),
{
}

proof fn lemma_eo_zero_f2(v: CubeView)
    requires
        dims_ok(v),
        eo_zero(v),
    ensures
        eo_zero(spec_f(spec_f(v))),
        dims_ok(spec_f(spec_f(v))),
{
    let w = spec_f(spec_f(v));
    assert forall|i: int| 0 <= i < 12 implies w.eo[i] == 0 by {
        assert(w.eo[3] == 0 && w.eo[4] == 0 && w.eo[7] == 0 && w.eo[11] == 0);
    }
}

proof fn lemma_eo_zero_b2(v: CubeView)
    requires
        dims_ok(v),
        eo_zero(v),
    ensures
        eo_zero(spec_b(spec_b(v))),
        dims_ok(spec_b(spec_b(v))),
{
    let w = spec_b(spec_b(v));
    assert forall|i: int| 0 <= i < 12 implies w.eo[i] == 0 by {
        assert(w.eo[1] == 0 && w.eo[5] == 0 && w.eo[6] == 0 && w.eo[9] == 0);
    }
}

/// Coordinate invariance: once every edge is oriented (the stage-one
/// coordinate is zero), every move of stage two's pool keeps it so: the
/// remaining quarter turns permute flips without creating any, and F2 and
/// B2 flip each edge they touch twice.
pub proof fn lemma_g1_invariance(v: CubeView, m: Move)
    requires
        wf(v),
        g2_pool().contains(m),
        g1_index(v) == 0,
    ensures
        g1_index(spec_turn(v, m)) == 0,
{
    assert(forall|i: int| 0 <= i < 12 ==> v.eo[i] < 2);
    assert(v.eo[0] == 0 && v.eo[1] == 0 && v.eo[2] == 0 && v.eo[3] == 0 && v.eo[4] == 0
        && v.eo[5] == 0 && v.eo[6] == 0 && v.eo[7] == 0 && v.eo[8] == 0 && v.eo[9] == 0
        && v.eo[10] == 0);
    assert(v.eo[11] == 0);
    assert(eo_zero(v));
    match m {
        Move::U => lemma_eo_zero_u(v),
        Move::U2 => {
            lemma_eo_zero_u(v);
            lemma_eo_zero_u(spec_u(v));
        },
        Move::Up => {
            lemma_eo_zero_u(v);
            lemma_eo_zero_u(spec_u(v));
            lemma_eo_zero_u(spec_u(spec_u(v)));
        },
        Move::D => lemma_eo_zero_d(v),
        Move::D2 => {
            lemma_eo_zero_d(v);
            lemma_eo_zero_d(spec_d(v));
        },
        Move::Dp => {
            lemma_eo_zero_d(v);
            lemma_eo_zero_d(spec_d(v));
            lemma_eo_zero_d(spec_d(spec_d(v)));
        },
        Move::R => lemma_eo_zero_r(v),
        Move::R2 => {
            lemma_eo_zero_r(v);
            lemma_eo_zero_r(spec_r(v));
        },
        Move::Rp => {
            lemma_eo_zero_r(v);
            lemma_eo_zero_r(spec_r(v));
            lemma_eo_zero_r(spec_r(spec_r(v)));
        },
        Move::L => lemma_eo_zero_l(v),
        Move::L2 => {
            lemma_eo_zero_l(v);
            lemma_eo_zero_l(spec_l(v));
        },
        Move::Lp => {
            lemma_eo_zero_l(v);
            lemma_eo_zero_l(spec_l(v));
            lemma_eo_zero_l(spec_l(spec_l(v)));
        },
        Move::F2 => lemma_eo_zero_f2(v),
        Move::B2 => lemma_eo_zero_b2(v),
        Move::F | Move::Fp | Move::B | Move::Bp => {
            assert(!g2_pool().contains(m));
        },
    }
}

/// All eight corner twists are zero.
pub open spec fn co_zero(v: CubeView) -> bool {
    forall|i: int| 0 <= i < 8 ==> v.co[i] == 0
}

/// Every slot outside the E-slice holds a piece from outside the E-slice —
/// equivalently, the four E-slice pieces RF, RB, LB, LF all sit in E-slice
/// slots.
pub open spec fn eslice_home(v: CubeView) -> bool {
    forall|j: int| (0 <= j < 4 || 8 <= j < 12) ==> !(4 <= #[trigger] v.edges[j] < 8)
}

proof fn lemma_g2_home_u(v: CubeView)
    requires
        dims_ok(v),
        co_zero(v),
        eslice_home(v),
    ensures
        dims_ok(spec_u(v)),
        co_zero(spec_u(v)),
        eslice_home(spec_u(v)),
{
    let w = spec_u(v);
    assert(w.edges[0] == v.edges[1] && w.edges[1] == v.edges[2] && w.edges[2] == v.edges[3]
        && w.edges[3] == v.edges[0]);
}

proof fn lemma_g2_home_d(v: CubeView)
    requires
        dims_ok(v),
        co_zero(v),
        eslice_home(v),
    ensures
        dims_ok(spec_d(v)),
        co_zero(spec_d(v)),
        eslice_home(spec_d(v)),
{
    let w = spec_d(v);
    assert(w.edges[8] == v.edges[11] && w.edges[9] == v.edges[8] && w.edges[10] == v.edges[9]
        && w.edges[11] == v.edges[10]);
}

proof fn lemma_g2_home_l2(v: CubeView)
    requires
        dims_ok(v),
        co_zero(v),
        eslice_home(v),
    ensures
        dims_ok(spec_l(spec_l(v))),
        co_zero(spec_l(spec_l(v))),
        eslice_home(spec_l(spec_l(v))),
{
    let w = spec_l(spec_l(v));
    assert(w.edges[2] == v.edges[10] && w.edges[10] == v.edges[2]);
    assert(w.co[3] == 0 && w.co[6] == 0 && w.co[7] == 0 && w.co[2] == 0);
}

proof fn lemma_g2_home_r2(v: CubeView)
    requires
        dims_ok(v),
        co_zero(v),
        eslice_home(v),
    ensures
        dims_ok(spec_r(spec_r(v))),
        co_zero(spec_r(spec_r(v))),
        eslice_home(spec_r(spec_r(v))),
{
    let w = spec_r(spec_r(v));
    assert(w.edges[0] == v.edges[8] && w.edges[8] == v.edges[0]);
    assert(w.co[0] == 0 && w.co[1] == 0 && w.co[4] == 0 && w.co[5] == 0);
}

proof fn lemma_g2_home_f2(v: CubeView)
    requires
        dims_ok(v),
        co_zero(v),
        eslice_home(v),
    ensures
        dims_ok(spec_f(spec_f(v))),
        co_zero(spec_f(spec_f(v))),
        eslice_home(spec_f(spec_f(v))),
{
    let w = spec_f(spec_f(v));
    assert(w.edges[3] == v.edges[11] && w.edges[11] == v.edges[3]);
    assert(w.co[0] == 0 && w.co[3] == 0 && w.co[5] == 0 && w.co[6] == 0);
}

proof fn lemma_g2_home_b2(v: CubeView)
    requires
        dims_ok(v),
        co_zero(v),
        eslice_home(v),
    ensures
        dims_ok(spec_b(spec_b(v))),
        co_zero(spec_b(spec_b(v))),
        eslice_home(spec_b(spec_b(v))),
{
    let w = spec_b(spec_b(v));
    assert(w.edges[1] == v.edges[9] && w.edges[9] == v.edges[1]);
    assert(w.co[1] == 0 && w.co[2] == 0 && w.co[4] == 0 && w.co[7] == 0);
}

/// A state with all corners oriented and the E-slice pieces home sits at
/// the stage-two coordinate of the solved cube, 69.
pub proof fn lemma_g2_home_index(v: CubeView)
    requires
        wf(v),
        co_zero(v),
        eslice_home(v),
    ensures
        g2_index(v) == 69,
{
    lemma_wf_no_dup(v);
    lemma_binom_values();
    let q = g2_eslice_slots(v);
    assert forall|i: int| 0 <= i < 4 implies 4 <= #[trigger] q[i] && q[i] < 8 by {
        let p: u8 = (4 + i) as u8;
        assert(v.edges.contains(p));
        let j = idx_of(v.edges, p);
        assert(0 <= j < 12 && v.edges[j] == p);
        assert(4 <= j < 8);
    }
    assert forall|i: int, j: int| 0 <= i < j < 4 implies q[i] != q[j] by {
        assert(v.edges.contains((4 + i) as u8));
        assert(v.edges.contains((4 + j) as u8));
        if q[i] == q[j] {
            assert(v.edges[idx_of(v.edges, (4 + i) as u8)] == (4 + i) as u8);
            assert(v.edges[idx_of(v.edges, (4 + j) as u8)] == (4 + j) as u8);
        }
    }
    assert(q.no_duplicates());
    q.lemma_multiset_has_no_duplicates();
    let leq = u8_le();
    q.lemma_sort_by_ensures(leq);
    let t = sort_u8(q);
    broadcast use vstd::seq_lib::group_to_multiset_ensures;

    assert(t.to_multiset().len() == t.len());
    assert(q.to_multiset().len() == q.len());
    t.lemma_multiset_has_no_duplicates_conv();
    assert forall|i: int| 0 <= i < t.len() implies 4 <= #[trigger] t[i] && t[i] < 8 by {
        assert(t.to_multiset().contains(t[i]));
        assert(q.contains(t[i]));
    }
    assert(t.len() == 4);
    assert(leq(t[0], t[1]) && leq(t[1], t[2]) && leq(t[2], t[3]));
    assert(t[0] != t[1] && t[1] != t[2] && t[2] != t[3] && t[0] != t[2] && t[0] != t[3] && t[1]
        != t[3]);
    assert(t =~= seq![4u8, 5u8, 6u8, 7u8]);
    assert(seq![4u8, 5u8, 6u8, 7u8].drop_last() =~= seq![4u8, 5u8, 6u8]);
    assert(seq![4u8, 5u8, 6u8].drop_last() =~= seq![4u8, 5u8]);
    assert(seq![4u8, 5u8].drop_last() =~= seq![4u8]);
    assert(seq![4u8].drop_last() =~= Seq::<u8>::empty());
    assert(crank(Seq::<u8>::empty()) == 0);
    assert(crank(seq![4u8]) == crank(seq![4u8].drop_last()) + spec_binom(4, 1));
    assert(crank(seq![4u8, 5u8]) == crank(seq![4u8, 5u8].drop_last()) + spec_binom(5, 2));
    assert(crank(seq![4u8, 5u8, 6u8]) == crank(seq![4u8, 5u8, 6u8].drop_last()) + spec_binom(
        6,
        3,
    ));
    assert(crank(seq![4u8, 5u8, 6u8, 7u8]) == crank(seq![4u8, 5u8, 6u8, 7u8].drop_last())
        + spec_binom(7, 4));
    assert(crank(seq![4u8, 5u8, 6u8, 7u8]) == 69);
    assert(iota(12).no_duplicates());
    assert forall|i: int| 0 <= i < 4 implies #[trigger] map_idx(q, iota(12))[i] == q[i] by {
        assert(iota(12)[q[i] as int] == q[i]);
        lemma_idx_of_unique(iota(12), q[i], q[i] as int);
    }
    assert(map_idx(q, iota(12)) =~= q);
    assert(comb_rank(q, iota(12)) == crank(t));
    assert(g2_corner_index(v) == 0);
}

/// Coordinate invariance: a state in stage two's target class (corners
/// oriented, E-slice pieces home) stays in it under every move of stage
/// three's pool, and its stage-two coordinate stays at the solved cube's
/// value.
#[verifier::rlimit(100)]
#[verifier::spinoff_prover]
pub proof fn lemma_g2_invariance(v: CubeView, m: Move)
    requires
        wf(v),
        g3_pool().contains(m),
        co_zero(v),
        eslice_home(v),
    ensures
        co_zero(spec_turn(v, m)),
        eslice_home(spec_turn(v, m)),
        g2_index(spec_turn(v, m)) == g2_index(v),
{
    lemma_g2_home_index(v);
    lemma_turn_wf(v, m);
    match m {
        Move::U => lemma_g2_home_u(v),
        Move::U2 => {
            lemma_g2_home_u(v);
            lemma_g2_home_u(spec_u(v));
        },
        Move::Up => {
            lemma_g2_home_u(v);
            lemma_g2_home_u(spec_u(v));
            lemma_g2_home_u(spec_u(spec_u(v)));
        },
        Move::D => lemma_g2_home_d(v),
        Move::D2 => {
            lemma_g2_home_d(v);
            lemma_g2_home_d(spec_d(v));
        },
        Move::Dp => {
            lemma_g2_home_d(v);
            lemma_g2_home_d(spec_d(v));
            lemma_g2_home_d(spec_d(spec_d(v)));
        },
        Move::L2 => lemma_g2_home_l2(v),
        Move::R2 => lemma_g2_home_r2(v),
        Move::F2 => lemma_g2_home_f2(v),
        Move::B2 => lemma_g2_home_b2(v),
        _ => {
            assert(!g3_pool().contains(m));
        },
    }
    lemma_g2_home_index(spec_turn(v, m));
}

/// Stage three: confine the corner pieces to their tetrad pairs, the
/// M-slice edge pieces to the M/S region, and fix the corner swap parity.
/// Only U and D keep their quarter turns.
#[derive(Clone, Copy)]
pub struct G3;

/// Stage four: finish inside the half-turn-only subgroup.
#[derive(Clone, Copy)]
pub struct G4;

pub open spec fn g3_pool() -> Seq<Move> {
    seq![
        Move::U,
        Move::Up,
        Move::U2,
        Move::L2,
        Move::D,
        Move::Dp,
        Move::D2,
        Move::R2,
        Move::F2,
        Move::B2,
    ]
}

pub open spec fn g4_pool() -> Seq<Move> {
    seq![Move::U2, Move::L2, Move::D2, Move::R2, Move::F2, Move::B2]
}

/// The eight corners in paired order: the first tetrad's two pairs, then the
/// second tetrad's two pairs.
pub open spec fn g3_paired() -> Seq<u8> {
    seq![0u8, 2u8, 4u8, 6u8, 1u8, 3u8, 5u8, 7u8]
}

/// The current slots of the paired corners, in paired order.
pub open spec fn g3_cpos(v: CubeView) -> Seq<u8> {
    map_idx(g3_paired(), v.corners)
}

/// Three successive pair ranks: each pair of corner slots is ranked in the
/// ordered ground set left over by the pairs before it.
pub open spec fn g3_pair_index(v: CubeView) -> int {
    let p = g3_cpos(v);
    let r1 = comb_rank(p.subrange(0, 2), g3_paired());
    let rem1 = remove2(g3_paired(), p[0], p[1]);
    let r2 = comb_rank(p.subrange(2, 4), rem1);
    let rem2 = remove2(rem1, p[2], p[3]);
    let r3 = comb_rank(p.subrange(4, 6), rem2);
    ((r1 * 15 + r2) * 6 + r3) as int
}

/// The eight edge slots outside the E-slice, M-slice first.
pub open spec fn g3_remaining() -> Seq<u8> {
    seq![3u8, 11u8, 9u8, 1u8, 0u8, 2u8, 10u8, 8u8]
}

/// The current slots of the four M-slice pieces UF, DF, DB, UB.
pub open spec fn g3_mslice_slots(v: CubeView) -> Seq<u8> {
    map_idx(seq![3u8, 11u8, 9u8, 1u8], v.edges)
}

/// Pair index, M-slice occupancy rank and corner swap parity combined.
pub open spec fn g3_index(v: CubeView) -> int {
    let parity: int = if perm_parity(g3_cpos(v), g3_paired()) {
        1
    } else {
        0
    };
    (g3_pair_index(v) * 70 + comb_rank(g3_mslice_slots(v), g3_remaining())) * 2 + parity
}

/// The M-slice pieces sit outside the E-slice (granted once stage two is
/// done).
pub open spec fn g3_domain(v: CubeView) -> bool {
    forall|i: int| 0 <= i < 4 ==> g3_remaining().contains(#[trigger] g3_mslice_slots(v)[i])
}

impl Stage for G3 {
    open spec fn spec_size(&self) -> int {
        352800
    }

    open spec fn spec_pool(&self) -> Seq<Move> {
        g3_pool()
    }

    open spec fn spec_domain(&self, v: CubeView) -> bool {
        g3_domain(v)
    }

    open spec fn spec_index(&self, v: CubeView) -> int {
        g3_index(v)
    }

    proof fn lemma_solved(&self) {
        let v = solved_view();
        lemma_solved_wf();
        lemma_wf_no_dup(v);
        assert(v.edges[3] == 3 && v.edges[11] == 11 && v.edges[9] == 9 && v.edges[1] == 1);
        lemma_idx_of_unique(v.edges, 3, 3);
        lemma_idx_of_unique(v.edges, 11, 11);
        lemma_idx_of_unique(v.edges, 9, 9);
        lemma_idx_of_unique(v.edges, 1, 1);
        assert forall|i: int| 0 <= i < 4 implies g3_remaining().contains(
            #[trigger] g3_mslice_slots(v)[i],
        ) by {
            if i == 0 {
                assert(g3_mslice_slots(v)[0] == 3);
                assert(g3_remaining()[0] == 3);
            } else if i == 1 {
                assert(g3_mslice_slots(v)[1] == 11);
                assert(g3_remaining()[1] == 11);
            } else if i == 2 {
                assert(g3_mslice_slots(v)[2] == 9);
                assert(g3_remaining()[2] == 9);
            } else {
                assert(g3_mslice_slots(v)[3] == 1);
                assert(g3_remaining()[3] == 1);
            }
        }
    }

    fn size(&self) -> (r: usize) {
        352800
    }

    fn move_pool(&self) -> (r: Vec<Move>) {
        let mut v: Vec<Move> = Vec::new();
        v.push(Move::U);
        v.push(Move::Up);
        v.push(Move::U2);
        v.push(Move::L2);
        v.push(Move::D);
        v.push(Move::Dp);
        v.push(Move::D2);
        v.push(Move::R2);
        v.push(Move::F2);
        v.push(Move::B2);
        proof {
            assert(v@ =~= g3_pool());
        }
        v
    }

    #[verifier::rlimit(100)]
    fn indexer(&self, cube: &Cube) -> (r: usize) {
        proof {
            lemma_binom_values();
        }
        let mut paired: Vec<u8> = Vec::new();
        paired.push(0);
        paired.push(2);
        paired.push(4);
        paired.push(6);
        paired.push(1);
        paired.push(3);
        paired.push(5);
        paired.push(7);
        proof {
            assert(paired@ =~= g3_paired());
            assert(paired@.no_duplicates());
            assert forall|x: u8| x < 8 implies paired@.contains(x) by {
                if x == 0 {
                    assert(paired@[0] == x);
                } else if x == 2 {
                    assert(paired@[1] == x);
                } else if x == 4 {
                    assert(paired@[2] == x);
                } else if x == 6 {
                    assert(paired@[3] == x);
                } else if x == 1 {
                    assert(paired@[4] == x);
                } else if x == 3 {
                    assert(paired@[5] == x);
                } else if x == 5 {
                    assert(paired@[6] == x);
                } else {
                    assert(paired@[7] == x);
                }
            }
        }
        let cp = corner_positions(cube, &paired);
        let mut pair1: Vec<u8> = Vec::new();
        pair1.push(cp[0]);
        pair1.push(cp[1]);
        proof {
            assert(pair1@ =~= cp@.subrange(0, 2));
        }
        let r1 = combination_rank(&pair1, &paired);
        let rem1 = remove_two(&paired, cp[0], cp[1]);
        proof {
            lemma_remove2_props(paired@, cp@[0], cp@[1]);
        }
        let mut pair2: Vec<u8> = Vec::new();
        pair2.push(cp[2]);
        pair2.push(cp[3]);
        proof {
            assert(pair2@ =~= cp@.subrange(2, 4));
            assert(rem1@.contains(cp@[2]));
            assert(rem1@.contains(cp@[3]));
        }
        let r2 = combination_rank(&pair2, &rem1);
        let rem2 = remove_two(&rem1, cp[2], cp[3]);
        proof {
            lemma_remove2_props(rem1@, cp@[2], cp@[3]);
        }
        let mut pair3: Vec<u8> = Vec::new();
        pair3.push(cp[4]);
        pair3.push(cp[5]);
        proof {
            assert(pair3@ =~= cp@.subrange(4, 6));
            assert(rem2@.contains(cp@[4]));
            assert(rem2@.contains(cp@[5]));
        }
        let r3 = combination_rank(&pair3, &rem2);
        let pair_idx = (r1 * 15 + r2) * 6 + r3;
        let odd = permutation_parity(&cp, &paired);
        let mut mp: Vec<u8> = Vec::new();
        mp.push(3);
        mp.push(11);
        mp.push(9);
        mp.push(1);
        proof {
            assert(mp@ =~= seq![3u8, 11u8, 9u8, 1u8]);
        }
        let mpos = edge_positions(cube, &mp);
        let mut remaining: Vec<u8> = Vec::new();
        remaining.push(3);
        remaining.push(11);
        remaining.push(9);
        remaining.push(1);
        remaining.push(0);
        remaining.push(2);
        remaining.push(10);
        remaining.push(8);
        proof {
            assert(remaining@ =~= g3_remaining());
            assert(remaining@.no_duplicates());
        }
        let mut i: usize = 0;
        while i < 4
            invariant
                i <= 4,
                mpos@.len() == 4,
                remaining@ == g3_remaining(),
                mpos@ == g3_mslice_slots(cube@),
                forall|j: int| 0 <= j < i ==> remaining@.contains(#[trigger] mpos@[j]),
            decreases 4 - i,
        {
            match find_in(&remaining, mpos[i]) {
                Some(_) => {},
                None => {
                    proof {
                        assert(!g3_remaining().contains(g3_mslice_slots(cube@)[i as int]));
                    }
                    return 0;
                },
            }
            i += 1;
        }
        let m_idx = combination_rank(&mpos, &remaining);
        let par: usize = if odd {
            1
        } else {
            0
        };
        (pair_idx * 70 + m_idx) * 2 + par
    }
}

/// Slot form of the stage-three domain: no E-slice slot holds an M-slice
/// piece.
spec fn g3_domain_slots(v: CubeView) -> bool {
    forall|j: int|
        4 <= j < 8 ==> !(#[trigger] v.edges[j] == 3 || v.edges[j] == 11 || v.edges[j] == 9
            || v.edges[j] == 1)
}

/// On well-formed states the piece-indexed and slot-indexed readings of the
/// stage-three domain agree.
proof fn lemma_g3_domain_forms(v: CubeView)
    requires
        wf(v),
    ensures
        g3_domain(v) <==> g3_domain_slots(v),
{
    lemma_wf_no_dup(v);
    let pieces = seq![3u8, 11u8, 9u8, 1u8];
    if g3_domain(v) {
        assert forall|j: int|
            4 <= j < 8 implies !(#[trigger] v.edges[j] == 3 || v.edges[j] == 11 || v.edges[j]
            == 9 || v.edges[j] == 1) by {
            let p = v.edges[j];
            if p == 3 || p == 11 || p == 9 || p == 1 {
                let i: int = if p == 3 {
                    0
                } else if p == 11 {
                    1
                } else if p == 9 {
                    2
                } else {
                    3
                };
                assert(pieces[i] == p);
                lemma_idx_of_unique(v.edges, p, j);
                assert(g3_mslice_slots(v)[i] == j);
                assert(g3_remaining().contains(g3_mslice_slots(v)[i]));
                let k = choose|k: int|
                    0 <= k < g3_remaining().len() && g3_remaining()[k] == j as u8;
                assert(false);
            }
        }
    }
    if g3_domain_slots(v) {
        assert forall|i: int| 0 <= i < 4 implies g3_remaining().contains(
            #[trigger] g3_mslice_slots(v)[i],
        ) by {
            let p = pieces[i];
            assert(v.edges.contains(p));
            let j = idx_of(v.edges, p);
            assert(0 <= j < 12 && v.edges[j] == p);
            assert(g3_mslice_slots(v)[i] == j as u8);
            assert(!(4 <= j < 8));
            if j == 3 {
                assert(g3_remaining()[0] == j as u8);
            } else if j == 11 {
                assert(g3_remaining()[1] == j as u8);
            } else if j == 9 {
                assert(g3_remaining()[2] == j as u8);
            } else if j == 1 {
                assert(g3_remaining()[3] == j as u8);
            } else if j == 0 {
                assert(g3_remaining()[4] == j as u8);
            } else if j == 2 {
                assert(g3_remaining()[5] == j as u8);
            } else if j == 10 {
                assert(g3_remaining()[6] == j as u8);
            } else {
                assert(j == 8);
                assert(g3_remaining()[7] == j as u8);
            }
        }
    }
}

proof fn lemma_g3_slots_u(v: CubeView)
    requires
        dims_ok(v),
        g3_domain_slots(v),
    ensures
        dims_ok(spec_u(v)),
        g3_domain_slots(spec_u(v)),
{
    let w = spec_u(v);
    assert(w.edges[4] == v.edges[4] && w.edges[5] == v.edges[5] && w.edges[6] == v.edges[6]
        && w.edges[7] == v.edges[7]);
}

proof fn lemma_g3_slots_d(v: CubeView)
    requires
        dims_ok(v),
        g3_domain_slots(v),
    ensures
        dims_ok(spec_d(v)),
        g3_domain_slots(spec_d(v)),
{
    let w = spec_d(v);
    assert(w.edges[4] == v.edges[4] && w.edges[5] == v.edges[5] && w.edges[6] == v.edges[6]
        && w.edges[7] == v.edges[7]);
}

proof fn lemma_g3_slots_l2(v: CubeView)
    requires
        dims_ok(v),
        g3_domain_slots(v),
    ensures
        dims_ok(spec_l(spec_l(v))),
        g3_domain_slots(spec_l(spec_l(v))),
{
    let w = spec_l(spec_l(v));
    assert(w.edges[4] == v.edges[4] && w.edges[5] == v.edges[5] && w.edges[6] == v.edges[7]
        && w.edges[7] == v.edges[6]);
}

proof fn lemma_g3_slots_r2(v: CubeView)
    requires
        dims_ok(v),
        g3_domain_slots(v),
    ensures
        dims_ok(spec_r(spec_r(v))),
        g3_domain_slots(spec_r(spec_r(v))),
{
    let w = spec_r(spec_r(v));
    assert(w.edges[4] == v.edges[5] && w.edges[5] == v.edges[4] && w.edges[6] == v.edges[6]
        && w.edges[7] == v.edges[7]);
}

proof fn lemma_g3_slots_f2(v: CubeView)
    requires
        dims_ok(v),
        g3_domain_slots(v),
    ensures
        dims_ok(spec_f(spec_f(v))),
        g3_domain_slots(spec_f(spec_f(v))),
{
    let w = spec_f(spec_f(v));
    assert(w.edges[4] == v.edges[7] && w.edges[5] == v.edges[5] && w.edges[6] == v.edges[6]
        && w.edges[7] == v.edges[4]);
}

proof fn lemma_g3_slots_b2(v: CubeView)
    requires
        dims_ok(v),
        g3_domain_slots(v),
    ensures
        dims_ok(spec_b(spec_b(v))),
        g3_domain_slots(spec_b(spec_b(v))),
{
    let w = spec_b(spec_b(v));
    assert(w.edges[4] == v.edges[4] && w.edges[5] == v.edges[6] && w.edges[6] == v.edges[5]
        && w.edges[7] == v.edges[7]);
}

/// Stage three's pool keeps its domain: no move of the pool brings an
/// M-slice piece into the E-slice.
pub proof fn lemma_g3_domain_closed(v: CubeView, m: Move)
    requires
        wf(v),
        g3_domain(v),
        g3_pool().contains(m),
    ensures
        g3_domain(spec_turn(v, m)),
{
    lemma_g3_domain_forms(v);
    match m {
        Move::U => lemma_g3_slots_u(v),
        Move::U2 => {
            lemma_g3_slots_u(v);
            lemma_g3_slots_u(spec_u(v));
        },
        Move::Up => {
            lemma_g3_slots_u(v);
            lemma_g3_slots_u(spec_u(v));
            lemma_g3_slots_u(spec_u(spec_u(v)));
        },
        Move::D => lemma_g3_slots_d(v),
        Move::D2 => {
            lemma_g3_slots_d(v);
            lemma_g3_slots_d(spec_d(v));
        },
        Move::Dp => {
            lemma_g3_slots_d(v);
            lemma_g3_slots_d(spec_d(v));
            lemma_g3_slots_d(spec_d(spec_d(v)));
        },
        Move::L2 => lemma_g3_slots_l2(v),
        Move::R2 => lemma_g3_slots_r2(v),
        Move::F2 => lemma_g3_slots_f2(v),
        Move::B2 => lemma_g3_slots_b2(v),
        _ => {
            assert(!g3_pool().contains(m));
        },
    }
    lemma_turn_wf(v, m);
    lemma_g3_domain_forms(spec_turn(v, m));
}

/// The first tetrad, in its fixed order URF, ULB, DRB, DLF.
pub open spec fn g4_t1() -> Seq<u8> {
    seq![0u8, 2u8, 4u8, 6u8]
}

/// The second tetrad, in its fixed order URB, ULF, DRF, DLB.
pub open spec fn g4_t2() -> Seq<u8> {
    seq![1u8, 3u8, 5u8, 7u8]
}

/// The E-slice slots RF, RB, LB, LF.
pub open spec fn g4_eslice() -> Seq<u8> {
    seq![4u8, 5u8, 6u8, 7u8]
}

/// The M-slice slots UF, DF, DB, UB.
pub open spec fn g4_mslice() -> Seq<u8> {
    seq![3u8, 11u8, 9u8, 1u8]
}

/// The S-slice slots UR, UL, DL, DR.
pub open spec fn g4_sslice() -> Seq<u8> {
    seq![0u8, 2u8, 10u8, 8u8]
}

/// First-tetrad permutation rank and the locator of URB within the second
/// tetrad.
pub open spec fn g4_corner_index(v: CubeView) -> int {
    perm_rank(map_idx(g4_t1(), v.corners), g4_t1()) * 4 + idx_of(
        g4_t2(),
        idx_of(v.corners, 1) as u8,
    )
}

/// The positions of UR and UL within the S-slice reference.
pub open spec fn g4_spair(v: CubeView) -> Seq<u8> {
    seq![
        idx_of(g4_sslice(), idx_of(v.edges, 0) as u8) as u8,
        idx_of(g4_sslice(), idx_of(v.edges, 2) as u8) as u8,
    ]
}

/// The S-slice descriptor: combination rank of the UR/UL locators doubled,
/// plus one when they appear in ascending order.
pub open spec fn g4_s_index(v: CubeView) -> int {
    comb_rank(g4_spair(v), iota(4)) * 2 + (if g4_spair(v)[0] < g4_spair(v)[1] {
        1int
    } else {
        0int
    })
}

/// S-slice descriptor, M-slice permutation rank and E-slice permutation
/// rank combined, then the corner index.
pub open spec fn g4_index(v: CubeView) -> int {
    ((g4_s_index(v) * 24 + perm_rank(map_idx(g4_mslice(), v.edges), g4_mslice())) * 24 + perm_rank(
        map_idx(g4_eslice(), v.edges),
        g4_eslice(),
    )) * 96 + g4_corner_index(v)
}

/// Every piece rests inside its own slice or tetrad (granted once stage
/// three is done).
pub open spec fn g4_domain(v: CubeView) -> bool {
    &&& forall|i: int|
        0 <= i < 4 ==> g4_t1().contains(#[trigger] map_idx(g4_t1(), v.corners)[i])
    &&& g4_t2().contains(idx_of(v.corners, 1) as u8)
    &&& forall|i: int|
        0 <= i < 4 ==> g4_eslice().contains(#[trigger] map_idx(g4_eslice(), v.edges)[i])
    &&& forall|i: int|
        0 <= i < 4 ==> g4_mslice().contains(#[trigger] map_idx(g4_mslice(), v.edges)[i])
    &&& g4_sslice().contains(idx_of(v.edges, 0) as u8)
    &&& g4_sslice().contains(idx_of(v.edges, 2) as u8)
}

impl Stage for G4 {
    open spec fn spec_size(&self) -> int {
        663552
    }

    open spec fn spec_pool(&self) -> Seq<Move> {
        g4_pool()
    }

    open spec fn spec_domain(&self, v: CubeView) -> bool {
        g4_domain(v)
    }

    open spec fn spec_index(&self, v: CubeView) -> int {
        g4_index(v)
    }

    proof fn lemma_solved(&self) {
        let v = solved_view();
        lemma_solved_wf();
        lemma_wf_no_dup(v);
        assert(v.corners[0] == 0 && v.corners[2] == 2 && v.corners[4] == 4 && v.corners[6] == 6
            && v.corners[1] == 1);
        lemma_idx_of_unique(v.corners, 0, 0);
        lemma_idx_of_unique(v.corners, 2, 2);
        lemma_idx_of_unique(v.corners, 4, 4);
        lemma_idx_of_unique(v.corners, 6, 6);
        lemma_idx_of_unique(v.corners, 1, 1);
        lemma_idx_of_unique(v.edges, 4, 4);
        lemma_idx_of_unique(v.edges, 5, 5);
        lemma_idx_of_unique(v.edges, 6, 6);
        lemma_idx_of_unique(v.edges, 7, 7);
        lemma_idx_of_unique(v.edges, 3, 3);
        lemma_idx_of_unique(v.edges, 11, 11);
        lemma_idx_of_unique(v.edges, 9, 9);
        lemma_idx_of_unique(v.edges, 1, 1);
        lemma_idx_of_unique(v.edges, 0, 0);
        lemma_idx_of_unique(v.edges, 2, 2);
        assert forall|i: int| 0 <= i < 4 implies g4_t1().contains(
            #[trigger] map_idx(g4_t1(), v.corners)[i],
        ) by {
            assert(map_idx(g4_t1(), v.corners)[i] == g4_t1()[i]);
        }
        assert(g4_t2()[0] == 1);
        assert(g4_t2().contains(idx_of(v.corners, 1) as u8));
        assert forall|i: int| 0 <= i < 4 implies g4_eslice().contains(
            #[trigger] map_idx(g4_eslice(), v.edges)[i],
        ) by {
            assert(map_idx(g4_eslice(), v.edges)[i] == g4_eslice()[i]);
        }
        assert forall|i: int| 0 <= i < 4 implies g4_mslice().contains(
            #[trigger] map_idx(g4_mslice(), v.edges)[i],
        ) by {
            assert(map_idx(g4_mslice(), v.edges)[i] == g4_mslice()[i]);
        }
        assert(g4_sslice()[0] == 0);
        assert(g4_sslice()[1] == 2);
        assert(g4_sslice().contains(idx_of(v.edges, 0) as u8));
        assert(g4_sslice().contains(idx_of(v.edges, 2) as u8));
    }

    fn size(&self) -> (r: usize) {
        663552
    }

    fn move_pool(&self) -> (r: Vec<Move>) {
        let mut v: Vec<Move> = Vec::new();
        v.push(Move::U2);
        v.push(Move::L2);
        v.push(Move::D2);
        v.push(Move::R2);
        v.push(Move::F2);
        v.push(Move::B2);
        proof {
            assert(v@ =~= g4_pool());
        }
        v
    }

    fn indexer(&self, cube: &Cube) -> (r: usize) {
        let corner_idx = match g4_corner_part(cube) {
            Some(c) => c,
            None => {
                return 0;
            },
        };
        proof {
            assert(quad(4, 5, 6, 7) =~= g4_eslice());
        }
        let e_rank = match g4_slice_rank(cube, 4, 5, 6, 7) {
            Some(k) => k,
            None => {
                return 0;
            },
        };
        proof {
            assert(quad(3, 11, 9, 1) =~= g4_mslice());
        }
        let m_rank = match g4_slice_rank(cube, 3, 11, 9, 1) {
            Some(k) => k,
            None => {
                return 0;
            },
        };
        let s_idx = match g4_s_part(cube) {
            Some(s) => s,
            None => {
                return 0;
            },
        };
        let edge_idx = (s_idx * 24 + m_rank) * 24 + e_rank;
        edge_idx * 96 + corner_idx
    }
}

/// Four bytes as a sequence.
pub open spec fn quad(a: u8, b: u8, c: u8, d: u8) -> Seq<u8> {
    seq![a, b, c, d]
}

/// The first-tetrad rank and URB locator, or `None` outside the stage's
/// domain.
#[verifier::rlimit(100)]
fn g4_corner_part(cube: &Cube) -> (r: Option<usize>)
    requires
        wf(cube@),
    ensures
        match r {
            Some(c) => c == g4_corner_index(cube@) && c < 96,
            None => !g4_domain(cube@),
        },
{
    proof {
        lemma_fact_values();
        lemma_wf_no_dup(cube@);
    }
    let mut t1: Vec<u8> = Vec::new();
    t1.push(0);
    t1.push(2);
    t1.push(4);
    t1.push(6);
    proof {
        assert(t1@ =~= g4_t1());
        assert(t1@.no_duplicates());
    }
    let t1pos = corner_positions(cube, &t1);
    let mut i: usize = 0;
    while i < 4
        invariant
            i <= 4,
            t1pos@.len() == 4,
            t1@ == g4_t1(),
            t1pos@ == map_idx(g4_t1(), cube@.corners),
            forall|j: int| 0 <= j < i ==> t1@.contains(#[trigger] t1pos@[j]),
        decreases 4 - i,
    {
        match find_in(&t1, t1pos[i]) {
            Some(_) => {},
            None => {
                proof {
                    assert(!g4_t1().contains(map_idx(g4_t1(), cube@.corners)[i as int]));
                }
                return None;
            },
        }
        i += 1;
    }
    let t_rank = permutation_rank(&t1pos, &t1);
    let mut t2: Vec<u8> = Vec::new();
    t2.push(1);
    t2.push(3);
    t2.push(5);
    t2.push(7);
    proof {
        assert(t2@ =~= g4_t2());
        assert(t2@.no_duplicates());
    }
    let urb_pos = cube.get_corner_position(&Corner::URB);
    let us = urb_pos.index() as u8;
    proof {
        lemma_idx_of_unique(cube@.corners, 1, us as int);
    }
    match find_in(&t2, us) {
        Some(j) => {
            proof {
                lemma_idx_of_unique(t2@, us, j as int);
            }
            Some(t_rank * 4 + j)
        },
        None => None,
    }
}

/// The rank of the four pieces whose home slots are given, within those same
/// slots, or `None` when one of them sits elsewhere.
#[verifier::rlimit(100)]
fn g4_slice_rank(cube: &Cube, a: u8, b: u8, c: u8, d: u8) -> (r: Option<usize>)
    requires
        wf(cube@),
        a < 12 && b < 12 && c < 12 && d < 12,
        a != b && a != c && a != d && b != c && b != d && c != d,
    ensures
        match r {
            Some(k) => k == perm_rank(
                map_idx(quad(a, b, c, d), cube@.edges),
                quad(a, b, c, d),
            ) && k < 24,
            None => exists|i: int|
                0 <= i < 4 && !quad(a, b, c, d).contains(
                    #[trigger] map_idx(quad(a, b, c, d), cube@.edges)[i],
                ),
        },
{
    proof {
        lemma_fact_values();
        lemma_wf_no_dup(cube@);
    }
    let mut pieces: Vec<u8> = Vec::new();
    pieces.push(a);
    pieces.push(b);
    pieces.push(c);
    pieces.push(d);
    proof {
        assert(pieces@ =~= quad(a, b, c, d));
        assert(pieces@.no_duplicates());
    }
    let pos = edge_positions(cube, &pieces);
    let mut i: usize = 0;
    while i < 4
        invariant
            i <= 4,
            pos@.len() == 4,
            pieces@ == quad(a, b, c, d),
            pos@ == map_idx(quad(a, b, c, d), cube@.edges),
            forall|j: int| 0 <= j < i ==> pieces@.contains(#[trigger] pos@[j]),
        decreases 4 - i,
    {
        match find_in(&pieces, pos[i]) {
            Some(_) => {},
            None => {
                proof {
                    assert(!quad(a, b, c, d).contains(
                        map_idx(quad(a, b, c, d), cube@.edges)[i as int],
                    ));
                }
                return None;
            },
        }
        i += 1;
    }
    let k = permutation_rank(&pos, &pieces);
    Some(k)
}

/// The S-slice descriptor, or `None` when UR or UL sits outside the
/// S-slice.
#[verifier::rlimit(100)]
fn g4_s_part(cube: &Cube) -> (r: Option<usize>)
    requires
        wf(cube@),
    ensures
        match r {
            Some(s) => s == g4_s_index(cube@) && s < 12,
            None => !g4_domain(cube@),
        },
{
    proof {
        lemma_binom_values();
        lemma_wf_no_dup(cube@);
    }
    let mut sref: Vec<u8> = Vec::new();
    sref.push(0);
    sref.push(2);
    sref.push(10);
    sref.push(8);
    proof {
        assert(sref@ =~= g4_sslice());
        assert(sref@.no_duplicates());
    }
    let ur_pos = cube.get_edge_position(&Edge::UR);
    let ur = ur_pos.index() as u8;
    let ul_pos = cube.get_edge_position(&Edge::UL);
    let ul = ul_pos.index() as u8;
    proof {
        lemma_idx_of_unique(cube@.edges, 0, ur as int);
        lemma_idx_of_unique(cube@.edges, 2, ul as int);
    }
    let i0 = match find_in(&sref, ur) {
        Some(j) => {
            proof {
                lemma_idx_of_unique(sref@, ur, j as int);
            }
            j
        },
        None => {
            return None;
        },
    };
    let i1 = match find_in(&sref, ul) {
        Some(j) => {
            proof {
                lemma_idx_of_unique(sref@, ul, j as int);
            }
            j
        },
        None => {
            return None;
        },
    };
    let mut sv: Vec<u8> = Vec::new();
    sv.push(i0 as u8);
    sv.push(i1 as u8);
    proof {
        assert(sv@ =~= g4_spair(cube@));
        assert(ur != ul);
        assert(sv@.no_duplicates());
    }
    let ground = range_vec(4);
    proof {
        assert forall|j: int| 0 <= j < sv@.len() implies ground@.contains(sv@[j]) by {
            assert(ground@[sv@[j] as int] == sv@[j]);
        }
    }
    let s_comb = combination_rank(&sv, &ground);
    let s_idx = s_comb * 2 + (if i0 < i1 {
        1
    } else {
        0
    });
    Some(s_idx)
}


/// Slot form of the stage-four domain: odd corner slots hold no
/// first-tetrad piece, even corner slots never hold URB, and each
/// constrained edge piece is barred from slots outside its slice.
spec fn g4_domain_slots(v: CubeView) -> bool {
    &&& forall|j: int|
        (j == 1 || j == 3 || j == 5 || j == 7) ==> !(#[trigger] v.corners[j] == 0 || v.corners[j]
            == 2 || v.corners[j] == 4 || v.corners[j] == 6)
    &&& forall|j: int| (j == 0 || j == 2 || j == 4 || j == 6) ==> #[trigger] v.corners[j] != 1
    &&& forall|j: int| (0 <= j < 4 || 8 <= j < 12) ==> !(4 <= #[trigger] v.edges[j] < 8)
    &&& forall|j: int|
        (j == 0 || j == 2 || j == 4 || j == 5 || j == 6 || j == 7 || j == 8 || j == 10) ==> !(
        #[trigger] v.edges[j] == 3 || v.edges[j] == 11 || v.edges[j] == 9 || v.edges[j] == 1)
    &&& forall|j: int|
        (j == 1 || j == 3 || j == 4 || j == 5 || j == 6 || j == 7 || j == 9 || j == 11) ==> !(
        #[trigger] v.edges[j] == 0 || v.edges[j] == 2)
}

proof fn lemma_g4_t1_to_slots(v: CubeView)
    requires
        wf(v),
        forall|i: int|
            0 <= i < 4 ==> g4_t1().contains(#[trigger] map_idx(g4_t1(), v.corners)[i]),
    ensures
        forall|j: int|
            (j == 1 || j == 3 || j == 5 || j == 7) ==> !(#[trigger] v.corners[j] == 0
                || v.corners[j] == 2 || v.corners[j] == 4 || v.corners[j] == 6),
{
    lemma_wf_no_dup(v);
    assert forall|j: int|
        (j == 1 || j == 3 || j == 5 || j == 7) implies !(#[trigger] v.corners[j] == 0
        || v.corners[j] == 2 || v.corners[j] == 4 || v.corners[j] == 6) by {
        let p = v.corners[j];
        if p == 0 || p == 2 || p == 4 || p == 6 {
            let i: int = if p == 0 {
                0
            } else if p == 2 {
                1
            } else if p == 4 {
                2
            } else {
                3
            };
            assert(g4_t1()[i] == p);
            lemma_idx_of_unique(v.corners, p, j);
            assert(map_idx(g4_t1(), v.corners)[i] == j);
            assert(g4_t1().contains(map_idx(g4_t1(), v.corners)[i]));
            let k = choose|k: int| 0 <= k < g4_t1().len() && g4_t1()[k] == j as u8;
            assert(false);
        }
    }
}

#[verifier::rlimit(100)]
proof fn lemma_g4_urb_to_slots(v: CubeView)
    requires
        wf(v),
        g4_t2().contains(idx_of(v.corners, 1) as u8),
    ensures
        forall|j: int| (j == 0 || j == 2 || j == 4 || j == 6) ==> #[trigger] v.corners[j] != 1,
{
    lemma_wf_no_dup(v);
    assert forall|j: int|
        (j == 0 || j == 2 || j == 4 || j == 6) implies #[trigger] v.corners[j] != 1 by {
        if v.corners[j] == 1 {
            lemma_idx_of_unique(v.corners, 1, j);
            let k = choose|k: int| 0 <= k < g4_t2().len() && g4_t2()[k] == j as u8;
            assert(false);
        }
    }
}

proof fn lemma_g4_eslice_to_slots(v: CubeView)
    requires
        wf(v),
        forall|i: int|
            0 <= i < 4 ==> g4_eslice().contains(#[trigger] map_idx(g4_eslice(), v.edges)[i]),
    ensures
        forall|j: int| (0 <= j < 4 || 8 <= j < 12) ==> !(4 <= #[trigger] v.edges[j] < 8),
{
    lemma_wf_no_dup(v);
    assert forall|j: int|
        (0 <= j < 4 || 8 <= j < 12) implies !(4 <= #[trigger] v.edges[j] < 8) by {
        let p = v.edges[j];
        if 4 <= p < 8 {
            let i: int = p - 4;
            assert(g4_eslice()[i] == p);
            lemma_idx_of_unique(v.edges, p, j);
            assert(map_idx(g4_eslice(), v.edges)[i] == j);
            assert(g4_eslice().contains(map_idx(g4_eslice(), v.edges)[i]));
            let k = choose|k: int| 0 <= k < g4_eslice().len() && g4_eslice()[k] == j as u8;
            assert(false);
        }
    }
}

proof fn lemma_g4_mslice_to_slots(v: CubeView)
    requires
        wf(v),
        forall|i: int|
            0 <= i < 4 ==> g4_mslice().contains(#[trigger] map_idx(g4_mslice(), v.edges)[i]),
    ensures
        forall|j: int|
            (j == 0 || j == 2 || j == 4 || j == 5 || j == 6 || j == 7 || j == 8 || j == 10)
                ==> !(#[trigger] v.edges[j] == 3 || v.edges[j] == 11 || v.edges[j] == 9
                || v.edges[j] == 1),
{
    lemma_wf_no_dup(v);
    assert forall|j: int|
        (j == 0 || j == 2 || j == 4 || j == 5 || j == 6 || j == 7 || j == 8 || j
            == 10) implies !(#[trigger] v.edges[j] == 3 || v.edges[j] == 11 || v.edges[j] == 9
        || v.edges[j] == 1) by {
        let p = v.edges[j];
        if p == 3 || p == 11 || p == 9 || p == 1 {
            let i: int = if p == 3 {
                0
            } else if p == 11 {
                1
            } else if p == 9 {
                2
            } else {
                3
            };
            assert(g4_mslice()[i] == p);
            lemma_idx_of_unique(v.edges, p, j);
            assert(map_idx(g4_mslice(), v.edges)[i] == j);
            assert(g4_mslice().contains(map_idx(g4_mslice(), v.edges)[i]));
            let k = choose|k: int| 0 <= k < g4_mslice().len() && g4_mslice()[k] == j as u8;
            assert(false);
        }
    }
}

#[verifier::rlimit(100)]
proof fn lemma_g4_sslice_to_slots(v: CubeView)
    requires
        wf(v),
        g4_sslice().contains(idx_of(v.edges, 0) as u8),
        g4_sslice().contains(idx_of(v.edges, 2) as u8),
    ensures
        forall|j: int|
            (j == 1 || j == 3 || j == 4 || j == 5 || j == 6 || j == 7 || j == 9 || j == 11)
                ==> !(#[trigger] v.edges[j] == 0 || v.edges[j] == 2),
{
    lemma_wf_no_dup(v);
    assert forall|j: int|
        (j == 1 || j == 3 || j == 4 || j == 5 || j == 6 || j == 7 || j == 9 || j
            == 11) implies !(#[trigger] v.edges[j] == 0 || v.edges[j] == 2) by {
        let p = v.edges[j];
        if p == 0 || p == 2 {
            lemma_idx_of_unique(v.edges, p, j);
            assert(idx_of(v.edges, p) == j);
            assert(g4_sslice().contains(j as u8));
            let k = choose|k: int| 0 <= k < g4_sslice().len() && g4_sslice()[k] == j as u8;
            assert(g4_sslice()[k] == j as u8);
            assert(false);
        }
    }
}

proof fn lemma_g4_domain_to_slots(v: CubeView)
    requires
        wf(v),
        g4_domain(v),
    ensures
        g4_domain_slots(v),
{
    lemma_g4_t1_to_slots(v);
    lemma_g4_urb_to_slots(v);
    lemma_g4_eslice_to_slots(v);
    lemma_g4_mslice_to_slots(v);
    lemma_g4_sslice_to_slots(v);
}

#[verifier::rlimit(100)]
proof fn lemma_g4_slots_to_domain(v: CubeView)
    requires
        wf(v),
        g4_domain_slots(v),
    ensures
        g4_domain(v),
{
    lemma_wf_no_dup(v);
    assert forall|i: int| 0 <= i < 4 implies g4_t1().contains(
        #[trigger] map_idx(g4_t1(), v.corners)[i],
    ) by {
        let p = g4_t1()[i];
        assert(v.corners.contains(p));
        let j = idx_of(v.corners, p);
        assert(0 <= j < 8 && v.corners[j] == p);
        assert(map_idx(g4_t1(), v.corners)[i] == j as u8);
        assert(!(j == 1 || j == 3 || j == 5 || j == 7));
        if j == 0 {
            assert(g4_t1()[0] == j as u8);
        } else if j == 2 {
            assert(g4_t1()[1] == j as u8);
        } else if j == 4 {
            assert(g4_t1()[2] == j as u8);
        } else {
            assert(j == 6);
            assert(g4_t1()[3] == j as u8);
        }
    }
    assert(v.corners.contains(1));
    let ju = idx_of(v.corners, 1);
    assert(0 <= ju < 8 && v.corners[ju] == 1);
    assert(!(ju == 0 || ju == 2 || ju == 4 || ju == 6));
    assert(g4_t2().contains(idx_of(v.corners, 1) as u8)) by {
        if ju == 1 {
            assert(g4_t2()[0] == ju as u8);
        } else if ju == 3 {
            assert(g4_t2()[1] == ju as u8);
        } else if ju == 5 {
            assert(g4_t2()[2] == ju as u8);
        } else {
            assert(ju == 7);
            assert(g4_t2()[3] == ju as u8);
        }
    }
    assert forall|i: int| 0 <= i < 4 implies g4_eslice().contains(
        #[trigger] map_idx(g4_eslice(), v.edges)[i],
    ) by {
        let p = g4_eslice()[i];
        assert(v.edges.contains(p));
        let j = idx_of(v.edges, p);
        assert(0 <= j < 12 && v.edges[j] == p);
        assert(map_idx(g4_eslice(), v.edges)[i] == j as u8);
        assert(4 <= j < 8);
        assert(g4_eslice()[j - 4] == j as u8);
    }
    assert forall|i: int| 0 <= i < 4 implies g4_mslice().contains(
        #[trigger] map_idx(g4_mslice(), v.edges)[i],
    ) by {
        let p = g4_mslice()[i];
        assert(v.edges.contains(p));
        let j = idx_of(v.edges, p);
        assert(0 <= j < 12 && v.edges[j] == p);
        assert(map_idx(g4_mslice(), v.edges)[i] == j as u8);
        assert(j == 3 || j == 11 || j == 9 || j == 1);
        if j == 3 {
            assert(g4_mslice()[0] == j as u8);
        } else if j == 11 {
            assert(g4_mslice()[1] == j as u8);
        } else if j == 9 {
            assert(g4_mslice()[2] == j as u8);
        } else {
            assert(g4_mslice()[3] == j as u8);
        }
    }
    assert forall|p: u8| p == 0 || p == 2 implies g4_sslice().contains(
        idx_of(v.edges, p) as u8,
    ) by {
        assert(v.edges.contains(p));
        let j = idx_of(v.edges, p);
        assert(0 <= j < 12 && v.edges[j] == p);
        assert(j == 0 || j == 2 || j == 10 || j == 8);
        if j == 0 {
            assert(g4_sslice()[0] == j as u8);
        } else if j == 2 {
            assert(g4_sslice()[1] == j as u8);
        } else if j == 10 {
            assert(g4_sslice()[2] == j as u8);
        } else {
            assert(g4_sslice()[3] == j as u8);
        }
    }
    assert(g4_sslice().contains(idx_of(v.edges, 0) as u8));
    assert(g4_sslice().contains(idx_of(v.edges, 2) as u8));
}

proof fn lemma_g4_slots_u2(v: CubeView)
    requires
        dims_ok(v),
        g4_domain_slots(v),
    ensures
        dims_ok(spec_u(spec_u(v))),
        g4_domain_slots(spec_u(spec_u(v))),
{
    let w = spec_u(spec_u(v));
    assert(w.corners[0] == v.corners[2] && w.corners[2] == v.corners[0] && w.corners[1]
        == v.corners[3] && w.corners[3] == v.corners[1]);
    assert(w.edges[0] == v.edges[2] && w.edges[2] == v.edges[0] && w.edges[1] == v.edges[3]
        && w.edges[3] == v.edges[1]);
}

proof fn lemma_g4_slots_d2(v: CubeView)
    requires
        dims_ok(v),
        g4_domain_slots(v),
    ensures
        dims_ok(spec_d(spec_d(v))),
        g4_domain_slots(spec_d(spec_d(v))),
{
    let w = spec_d(spec_d(v));
    assert(w.corners[5] == v.corners[7] && w.corners[7] == v.corners[5] && w.corners[4]
        == v.corners[6] && w.corners[6] == v.corners[4]);
    assert(w.edges[8] == v.edges[10] && w.edges[10] == v.edges[8] && w.edges[9] == v.edges[11]
        && w.edges[11] == v.edges[9]);
}

proof fn lemma_g4_slots_l2(v: CubeView)
    requires
        dims_ok(v),
        g4_domain_slots(v),
    ensures
        dims_ok(spec_l(spec_l(v))),
        g4_domain_slots(spec_l(spec_l(v))),
{
    let w = spec_l(spec_l(v));
    assert(w.corners[2] == v.corners[6] && w.corners[6] == v.corners[2] && w.corners[3]
        == v.corners[7] && w.corners[7] == v.corners[3]);
    assert(w.edges[2] == v.edges[10] && w.edges[10] == v.edges[2] && w.edges[6] == v.edges[7]
        && w.edges[7] == v.edges[6]);
}

proof fn lemma_g4_slots_r2(v: CubeView)
    requires
        dims_ok(v),
        g4_domain_slots(v),
    ensures
        dims_ok(spec_r(spec_r(v))),
        g4_domain_slots(spec_r(spec_r(v))),
{
    let w = spec_r(spec_r(v));
    assert(w.corners[0] == v.corners[4] && w.corners[4] == v.corners[0] && w.corners[1]
        == v.corners[5] && w.corners[5] == v.corners[1]);
    assert(w.edges[0] == v.edges[8] && w.edges[8] == v.edges[0] && w.edges[4] == v.edges[5]
        && w.edges[5] == v.edges[4]);
}

proof fn lemma_g4_slots_f2(v: CubeView)
    requires
        dims_ok(v),
        g4_domain_slots(v),
    ensures
        dims_ok(spec_f(spec_f(v))),
        g4_domain_slots(spec_f(spec_f(v))),
{
    let w = spec_f(spec_f(v));
    assert(w.corners[0] == v.corners[6] && w.corners[6] == v.corners[0] && w.corners[3]
        == v.corners[5] && w.corners[5] == v.corners[3]);
    assert(w.edges[3] == v.edges[11] && w.edges[11] == v.edges[3] && w.edges[4] == v.edges[7]
        && w.edges[7] == v.edges[4]);
}

proof fn lemma_g4_slots_b2(v: CubeView)
    requires
        dims_ok(v),
        g4_domain_slots(v),
    ensures
        dims_ok(spec_b(spec_b(v))),
        g4_domain_slots(spec_b(spec_b(v))),
{
    let w = spec_b(spec_b(v));
    assert(w.corners[1] == v.corners[7] && w.corners[7] == v.corners[1] && w.corners[2]
        == v.corners[4] && w.corners[4] == v.corners[2]);
    assert(w.edges[1] == v.edges[9] && w.edges[9] == v.edges[1] && w.edges[5] == v.edges[6]
        && w.edges[6] == v.edges[5]);
}

/// Stage four's pool keeps its domain: half turns carry each constrained
/// piece between slots of its own slice or tetrad.
pub proof fn lemma_g4_domain_closed(v: CubeView, m: Move)
    requires
        wf(v),
        g4_domain(v),
        g4_pool().contains(m),
    ensures
        g4_domain(spec_turn(v, m)),
{
    lemma_g4_domain_to_slots(v);
    match m {
        Move::U2 => lemma_g4_slots_u2(v),
        Move::D2 => lemma_g4_slots_d2(v),
        Move::L2 => lemma_g4_slots_l2(v),
        Move::R2 => lemma_g4_slots_r2(v),
        Move::F2 => lemma_g4_slots_f2(v),
        Move::B2 => lemma_g4_slots_b2(v),
        _ => {
            assert(!g4_pool().contains(m));
        },
    }
    lemma_turn_wf(v, m);
    lemma_g4_slots_to_domain(spec_turn(v, m));
}

} // verus!