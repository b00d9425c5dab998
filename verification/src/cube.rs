//! The cube model: twelve edge slots and eight corner slots, each holding a
//! piece identifier and an orientation, together with the eighteen face turns.

use vstd::prelude::*;

verus! {

/// The twelve edge slots (equivalently, pieces: piece `i` rests in slot `i`
/// on the solved cube), named by the two faces each touches.
#[derive(Clone, Copy, Debug, PartialEq, Eq)]
pub enum Edge {
    UR,
    UB,
    UL,
    UF,
    RF,
    RB,
    LB,
    LF,
    DR,
    DB,
    DL,
    DF,
}

/// The eight corner slots (equivalently, pieces), named by their three faces.
#[derive(Clone, Copy, Debug, PartialEq, Eq)]
pub enum Corner {
    URF,
    URB,
    ULB,
    ULF,
    DRB,
    DRF,
    DLF,
    DLB,
}

/// The eighteen face turns: for each face, the clockwise quarter turn, the
/// counter-clockwise quarter turn, and the half turn.
#[derive(Clone, Copy, Debug, PartialEq, Eq)]
pub enum Move {
    U,
    Up,
    U2,
    L,
    Lp,
    L2,
    D,
    Dp,
    D2,
    R,
    Rp,
    R2,
    F,
    Fp,
    F2,
    B,
    Bp,
    B2,
}

impl Edge {
    /// The fixed enumeration index of this edge.
    pub open spec fn index_spec(self) -> int {
        match self {
            Edge::UR => 0,
            Edge::UB => 1,
            Edge::UL => 2,
            Edge::UF => 3,
            Edge::RF => 4,
            Edge::RB => 5,
            Edge::LB => 6,
            Edge::LF => 7,
            Edge::DR => 8,
            Edge::DB => 9,
            Edge::DL => 10,
            Edge::DF => 11,
        }
    }

    pub fn index(self) -> (r: usize)
        ensures
            r == self.index_spec(),
    {
        match self {
            Edge::UR => 0,
            Edge::UB => 1,
            Edge::UL => 2,
            Edge::UF => 3,
            Edge::RF => 4,
            Edge::RB => 5,
            Edge::LB => 6,
            Edge::LF => 7,
            Edge::DR => 8,
            Edge::DB => 9,
            Edge::DL => 10,
            Edge::DF => 11,
        }
    }

    pub fn from_index(i: usize) -> (r: Edge)
        requires
            i < 12,
        ensures
            r.index_spec() == i,
    {
        match i {
            0 => Edge::UR,
            1 => Edge::UB,
            2 => Edge::UL,
            3 => Edge::UF,
            4 => Edge::RF,
            5 => Edge::RB,
            6 => Edge::LB,
            7 => Edge::LF,
            8 => Edge::DR,
            9 => Edge::DB,
            10 => Edge::DL,
            _ => Edge::DF,
        }
    }
}

impl Corner {
    /// The fixed enumeration index of this corner.
    pub open spec fn index_spec(self) -> int {
        match self {
            Corner::URF => 0,
            Corner::URB => 1,
            Corner::ULB => 2,
            Corner::ULF => 3,
            Corner::DRB => 4,
            Corner::DRF => 5,
            Corner::DLF => 6,
            Corner::DLB => 7,
        }
    }

    pub fn index(self) -> (r: usize)
        ensures
            r == self.index_spec(),
    {
        match self {
            Corner::URF => 0,
            Corner::URB => 1,
            Corner::ULB => 2,
            Corner::ULF => 3,
            Corner::DRB => 4,
            Corner::DRF => 5,
            Corner::DLF => 6,
            Corner::DLB => 7,
        }
    }

    pub fn from_index(i: usize) -> (r: Corner)
        requires
            i < 8,
        ensures
            r.index_spec() == i,
    {
        match i {
            0 => Corner::URF,
            1 => Corner::URB,
            2 => Corner::ULB,
            3 => Corner::ULF,
            4 => Corner::DRB,
            5 => Corner::DRF,
            6 => Corner::DLF,
            _ => Corner::DLB,
        }
    }
}

/// The mathematical state of a cube: `edges[i]` is the identifier of the
/// piece in edge slot `i`, `eo[i]` its flip; `corners[i]` the piece in corner
/// slot `i`, `co[i]` its clockwise twist.
#[verifier::ext_equal]
pub struct CubeView {
    pub edges: Seq<u8>,
    pub eo: Seq<u8>,
    pub corners: Seq<u8>,
    pub co: Seq<u8>,
}

/// The solved state: every piece in its home slot, every orientation zero.
pub open spec fn solved_view() -> CubeView {
    CubeView {
        edges: Seq::new(12, |i: int| i as u8),
        eo: Seq::new(12, |i: int| 0u8),
        corners: Seq::new(8, |i: int| i as u8),
        co: Seq::new(8, |i: int| 0u8),
    }
}

/// The four arrays have their proper lengths.
pub open spec fn dims_ok(v: CubeView) -> bool {
    &&& v.edges.len() == 12
    &&& v.eo.len() == 12
    &&& v.corners.len() == 8
    &&& v.co.len() == 8
}

/// Lengths plus element ranges: piece identifiers, flips and twists in range.
pub open spec fn ranges_ok(v: CubeView) -> bool {
    &&& dims_ok(v)
    &&& forall|i: int| 0 <= i < 12 ==> v.edges[i] < 12 && v.eo[i] < 2
    &&& forall|i: int| 0 <= i < 8 ==> v.corners[i] < 8 && v.co[i] < 3
}

/// `s` is a permutation of `0..n`: in range, no repeats, and every value hit.
pub open spec fn is_perm(s: Seq<u8>, n: int) -> bool {
    &&& s.len() == n
    &&& forall|i: int| 0 <= i < n ==> s[i] < n
    &&& forall|i: int, j: int| 0 <= i < j < n ==> s[i] != s[j]
    &&& forall|x: u8| x < n ==> s.contains(x)
}

/// Sum of the twelve edge flips.
pub open spec fn eo_sum(v: CubeView) -> int {
    v.eo[0] + v.eo[1] + v.eo[2] + v.eo[3] + v.eo[4] + v.eo[5] + v.eo[6] + v.eo[7] + v.eo[8]
        + v.eo[9] + v.eo[10] + v.eo[11]
}

/// Sum of the eight corner twists.
pub open spec fn co_sum(v: CubeView) -> int {
    v.co[0] + v.co[1] + v.co[2] + v.co[3] + v.co[4] + v.co[5] + v.co[6] + v.co[7]
}

/// The state invariant every turn preserves: both piece arrays are
/// permutations, orientations are in range, the edge flips sum to an even
/// number and the corner twists to a multiple of three.
pub open spec fn wf(v: CubeView) -> bool {
    &&& ranges_ok(v)
    &&& is_perm(v.edges, 12)
    &&& is_perm(v.corners, 8)
    &&& eo_sum(v) % 2 == 0
    &&& co_sum(v) % 3 == 0
}

/// Four-cycle on slots `a -> b -> c -> d -> a`: after the move, the entry
/// previously at `a` sits at `b`, and so on.
pub open spec fn cyc(s: Seq<u8>, a: int, b: int, c: int, d: int) -> Seq<u8> {
    s.update(b, s[a]).update(c, s[b]).update(d, s[c]).update(a, s[d])
}

/// Clockwise twist by `k`, modulo three (for twists already in range).
pub open spec fn rot3(x: u8, k: u8) -> u8 {
    if x + k < 3 {
        (x + k) as u8
    } else {
        (x + k - 3) as u8
    }
}

/// Edge flip.
pub open spec fn flip1(x: u8) -> u8 {
    if x == 1 {
        0
    } else {
        1
    }
}

/// Twist the entry at slot `i` by `k`.
pub open spec fn twist_at(s: Seq<u8>, i: int, k: u8) -> Seq<u8> {
    s.update(i, rot3(s[i], k))
}

/// Flip the entry at slot `i`.
pub open spec fn flip_at(s: Seq<u8>, i: int) -> Seq<u8> {
    s.update(i, flip1(s[i]))
}

/// Quarter clockwise turn of the U face: edges UR -> UF -> UL -> UB, corners
/// URF -> ULF -> ULB -> URB, no reorientation.
pub open spec fn spec_u(v: CubeView) -> CubeView {
    CubeView {
        edges: cyc(v.edges, 0, 3, 2, 1),
        eo: cyc(v.eo, 0, 3, 2, 1),
        corners: cyc(v.corners, 0, 3, 2, 1),
        co: cyc(v.co, 0, 3, 2, 1),
    }
}

/// Quarter clockwise turn of the D face: edges DR -> DB -> DL -> DF, corners
/// DRF -> DRB -> DLB -> DLF, no reorientation.
pub open spec fn spec_d(v: CubeView) -> CubeView {
    CubeView {
        edges: cyc(v.edges, 8, 9, 10, 11),
        eo: cyc(v.eo, 8, 9, 10, 11),
        corners: cyc(v.corners, 5, 4, 7, 6),
        co: cyc(v.co, 5, 4, 7, 6),
    }
}

/// Quarter clockwise turn of the R face: edges UR -> RB -> DR -> RF, corners
/// URF -> URB -> DRB -> DRF, twisting the entering pieces, no edge flips.
pub open spec fn spec_r(v: CubeView) -> CubeView {
    CubeView {
        edges: cyc(v.edges, 0, 5, 8, 4),
        eo: cyc(v.eo, 0, 5, 8, 4),
        corners: cyc(v.corners, 0, 1, 4, 5),
        co: twist_at(twist_at(twist_at(twist_at(cyc(v.co, 0, 1, 4, 5), 0, 1), 5, 2), 4, 1), 1, 2),
    }
}

/// Quarter clockwise turn of the L face: edges UL -> LF -> DL -> LB, corners
/// ULF -> DLF -> DLB -> ULB, twisting the entering pieces, no edge flips.
pub open spec fn spec_l(v: CubeView) -> CubeView {
    CubeView {
        edges: cyc(v.edges, 2, 7, 10, 6),
        eo: cyc(v.eo, 2, 7, 10, 6),
        corners: cyc(v.corners, 3, 6, 7, 2),
        co: twist_at(twist_at(twist_at(twist_at(cyc(v.co, 3, 6, 7, 2), 3, 2), 6, 1), 7, 2), 2, 1),
    }
}

/// Quarter clockwise turn of the F face: edges UF -> RF -> DF -> LF (all four
/// flipped), corners URF -> DRF -> DLF -> ULF, twisting the entering pieces.
pub open spec fn spec_f(v: CubeView) -> CubeView {
    CubeView {
        edges: cyc(v.edges, 3, 4, 11, 7),
        eo: flip_at(flip_at(flip_at(flip_at(cyc(v.eo, 3, 4, 11, 7), 3), 7), 11), 4),
        corners: cyc(v.corners, 0, 5, 6, 3),
        co: twist_at(twist_at(twist_at(twist_at(cyc(v.co, 0, 5, 6, 3), 0, 2), 3, 1), 6, 2), 5, 1),
    }
}

/// Quarter clockwise turn of the B face: edges UB -> LB -> DB -> RB (all four
/// flipped), corners URB -> ULB -> DLB -> DRB, twisting the entering pieces.
pub open spec fn spec_b(v: CubeView) -> CubeView {
    CubeView {
        edges: cyc(v.edges, 1, 6, 9, 5),
        eo: flip_at(flip_at(flip_at(flip_at(cyc(v.eo, 1, 6, 9, 5), 1), 5), 9), 6),
        corners: cyc(v.corners, 1, 2, 7, 4),
        co: twist_at(twist_at(twist_at(twist_at(cyc(v.co, 1, 2, 7, 4), 1, 1), 4, 2), 7, 1), 2, 2),
    }
}

/// The action of one named move: a half turn is the quarter turn twice, a
/// counter-clockwise turn three times.
pub open spec fn spec_turn(v: CubeView, m: Move) -> CubeView {
    match m {
        Move::U => spec_u(v),
        Move::U2 => spec_u(spec_u(v)),
        Move::Up => spec_u(spec_u(spec_u(v))),
        Move::D => spec_d(v),
        Move::D2 => spec_d(spec_d(v)),
        Move::Dp => spec_d(spec_d(spec_d(v))),
        Move::R => spec_r(v),
        Move::R2 => spec_r(spec_r(v)),
        Move::Rp => spec_r(spec_r(spec_r(v))),
        Move::L => spec_l(v),
        Move::L2 => spec_l(spec_l(v)),
        Move::Lp => spec_l(spec_l(spec_l(v))),
        Move::F => spec_f(v),
        Move::F2 => spec_f(spec_f(v)),
        Move::Fp => spec_f(spec_f(spec_f(v))),
        Move::B => spec_b(v),
        Move::B2 => spec_b(spec_b(v)),
        Move::Bp => spec_b(spec_b(spec_b(v))),
    }
}

/// The state after applying the whole move sequence `ms` to `v`, in order.
pub open spec fn apply_moves(v: CubeView, ms: Seq<Move>) -> CubeView
    decreases ms.len(),
{
    if ms.len() == 0 {
        v
    } else {
        apply_moves(spec_turn(v, ms[0]), ms.drop_first())
    }
}

/// A cube state.  Created solved; mutated only by [`Cube::turn`] and the
/// explicit slot editors.
#[derive(Clone, Debug, PartialEq, Eq)]
pub struct Cube {
    edges: Vec<u8>,
    eo: Vec<u8>,
    corners: Vec<u8>,
    co: Vec<u8>,
}

impl View for Cube {
    type V = CubeView;

    closed spec fn view(&self) -> CubeView {
        CubeView { edges: self.edges@, eo: self.eo@, corners: self.corners@, co: self.co@ }
    }
}

/// Replace the entries at `a`, `b`, `c`, `d` by the four-cycle image.
fn cyc4(s: &mut Vec<u8>, a: usize, b: usize, c: usize, d: usize)
    requires
        a < old(s).len(),
        b < old(s).len(),
        c < old(s).len(),
        d < old(s).len(),
    ensures
        final(s)@ == cyc(old(s)@, a as int, b as int, c as int, d as int),
        final(s).len() == old(s).len(),
{
    let va = s[a];
    let vb = s[b];
    let vc = s[c];
    let vd = s[d];
    s[b] = va;
    s[c] = vb;
    s[d] = vc;
    s[a] = vd;
}

/// Twist the entry at `i` clockwise by `k`.
fn twist1(s: &mut Vec<u8>, i: usize, k: u8)
    requires
        i < old(s).len(),
        k < 3,
        old(s)@[i as int] < 3,
    ensures
        final(s)@ == twist_at(old(s)@, i as int, k),
        final(s).len() == old(s).len(),
{
    let x = s[i];
    let y = if x + k < 3 {
        x + k
    } else {
        x + k - 3
    };
    assert(y == rot3(x, k));
    s[i] = y;
}

/// Flip the entry at `i`.
fn flipe(s: &mut Vec<u8>, i: usize)
    requires
        i < old(s).len(),
    ensures
        final(s)@ == flip_at(old(s)@, i as int),
        final(s).len() == old(s).len(),
{
    let x = s[i];
    let y = if x == 1 {
        0
    } else {
        1
    };
    s[i] = y;
}

impl Cube {
    /// A new cube in the solved configuration.
    pub fn new() -> (r: Cube)
        ensures
            r@ == solved_view(),
    {
        let mut edges: Vec<u8> = Vec::new();
        let mut eo: Vec<u8> = Vec::new();
        let mut corners: Vec<u8> = Vec::new();
        let mut co: Vec<u8> = Vec::new();
        let mut i: usize = 0;
        while i < 12
            invariant
                i <= 12,
                edges@ =~= Seq::new(i as nat, |j: int| j as u8),
                eo@ =~= Seq::new(i as nat, |j: int| 0u8),
            decreases 12 - i,
        {
            edges.push(i as u8);
            eo.push(0);
            i += 1;
        }
        let mut i: usize = 0;
        while i < 8
            invariant
                i <= 8,
                corners@ =~= Seq::new(i as nat, |j: int| j as u8),
                co@ =~= Seq::new(i as nat, |j: int| 0u8),
            decreases 8 - i,
        {
            corners.push(i as u8);
            co.push(0);
            i += 1;
        }
        let r = Cube { edges, eo, corners, co };
        proof {
            assert(r@ =~= solved_view());
        }
        r
    }

    /// An independent copy of this cube.
    pub fn duplicate(&self) -> (r: Cube)
        ensures
            r@ == self@,
    {
        let mut edges: Vec<u8> = Vec::new();
        let mut eo: Vec<u8> = Vec::new();
        let mut corners: Vec<u8> = Vec::new();
        let mut co: Vec<u8> = Vec::new();
        let mut i: usize = 0;
        while i < self.edges.len()
            invariant
                i <= self.edges.len(),
                edges@ =~= self.edges@.take(i as int),
            decreases self.edges.len() - i,
        {
            edges.push(self.edges[i]);
            i += 1;
        }
        let mut i: usize = 0;
        while i < self.eo.len()
            invariant
                i <= self.eo.len(),
                eo@ =~= self.eo@.take(i as int),
            decreases self.eo.len() - i,
        {
            eo.push(self.eo[i]);
            i += 1;
        }
        let mut i: usize = 0;
        while i < self.corners.len()
            invariant
                i <= self.corners.len(),
                corners@ =~= self.corners@.take(i as int),
            decreases self.corners.len() - i,
        {
            corners.push(self.corners[i]);
            i += 1;
        }
        let mut i: usize = 0;
        while i < self.co.len()
            invariant
                i <= self.co.len(),
                co@ =~= self.co@.take(i as int),
            decreases self.co.len() - i,
        {
            co.push(self.co[i]);
            i += 1;
        }
        let r = Cube { edges, eo, corners, co };
        proof {
            assert(self.edges@.take(self.edges@.len() as int) =~= self.edges@);
            assert(self.eo@.take(self.eo@.len() as int) =~= self.eo@);
            assert(self.corners@.take(self.corners@.len() as int) =~= self.corners@);
            assert(self.co@.take(self.co@.len() as int) =~= self.co@);
            assert(r@ =~= self@);
        }
        r
    }

    /// Whether every piece is home and every orientation zero.
    pub fn is_solved(&self) -> (r: bool)
        requires
            dims_ok(self@),
        ensures
            r <==> self@ == solved_view(),
    {
        let mut i: usize = 0;
        while i < 12
            invariant
                dims_ok(self@),
                i <= 12,
                forall|j: int| 0 <= j < i ==> self@.edges[j] == j && self@.eo[j] == 0,
            decreases 12 - i,
        {
            if self.edges[i] != i as u8 || self.eo[i] != 0 {
                proof {
                    assert(self@ != solved_view());
                }
                return false;
            }
            i += 1;
        }
        let mut i: usize = 0;
        while i < 8
            invariant
                dims_ok(self@),
                i <= 8,
                forall|j: int| 0 <= j < 12 ==> self@.edges[j] == j && self@.eo[j] == 0,
                forall|j: int| 0 <= j < i ==> self@.corners[j] == j && self@.co[j] == 0,
            decreases 8 - i,
        {
            if self.corners[i] != i as u8 || self.co[i] != 0 {
                proof {
                    assert(self@ != solved_view());
                }
                return false;
            }
            i += 1;
        }
        proof {
            assert(self@.edges =~= solved_view().edges);
            assert(self@.eo =~= solved_view().eo);
            assert(self@.corners =~= solved_view().corners);
            assert(self@.co =~= solved_view().co);
            assert(self@ =~= solved_view());
        }
        true
    }

    /// The flip of the piece in edge slot `pos`.
    pub fn get_edge_orientation(&self, pos: &Edge) -> (r: u8)
        requires
            dims_ok(self@),
        ensures
            r == self@.eo[pos.index_spec()],
    {
        self.eo[pos.index()]
    }

    /// The identity of the piece in edge slot `pos`.
    pub fn get_edge_type(&self, pos: &Edge) -> (r: Edge)
        requires
            ranges_ok(self@),
        ensures
            r.index_spec() == self@.edges[pos.index_spec()],
    {
        Edge::from_index(self.edges[pos.index()] as usize)
    }

    /// The slot currently holding edge piece `edge` (inverse lookup).
    pub fn get_edge_position(&self, edge: &Edge) -> (r: Edge)
        requires
            ranges_ok(self@),
            is_perm(self@.edges, 12),
        ensures
            self@.edges[r.index_spec()] == edge.index_spec(),
    {
        let t = edge.index() as u8;
        let mut i: usize = 0;
        while i < 11
            invariant
                ranges_ok(self@),
                is_perm(self@.edges, 12),
                i <= 11,
                t == edge.index_spec(),
                forall|j: int| 0 <= j < i ==> self@.edges[j] != t,
            decreases 11 - i,
        {
            if self.edges[i] == t {
                return Edge::from_index(i);
            }
            i += 1;
        }
        proof {
            assert(self@.edges.contains(t));
            let j = choose|j: int| 0 <= j < self@.edges.len() && self@.edges[j] == t;
            assert(self@.edges[11] == t);
        }
        Edge::from_index(11)
    }

    /// The twist of the piece in corner slot `pos`.
    pub fn get_corner_orientation(&self, pos: &Corner) -> (r: u8)
        requires
            dims_ok(self@),
        ensures
            r == self@.co[pos.index_spec()],
    {
        self.co[pos.index()]
    }

    /// The identity of the piece in corner slot `pos`.
    pub fn get_corner_type(&self, pos: &Corner) -> (r: Corner)
        requires
            ranges_ok(self@),
        ensures
            r.index_spec() == self@.corners[pos.index_spec()],
    {
        Corner::from_index(self.corners[pos.index()] as usize)
    }

    /// The slot currently holding corner piece `corner` (inverse lookup).
    pub fn get_corner_position(&self, corner: &Corner) -> (r: Corner)
        requires
            ranges_ok(self@),
            is_perm(self@.corners, 8),
        ensures
            self@.corners[r.index_spec()] == corner.index_spec(),
    {
        let t = corner.index() as u8;
        let mut i: usize = 0;
        while i < 7
            invariant
                ranges_ok(self@),
                is_perm(self@.corners, 8),
                i <= 7,
                t == corner.index_spec(),
                forall|j: int| 0 <= j < i ==> self@.corners[j] != t,
            decreases 7 - i,
        {
            if self.corners[i] == t {
                return Corner::from_index(i);
            }
            i += 1;
        }
        proof {
            assert(self@.corners.contains(t));
            let j = choose|j: int| 0 <= j < self@.corners.len() && self@.corners[j] == t;
            assert(self@.corners[7] == t);
        }
        Corner::from_index(7)
    }

    fn u(&mut self)
        requires
            ranges_ok(old(self)@),
        ensures
            final(self)@ == spec_u(old(self)@),
            ranges_ok(final(self)@),
    {
        cyc4(&mut self.edges, 0, 3, 2, 1);
        cyc4(&mut self.eo, 0, 3, 2, 1);
        cyc4(&mut self.corners, 0, 3, 2, 1);
        cyc4(&mut self.co, 0, 3, 2, 1);
        proof {
            assert(self@ =~= spec_u(old(self)@));
        }
    }

    fn d(&mut self)
        requires
            ranges_ok(old(self)@),
        ensures
            final(self)@ == spec_d(old(self)@),
            ranges_ok(final(self)@),
    {
        cyc4(&mut self.edges, 8, 9, 10, 11);
        cyc4(&mut self.eo, 8, 9, 10, 11);
        cyc4(&mut self.corners, 5, 4, 7, 6);
        cyc4(&mut self.co, 5, 4, 7, 6);
        proof {
            assert(self@ =~= spec_d(old(self)@));
        }
    }

    fn r(&mut self)
        requires
            ranges_ok(old(self)@),
        ensures
            final(self)@ == spec_r(old(self)@),
            ranges_ok(final(self)@),
    {
        cyc4(&mut self.edges, 0, 5, 8, 4);
        cyc4(&mut self.eo, 0, 5, 8, 4);
        cyc4(&mut self.corners, 0, 1, 4, 5);
        cyc4(&mut self.co, 0, 1, 4, 5);
        twist1(&mut self.co, 0, 1);
        twist1(&mut self.co, 5, 2);
        twist1(&mut self.co, 4, 1);
        twist1(&mut self.co, 1, 2);
        proof {
            assert(self@ =~= spec_r(old(self)@));
        }
    }

    fn l(&mut self)
        requires
            ranges_ok(old(self)@),
        ensures
            final(self)@ == spec_l(old(self)@),
            ranges_ok(final(self)@),
    {
        cyc4(&mut self.edges, 2, 7, 10, 6);
        cyc4(&mut self.eo, 2, 7, 10, 6);
        cyc4(&mut self.corners, 3, 6, 7, 2);
        cyc4(&mut self.co, 3, 6, 7, 2);
        twist1(&mut self.co, 3, 2);
        twist1(&mut self.co, 6, 1);
        twist1(&mut self.co, 7, 2);
        twist1(&mut self.co, 2, 1);
        proof {
            assert(self@ =~= spec_l(old(self)@));
        }
    }

    fn f(&mut self)
        requires
            ranges_ok(old(self)@),
        ensures
            final(self)@ == spec_f(old(self)@),
            ranges_ok(final(self)@),
    {
        cyc4(&mut self.edges, 3, 4, 11, 7);
        cyc4(&mut self.eo, 3, 4, 11, 7);
        cyc4(&mut self.corners, 0, 5, 6, 3);
        cyc4(&mut self.co, 0, 5, 6, 3);
        twist1(&mut self.co, 0, 2);
        twist1(&mut self.co, 3, 1);
        twist1(&mut self.co, 6, 2);
        twist1(&mut self.co, 5, 1);
        flipe(&mut self.eo, 3);
        flipe(&mut self.eo, 7);
        flipe(&mut self.eo, 11);
        flipe(&mut self.eo, 4);
        proof {
            assert(self@ =~= spec_f(old(self)@));
        }
    }

    fn b(&mut self)
        requires
            ranges_ok(old(self)@),
        ensures
            final(self)@ == spec_b(old(self)@),
            ranges_ok(final(self)@),
    {
        cyc4(&mut self.edges, 1, 6, 9, 5);
        cyc4(&mut self.eo, 1, 6, 9, 5);
        cyc4(&mut self.corners, 1, 2, 7, 4);
        cyc4(&mut self.co, 1, 2, 7, 4);
        twist1(&mut self.co, 1, 1);
        twist1(&mut self.co, 4, 2);
        twist1(&mut self.co, 7, 1);
        twist1(&mut self.co, 2, 2);
        flipe(&mut self.eo, 1);
        flipe(&mut self.eo, 5);
        flipe(&mut self.eo, 9);
        flipe(&mut self.eo, 6);
        proof {
            assert(self@ =~= spec_b(old(self)@));
        }
    }

    /// Apply one named move in place.
    pub fn turn(&mut self, turn: &Move)
        requires
            ranges_ok(old(self)@),
        ensures
            final(self)@ == spec_turn(old(self)@, *turn),
            ranges_ok(final(self)@),
    {
        match turn {
            Move::U => self.u(),
            Move::U2 => {
                self.u();
                self.u();
            },
            Move::Up => {
                self.u();
                self.u();
                self.u();
            },
            Move::D => self.d(),
            Move::D2 => {
                self.d();
                self.d();
            },
            Move::Dp => {
                self.d();
                self.d();
                self.d();
            },
            Move::R => self.r(),
            Move::R2 => {
                self.r();
                self.r();
            },
            Move::Rp => {
                self.r();
                self.r();
                self.r();
            },
            Move::L => self.l(),
            Move::L2 => {
                self.l();
                self.l();
            },
            Move::Lp => {
                self.l();
                self.l();
                self.l();
            },
            Move::F => self.f(),
            Move::F2 => {
                self.f();
                self.f();
            },
            Move::Fp => {
                self.f();
                self.f();
                self.f();
            },
            Move::B => self.b(),
            Move::B2 => {
                self.b();
                self.b();
            },
            Move::Bp => {
                self.b();
                self.b();
                self.b();
            },
        }
    }

    /// Exchange the contents (piece and flip) of two edge slots.
    pub fn swap_edges(&mut self, a: &Edge, b: &Edge)
        requires
            dims_ok(old(self)@),
        ensures
            final(self)@.edges == old(self)@.edges.update(
                a.index_spec(),
                old(self)@.edges[b.index_spec()],
            ).update(b.index_spec(), old(self)@.edges[a.index_spec()]),
            final(self)@.eo == old(self)@.eo.update(
                a.index_spec(),
                old(self)@.eo[b.index_spec()],
            ).update(b.index_spec(), old(self)@.eo[a.index_spec()]),
            final(self)@.corners == old(self)@.corners,
            final(self)@.co == old(self)@.co,
            dims_ok(final(self)@),
    {
        let ai = a.index();
        let bi = b.index();
        let va = self.edges[ai];
        let vb = self.edges[bi];
        self.edges[ai] = vb;
        self.edges[bi] = va;
        let oa = self.eo[ai];
        let ob = self.eo[bi];
        self.eo[ai] = ob;
        self.eo[bi] = oa;
    }

    /// Exchange the contents (piece and twist) of two corner slots.
    pub fn swap_corners(&mut self, a: &Corner, b: &Corner)
        requires
            dims_ok(old(self)@),
        ensures
            final(self)@.corners == old(self)@.corners.update(
                a.index_spec(),
                old(self)@.corners[b.index_spec()],
            ).update(b.index_spec(), old(self)@.corners[a.index_spec()]),
            final(self)@.co == old(self)@.co.update(
                a.index_spec(),
                old(self)@.co[b.index_spec()],
            ).update(b.index_spec(), old(self)@.co[a.index_spec()]),
            final(self)@.edges == old(self)@.edges,
            final(self)@.eo == old(self)@.eo,
            dims_ok(final(self)@),
    {
        let ai = a.index();
        let bi = b.index();
        let va = self.corners[ai];
        let vb = self.corners[bi];
        self.corners[ai] = vb;
        self.corners[bi] = va;
        let oa = self.co[ai];
        let ob = self.co[bi];
        self.co[ai] = ob;
        self.co[bi] = oa;
    }

    /// Twist the piece in corner slot `pos` clockwise by `amount`.
    pub fn rotate_corner(&mut self, pos: &Corner, amount: u8)
        requires
            ranges_ok(old(self)@),
            amount < 3,
        ensures
            final(self)@.co == twist_at(old(self)@.co, pos.index_spec(), amount),
            final(self)@.corners == old(self)@.corners,
            final(self)@.edges == old(self)@.edges,
            final(self)@.eo == old(self)@.eo,
            dims_ok(final(self)@),
    {
        twist1(&mut self.co, pos.index(), amount);
    }
}

/// The solved cube satisfies the state invariant.
pub proof fn lemma_solved_wf()
    ensures
        wf(solved_view()),
{
    let v = solved_view();
    assert forall|x: u8| x < 12 implies v.edges.contains(x) by {
        assert(v.edges[x as int] == x);
    }
    assert forall|x: u8| x < 8 implies v.corners.contains(x) by {
        assert(v.corners[x as int] == x);
    }
}

/// A well-formed state's piece arrays carry no repeated identifiers.
pub proof fn lemma_wf_no_dup(v: CubeView)
    requires
        wf(v),
    ensures
        v.edges.no_duplicates(),
        v.corners.no_duplicates(),
{
    assert forall|i: int, j: int|
        0 <= i < v.edges.len() && 0 <= j < v.edges.len() && i != j implies v.edges[i]
        != v.edges[j] by {
        if i < j {
        } else {
            assert(v.edges[j] != v.edges[i]);
        }
    }
    assert forall|i: int, j: int|
        0 <= i < v.corners.len() && 0 <= j < v.corners.len() && i != j implies v.corners[i]
        != v.corners[j] by {
        if i < j {
        } else {
            assert(v.corners[j] != v.corners[i]);
        }
    }
}

/// A four-cycle of distinct slots maps a permutation to a permutation.
pub proof fn lemma_cyc_perm(s: Seq<u8>, n: int, a: int, b: int, c: int, d: int)
    requires
        is_perm(s, n),
        0 <= a < n,
        0 <= b < n,
        0 <= c < n,
        0 <= d < n,
        a != b && a != c && a != d && b != c && b != d && c != d,
    ensures
        is_perm(cyc(s, a, b, c, d), n),
{
    let r = cyc(s, a, b, c, d);
    assert(r[b] == s[a]);
    assert(r[c] == s[b]);
    assert(r[d] == s[c]);
    assert(r[a] == s[d]);
    assert(forall|i: int|
        0 <= i < n && i != a && i != b && i != c && i != d ==> r[i] == s[i]);
    assert forall|x: u8| x < n implies r.contains(x) by {
        assert(s.contains(x));
        let i = choose|i: int| 0 <= i < s.len() && s[i] == x;
        if i == a {
            assert(r[b] == x);
        } else if i == b {
            assert(r[c] == x);
        } else if i == c {
            assert(r[d] == x);
        } else if i == d {
            assert(r[a] == x);
        } else {
            assert(r[i] == x);
        }
        assert(exists|j: int| 0 <= j < r.len() && r[j] == x);
    }
}

proof fn lemma_u_orient(v: CubeView)
    requires
        ranges_ok(v),
    ensures
        ranges_ok(spec_u(v)),
        eo_sum(spec_u(v)) == eo_sum(v),
        co_sum(spec_u(v)) == co_sum(v),
{
}

proof fn lemma_d_orient(v: CubeView)
    requires
        ranges_ok(v),
    ensures
        ranges_ok(spec_d(v)),
        eo_sum(spec_d(v)) == eo_sum(v),
        co_sum(spec_d(v)) == co_sum(v),
{
}

proof fn lemma_r_orient(v: CubeView)
    requires
        ranges_ok(v),
    ensures
        ranges_ok(spec_r(v)),
        eo_sum(spec_r(v)) == eo_sum(v),
        co_sum(spec_r(v)) % 3 == co_sum(v) % 3,
{
    let w = spec_r(v);
    assert(co_sum(w) == rot3(v.co[5], 1) + rot3(v.co[0], 2) + v.co[2] + v.co[3] + rot3(
        v.co[1],
        1,
    ) + rot3(v.co[4], 2) + v.co[6] + v.co[7]);
}

proof fn lemma_l_orient(v: CubeView)
    requires
        ranges_ok(v),
    ensures
        ranges_ok(spec_l(v)),
        eo_sum(spec_l(v)) == eo_sum(v),
        co_sum(spec_l(v)) % 3 == co_sum(v) % 3,
{
    let w = spec_l(v);
    assert(co_sum(w) == v.co[0] + v.co[1] + rot3(v.co[7], 1) + rot3(v.co[2], 2) + v.co[4]
        + v.co[5] + rot3(v.co[3], 1) + rot3(v.co[6], 2));
}

proof fn lemma_f_orient(v: CubeView)
    requires
        ranges_ok(v),
    ensures
        ranges_ok(spec_f(v)),
        eo_sum(spec_f(v)) % 2 == eo_sum(v) % 2,
        co_sum(spec_f(v)) % 3 == co_sum(v) % 3,
{
    let w = spec_f(v);
    assert(co_sum(w) == rot3(v.co[3], 2) + v.co[1] + v.co[2] + rot3(v.co[6], 1) + v.co[4]
        + rot3(v.co[0], 1) + rot3(v.co[5], 2) + v.co[7]);
    assert(eo_sum(w) == v.eo[0] + v.eo[1] + v.eo[2] + flip1(v.eo[7]) + flip1(v.eo[3]) + v.eo[5]
        + v.eo[6] + flip1(v.eo[11]) + v.eo[8] + v.eo[9] + v.eo[10] + flip1(v.eo[4]));
}

proof fn lemma_b_orient(v: CubeView)
    requires
        ranges_ok(v),
    ensures
        ranges_ok(spec_b(v)),
        eo_sum(spec_b(v)) % 2 == eo_sum(v) % 2,
        co_sum(spec_b(v)) % 3 == co_sum(v) % 3,
{
    let w = spec_b(v);
    assert(co_sum(w) == v.co[0] + rot3(v.co[4], 1) + rot3(v.co[1], 2) + v.co[3] + rot3(
        v.co[7],
        2,
    ) + v.co[5] + v.co[6] + rot3(v.co[2], 1));
    assert(eo_sum(w) == v.eo[0] + flip1(v.eo[5]) + v.eo[2] + v.eo[3] + v.eo[4] + flip1(v.eo[9])
        + flip1(v.eo[1]) + v.eo[7] + v.eo[8] + flip1(v.eo[6]) + v.eo[10] + v.eo[11]);
}

proof fn lemma_u_wf(v: CubeView)
    requires
        wf(v),
    ensures
        wf(spec_u(v)),
{
    lemma_cyc_perm(v.edges, 12, 0, 3, 2, 1);
    lemma_cyc_perm(v.corners, 8, 0, 3, 2, 1);
    lemma_u_orient(v);
}

proof fn lemma_d_wf(v: CubeView)
    requires
        wf(v),
    ensures
        wf(spec_d(v)),
{
    lemma_cyc_perm(v.edges, 12, 8, 9, 10, 11);
    lemma_cyc_perm(v.corners, 8, 5, 4, 7, 6);
    lemma_d_orient(v);
}

proof fn lemma_r_wf(v: CubeView)
    requires
        wf(v),
    ensures
        wf(spec_r(v)),
{
    lemma_cyc_perm(v.edges, 12, 0, 5, 8, 4);
    lemma_cyc_perm(v.corners, 8, 0, 1, 4, 5);
    lemma_r_orient(v);
}

proof fn lemma_l_wf(v: CubeView)
    requires
        wf(v),
    ensures
        wf(spec_l(v)),
{
    lemma_cyc_perm(v.edges, 12, 2, 7, 10, 6);
    lemma_cyc_perm(v.corners, 8, 3, 6, 7, 2);
    lemma_l_orient(v);
}

proof fn lemma_f_wf(v: CubeView)
    requires
        wf(v),
    ensures
        wf(spec_f(v)),
{
    lemma_cyc_perm(v.edges, 12, 3, 4, 11, 7);
    lemma_cyc_perm(v.corners, 8, 0, 5, 6, 3);
    lemma_f_orient(v);
}

proof fn lemma_b_wf(v: CubeView)
    requires
        wf(v),
    ensures
        wf(spec_b(v)),
{
    lemma_cyc_perm(v.edges, 12, 1, 6, 9, 5);
    lemma_cyc_perm(v.corners, 8, 1, 2, 7, 4);
    lemma_b_orient(v);
}

/// Every face turn preserves the state invariant: the piece arrays stay
/// permutations, the edge flips keep an even sum, and the corner twists keep
/// a sum divisible by three.
pub proof fn lemma_turn_wf(v: CubeView, m: Move)
    requires
        wf(v),
    ensures
        wf(spec_turn(v, m)),
{
    match m {
        Move::U => lemma_u_wf(v),
        Move::U2 => {
            lemma_u_wf(v);
            lemma_u_wf(spec_u(v));
        },
        Move::Up => {
            lemma_u_wf(v);
            lemma_u_wf(spec_u(v));
            lemma_u_wf(spec_u(spec_u(v)));
        },
        Move::D => lemma_d_wf(v),
        Move::D2 => {
            lemma_d_wf(v);
            lemma_d_wf(spec_d(v));
        },
        Move::Dp => {
            lemma_d_wf(v);
            lemma_d_wf(spec_d(v));
            lemma_d_wf(spec_d(spec_d(v)));
        },
        Move::R => lemma_r_wf(v),
        Move::R2 => {
            lemma_r_wf(v);
            lemma_r_wf(spec_r(v));
        },
        Move::Rp => {
            lemma_r_wf(v);
            lemma_r_wf(spec_r(v));
            lemma_r_wf(spec_r(spec_r(v)));
        },
        Move::L => lemma_l_wf(v),
        Move::L2 => {
            lemma_l_wf(v);
            lemma_l_wf(spec_l(v));
        },
        Move::Lp => {
            lemma_l_wf(v);
            lemma_l_wf(spec_l(v));
            lemma_l_wf(spec_l(spec_l(v)));
        },
        Move::F => lemma_f_wf(v),
        Move::F2 => {
            lemma_f_wf(v);
            lemma_f_wf(spec_f(v));
        },
        Move::Fp => {
            lemma_f_wf(v);
            lemma_f_wf(spec_f(v));
            lemma_f_wf(spec_f(spec_f(v)));
        },
        Move::B => lemma_b_wf(v),
        Move::B2 => {
            lemma_b_wf(v);
            lemma_b_wf(spec_b(v));
        },
        Move::Bp => {
            lemma_b_wf(v);
            lemma_b_wf(spec_b(v));
            lemma_b_wf(spec_b(spec_b(v)));
        },
    }
}

/// Any sequence of moves applied to a well-formed state leaves it
/// well-formed; in particular every state reached from the solved cube
/// satisfies the invariant.
pub proof fn lemma_apply_moves_wf(v: CubeView, ms: Seq<Move>)
    requires
        wf(v),
    ensures
        wf(apply_moves(v, ms)),
    decreases ms.len(),
{
    if ms.len() > 0 {
        lemma_turn_wf(v, ms[0]);
        lemma_apply_moves_wf(spec_turn(v, ms[0]), ms.drop_first());
    }
}

/// Applying a concatenation of move sequences is applying them one after the
/// other.
pub proof fn lemma_apply_moves_concat(v: CubeView, ms1: Seq<Move>, ms2: Seq<Move>)
    ensures
        apply_moves(v, ms1 + ms2) == apply_moves(apply_moves(v, ms1), ms2),
    decreases ms1.len(),
{
    if ms1.len() == 0 {
        assert(ms1 + ms2 =~= ms2);
    } else {
        assert((ms1 + ms2).drop_first() =~= ms1.drop_first() + ms2);
        assert((ms1 + ms2)[0] == ms1[0]);
        lemma_apply_moves_concat(spec_turn(v, ms1[0]), ms1.drop_first(), ms2);
    }
}

/// Move algebra: a half turn is the quarter turn twice and a
/// counter-clockwise turn the quarter turn three times, for every face.
pub proof fn lemma_half_and_prime(v: CubeView)
    ensures
        spec_turn(v, Move::U2) == spec_turn(spec_turn(v, Move::U), Move::U),
        spec_turn(v, Move::Up) == spec_turn(spec_turn(spec_turn(v, Move::U), Move::U), Move::U),
        spec_turn(v, Move::D2) == spec_turn(spec_turn(v, Move::D), Move::D),
        spec_turn(v, Move::Dp) == spec_turn(spec_turn(spec_turn(v, Move::D), Move::D), Move::D),
        spec_turn(v, Move::R2) == spec_turn(spec_turn(v, Move::R), Move::R),
        spec_turn(v, Move::Rp) == spec_turn(spec_turn(spec_turn(v, Move::R), Move::R), Move::R),
        spec_turn(v, Move::L2) == spec_turn(spec_turn(v, Move::L), Move::L),
        spec_turn(v, Move::Lp) == spec_turn(spec_turn(spec_turn(v, Move::L), Move::L), Move::L),
        spec_turn(v, Move::F2) == spec_turn(spec_turn(v, Move::F), Move::F),
        spec_turn(v, Move::Fp) == spec_turn(spec_turn(spec_turn(v, Move::F), Move::F), Move::F),
        spec_turn(v, Move::B2) == spec_turn(spec_turn(v, Move::B), Move::B),
        spec_turn(v, Move::Bp) == spec_turn(spec_turn(spec_turn(v, Move::B), Move::B), Move::B),
{
}

#[verifier::rlimit(100)]
proof fn lemma_u_four(v: CubeView)
    requires
        ranges_ok(v),
    ensures
        spec_u(spec_u(spec_u(spec_u(v)))) == v,
{
    let v4 = spec_u(spec_u(spec_u(spec_u(v))));
    assert(v4.edges =~= v.edges);
    assert(v4.eo =~= v.eo);
    assert(v4.corners =~= v.corners);
    assert(v4.co =~= v.co);
    assert(v4 =~= v);
}

#[verifier::rlimit(100)]
proof fn lemma_d_four(v: CubeView)
    requires
        ranges_ok(v),
    ensures
        spec_d(spec_d(spec_d(spec_d(v)))) == v,
{
    let v4 = spec_d(spec_d(spec_d(spec_d(v))));
    assert(v4.edges =~= v.edges);
    assert(v4.eo =~= v.eo);
    assert(v4.corners =~= v.corners);
    assert(v4.co =~= v.co);
    assert(v4 =~= v);
}

#[verifier::rlimit(100)]
proof fn lemma_r_four(v: CubeView)
    requires
        ranges_ok(v),
    ensures
        spec_r(spec_r(spec_r(spec_r(v)))) == v,
{
    let v4 = spec_r(spec_r(spec_r(spec_r(v))));
    assert(v4.edges =~= v.edges);
    assert(v4.eo =~= v.eo);
    assert(v4.corners =~= v.corners);
    assert(v4.co =~= v.co);
    assert(v4 =~= v);
}

#[verifier::rlimit(100)]
proof fn lemma_l_four(v: CubeView)
    requires
        ranges_ok(v),
    ensures
        spec_l(spec_l(spec_l(spec_l(v)))) == v,
{
    let v4 = spec_l(spec_l(spec_l(spec_l(v))));
    assert(v4.edges =~= v.edges);
    assert(v4.eo =~= v.eo);
    assert(v4.corners =~= v.corners);
    assert(v4.co =~= v.co);
    assert(v4 =~= v);
}

#[verifier::rlimit(100)]
proof fn lemma_f_four(v: CubeView)
    requires
        ranges_ok(v),
    ensures
        spec_f(spec_f(spec_f(spec_f(v)))) == v,
{
    let v4 = spec_f(spec_f(spec_f(spec_f(v))));
    assert(v4.edges =~= v.edges);
    assert(v4.eo =~= v.eo);
    assert(v4.corners =~= v.corners);
    assert(v4.co =~= v.co);
    assert(v4 =~= v);
}

#[verifier::rlimit(100)]
proof fn lemma_b_four(v: CubeView)
    requires
        ranges_ok(v),
    ensures
        spec_b(spec_b(spec_b(spec_b(v)))) == v,
{
    let v4 = spec_b(spec_b(spec_b(spec_b(v))));
    assert(v4.edges =~= v.edges);
    assert(v4.eo =~= v.eo);
    assert(v4.corners =~= v.corners);
    assert(v4.co =~= v.co);
    assert(v4 =~= v);
}

/// Move algebra: four quarter turns of the same face restore the state.
pub proof fn lemma_face_four_times(v: CubeView)
    requires
        ranges_ok(v),
    ensures
        spec_u(spec_u(spec_u(spec_u(v)))) == v,
        spec_d(spec_d(spec_d(spec_d(v)))) == v,
        spec_r(spec_r(spec_r(spec_r(v)))) == v,
        spec_l(spec_l(spec_l(spec_l(v)))) == v,
        spec_f(spec_f(spec_f(spec_f(v)))) == v,
        spec_b(spec_b(spec_b(spec_b(v)))) == v,
{
    lemma_u_four(v);
    lemma_d_four(v);
    lemma_r_four(v);
    lemma_l_four(v);
    lemma_f_four(v);
    lemma_b_four(v);
}

} // verus!

