use solvers::cube::{Corner, Cube, Edge, Move};

#[test]
fn r_l_u_moves() {
    // Short algorithm that affects only few pieces in the end.
    let moves = [Move::Rp, Move::U, Move::L, Move::Up, Move::R, Move::U, Move::Lp, Move::Up];

    let mut cube = Cube::new();
    for turn in &moves {
        cube.turn(turn);
    }

    cube.swap_corners(&Corner::URB, &Corner::URF);
    cube.swap_corners(&Corner::URF, &Corner::ULF);
    cube.rotate_corner(&Corner::URF, 2);
    cube.rotate_corner(&Corner::ULF, 2);
    cube.rotate_corner(&Corner::URB, 2);

    assert_eq!(cube, Cube::new());
}

#[test]
fn d_f_b_moves() {
    // Short algorithm that affects only few pieces in the end.
    let moves = [Move::Fp, Move::D, Move::B, Move::Dp, Move::F, Move::D, Move::Bp, Move::Dp];

    let mut cube = Cube::new();
    for turn in &moves {
        cube.turn(turn);
    }

    cube.swap_corners(&Corner::DLF, &Corner::DRF);
    cube.swap_corners(&Corner::DRF, &Corner::DRB);
    cube.rotate_corner(&Corner::DRF, 2);
    cube.rotate_corner(&Corner::DLF, 2);
    cube.rotate_corner(&Corner::DRB, 2);

    assert_eq!(cube, Cube::new());
}

#[test]
fn double_moves() {
    let mut cube1 = Cube::new();
    let mut cube2 = Cube::new();

    let moves = vec![Move::R2, Move::U2].repeat(3);
    for turn in moves {
        cube1.turn(&turn);
    }

    cube2.swap_edges(&Edge::UF, &Edge::UB);
    cube2.swap_edges(&Edge::RF, &Edge::RB);

    assert_eq!(cube1, cube2);

    let moves = vec![Move::L2, Move::F2].repeat(3);
    for turn in moves {
        cube1.turn(&turn);
    }

    cube2.swap_edges(&Edge::UF, &Edge::DF);
    cube2.swap_edges(&Edge::UL, &Edge::DL);

    assert_eq!(cube1, cube2);

    let moves = vec![Move::D2, Move::B2].repeat(3);
    for turn in moves {
        cube1.turn(&turn);
    }

    cube2.swap_edges(&Edge::RB, &Edge::LB);
    cube2.swap_edges(&Edge::DR, &Edge::DL);

    assert_eq!(cube1, cube2);
}

#[test]
fn four_quarter_turns_restore() {
    for m in [Move::U, Move::D, Move::R, Move::L, Move::F, Move::B] {
        let mut cube = Cube::new();
        for _ in 0..4 {
            cube.turn(&m);
        }
        assert_eq!(cube, Cube::new());
        assert!(cube.is_solved());
    }
}

#[test]
fn half_and_prime_compose() {
    let pairs = [
        (Move::U, Move::U2, Move::Up),
        (Move::D, Move::D2, Move::Dp),
        (Move::R, Move::R2, Move::Rp),
        (Move::L, Move::L2, Move::Lp),
        (Move::F, Move::F2, Move::Fp),
        (Move::B, Move::B2, Move::Bp),
    ];
    for (q, h, p) in pairs {
        let mut a = Cube::new();
        a.turn(&h);
        let mut b = Cube::new();
        b.turn(&q);
        b.turn(&q);
        assert_eq!(a, b);

        let mut c = Cube::new();
        c.turn(&p);
        let mut d = Cube::new();
        d.turn(&q);
        d.turn(&q);
        d.turn(&q);
        assert_eq!(c, d);

        // A quarter turn followed by its inverse restores the cube.
        let mut e = Cube::new();
        e.turn(&q);
        e.turn(&p);
        assert!(e.is_solved());
    }
}

#[test]
fn position_lookups_invert_type_lookups() {
    let mut cube = Cube::new();
    for m in [Move::R, Move::U2, Move::Fp, Move::L, Move::D] {
        cube.turn(&m);
    }
    for i in 0..12 {
        let piece = cube.get_edge_type(&edge_of(i));
        let slot = cube.get_edge_position(&piece);
        assert_eq!(slot, edge_of(i));
    }
    for i in 0..8 {
        let piece = cube.get_corner_type(&corner_of(i));
        let slot = cube.get_corner_position(&piece);
        assert_eq!(slot, corner_of(i));
    }
}

fn edge_of(i: usize) -> Edge {
    Edge::from_index(i)
}

fn corner_of(i: usize) -> Corner {
    Corner::from_index(i)
}
