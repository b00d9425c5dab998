use solvers::cube::{Cube, Move};
use solvers::lookup_table::LookupTable;
use solvers::stages::{Stage, G1};

#[test]
fn stage_one_table_distances() {
    let table = LookupTable::new(G1).expect("the stage-one build must reach every coordinate");
    // The solved cube's coordinate is recorded at distance zero.
    let solved = Cube::new();
    assert_eq!(table.eval(&solved), 0);
    // F flips the four edges it cycles: one move from an oriented state.
    let mut f_turned = Cube::new();
    f_turned.turn(&Move::F);
    assert_eq!(table.eval(&f_turned), 1);
    // R flips no edges in this orientation convention, so the edge
    // orientation coordinate is still home.
    let mut r_turned = Cube::new();
    r_turned.turn(&Move::R);
    assert_eq!(table.eval(&r_turned), 0);
}

#[test]
fn stage_one_descent_reorients_edges() {
    let table = LookupTable::new(G1).expect("the stage-one build must reach every coordinate");
    let mut cube = Cube::new();
    for m in [Move::F, Move::U, Move::B, Move::Lp, Move::F] {
        cube.turn(&m);
    }
    assert!(table.eval(&cube) > 0);
    let mut moves: Vec<Move> = Vec::new();
    assert!(table.descend(&mut cube, &mut moves));
    assert_eq!(table.eval(&cube), 0);
    // The recorded distance bounds the number of played moves: each played
    // move lowered it by at least one.
    assert!(moves.len() <= 7);
}

#[test]
fn descent_on_oriented_cube_plays_nothing() {
    let table = LookupTable::new(G1).expect("the stage-one build must reach every coordinate");
    let mut cube = Cube::new();
    cube.turn(&Move::R2);
    cube.turn(&Move::U);
    let before = cube.clone();
    let mut moves: Vec<Move> = Vec::new();
    assert!(table.descend(&mut cube, &mut moves));
    assert!(moves.is_empty());
    assert_eq!(cube, before);
}

#[test]
fn table_round_trips_through_bytes() {
    let table = LookupTable::new(G1).expect("the stage-one build must reach every coordinate");
    let bytes = table.data().clone();
    assert_eq!(bytes.len(), 2048);
    let reloaded = match LookupTable::from_bytes(G1, bytes) {
        Some(t) => t,
        None => panic!("a table's own bytes must load"),
    };
    let mut cube = Cube::new();
    cube.turn(&Move::F2);
    cube.turn(&Move::B);
    assert_eq!(reloaded.eval(&cube), table.eval(&cube));
}

#[test]
fn bad_table_bytes_are_rejected() {
    // A file of the wrong length is corrupt and must be rejected.
    assert!(LookupTable::from_bytes(G1, vec![0u8; 17]).is_none());
    // Right length, but the solved coordinate not at distance zero.
    assert!(LookupTable::from_bytes(G1, vec![9u8; 2048]).is_none());
    // All zeros: a distance of zero anywhere but the solved coordinate
    // betrays a table that never did its search.
    assert!(LookupTable::from_bytes(G1, vec![0u8; 2048]).is_none());
    let table = LookupTable::new(G1).expect("the stage-one build must reach every coordinate");
    // A genuine table reaches every coordinate.
    assert!(table.is_complete());
    // Punching a stray zero into genuine bytes is caught (the solved
    // cube's stage-one coordinate is 0, so index 7 is another coset).
    let mut bytes = table.data().clone();
    bytes[7] = 0;
    assert!(LookupTable::from_bytes(G1, bytes).is_none());
    // So is a surviving unvisited sentinel.
    let mut bytes = table.data().clone();
    bytes[7] = 255;
    assert!(LookupTable::from_bytes(G1, bytes).is_none());
}
