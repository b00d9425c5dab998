use solvers::combinatorics::{
    binom, combination_rank, factorial, paired_combination_index, permutation_parity,
    permutation_rank,
};
use solvers::cube::{Cube, Move};
use solvers::stages::{Stage, G1, G2, G3, G4};

#[test]
fn test1() {
    let mut res = vec![vec![0u8; 6]; 90];
    for i in 0u8..6 {
        for j in (i + 1)..6 {
            for k in 0u8..6 {
                for l in (k + 1)..6 {
                    if [i, j].contains(&k) || [i, j].contains(&l) {
                        continue;
                    }
                    for m in 0u8..6 {
                        for n in (m + 1)..6 {
                            if [i, j, k, l].contains(&m) || [i, j, k, l].contains(&n) {
                                continue;
                            }
                            let list = vec![i, j, k, l, m, n];
                            let index = paired_combination_index(&list, (0u8..6).collect());
                            assert_eq!(res[index], vec![0u8; 6]);
                            res[index] = list;
                        }
                    }
                }
            }
        }
    }
    assert!(!res.contains(&vec![0u8; 6]));

    assert_eq!(permutation_parity(&vec![1, 2, 4, 3], &vec![2, 1, 3, 4]), false);
}

#[test]
fn binomials_and_factorials() {
    assert_eq!(binom(12, 4), 495);
    assert_eq!(binom(8, 4), 70);
    assert_eq!(binom(8, 2), 28);
    assert_eq!(binom(6, 2), 15);
    assert_eq!(binom(4, 2), 6);
    assert_eq!(binom(3, 7), 0);
    assert_eq!(factorial(4), 24);
    assert_eq!(factorial(0), 1);
}

#[test]
fn ranking_values() {
    // Co-lex rank of the E-slice home slots among all twelve edge slots.
    let slots: Vec<u8> = vec![4, 5, 6, 7];
    let ground: Vec<u8> = (0u8..12).collect();
    assert_eq!(combination_rank(&slots, &ground), 69);
    // The lowest subset ranks zero.
    let lowest: Vec<u8> = vec![0, 1, 2, 3];
    assert_eq!(combination_rank(&lowest, &ground), 0);
    // The identity permutation ranks zero, the reversal ranks last.
    let initial: Vec<u8> = vec![10, 20, 30, 40];
    assert_eq!(permutation_rank(&vec![10, 20, 30, 40], &initial), 0);
    assert_eq!(permutation_rank(&vec![40, 30, 20, 10], &initial), 23);
    assert_eq!(permutation_parity(&vec![20, 10, 30, 40], &initial), true);
}

#[test]
fn stage_indexers_on_solved_and_turned() {
    let solved = Cube::new();
    let g1 = G1;
    let g2 = G2;
    let g3 = G3;
    let g4 = G4;
    assert_eq!(g1.indexer(&solved), 0);
    // Corner part zero; the E-slice pieces rest in slots 4..8, whose
    // co-lex rank among twelve slots is 69.
    assert_eq!(g2.indexer(&solved), 69);
    assert_eq!(g3.indexer(&solved), 0);
    // All permutation parts are zero, but UR before UL contributes the
    // ascending-order bit of the S-slice descriptor: 24 * 24 * 96.
    assert_eq!(g4.indexer(&solved), 55296);

    // A quarter turn of R flips no edges, so stage one still indexes zero;
    // a quarter turn of F flips the four edges it cycles.
    let mut r_turned = Cube::new();
    r_turned.turn(&Move::R);
    assert_eq!(g1.indexer(&r_turned), 0);
    let mut f_turned = Cube::new();
    f_turned.turn(&Move::F);
    assert!(g1.indexer(&f_turned) != 0);

    // Stage three's whole pool preserves stage two's target class: corner
    // twists stay zero and the E-slice pieces stay home, so the stage-two
    // coordinate stays at the solved cube's value.
    let mut ud = Cube::new();
    for m in [Move::U, Move::Dp, Move::L2, Move::R2, Move::F2, Move::B2, Move::D2] {
        ud.turn(&m);
        assert_eq!(g2.indexer(&ud), 69);
    }

    // After U2 D2 alone, stages one to three still see their home coset,
    // while stage four does not.
    let mut ud2 = Cube::new();
    ud2.turn(&Move::U2);
    ud2.turn(&Move::D2);
    assert_eq!(g1.indexer(&ud2), 0);
    assert_eq!(g2.indexer(&ud2), 69);
    assert_eq!(g3.indexer(&ud2), 0);
    assert_ne!(g4.indexer(&ud2), g4.indexer(&solved));

    // Sizes as exposed to the host.
    assert_eq!(g1.size(), 2048);
    assert_eq!(g2.size(), 1082565);
    assert_eq!(g3.size(), 352800);
    assert_eq!(g4.size(), 663552);
    assert_eq!(g1.move_pool().len(), 18);
    assert_eq!(g2.move_pool().len(), 14);
    assert_eq!(g3.move_pool().len(), 10);
    assert_eq!(g4.move_pool().len(), 6);
}
