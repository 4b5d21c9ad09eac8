use chess_kit::attack::board::{
    anti_diagonal_board, diagonal_board, file_board, rank_board, reverse, square_board,
};
use chess_kit::attack::magics::{BishopMagicsTable, RookMagicsTable};
use chess_kit::attack::moving_pieces::{
    black_pawn_targets, king_targets, knight_targets, new_king_table, new_knight_table,
    new_pawn_table, white_pawn_targets,
};
use chess_kit::attack::sliding_pieces::{
    bishop_attacks, bishop_mask, empty_bishop_targets, empty_rook_targets, rook_attacks, rook_mask,
};

const A1: usize = 0;
const B1: usize = 1;
const E1: usize = 4;
const H1: usize = 7;
const A2: usize = 8;
const B2: usize = 9;
const C3: usize = 18;
const D4: usize = 27;
const E4: usize = 28;
const H8: usize = 63;

fn bits(squares: &[usize]) -> u64 {
    squares.iter().fold(0, |board, square| board | (1u64 << square))
}

#[test]
fn boards_of_lines() {
    assert_eq!(square_board(E4), 1 << E4);
    assert_eq!(file_board(0), 0x0101_0101_0101_0101);
    assert_eq!(rank_board(1), 0xff00);
    assert_eq!(diagonal_board(A1), 0x8040_2010_0804_0201);
    assert_eq!(anti_diagonal_board(H1), 0x0102_0408_1020_4080);
    assert_eq!(reverse(1), 1 << 63);
    assert_eq!(reverse(0x8000_0000_0000_0006), 0x6000_0000_0000_0001);
}

#[test]
fn king_and_knight_targets() {
    assert_eq!(king_targets(A1), bits(&[B1, A2, B2]));
    assert_eq!(king_targets(H8).count_ones(), 3);
    assert_eq!(king_targets(E4).count_ones(), 8);
    assert_eq!(knight_targets(A1), bits(&[10, 17]));
    assert_eq!(knight_targets(D4).count_ones(), 8);
    let kings = new_king_table();
    let knights = new_knight_table();
    assert_eq!(kings.len(), 64);
    assert_eq!(knights[D4], knight_targets(D4));
    for square in 0..64 {
        for target in 0..64 {
            let there = knights[square] & (1 << target) != 0;
            let back = knights[target] & (1 << square) != 0;
            assert_eq!(there, back);
            let there = kings[square] & (1 << target) != 0;
            let back = kings[target] & (1 << square) != 0;
            assert_eq!(there, back);
        }
    }
}

#[test]
fn pawn_captures() {
    assert_eq!(white_pawn_targets(E4), bits(&[35, 37]));
    assert_eq!(white_pawn_targets(A2), bits(&[17]));
    assert_eq!(black_pawn_targets(E4), bits(&[19, 21]));
    assert_eq!(black_pawn_targets(H8), bits(&[54]));
    let pawns = new_pawn_table();
    assert_eq!(pawns.len(), 2);
    assert_eq!(pawns[0][E4], white_pawn_targets(E4));
    assert_eq!(pawns[1][E4], black_pawn_targets(E4));
}

#[test]
fn sliding_targets_on_an_empty_board() {
    assert_eq!(empty_rook_targets(A1).count_ones(), 14);
    assert_eq!(empty_bishop_targets(D4).count_ones(), 13);
    assert_eq!(rook_mask(A1).count_ones(), 12);
    assert_eq!(bishop_mask(D4).count_ones(), 9);
    assert_eq!(rook_attacks(A1, 0), empty_rook_targets(A1));
    assert_eq!(bishop_attacks(C3, 0), empty_bishop_targets(C3));
}

#[test]
fn sliding_attacks_stop_at_blockers() {
    let occupancy = bits(&[E1, 3 * 8 + 0]);
    let attacks = rook_attacks(A1, occupancy);
    assert_eq!(attacks, bits(&[B1, 2, 3, E1, A2, 16, 24]));
    let occupancy = bits(&[D4, E4]);
    assert_eq!(bishop_attacks(A1, occupancy), bits(&[B2, C3, D4]));
}

#[test]
fn magic_tables_agree_with_direct_attacks() {
    let rooks = RookMagicsTable::new();
    let bishops = BishopMagicsTable::new();
    let occupancies = [0u64, 0x0000_0010_0800_2400, 0x00ff_0000_0000_ff00, 0x8142_2418_1824_4281];
    for square in 0..64 {
        for occupancy in occupancies {
            let occupancy = occupancy & !(1u64 << square);
            let rook = rooks.table[rooks.magics[square].idx(occupancy)];
            assert_eq!(rook, rook_attacks(square, occupancy));
            assert_eq!(rooks.targets(square, occupancy), rook);
            let bishop = bishops.table[bishops.magics[square].idx(occupancy)];
            assert_eq!(bishop, bishop_attacks(square, occupancy));
            assert_eq!(bishops.targets(square, occupancy), bishop);
        }
    }
}

#[test]
fn every_magic_lookup_is_exact() {
    assert!(RookMagicsTable::new().is_exact());
    assert!(BishopMagicsTable::new().is_exact());
}

#[test]
fn a_corrupted_table_is_not_exact() {
    let mut rooks = RookMagicsTable::new();
    let index = rooks.magics[0].idx(0);
    rooks.table[index] ^= 1 << 9;
    assert!(!rooks.is_exact());
}
