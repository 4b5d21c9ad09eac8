use vstd::prelude::*;

use super::board::{has_bit, SQUARES};

verus! {

/// Every square except those on the `a` file.
pub const NOT_A_FILE: u64 = 0xfefe_fefe_fefe_fefe;

/// Every square except those on the `h` file.
pub const NOT_H_FILE: u64 = 0x7f7f_7f7f_7f7f_7f7f;

/// Every square except those on the first rank.
pub const NOT_R1_RANK: u64 = 0xffff_ffff_ffff_ff00;

/// Every square except those on the eighth rank.
pub const NOT_R8_RANK: u64 = 0x00ff_ffff_ffff_ffff;

/// Every square except those on the second rank.
pub const NOT_R2_RANK: u64 = 0xffff_ffff_ffff_00ff;

/// Every square except those on the seventh rank.
pub const NOT_R7_RANK: u64 = 0xff00_ffff_ffff_ffff;

/// Every square except those on the `b` file.
pub const NOT_B_FILE: u64 = 0xfdfd_fdfd_fdfd_fdfd;

/// Every square except those on the `g` file.
pub const NOT_G_FILE: u64 = 0xbfbf_bfbf_bfbf_bfbf;

/// `to` is one king step away from `from`.
pub open spec fn king_step(from: u64, to: u64) -> bool {
    &&& to != from
    &&& to % 8 <= from % 8 + 1
    &&& from % 8 <= to % 8 + 1
    &&& to / 8 <= from / 8 + 1
    &&& from / 8 <= to / 8 + 1
}

/// `to` is one knight jump away from `from`: two squares along one axis and
/// one along the other.
pub open spec fn knight_step(from: u64, to: u64) -> bool {
    ||| (to % 8 == from % 8 + 1 || from % 8 == to % 8 + 1) && (to / 8 == from / 8 + 2 || from / 8
        == to / 8 + 2)
    ||| (to % 8 == from % 8 + 2 || from % 8 == to % 8 + 2) && (to / 8 == from / 8 + 1 || from / 8
        == to / 8 + 1)
}

/// `to` is a square a white pawn on `from` attacks: one rank up, one file aside.
pub open spec fn white_pawn_capture(from: u64, to: u64) -> bool {
    ||| to == from + 7 && from % 8 > 0
    ||| to == from + 9 && from % 8 < 7
}

/// `to` is a square a black pawn on `from` attacks: one rank down, one file aside.
pub open spec fn black_pawn_capture(from: u64, to: u64) -> bool {
    ||| to + 9 == from && from % 8 > 0
    ||| to + 7 == from && from % 8 < 7
}

/// The king attack board of `square`, as the shifts of its bit that stay on
/// the board; `lemma_king_bits` shows its bits are the king steps.
pub open spec fn king_bits(square: u64) -> u64 {
    let s = 1u64 << square;
    ((s & 0xfefe_fefe_fefe_fefe & 0x00ff_ffff_ffff_ffff) << 7u64) | ((s & 0x00ff_ffff_ffff_ffff)
        << 8u64) | ((s & 0x7f7f_7f7f_7f7f_7f7f & 0x00ff_ffff_ffff_ffff) << 9u64) | ((s
        & 0x7f7f_7f7f_7f7f_7f7f) << 1u64) | ((s & 0x7f7f_7f7f_7f7f_7f7f & 0xffff_ffff_ffff_ff00)
        >> 7u64) | ((s & 0xffff_ffff_ffff_ff00) >> 8u64) | ((s & 0xfefe_fefe_fefe_fefe
        & 0xffff_ffff_ffff_ff00) >> 9u64) | ((s & 0xfefe_fefe_fefe_fefe) >> 1u64)
}

/// The knight attack board of `square`, as the shifts of its bit that stay
/// on the board; `lemma_knight_bits` shows its bits are the knight jumps.
pub open spec fn knight_bits(square: u64) -> u64 {
    let s = 1u64 << square;
    ((s & 0x00ff_ffff_ffff_ffff & 0xff00_ffff_ffff_ffff & 0xfefe_fefe_fefe_fefe) << 15u64) | ((s
        & 0x00ff_ffff_ffff_ffff & 0xff00_ffff_ffff_ffff & 0x7f7f_7f7f_7f7f_7f7f) << 17u64) | ((s
        & 0xfefe_fefe_fefe_fefe & 0xfdfd_fdfd_fdfd_fdfd & 0x00ff_ffff_ffff_ffff) << 6u64) | ((s
        & 0xbfbf_bfbf_bfbf_bfbf & 0x7f7f_7f7f_7f7f_7f7f & 0x00ff_ffff_ffff_ffff) << 10u64) | ((s
        & 0xffff_ffff_ffff_ff00 & 0xffff_ffff_ffff_00ff & 0xfefe_fefe_fefe_fefe) >> 17u64) | ((s
        & 0xffff_ffff_ffff_ff00 & 0xffff_ffff_ffff_00ff & 0x7f7f_7f7f_7f7f_7f7f) >> 15u64) | ((s
        & 0xfefe_fefe_fefe_fefe & 0xfdfd_fdfd_fdfd_fdfd & 0xffff_ffff_ffff_ff00) >> 10u64) | ((s
        & 0xbfbf_bfbf_bfbf_bfbf & 0x7f7f_7f7f_7f7f_7f7f & 0xffff_ffff_ffff_ff00) >> 6u64)
}

/// The white pawn attack board of `square`, as the shifts of its bit that
/// stay on the board; `lemma_pawn_bits` shows its bits are the captures.
pub open spec fn white_pawn_bits(square: u64) -> u64 {
    let s = 1u64 << square;
    ((s & 0xfefe_fefe_fefe_fefe) << 7u64) | ((s & 0x7f7f_7f7f_7f7f_7f7f) << 9u64)
}

/// The black pawn attack board of `square`, as the shifts of its bit that
/// stay on the board; `lemma_pawn_bits` shows its bits are the captures.
pub open spec fn black_pawn_bits(square: u64) -> u64 {
    let s = 1u64 << square;
    ((s & 0xfefe_fefe_fefe_fefe) >> 9u64) | ((s & 0x7f7f_7f7f_7f7f_7f7f) >> 7u64)
}

/// The bits of a king attack board are the king steps from its square.
pub proof fn lemma_king_bits(square: u64, t: u64)
    requires
        square < 64,
        t < 64,
    ensures
        has_bit(king_bits(square), t) == king_step(square, t),
{
    assert(has_bit(king_bits(square), t) == king_step(square, t)) by (bit_vector)
        requires
            square < 64,
            t < 64,
    ;
}

/// The bits of a knight attack board are the knight jumps from its square.
pub proof fn lemma_knight_bits(square: u64, t: u64)
    requires
        square < 64,
        t < 64,
    ensures
        has_bit(knight_bits(square), t) == knight_step(square, t),
{
    assert(has_bit(knight_bits(square), t) == knight_step(square, t)) by (bit_vector)
        requires
            square < 64,
            t < 64,
    ;
}

/// The bits of a pawn attack board are the pawn's captures from its square.
pub proof fn lemma_pawn_bits(square: u64, t: u64)
    requires
        square < 64,
        t < 64,
    ensures
        has_bit(white_pawn_bits(square), t) == white_pawn_capture(square, t),
        has_bit(black_pawn_bits(square), t) == black_pawn_capture(square, t),
{
    assert(has_bit(white_pawn_bits(square), t) == white_pawn_capture(square, t)) by (bit_vector)
        requires
            square < 64,
            t < 64,
    ;
    assert(has_bit(black_pawn_bits(square), t) == black_pawn_capture(square, t)) by (bit_vector)
        requires
            square < 64,
            t < 64,
    ;
}

/// Returns the squares a king on `square` attacks.
pub fn king_targets(square: usize) -> (targets: u64)
    requires
        square < SQUARES,
    ensures
        targets == king_bits(square as u64),
        forall|t: u64| t < 64 ==> #[trigger] has_bit(targets, t) == king_step(square as u64, t),
{
    let sq = square as u64;
    assert forall|t: u64| t < 64 implies #[trigger] has_bit(king_bits(sq), t) == king_step(sq, t) by {
        lemma_king_bits(sq, t);
    }
    let s = 1u64 << sq;
    ((s & NOT_A_FILE & NOT_R8_RANK) << 7u64) | ((s & NOT_R8_RANK) << 8u64) | ((s & NOT_H_FILE
        & NOT_R8_RANK) << 9u64) | ((s & NOT_H_FILE) << 1u64) | ((s & NOT_H_FILE & NOT_R1_RANK)
        >> 7u64) | ((s & NOT_R1_RANK) >> 8u64) | ((s & NOT_A_FILE & NOT_R1_RANK) >> 9u64) | ((s
        & NOT_A_FILE) >> 1u64)
}

/// Returns the squares a knight on `square` attacks.
pub fn knight_targets(square: usize) -> (targets: u64)
    requires
        square < SQUARES,
    ensures
        targets == knight_bits(square as u64),
        forall|t: u64| t < 64 ==> #[trigger] has_bit(targets, t) == knight_step(square as u64, t),
{
    let sq = square as u64;
    assert forall|t: u64| t < 64 implies #[trigger] has_bit(knight_bits(sq), t) == knight_step(
        sq,
        t,
    ) by {
        lemma_knight_bits(sq, t);
    }
    let s = 1u64 << sq;
    ((s & NOT_R8_RANK & NOT_R7_RANK & NOT_A_FILE) << 15u64) | ((s & NOT_R8_RANK & NOT_R7_RANK
        & NOT_H_FILE) << 17u64) | ((s & NOT_A_FILE & NOT_B_FILE & NOT_R8_RANK) << 6u64) | ((s
        & NOT_G_FILE & NOT_H_FILE & NOT_R8_RANK) << 10u64) | ((s & NOT_R1_RANK & NOT_R2_RANK
        & NOT_A_FILE) >> 17u64) | ((s & NOT_R1_RANK & NOT_R2_RANK & NOT_H_FILE) >> 15u64) | ((s
        & NOT_A_FILE & NOT_B_FILE & NOT_R1_RANK) >> 10u64) | ((s & NOT_G_FILE & NOT_H_FILE
        & NOT_R1_RANK) >> 6u64)
}

/// Returns the squares a white pawn on `square` attacks.
pub fn white_pawn_targets(square: usize) -> (targets: u64)
    requires
        square < SQUARES,
    ensures
        targets == white_pawn_bits(square as u64),
        forall|t: u64|
            t < 64 ==> #[trigger] has_bit(targets, t) == white_pawn_capture(square as u64, t),
{
    let sq = square as u64;
    assert forall|t: u64| t < 64 implies #[trigger] has_bit(white_pawn_bits(sq), t)
        == white_pawn_capture(sq, t) by {
        lemma_pawn_bits(sq, t);
    }
    let s = 1u64 << sq;
    ((s & NOT_A_FILE) << 7u64) | ((s & NOT_H_FILE) << 9u64)
}

/// Returns the squares a black pawn on `square` attacks.
pub fn black_pawn_targets(square: usize) -> (targets: u64)
    requires
        square < SQUARES,
    ensures
        targets == black_pawn_bits(square as u64),
        forall|t: u64|
            t < 64 ==> #[trigger] has_bit(targets, t) == black_pawn_capture(square as u64, t),
{
    let sq = square as u64;
    assert forall|t: u64| t < 64 implies #[trigger] has_bit(black_pawn_bits(sq), t)
        == black_pawn_capture(sq, t) by {
        lemma_pawn_bits(sq, t);
    }
    let s = 1u64 << sq;
    ((s & NOT_A_FILE) >> 9u64) | ((s & NOT_H_FILE) >> 7u64)
}

/// Returns the king attack board of every square, indexed by square.
pub fn new_king_table() -> (table: Vec<u64>)
    ensures
        table@.len() == SQUARES,
        forall|sq: int|
            0 <= sq < SQUARES ==> #[trigger] table@[sq] == king_bits(sq as u64),
        forall|sq: int, t: u64|
            0 <= sq < SQUARES && t < 64 ==> #[trigger] has_bit(table@[sq], t) == king_step(
                sq as u64,
                t,
            ),
{
    let mut table: Vec<u64> = Vec::new();
    let mut sq: usize = 0;
    while sq < SQUARES
        invariant
            sq <= SQUARES,
            table@.len() == sq,
            forall|i: int| 0 <= i < sq ==> #[trigger] table@[i] == king_bits(i as u64),
        decreases SQUARES - sq,
    {
        table.push(king_targets(sq));
        sq = sq + 1;
    }
    assert forall|sq: int, t: u64| 0 <= sq < SQUARES && t < 64 implies #[trigger] has_bit(
        table@[sq],
        t,
    ) == king_step(sq as u64, t) by {
        lemma_king_bits(sq as u64, t);
    }
    table
}

/// Returns the knight attack board of every square, indexed by square.
pub fn new_knight_table() -> (table: Vec<u64>)
    ensures
        table@.len() == SQUARES,
        forall|sq: int|
            0 <= sq < SQUARES ==> #[trigger] table@[sq] == knight_bits(sq as u64),
        forall|sq: int, t: u64|
            0 <= sq < SQUARES && t < 64 ==> #[trigger] has_bit(table@[sq], t) == knight_step(
                sq as u64,
                t,
            ),
{
    let mut table: Vec<u64> = Vec::new();
    let mut sq: usize = 0;
    while sq < SQUARES
        invariant
            sq <= SQUARES,
            table@.len() == sq,
            forall|i: int| 0 <= i < sq ==> #[trigger] table@[i] == knight_bits(i as u64),
        decreases SQUARES - sq,
    {
        table.push(knight_targets(sq));
        sq = sq + 1;
    }
    assert forall|sq: int, t: u64| 0 <= sq < SQUARES && t < 64 implies #[trigger] has_bit(
        table@[sq],
        t,
    ) == knight_step(sq as u64, t) by {
        lemma_knight_bits(sq as u64, t);
    }
    table
}

/// Returns the pawn attack boards, indexed by side (white = 0, black = 1)
/// and then by square.
pub fn new_pawn_table() -> (table: Vec<Vec<u64>>)
    ensures
        table@.len() == 2,
        table@[0]@.len() == SQUARES,
        table@[1]@.len() == SQUARES,
        forall|sq: int|
            0 <= sq < SQUARES ==> #[trigger] table@[0]@[sq] == white_pawn_bits(sq as u64),
        forall|sq: int|
            0 <= sq < SQUARES ==> #[trigger] table@[1]@[sq] == black_pawn_bits(sq as u64),
        forall|sq: int, t: u64|
            0 <= sq < SQUARES && t < 64 ==> #[trigger] has_bit(table@[0]@[sq], t)
                == white_pawn_capture(sq as u64, t),
        forall|sq: int, t: u64|
            0 <= sq < SQUARES && t < 64 ==> #[trigger] has_bit(table@[1]@[sq], t)
                == black_pawn_capture(sq as u64, t),
{
    let mut white: Vec<u64> = Vec::new();
    let mut black: Vec<u64> = Vec::new();
    let mut sq: usize = 0;
    while sq < SQUARES
        invariant
            sq <= SQUARES,
            white@.len() == sq,
            black@.len() == sq,
            forall|i: int| 0 <= i < sq ==> #[trigger] white@[i] == white_pawn_bits(i as u64),
            forall|i: int| 0 <= i < sq ==> #[trigger] black@[i] == black_pawn_bits(i as u64),
        decreases SQUARES - sq,
    {
        white.push(white_pawn_targets(sq));
        black.push(black_pawn_targets(sq));
        sq = sq + 1;
    }
    let mut table: Vec<Vec<u64>> = Vec::new();
    proof {
        assert forall|sq: int, t: u64| 0 <= sq < SQUARES && t < 64 implies #[trigger] has_bit(
            white@[sq],
            t,
        ) == white_pawn_capture(sq as u64, t) by {
            lemma_pawn_bits(sq as u64, t);
        }
        assert forall|sq: int, t: u64| 0 <= sq < SQUARES && t < 64 implies #[trigger] has_bit(
            black@[sq],
            t,
        ) == black_pawn_capture(sq as u64, t) by {
            lemma_pawn_bits(sq as u64, t);
        }
    }
    table.push(white);
    table.push(black);
    table
}

} // verus!
