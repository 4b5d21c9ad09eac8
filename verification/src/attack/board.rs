use vstd::prelude::*;

verus! {

/// The number of squares on the board.
pub const SQUARES: usize = 64;

/// Whether the bit for square `index` is set in `board`.
pub open spec fn has_bit(board: u64, index: u64) -> bool {
    (board >> index) & 1 == 1
}

/// The file (column, `a` = 0) of a square index.
pub open spec fn file_of(square: u64) -> u64 {
    square % 8
}

/// The rank (row, rank 1 = 0) of a square index.
pub open spec fn rank_of(square: u64) -> u64 {
    square / 8
}

/// The board holding only `square`.
pub open spec fn square_bit(square: u64) -> u64 {
    1u64 << square
}

/// The board of every square on `file`.
pub open spec fn file_bits(file: u64) -> u64 {
    0x0101_0101_0101_0101u64 << file
}

/// The board of every square on `rank`.
pub open spec fn rank_bits(rank: u64) -> u64 {
    0xffu64 << (8 * rank) as u64
}

/// The board of the diagonal (rank minus file constant) through `square`.
pub open spec fn diagonal_bits(square: u64) -> u64 {
    if square / 8 >= square % 8 {
        0x8040_2010_0804_0201u64 << (8 * (square / 8 - square % 8)) as u64
    } else {
        0x8040_2010_0804_0201u64 >> (8 * (square % 8 - square / 8)) as u64
    }
}

/// The board of the anti-diagonal (rank plus file constant) through `square`.
pub open spec fn anti_diagonal_bits(square: u64) -> u64 {
    if square / 8 + square % 8 >= 7 {
        0x0102_0408_1020_4080u64 << (8 * (square / 8 + square % 8 - 7)) as u64
    } else {
        0x0102_0408_1020_4080u64 >> (8 * (7 - square / 8 - square % 8)) as u64
    }
}

/// Every bit of `x`, in reverse order, written as the standard sequence of
/// swaps of ever larger groups of bits.
pub open spec fn reverse64(x: u64) -> u64 {
    let a = ((x >> 1u64) & 0x5555_5555_5555_5555) | ((x & 0x5555_5555_5555_5555) << 1u64);
    let b = ((a >> 2u64) & 0x3333_3333_3333_3333) | ((a & 0x3333_3333_3333_3333) << 2u64);
    let c = ((b >> 4u64) & 0x0f0f_0f0f_0f0f_0f0f) | ((b & 0x0f0f_0f0f_0f0f_0f0f) << 4u64);
    let d = ((c >> 8u64) & 0x00ff_00ff_00ff_00ff) | ((c & 0x00ff_00ff_00ff_00ff) << 8u64);
    let e = ((d >> 16u64) & 0x0000_ffff_0000_ffff) | ((d & 0x0000_ffff_0000_ffff) << 16u64);
    (e >> 32u64) | (e << 32u64)
}

/// The bit at index `i` of `reverse64(x)` is the bit at index `63 - i` of `x`.
pub proof fn lemma_reverse64_bit(x: u64, i: u64)
    requires
        i < 64,
    ensures
        has_bit(reverse64(x), i) == has_bit(x, (63 - i) as u64),
{
    assert(has_bit(reverse64(x), i) == has_bit(x, (63 - i) as u64)) by (bit_vector)
        requires
            i < 64,
    ;
}

/// Two boards with the same 64 bits are the same board.
pub proof fn lemma_same_bits(y: u64, z: u64)
    requires
        forall|i: u64| i < 64 ==> #[trigger] has_bit(y, i) == has_bit(z, i),
    ensures
        y == z,
{
    assert(has_bit(y, 0) == has_bit(z, 0));
    assert(has_bit(y, 1) == has_bit(z, 1));
    assert(has_bit(y, 2) == has_bit(z, 2));
    assert(has_bit(y, 3) == has_bit(z, 3));
    assert(has_bit(y, 4) == has_bit(z, 4));
    assert(has_bit(y, 5) == has_bit(z, 5));
    assert(has_bit(y, 6) == has_bit(z, 6));
    assert(has_bit(y, 7) == has_bit(z, 7));
    assert(has_bit(y, 8) == has_bit(z, 8));
    assert(has_bit(y, 9) == has_bit(z, 9));
    assert(has_bit(y, 10) == has_bit(z, 10));
    assert(has_bit(y, 11) == has_bit(z, 11));
    assert(has_bit(y, 12) == has_bit(z, 12));
    assert(has_bit(y, 13) == has_bit(z, 13));
    assert(has_bit(y, 14) == has_bit(z, 14));
    assert(has_bit(y, 15) == has_bit(z, 15));
    assert(has_bit(y, 16) == has_bit(z, 16));
    assert(has_bit(y, 17) == has_bit(z, 17));
    assert(has_bit(y, 18) == has_bit(z, 18));
    assert(has_bit(y, 19) == has_bit(z, 19));
    assert(has_bit(y, 20) == has_bit(z, 20));
    assert(has_bit(y, 21) == has_bit(z, 21));
    assert(has_bit(y, 22) == has_bit(z, 22));
    assert(has_bit(y, 23) == has_bit(z, 23));
    assert(has_bit(y, 24) == has_bit(z, 24));
    assert(has_bit(y, 25) == has_bit(z, 25));
    assert(has_bit(y, 26) == has_bit(z, 26));
    assert(has_bit(y, 27) == has_bit(z, 27));
    assert(has_bit(y, 28) == has_bit(z, 28));
    assert(has_bit(y, 29) == has_bit(z, 29));
    assert(has_bit(y, 30) == has_bit(z, 30));
    assert(has_bit(y, 31) == has_bit(z, 31));
    assert(has_bit(y, 32) == has_bit(z, 32));
    assert(has_bit(y, 33) == has_bit(z, 33));
    assert(has_bit(y, 34) == has_bit(z, 34));
    assert(has_bit(y, 35) == has_bit(z, 35));
    assert(has_bit(y, 36) == has_bit(z, 36));
    assert(has_bit(y, 37) == has_bit(z, 37));
    assert(has_bit(y, 38) == has_bit(z, 38));
    assert(has_bit(y, 39) == has_bit(z, 39));
    assert(has_bit(y, 40) == has_bit(z, 40));
    assert(has_bit(y, 41) == has_bit(z, 41));
    assert(has_bit(y, 42) == has_bit(z, 42));
    assert(has_bit(y, 43) == has_bit(z, 43));
    assert(has_bit(y, 44) == has_bit(z, 44));
    assert(has_bit(y, 45) == has_bit(z, 45));
    assert(has_bit(y, 46) == has_bit(z, 46));
    assert(has_bit(y, 47) == has_bit(z, 47));
    assert(has_bit(y, 48) == has_bit(z, 48));
    assert(has_bit(y, 49) == has_bit(z, 49));
    assert(has_bit(y, 50) == has_bit(z, 50));
    assert(has_bit(y, 51) == has_bit(z, 51));
    assert(has_bit(y, 52) == has_bit(z, 52));
    assert(has_bit(y, 53) == has_bit(z, 53));
    assert(has_bit(y, 54) == has_bit(z, 54));
    assert(has_bit(y, 55) == has_bit(z, 55));
    assert(has_bit(y, 56) == has_bit(z, 56));
    assert(has_bit(y, 57) == has_bit(z, 57));
    assert(has_bit(y, 58) == has_bit(z, 58));
    assert(has_bit(y, 59) == has_bit(z, 59));
    assert(has_bit(y, 60) == has_bit(z, 60));
    assert(has_bit(y, 61) == has_bit(z, 61));
    assert(has_bit(y, 62) == has_bit(z, 62));
    assert(has_bit(y, 63) == has_bit(z, 63));
    assert(y == z) by (bit_vector)
        requires
            has_bit(y, 0) == has_bit(z, 0),
            has_bit(y, 1) == has_bit(z, 1),
            has_bit(y, 2) == has_bit(z, 2),
            has_bit(y, 3) == has_bit(z, 3),
            has_bit(y, 4) == has_bit(z, 4),
            has_bit(y, 5) == has_bit(z, 5),
            has_bit(y, 6) == has_bit(z, 6),
            has_bit(y, 7) == has_bit(z, 7),
            has_bit(y, 8) == has_bit(z, 8),
            has_bit(y, 9) == has_bit(z, 9),
            has_bit(y, 10) == has_bit(z, 10),
            has_bit(y, 11) == has_bit(z, 11),
            has_bit(y, 12) == has_bit(z, 12),
            has_bit(y, 13) == has_bit(z, 13),
            has_bit(y, 14) == has_bit(z, 14),
            has_bit(y, 15) == has_bit(z, 15),
            has_bit(y, 16) == has_bit(z, 16),
            has_bit(y, 17) == has_bit(z, 17),
            has_bit(y, 18) == has_bit(z, 18),
            has_bit(y, 19) == has_bit(z, 19),
            has_bit(y, 20) == has_bit(z, 20),
            has_bit(y, 21) == has_bit(z, 21),
            has_bit(y, 22) == has_bit(z, 22),
            has_bit(y, 23) == has_bit(z, 23),
            has_bit(y, 24) == has_bit(z, 24),
            has_bit(y, 25) == has_bit(z, 25),
            has_bit(y, 26) == has_bit(z, 26),
            has_bit(y, 27) == has_bit(z, 27),
            has_bit(y, 28) == has_bit(z, 28),
            has_bit(y, 29) == has_bit(z, 29),
            has_bit(y, 30) == has_bit(z, 30),
            has_bit(y, 31) == has_bit(z, 31),
            has_bit(y, 32) == has_bit(z, 32),
            has_bit(y, 33) == has_bit(z, 33),
            has_bit(y, 34) == has_bit(z, 34),
            has_bit(y, 35) == has_bit(z, 35),
            has_bit(y, 36) == has_bit(z, 36),
            has_bit(y, 37) == has_bit(z, 37),
            has_bit(y, 38) == has_bit(z, 38),
            has_bit(y, 39) == has_bit(z, 39),
            has_bit(y, 40) == has_bit(z, 40),
            has_bit(y, 41) == has_bit(z, 41),
            has_bit(y, 42) == has_bit(z, 42),
            has_bit(y, 43) == has_bit(z, 43),
            has_bit(y, 44) == has_bit(z, 44),
            has_bit(y, 45) == has_bit(z, 45),
            has_bit(y, 46) == has_bit(z, 46),
            has_bit(y, 47) == has_bit(z, 47),
            has_bit(y, 48) == has_bit(z, 48),
            has_bit(y, 49) == has_bit(z, 49),
            has_bit(y, 50) == has_bit(z, 50),
            has_bit(y, 51) == has_bit(z, 51),
            has_bit(y, 52) == has_bit(z, 52),
            has_bit(y, 53) == has_bit(z, 53),
            has_bit(y, 54) == has_bit(z, 54),
            has_bit(y, 55) == has_bit(z, 55),
            has_bit(y, 56) == has_bit(z, 56),
            has_bit(y, 57) == has_bit(z, 57),
            has_bit(y, 58) == has_bit(z, 58),
            has_bit(y, 59) == has_bit(z, 59),
            has_bit(y, 60) == has_bit(z, 60),
            has_bit(y, 61) == has_bit(z, 61),
            has_bit(y, 62) == has_bit(z, 62),
            has_bit(y, 63) == has_bit(z, 63),
    ;
}

/// `u64::reverse_bits`, which reverses the order of the bits of `x`: bit `i`
/// of the result is bit `63 - i` of `x`.
#[verifier::external_body]
fn reverse_bits(x: u64) -> (reversed: u64)
    ensures
        forall|i: u64| i < 64 ==> #[trigger] has_bit(reversed, i) == has_bit(x, (63 - i) as u64),
{
    x.reverse_bits()
}

/// Returns `x` with the order of its bits reversed.
pub fn reverse(x: u64) -> (reversed: u64)
    ensures
        reversed == reverse64(x),
{
    let reversed = reverse_bits(x);
    proof {
        assert forall|i: u64| i < 64 implies #[trigger] has_bit(reversed, i) == has_bit(
            reverse64(x),
            i,
        ) by {
            lemma_reverse64_bit(x, i);
        }
        lemma_same_bits(reversed, reverse64(x));
    }
    reversed
}

/// The number of set bits of the byte `b`.
pub open spec fn byte_ones(b: u64) -> int {
    (b & 1) + ((b >> 1u64) & 1) + ((b >> 2u64) & 1) + ((b >> 3u64) & 1) + ((b >> 4u64) & 1) + ((b
        >> 5u64) & 1) + ((b >> 6u64) & 1) + ((b >> 7u64) & 1)
}

/// The number of set bits of `x`: the sum of those of its eight bytes.
pub open spec fn popcount(x: u64) -> int {
    byte_ones(x & 0xff) + byte_ones((x >> 8u64) & 0xff) + byte_ones((x >> 16u64) & 0xff)
        + byte_ones((x >> 24u64) & 0xff) + byte_ones((x >> 32u64) & 0xff) + byte_ones(
        (x >> 40u64) & 0xff,
    ) + byte_ones((x >> 48u64) & 0xff) + byte_ones((x >> 56u64) & 0xff)
}

/// `u64::count_ones`, which counts the set bits of `x`.
#[verifier::external_body]
pub(crate) fn count_ones(x: u64) -> (count: u32)
    ensures
        count == popcount(x),
{
    x.count_ones()
}

/// Returns the board holding only `square`.
pub fn square_board(square: usize) -> (board: u64)
    requires
        square < SQUARES,
    ensures
        board == square_bit(square as u64),
        forall|t: u64| t < 64 ==> #[trigger] has_bit(board, t) == (t == square),
{
    let s = square as u64;
    assert forall|t: u64| t < 64 implies #[trigger] has_bit(1u64 << s, t) == (t == s) by {
        assert(has_bit(1u64 << s, t) == (t == s)) by (bit_vector)
            requires
                t < 64,
                s < 64,
        ;
    }
    1u64 << s
}

/// Returns the board of every square on `file` (`a` = 0).
pub fn file_board(file: usize) -> (board: u64)
    requires
        file < 8,
    ensures
        board == file_bits(file as u64),
        forall|t: u64| t < 64 ==> #[trigger] has_bit(board, t) == (file_of(t) == file),
{
    let f = file as u64;
    assert forall|t: u64| t < 64 implies #[trigger] has_bit(file_bits(f), t) == (file_of(t)
        == f) by {
        assert(has_bit(0x0101_0101_0101_0101u64 << f, t) == (t % 8 == f)) by (bit_vector)
            requires
                t < 64,
                f < 8,
        ;
    }
    0x0101_0101_0101_0101u64 << f
}

/// Returns the board of every square on `rank` (rank 1 = 0).
pub fn rank_board(rank: usize) -> (board: u64)
    requires
        rank < 8,
    ensures
        board == rank_bits(rank as u64),
        forall|t: u64| t < 64 ==> #[trigger] has_bit(board, t) == (rank_of(t) == rank),
{
    let r = rank as u64;
    assert forall|t: u64| t < 64 implies #[trigger] has_bit(rank_bits(r), t) == (rank_of(t)
        == r) by {
        assert(has_bit(0xffu64 << (8 * r) as u64, t) == (t / 8 == r)) by (bit_vector)
            requires
                t < 64,
                r < 8,
        ;
    }
    0xffu64 << (8 * r)
}

/// Returns the board of the diagonal (rank minus file constant) through `square`.
pub fn diagonal_board(square: usize) -> (board: u64)
    requires
        square < SQUARES,
    ensures
        board == diagonal_bits(square as u64),
        forall|t: u64|
            t < 64 ==> #[trigger] has_bit(board, t) == (rank_of(t) + file_of(square as u64)
                == rank_of(square as u64) + file_of(t)),
{
    let s = square as u64;
    assert forall|t: u64| t < 64 implies #[trigger] has_bit(diagonal_bits(s), t) == (rank_of(t)
        + file_of(s) == rank_of(s) + file_of(t)) by {
        assert(has_bit(diagonal_bits(s), t) == (t / 8 + s % 8 == s / 8 + t % 8)) by (bit_vector)
            requires
                t < 64,
                s < 64,
        ;
    }
    let rank = s / 8;
    let file = s % 8;
    if rank >= file {
        0x8040_2010_0804_0201u64 << (8 * (rank - file))
    } else {
        0x8040_2010_0804_0201u64 >> (8 * (file - rank))
    }
}

/// Returns the board of the anti-diagonal (rank plus file constant) through `square`.
pub fn anti_diagonal_board(square: usize) -> (board: u64)
    requires
        square < SQUARES,
    ensures
        board == anti_diagonal_bits(square as u64),
        forall|t: u64|
            t < 64 ==> #[trigger] has_bit(board, t) == (rank_of(t) + file_of(t) == rank_of(
                square as u64,
            ) + file_of(square as u64)),
{
    let s = square as u64;
    assert forall|t: u64| t < 64 implies #[trigger] has_bit(anti_diagonal_bits(s), t) == (
    rank_of(t) + file_of(t) == rank_of(s) + file_of(s)) by {
        assert(has_bit(anti_diagonal_bits(s), t) == (t / 8 + t % 8 == s / 8 + s % 8))
            by (bit_vector)
            requires
                t < 64,
                s < 64,
        ;
    }
    let rank = s / 8;
    let file = s % 8;
    if rank + file >= 7 {
        0x0102_0408_1020_4080u64 << (8 * (rank + file - 7))
    } else {
        0x0102_0408_1020_4080u64 >> (8 * (7 - rank - file))
    }
}


/// `wrapping_sub` on `u64` is subtraction truncated to 64 bits.
pub proof fn lemma_wrapping_sub(x: u64, y: u64)
    ensures
        vstd::wrapping::u64_specs::wrapping_sub(x, y) == (x - y) as u64,
{
    if x - y < 0 {
        assert((x - y + 0x1_0000_0000_0000_0000) as u64 == (x - y) as u64) by (bit_vector);
    }
}

} // verus!
