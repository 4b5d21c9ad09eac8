use vstd::prelude::*;

use super::board::{
    anti_diagonal_board, anti_diagonal_bits, diagonal_board, diagonal_bits, file_bits, file_board,
    file_of, has_bit, lemma_same_bits, lemma_wrapping_sub, rank_bits, rank_board, rank_of, reverse,
    reverse64, square_bit,
    square_board, SQUARES,
};

verus! {

/// The squares of the first and eighth ranks.
pub const RANK_EDGES: u64 = 0xff00_0000_0000_00ff;

/// The squares of the `a` and `h` files.
pub const FILE_EDGES: u64 = 0x8181_8181_8181_8181;

/// The squares below index `k`.
pub open spec fn below(k: u64) -> u64 {
    ((1u64 << k) - 1u64) as u64
}

/// The squares strictly between the indices `a` and `b`.
pub open spec fn strictly_between(a: u64, b: u64) -> u64 {
    if a < b {
        below(b) & !below((a + 1) as u64)
    } else {
        below(a) & !below((b + 1) as u64)
    }
}

/// `t` is attacked along `line` by a slider on square `p`: `t` lies on the
/// line, is not `p`, and no occupied square of the line lies strictly
/// between them.
pub open spec fn ray_attacks(occupancy: u64, p: u64, line: u64, t: u64) -> bool {
    &&& has_bit(line, t)
    &&& t != p
    &&& occupancy & line & strictly_between(p, t) == 0
}

/// The result of the hyperbola-quintessence computation for a slider on the
/// single-square board `square` along `line`.
pub open spec fn quintessence(occupancy: u64, square: u64, line: u64) -> u64 {
    let forward = occupancy & line;
    let reverse = reverse64(forward);
    ((((forward - square) as u64) ^ reverse64(((reverse - reverse64(square)) as u64))) & line)
}

/// The hyperbola-quintessence computation yields exactly the squares of the
/// line that a slider attacks, whenever the occupancy of the line excludes
/// the slider's own square.
pub proof fn lemma_quintessence(occupancy: u64, p: u64, line: u64, t: u64)
    requires
        p < 64,
        t < 64,
        occupancy & line & (1u64 << p) == 0,
    ensures
        has_bit(quintessence(occupancy, 1u64 << p, line), t) == ray_attacks(occupancy, p, line, t),
{
    assert(has_bit(quintessence(occupancy, 1u64 << p, line), t) == ray_attacks(
        occupancy,
        p,
        line,
        t,
    )) by (bit_vector)
        requires
            p < 64,
            t < 64,
            occupancy & line & (1u64 << p) == 0,
    ;
}

/// A bit of the union of two boards is set when it is set in either.
pub proof fn lemma_or_bit(a: u64, b: u64, t: u64)
    requires
        t < 64,
    ensures
        has_bit(a | b, t) == (has_bit(a, t) || has_bit(b, t)),
{
    assert(has_bit(a | b, t) == (has_bit(a, t) || has_bit(b, t))) by (bit_vector)
        requires
            t < 64,
    ;
}

/// A slider's attacks along `line` depend only on the occupied squares of
/// `mask` when `mask` holds every square of the line strictly between the
/// slider and each square of the line.
proof fn lemma_ray_masked(occupancy: u64, mask: u64, p: u64, line: u64, t: u64)
    requires
        has_bit(line, t) ==> line & strictly_between(p, t) & !mask == 0,
    ensures
        ray_attacks(occupancy & mask, p, line, t) == ray_attacks(occupancy, p, line, t),
{
    let between = strictly_between(p, t);
    if has_bit(line, t) {
        assert((occupancy & mask) & line & between == occupancy & line & between) by (bit_vector)
            requires
                line & between & !mask == 0,
        ;
    }
}

/// `t` is attacked by a rook on `p`: along `p`'s file or rank, with no
/// occupied square in between.
pub open spec fn rook_reach(occupancy: u64, p: u64, t: u64) -> bool {
    ray_attacks(occupancy, p, file_bits(file_of(p)), t) || ray_attacks(
        occupancy,
        p,
        rank_bits(rank_of(p)),
        t,
    )
}

/// `t` is attacked by a bishop on `p`: along one of `p`'s diagonals, with
/// no occupied square in between.
pub open spec fn bishop_reach(occupancy: u64, p: u64, t: u64) -> bool {
    ray_attacks(occupancy, p, diagonal_bits(p), t) || ray_attacks(
        occupancy,
        p,
        anti_diagonal_bits(p),
        t,
    )
}

/// `t` shares a file or a rank with `p` and is not `p`.
pub open spec fn rook_line(p: u64, t: u64) -> bool {
    t != p && (file_of(t) == file_of(p) || rank_of(t) == rank_of(p))
}

/// `t` shares a diagonal or an anti-diagonal with `p` and is not `p`.
pub open spec fn bishop_line(p: u64, t: u64) -> bool {
    t != p && (rank_of(t) + file_of(p) == rank_of(p) + file_of(t) || rank_of(t) + file_of(t)
        == rank_of(p) + file_of(p))
}

/// `t` is not on the border of the board.
pub open spec fn inner_square(t: u64) -> bool {
    0 < file_of(t) < 7 && 0 < rank_of(t) < 7
}

/// The board of the border squares of the board, except those sharing a
/// file or rank with `square`.
pub open spec fn edges_bits(square: u64) -> u64 {
    (0x8181_8181_8181_8181u64 & !file_bits(square % 8)) | (0xff00_0000_0000_00ffu64 & !rank_bits(
        square / 8,
    ))
}

/// The relevant-occupancy mask of a rook on `square`.
pub open spec fn rook_mask_bits(square: u64) -> u64 {
    ((file_bits(square % 8) | rank_bits(square / 8)) ^ (1u64 << square)) & !edges_bits(square)
}

/// The relevant-occupancy mask of a bishop on `square`.
pub open spec fn bishop_mask_bits(square: u64) -> u64 {
    ((diagonal_bits(square) | anti_diagonal_bits(square)) ^ (1u64 << square)) & !edges_bits(square)
}

/// The attack board of a rook on `square` for the given blockers.
pub open spec fn rook_attack_bits(square: u64, occupancy: u64) -> u64 {
    quintessence(occupancy, 1u64 << square, file_bits(square % 8)) | quintessence(
        occupancy,
        1u64 << square,
        rank_bits(square / 8),
    )
}

/// The attack board of a bishop on `square` for the given blockers.
pub open spec fn bishop_attack_bits(square: u64, occupancy: u64) -> u64 {
    quintessence(occupancy, 1u64 << square, diagonal_bits(square)) | quintessence(
        occupancy,
        1u64 << square,
        anti_diagonal_bits(square),
    )
}

/// Returns the squares a rook on `square` attacks on an empty board.
pub fn empty_rook_targets(square: usize) -> (targets: u64)
    requires
        square < SQUARES,
    ensures
        targets == (file_bits(file_of(square as u64)) | rank_bits(rank_of(square as u64))) ^ square_bit(
            square as u64,
        ),
        forall|t: u64| t < 64 ==> #[trigger] has_bit(targets, t) == rook_line(square as u64, t),
{
    let file = file_board(square % 8);
    let rank = rank_board(square / 8);
    let sq = square_board(square);
    let targets = (file | rank) ^ sq;
    assert forall|t: u64| t < 64 implies #[trigger] has_bit(targets, t) == rook_line(
        square as u64,
        t,
    ) by {
        assert(has_bit(file, t) == (file_of(t) == file_of(square as u64)));
        assert(has_bit(rank, t) == (rank_of(t) == rank_of(square as u64)));
        assert(has_bit(sq, t) == (t == square as u64));
        assert(has_bit((file | rank) ^ sq, t) == ((has_bit(file, t) || has_bit(rank, t)) != has_bit(
            sq,
            t,
        ))) by (bit_vector)
            requires
                t < 64,
        ;
    }
    targets
}

/// Returns the squares a bishop on `square` attacks on an empty board.
pub fn empty_bishop_targets(square: usize) -> (targets: u64)
    requires
        square < SQUARES,
    ensures
        targets == (diagonal_bits(square as u64) | anti_diagonal_bits(square as u64)) ^ square_bit(
            square as u64,
        ),
        forall|t: u64| t < 64 ==> #[trigger] has_bit(targets, t) == bishop_line(square as u64, t),
{
    let diagonal = diagonal_board(square);
    let anti_diagonal = anti_diagonal_board(square);
    let sq = square_board(square);
    let targets = (diagonal | anti_diagonal) ^ sq;
    assert forall|t: u64| t < 64 implies #[trigger] has_bit(targets, t) == bishop_line(
        square as u64,
        t,
    ) by {
        assert(has_bit(diagonal, t) == (rank_of(t) + file_of(square as u64) == rank_of(square as u64) + file_of(t)));
        assert(has_bit(anti_diagonal, t) == (rank_of(t) + file_of(t) == rank_of(square as u64) + file_of(square as u64)));
        assert(has_bit(sq, t) == (t == square as u64));
        assert(has_bit((diagonal | anti_diagonal) ^ sq, t) == ((has_bit(diagonal, t) || has_bit(
            anti_diagonal,
            t,
        )) != has_bit(sq, t))) by (bit_vector)
            requires
                t < 64,
        ;
    }
    targets
}

/// Returns the empty-board rook attack board of every square.
pub fn new_empty_rook_table() -> (table: Vec<u64>)
    ensures
        table@.len() == SQUARES,
        forall|sq: int, t: u64|
            0 <= sq < SQUARES && t < 64 ==> #[trigger] has_bit(table@[sq], t) == rook_line(
                sq as u64,
                t,
            ),
{
    let mut table: Vec<u64> = Vec::new();
    let mut sq: usize = 0;
    while sq < SQUARES
        invariant
            sq <= SQUARES,
            table@.len() == sq,
            forall|i: int, t: u64|
                0 <= i < sq && t < 64 ==> #[trigger] has_bit(table@[i], t) == rook_line(i as u64, t),
        decreases SQUARES - sq,
    {
        table.push(empty_rook_targets(sq));
        sq = sq + 1;
    }
    table
}

/// Returns the empty-board bishop attack board of every square.
pub fn new_empty_bishop_table() -> (table: Vec<u64>)
    ensures
        table@.len() == SQUARES,
        forall|sq: int, t: u64|
            0 <= sq < SQUARES && t < 64 ==> #[trigger] has_bit(table@[sq], t) == bishop_line(
                sq as u64,
                t,
            ),
{
    let mut table: Vec<u64> = Vec::new();
    let mut sq: usize = 0;
    while sq < SQUARES
        invariant
            sq <= SQUARES,
            table@.len() == sq,
            forall|i: int, t: u64|
                0 <= i < sq && t < 64 ==> #[trigger] has_bit(table@[i], t) == bishop_line(
                    i as u64,
                    t,
                ),
        decreases SQUARES - sq,
    {
        table.push(empty_bishop_targets(sq));
        sq = sq + 1;
    }
    table
}

/// Returns the border squares that do not share a file or rank with `square`.
pub fn get_edges(square: usize) -> (edges: u64)
    requires
        square < SQUARES,
    ensures
        edges == edges_bits(square as u64),
{
    let exclude_file = file_board(square % 8);
    let exclude_rank = rank_board(square / 8);
    (FILE_EDGES & !exclude_file) | (RANK_EDGES & !exclude_rank)
}

/// Returns the relevant-occupancy mask of a rook on `square`: the squares it
/// attacks on an empty board, without the last square of each direction.
pub fn rook_mask(square: usize) -> (mask: u64)
    requires
        square < SQUARES,
    ensures
        mask == rook_mask_bits(square as u64),
        !has_bit(mask, square as u64),
        mask != 0,
        forall|t: u64|
            t < 64 ==> #[trigger] has_bit(mask, t) == (rook_line(square as u64, t) && (if file_of(t)
                == file_of(square as u64) {
                0 < rank_of(t) < 7
            } else {
                0 < file_of(t) < 7
            })),
{
    let edges = get_edges(square);
    let attacks = empty_rook_targets(square);
    let s = square as u64;
    let mask = attacks & !edges;
    assert forall|t: u64| t < 64 implies #[trigger] has_bit(mask, t) == (rook_line(s, t) && (if file_of(
        t,
    ) == file_of(s) {
        0 < rank_of(t) < 7
    } else {
        0 < file_of(t) < 7
    })) by {
        assert(has_bit((((0x0101_0101_0101_0101u64 << (s % 8)) | (0xffu64 << (8 * (s / 8)) as u64))
            ^ (1u64 << s)) & !edges_bits(s), t) == (rook_line(s, t) && (if t % 8 == s % 8 {
            0 < t / 8 < 7
        } else {
            0 < t % 8 < 7
        }))) by (bit_vector)
            requires
                t < 64,
                s < 64,
        ;
    }
    assert(!has_bit(mask, s) && mask != 0) by (bit_vector)
        requires
            s < 64,
            mask == (((0x0101_0101_0101_0101u64 << (s % 8)) | (0xffu64 << (8 * (s / 8)) as u64)) ^ (1u64
                << s)) & !edges_bits(s),
    ;
    mask
}


/// Returns the relevant-occupancy mask of a bishop on `square`: the squares
/// it attacks on an empty board that are not on the border of the board.
pub fn bishop_mask(square: usize) -> (mask: u64)
    requires
        square < SQUARES,
    ensures
        mask == bishop_mask_bits(square as u64),
        !has_bit(mask, square as u64),
        mask != 0,
        forall|t: u64|
            t < 64 ==> #[trigger] has_bit(mask, t) == (bishop_line(square as u64, t) && inner_square(t)),
{
    let edges = get_edges(square);
    let attacks = empty_bishop_targets(square);
    let s = square as u64;
    let mask = attacks & !edges;
    assert forall|t: u64| t < 64 implies #[trigger] has_bit(mask, t) == (bishop_line(s, t) && inner_square(t)) by {
        assert(has_bit(((diagonal_bits(s) | anti_diagonal_bits(s)) ^ (1u64 << s)) & !edges_bits(s), t)
            == (bishop_line(s, t) && inner_square(t))) by (bit_vector)
            requires
                t < 64,
                s < 64,
        ;
    }
    assert(!has_bit(mask, s) && mask != 0) by (bit_vector)
        requires
            s < 64,
            mask == ((diagonal_bits(s) | anti_diagonal_bits(s)) ^ (1u64 << s)) & !edges_bits(s),
    ;
    mask
}

/// Returns the squares of `line_mask` attacked by a slider on the
/// single-square board `square`, using hyperbola quintessence: every square
/// of the line up to and including the first occupied square in each
/// direction.
pub fn fast_attack_ray(occupancy: u64, square: u64, line_mask: u64) -> (ray: u64)
    requires
        exists|p: u64| p < 64 && square == #[trigger] (1u64 << p),
        occupancy & line_mask & square == 0,
    ensures
        ray == quintessence(occupancy, square, line_mask),
        forall|p: u64, t: u64|
            p < 64 && t < 64 && square == (1u64 << p) ==> has_bit(ray, t) == #[trigger] ray_attacks(
                occupancy,
                p,
                line_mask,
                t,
            ),
{
    let mut forward = occupancy & line_mask;
    let mut reversed = reverse(forward);
    proof {
        lemma_wrapping_sub(forward, square);
        lemma_wrapping_sub(reversed, reverse64(square));
    }
    forward = forward.wrapping_sub(square);
    reversed = reversed.wrapping_sub(reverse(square));
    forward = forward ^ reverse(reversed);
    let ray = forward & line_mask;
    assert forall|p: u64, t: u64|
        p < 64 && t < 64 && square == (1u64 << p) implies has_bit(ray, t) == #[trigger] ray_attacks(
        occupancy,
        p,
        line_mask,
        t,
    ) by {
        lemma_quintessence(occupancy, p, line_mask, t);
    }
    ray
}

/// Returns the squares a rook on the single-square board `square` attacks,
/// given the masks of its file and rank.
pub fn rook_attack_board(square: u64, file: u64, rank: u64, occupancy: u64) -> (attacks: u64)
    requires
        exists|p: u64| p < 64 && square == #[trigger] (1u64 << p),
        occupancy & file & square == 0,
        occupancy & rank & square == 0,
    ensures
        attacks == quintessence(occupancy, square, file) | quintessence(occupancy, square, rank),
        forall|p: u64, t: u64|
            p < 64 && t < 64 && square == (1u64 << p) ==> has_bit(attacks, t) == (
            #[trigger] ray_attacks(occupancy, p, file, t) || ray_attacks(occupancy, p, rank, t)),
{
    let a = fast_attack_ray(occupancy, square, file);
    let b = fast_attack_ray(occupancy, square, rank);
    assert forall|p: u64, t: u64|
        p < 64 && t < 64 && square == (1u64 << p) implies has_bit(a | b, t) == (
        #[trigger] ray_attacks(occupancy, p, file, t) || ray_attacks(occupancy, p, rank, t)) by {
        assert(has_bit(a, t) == ray_attacks(occupancy, p, file, t));
        assert(has_bit(b, t) == ray_attacks(occupancy, p, rank, t));
        lemma_or_bit(a, b, t);
    }
    a | b
}

/// Returns the squares a bishop on the single-square board `square`
/// attacks, given the masks of its diagonal and anti-diagonal.
pub fn bishop_attack_board(square: u64, diagonal: u64, anti_diagonal: u64, occupancy: u64) -> (attacks: u64)
    requires
        exists|p: u64| p < 64 && square == #[trigger] (1u64 << p),
        occupancy & diagonal & square == 0,
        occupancy & anti_diagonal & square == 0,
    ensures
        attacks == quintessence(occupancy, square, diagonal) | quintessence(
            occupancy,
            square,
            anti_diagonal,
        ),
        forall|p: u64, t: u64|
            p < 64 && t < 64 && square == (1u64 << p) ==> has_bit(attacks, t) == (
            #[trigger] ray_attacks(occupancy, p, diagonal, t) || ray_attacks(occupancy, p, anti_diagonal, t)),
{
    let a = fast_attack_ray(occupancy, square, diagonal);
    let b = fast_attack_ray(occupancy, square, anti_diagonal);
    assert forall|p: u64, t: u64|
        p < 64 && t < 64 && square == (1u64 << p) implies has_bit(a | b, t) == (
        #[trigger] ray_attacks(occupancy, p, diagonal, t) || ray_attacks(occupancy, p, anti_diagonal, t)) by {
        assert(has_bit(a, t) == ray_attacks(occupancy, p, diagonal, t));
        assert(has_bit(b, t) == ray_attacks(occupancy, p, anti_diagonal, t));
        lemma_or_bit(a, b, t);
    }
    a | b
}

/// Returns the squares a rook on `square` attacks for the given blockers,
/// which must not include `square` itself.
pub fn rook_attacks(square: usize, occupancy: u64) -> (attacks: u64)
    requires
        square < SQUARES,
        !has_bit(occupancy, square as u64),
    ensures
        attacks == rook_attack_bits(square as u64, occupancy),
        forall|t: u64| t < 64 ==> #[trigger] has_bit(attacks, t) == rook_reach(occupancy, square as u64, t),
{
    let s = square as u64;
    let sq = square_board(square);
    let file = file_board(square % 8);
    let rank = rank_board(square / 8);
    assert(occupancy & file & sq == 0 && occupancy & rank & sq == 0) by (bit_vector)
        requires
            !has_bit(occupancy, s),
            sq == 1u64 << s,
            s < 64,
    ;
    assert(sq == (1u64 << s));
    let attacks = rook_attack_board(sq, file, rank, occupancy);
    assert forall|t: u64| t < 64 implies #[trigger] has_bit(attacks, t) == rook_reach(occupancy, s, t) by {
        assert(has_bit(attacks, t) == (ray_attacks(occupancy, s, file, t) || ray_attacks(occupancy, s, rank, t)));
    }
    attacks
}

/// Returns the squares a bishop on `square` attacks for the given blockers,
/// which must not include `square` itself.
pub fn bishop_attacks(square: usize, occupancy: u64) -> (attacks: u64)
    requires
        square < SQUARES,
        !has_bit(occupancy, square as u64),
    ensures
        attacks == bishop_attack_bits(square as u64, occupancy),
        forall|t: u64| t < 64 ==> #[trigger] has_bit(attacks, t) == bishop_reach(occupancy, square as u64, t),
{
    let s = square as u64;
    let sq = square_board(square);
    let diagonal = diagonal_board(square);
    let anti_diagonal = anti_diagonal_board(square);
    assert(occupancy & diagonal & sq == 0 && occupancy & anti_diagonal & sq == 0) by (bit_vector)
        requires
            !has_bit(occupancy, s),
            sq == 1u64 << s,
            s < 64,
    ;
    assert(sq == (1u64 << s));
    let attacks = bishop_attack_board(sq, diagonal, anti_diagonal, occupancy);
    assert forall|t: u64| t < 64 implies #[trigger] has_bit(attacks, t) == bishop_reach(occupancy, s, t) by {
        assert(has_bit(attacks, t) == (ray_attacks(occupancy, s, diagonal, t) || ray_attacks(occupancy, s, anti_diagonal, t)));
    }
    attacks
}

/// The squares of a rook's file or rank strictly between it and a square of
/// that line all lie in its relevant-occupancy mask.
proof fn lemma_rook_mask_covers(p: u64, t: u64)
    requires
        p < 64,
        t < 64,
    ensures
        has_bit(file_bits(file_of(p)), t) ==> file_bits(file_of(p)) & strictly_between(p, t)
            & !rook_mask_bits(p) == 0,
        has_bit(rank_bits(rank_of(p)), t) ==> rank_bits(rank_of(p)) & strictly_between(p, t)
            & !rook_mask_bits(p) == 0,
{
    assert(has_bit(file_bits(p % 8), t) ==> file_bits(p % 8) & strictly_between(p, t)
        & !rook_mask_bits(p) == 0) by (bit_vector)
        requires
            p < 64,
            t < 64,
    ;
    assert(has_bit(rank_bits(p / 8), t) ==> rank_bits(p / 8) & strictly_between(p, t)
        & !rook_mask_bits(p) == 0) by (bit_vector)
        requires
            p < 64,
            t < 64,
    ;
}

/// The squares of a bishop's diagonals strictly between it and a square of
/// one of them all lie in its relevant-occupancy mask.
proof fn lemma_bishop_mask_covers(p: u64, t: u64)
    requires
        p < 64,
        t < 64,
    ensures
        has_bit(diagonal_bits(p), t) ==> diagonal_bits(p) & strictly_between(p, t)
            & !bishop_mask_bits(p) == 0,
        has_bit(anti_diagonal_bits(p), t) ==> anti_diagonal_bits(p) & strictly_between(p, t)
            & !bishop_mask_bits(p) == 0,
{
    assert(has_bit(diagonal_bits(p), t) ==> diagonal_bits(p) & strictly_between(p, t)
        & !bishop_mask_bits(p) == 0) by (bit_vector)
        requires
            p < 64,
            t < 64,
    ;
    assert(has_bit(anti_diagonal_bits(p), t) ==> anti_diagonal_bits(p) & strictly_between(p, t)
        & !bishop_mask_bits(p) == 0) by (bit_vector)
        requires
            p < 64,
            t < 64,
    ;
}

/// A rook's attacks depend only on the occupied squares of its
/// relevant-occupancy mask.
pub proof fn lemma_rook_attacks_masked(p: u64, occupancy: u64)
    requires
        p < 64,
        !has_bit(occupancy, p),
    ensures
        rook_attack_bits(p, occupancy & rook_mask_bits(p)) == rook_attack_bits(p, occupancy),
{
    let mask = rook_mask_bits(p);
    let masked = occupancy & mask;
    let file = file_bits(file_of(p));
    let rank = rank_bits(rank_of(p));
    assert(occupancy & file & (1u64 << p) == 0 && occupancy & rank & (1u64 << p) == 0
        && masked & file & (1u64 << p) == 0 && masked & rank & (1u64 << p) == 0) by (bit_vector)
        requires
            p < 64,
            !has_bit(occupancy, p),
            masked == occupancy & mask,
    ;
    assert forall|t: u64| t < 64 implies #[trigger] has_bit(rook_attack_bits(p, masked), t)
        == has_bit(rook_attack_bits(p, occupancy), t) by {
        lemma_quintessence(occupancy, p, file, t);
        lemma_quintessence(occupancy, p, rank, t);
        lemma_quintessence(masked, p, file, t);
        lemma_quintessence(masked, p, rank, t);
        lemma_or_bit(quintessence(occupancy, 1u64 << p, file), quintessence(occupancy, 1u64 << p, rank), t);
        lemma_or_bit(quintessence(masked, 1u64 << p, file), quintessence(masked, 1u64 << p, rank), t);
        lemma_rook_mask_covers(p, t);
        lemma_ray_masked(occupancy, mask, p, file, t);
        lemma_ray_masked(occupancy, mask, p, rank, t);
    }
    lemma_same_bits(rook_attack_bits(p, masked), rook_attack_bits(p, occupancy));
}

/// A bishop's attacks depend only on the occupied squares of its
/// relevant-occupancy mask.
pub proof fn lemma_bishop_attacks_masked(p: u64, occupancy: u64)
    requires
        p < 64,
        !has_bit(occupancy, p),
    ensures
        bishop_attack_bits(p, occupancy & bishop_mask_bits(p)) == bishop_attack_bits(p, occupancy),
{
    let mask = bishop_mask_bits(p);
    let masked = occupancy & mask;
    let diagonal = diagonal_bits(p);
    let anti_diagonal = anti_diagonal_bits(p);
    assert(occupancy & diagonal & (1u64 << p) == 0 && occupancy & anti_diagonal & (1u64 << p) == 0
        && masked & diagonal & (1u64 << p) == 0 && masked & anti_diagonal & (1u64 << p) == 0)
        by (bit_vector)
        requires
            p < 64,
            !has_bit(occupancy, p),
            masked == occupancy & mask,
    ;
    assert forall|t: u64| t < 64 implies #[trigger] has_bit(bishop_attack_bits(p, masked), t)
        == has_bit(bishop_attack_bits(p, occupancy), t) by {
        lemma_quintessence(occupancy, p, diagonal, t);
        lemma_quintessence(occupancy, p, anti_diagonal, t);
        lemma_quintessence(masked, p, diagonal, t);
        lemma_quintessence(masked, p, anti_diagonal, t);
        lemma_or_bit(
            quintessence(occupancy, 1u64 << p, diagonal),
            quintessence(occupancy, 1u64 << p, anti_diagonal),
            t,
        );
        lemma_or_bit(
            quintessence(masked, 1u64 << p, diagonal),
            quintessence(masked, 1u64 << p, anti_diagonal),
            t,
        );
        lemma_bishop_mask_covers(p, t);
        lemma_ray_masked(occupancy, mask, p, diagonal, t);
        lemma_ray_masked(occupancy, mask, p, anti_diagonal, t);
    }
    lemma_same_bits(bishop_attack_bits(p, masked), bishop_attack_bits(p, occupancy));
}

} // verus!
