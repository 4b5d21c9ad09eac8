use vstd::prelude::*;

use super::board::{count_ones, has_bit, lemma_wrapping_sub, popcount, SQUARES};
use super::sliding_pieces::{
    bishop_attack_bits, bishop_attacks, bishop_mask, bishop_mask_bits, lemma_bishop_attacks_masked,
    lemma_rook_attacks_masked, rook_attack_bits, rook_attacks, rook_mask, rook_mask_bits,
};

verus! {

/// The total number of rook attack boards over all squares.
pub const ROOK_TABLE_SIZE: usize = 102_400;

/// The total number of bishop attack boards over all squares.
pub const BISHOP_TABLE_SIZE: usize = 5_248;

/// The rook magic numbers, indexed by square.
pub const ROOK_MAGIC_NUMS: [u64; 64] = [
    324259448050975248u64, 162139001189302336u64, 4647750006529359880u64, 144121785691422736u64,
    16176938657641660544u64, 9367489423970945072u64, 36051338366288384u64, 36029147746665088u64,
    3518447965192208u64, 4614078830617822340u64, 9241949523864129664u64, 11540615780106252u64,
    730287067600519297u64, 144819425575437312u64, 1225261127674627584u64, 40814017656160512u64,
    594475700577118276u64, 283675082228259u64, 148058037853261952u64, 14411662294658320384u64,
    2394186703782912u64, 1157847866488718336u64, 2306407062973841412u64, 4576167411597460u64,
    2323857959626489888u64, 18860477004136448u64, 621497027752297522u64, 3027553647748714496u64,
    9241953785514295424u64, 1970363492082688u64, 1729664285938024960u64, 4836870457972064321u64,
    141012374650913u64, 4652253601601699840u64, 58687601506263040u64, 281543780081672u64,
    1157433900411130112u64, 81628378934806544u64, 2310366730829959192u64, 2900476768907429780u64,
    36558770110480u64, 9042384969023488u64, 180425597514743824u64, 5487636764434923528u64,
    5766860422494879764u64, 9224498487624761348u64, 41702298761822218u64, 45599234000551940u64,
    70370891935872u64, 19210671497487104u64, 387030266675328u64, 289215847808893056u64,
    576469550545240192u64, 1153216449143113729u64, 9350715278336u64, 288521763922764288u64,
    282782794268833u64, 595672521157161122u64, 436884352794689609u64, 9241667927690743809u64,
    5188428314494240769u64, 1157988067282792450u64, 1152939243166828548u64, 4611967569673330817u64,
];

/// The bishop magic numbers, indexed by square.
pub const BISHOP_MAGIC_NUMS: [u64; 64] = [
    2310454429704290569u64, 37163502750244928u64, 145330200115150856u64, 573953659699200u64,
    9845999220824211456u64, 574016004032512u64, 10093699283674480640u64, 2306407060834902016u64,
    2883575003184432136u64, 1747410678824308864u64, 9259405249167245312u64, 936784527773139074u64,
    4629702641998381057u64, 201028145628315697u64, 4899992295377881088u64, 4630405483133404688u64,
    153474299838154784u64, 2286992943744036u64, 434597432802681416u64, 865817269052115456u64,
    9156750026475656u64, 599823317909770240u64, 4578375142474880u64, 2308525819264500224u64,
    18596057879421451u64, 18331093560345096u64, 2305880392877736000u64, 56602859688444160u64,
    5382084129205534724u64, 5767422822691897608u64, 283691220206592u64, 144398865845093376u64,
    1163523824685120u64, 20267333288223264u64, 325489801822240u64, 4755836425302245636u64,
    594475563668865152u64, 1162496335329427604u64, 9244765235704371236u64, 576667461564269056u64,
    146371454722771202u64, 426679365288452u64, 13724105480340736u64, 1152922330050364928u64,
    4620737202526097424u64, 1316476062695166464u64, 13981996823661781640u64, 12430506881068303489u64,
    5193780677221351424u64, 426612797737280u64, 37445932288049152u64, 1171147012042137601u64,
    504403227018657856u64, 4629845569785954560u64, 4686013077882208273u64, 1154056209263894528u64,
    613054853085794304u64, 9025075185721408u64, 9571249324951568u64, 10999715432448u64,
    290408795603472u64, 10664524198170591488u64, 5924513492108288u64, 90511840181764112u64,
];

/// `b` uses only squares of `mask`.
pub open spec fn is_subset(b: u64, mask: u64) -> bool {
    b & !mask == 0
}

/// The Carry-Rippler step: the next subset of `mask` after `n` in increasing order.
pub open spec fn next_subset(n: u64, mask: u64) -> u64 {
    ((n - mask) as u64) & mask
}

/// Stepping from a subset other than `mask` itself gives the smallest
/// subset of `mask` that is larger; stepping from `mask` gives zero.
pub proof fn lemma_next_subset(n: u64, mask: u64, s: u64)
    requires
        is_subset(n, mask),
    ensures
        n <= mask,
        is_subset(s, mask) ==> s <= mask,
        is_subset(next_subset(n, mask), mask),
        n != mask ==> next_subset(n, mask) > n,
        n != mask && is_subset(s, mask) && s > n ==> next_subset(n, mask) <= s,
        n == mask ==> next_subset(n, mask) == 0,
{
    assert(n <= mask) by (bit_vector)
        requires
            n & !mask == 0,
    ;
    assert(s & !mask == 0 ==> s <= mask) by (bit_vector);
    assert(is_subset(next_subset(n, mask), mask)) by (bit_vector)
        requires
            n & !mask == 0,
    ;
    assert(n != mask ==> next_subset(n, mask) > n) by (bit_vector)
        requires
            n & !mask == 0,
    ;
    assert(n != mask && s & !mask == 0 && s > n ==> next_subset(n, mask) <= s) by (bit_vector)
        requires
            n & !mask == 0,
    ;
    assert(n == mask ==> next_subset(n, mask) == 0) by (bit_vector);
}

/// A rook's relevant-occupancy mask has between 10 and 12 squares, a
/// bishop's between 5 and 9.
pub proof fn lemma_mask_sizes(square: u64)
    requires
        square < 64,
    ensures
        10 <= popcount(rook_mask_bits(square)) <= 12,
        5 <= popcount(bishop_mask_bits(square)) <= 9,
{
    assert(10 <= popcount(rook_mask_bits(square)) <= 12) by (bit_vector)
        requires
            square < 64,
    ;
    assert(5 <= popcount(bishop_mask_bits(square)) <= 9) by (bit_vector)
        requires
            square < 64,
    ;
}

/// A magic number together with the mask, shift and table offset it is used with.
#[derive(Clone, Copy)]
pub struct Magic {
    mask: u64,
    shift: u8,
    offset: u64,
    num: u64,
}

impl View for Magic {
    /// `(mask, shift, offset, magic number)`.
    type V = (u64, u8, u64, u64);

    closed spec fn view(&self) -> (u64, u8, u64, u64) {
        (self.mask, self.shift, self.offset, self.num)
    }
}

/// The table index a magic assigns to an occupancy.
pub open spec fn magic_index(magic: (u64, u8, u64, u64), occupancy: u64) -> int {
    (vstd::wrapping::u64_specs::wrapping_mul(occupancy & magic.0, magic.3) >> (magic.1 as u64)) + magic.2
}

impl Magic {
    /// Creates a magic from its parts.
    pub fn new(mask: u64, shift: u8, offset: u64, num: u64) -> (magic: Self)
        ensures
            magic@ == (mask, shift, offset, num),
    {
        Magic { mask, shift, offset, num }
    }

    /// Creates the all-zero magic.
    pub fn default() -> (magic: Self)
        ensures
            magic@ == (0u64, 0u8, 0u64, 0u64),
    {
        Self::new(0, 0, 0, 0)
    }

    /// Returns the table index of `occupancy`: the masked occupancy times the
    /// magic number, shifted right and moved by the offset.
    pub fn idx(&self, occupancy: u64) -> (index: usize)
        requires
            self@.1 < 64,
            magic_index(self@, occupancy) <= usize::MAX,
        ensures
            index == magic_index(self@, occupancy),
    {
        let blockerboard = occupancy & self.mask;
        ((blockerboard.wrapping_mul(self.num) >> self.shift) + self.offset) as usize
    }
}

/// The attack board of a rook (`rook`) or bishop on `square` for `occupancy`.
pub open spec fn slider_attack_bits(rook: bool, square: u64, occupancy: u64) -> u64 {
    if rook {
        rook_attack_bits(square, occupancy)
    } else {
        bishop_attack_bits(square, occupancy)
    }
}

/// The relevant-occupancy mask of a rook (`rook`) or bishop on `square`.
pub open spec fn slider_mask_bits(rook: bool, square: u64) -> u64 {
    if rook {
        rook_mask_bits(square)
    } else {
        bishop_mask_bits(square)
    }
}

/// The magic number of a rook (`rook`) or bishop on `square`.
pub open spec fn slider_magic_num(rook: bool, square: int) -> u64 {
    if rook {
        ROOK_MAGIC_NUMS[square]
    } else {
        BISHOP_MAGIC_NUMS[square]
    }
}

/// The entry that subset `b` indexes holds the attack board of some subset
/// with the same index.
#[verifier::opaque]
pub open spec fn entry_ok(table: Seq<u64>, magic: (u64, u8, u64, u64), rook: bool, square: u64, b: u64) -> bool {
    exists|c: u64|
        #![trigger magic_index(magic, c)]
        is_subset(c, magic.0) && magic_index(magic, c) == magic_index(magic, b) && table[magic_index(
            magic,
            b,
        )] == slider_attack_bits(rook, square, c)
}

/// Every subset of `magic`'s mask indexes an entry of `table` holding the
/// attack board of some subset with the same index.
///
/// When no two subsets with different attack boards share an index, this
/// means every lookup yields the exact attack board.
#[verifier::opaque]
pub open spec fn covers_square(table: Seq<u64>, magic: (u64, u8, u64, u64), rook: bool, square: u64) -> bool {
    forall|b: u64|
        #![trigger magic_index(magic, b)]
        is_subset(b, magic.0) ==> 0 <= magic_index(magic, b) < table.len() && entry_ok(table, magic, rook, square, b)
}

/// When a magic has no destructive collisions for its square, the table
/// entry of every subset of the mask is that subset's attack board.
pub proof fn lemma_lookup_exact(
    table: Seq<u64>,
    magic: (u64, u8, u64, u64),
    rook: bool,
    square: u64,
    b: u64,
)
    requires
        covers_square(table, magic, rook, square),
        is_subset(b, magic.0),
        forall|c: u64, d: u64|
            is_subset(c, magic.0) && is_subset(d, magic.0) && #[trigger] magic_index(magic, c)
                == #[trigger] magic_index(magic, d) ==> slider_attack_bits(rook, square, c)
                == slider_attack_bits(rook, square, d),
    ensures
        table[magic_index(magic, b)] == slider_attack_bits(rook, square, b),
{
    reveal(covers_square);
    let i = magic_index(magic, b);
    assert(entry_ok(table, magic, rook, square, b));
    reveal(entry_ok);
    let c = choose|c: u64|
        #![trigger magic_index(magic, c)]
        is_subset(c, magic.0) && magic_index(magic, c) == i && table[i] == slider_attack_bits(
            rook,
            square,
            c,
        );
    assert(magic_index(magic, c) == magic_index(magic, b));
}

/// An entry that is right stays right when its slot of the table is kept.
proof fn lemma_entry_transfer(
    before: Seq<u64>,
    after: Seq<u64>,
    magic: (u64, u8, u64, u64),
    rook: bool,
    square: u64,
    b: u64,
)
    requires
        entry_ok(before, magic, rook, square, b),
        0 <= magic_index(magic, b) < before.len(),
        0 <= magic_index(magic, b) < after.len(),
        after[magic_index(magic, b)] == before[magic_index(magic, b)],
    ensures
        entry_ok(after, magic, rook, square, b),
{
    reveal(entry_ok);
    let c = choose|c: u64|
        #![trigger magic_index(magic, c)]
        is_subset(c, magic.0) && magic_index(magic, c) == magic_index(magic, b) && before[magic_index(
            magic,
            b,
        )] == slider_attack_bits(rook, square, c);
    assert(magic_index(magic, c) == magic_index(magic, b));
}

/// An entry holding the attack board of a subset with the same index is right.
proof fn lemma_entry_written(
    table: Seq<u64>,
    magic: (u64, u8, u64, u64),
    rook: bool,
    square: u64,
    b: u64,
    n: u64,
)
    requires
        is_subset(n, magic.0),
        magic_index(magic, b) == magic_index(magic, n),
        0 <= magic_index(magic, n) < table.len(),
        table[magic_index(magic, n)] == slider_attack_bits(rook, square, n),
    ensures
        entry_ok(table, magic, rook, square, b),
{
    reveal(entry_ok);
    assert(magic_index(magic, n) == magic_index(magic, b));
}

/// Writing the attack board of subset `n` at its index keeps every smaller
/// subset's entry right and makes `n`'s right.
proof fn lemma_write_entry(
    before: Seq<u64>,
    after: Seq<u64>,
    magic: (u64, u8, u64, u64),
    rook: bool,
    square: u64,
    n: u64,
)
    requires
        is_subset(n, magic.0),
        0 <= magic_index(magic, n) < before.len(),
        after == before.update(magic_index(magic, n), slider_attack_bits(rook, square, n)),
        forall|b: u64| #![trigger magic_index(magic, b)] is_subset(b, magic.0) ==> 0 <= magic_index(magic, b) < before.len(),
        forall|b: u64| is_subset(b, magic.0) && b < n ==> #[trigger] entry_ok(before, magic, rook, square, b),
    ensures
        forall|b: u64| is_subset(b, magic.0) && b <= n ==> #[trigger] entry_ok(after, magic, rook, square, b),
{
    assert forall|b: u64| is_subset(b, magic.0) && b <= n implies #[trigger] entry_ok(after, magic, rook, square, b) by {
        if magic_index(magic, b) == magic_index(magic, n) {
            lemma_entry_written(after, magic, rook, square, b, n);
        } else {
            assert(entry_ok(before, magic, rook, square, b));
            lemma_entry_transfer(before, after, magic, rook, square, b);
        }
    }
}

/// Shifting a board right by `64 - bits` leaves a value below `2^bits`.
proof fn lemma_index_bound(w: u64, bits: u64)
    requires
        5 <= bits <= 12,
    ensures
        (w >> ((64 - bits) as u8 as u64)) < (1u64 << bits),
{
    assert((w >> ((64 - bits) as u8 as u64)) < (1u64 << bits)) by (bit_vector)
        requires
            5 <= bits <= 12,
    ;
}

/// Creates the magic of a rook (`rook`) or bishop on `square` and writes the
/// attack board of every subset of its mask into `table`, starting at
/// `offset`, which then moves past this square's entries. The table grows
/// with zero boards when it is too short.
pub fn new_square_magics(rook: bool, offset: &mut u64, square: usize, table: &mut Vec<u64>) -> (magic: Magic)
    requires
        square < SQUARES,
        *old(offset) + 4096 <= usize::MAX,
    ensures
        magic@.0 == slider_mask_bits(rook, square as u64),
        magic@.1 == 64 - popcount(magic@.0),
        magic@.2 == *old(offset),
        magic@.3 == slider_magic_num(rook, square as int),
        *final(offset) == *old(offset) + (1u64 << (popcount(magic@.0) as u64)),
        *old(offset) < *final(offset) <= *old(offset) + 4096,
        final(table)@.len() == if old(table)@.len() >= *final(offset) {
            old(table)@.len() as int
        } else {
            *final(offset) as int
        },
        forall|i: int|
            0 <= i < old(table)@.len() && (i < *old(offset) || i >= *final(offset)) ==> #[trigger] final(table)@[i]
                == old(table)@[i],
        forall|b: u64|
            #![trigger magic_index(magic@, b)]
            is_subset(b, magic@.0) ==> *old(offset) <= magic_index(magic@, b) < *final(offset),
        covers_square(final(table)@, magic@, rook, square as u64),
{
    let mask = if rook {
        rook_mask(square)
    } else {
        bishop_mask(square)
    };
    proof {
        lemma_mask_sizes(square as u64);
    }
    let bits = count_ones(mask);
    let permutations = 1u64 << bits;
    assert(1 <= permutations <= 4096) by (bit_vector)
        requires
            bits <= 12,
            permutations == 1u64 << bits,
    ;
    let num = if rook {
        ROOK_MAGIC_NUMS[square]
    } else {
        BISHOP_MAGIC_NUMS[square]
    };
    let start = *offset;
    let magic = Magic::new(mask, (64 - bits) as u8, start, num);
    let end = start + permutations;
    let mut len = table.len();
    while len < end as usize
        invariant
            len == table@.len(),
            end <= usize::MAX,
            old(table)@.len() <= table@.len(),
            table@.len() <= (if old(table)@.len() >= end {
                old(table)@.len() as int
            } else {
                end as int
            }),
            forall|i: int| 0 <= i < old(table)@.len() ==> #[trigger] table@[i] == old(table)@[i],
        decreases end - table@.len(),
    {
        table.push(0u64);
        len = len + 1;
    }
    assert forall|b: u64| #![trigger magic_index(magic@, b)] is_subset(b, mask) implies start <= magic_index(
        magic@,
        b,
    ) < end by {
        lemma_index_bound(vstd::wrapping::u64_specs::wrapping_mul(b & mask, num), bits as u64);
    }
    let ghost before = table@;
    let mut n: u64 = 0;
    proof {
        lemma_masked_subset(0, mask);
    }
    loop
        invariant
            square < SQUARES,
            !has_bit(mask, square as u64),
            is_subset(n, mask),
            mask == slider_mask_bits(rook, square as u64),
            magic@ == (mask, (64 - bits) as u8, start, num),
            5 <= bits <= 12,
            end == start + permutations,
            end <= usize::MAX,
            table@.len() == before.len(),
            before.len() >= end,
            forall|b: u64| #![trigger magic_index(magic@, b)] is_subset(b, mask) ==> start <= magic_index(magic@, b) < end,
            forall|i: int|
                0 <= i < before.len() && (i < start || i >= end) ==> #[trigger] table@[i] == before[i],
            forall|b: u64| is_subset(b, mask) && b < n ==> #[trigger] entry_ok(table@, magic@, rook, square as u64, b),
        ensures
            table@.len() == before.len(),
            forall|i: int|
                0 <= i < before.len() && (i < start || i >= end) ==> #[trigger] table@[i] == before[i],
            forall|b: u64| is_subset(b, mask) ==> #[trigger] entry_ok(table@, magic@, rook, square as u64, b),
        decreases mask - n,
    {
        assert(!has_bit(n, square as u64)) by (bit_vector)
            requires
                n & !mask == 0,
                !has_bit(mask, square as u64),
        ;
        let index = magic.idx(n);
        let attacks = if rook {
            rook_attacks(square, n)
        } else {
            bishop_attacks(square, n)
        };
        let ghost written = table@;
        table.set(index, attacks);
        proof {
            lemma_write_entry(written, table@, magic@, rook, square as u64, n);
            lemma_next_subset(n, mask, n);
        }
        if n == mask {
            proof {
                assert forall|b: u64| is_subset(b, mask) implies #[trigger] entry_ok(table@, magic@, rook, square as u64, b) by {
                    lemma_next_subset(n, mask, b);
                }
            }
            break;
        }
        proof {
            lemma_wrapping_sub(n, mask);
            lemma_next_subset(next_subset(n, mask), mask, n);
            assert forall|b: u64| is_subset(b, mask) && b < next_subset(n, mask) implies #[trigger] entry_ok(table@, magic@, rook, square as u64, b) by {
                lemma_next_subset(n, mask, b);
            }
        }
        n = n.wrapping_sub(mask) & mask;
    }
    assert forall|b: u64| #![trigger magic_index(magic@, b)] is_subset(b, mask) implies 0 <= magic_index(magic@, b) < table@.len() && entry_ok(table@, magic@, rook, square as u64, b) by {
        assert(entry_ok(table@, magic@, rook, square as u64, b));
    }
    proof {
        reveal(covers_square);
    }
    *offset = end;
    magic
}


/// Writes the rook attack boards of `square` into `table` from `offset` on
/// and returns the square's magic; see `new_square_magics`.
pub fn new_rook_square_magics(offset: &mut u64, square: usize, table: &mut Vec<u64>) -> (magic: Magic)
    requires
        square < SQUARES,
        *old(offset) + 4096 <= usize::MAX,
    ensures
        magic@.0 == slider_mask_bits(true, square as u64),
        magic@.2 == *old(offset),
        magic@.3 == ROOK_MAGIC_NUMS[square as int],
        *old(offset) < *final(offset) <= *old(offset) + 4096,
        final(table)@.len() >= *final(offset),
        final(table)@.len() >= old(table)@.len(),
        forall|i: int|
            0 <= i < *old(offset) && i < old(table)@.len() ==> #[trigger] final(table)@[i] == old(table)@[i],
        forall|b: u64|
            #![trigger magic_index(magic@, b)]
            is_subset(b, magic@.0) ==> *old(offset) <= magic_index(magic@, b) < *final(offset),
        covers_square(final(table)@, magic@, true, square as u64),
{
    new_square_magics(true, offset, square, table)
}

/// Writes the bishop attack boards of `square` into `table` from `offset`
/// on and returns the square's magic; see `new_square_magics`.
pub fn new_bishop_square_magics(offset: &mut u64, square: usize, table: &mut Vec<u64>) -> (magic: Magic)
    requires
        square < SQUARES,
        *old(offset) + 4096 <= usize::MAX,
    ensures
        magic@.0 == slider_mask_bits(false, square as u64),
        magic@.2 == *old(offset),
        magic@.3 == BISHOP_MAGIC_NUMS[square as int],
        *old(offset) < *final(offset) <= *old(offset) + 4096,
        final(table)@.len() >= *final(offset),
        final(table)@.len() >= old(table)@.len(),
        forall|i: int|
            0 <= i < *old(offset) && i < old(table)@.len() ==> #[trigger] final(table)@[i] == old(table)@[i],
        forall|b: u64|
            #![trigger magic_index(magic@, b)]
            is_subset(b, magic@.0) ==> *old(offset) <= magic_index(magic@, b) < *final(offset),
        covers_square(final(table)@, magic@, false, square as u64),
{
    new_square_magics(false, offset, square, table)
}

/// Coverage of a square survives changes to entries at or beyond `limit`
/// when all of the square's indices lie below `limit`.
pub proof fn lemma_covers_preserved(
    before: Seq<u64>,
    after: Seq<u64>,
    magic: (u64, u8, u64, u64),
    rook: bool,
    square: u64,
    limit: int,
)
    requires
        covers_square(before, magic, rook, square),
        forall|b: u64| #![trigger magic_index(magic, b)] is_subset(b, magic.0) ==> magic_index(magic, b) < limit,
        after.len() >= before.len(),
        forall|i: int| 0 <= i < limit && i < before.len() ==> #[trigger] after[i] == before[i],
    ensures
        covers_square(after, magic, rook, square),
{
    reveal(covers_square);
    assert forall|b: u64| #![trigger magic_index(magic, b)] is_subset(b, magic.0) implies 0 <= magic_index(magic, b) < after.len() && entry_ok(after, magic, rook, square, b) by {
        lemma_entry_transfer(before, after, magic, rook, square, b);
    }
}

/// Creates the magics of every square for rooks (`rook`) or bishops, writing
/// each square's attack boards into `table` one square after another.
pub fn new_slider_magics(rook: bool, table: &mut Vec<u64>) -> (magics: Vec<Magic>)
    ensures
        magics@.len() == SQUARES,
        final(table)@.len() >= old(table)@.len(),
        forall|sq: int|
            0 <= sq < SQUARES ==> (#[trigger] magics@[sq])@.0 == slider_mask_bits(rook, sq as u64)
                && magics@[sq]@.1 == 64 - popcount(magics@[sq]@.0)
                && magics@[sq]@.3 == slider_magic_num(rook, sq) && covers_square(
                final(table)@,
                magics@[sq]@,
                rook,
                sq as u64,
            ),
{
    let mut magics: Vec<Magic> = Vec::new();
    let mut offset: u64 = 0;
    let mut sq: usize = 0;
    while sq < SQUARES
        invariant
            sq <= SQUARES,
            magics@.len() == sq,
            offset <= sq * 4096,
            table@.len() >= old(table)@.len(),
            forall|q: int|
                0 <= q < sq ==> (#[trigger] magics@[q])@.0 == slider_mask_bits(rook, q as u64)
                    && magics@[q]@.1 == 64 - popcount(magics@[q]@.0)
                    && magics@[q]@.3 == slider_magic_num(rook, q) && covers_square(
                    table@,
                    magics@[q]@,
                    rook,
                    q as u64,
                ) && forall|b: u64| #![trigger magic_index(magics@[q]@, b)] is_subset(b, magics@[q]@.0) ==> magic_index(magics@[q]@, b) < offset,
        decreases SQUARES - sq,
    {
        let ghost before = table@;
        let ghost old_offset = offset;
        let magic = new_square_magics(rook, &mut offset, sq, table);
        proof {
            assert forall|q: int| 0 <= q < sq implies (#[trigger] magics@[q])@.0 == slider_mask_bits(rook, q as u64)
                    && magics@[q]@.1 == 64 - popcount(magics@[q]@.0)
                    && magics@[q]@.3 == slider_magic_num(rook, q) && covers_square(
                    table@,
                    magics@[q]@,
                    rook,
                    q as u64,
                ) && forall|b: u64| #![trigger magic_index(magics@[q]@, b)] is_subset(b, magics@[q]@.0) ==> magic_index(magics@[q]@, b) < offset by {
                lemma_covers_preserved(before, table@, magics@[q]@, rook, q as u64, old_offset as int);
            }
        }
        magics.push(magic);
        sq = sq + 1;
    }
    magics
}

/// Creates the rook magics and writes every rook attack board into `table`.
pub fn new_rook_magics(table: &mut Vec<u64>) -> (magics: Vec<Magic>)
    ensures
        magics@.len() == SQUARES,
        final(table)@.len() >= old(table)@.len(),
        forall|sq: int|
            0 <= sq < SQUARES ==> (#[trigger] magics@[sq])@.0 == slider_mask_bits(true, sq as u64)
                && magics@[sq]@.1 == 64 - popcount(magics@[sq]@.0)
                && magics@[sq]@.3 == ROOK_MAGIC_NUMS[sq] && covers_square(final(table)@, magics@[sq]@, true, sq as u64),
{
    new_slider_magics(true, table)
}

/// Creates the bishop magics and writes every bishop attack board into `table`.
pub fn new_bishop_magics(table: &mut Vec<u64>) -> (magics: Vec<Magic>)
    ensures
        magics@.len() == SQUARES,
        final(table)@.len() >= old(table)@.len(),
        forall|sq: int|
            0 <= sq < SQUARES ==> (#[trigger] magics@[sq])@.0 == slider_mask_bits(false, sq as u64)
                && magics@[sq]@.1 == 64 - popcount(magics@[sq]@.0)
                && magics@[sq]@.3 == BISHOP_MAGIC_NUMS[sq] && covers_square(final(table)@, magics@[sq]@, false, sq as u64),
{
    new_slider_magics(false, table)
}

/// Returns `count` empty boards.
fn empty_boards(count: usize) -> (boards: Vec<u64>)
    ensures
        boards@.len() == count,
        forall|i: int| 0 <= i < count ==> #[trigger] boards@[i] == 0,
{
    let mut boards: Vec<u64> = Vec::new();
    let mut i: usize = 0;
    while i < count
        invariant
            i <= count,
            boards@.len() == i,
            forall|j: int| 0 <= j < i ==> #[trigger] boards@[j] == 0,
        decreases count - i,
    {
        boards.push(0);
        i = i + 1;
    }
    boards
}

/// The occupied squares of a mask form a subset of it, which masking again
/// leaves unchanged; the empty board is a subset of every mask.
pub proof fn lemma_masked_subset(occupancy: u64, mask: u64)
    ensures
        is_subset(occupancy & mask, mask),
        (occupancy & mask) & mask == occupancy & mask,
        is_subset(0u64, mask),
{
    assert(is_subset(occupancy & mask, mask) && (occupancy & mask) & mask == occupancy & mask
        && is_subset(0u64, mask)) by (bit_vector);
}

/// The entry that subset `b` indexes is the attack board of `b` itself.
pub open spec fn entry_exact(table: Seq<u64>, magic: (u64, u8, u64, u64), rook: bool, square: u64, b: u64) -> bool {
    table[magic_index(magic, b)] == slider_attack_bits(rook, square, b)
}

/// Whether `magics` hold, for every square, the relevant-occupancy mask, the
/// shift and the magic number of a rook (`rook`) or bishop on it, and every
/// subset of each mask indexes an entry of `table` holding the attack board
/// of a subset with the same index.
pub open spec fn magics_ok(table: Seq<u64>, magics: Seq<Magic>, rook: bool) -> bool {
    &&& magics.len() == SQUARES
    &&& forall|sq: int|
        0 <= sq < SQUARES ==> (#[trigger] magics[sq])@.0 == slider_mask_bits(rook, sq as u64)
            && magics[sq]@.1 == 64 - popcount(magics[sq]@.0) && magics[sq]@.3 == slider_magic_num(
            rook,
            sq,
        ) && covers_square(table, magics[sq]@, rook, sq as u64)
}

/// Whether the entry that every subset of every square's mask indexes is
/// the attack board of that very subset.
pub open spec fn lookups_exact(table: Seq<u64>, magics: Seq<Magic>, rook: bool) -> bool {
    forall|sq: int, b: u64|
        0 <= sq < SQUARES && is_subset(b, magics[sq]@.0) ==> #[trigger] entry_exact(
            table,
            magics[sq]@,
            rook,
            sq as u64,
            b,
        )
}

/// Returns whether the entry that each subset of `magic`'s mask indexes in
/// `table` is that subset's attack board.
fn square_lookups_exact(table: &Vec<u64>, magic: &Magic, rook: bool, square: usize) -> (exact: bool)
    requires
        square < SQUARES,
        magic@.0 == slider_mask_bits(rook, square as u64),
        magic@.1 < 64,
        forall|b: u64|
            #![trigger magic_index(magic@, b)]
            is_subset(b, magic@.0) ==> 0 <= magic_index(magic@, b) < table@.len(),
    ensures
        exact == forall|b: u64|
            is_subset(b, magic@.0) ==> #[trigger] entry_exact(table@, magic@, rook, square as u64, b),
{
    let mask = if rook {
        rook_mask(square)
    } else {
        bishop_mask(square)
    };
    let mut n: u64 = 0;
    proof {
        lemma_masked_subset(0, mask);
    }
    loop
        invariant
            square < SQUARES,
            !has_bit(mask, square as u64),
            mask == magic@.0,
            magic@.1 < 64,
            is_subset(n, mask),
            forall|b: u64|
                #![trigger magic_index(magic@, b)]
                is_subset(b, magic@.0) ==> 0 <= magic_index(magic@, b) < table@.len(),
            forall|b: u64|
                is_subset(b, mask) && b < n ==> #[trigger] entry_exact(table@, magic@, rook, square as u64, b),
        decreases mask - n,
    {
        assert(!has_bit(n, square as u64)) by (bit_vector)
            requires
                n & !mask == 0,
                !has_bit(mask, square as u64),
        ;
        let len = table.len();
        assert(0 <= magic_index(magic@, n) < len);
        let index = magic.idx(n);
        let attacks = if rook {
            rook_attacks(square, n)
        } else {
            bishop_attacks(square, n)
        };
        if table[index] != attacks {
            assert(!entry_exact(table@, magic@, rook, square as u64, n));
            return false;
        }
        proof {
            lemma_next_subset(n, mask, n);
        }
        if n == mask {
            assert forall|b: u64| is_subset(b, mask) implies #[trigger] entry_exact(
                table@,
                magic@,
                rook,
                square as u64,
                b,
            ) by {
                lemma_next_subset(n, mask, b);
            }
            return true;
        }
        proof {
            lemma_wrapping_sub(n, mask);
            lemma_next_subset(next_subset(n, mask), mask, n);
            assert forall|b: u64| is_subset(b, mask) && b < next_subset(n, mask) implies #[trigger] entry_exact(
                table@,
                magic@,
                rook,
                square as u64,
                b,
            ) by {
                lemma_next_subset(n, mask, b);
            }
        }
        n = n.wrapping_sub(mask) & mask;
    }
}

/// Returns whether the entry that every subset of every square's mask
/// indexes in `table` is the attack board of that very subset.
fn all_lookups_exact(table: &Vec<u64>, magics: &Vec<Magic>, rook: bool) -> (exact: bool)
    requires
        magics_ok(table@, magics@, rook),
    ensures
        exact == lookups_exact(table@, magics@, rook),
{
    let mut sq: usize = 0;
    while sq < SQUARES
        invariant
            sq <= SQUARES,
            magics_ok(table@, magics@, rook),
            forall|q: int, b: u64|
                0 <= q < sq && is_subset(b, magics@[q]@.0) ==> #[trigger] entry_exact(
                    table@,
                    magics@[q]@,
                    rook,
                    q as u64,
                    b,
                ),
        decreases SQUARES - sq,
    {
        let magic = &magics[sq];
        proof {
            lemma_mask_sizes(sq as u64);
            reveal(covers_square);
            assert(covers_square(table@, magic@, rook, sq as u64));
        }
        if !square_lookups_exact(table, magic, rook, sq) {
            return false;
        }
        sq = sq + 1;
    }
    true
}

/// Returns the entry of `table` that `occupancy` indexes for the square
/// whose magic is `magic`.
fn lookup(table: &Vec<u64>, magic: &Magic, occupancy: u64) -> (entry: u64)
    requires
        magic@.1 < 64,
        forall|b: u64|
            #![trigger magic_index(magic@, b)]
            is_subset(b, magic@.0) ==> 0 <= magic_index(magic@, b) < table@.len(),
    ensures
        entry == table@[magic_index(magic@, occupancy & magic@.0)],
{
    let mask = magic.mask;
    let mask_part = occupancy & mask;
    proof {
        lemma_masked_subset(occupancy, mask);
    }
    let len = table.len();
    assert(0 <= magic_index(magic@, mask_part) < len);
    table[magic.idx(occupancy)]
}

/// The rook attack boards of every square and occupancy, with the magics
/// that index them.
pub struct RookMagicsTable {
    pub table: Vec<u64>,
    pub magics: Vec<Magic>,
}

/// The bishop attack boards of every square and occupancy, with the magics
/// that index them.
pub struct BishopMagicsTable {
    pub table: Vec<u64>,
    pub magics: Vec<Magic>,
}

impl RookMagicsTable {
    /// Creates and fills the rook table.
    pub fn new() -> (tables: Self)
        ensures
            tables.table@.len() >= ROOK_TABLE_SIZE,
            magics_ok(tables.table@, tables.magics@, true),
    {
        let mut table = empty_boards(ROOK_TABLE_SIZE);
        let magics = new_rook_magics(&mut table);
        RookMagicsTable { table, magics }
    }

    /// Returns whether every lookup gives the attack board of the occupancy
    /// looked up: whether no two occupancies with different attack boards
    /// share an entry.
    pub fn is_exact(&self) -> (exact: bool)
        requires
            magics_ok(self.table@, self.magics@, true),
        ensures
            exact == lookups_exact(self.table@, self.magics@, true),
    {
        all_lookups_exact(&self.table, &self.magics, true)
    }

    /// Returns the squares a rook on `square` attacks for the blockers
    /// `occupancy`, looked up in the table.
    pub fn targets(&self, square: usize, occupancy: u64) -> (targets: u64)
        requires
            magics_ok(self.table@, self.magics@, true),
            square < SQUARES,
            !has_bit(occupancy, square as u64),
        ensures
            targets == self.table@[magic_index(self.magics@[square as int]@, occupancy)],
            lookups_exact(self.table@, self.magics@, true) ==> targets == rook_attack_bits(
                square as u64,
                occupancy,
            ),
    {
        let magic = &self.magics[square];
        proof {
            lemma_mask_sizes(square as u64);
            reveal(covers_square);
        }
        let targets = lookup(&self.table, magic, occupancy);
        proof {
            let mask = magic@.0;
            let masked = occupancy & mask;
            lemma_masked_subset(occupancy, mask);
            assert(magic_index(magic@, occupancy) == magic_index(magic@, masked));
            if lookups_exact(self.table@, self.magics@, true) {
                assert(entry_exact(self.table@, magic@, true, square as u64, masked));
                lemma_rook_attacks_masked(square as u64, occupancy);
            }
        }
        targets
    }
}

impl BishopMagicsTable {
    /// Creates and fills the bishop table.
    pub fn new() -> (tables: Self)
        ensures
            tables.table@.len() >= BISHOP_TABLE_SIZE,
            magics_ok(tables.table@, tables.magics@, false),
    {
        let mut table = empty_boards(BISHOP_TABLE_SIZE);
        let magics = new_bishop_magics(&mut table);
        BishopMagicsTable { table, magics }
    }

    /// Returns whether every lookup gives the attack board of the occupancy
    /// looked up: whether no two occupancies with different attack boards
    /// share an entry.
    pub fn is_exact(&self) -> (exact: bool)
        requires
            magics_ok(self.table@, self.magics@, false),
        ensures
            exact == lookups_exact(self.table@, self.magics@, false),
    {
        all_lookups_exact(&self.table, &self.magics, false)
    }

    /// Returns the squares a bishop on `square` attacks for the blockers
    /// `occupancy`, looked up in the table.
    pub fn targets(&self, square: usize, occupancy: u64) -> (targets: u64)
        requires
            magics_ok(self.table@, self.magics@, false),
            square < SQUARES,
            !has_bit(occupancy, square as u64),
        ensures
            targets == self.table@[magic_index(self.magics@[square as int]@, occupancy)],
            lookups_exact(self.table@, self.magics@, false) ==> targets == bishop_attack_bits(
                square as u64,
                occupancy,
            ),
    {
        let magic = &self.magics[square];
        proof {
            lemma_mask_sizes(square as u64);
            reveal(covers_square);
        }
        let targets = lookup(&self.table, magic, occupancy);
        proof {
            let mask = magic@.0;
            let masked = occupancy & mask;
            lemma_masked_subset(occupancy, mask);
            assert(magic_index(magic@, occupancy) == magic_index(magic@, masked));
            if lookups_exact(self.table@, self.magics@, false) {
                assert(entry_exact(self.table@, magic@, false, square as u64, masked));
                lemma_bishop_attacks_masked(square as u64, occupancy);
            }
        }
        targets
    }
}

} // verus!
