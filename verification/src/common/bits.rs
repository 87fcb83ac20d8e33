use vstd::prelude::*;

verus! {

// Board squares are numbered 0..64, square = 8 * rank + file, with file a = 0
// and rank 1 = 0.  A `u64` mask holds bit `s` exactly when square `s` is in it.
/// Squares of rank 1.
pub const RANK_1: u64 = 0x0000_0000_0000_00FF;

/// Squares of rank 2.
pub const RANK_2: u64 = 0x0000_0000_0000_FF00;

/// Squares of rank 7.
pub const RANK_7: u64 = 0x00FF_0000_0000_0000;

/// Squares of rank 8.
pub const RANK_8: u64 = 0xFF00_0000_0000_0000;

/// Squares of ranks 1 and 2.
pub const RANKS_1_2: u64 = 0x0000_0000_0000_FFFF;

/// Squares of ranks 7 and 8.
pub const RANKS_7_8: u64 = 0xFFFF_0000_0000_0000;

/// Squares of file a.
pub const FILE_A: u64 = 0x0101_0101_0101_0101;

/// Squares of file h.
pub const FILE_H: u64 = 0x8080_8080_8080_8080;

/// Squares of files a and b.
pub const FILES_A_B: u64 = 0x0303_0303_0303_0303;

/// Squares of files g and h.
pub const FILES_G_H: u64 = 0xC0C0_C0C0_C0C0_C0C0;

/// The mask with exactly the square `s` set (0 when `s` is off the board).
pub open spec fn square_bit(s: int) -> u64 {
    if 0 <= s < 64 {
        1u64 << (s as u64)
    } else {
        0
    }
}

/// Square `s` is on the board and in `m`.
pub open spec fn occupies(m: u64, s: int) -> bool {
    0 <= s < 64 && m & square_bit(s) != 0
}

/// The coordinates name a square of the board.
pub open spec fn on_board(file: int, rank: int) -> bool {
    0 <= file < 8 && 0 <= rank < 8
}

/// The square with the given coordinates.
pub open spec fn square_at(file: int, rank: int) -> int {
    8 * rank + file
}

/// The (file, rank) coordinates of a square index.
pub open spec fn coordinates_of(s: int) -> (int, int) {
    (s % 8, s / 8)
}

/// No square of `m` would leave the board when moved `dr` ranks up.
pub open spec fn rank_ok(m: u64, dr: int) -> bool {
    if dr == 1 {
        m & RANK_8 == 0
    } else if dr == 2 {
        m & RANKS_7_8 == 0
    } else if dr == -1 {
        m & RANK_1 == 0
    } else if dr == -2 {
        m & RANKS_1_2 == 0
    } else {
        true
    }
}

/// No square of `m` would leave the board when moved `df` files right.
pub open spec fn file_ok(m: u64, df: int) -> bool {
    if df == 1 {
        m & FILE_H == 0
    } else if df == 2 {
        m & FILES_G_H == 0
    } else if df == -1 {
        m & FILE_A == 0
    } else if df == -2 {
        m & FILES_A_B == 0
    } else {
        true
    }
}

/// Every square of `m` stays on the board when moved by (`df`, `dr`).
pub open spec fn can_step(m: u64, df: int, dr: int) -> bool {
    rank_ok(m, dr) && file_ok(m, df)
}

/// The change of square index of a move by `df` files and `dr` ranks.
pub open spec fn offset(df: int, dr: int) -> int {
    8 * dr + df
}

/// Every square of `m` moved by `df` files and `dr` ranks (the plain shift of
/// the mask; squares that leave the top or bottom of the board are dropped).
pub open spec fn step(m: u64, df: int, dr: int) -> u64 {
    if offset(df, dr) >= 0 {
        m << (offset(df, dr) as u64)
    } else {
        m >> ((-offset(df, dr)) as u64)
    }
}

/// A move of one square in one of the eight directions.
pub open spec fn is_king_step(df: int, dr: int) -> bool {
    -1 <= df <= 1 && -1 <= dr <= 1 && !(df == 0 && dr == 0)
}

proof fn lemma_single_bit_regions(s: u64)
    by (bit_vector)
    requires
        s < 64,
    ensures
        ((1u64 << s) & 0xFF00_0000_0000_0000u64 == 0) == (s < 56),
        ((1u64 << s) & 0xFFFF_0000_0000_0000u64 == 0) == (s < 48),
        ((1u64 << s) & 0x0000_0000_0000_00FFu64 == 0) == (s >= 8),
        ((1u64 << s) & 0x0000_0000_0000_FFFFu64 == 0) == (s >= 16),
        ((1u64 << s) & 0x0000_0000_0000_FF00u64 == 0) == (s < 8 || s >= 16),
        ((1u64 << s) & 0x00FF_0000_0000_0000u64 == 0) == (s < 48 || s >= 56),
        ((1u64 << s) & 0x0101_0101_0101_0101u64 == 0) == (s % 8 != 0),
        ((1u64 << s) & 0x8080_8080_8080_8080u64 == 0) == (s % 8 != 7),
        ((1u64 << s) & 0x0303_0303_0303_0303u64 == 0) == (s % 8 >= 2),
        ((1u64 << s) & 0xC0C0_C0C0_C0C0_C0C0u64 == 0) == (s % 8 < 6),
        (1u64 << s) != 0,
{
}

proof fn lemma_shift_single(s: u64, k: u64)
    by (bit_vector)
    requires
        s < 64,
        k < 64,
    ensures
        s + k < 64 ==> (1u64 << s) << k == 1u64 << ((s + k) as u64),
        k <= s ==> (1u64 << s) >> k == 1u64 << ((s - k) as u64),
        s + k >= 64 ==> (1u64 << s) << k == 0,
        k > s ==> (1u64 << s) >> k == 0,
{
}

/// Facts on one square: which of the rank and file masks hold it.
pub proof fn lemma_square_regions(s: int)
    requires
        0 <= s < 64,
    ensures
        square_bit(s) != 0,
        (square_bit(s) & RANK_2 != 0) == (s / 8 == 1),
        (square_bit(s) & RANK_7 != 0) == (s / 8 == 6),
{
    lemma_single_bit_regions(s as u64);
}

/// A square moved off the top or bottom edge disappears from the mask, and
/// nothing is left to move sideways.
pub proof fn lemma_zero_step(m: u64, s: int, dr: int)
    requires
        0 <= s < 64,
        m == square_bit(s),
        dr == 1 || dr == -1,
        !(0 <= s / 8 + dr < 8),
    ensures
        step(m, 0, dr) == 0,
        file_ok(0, -1),
        file_ok(0, 1),
        step(0, -1, 0) == 0,
        step(0, 1, 0) == 0,
        step(0, 0, dr) == 0,
{
    lemma_or_facts(0, 0, 0);
    lemma_shift_single(s as u64, 8);
    lemma_zero_facts();
}

proof fn lemma_zero_facts()
    by (bit_vector)
    ensures
        0u64 & 0x0101_0101_0101_0101u64 == 0,
        0u64 & 0x8080_8080_8080_8080u64 == 0,
        0u64 >> 1u64 == 0,
        0u64 << 1u64 == 0,
        0u64 << 8u64 == 0,
        0u64 >> 8u64 == 0,
{
}

/// Moving a single square: the move stays on the board exactly when the
/// target coordinates do, and then it gives the target square.
pub proof fn lemma_square_step(s: int, df: int, dr: int)
    requires
        0 <= s < 64,
        -2 <= df <= 2,
        -2 <= dr <= 2,
    ensures
        square_bit(s) != 0,
        can_step(square_bit(s), df, dr) == on_board(s % 8 + df, s / 8 + dr),
        can_step(square_bit(s), df, dr) ==> step(square_bit(s), df, dr) == square_bit(
            s + offset(df, dr),
        ),
        can_step(square_bit(s), df, dr) ==> (s + offset(df, dr)) % 8 == s % 8 + df && (s
            + offset(df, dr)) / 8 == s / 8 + dr,
{
    let u = s as u64;
    lemma_single_bit_regions(u);
    assert(u % 8 == s % 8);
    let o = offset(df, dr);
    if o >= 0 {
        lemma_shift_single(u, o as u64);
    } else {
        lemma_shift_single(u, (-o) as u64);
    }
}


proof fn lemma_shift_progress(m: u64)
    by (bit_vector)
    requires
        m != 0,
    ensures
        m & 0xFF00_0000_0000_0000u64 == 0 ==> m << 8u64 > m,
        m & 0x8080_8080_8080_8080u64 == 0 ==> m << 1u64 > m,
        (m & 0xFF00_0000_0000_0000u64 == 0 && m & 0x0101_0101_0101_0101u64 == 0) ==> m << 7u64
            > m,
        (m & 0xFF00_0000_0000_0000u64 == 0 && m & 0x8080_8080_8080_8080u64 == 0) ==> m << 9u64
            > m,
        m >> 8u64 < m,
        m >> 1u64 < m,
        m >> 7u64 < m,
        m >> 9u64 < m,
        m & 0x0000_0000_0000_00FFu64 == 0 ==> m >> 8u64 != 0,
        m & 0x0101_0101_0101_0101u64 == 0 ==> m >> 1u64 != 0,
        (m & 0x0000_0000_0000_00FFu64 == 0 && m & 0x0101_0101_0101_0101u64 == 0) ==> m >> 9u64
            != 0,
        (m & 0x0000_0000_0000_00FFu64 == 0 && m & 0x8080_8080_8080_8080u64 == 0) ==> m >> 7u64
            != 0,
{
}

/// A one-square move of a nonempty mask that stays on the board changes the
/// mask in the direction of the move's offset.
pub proof fn lemma_step_progress(m: u64, df: int, dr: int)
    requires
        m != 0,
        is_king_step(df, dr),
        can_step(m, df, dr),
    ensures
        offset(df, dr) > 0 ==> step(m, df, dr) > m,
        offset(df, dr) < 0 ==> step(m, df, dr) < m,
        offset(df, dr) != 0,
        step(m, df, dr) != 0,
{
    lemma_shift_progress(m);
}

/// The measure that a slide along (`df`, `dr`) decreases.
pub open spec fn ray_measure(m: u64, df: int, dr: int) -> int {
    if offset(df, dr) > 0 {
        u64::MAX - m
    } else {
        m as int
    }
}

/// The squares that a sliding piece standing on the squares of `cur` reaches
/// along (`df`, `dr`): each step moves the whole mask one square on; the
/// slide ends where the next step would leave the board, before a square of
/// `own`, or on a square of `other`, which is included.
pub open spec fn ray(cur: u64, df: int, dr: int, own: u64, other: u64) -> u64
    decreases ray_measure(cur, df, dr),
{
    if cur == 0 || !is_king_step(df, dr) || !can_step(cur, df, dr) {
        0
    } else {
        let next = step(cur, df, dr);
        if own & next != 0 {
            0
        } else if other & next != 0 {
            next
        } else {
            proof {
                lemma_step_progress(cur, df, dr);
            }
            next | ray(next, df, dr, own, other)
        }
    }
}

/// The measure that a slide over coordinates decreases.
pub open spec fn geo_measure(file: int, rank: int, df: int, dr: int) -> int {
    if dr > 0 {
        8 - rank
    } else if dr < 0 {
        rank + 1
    } else if df > 0 {
        8 - file
    } else {
        file + 1
    }
}

/// The squares that a sliding piece on (`file`, `rank`) reaches along
/// (`df`, `dr`): every square up to and excluding the first square of `own`,
/// up to and including the first square of `other`, or up to the edge.
pub open spec fn ray_geo(file: int, rank: int, df: int, dr: int, own: u64, other: u64) -> u64
    decreases geo_measure(file, rank, df, dr),
{
    let nf = file + df;
    let nr = rank + dr;
    if !is_king_step(df, dr) || !on_board(nf, nr) {
        0
    } else {
        let b = square_bit(square_at(nf, nr));
        if own & b != 0 {
            0
        } else if other & b != 0 {
            b
        } else {
            b | ray_geo(nf, nr, df, dr, own, other)
        }
    }
}

/// For a piece on one square, the mask-level slide is the slide over board
/// coordinates.
pub proof fn lemma_ray_single(s: int, df: int, dr: int, own: u64, other: u64)
    requires
        0 <= s < 64,
        is_king_step(df, dr),
    ensures
        ray(square_bit(s), df, dr, own, other) == ray_geo(s % 8, s / 8, df, dr, own, other),
    decreases geo_measure(s % 8, s / 8, df, dr),
{
    lemma_square_step(s, df, dr);
    if can_step(square_bit(s), df, dr) {
        let t = s + offset(df, dr);
        assert(square_at(s % 8 + df, s / 8 + dr) == t);
        lemma_ray_single(t, df, dr, own, other);
    }
}


/// Facts on `|` used when masks are collected.
pub proof fn lemma_or_facts(a: u64, b: u64, c: u64)
    by (bit_vector)
    ensures
        a | 0 == a,
        0 | a == a,
        (a | b) | c == a | (b | c),
        0u64 & a == 0,
        a & b == b & a,
{
}

/// The mask of the square with index `square_idx`.
pub fn square_idx_to_mask(square_idx: usize) -> (r: u64)
    requires
        square_idx < 64,
    ensures
        r == square_bit(square_idx as int),
{
    1u64 << (square_idx as u64)
}

/// No square of the mask is on rank 8.
pub fn square_exists_up_mask(m: u64) -> (r: bool)
    ensures
        r == rank_ok(m, 1),
{
    m & RANK_8 == 0
}

/// No square of the mask is on rank 1.
pub fn square_exists_down_mask(m: u64) -> (r: bool)
    ensures
        r == rank_ok(m, -1),
{
    m & RANK_1 == 0
}

/// No square of the mask is on file a.
pub fn square_exists_left_mask(m: u64) -> (r: bool)
    ensures
        r == file_ok(m, -1),
{
    m & FILE_A == 0
}

/// No square of the mask is on file h.
pub fn square_exists_right_mask(m: u64) -> (r: bool)
    ensures
        r == file_ok(m, 1),
{
    m & FILE_H == 0
}

/// No square of the mask is on rank 7 or 8.
pub fn square_exists_two_up_mask(m: u64) -> (r: bool)
    ensures
        r == rank_ok(m, 2),
{
    m & RANKS_7_8 == 0
}

/// No square of the mask is on rank 1 or 2.
pub fn square_exists_two_down_mask(m: u64) -> (r: bool)
    ensures
        r == rank_ok(m, -2),
{
    m & RANKS_1_2 == 0
}

/// No square of the mask is on file a or b.
pub fn square_exists_two_left_mask(m: u64) -> (r: bool)
    ensures
        r == file_ok(m, -2),
{
    m & FILES_A_B == 0
}

/// No square of the mask is on file g or h.
pub fn square_exists_two_right_mask(m: u64) -> (r: bool)
    ensures
        r == file_ok(m, 2),
{
    m & FILES_G_H == 0
}

/// Every square one rank up.
pub fn move_one_up(m: u64) -> (r: u64)
    ensures
        r == step(m, 0, 1),
{
    m << 8u64
}

/// Every square one rank down.
pub fn move_one_down(m: u64) -> (r: u64)
    ensures
        r == step(m, 0, -1),
{
    m >> 8u64
}

/// Every square one file left.
pub fn move_one_left(m: u64) -> (r: u64)
    ensures
        r == step(m, -1, 0),
{
    m >> 1u64
}

/// Every square one file right.
pub fn move_one_right(m: u64) -> (r: u64)
    ensures
        r == step(m, 1, 0),
{
    m << 1u64
}

/// Every square one rank up and one file left.
pub fn move_one_up_one_left(m: u64) -> (r: u64)
    ensures
        r == step(m, -1, 1),
{
    m << 7u64
}

/// Every square one rank up and one file right.
pub fn move_one_up_one_right(m: u64) -> (r: u64)
    ensures
        r == step(m, 1, 1),
{
    m << 9u64
}

/// Every square one rank down and one file left.
pub fn move_one_down_one_left(m: u64) -> (r: u64)
    ensures
        r == step(m, -1, -1),
{
    m >> 9u64
}

/// Every square one rank down and one file right.
pub fn move_one_down_one_right(m: u64) -> (r: u64)
    ensures
        r == step(m, 1, -1),
{
    m >> 7u64
}

/// Every square two ranks up and one file left.
pub fn move_two_up_one_left(m: u64) -> (r: u64)
    ensures
        r == step(m, -1, 2),
{
    m << 15u64
}

/// Every square two ranks up and one file right.
pub fn move_two_up_one_right(m: u64) -> (r: u64)
    ensures
        r == step(m, 1, 2),
{
    m << 17u64
}

/// Every square one rank up and two files left.
pub fn move_one_up_two_left(m: u64) -> (r: u64)
    ensures
        r == step(m, -2, 1),
{
    m << 6u64
}

/// Every square one rank up and two files right.
pub fn move_one_up_two_right(m: u64) -> (r: u64)
    ensures
        r == step(m, 2, 1),
{
    m << 10u64
}

/// Every square two ranks down and one file left.
pub fn move_two_down_one_left(m: u64) -> (r: u64)
    ensures
        r == step(m, -1, -2),
{
    m >> 17u64
}

/// Every square two ranks down and one file right.
pub fn move_two_down_one_right(m: u64) -> (r: u64)
    ensures
        r == step(m, 1, -2),
{
    m >> 15u64
}

/// Every square one rank down and two files left.
pub fn move_one_down_two_left(m: u64) -> (r: u64)
    ensures
        r == step(m, -2, -1),
{
    m >> 10u64
}

/// Every square one rank down and two files right.
pub fn move_one_down_two_right(m: u64) -> (r: u64)
    ensures
        r == step(m, 2, -1),
{
    m >> 6u64
}

/// Whether the one-square move along (`df`, `dr`) keeps every square of `m`
/// on the board.
fn king_step_fits(m: u64, df: i8, dr: i8) -> (r: bool)
    requires
        is_king_step(df as int, dr as int),
    ensures
        r == can_step(m, df as int, dr as int),
{
    let rank_fits = if dr == 1 {
        square_exists_up_mask(m)
    } else if dr == -1 {
        square_exists_down_mask(m)
    } else {
        true
    };
    let file_fits = if df == 1 {
        square_exists_right_mask(m)
    } else if df == -1 {
        square_exists_left_mask(m)
    } else {
        true
    };
    rank_fits && file_fits
}

/// The one-square move of `m` along (`df`, `dr`).
fn king_step_move(m: u64, df: i8, dr: i8) -> (r: u64)
    requires
        is_king_step(df as int, dr as int),
    ensures
        r == step(m, df as int, dr as int),
{
    if dr == 1 {
        if df == -1 {
            move_one_up_one_left(m)
        } else if df == 0 {
            move_one_up(m)
        } else {
            move_one_up_one_right(m)
        }
    } else if dr == 0 {
        if df == -1 {
            move_one_left(m)
        } else {
            move_one_right(m)
        }
    } else {
        if df == -1 {
            move_one_down_one_left(m)
        } else if df == 0 {
            move_one_down(m)
        } else {
            move_one_down_one_right(m)
        }
    }
}

/// The squares reached by sliding from the squares of `start` along
/// (`df`, `dr`), stopping before `own` and on `other`.
pub fn slide(start: u64, df: i8, dr: i8, own: u64, other: u64) -> (r: u64)
    requires
        start != 0,
        is_king_step(df as int, dr as int),
    ensures
        r == ray(start, df as int, dr as int, own, other),
{
    let ghost d = (df as int, dr as int);
    let mut mask: u64 = 0;
    let mut current = start;
    proof {
        lemma_or_facts(ray(start, d.0, d.1, own, other), 0, 0);
    }
    while king_step_fits(current, df, dr)
        invariant
            current != 0,
            is_king_step(d.0, d.1),
            d == (df as int, dr as int),
            mask | ray(current, d.0, d.1, own, other) == ray(start, d.0, d.1, own, other),
        decreases ray_measure(current, d.0, d.1),
    {
        let next = king_step_move(current, df, dr);
        proof {
            lemma_step_progress(current, d.0, d.1);
        }
        if own & next != 0 {
            proof {
                lemma_or_facts(mask, 0, 0);
            }
            return mask;
        } else if other & next != 0 {
            return mask | next;
        } else {
            proof {
                lemma_or_facts(mask, next, ray(next, d.0, d.1, own, other));
            }
            mask = mask | next;
            current = next;
        }
    }
    proof {
        lemma_or_facts(mask, 0, 0);
    }
    mask
}

/// The one-jump target along (`df`, `dr`): the moved mask when it stays on
/// the board and meets no square of `own`, else 0.
pub open spec fn jump(m: u64, df: int, dr: int, own: u64) -> u64 {
    if can_step(m, df, dr) && step(m, df, dr) & own == 0 {
        step(m, df, dr)
    } else {
        0
    }
}

/// The one-jump target of a piece on (`file`, `rank`): the square at
/// (`file + df`, `rank + dr`) when it is on the board and not in `own`.
pub open spec fn hop(file: int, rank: int, df: int, dr: int, own: u64) -> u64 {
    if on_board(file + df, rank + dr) && square_bit(square_at(file + df, rank + dr)) & own == 0 {
        square_bit(square_at(file + df, rank + dr))
    } else {
        0
    }
}

/// For a piece on one square, the mask-level jump is the jump over board
/// coordinates.
pub proof fn lemma_jump_single(s: int, df: int, dr: int, own: u64)
    requires
        0 <= s < 64,
        -2 <= df <= 2,
        -2 <= dr <= 2,
    ensures
        jump(square_bit(s), df, dr, own) == hop(s % 8, s / 8, df, dr, own),
{
    lemma_square_step(s, df, dr);
    if can_step(square_bit(s), df, dr) {
        assert(square_at(s % 8 + df, s / 8 + dr) == s + offset(df, dr));
    }
}

/// The single squares of `m` from square `i` on, in ascending order.
pub open spec fn squares_from(m: u64, i: int) -> Seq<u64>
    decreases 64 - i,
{
    if i >= 64 {
        seq![]
    } else if occupies(m, i) {
        seq![square_bit(i)] + squares_from(m, i + 1)
    } else {
        squares_from(m, i + 1)
    }
}

/// The single squares of `m`, in ascending order of their index.
pub open spec fn squares_of(m: u64) -> Seq<u64> {
    squares_from(m, 0)
}

/// The number of squares of `m`.
pub open spec fn popcount(m: u64) -> nat {
    squares_of(m).len()
}

/// `b` is the mask of one square of `m` with index `lo` or above.
pub open spec fn is_square_of(m: u64, b: u64, lo: int) -> bool {
    exists|t: int| lo <= t < 64 && occupies(m, t) && b == square_bit(t)
}

/// Each listed square is a square of `m` at index `i` or above, and there are
/// at most `64 - i` of them.
pub proof fn lemma_squares_from(m: u64, i: int)
    requires
        0 <= i <= 64,
    ensures
        squares_from(m, i).len() <= 64 - i,
        forall|j: int|
            0 <= j < squares_from(m, i).len() ==> is_square_of(
                m,
                #[trigger] squares_from(m, i)[j],
                i,
            ),
    decreases 64 - i,
{
    if i < 64 {
        lemma_squares_from(m, i + 1);
        let rest = squares_from(m, i + 1);
        let s = squares_from(m, i);
        assert forall|j: int| 0 <= j < s.len() implies is_square_of(m, #[trigger] s[j], i) by {
            if occupies(m, i) && j == 0 {
                assert(s[0] == square_bit(i));
            } else {
                let k = if occupies(m, i) {
                    j - 1
                } else {
                    j
                };
                assert(s[j] == rest[k]);
                assert(is_square_of(m, rest[k], i + 1));
                let t = choose|t: int| i + 1 <= t < 64 && occupies(m, t) && rest[k] == square_bit(t);
                assert(i <= t < 64 && occupies(m, t) && s[j] == square_bit(t));
            }
        }
    }
}

/// Each square in `squares_of(m)` is a square of `m`, and there are at most 64.
pub proof fn lemma_squares_of(m: u64)
    ensures
        squares_of(m).len() <= 64,
        forall|j: int|
            0 <= j < squares_of(m).len() ==> is_square_of(m, #[trigger] squares_of(m)[j], 0),
{
    lemma_squares_from(m, 0);
}

/// The single-square masks of `mask`, in ascending order of square index.
pub fn square_masks(mask: u64) -> (v: Vec<u64>)
    ensures
        v@ == squares_of(mask),
{
    let mut v: Vec<u64> = Vec::new();
    let mut i: u64 = 0;
    while i < 64
        invariant
            i <= 64,
            v@ + squares_from(mask, i as int) == squares_of(mask),
        decreases 64 - i,
    {
        let b = 1u64 << i;
        if mask & b != 0 {
            assert(v@.push(b) + squares_from(mask, i + 1) =~= v@ + squares_from(mask, i as int));
            v.push(b);
        } else {
            assert(squares_from(mask, i as int) == squares_from(mask, i + 1));
        }
        i = i + 1;
    }
    assert(v@ + squares_from(mask, 64) =~= v@);
    v
}

/// The number of squares of `mask`.
pub fn count_squares(mask: u64) -> (n: u32)
    ensures
        n == popcount(mask),
{
    proof {
        lemma_squares_of(mask);
    }
    let v = square_masks(mask);
    v.len() as u32
}

/// The `n`-th square of `mask` in ascending order, as a mask.
pub fn nth_square_mask(mask: u64, n: u32) -> (r: u64)
    requires
        n < popcount(mask),
    ensures
        r == squares_of(mask)[n as int],
{
    let v = square_masks(mask);
    v[n as usize]
}

/// The lowest square of `m` from index `i` on (64 when there is none).
pub open spec fn lowest_from(m: u64, i: int) -> int
    decreases 64 - i,
{
    if i >= 64 {
        64
    } else if occupies(m, i) {
        i
    } else {
        lowest_from(m, i + 1)
    }
}

/// The index of the lowest square of `m`, or 64 when `m` is empty.
pub open spec fn lowest_square(m: u64) -> int {
    lowest_from(m, 0)
}

proof fn lemma_bit_test(m: u64, t: u64)
    by (bit_vector)
    requires
        t < 64,
    ensures
        ((m >> t) & 1u64 == 1u64) == (m & (1u64 << t) != 0),
{
}

/// A mask without a square on the board is empty.
pub proof fn lemma_no_square_is_empty(m: u64)
    requires
        forall|s: int| 0 <= s < 64 ==> !occupies(m, s),
    ensures
        m == 0,
{
    vstd::std_specs::bits::axiom_u64_trailing_zeros(m);
    let t = vstd::std_specs::bits::u64_trailing_zeros(m);
    if t < 64 {
        lemma_bit_test(m, t as u64);
        assert(occupies(m, t as int));
    }
}

/// The index of the lowest square of `mask` (64 for the empty mask).
pub fn square_mask_to_idx(mask: u64) -> (r: usize)
    ensures
        r == lowest_square(mask),
        mask != 0 ==> r < 64 && occupies(mask, r as int),
        mask == 0 ==> r == 64,
{
    let mut i: u64 = 0;
    while i < 64
        invariant
            i <= 64,
            lowest_from(mask, i as int) == lowest_square(mask),
            forall|s: int| 0 <= s < i ==> !occupies(mask, s),
        decreases 64 - i,
    {
        if mask & (1u64 << i) != 0 {
            proof {
                lemma_or_facts(1u64 << i, 0, 0);
            }
            return i as usize;
        }
        i = i + 1;
    }
    proof {
        lemma_no_square_is_empty(mask);
    }
    64
}

/// Facts on `&` and `|` with a common mask.
pub proof fn lemma_or_and(a: u64, b: u64, x: u64)
    by (bit_vector)
    ensures
        ((a | b) & x == 0) == (a & x == 0 && b & x == 0),
        x & (a | b) == 0 ==> x & a == 0,
        x & a == a & x,
{
}

/// Toggling single squares: toggling one square flips exactly that square;
/// toggling two different squares flips exactly those two.
pub proof fn lemma_toggle_squares(m: u64, x: u64, y: u64, t: u64)
    by (bit_vector)
    requires
        x < 64,
        y < 64,
        t < 64,
    ensures
        ((m ^ (1u64 << x)) & (1u64 << t) != 0) == (if t == x {
            m & (1u64 << t) == 0
        } else {
            m & (1u64 << t) != 0
        }),
        x != y ==> (((m ^ ((1u64 << x) | (1u64 << y))) & (1u64 << t) != 0) == (if t == x || t
            == y {
            m & (1u64 << t) == 0
        } else {
            m & (1u64 << t) != 0
        })),
{
}

/// A slide never ends on a square of `own`.
pub proof fn lemma_ray_avoids_own(cur: u64, df: int, dr: int, own: u64, other: u64)
    ensures
        ray(cur, df, dr, own, other) & own == 0,
    decreases ray_measure(cur, df, dr),
{
    lemma_or_facts(own, 0, 0);
    if cur != 0 && is_king_step(df, dr) && can_step(cur, df, dr) {
        let next = step(cur, df, dr);
        lemma_or_and(next, 0, own);
        if own & next == 0 && other & next == 0 {
            lemma_step_progress(cur, df, dr);
            lemma_ray_avoids_own(next, df, dr, own, other);
            lemma_or_and(next, ray(next, df, dr, own, other), own);
        }
    }
}

/// Square index and square mask convert into each other.
pub proof fn lemma_square_index_round_trip(s: int)
    requires
        0 <= s < 64,
    ensures
        lowest_square(square_bit(s)) == s,
{
    lemma_lowest_from_single(s, 0);
}

proof fn lemma_lowest_from_single(s: int, i: int)
    requires
        0 <= i <= s < 64,
    ensures
        lowest_from(square_bit(s), i) == s,
    decreases s - i,
{
    lemma_single_bit_regions(s as u64);
    lemma_shift_single_distinct(i as u64, s as u64);
    if i < s {
        lemma_lowest_from_single(s, i + 1);
    }
}

proof fn lemma_shift_single_distinct(i: u64, s: u64)
    by (bit_vector)
    requires
        i < 64,
        s < 64,
    ensures
        i != s ==> (1u64 << s) & (1u64 << i) == 0,
        i == s ==> (1u64 << s) & (1u64 << i) != 0,
{
}

/// A single square that meets `targets`, where `own` does not, is not in
/// `own`.
pub proof fn lemma_single_in_targets(k: u64, targets: u64, own: u64)
    by (bit_vector)
    requires
        k < 64,
        (1u64 << k) & targets != 0,
        own & targets == 0,
    ensures
        (1u64 << k) & own == 0,
{
}

/// Facts on the special-move byte: clearing the en passant bits and
/// recording a file keeps the castling bits, sets the availability bit and
/// stores the file.
pub proof fn lemma_special_byte(c: u8, f: u8)
    by (bit_vector)
    requires
        f < 8,
    ensures
        ((c & 0xF0u8) | (8u8 | f)) & 0xF0u8 == c & 0xF0u8,
        (c & 0xF0u8) & 0xF0u8 == c & 0xF0u8,
        ((c & 0xF0u8) | (8u8 | f)) & 8u8 != 0,
        ((c & 0xF0u8) | (8u8 | f)) & 7u8 == f,
        (c & 0xF0u8) & 8u8 == 0,
        (c & 0xF0u8) & 0x0Fu8 == 0,
{
}

proof fn lemma_single_bit_ops(a: u64, b: u64, t: u64)
    by (bit_vector)
    requires
        t < 64,
    ensures
        ((a & b) & (1u64 << t) != 0) == (a & (1u64 << t) != 0 && b & (1u64 << t) != 0),
        ((a | b) & (1u64 << t) != 0) == (a & (1u64 << t) != 0 || b & (1u64 << t) != 0),
        ((a ^ b) & (1u64 << t) != 0) == (a & (1u64 << t) != 0 != (b & (1u64 << t) != 0)),
        ((!a) & (1u64 << t) != 0) == !(a & (1u64 << t) != 0),
        a ^ b == 0 ==> a == b,
{
}

/// Which squares `&`, `|`, `^` and `!` of masks hold, one square at a time.
pub proof fn lemma_square_ops(a: u64, b: u64, t: int)
    requires
        0 <= t < 64,
    ensures
        occupies(a & b, t) == (occupies(a, t) && occupies(b, t)),
        occupies(a | b, t) == (occupies(a, t) || occupies(b, t)),
        occupies(a ^ b, t) == (occupies(a, t) != occupies(b, t)),
        occupies(!a, t) == !occupies(a, t),
        !occupies(0, t),
{
    lemma_single_bit_ops(a, b, t as u64);
    lemma_or_facts(square_bit(t), 0, 0);
}

/// The mask of square `s` holds exactly square `s`.
pub proof fn lemma_square_bit_holds(s: int, t: int)
    requires
        0 <= s < 64,
        0 <= t < 64,
    ensures
        occupies(square_bit(s), t) == (s == t),
{
    lemma_shift_single_distinct(t as u64, s as u64);
}

/// Two masks that hold the same squares are equal.
pub proof fn lemma_equal_by_squares(a: u64, b: u64)
    requires
        forall|t: int| 0 <= t < 64 ==> occupies(a, t) == occupies(b, t),
    ensures
        a == b,
{
    assert forall|t: int| 0 <= t < 64 implies !occupies(a ^ b, t) by {
        lemma_square_ops(a, b, t);
    }
    lemma_no_square_is_empty(a ^ b);
    lemma_single_bit_ops(a, b, 0);
}

/// The number of squares of `m` from index `i` on.
pub open spec fn count_from(m: u64, i: int) -> nat {
    squares_from(m, i).len()
}

/// Counting squares: a union holds at most the squares of both masks, and
/// exactly that many when they share no square.
pub proof fn lemma_count_union(a: u64, b: u64, i: int)
    requires
        0 <= i <= 64,
    ensures
        count_from(a | b, i) <= count_from(a, i) + count_from(b, i),
        (forall|t: int| i <= t < 64 ==> !(occupies(a, t) && occupies(b, t))) ==> count_from(
            a | b,
            i,
        ) == count_from(a, i) + count_from(b, i),
    decreases 64 - i,
{
    if i < 64 {
        lemma_square_ops(a, b, i);
        lemma_count_union(a, b, i + 1);
    }
}

/// A single square counts once; an empty mask counts nothing.
pub proof fn lemma_count_single(s: int, i: int)
    requires
        0 <= s < 64,
        0 <= i <= 64,
    ensures
        count_from(square_bit(s), i) == (if i <= s {
            1nat
        } else {
            0nat
        }),
        count_from(0, i) == 0,
    decreases 64 - i,
{
    if i < 64 {
        lemma_square_bit_holds(s, i);
        lemma_square_ops(0, 0, i);
        lemma_count_single(s, i + 1);
    }
}

/// The square `k` steps from (`file`, `rank`) along (`df`, `dr`).
pub open spec fn along(file: int, rank: int, df: int, dr: int, k: int) -> int {
    square_at(file + k * df, rank + k * dr)
}

/// Square `t` is `k` steps along (`df`, `dr`) from (`file`, `rank`), on the
/// board and not in `own`, and every square before it on the way is in
/// neither `own` nor `other`.
pub open spec fn reached(
    file: int,
    rank: int,
    df: int,
    dr: int,
    own: u64,
    other: u64,
    k: int,
    t: int,
) -> bool {
    &&& 1 <= k
    &&& on_board(file + k * df, rank + k * dr)
    &&& t == along(file, rank, df, dr, k)
    &&& !occupies(own, t)
    &&& forall|j: int|
        1 <= j < k ==> !occupies(own, #[trigger] along(file, rank, df, dr, j)) && !occupies(
            other,
            along(file, rank, df, dr, j),
        )
}

proof fn lemma_mul_step(k: int, d: int)
    by (nonlinear_arith)
    requires
        -1 <= d <= 1,
    ensures
        (k + 1) * d == k * d + d,
        (k - 1) * d == k * d - d,
        d == 1 ==> k * d == k,
        d == -1 ==> k * d == -k,
        d == 0 ==> k * d == 0,
{
}

/// A slide from a square of the board reaches exactly the squares some
/// number of steps along its direction whose way there is free, stopping
/// before the first square of `own` and on the first square of `other`.
pub proof fn lemma_ray_geo_squares(
    file: int,
    rank: int,
    df: int,
    dr: int,
    own: u64,
    other: u64,
    t: int,
)
    requires
        on_board(file, rank),
        is_king_step(df, dr),
        0 <= t < 64,
    ensures
        occupies(ray_geo(file, rank, df, dr, own, other), t) <==> exists|k: int|
            reached(file, rank, df, dr, own, other, k, t),
    decreases geo_measure(file, rank, df, dr),
{
    let nf = file + df;
    let nr = rank + dr;
    lemma_mul_step(1, df);
    lemma_mul_step(1, dr);
    lemma_square_ops(0, 0, t);
    if !on_board(nf, nr) {
        if exists|k: int| reached(file, rank, df, dr, own, other, k, t) {
            let k = choose|k: int| reached(file, rank, df, dr, own, other, k, t);
            lemma_mul_step(k, df);
            lemma_mul_step(k, dr);
        }
    } else {
        let nsq = square_at(nf, nr);
        let b = square_bit(nsq);
        lemma_square_bit_holds(nsq, t);
        lemma_or_facts(square_bit(nsq), own, 0);
        lemma_or_facts(square_bit(nsq), other, 0);
        assert(along(file, rank, df, dr, 1) == nsq);
        if own & b != 0 {
            if exists|k: int| reached(file, rank, df, dr, own, other, k, t) {
                let k = choose|k: int| reached(file, rank, df, dr, own, other, k, t);
                if k > 1 {
                    assert(!occupies(own, along(file, rank, df, dr, 1)));
                }
            }
        } else if other & b != 0 {
            if exists|k: int| reached(file, rank, df, dr, own, other, k, t) {
                let k = choose|k: int| reached(file, rank, df, dr, own, other, k, t);
                if k > 1 {
                    assert(!occupies(other, along(file, rank, df, dr, 1)));
                }
            }
            if t == nsq {
                assert(reached(file, rank, df, dr, own, other, 1, t));
            }
        } else {
            let rest = ray_geo(nf, nr, df, dr, own, other);
            lemma_ray_geo_squares(nf, nr, df, dr, own, other, t);
            lemma_square_ops(b, rest, t);
            if occupies(rest, t) {
                let k = choose|k: int| reached(nf, nr, df, dr, own, other, k, t);
                lemma_mul_step(k, df);
                lemma_mul_step(k, dr);
                assert forall|j: int| 1 <= j < k + 1 implies !occupies(
                    own,
                    #[trigger] along(file, rank, df, dr, j),
                ) && !occupies(other, along(file, rank, df, dr, j)) by {
                    lemma_mul_step(j, df);
                    lemma_mul_step(j, dr);
                    lemma_mul_step(j - 1, df);
                    lemma_mul_step(j - 1, dr);
                    if j > 1 {
                        assert(along(file, rank, df, dr, j) == along(nf, nr, df, dr, j - 1));
                    }
                }
                assert(reached(file, rank, df, dr, own, other, k + 1, t));
            }
            if t == nsq {
                assert(reached(file, rank, df, dr, own, other, 1, t));
            }
            if exists|k: int| reached(file, rank, df, dr, own, other, k, t) {
                let k = choose|k: int| reached(file, rank, df, dr, own, other, k, t);
                if k > 1 {
                    lemma_mul_step(k, df);
                    lemma_mul_step(k, dr);
                    lemma_mul_step(k - 1, df);
                    lemma_mul_step(k - 1, dr);
                    assert forall|j: int| 1 <= j < k - 1 implies !occupies(
                        own,
                        #[trigger] along(nf, nr, df, dr, j),
                    ) && !occupies(other, along(nf, nr, df, dr, j)) by {
                        lemma_mul_step(j, df);
                        lemma_mul_step(j, dr);
                        lemma_mul_step(j + 1, df);
                        lemma_mul_step(j + 1, dr);
                        assert(along(nf, nr, df, dr, j) == along(file, rank, df, dr, j + 1));
                    }
                    assert(reached(nf, nr, df, dr, own, other, k - 1, t));
                }
            }
        }
    }
}

/// The squares of `m` from index `i` on are listed in ascending order, each
/// once, and every one of them is listed.
pub proof fn lemma_squares_from_order(m: u64, i: int)
    requires
        0 <= i <= 64,
    ensures
        forall|t: int| i <= t < 64 && occupies(m, t) ==> squares_from(m, i).contains(square_bit(t)),
        forall|j: int, k: int|
            0 <= j < k < squares_from(m, i).len() ==> lowest_square(
                #[trigger] squares_from(m, i)[j],
            ) < lowest_square(#[trigger] squares_from(m, i)[k]),
        forall|j: int|
            0 <= j < squares_from(m, i).len() ==> i <= lowest_square(
                #[trigger] squares_from(m, i)[j],
            ) < 64,
    decreases 64 - i,
{
    if i < 64 {
        lemma_squares_from_order(m, i + 1);
        lemma_squares_from(m, i + 1);
        lemma_square_index_round_trip(i);
        let rest = squares_from(m, i + 1);
        let all = squares_from(m, i);
        if occupies(m, i) {
            assert(all == seq![square_bit(i)] + rest);
            assert forall|t: int| i <= t < 64 && occupies(m, t) implies all.contains(
                square_bit(t),
            ) by {
                if t == i {
                    assert(all[0] == square_bit(i));
                } else {
                    let j = choose|j: int| 0 <= j < rest.len() && rest[j] == square_bit(t);
                    assert(all[j + 1] == square_bit(t));
                }
            }
            assert forall|j: int, k: int| 0 <= j < k < all.len() implies lowest_square(
                #[trigger] all[j],
            ) < lowest_square(#[trigger] all[k]) by {
                assert(all[k] == rest[k - 1]);
                if j > 0 {
                    assert(all[j] == rest[j - 1]);
                }
            }
            assert forall|j: int| 0 <= j < all.len() implies i <= lowest_square(
                #[trigger] all[j],
            ) < 64 by {
                if j > 0 {
                    assert(all[j] == rest[j - 1]);
                }
            }
        } else {
            assert forall|t: int| i <= t < 64 && occupies(m, t) implies all.contains(
                square_bit(t),
            ) by {
                assert(t != i);
            }
        }
    }
}

/// `squares_of(m)` lists every square of `m`, each once, in ascending
/// order of square index.
pub proof fn lemma_squares_of_order(m: u64)
    ensures
        forall|t: int| 0 <= t < 64 && occupies(m, t) ==> squares_of(m).contains(square_bit(t)),
        forall|j: int, k: int|
            0 <= j < k < squares_of(m).len() ==> lowest_square(#[trigger] squares_of(m)[j])
                < lowest_square(#[trigger] squares_of(m)[k]),
{
    lemma_squares_from_order(m, 0);
}

} // verus!
