//! The shift patterns of kings, knights and pawns, each proved against the geometry.
use crate::bitboard::{bit, lemma_bit_ops, lemma_bit_shl, lemma_bit_shr, Bitboard};
use crate::geometry::{king_step, knight_jump, pawn_attacks};
use crate::utils::{file_of, lemma_file_masks, rank_of, Color, CLEAR_FILE};
use vstd::prelude::*;

verus! {

/// The squares next to a square of `k`: eight shifts, those that change the file taken
/// from `k` without the file they would leave the board from.
pub open spec fn king_pattern(k: u64) -> u64 {
    let a = k & CLEAR_FILE[0];
    let h = k & CLEAR_FILE[7];
    (a << 7) | (k << 8) | (h << 9) | (h << 1) | (h >> 7) | (k >> 8) | (a >> 9) | (a >> 1)
}

/// The squares a knight's jump away from a square of `n`: eight shifts, each taken from `n`
/// without the one or two files it would leave the board from.
pub open spec fn knight_pattern(n: u64) -> u64 {
    let h = n & CLEAR_FILE[7];
    let gh = n & CLEAR_FILE[6] & CLEAR_FILE[7];
    let a = n & CLEAR_FILE[0];
    let ab = n & CLEAR_FILE[1] & CLEAR_FILE[0];
    (h << 17) | (gh << 10) | (gh >> 6) | (h >> 15) | (a >> 17) | (ab >> 10) | (ab << 6) | (a
        << 15)
}

/// The squares one rank ahead and one file to the left of a pawn of `pawns`, as `color`
/// sees the board; a shift that wraps round the edge is cleared.
pub open spec fn pawn_left_pattern(color: Color, pawns: u64) -> u64 {
    match color {
        Color::White => (pawns << 7) & CLEAR_FILE[7],
        Color::Black => (pawns >> 7) & CLEAR_FILE[0],
    }
}

/// The squares one rank ahead and one file to the right of a pawn of `pawns`, as `color`
/// sees the board.
pub open spec fn pawn_right_pattern(color: Color, pawns: u64) -> u64 {
    match color {
        Color::White => (pawns << 9) & CLEAR_FILE[0],
        Color::Black => (pawns >> 9) & CLEAR_FILE[7],
    }
}

/// The squares that the pawns of `color` attack.
pub open spec fn pawn_attack_pattern(color: Color, pawns: u64) -> u64 {
    pawn_left_pattern(color, pawns) | pawn_right_pattern(color, pawns)
}

/// The squares next to a square of `king`.
pub fn king_moves(king: Bitboard) -> (r: Bitboard)
    ensures
        r.0 == king_pattern(king.0),
{
    let k = king.0;
    let a = k & CLEAR_FILE[0];
    let h = k & CLEAR_FILE[7];
    Bitboard((a << 7) | (k << 8) | (h << 9) | (h << 1) | (h >> 7) | (k >> 8) | (a >> 9) | (a >> 1))
}

/// The squares a knight's jump away from a square of `knights`.
pub fn knight_moves(knights: Bitboard) -> (r: Bitboard)
    ensures
        r.0 == knight_pattern(knights.0),
{
    let n = knights.0;
    let h = n & CLEAR_FILE[7];
    let gh = n & CLEAR_FILE[6] & CLEAR_FILE[7];
    let a = n & CLEAR_FILE[0];
    let ab = n & CLEAR_FILE[1] & CLEAR_FILE[0];
    Bitboard(
        (h << 17) | (gh << 10) | (gh >> 6) | (h >> 15) | (a >> 17) | (ab >> 10) | (ab << 6) | (a
            << 15),
    )
}

/// The squares that the pawns of `color` on `pawns` attack.
pub fn pawn_attacks_of(color: Color, pawns: Bitboard) -> (r: Bitboard)
    ensures
        r.0 == pawn_attack_pattern(color, pawns.0),
{
    match color {
        Color::White => Bitboard(
            ((pawns.0 << 7) & CLEAR_FILE[7]) | ((pawns.0 << 9) & CLEAR_FILE[0]),
        ),
        Color::Black => Bitboard(
            ((pawns.0 >> 7) & CLEAR_FILE[0]) | ((pawns.0 >> 9) & CLEAR_FILE[7]),
        ),
    }
}

/// The difference of two square indices in ranks and files.
pub proof fn lemma_offset(p: int, t: int)
    requires
        0 <= p < 64,
        0 <= t < 64,
    ensures
        t - p == 8 * (rank_of(t) - rank_of(p)) + (file_of(t) - file_of(p)),
        0 <= file_of(p) < 8,
        0 <= file_of(t) < 8,
        0 <= rank_of(p) < 8,
        0 <= rank_of(t) < 8,
{
}

/// Bit `t` of `x`, taken without the files `f` and `g` and shifted by `delta` squares
/// towards h8: bit `t - delta` of `x`, if that square is on neither file.
proof fn lemma_spot(x: u64, f: int, g: int, delta: int, t: int)
    requires
        0 <= f < 8,
        0 <= g < 8,
        -64 < delta < 64,
        0 <= t < 64,
    ensures
        ({
            let src = x & CLEAR_FILE[f] & CLEAR_FILE[g];
            let p = t - delta;
            let there = 0 <= p < 64 && bit(x, p) && file_of(p) != f && file_of(p) != g;
            &&& delta >= 0 ==> bit(src << (delta as u64), t) == there
            &&& delta <= 0 ==> bit(src >> ((-delta) as u64), t) == there
        }),
{
    let src = x & CLEAR_FILE[f] & CLEAR_FILE[g];
    let p = t - delta;
    if delta >= 0 {
        lemma_bit_shl(src, delta, t);
    }
    if delta <= 0 {
        lemma_bit_shr(src, -delta, t);
    }
    if 0 <= p < 64 {
        lemma_bit_ops(x & CLEAR_FILE[f], CLEAR_FILE[g], p);
        lemma_bit_ops(x, CLEAR_FILE[f], p);
        lemma_file_masks(f, p);
        lemma_file_masks(g, p);
    }
}

/// A word masked twice with the same mask is the word masked once.
proof fn lemma_and_twice(x: u64, m: u64)
    ensures
        x & m & m == x & m,
{
    assert(x & m & m == x & m) by (bit_vector);
}

/// A square is in the king pattern of `k` exactly when a king's step leads to it from a
/// square of `k`.
pub proof fn lemma_king_pattern(k: u64, t: int)
    requires
        0 <= t < 64,
    ensures
        bit(king_pattern(k), t) == exists|p: int| 0 <= p < 64 && bit(k, p) && #[trigger] king_step(p, t),
{
    let a = k & CLEAR_FILE[0];
    let h = k & CLEAR_FILE[7];
    let all: u64 = 0xffff_ffff_ffff_ffff;
    lemma_and_twice(k, CLEAR_FILE[0]);
    lemma_and_twice(k, CLEAR_FILE[7]);
    lemma_spot(k, 0, 0, 7, t);
    lemma_spot(k, 7, 7, 9, t);
    lemma_spot(k, 7, 7, 1, t);
    lemma_spot(k, 7, 7, -7, t);
    lemma_spot(k, 0, 0, -9, t);
    lemma_spot(k, 0, 0, -1, t);
    lemma_bit_shl(k, 8, t);
    lemma_bit_shr(k, 8, t);
    let s1 = a << 7;
    let s2 = k << 8;
    let s3 = h << 9;
    let s4 = h << 1;
    let s5 = h >> 7;
    let s6 = k >> 8;
    let s7 = a >> 9;
    let s8 = a >> 1;
    lemma_bit_ops(s1, s2, t);
    lemma_bit_ops(s1 | s2, s3, t);
    lemma_bit_ops(s1 | s2 | s3, s4, t);
    lemma_bit_ops(s1 | s2 | s3 | s4, s5, t);
    lemma_bit_ops(s1 | s2 | s3 | s4 | s5, s6, t);
    lemma_bit_ops(s1 | s2 | s3 | s4 | s5 | s6, s7, t);
    lemma_bit_ops(s1 | s2 | s3 | s4 | s5 | s6 | s7, s8, t);
    if bit(king_pattern(k), t) {
        let p = if bit(s1, t) {
            t - 7
        } else if bit(s2, t) {
            t - 8
        } else if bit(s3, t) {
            t - 9
        } else if bit(s4, t) {
            t - 1
        } else if bit(s5, t) {
            t + 7
        } else if bit(s6, t) {
            t + 8
        } else if bit(s7, t) {
            t + 9
        } else {
            t + 1
        };
        lemma_offset(p, t);
        assert(king_step(p, t));
    }
    if exists|p: int| 0 <= p < 64 && bit(k, p) && #[trigger] king_step(p, t) {
        let p = choose|p: int| 0 <= p < 64 && bit(k, p) && #[trigger] king_step(p, t);
        lemma_offset(p, t);
        assert(bit(king_pattern(k), t));
    }
}

/// A square is in the knight pattern of `n` exactly when a knight's jump leads to it from a
/// square of `n`.
pub proof fn lemma_knight_pattern(n: u64, t: int)
    requires
        0 <= t < 64,
    ensures
        bit(knight_pattern(n), t) == exists|p: int| 0 <= p < 64 && bit(n, p) && #[trigger] knight_jump(p, t),
{
    let h = n & CLEAR_FILE[7];
    let gh = n & CLEAR_FILE[6] & CLEAR_FILE[7];
    let a = n & CLEAR_FILE[0];
    let ab = n & CLEAR_FILE[1] & CLEAR_FILE[0];
    lemma_and_twice(n, CLEAR_FILE[0]);
    lemma_and_twice(n, CLEAR_FILE[7]);
    lemma_spot(n, 7, 7, 17, t);
    lemma_spot(n, 6, 7, 10, t);
    lemma_spot(n, 6, 7, -6, t);
    lemma_spot(n, 7, 7, -15, t);
    lemma_spot(n, 0, 0, -17, t);
    lemma_spot(n, 1, 0, -10, t);
    lemma_spot(n, 1, 0, 6, t);
    lemma_spot(n, 0, 0, 15, t);
    let s1 = h << 17;
    let s2 = gh << 10;
    let s3 = gh >> 6;
    let s4 = h >> 15;
    let s5 = a >> 17;
    let s6 = ab >> 10;
    let s7 = ab << 6;
    let s8 = a << 15;
    lemma_bit_ops(s1, s2, t);
    lemma_bit_ops(s1 | s2, s3, t);
    lemma_bit_ops(s1 | s2 | s3, s4, t);
    lemma_bit_ops(s1 | s2 | s3 | s4, s5, t);
    lemma_bit_ops(s1 | s2 | s3 | s4 | s5, s6, t);
    lemma_bit_ops(s1 | s2 | s3 | s4 | s5 | s6, s7, t);
    lemma_bit_ops(s1 | s2 | s3 | s4 | s5 | s6 | s7, s8, t);
    if bit(knight_pattern(n), t) {
        let p = if bit(s1, t) {
            t - 17
        } else if bit(s2, t) {
            t - 10
        } else if bit(s3, t) {
            t + 6
        } else if bit(s4, t) {
            t + 15
        } else if bit(s5, t) {
            t + 17
        } else if bit(s6, t) {
            t + 10
        } else if bit(s7, t) {
            t - 6
        } else {
            t - 15
        };
        lemma_offset(p, t);
        assert(knight_jump(p, t));
    }
    if exists|p: int| 0 <= p < 64 && bit(n, p) && #[trigger] knight_jump(p, t) {
        let p = choose|p: int| 0 <= p < 64 && bit(n, p) && #[trigger] knight_jump(p, t);
        lemma_offset(p, t);
        assert(bit(knight_pattern(n), t));
    }
}

/// The square from which a pawn of `color` captures to its left onto square `t`.
pub open spec fn left_origin(color: Color, t: int) -> int {
    match color {
        Color::White => t - 7,
        Color::Black => t + 7,
    }
}

/// The square from which a pawn of `color` captures to its right onto square `t`.
pub open spec fn right_origin(color: Color, t: int) -> int {
    match color {
        Color::White => t - 9,
        Color::Black => t + 9,
    }
}

/// The bits of the two pawn capture patterns: a square is in a pattern exactly when the
/// origin of that capture holds a pawn, which then attacks the square.
pub proof fn lemma_pawn_patterns(color: Color, pawns: u64, t: int)
    requires
        0 <= t < 64,
    ensures
        bit(pawn_left_pattern(color, pawns), t) == (0 <= left_origin(color, t) < 64 && bit(
            pawns,
            left_origin(color, t),
        ) && pawn_attacks(color, left_origin(color, t), t)),
        bit(pawn_right_pattern(color, pawns), t) == (0 <= right_origin(color, t) < 64 && bit(
            pawns,
            right_origin(color, t),
        ) && pawn_attacks(color, right_origin(color, t), t)),
        forall|p: int|
            0 <= p < 64 && #[trigger] pawn_attacks(color, p, t) ==> p == left_origin(color, t) || p
                == right_origin(color, t),
{
    lemma_file_masks(0, t);
    lemma_file_masks(7, t);
    assert forall|p: int| 0 <= p < 64 && #[trigger] pawn_attacks(color, p, t) implies p
        == left_origin(color, t) || p == right_origin(color, t) by {
        lemma_offset(p, t);
    }
    match color {
        Color::White => {
            lemma_bit_ops(pawns << 7, CLEAR_FILE[7], t);
            lemma_bit_ops(pawns << 9, CLEAR_FILE[0], t);
            lemma_bit_shl(pawns, 7, t);
            lemma_bit_shl(pawns, 9, t);
            if t >= 7 {
                lemma_offset(t - 7, t);
            }
            if t >= 9 {
                lemma_offset(t - 9, t);
            }
        },
        Color::Black => {
            lemma_bit_ops(pawns >> 7, CLEAR_FILE[0], t);
            lemma_bit_ops(pawns >> 9, CLEAR_FILE[7], t);
            lemma_bit_shr(pawns, 7, t);
            lemma_bit_shr(pawns, 9, t);
            if t + 7 < 64 {
                lemma_offset(t + 7, t);
            }
            if t + 9 < 64 {
                lemma_offset(t + 9, t);
            }
        },
    }
}

/// A square is in the pawn attack pattern exactly when a pawn of `pawns` attacks it.
pub proof fn lemma_pawn_attack_pattern(color: Color, pawns: u64, t: int)
    requires
        0 <= t < 64,
    ensures
        bit(pawn_attack_pattern(color, pawns), t) == exists|p: int|
            0 <= p < 64 && bit(pawns, p) && #[trigger] pawn_attacks(color, p, t),
{
    lemma_pawn_patterns(color, pawns, t);
    lemma_bit_ops(pawn_left_pattern(color, pawns), pawn_right_pattern(color, pawns), t);
    if bit(pawn_attack_pattern(color, pawns), t) {
        let p = if bit(pawn_left_pattern(color, pawns), t) {
            left_origin(color, t)
        } else {
            right_origin(color, t)
        };
        assert(pawn_attacks(color, p, t));
    }
    if exists|p: int| 0 <= p < 64 && bit(pawns, p) && #[trigger] pawn_attacks(color, p, t) {
        let p = choose|p: int| 0 <= p < 64 && bit(pawns, p) && #[trigger] pawn_attacks(color, p, t);
        assert(p == left_origin(color, t) || p == right_origin(color, t));
    }
}

} // verus!
