//! The geometry of the board: which squares a piece on one square attacks.
//!
//! Everything here is stated over square indices (`8 * rank + file`) and plain arithmetic on
//! ranks and files; the bit patterns of the rest of the crate are proved against it.
use crate::bitboard::{
    bit, lemma_bit_nonzero, lemma_bit_one, lemma_bit_ops, lemma_is_squares, lemma_popcount_bounds,
    lemma_popcount_listed, lemma_squares, one, popcount, squares, Bitboard,
};
use crate::utils::{
    file_of, lemma_file_masks, lemma_rank_masks, on_board, rank_of, Color, Kind, Square, CLEAR_FILE,
    CLEAR_RANK,
};
use vstd::prelude::*;

verus! {

/// Whether a displacement of `a` ranks and `b` files points in the direction `(dr, df)`,
/// each of `dr` and `df` being -1, 0 or 1: the signs agree and, for a diagonal direction,
/// the two distances are equal.
#[verifier::opaque]
pub open spec fn along(a: int, b: int, dr: int, df: int) -> bool {
    &&& dr == 0 ==> a == 0
    &&& dr > 0 ==> a > 0
    &&& dr < 0 ==> a < 0
    &&& df == 0 ==> b == 0
    &&& df > 0 ==> b > 0
    &&& df < 0 ==> b < 0
    &&& dr != 0 && df != 0 ==> (a == b || a == -b)
}

/// Whether square `t` lies on the ray that leaves square `s` in the direction `(dr, df)`.
pub open spec fn in_dir(s: int, t: int, dr: int, df: int) -> bool {
    &&& 0 <= s < 64
    &&& 0 <= t < 64
    &&& along(rank_of(t) - rank_of(s), file_of(t) - file_of(s), dr, df)
}

/// Whether `(dr, df)` is one of the eight directions.
pub open spec fn is_direction(dr: int, df: int) -> bool {
    -1 <= dr <= 1 && -1 <= df <= 1 && (dr != 0 || df != 0)
}

/// Whether a slider on `s` reaches `t` along `(dr, df)`: `t` is on that ray and no square
/// strictly between the two is occupied. `t` itself may be occupied.
pub open spec fn ray_sees(occ: u64, s: int, t: int, dr: int, df: int) -> bool {
    &&& in_dir(s, t, dr, df)
    &&& forall|u: int| #![trigger bit(occ, u)] in_dir(s, u, dr, df) && in_dir(u, t, dr, df) ==> !bit(occ, u)
}

/// Whether a rook on `s` attacks `t` when the squares of `occ` are occupied.
pub open spec fn rook_sees(occ: u64, s: int, t: int) -> bool {
    ||| ray_sees(occ, s, t, 1, 0)
    ||| ray_sees(occ, s, t, -1, 0)
    ||| ray_sees(occ, s, t, 0, 1)
    ||| ray_sees(occ, s, t, 0, -1)
}

/// Whether a bishop on `s` attacks `t` when the squares of `occ` are occupied.
pub open spec fn bishop_sees(occ: u64, s: int, t: int) -> bool {
    ||| ray_sees(occ, s, t, 1, 1)
    ||| ray_sees(occ, s, t, 1, -1)
    ||| ray_sees(occ, s, t, -1, 1)
    ||| ray_sees(occ, s, t, -1, -1)
}

/// Whether a sliding piece of `kind` on `s` attacks `t`; no other kind slides.
pub open spec fn slider_sees(kind: Kind, occ: u64, s: int, t: int) -> bool {
    match kind {
        Kind::Rook => rook_sees(occ, s, t),
        Kind::Bishop => bishop_sees(occ, s, t),
        Kind::Queen => rook_sees(occ, s, t) || bishop_sees(occ, s, t),
        _ => false,
    }
}

/// The squares that a sliding piece of `kind` on `s` attacks, as a word.
pub open spec fn slider_attack(kind: Kind, s: int, occ: u64) -> u64 {
    squares(|t: int| slider_sees(kind, occ, s, t))
}

/// The squares reached from `s` along one direction, as a word.
pub open spec fn ray_attack(s: int, occ: u64, dr: int, df: int) -> u64 {
    squares(|t: int| ray_sees(occ, s, t, dr, df))
}

/// Whether `t` is a square of the ray from `s` along `(dr, df)` that is not the last one
/// before the edge: a piece there can hide a square behind it.
pub open spec fn relevant_dir(s: int, t: int, dr: int, df: int) -> bool {
    in_dir(s, t, dr, df) && on_board(rank_of(t) + dr, file_of(t) + df)
}

/// Whether a piece on `t` can shorten an attack of a rook or bishop on `s`.
pub open spec fn relevant(kind: Kind, s: int, t: int) -> bool {
    match kind {
        Kind::Rook => {
            ||| relevant_dir(s, t, 1, 0)
            ||| relevant_dir(s, t, -1, 0)
            ||| relevant_dir(s, t, 0, 1)
            ||| relevant_dir(s, t, 0, -1)
        },
        Kind::Bishop => {
            ||| relevant_dir(s, t, 1, 1)
            ||| relevant_dir(s, t, 1, -1)
            ||| relevant_dir(s, t, -1, 1)
            ||| relevant_dir(s, t, -1, -1)
        },
        _ => false,
    }
}

/// The relevant blocker squares of a rook or bishop on `s`, as a word.
pub open spec fn relevant_mask(kind: Kind, s: int) -> u64 {
    squares(|t: int| relevant(kind, s, t))
}

/// The relevant blocker squares of one ray, as a word.
pub open spec fn relevant_ray(s: int, dr: int, df: int) -> u64 {
    squares(|t: int| relevant_dir(s, t, dr, df))
}

/// Whether a knight jumps from `s` to `t`.
pub open spec fn knight_jump(s: int, t: int) -> bool {
    let a = rank_of(t) - rank_of(s);
    let b = file_of(t) - file_of(s);
    &&& 0 <= s < 64
    &&& 0 <= t < 64
    &&& ((a == 2 || a == -2) && (b == 1 || b == -1)) || ((a == 1 || a == -1) && (b == 2 || b == -2))
}

/// Whether a king steps from `s` to `t`.
pub open spec fn king_step(s: int, t: int) -> bool {
    let a = rank_of(t) - rank_of(s);
    let b = file_of(t) - file_of(s);
    &&& 0 <= s < 64
    &&& 0 <= t < 64
    &&& s != t
    &&& -1 <= a <= 1
    &&& -1 <= b <= 1
}

/// Whether a pawn of `color` on `s` attacks `t`: one rank ahead, one file aside.
pub open spec fn pawn_attacks(color: Color, s: int, t: int) -> bool {
    let a = rank_of(t) - rank_of(s);
    let b = file_of(t) - file_of(s);
    &&& 0 <= s < 64
    &&& 0 <= t < 64
    &&& (b == 1 || b == -1)
    &&& match color {
        Color::White => a == 1,
        Color::Black => a == -1,
    }
}

/// Moving the far end of a displacement one step further along its direction adds exactly
/// the old far end to what lies before it.
proof fn lemma_along_step(a: int, b: int, c: int, d: int, dr: int, df: int)
    requires
        is_direction(dr, df),
        along(a, b, dr, df),
        along(c, d, dr, df),
    ensures
        along(a + dr - c, b + df - d, dr, df) == (along(a - c, b - d, dr, df) || (a == c && b
            == d)),
{
    reveal(along);
}

/// Of two squares on one ray, one lies before the other, or they are the same square.
proof fn lemma_along_order(a: int, b: int, c: int, d: int, dr: int, df: int)
    requires
        is_direction(dr, df),
        along(a, b, dr, df),
        along(c, d, dr, df),
    ensures
        along(a - c, b - d, dr, df) || (a == c && b == d) || along(c - a, d - b, dr, df),
{
    reveal(along);
}

/// A displacement along a direction followed by another along the same direction is one
/// along that direction.
proof fn lemma_along_sum(a: int, b: int, c: int, d: int, dr: int, df: int)
    requires
        is_direction(dr, df),
        along(a, b, dr, df),
        along(c, d, dr, df),
    ensures
        along(a + c, b + d, dr, df),
{
    reveal(along);
}

/// A point of a ray that is off the board lies beyond every square of the ray.
proof fn lemma_along_exit(rs: int, fs: int, a: int, b: int, c: int, d: int, dr: int, df: int)
    requires
        is_direction(dr, df),
        0 <= rs < 8,
        0 <= fs < 8,
        along(a, b, dr, df),
        along(c, d, dr, df),
        0 <= rs + c < 8,
        0 <= fs + d < 8,
        !(0 <= rs + a < 8 && 0 <= fs + b < 8),
    ensures
        along(a - c, b - d, dr, df),
{
    reveal(along);
}

/// One step in a direction is a displacement along it, and nothing on the ray lies before
/// the first step.
proof fn lemma_along_first(c: int, d: int, dr: int, df: int)
    requires
        is_direction(dr, df),
    ensures
        along(dr, df, dr, df),
        along(c, d, dr, df) ==> !along(dr - c, df - d, dr, df),
{
    reveal(along);
}

/// Walks from `square` in the direction `(dr, df)` and collects every square up to and
/// including the first one that `blockers` holds.
pub fn walk_ray(square: Square, blockers: Bitboard, dr: i32, df: i32) -> (r: Bitboard)
    requires
        is_direction(dr as int, df as int),
    ensures
        r.0 == ray_attack(square.index(), blockers.0, dr as int, df as int),
{
    let ghost s = square.index();
    let ghost occ = blockers.0;
    let ghost rs = rank_of(s);
    let ghost fs = file_of(s);
    let mut rank: i32 = square.rank() as i32 + dr;
    let mut file: i32 = square.file() as i32 + df;
    let mut attacks: u64 = 0;
    let mut blocked = false;
    proof {
        assert forall|u: int| 0 <= u < 64 implies !bit(attacks, u) by {
            lemma_bit_ops(0, 0, u);
        }
        assert forall|u: int| in_dir(s, u, dr as int, df as int) implies !along(
            rank - rank_of(u),
            file - file_of(u),
            dr as int,
            df as int,
        ) by {
            lemma_along_first(rank_of(u) - rs, file_of(u) - fs, dr as int, df as int);
        }
        lemma_along_first(0, 0, dr as int, df as int);
    }
    while 0 <= rank && rank < 8 && 0 <= file && file < 8 && !blocked
        invariant
            is_direction(dr as int, df as int),
            s == square.index(),
            occ == blockers.0,
            rs == rank_of(s),
            fs == file_of(s),
            0 <= s < 64,
            -1 <= rank <= 8,
            -1 <= file <= 8,
            along(rank - rs, file - fs, dr as int, df as int),
            forall|u: int|
                0 <= u < 64 ==> (#[trigger] bit(attacks, u) <==> in_dir(s, u, dr as int, df as int)
                    && (along(rank - rank_of(u), file - file_of(u), dr as int, df as int) || (
                blocked && u == 8 * rank + file))),
            forall|u: int|
                in_dir(s, u, dr as int, df as int) && along(
                    rank - rank_of(u),
                    file - file_of(u),
                    dr as int,
                    df as int,
                ) ==> !#[trigger] bit(occ, u),
            blocked ==> 0 <= rank < 8 && 0 <= file < 8 && bit(occ, 8 * rank + file),
        decreases
            (if blocked {
                0
            } else if dr == 1 {
                9 - rank
            } else if dr == -1 {
                rank + 2
            } else if df == 1 {
                9 - file
            } else {
                file + 2
            }),
    {
        let sq: u64 = (rank * 8 + file) as u64;
        let ghost before = attacks;
        let ghost r0 = rank as int;
        let ghost f0 = file as int;
        attacks = attacks | (1u64 << sq);
        proof {
            assert forall|u: int| 0 <= u < 64 implies bit(attacks, u) == (bit(before, u) || u
                == sq) by {
                lemma_bit_ops(before, one(sq as int), u);
                lemma_bit_one(sq as int, u);
            }
            assert(rank_of(sq as int) == r0 && file_of(sq as int) == f0);
        }
        if (blockers.0 >> sq) & 1 == 1 {
            blocked = true;
        } else {
            rank = rank + dr;
            file = file + df;
            proof {
                assert forall|u: int| in_dir(s, u, dr as int, df as int) implies (along(
                    rank - rank_of(u),
                    file - file_of(u),
                    dr as int,
                    df as int,
                ) == (along(r0 - rank_of(u), f0 - file_of(u), dr as int, df as int) || u
                    == sq)) by {
                    lemma_along_step(
                        r0 - rs,
                        f0 - fs,
                        rank_of(u) - rs,
                        file_of(u) - fs,
                        dr as int,
                        df as int,
                    );
                }
                lemma_along_first(0, 0, dr as int, df as int);
                lemma_along_sum(r0 - rs, f0 - fs, dr as int, df as int, dr as int, df as int);
            }
        }
    }
    proof {
        let p = |t: int| ray_sees(occ, s, t, dr as int, df as int);
        let on = 0 <= rank < 8 && 0 <= file < 8;
        assert forall|t: int| 0 <= t < 64 implies bit(attacks, t) == p(t) by {
            let rt = rank_of(t);
            let ft = file_of(t);
            if bit(attacks, t) {
                assert forall|u: int|
                    in_dir(s, u, dr as int, df as int) && in_dir(
                        u,
                        t,
                        dr as int,
                        df as int,
                    ) implies !bit(occ, u) by {
                    if !along(rank - rt, file - ft, dr as int, df as int) {
                        assert(rt == rank && ft == file);
                    } else {
                        lemma_along_sum(
                            rank - rt,
                            file - ft,
                            rt - rank_of(u),
                            ft - file_of(u),
                            dr as int,
                            df as int,
                        );
                    }
                }
            }
            if ray_sees(occ, s, t, dr as int, df as int) {
                if !on {
                    lemma_along_exit(
                        rs,
                        fs,
                        rank - rs,
                        file - fs,
                        rt - rs,
                        ft - fs,
                        dr as int,
                        df as int,
                    );
                } else {
                    let c = 8 * rank + file;
                    assert(blocked && bit(occ, c));
                    assert(rank_of(c) == rank && file_of(c) == file);
                    lemma_along_order(
                        rank - rs,
                        file - fs,
                        rt - rs,
                        ft - fs,
                        dr as int,
                        df as int,
                    );
                    if along(rt - rank, ft - file, dr as int, df as int) {
                        assert(in_dir(s, c, dr as int, df as int));
                        assert(in_dir(c, t, dr as int, df as int));
                        assert(false);
                    }
                    if !along(rank - rt, file - ft, dr as int, df as int) {
                        assert(t == c);
                    }
                }
                assert(bit(attacks, t));
            }
        }
        lemma_is_squares(attacks, p);
    }
    Bitboard(attacks)
}

/// One of the eight directions of the board.
#[derive(Clone, Copy, PartialEq, Eq, Structural, Debug)]
pub enum Direction {
    North,
    South,
    East,
    West,
    NorthEast,
    NorthWest,
    SouthEast,
    SouthWest,
}

impl Direction {
    /// Ranks gained by one step in this direction.
    pub open spec fn spec_rank_step(self) -> int {
        match self {
            Direction::North | Direction::NorthEast | Direction::NorthWest => 1,
            Direction::South | Direction::SouthEast | Direction::SouthWest => -1,
            Direction::East | Direction::West => 0,
        }
    }

    /// Files gained by one step in this direction.
    pub open spec fn spec_file_step(self) -> int {
        match self {
            Direction::East | Direction::NorthEast | Direction::SouthEast => 1,
            Direction::West | Direction::NorthWest | Direction::SouthWest => -1,
            Direction::North | Direction::South => 0,
        }
    }

    /// Ranks gained by one step in this direction.
    pub fn rank_step(self) -> (r: i32)
        ensures
            r == self.spec_rank_step(),
    {
        match self {
            Direction::North | Direction::NorthEast | Direction::NorthWest => 1,
            Direction::South | Direction::SouthEast | Direction::SouthWest => -1,
            Direction::East | Direction::West => 0,
        }
    }

    /// Files gained by one step in this direction.
    pub fn file_step(self) -> (r: i32)
        ensures
            r == self.spec_file_step(),
    {
        match self {
            Direction::East | Direction::NorthEast | Direction::SouthEast => 1,
            Direction::West | Direction::NorthWest | Direction::SouthWest => -1,
            Direction::North | Direction::South => 0,
        }
    }
}

/// The squares of the ray that leaves `s` in the direction `(dr, df)`, without `s`, as a word.
pub open spec fn ray_squares(s: int, dr: int, df: int) -> u64 {
    squares(|t: int| in_dir(s, t, dr, df))
}

/// On an empty board a slider reaches every square of its ray.
pub proof fn lemma_ray_on_empty_board(s: int, dr: int, df: int)
    ensures
        ray_attack(s, 0, dr, df) == ray_squares(s, dr, df),
{
    let p = |t: int| ray_sees(0, s, t, dr, df);
    let q = |t: int| in_dir(s, t, dr, df);
    lemma_squares(p);
    assert forall|t: int| 0 <= t < 64 implies bit(ray_attack(s, 0, dr, df), t) == q(t) by {
        assert(bit(squares(p), t) == p(t));
        assert forall|u: int| 0 <= u < 64 implies !bit(0, u) by {
            lemma_bit_ops(0, 0, u);
        }
    }
    lemma_is_squares(ray_attack(s, 0, dr, df), q);
}

/// The squares reached by stepping from `square` in `direction` to the edge of the board,
/// without `square` itself.
pub fn ray(square: Square, direction: Direction) -> (r: Bitboard)
    ensures
        r.0 == ray_squares(square.index(), direction.spec_rank_step(), direction.spec_file_step()),
{
    proof {
        lemma_ray_on_empty_board(
            square.index(),
            direction.spec_rank_step(),
            direction.spec_file_step(),
        );
    }
    walk_ray(square, Bitboard(0), direction.rank_step(), direction.file_step())
}

/// A square with another square of the board beyond it in some direction has its next square
/// in that direction on the board.
proof fn lemma_along_next(ru: int, fu: int, c: int, d: int, dr: int, df: int)
    requires
        is_direction(dr, df),
        on_board(ru, fu),
        on_board(ru + c, fu + d),
        along(c, d, dr, df),
    ensures
        on_board(ru + dr, fu + df),
{
    reveal(along);
}

/// What a slider reaches along a ray depends only on the relevant squares of that ray.
pub proof fn lemma_ray_sees_relevant(occ: u64, mask: u64, s: int, t: int, dr: int, df: int)
    requires
        is_direction(dr, df),
        forall|u: int| relevant_dir(s, u, dr, df) ==> bit(mask, u),
    ensures
        ray_sees(occ, s, t, dr, df) == ray_sees(occ & mask, s, t, dr, df),
{
    let both = occ & mask;
    assert forall|u: int| in_dir(s, u, dr, df) && in_dir(u, t, dr, df) implies bit(occ, u) == bit(
        both,
        u,
    ) by {
        lemma_along_next(
            rank_of(u),
            file_of(u),
            rank_of(t) - rank_of(u),
            file_of(t) - file_of(u),
            dr,
            df,
        );
        assert(relevant_dir(s, u, dr, df));
        lemma_bit_ops(occ, mask, u);
    }
    if ray_sees(occ, s, t, dr, df) {
        assert forall|u: int| in_dir(s, u, dr, df) && in_dir(u, t, dr, df) implies !bit(
            both,
            u,
        ) by {
            assert(!bit(occ, u));
        }
    }
    if ray_sees(both, s, t, dr, df) {
        assert forall|u: int| in_dir(s, u, dr, df) && in_dir(u, t, dr, df) implies !bit(occ, u) by {
            assert(!bit(both, u));
        }
    }
}

/// What a rook or bishop attacks depends only on the occupancy of its relevant squares.
pub proof fn lemma_attack_relevant(kind: Kind, s: int, occ: u64)
    requires
        kind == Kind::Rook || kind == Kind::Bishop,
    ensures
        slider_attack(kind, s, occ & relevant_mask(kind, s)) == slider_attack(kind, s, occ),
{
    let mask = relevant_mask(kind, s);
    let p = |t: int| slider_sees(kind, occ, s, t);
    let q = |t: int| slider_sees(kind, occ & mask, s, t);
    lemma_squares(|t: int| relevant(kind, s, t));
    lemma_squares(q);
    assert forall|t: int| 0 <= t < 64 implies bit(slider_attack(kind, s, occ & mask), t) == p(
        t,
    ) by {
        assert(bit(squares(q), t) == q(t));
        if kind == Kind::Rook {
            lemma_ray_sees_relevant(occ, mask, s, t, 1, 0);
            lemma_ray_sees_relevant(occ, mask, s, t, -1, 0);
            lemma_ray_sees_relevant(occ, mask, s, t, 0, 1);
            lemma_ray_sees_relevant(occ, mask, s, t, 0, -1);
        } else {
            lemma_ray_sees_relevant(occ, mask, s, t, 1, 1);
            lemma_ray_sees_relevant(occ, mask, s, t, 1, -1);
            lemma_ray_sees_relevant(occ, mask, s, t, -1, 1);
            lemma_ray_sees_relevant(occ, mask, s, t, -1, -1);
        }
    }
    lemma_is_squares(slider_attack(kind, s, occ & mask), p);
}

/// A displacement along a direction, reversed, is one along the opposite direction.
proof fn lemma_along_reverse(a: int, b: int, dr: int, df: int)
    ensures
        along(a, b, dr, df) == along(-a, -b, -dr, -df),
{
    reveal(along);
}

/// A slider on `s` reaches `t` along a direction exactly when a slider on `t` reaches `s`
/// along the opposite one.
pub proof fn lemma_ray_sees_reverse(occ: u64, s: int, t: int, dr: int, df: int)
    ensures
        ray_sees(occ, s, t, dr, df) == ray_sees(occ, t, s, -dr, -df),
{
    lemma_along_reverse(rank_of(t) - rank_of(s), file_of(t) - file_of(s), dr, df);
    assert forall|u: int|
        (in_dir(s, u, dr, df) && in_dir(u, t, dr, df)) == (in_dir(t, u, -dr, -df) && in_dir(
            u,
            s,
            -dr,
            -df,
        )) by {
        lemma_along_reverse(rank_of(u) - rank_of(s), file_of(u) - file_of(s), dr, df);
        lemma_along_reverse(rank_of(t) - rank_of(u), file_of(t) - file_of(u), dr, df);
    }
    if ray_sees(occ, s, t, dr, df) {
        assert forall|u: int| in_dir(t, u, -dr, -df) && in_dir(u, s, -dr, -df) implies !bit(
            occ,
            u,
        ) by {
            assert(in_dir(s, u, dr, df) && in_dir(u, t, dr, df));
        }
    }
    if ray_sees(occ, t, s, -dr, -df) {
        assert forall|u: int| in_dir(s, u, dr, df) && in_dir(u, t, dr, df) implies !bit(occ, u) by {
            assert(in_dir(t, u, -dr, -df) && in_dir(u, s, -dr, -df));
        }
    }
}

/// Sliding attacks are mutual: a rook, bishop or queen on `s` attacks `t` exactly when the
/// same kind on `t` would attack `s`.
pub proof fn lemma_slider_sees_symmetric(kind: Kind, occ: u64, s: int, t: int)
    ensures
        slider_sees(kind, occ, s, t) == slider_sees(kind, occ, t, s),
{
    lemma_ray_sees_reverse(occ, s, t, 1, 0);
    lemma_ray_sees_reverse(occ, s, t, -1, 0);
    lemma_ray_sees_reverse(occ, s, t, 0, 1);
    lemma_ray_sees_reverse(occ, s, t, 0, -1);
    lemma_ray_sees_reverse(occ, s, t, 1, 1);
    lemma_ray_sees_reverse(occ, s, t, 1, -1);
    lemma_ray_sees_reverse(occ, s, t, -1, 1);
    lemma_ray_sees_reverse(occ, s, t, -1, -1);
}

/// A slider that reaches a square keeps reaching it when squares are vacated.
pub proof fn lemma_ray_sees_fewer(more: u64, fewer: u64, s: int, t: int, dr: int, df: int)
    requires
        ray_sees(more, s, t, dr, df),
        forall|u: int| 0 <= u < 64 && bit(fewer, u) ==> bit(more, u),
    ensures
        ray_sees(fewer, s, t, dr, df),
{
    assert forall|u: int| in_dir(s, u, dr, df) && in_dir(u, t, dr, df) implies !bit(fewer, u) by {
        assert(!bit(more, u));
    }
}

/// A slider that reaches a square reaches it also when a square off its lines is filled or
/// vacated: what matters lies between the two, on a line through the slider.
pub proof fn lemma_ray_sees_off_line(occ: u64, other: u64, s: int, t: int, dr: int, df: int, x: int)
    requires
        is_direction(dr, df),
        ray_sees(other, s, t, dr, df),
        !in_dir(s, x, dr, df),
        forall|u: int| 0 <= u < 64 && u != x && bit(occ, u) ==> bit(other, u),
    ensures
        ray_sees(occ, s, t, dr, df),
{
    assert forall|u: int| in_dir(s, u, dr, df) && in_dir(u, t, dr, df) implies !bit(occ, u) by {
        assert(!bit(other, u));
    }
}

/// On an empty board a rook or bishop attacks every square of its lines.
pub proof fn lemma_lines(kind: Kind, s: int, t: int)
    requires
        0 <= t < 64,
    ensures
        kind == Kind::Rook ==> bit(slider_attack(kind, s, 0), t) == (in_dir(s, t, 1, 0) || in_dir(
            s,
            t,
            -1,
            0,
        ) || in_dir(s, t, 0, 1) || in_dir(s, t, 0, -1)),
        kind == Kind::Bishop ==> bit(slider_attack(kind, s, 0), t) == (in_dir(s, t, 1, 1)
            || in_dir(s, t, 1, -1) || in_dir(s, t, -1, 1) || in_dir(s, t, -1, -1)),
{
    lemma_squares(|u: int| slider_sees(kind, 0, s, u));
    assert forall|u: int| 0 <= u < 64 implies !bit(0, u) by {
        lemma_bit_ops(0, 0, u);
    }
}

/// The squares of the file and of the rank of `s`, file first.
pub open spec fn cross(s: int) -> Seq<int> {
    Seq::new(
        16,
        |j: int|
            if j < 8 {
                8 * j + file_of(s)
            } else {
                8 * rank_of(s) + (j - 8)
            },
    )
}

/// For each rank the two squares that lie on a diagonal of `s`, or fall off the board.
pub open spec fn saltire(s: int) -> Seq<int> {
    Seq::new(
        16,
        |j: int|
            if j % 2 == 0 {
                8 * (j / 2) + file_of(s) + (j / 2 - rank_of(s))
            } else {
                8 * (j / 2) + file_of(s) - (j / 2 - rank_of(s))
            },
    )
}

/// A square on a ray of a rook is on its file or rank, one on a ray of a bishop on one of
/// its diagonals, and in each direction the first square of the ray is relevant if the
/// second is on the board.
proof fn lemma_in_dir_lines(s: int, t: int, dr: int, df: int)
    requires
        is_direction(dr, df),
    ensures
        in_dir(s, t, dr, df) && (dr == 0 || df == 0) ==> rank_of(t) == rank_of(s) || file_of(t)
            == file_of(s),
        in_dir(s, t, dr, df) && dr != 0 && df != 0 ==> file_of(t) - file_of(s) == rank_of(t)
            - rank_of(s) || file_of(t) - file_of(s) == rank_of(s) - rank_of(t),
        0 <= s < 64 && on_board(rank_of(s) + dr, file_of(s) + df) ==> in_dir(
            s,
            8 * (rank_of(s) + dr) + file_of(s) + df,
            dr,
            df,
        ),
{
    reveal(along);
}

/// The relevant mask of a rook or bishop has at least one square and at most sixteen.
pub proof fn lemma_mask_size(kind: Kind, s: int)
    requires
        kind == Kind::Rook || kind == Kind::Bishop,
        0 <= s < 64,
    ensures
        1 <= popcount(relevant_mask(kind, s)) <= 16,
{
    let mask = relevant_mask(kind, s);
    lemma_squares(|t: int| relevant(kind, s, t));
    let rank = rank_of(s);
    let file = file_of(s);
    let dr = if rank <= 5 {
        1int
    } else {
        -1int
    };
    let df = if file <= 5 {
        1int
    } else {
        -1int
    };
    let near = if kind == Kind::Rook {
        8 * (rank + dr) + file
    } else {
        8 * (rank + dr) + file + df
    };
    if kind == Kind::Rook {
        lemma_in_dir_lines(s, near, dr, 0);
        assert(relevant_dir(s, near, dr, 0));
    } else {
        lemma_in_dir_lines(s, near, dr, df);
        assert(relevant_dir(s, near, dr, df));
    }
    assert(relevant(kind, s, near));
    assert(bit(mask, near));
    lemma_bit_nonzero(mask);
    lemma_popcount_bounds(mask);
    let list = if kind == Kind::Rook {
        cross(s)
    } else {
        saltire(s)
    };
    assert forall|t: int| 0 <= t < 64 && bit(mask, t) implies list.contains(t) by {
        assert(relevant(kind, s, t));
        lemma_in_dir_lines(s, t, 1, 0);
        lemma_in_dir_lines(s, t, -1, 0);
        lemma_in_dir_lines(s, t, 0, 1);
        lemma_in_dir_lines(s, t, 0, -1);
        lemma_in_dir_lines(s, t, 1, 1);
        lemma_in_dir_lines(s, t, 1, -1);
        lemma_in_dir_lines(s, t, -1, 1);
        lemma_in_dir_lines(s, t, -1, -1);
        let rt = rank_of(t);
        let ft = file_of(t);
        if kind == Kind::Rook {
            if ft == file {
                assert(list[rt] == t);
            } else {
                assert(list[8 + ft] == t);
            }
        } else {
            if ft - file == rt - rank {
                assert(list[2 * rt] == t);
            } else {
                assert(list[2 * rt + 1] == t);
            }
        }
    }
    lemma_popcount_listed(mask, list);
}

/// The squares of the ray from `square` in `direction` without the last one before the edge.
pub fn inner_ray(square: Square, direction: Direction) -> (r: Bitboard)
    ensures
        r.0 == relevant_ray(
            square.index(),
            direction.spec_rank_step(),
            direction.spec_file_step(),
        ),
{
    let dr = direction.rank_step();
    let df = direction.file_step();
    let full = ray(square, direction);
    let rank_part: u64 = if dr == 1 {
        CLEAR_RANK[7]
    } else if dr == -1 {
        CLEAR_RANK[0]
    } else {
        0xffff_ffff_ffff_ffff
    };
    let file_part: u64 = if df == 1 {
        CLEAR_FILE[7]
    } else if df == -1 {
        CLEAR_FILE[0]
    } else {
        0xffff_ffff_ffff_ffff
    };
    let out = full.0 & rank_part & file_part;
    proof {
        let s = square.index();
        let p = |t: int| relevant_dir(s, t, dr as int, df as int);
        lemma_squares(|t: int| in_dir(s, t, dr as int, df as int));
        assert forall|t: int| 0 <= t < 64 implies bit(out, t) == p(t) by {
            lemma_bit_ops(full.0 & rank_part, file_part, t);
            lemma_bit_ops(full.0, rank_part, t);
            lemma_rank_masks(7, t);
            lemma_rank_masks(0, t);
            lemma_file_masks(7, t);
            lemma_file_masks(0, t);
            lemma_bit_ops(0, 0, t);
            assert(0xffff_ffff_ffff_ffffu64 == !0u64) by (bit_vector);
        }
        lemma_is_squares(out, p);
    }
    Bitboard(out)
}

} // verus!
