//! What holds of every position that is reached by legal moves from a sound one.
use crate::bitboard::{
    bit, lemma_bit_nonzero, lemma_bit_one, lemma_bit_ops, lemma_bit_test, lemma_bits_equal,
    lemma_lowest, lowest, one,
};
use crate::board::{
    captured_square, castling_beside, castling_corner, castling_side, lemma_moved_bb,
    lemma_moved_rights, lemma_moved_turn, lemma_occupied, lemma_with_bb, Board,
};
use crate::geometry::slider_attack;
use crate::legality::{is_legal, legal_moves};
use crate::move_gen::{
    back, back_left, back_right, can_castle, castle_move, castle_moves, double_pushes, forward,
    from_each, king_moves_of, king_step_moves, last_rank, lemma_forward, line_moves, moves_from,
    moves_to, pawn_double_moves, pawn_left_moves, pawn_moves, pawn_right_moves, pawn_single_moves,
    pawn_template, piece_moves, piece_template, pseudo_moves, quiet_then_captures, single_pushes,
    Capture, Move,
};
use crate::patterns::{
    king_pattern, knight_pattern, lemma_pawn_patterns, pawn_left_pattern, pawn_right_pattern,
};
use crate::shapes::{all_moves, lemma_all_join, lemma_each_square_all, lemma_moves_to_all};
use crate::utils::{lemma_rank_masks, rank_of, Color, Kind, Square, CLEAR_RANK, MASK_RANK};
use vstd::prelude::*;

verus! {

/// Whether `m` is a move that the side to move can make on `board` as far as the squares
/// go: its piece stands on the origin, the destination holds nothing of its own, what it
/// takes is there to be taken, and the special moves meet their own conditions.
pub open spec fn sound_move(board: Board, m: Move) -> bool {
    let color = board.to_move;
    let enemy = color.spec_opponent();
    let from = m.from.index();
    let to = m.to.index();
    let occupied = board.occupied();
    &&& m.piece_color == color
    &&& bit(board.bb(color, m.piece_kind), from)
    &&& from != to
    &&& (m.promoting_piece.is_none() || m.promoting_piece == Some(Kind::Queen)
        || m.promoting_piece == Some(Kind::Rook) || m.promoting_piece == Some(Kind::Bishop)
        || m.promoting_piece == Some(Kind::Knight))
    &&& m.piece_kind == Kind::King ==> m.promoting_piece.is_none()
    &&& if m.en_passant {
        m.captured_piece == Some(Kind::Pawn) && !bit(occupied, to) && !m.casteling
    } else {
        match m.captured_piece {
            None => !bit(occupied, to),
            Some(kind) => bit(board.bb(enemy, kind), to),
        }
    }
    &&& m.double_push ==> {
        let middle = (to + from) / 2;
        &&& !m.casteling
        &&& middle != to
        &&& !bit(occupied, middle)
        &&& (rank_of(middle) == 2 || rank_of(middle) == 5)
    }
    &&& m.casteling ==> {
        &&& m.piece_kind == Kind::King
        &&& castling_side(m.to) == Some(color)
        &&& m.captured_piece.is_none()
        &&& occupied & castling_beside(m.to) == 0
        &&& castling_beside(m.to) != one(to)
    }
}

/// A sound move that takes no king leaves a sound position sound.
pub proof fn lemma_keeps_valid(board: Board, m: Move)
    requires
        board.valid(),
        sound_move(board, m),
        m.captured_piece != Some(Kind::King),
    ensures
        board.spec_do_move(m).valid(),
{
    lemma_keeps_tagged(board, m);
    lemma_keeps_disjoint(board, m);
    lemma_keeps_kings(board, m);
    lemma_keeps_passant(board, m);
    lemma_keeps_rights(board, m);
}

/// A move changes no tag.
proof fn lemma_keeps_tagged(board: Board, m: Move)
    requires
        board.tagged(),
    ensures
        board.spec_do_move(m).tagged(),
{
    let enemy = m.piece_color.spec_opponent();
    let from = one(m.from.index());
    let to = one(m.to.index());
    lemma_with_bb(board, m.piece_color, m.piece_kind, board.bb(m.piece_color, m.piece_kind) & !from);
    let b1 = board.lifted(m);
    lemma_with_bb(b1, m.piece_color, m.piece_kind, b1.bb(m.piece_color, m.piece_kind) | to);
    let b2 = b1.landed(m);
    if m.captured_piece.is_some() {
        let k = m.captured_piece.unwrap();
        lemma_with_bb(b2, enemy, k, b2.bb(enemy, k) & !captured_square(m));
    }
    let b3 = b2.taken(m);
    if m.promoting_piece.is_some() {
        let k = m.promoting_piece.unwrap();
        lemma_with_bb(b3, m.piece_color, k, b3.bb(m.piece_color, k) | to);
    }
    let b4 = b3.promoted(m);
    let b5 = b4.passed(m);
    if m.casteling && castling_side(m.to).is_some() {
        let side = castling_side(m.to).unwrap();
        lemma_with_bb(
            b5,
            side,
            Kind::Rook,
            (b5.bb(side, Kind::Rook) & !castling_corner(m.to)) | castling_beside(m.to),
        );
    }
}

/// Whether the pieces of `color` and `kind` hold square `u` after `m`, told square by
/// square.
pub open spec fn holds_after(board: Board, m: Move, color: Color, kind: Kind, u: int) -> bool {
    let from = m.from.index();
    let to = m.to.index();
    let mover = color == m.piece_color && kind == m.piece_kind;
    let held = bit(board.bb(color, kind), u);
    let lifted = held && !(mover && u == from);
    let landed = lifted || (mover && m.promoting_piece.is_none() && u == to);
    let taken = landed && !(m.captured_piece == Some(kind) && color
        == m.piece_color.spec_opponent() && bit(captured_square(m), u));
    let promoted = taken || (m.promoting_piece == Some(kind) && color == m.piece_color && u == to);
    if m.casteling && kind == Kind::Rook && castling_side(m.to) == Some(color) {
        (promoted && !bit(castling_corner(m.to), u)) || bit(castling_beside(m.to), u)
    } else {
        promoted
    }
}

/// Which squares the pieces of one kind and colour hold after a move.
pub proof fn lemma_moved_bits(board: Board, m: Move, color: Color, kind: Kind, u: int)
    requires
        0 <= u < 64,
    ensures
        bit(board.spec_do_move(m).bb(color, kind), u) == holds_after(board, m, color, kind, u),
{
    let from = m.from.index();
    let to = m.to.index();
    m.from.lemma_index();
    m.to.lemma_index();
    lemma_moved_bb(board, m, color, kind);
    let mover = color == m.piece_color && kind == m.piece_kind;
    let v0 = board.bb(color, kind);
    let v1 = if mover {
        v0 & !one(from)
    } else {
        v0
    };
    let v2 = if mover && m.promoting_piece.is_none() {
        v1 | one(to)
    } else {
        v1
    };
    let v3 = if m.captured_piece == Some(kind) && color == m.piece_color.spec_opponent() {
        v2 & !captured_square(m)
    } else {
        v2
    };
    let v4 = if m.promoting_piece == Some(kind) && color == m.piece_color {
        v3 | one(to)
    } else {
        v3
    };
    lemma_bit_ops(v0, !one(from), u);
    lemma_bit_ops(one(from), one(from), u);
    lemma_bit_one(from, u);
    lemma_bit_ops(v1, one(to), u);
    lemma_bit_one(to, u);
    lemma_bit_ops(v2, !captured_square(m), u);
    lemma_bit_ops(captured_square(m), captured_square(m), u);
    lemma_bit_ops(v3, one(to), u);
    lemma_bit_ops(v4, !castling_corner(m.to), u);
    lemma_bit_ops(castling_corner(m.to), castling_corner(m.to), u);
    lemma_bit_ops(v4 & !castling_corner(m.to), castling_beside(m.to), u);
}

/// No piece stands on an empty square.
proof fn lemma_empty(board: Board, u: int)
    requires
        0 <= u < 64,
        !bit(board.occupied(), u),
    ensures
        forall|color: Color, kind: Kind| !#[trigger] bit(board.bb(color, kind), u),
{
    lemma_occupied(board, u);
}

/// After a sound move no square is held twice.
proof fn lemma_keeps_disjoint(board: Board, m: Move)
    requires
        board.valid(),
        sound_move(board, m),
    ensures
        board.spec_do_move(m).disjoint(),
{
    let after = board.spec_do_move(m);
    let from = m.from.index();
    let to = m.to.index();
    let enemy = m.piece_color.spec_opponent();
    m.from.lemma_index();
    m.to.lemma_index();
    let beside = castling_beside(m.to);
    assert forall|c1: Color, k1: Kind, c2: Color, k2: Kind, u: int|
        0 <= u < 64 && (c1 != c2 || k1 != k2) implies !(#[trigger] bit(after.bb(c1, k1), u)
        && #[trigger] bit(after.bb(c2, k2), u)) by {
        lemma_moved_bits(board, m, c1, k1, u);
        lemma_moved_bits(board, m, c2, k2, u);
        lemma_bit_one(to, u);
        assert(!(bit(board.bb(c1, k1), u) && bit(board.bb(c2, k2), u)));
        assert(!(bit(board.bb(c1, k1), u) && bit(board.bb(m.piece_color, m.piece_kind), u)) || (c1
            == m.piece_color && k1 == m.piece_kind));
        assert(!(bit(board.bb(c2, k2), u) && bit(board.bb(m.piece_color, m.piece_kind), u)) || (c2
            == m.piece_color && k2 == m.piece_kind));
        if u == to {
            if m.en_passant || m.captured_piece.is_none() {
                lemma_empty(board, to);
            } else {
                let taken = m.captured_piece.unwrap();
                assert(bit(board.bb(enemy, taken), to));
                assert(!(bit(board.bb(c1, k1), u) && bit(board.bb(enemy, taken), u)) || (c1 == enemy
                    && k1 == taken));
                assert(!(bit(board.bb(c2, k2), u) && bit(board.bb(enemy, taken), u)) || (c2 == enemy
                    && k2 == taken));
            }
            if m.casteling {
                lemma_bit_one(to, u);
                lemma_beside(m.to, u);
            }
        } else if m.casteling && bit(beside, u) {
            lemma_bit_ops(board.occupied(), beside, u);
            lemma_bit_nonzero(board.occupied() & beside);
            lemma_empty(board, u);
        }
    }
}

/// The square beside the castling king is a single square, and not the king's destination
/// if the two words differ.
proof fn lemma_beside(to: Square, u: int)
    requires
        0 <= u < 64,
    ensures
        castling_beside(to) != one(to.index()) && u == to.index() ==> !bit(castling_beside(to), u),
{
    to.lemma_index();
    lemma_bit_one(Square::F1.index(), u);
    lemma_bit_one(Square::D1.index(), u);
    lemma_bit_one(Square::F8.index(), u);
    lemma_bit_one(Square::D8.index(), u);
}

/// After a sound move that takes no king each side has one king.
proof fn lemma_keeps_kings(board: Board, m: Move)
    requires
        board.valid(),
        sound_move(board, m),
        m.captured_piece != Some(Kind::King),
    ensures
        board.spec_do_move(m).one_king(Color::White),
        board.spec_do_move(m).one_king(Color::Black),
{
    lemma_keeps_king(board, m, Color::White);
    lemma_keeps_king(board, m, Color::Black);
}

/// After a sound move that takes no king the side `color` has one king.
proof fn lemma_keeps_king(board: Board, m: Move, color: Color)
    requires
        board.valid(),
        sound_move(board, m),
        m.captured_piece != Some(Kind::King),
    ensures
        board.spec_do_move(m).one_king(color),
{
    let after = board.spec_do_move(m);
    let from = m.from.index();
    let to = m.to.index();
    m.from.lemma_index();
    m.to.lemma_index();
    let i = choose|i: int| 0 <= i < 64 && board.bb(color, Kind::King) == #[trigger] one(i);
    let j = if color == m.piece_color && m.piece_kind == Kind::King {
        to
    } else {
        i
    };
    lemma_bit_one(i, from);
    assert forall|u: int| 0 <= u < 64 implies bit(after.bb(color, Kind::King), u) == bit(
        one(j),
        u,
    ) by {
        lemma_moved_bits(board, m, color, Kind::King, u);
        lemma_bit_one(i, u);
        lemma_bit_one(j, u);
    }
    lemma_bits_equal(after.bb(color, Kind::King), one(j));
    assert(after.bb(color, Kind::King) == one(j));
}

/// After a sound move the en-passant square, if any, is an empty square of the third or
/// sixth rank.
proof fn lemma_keeps_passant(board: Board, m: Move)
    requires
        board.valid(),
        sound_move(board, m),
    ensures
        board.spec_do_move(m).passant_sound(),
{
    let after = board.spec_do_move(m);
    lemma_moved_turn(board, m);
    if m.double_push {
        let from = m.from.index();
        let to = m.to.index();
        m.from.lemma_index();
        m.to.lemma_index();
        let middle = (to + from) / 2;
        Square::lemma_at(middle);
        assert(after.en_passant == Some(Square::at(middle)));
        lemma_empty(board, middle);
        lemma_occupied(after, middle);
        assert forall|color: Color, kind: Kind| !#[trigger] bit(after.bb(color, kind), middle) by {
            lemma_moved_bits(board, m, color, kind, middle);
            assert(!bit(board.bb(color, kind), middle));
        }
    } else {
        assert(after.en_passant.is_none());
    }
}

/// After a sound move that takes no king, whoever may castle has the king at home.
proof fn lemma_keeps_rights(board: Board, m: Move)
    requires
        board.valid(),
        sound_move(board, m),
        m.captured_piece != Some(Kind::King),
    ensures
        board.spec_do_move(m).rights_sound(),
{
    let after = board.spec_do_move(m);
    lemma_moved_rights(board, m);
    lemma_moved_bits(board, m, Color::White, Kind::King, Square::E1.index());
    lemma_moved_bits(board, m, Color::Black, Kind::King, Square::E8.index());
}

/// `sound_move`, as a function of the move.
pub open spec fn is_sound(board: Board) -> spec_fn(Move) -> bool {
    |m: Move| sound_move(board, m)
}

/// On a board where no square is held twice, the kind found on a square is the kind of the
/// piece that holds it.
pub proof fn lemma_kind_on(board: Board, t: int)
    requires
        board.disjoint(),
        0 <= t < 64,
    ensures
        board.kind_on(t).is_none() == !bit(board.occupied(), t),
        forall|color: Color, kind: Kind| #[trigger]
            bit(board.bb(color, kind), t) ==> board.kind_on(t) == Some(kind),
{
    lemma_occupied(board, t);
    assert forall|color: Color, kind: Kind| #[trigger] bit(board.bb(color, kind), t) implies board.kind_on(
        t,
    ) == Some(kind) by {
        lemma_kind_on_one(board, t, color, kind);
    }
    if board.kind_on(t).is_none() {
        assert forall|color: Color, kind: Kind| !#[trigger] bit(board.bb(color, kind), t) by {
            if bit(board.bb(color, kind), t) {
                lemma_kind_on_one(board, t, color, kind);
            }
        }
    } else {
        if bit(board.bb(Color::White, Kind::Pawn), t) {
            assert(bit(board.bb(Color::White, Kind::Pawn), t));
        } else if bit(board.bb(Color::White, Kind::Knight), t) {
            assert(bit(board.bb(Color::White, Kind::Knight), t));
        } else if bit(board.bb(Color::White, Kind::Bishop), t) {
            assert(bit(board.bb(Color::White, Kind::Bishop), t));
        } else if bit(board.bb(Color::White, Kind::Rook), t) {
            assert(bit(board.bb(Color::White, Kind::Rook), t));
        } else if bit(board.bb(Color::White, Kind::Queen), t) {
            assert(bit(board.bb(Color::White, Kind::Queen), t));
        } else if bit(board.bb(Color::White, Kind::King), t) {
            assert(bit(board.bb(Color::White, Kind::King), t));
        } else if bit(board.bb(Color::Black, Kind::Pawn), t) {
            assert(bit(board.bb(Color::Black, Kind::Pawn), t));
        } else if bit(board.bb(Color::Black, Kind::Knight), t) {
            assert(bit(board.bb(Color::Black, Kind::Knight), t));
        } else if bit(board.bb(Color::Black, Kind::Bishop), t) {
            assert(bit(board.bb(Color::Black, Kind::Bishop), t));
        } else if bit(board.bb(Color::Black, Kind::Rook), t) {
            assert(bit(board.bb(Color::Black, Kind::Rook), t));
        } else if bit(board.bb(Color::Black, Kind::Queen), t) {
            assert(bit(board.bb(Color::Black, Kind::Queen), t));
        } else if bit(board.bb(Color::Black, Kind::King), t) {
            assert(bit(board.bb(Color::Black, Kind::King), t));
        }
    }
}

/// Where a piece holds a square alone, its kind is the kind found there.
proof fn lemma_kind_on_one(board: Board, t: int, color: Color, kind: Kind)
    requires
        board.disjoint(),
        0 <= t < 64,
        bit(board.bb(color, kind), t),
    ensures
        board.kind_on(t) == Some(kind),
{
    assert forall|c: Color, k: Kind| (c != color || k != kind) implies !#[trigger] bit(
        board.bb(c, k),
        t,
    ) by {
        assert(!(bit(board.bb(c, k), t) && bit(board.bb(color, kind), t)));
    }
    assert(!bit(board.bb(Color::White, Kind::Pawn), t) || (color == Color::White && kind
        == Kind::Pawn));
    assert(!bit(board.bb(Color::White, Kind::Knight), t) || (color == Color::White && kind
        == Kind::Knight));
    assert(!bit(board.bb(Color::White, Kind::Bishop), t) || (color == Color::White && kind
        == Kind::Bishop));
    assert(!bit(board.bb(Color::White, Kind::Rook), t) || (color == Color::White && kind
        == Kind::Rook));
    assert(!bit(board.bb(Color::White, Kind::Queen), t) || (color == Color::White && kind
        == Kind::Queen));
    assert(!bit(board.bb(Color::White, Kind::King), t) || (color == Color::White && kind
        == Kind::King));
    assert(!bit(board.bb(Color::Black, Kind::Pawn), t) || (color == Color::Black && kind
        == Kind::Pawn));
    assert(!bit(board.bb(Color::Black, Kind::Knight), t) || (color == Color::Black && kind
        == Kind::Knight));
    assert(!bit(board.bb(Color::Black, Kind::Bishop), t) || (color == Color::Black && kind
        == Kind::Bishop));
    assert(!bit(board.bb(Color::Black, Kind::Rook), t) || (color == Color::Black && kind
        == Kind::Rook));
    assert(!bit(board.bb(Color::Black, Kind::Queen), t) || (color == Color::Black && kind
        == Kind::Queen));
}

/// What stands on a square that the other side occupies is there to be taken, and nothing
/// is taken from an empty square.
proof fn lemma_target(board: Board, t: int)
    requires
        board.disjoint(),
        0 <= t < 64,
        !bit(board.occupied_by(board.to_move), t),
    ensures
        match board.kind_on(t) {
            None => !bit(board.occupied(), t),
            Some(kind) => bit(board.bb(board.to_move.spec_opponent(), kind), t),
        },
{
    lemma_kind_on(board, t);
    lemma_occupied(board, t);
    if board.kind_on(t).is_some() {
        let (color, kind) = choose|color: Color, kind: Kind| #[trigger]
            bit(board.bb(color, kind), t);
        assert(board.kind_on(t) == Some(kind));
        assert(color != board.to_move);
    }
}

/// A piece of the side to move and a square that this side does not occupy are two squares.
proof fn lemma_apart(board: Board, kind: Kind, p: int, t: int)
    requires
        0 <= p < 64,
        0 <= t < 64,
        bit(board.bb(board.to_move, kind), p),
        !bit(board.occupied_by(board.to_move), t),
    ensures
        p != t,
{
    lemma_occupied(board, p);
}

/// The single and double pushes of the side to move are sound.
proof fn lemma_pushes_sound(board: Board)
    requires
        board.valid(),
    ensures
        all_moves(pawn_single_moves(board, board.to_move), is_sound(board)),
        all_moves(pawn_double_moves(board, board.to_move), is_sound(board)),
{
    let color = board.to_move;
    let pred = is_sound(board);
    let pawns = board.bb(color, Kind::Pawn);
    let free = !board.occupied();
    let pushes = single_pushes(board, color);
    let doubles = double_pushes(board, color);
    let quiet = pawn_template(color, back(color), false, false, Capture::Nothing);
    let promo = pawn_template(color, back(color), true, false, Capture::Nothing);
    let double = pawn_template(color, (2 * back(color)) as i8, false, true, Capture::Nothing);
    let short = pushes & CLEAR_RANK[last_rank(color)];
    let last = pushes & MASK_RANK[last_rank(color)];
    assert forall|t: int| 0 <= t < 64 && bit(pushes, t) implies 0 <= t + back(color) < 64 && bit(
        pawns,
        t + back(color),
    ) && !bit(board.occupied(), t) by {
        lemma_bit_ops(forward(color, pawns), free, t);
        lemma_bit_ops(board.occupied(), board.occupied(), t);
        lemma_forward(color, pawns, t);
    }
    assert forall|t: int| 0 <= t < 64 && bit(short, t) implies all_moves(
        #[trigger] quiet.moves_at(board, t),
        pred,
    ) by {
        lemma_bit_ops(pushes, CLEAR_RANK[last_rank(color)], t);
        assert(bit(pushes, t));
        Square::lemma_at(t);
        Square::lemma_at(t + back(color));
        let moves = quiet.moves_at(board, t);
        assert forall|i: int| 0 <= i < moves.len() implies pred(#[trigger] moves[i]) by {
            assert(sound_move(board, moves[i]));
        }
    }
    lemma_moves_to_all(board, quiet, short, pred);
    assert forall|t: int| 0 <= t < 64 && bit(last, t) implies all_moves(
        #[trigger] promo.moves_at(board, t),
        pred,
    ) by {
        lemma_bit_ops(pushes, MASK_RANK[last_rank(color)], t);
        assert(bit(pushes, t));
        Square::lemma_at(t);
        Square::lemma_at(t + back(color));
        let moves = promo.moves_at(board, t);
        assert forall|i: int| 0 <= i < moves.len() implies pred(#[trigger] moves[i]) by {
            assert(sound_move(board, moves[i]));
        }
    }
    lemma_moves_to_all(board, promo, last, pred);
    lemma_all_join(moves_to(board, quiet, short), moves_to(board, promo, last), pred);
    assert forall|t: int| 0 <= t < 64 && bit(doubles, t) implies all_moves(
        #[trigger] double.moves_at(board, t),
        pred,
    ) by {
        let rank = if color == Color::White {
            3int
        } else {
            4int
        };
        lemma_bit_ops(forward(color, pushes) & free, MASK_RANK[rank], t);
        lemma_bit_ops(forward(color, pushes), free, t);
        lemma_bit_ops(board.occupied(), board.occupied(), t);
        lemma_forward(color, pushes, t);
        lemma_rank_masks(rank, t);
        let middle = t + back(color);
        assert(bit(pushes, middle));
        Square::lemma_at(t);
        Square::lemma_at(t + 2 * back(color));
        let moves = double.moves_at(board, t);
        assert forall|i: int| 0 <= i < moves.len() implies pred(#[trigger] moves[i]) by {
            let m = moves[i];
            assert(m.to.index() == t);
            assert(m.from.index() == t + 2 * back(color));
            assert((m.to.index() + m.from.index()) / 2 == middle);
            assert(sound_move(board, m));
        }
    }
    lemma_moves_to_all(board, double, doubles, pred);
}

/// A square that the other side occupies is not occupied by the side to move.
pub proof fn lemma_sides_apart(board: Board, t: int)
    requires
        board.disjoint(),
        0 <= t < 64,
        bit(board.occupied_by(board.to_move.spec_opponent()), t),
    ensures
        !bit(board.occupied_by(board.to_move), t),
        bit(board.occupied(), t),
{
    lemma_occupied(board, t);
    let enemy = board.to_move.spec_opponent();
    let theirs = choose|kind: Kind| #[trigger] bit(board.bb(enemy, kind), t);
    if bit(board.occupied_by(board.to_move), t) {
        let ours = choose|kind: Kind| #[trigger] bit(board.bb(board.to_move, kind), t);
        assert(!(bit(board.bb(enemy, theirs), t) && bit(board.bb(board.to_move, ours), t)));
    }
    assert(bit(board.bb(enemy, theirs), t));
}

/// The pawn captures of the side to move to one side are sound.
proof fn lemma_captures_sound(board: Board, left: bool)
    requires
        board.valid(),
    ensures
        all_moves(
            if left {
                pawn_left_moves(board, board.to_move)
            } else {
                pawn_right_moves(board, board.to_move)
            },
            is_sound(board),
        ),
{
    let color = board.to_move;
    let enemy = color.spec_opponent();
    let pred = is_sound(board);
    let pawns = board.bb(color, Kind::Pawn);
    let pattern = if left {
        pawn_left_pattern(color, pawns)
    } else {
        pawn_right_pattern(color, pawns)
    };
    let offset = if left {
        back_left(color)
    } else {
        back_right(color)
    };
    let hits = pattern & board.occupied_by(enemy);
    let short = hits & CLEAR_RANK[last_rank(color)];
    let last = hits & MASK_RANK[last_rank(color)];
    let passing = pattern & board.ep_mask();
    let regular = pawn_template(color, offset, false, false, Capture::Target);
    let promo = pawn_template(color, offset, true, false, Capture::Target);
    let in_passing = pawn_template(color, offset, false, false, Capture::Passing);
    assert forall|t: int| 0 <= t < 64 && bit(pattern, t) implies 0 <= t + offset < 64 && bit(
        pawns,
        t + offset,
    ) by {
        lemma_pawn_patterns(color, pawns, t);
    }
    assert forall|t: int| 0 <= t < 64 && bit(hits, t) implies all_moves(
        #[trigger] regular.moves_at(board, t),
        pred,
    ) by {
        lemma_bit_ops(pattern, board.occupied_by(enemy), t);
        assert(bit(pattern, t));
        lemma_sides_apart(board, t);
        lemma_target(board, t);
        Square::lemma_at(t);
        Square::lemma_at(t + offset);
        let moves = regular.moves_at(board, t);
        assert forall|i: int| 0 <= i < moves.len() implies pred(#[trigger] moves[i]) by {
            assert(sound_move(board, moves[i]));
        }
    }
    assert forall|t: int| 0 <= t < 64 && bit(hits, t) implies all_moves(
        #[trigger] promo.moves_at(board, t),
        pred,
    ) by {
        lemma_bit_ops(pattern, board.occupied_by(enemy), t);
        assert(bit(pattern, t));
        lemma_sides_apart(board, t);
        lemma_target(board, t);
        Square::lemma_at(t);
        Square::lemma_at(t + offset);
        let promos = promo.moves_at(board, t);
        assert forall|i: int| 0 <= i < promos.len() implies pred(#[trigger] promos[i]) by {
            assert(sound_move(board, promos[i]));
        }
    }
    assert forall|t: int| 0 <= t < 64 && bit(short, t) implies all_moves(
        #[trigger] regular.moves_at(board, t),
        pred,
    ) by {
        lemma_bit_ops(hits, CLEAR_RANK[last_rank(color)], t);
        assert(bit(hits, t));
    }
    lemma_moves_to_all(board, regular, short, pred);
    assert forall|t: int| 0 <= t < 64 && bit(last, t) implies all_moves(
        #[trigger] promo.moves_at(board, t),
        pred,
    ) by {
        lemma_bit_ops(hits, MASK_RANK[last_rank(color)], t);
        assert(bit(hits, t));
    }
    lemma_moves_to_all(board, promo, last, pred);
    assert forall|t: int| 0 <= t < 64 && bit(passing, t) implies all_moves(
        #[trigger] in_passing.moves_at(board, t),
        pred,
    ) by {
        lemma_bit_ops(pattern, board.ep_mask(), t);
        assert(bit(pattern, t));
        lemma_bit_ops(0, 0, t);
        let square = board.en_passant.unwrap();
        square.lemma_index();
        lemma_bit_one(square.index(), t);
        Square::lemma_at(t);
        Square::lemma_at(t + offset);
        let moves = in_passing.moves_at(board, t);
        assert forall|i: int| 0 <= i < moves.len() implies pred(#[trigger] moves[i]) by {
            assert(sound_move(board, moves[i]));
        }
    }
    lemma_moves_to_all(board, in_passing, passing, pred);
    lemma_all_join(moves_to(board, regular, short), moves_to(board, promo, last), pred);
    lemma_all_join(
        moves_to(board, regular, short) + moves_to(board, promo, last),
        moves_to(board, in_passing, passing),
        pred,
    );
}

/// The steps or jumps of a piece of the side to move are sound.
proof fn lemma_steps_sound(board: Board, kind: Kind, p: int, reach: u64)
    requires
        board.valid(),
        0 <= p < 64,
        bit(board.bb(board.to_move, kind), p),
    ensures
        all_moves(quiet_then_captures(board, kind, board.to_move, p, reach), is_sound(board)),
{
    let color = board.to_move;
    let enemy = color.spec_opponent();
    let pred = is_sound(board);
    let quiet = piece_template(kind, color, p, Capture::Nothing);
    let capture = piece_template(kind, color, p, Capture::Target);
    let free = reach & !board.occupied();
    let hits = reach & board.occupied_by(enemy);
    Square::lemma_at(p);
    lemma_occupied(board, p);
    assert forall|t: int| 0 <= t < 64 && bit(free, t) implies all_moves(
        #[trigger] quiet.moves_at(board, t),
        pred,
    ) by {
        lemma_bit_ops(reach, !board.occupied(), t);
        lemma_bit_ops(board.occupied(), board.occupied(), t);
        Square::lemma_at(t);
        let moves = quiet.moves_at(board, t);
        assert forall|i: int| 0 <= i < moves.len() implies pred(#[trigger] moves[i]) by {
            assert(sound_move(board, moves[i]));
        }
    }
    lemma_moves_to_all(board, quiet, free, pred);
    assert forall|t: int| 0 <= t < 64 && bit(hits, t) implies all_moves(
        #[trigger] capture.moves_at(board, t),
        pred,
    ) by {
        lemma_bit_ops(reach, board.occupied_by(enemy), t);
        lemma_sides_apart(board, t);
        lemma_target(board, t);
        lemma_apart(board, kind, p, t);
        Square::lemma_at(t);
        let moves = capture.moves_at(board, t);
        assert forall|i: int| 0 <= i < moves.len() implies pred(#[trigger] moves[i]) by {
            assert(sound_move(board, moves[i]));
        }
    }
    lemma_moves_to_all(board, capture, hits, pred);
    lemma_all_join(moves_to(board, quiet, free), moves_to(board, capture, hits), pred);
}

/// The moves of a slider of the side to move along one kind of line are sound.
proof fn lemma_lines_sound(board: Board, kind: Kind, p: int, line: Kind)
    requires
        board.valid(),
        0 <= p < 64,
        kind != Kind::King,
        bit(board.bb(board.to_move, kind), p),
    ensures
        all_moves(line_moves(board, kind, board.to_move, p, line), is_sound(board)),
{
    let color = board.to_move;
    let pred = is_sound(board);
    let template = piece_template(kind, color, p, Capture::Target);
    let targets = slider_attack(line, p, board.occupied()) & !board.occupied_by(color);
    Square::lemma_at(p);
    assert forall|t: int| 0 <= t < 64 && bit(targets, t) implies all_moves(
        #[trigger] template.moves_at(board, t),
        pred,
    ) by {
        lemma_bit_ops(slider_attack(line, p, board.occupied()), !board.occupied_by(color), t);
        lemma_bit_ops(board.occupied_by(color), board.occupied_by(color), t);
        lemma_target(board, t);
        lemma_apart(board, kind, p, t);
        Square::lemma_at(t);
        let moves = template.moves_at(board, t);
        assert forall|i: int| 0 <= i < moves.len() implies pred(#[trigger] moves[i]) by {
            assert(sound_move(board, moves[i]));
        }
    }
    lemma_moves_to_all(board, template, targets, pred);
}

/// The moves of the knights, bishops, rooks or queens of the side to move are sound.
proof fn lemma_pieces_sound(board: Board, kind: Kind)
    requires
        board.valid(),
    ensures
        all_moves(piece_moves(board, kind, board.to_move), is_sound(board)),
{
    let color = board.to_move;
    let pred = is_sound(board);
    let f = from_each(board, kind, color);
    assert forall|p: int| 0 <= p < 64 && bit(board.bb(color, kind), p) implies all_moves(
        #[trigger] f(p),
        pred,
    ) by {
        assert(f(p) == moves_from(board, kind, color, p));
        match kind {
            Kind::Knight => {
                lemma_steps_sound(board, kind, p, knight_pattern(one(p)));
            },
            Kind::Bishop => {
                lemma_lines_sound(board, kind, p, Kind::Bishop);
            },
            Kind::Rook => {
                lemma_lines_sound(board, kind, p, Kind::Rook);
            },
            Kind::Queen => {
                lemma_lines_sound(board, kind, p, Kind::Rook);
                lemma_lines_sound(board, kind, p, Kind::Bishop);
                lemma_all_join(
                    line_moves(board, kind, color, p, Kind::Rook),
                    line_moves(board, kind, color, p, Kind::Bishop),
                    pred,
                );
            },
            _ => {},
        }
    }
    lemma_each_square_all(board.bb(color, kind), f, pred);
}

/// A pseudo-legal castling move of the side to move is sound.
proof fn lemma_castle_sound(board: Board, kingside: bool)
    requires
        board.valid(),
    ensures
        all_moves(castle_moves(board, board.to_move, kingside), is_sound(board)),
{
    let color = board.to_move;
    let pred = is_sound(board);
    let moves = castle_moves(board, color, kingside);
    if can_castle(board, color, kingside) {
        let m = castle_move(color, kingside);
        let to = m.to.index();
        let beside = if kingside {
            to - 1
        } else {
            to + 1
        };
        lemma_kind_on(board, to);
        lemma_kind_on(board, beside);
        lemma_bit_test(board.occupied(), beside);
        lemma_bit_one(beside, beside);
        lemma_bit_one(to, beside);
        assert(board.piece_on(to).is_none() == board.kind_on(to).is_none());
        assert(board.piece_on(beside).is_none() == board.kind_on(beside).is_none());
        assert(castling_beside(m.to) == one(beside));
        assert(sound_move(board, m));
        assert forall|i: int| 0 <= i < moves.len() implies pred(#[trigger] moves[i]) by {
            assert(moves[i] == m);
        }
    }
}

/// The king moves of the side to move are sound.
proof fn lemma_king_sound(board: Board)
    requires
        board.valid(),
    ensures
        all_moves(king_moves_of(board, board.to_move), is_sound(board)),
{
    let color = board.to_move;
    let pred = is_sound(board);
    let kings = board.bb(color, Kind::King);
    if kings != 0 {
        lemma_lowest(kings);
        lemma_steps_sound(board, Kind::King, lowest(kings), king_pattern(kings));
    }
    lemma_castle_sound(board, true);
    lemma_castle_sound(board, false);
    let a = king_step_moves(board, color);
    let b = castle_moves(board, color, true);
    let c = castle_moves(board, color, false);
    lemma_all_join(a, b, pred);
    lemma_all_join(a + b, c, pred);
}

/// Every pseudo-legal move of the side to move on a sound position is sound.
pub proof fn lemma_pseudo_sound(board: Board)
    requires
        board.valid(),
    ensures
        all_moves(pseudo_moves(board, board.to_move), is_sound(board)),
{
    let color = board.to_move;
    let pred = is_sound(board);
    lemma_pushes_sound(board);
    lemma_captures_sound(board, true);
    lemma_captures_sound(board, false);
    let single = pawn_single_moves(board, color);
    let double = pawn_double_moves(board, color);
    let left = pawn_left_moves(board, color);
    let right = pawn_right_moves(board, color);
    lemma_all_join(single, double, pred);
    lemma_all_join(single + double, left, pred);
    lemma_all_join(single + double + left, right, pred);
    lemma_pieces_sound(board, Kind::Knight);
    lemma_pieces_sound(board, Kind::Rook);
    lemma_pieces_sound(board, Kind::Bishop);
    lemma_pieces_sound(board, Kind::Queen);
    lemma_king_sound(board);
    let a = pawn_moves(board, color);
    let b = piece_moves(board, Kind::Knight, color);
    let c = piece_moves(board, Kind::Rook, color);
    let d = piece_moves(board, Kind::Bishop, color);
    let e = piece_moves(board, Kind::Queen, color);
    let f = king_moves_of(board, color);
    lemma_all_join(a, b, pred);
    lemma_all_join(a + b, c, pred);
    lemma_all_join(a + b + c, d, pred);
    lemma_all_join(a + b + c + d, e, pred);
    lemma_all_join(a + b + c + d + e, f, pred);
}

/// A move grants no castling right: whoever may castle afterwards might before.
pub proof fn law_castling_rights_only_shrink(board: Board, m: Move)
    ensures
        ({
            let before = board.casteling_rights;
            let after = board.spec_do_move(m).casteling_rights;
            &&& after.white_kingside ==> before.white_kingside
            &&& after.white_queenside ==> before.white_queenside
            &&& after.black_kingside ==> before.black_kingside
            &&& after.black_queenside ==> before.black_queenside
        }),
{
    lemma_moved_rights(board, m);
}

/// There is an en-passant square after a move exactly when the move is a double push, and
/// then it is the square between origin and destination.
pub proof fn law_en_passant_follows_double_push(board: Board, m: Move)
    ensures
        board.spec_do_move(m).en_passant == if m.double_push {
            Some(Square::at((m.to.index() + m.from.index()) / 2))
        } else {
            None
        },
        board.spec_do_move(m).to_move == board.to_move.spec_opponent(),
{
    lemma_moved_turn(board, m);
}

/// Every legal move of a sound position leads to a sound position: afterwards the twelve
/// bitboards are pairwise disjoint, each side has exactly one king, and the en-passant
/// square, if there is one, lies on the third or the sixth rank.
pub proof fn law_legal_move_keeps_position_sound(board: Board, i: int)
    requires
        board.valid(),
        0 <= i < legal_moves(board).len(),
    ensures
        board.spec_do_move(legal_moves(board)[i]).valid(),
{
    let m = legal_moves(board)[i];
    let pseudo = pseudo_moves(board, board.to_move);
    let pred = is_legal(board);
    pseudo.lemma_filter_pred(pred, i);
    pseudo.lemma_filter_contains_rev(pred, m);
    let j = choose|j: int| 0 <= j < pseudo.len() && pseudo[j] == m;
    lemma_pseudo_sound(board);
    assert(is_sound(board)(pseudo[j]));
    lemma_keeps_valid(board, m);
}

/// The position reached from `start` by the legal moves that `path` numbers, each number
/// the place of a move among the legal moves of the position before it. `None` where a
/// number names no move.
pub open spec fn reached(start: Board, path: Seq<int>) -> Option<Board>
    decreases path.len(),
{
    if path.len() == 0 {
        Some(start)
    } else {
        match reached(start, path.drop_last()) {
            Some(board) => if 0 <= path.last() < legal_moves(board).len() {
                Some(board.spec_do_move(legal_moves(board)[path.last()]))
            } else {
                None
            },
            None => None,
        }
    }
}

/// Every position reached by legal moves from a sound position is sound: its twelve
/// bitboards are pairwise disjoint, each side has exactly one king, and its en-passant
/// square, if it has one, lies on the third or the sixth rank. The starting position is
/// sound.
pub proof fn law_reached_positions_are_sound(start: Board, path: Seq<int>)
    requires
        start.valid(),
        reached(start, path).is_some(),
    ensures
        reached(start, path).unwrap().valid(),
        reached(start, path).unwrap().disjoint(),
        reached(start, path).unwrap().one_king(Color::White),
        reached(start, path).unwrap().one_king(Color::Black),
        reached(start, path).unwrap().en_passant matches Some(square) ==> rank_of(square.index())
            == 2 || rank_of(square.index()) == 5,
        Board::spec_default().valid(),
    decreases path.len(),
{
    crate::board::lemma_default_valid();
    if path.len() > 0 {
        law_reached_positions_are_sound(start, path.drop_last());
        let board = reached(start, path.drop_last()).unwrap();
        law_legal_move_keeps_position_sound(board, path.last());
    }
}

/// After a legal move the king of the side that moved is not in check.
pub proof fn law_legal_move_leaves_no_check(board: Board, i: int)
    requires
        0 <= i < legal_moves(board).len(),
    ensures
        !board.spec_do_move(legal_moves(board)[i]).in_check(board.to_move),
{
    let pseudo = pseudo_moves(board, board.to_move);
    let pred = is_legal(board);
    pseudo.lemma_filter_pred(pred, i);
}

} // verus!
