//! The pseudo-legal moves told by the rules of the game, and the proof that the generator
//! lists exactly these.
use crate::bitboard::{
    bit, lemma_bit_one, lemma_bit_ops, lemma_lowest, lemma_squares, lowest, one,
};
use crate::board::{lemma_occupied, Board};
use crate::geometry::{king_step, knight_jump, pawn_attacks, slider_attack, slider_sees};
use crate::laws::{lemma_kind_on, lemma_sides_apart};
use crate::legality::{is_legal, legal, legal_moves};
use crate::move_gen::{
    back, back_left, back_right, can_castle, castle_move, castle_moves, double_push_rank,
    double_pushes, forward, from_each, king_moves_of, king_step_moves, last_rank, lemma_forward,
    line_moves, moves_from, moves_to, pawn_double_moves, pawn_left_moves, pawn_moves,
    pawn_right_moves, pawn_single_moves, pawn_template, piece_moves, piece_template,
    pseudo_moves, quiet_then_captures, single_pushes, Capture, Move, Template,
};
use crate::patterns::{
    king_pattern, knight_pattern, left_origin, lemma_king_pattern, lemma_knight_pattern,
    lemma_pawn_patterns, pawn_left_pattern, pawn_right_pattern, right_origin,
};
use crate::shapes::{lemma_each_square_members, lemma_join_members};
use crate::utils::{lemma_rank_masks, rank_of, Color, Kind, Square, CLEAR_RANK, MASK_RANK};
use vstd::prelude::*;

verus! {

/// A move is among the moves of a template to a set of squares exactly when it is among
/// its moves to one square of the set.
pub proof fn lemma_moves_to_members(board: Board, template: Template, targets: u64, m: Move)
    ensures
        moves_to(board, template, targets).contains(m) == exists|t: int|
            0 <= t < 64 && bit(targets, t) && #[trigger] template.moves_at(board, t).contains(m),
{
    let f = template.at_each(board);
    lemma_each_square_members(targets, f, m);
    if moves_to(board, template, targets).contains(m) {
        let t = choose|t: int| 0 <= t < 64 && bit(targets, t) && #[trigger] f(t).contains(m);
        assert(f(t) == template.moves_at(board, t));
        assert(template.moves_at(board, t).contains(m));
    }
    if exists|t: int|
        0 <= t < 64 && bit(targets, t) && #[trigger] template.moves_at(board, t).contains(m) {
        let t = choose|t: int|
            0 <= t < 64 && bit(targets, t) && #[trigger] template.moves_at(board, t).contains(m);
        assert(f(t) == template.moves_at(board, t));
        assert(f(t).contains(m));
    }
}

/// A move is the move of a template that does not promote to square `t` exactly when it is
/// among the moves of the template to `t`.
pub proof fn lemma_single_member(board: Board, template: Template, t: int, m: Move)
    requires
        !template.promotes,
    ensures
        template.moves_at(board, t).contains(m) == (m == template.move_to(board, t, None)),
{
    let moves = template.moves_at(board, t);
    assert(moves[0] == template.move_to(board, t, None));
}

/// Whether `m` is a move of a knight, bishop, rook or queen or a step of the king of the
/// side to move by the rules: the piece stands on the origin, it reaches the destination by
/// its jump or step or along its lines with nothing in between, the destination is not held
/// by its own side, the move takes what stands on the destination, and it is no special
/// move.
pub open spec fn piece_rule(board: Board, m: Move) -> bool {
    let color = board.to_move;
    let from = m.from.index();
    let to = m.to.index();
    &&& m.piece_color == color
    &&& !m.casteling
    &&& !m.double_push
    &&& !m.en_passant
    &&& m.promoting_piece.is_none()
    &&& bit(board.bb(color, m.piece_kind), from)
    &&& !bit(board.occupied_by(color), to)
    &&& m.captured_piece == board.kind_on(to)
    &&& match m.piece_kind {
        Kind::Knight => knight_jump(from, to),
        Kind::King => king_step(from, to),
        Kind::Bishop | Kind::Rook | Kind::Queen => slider_sees(
            m.piece_kind,
            board.occupied(),
            from,
            to,
        ),
        _ => false,
    }
}

/// The moves of a knight or king from square `p` to the squares of `reach` that are
/// generated are those that the rules allow, if `reach` holds the squares a jump or step
/// away from `p`.
proof fn lemma_step_rule(board: Board, kind: Kind, p: int, reach: u64, m: Move)
    requires
        board.disjoint(),
        0 <= p < 64,
        kind == Kind::Knight || kind == Kind::King,
        bit(board.bb(board.to_move, kind), p),
        forall|t: int|
            0 <= t < 64 ==> bit(reach, t) == if kind == Kind::Knight {
                knight_jump(p, t)
            } else {
                king_step(p, t)
            },
    ensures
        quiet_then_captures(board, kind, board.to_move, p, reach).contains(m) == (m.piece_kind
            == kind && m.from.index() == p && piece_rule(board, m)),
{
    let color = board.to_move;
    let enemy = color.spec_opponent();
    let quiet = piece_template(kind, color, p, Capture::Nothing);
    let capture = piece_template(kind, color, p, Capture::Target);
    let free = reach & !board.occupied();
    let hits = reach & board.occupied_by(enemy);
    let a = moves_to(board, quiet, free);
    let b = moves_to(board, capture, hits);
    lemma_join_members(a, b, m);
    lemma_moves_to_members(board, quiet, free, m);
    lemma_moves_to_members(board, capture, hits, m);
    Square::lemma_at(p);
    m.from.lemma_index();
    m.to.lemma_index();
    assert forall|t: int| 0 <= t < 64 implies (bit(free, t) == (bit(reach, t) && !bit(
        board.occupied(),
        t,
    ))) && (bit(hits, t) == (bit(reach, t) && bit(board.occupied_by(enemy), t))) by {
        lemma_bit_ops(reach, !board.occupied(), t);
        lemma_bit_ops(board.occupied(), board.occupied(), t);
        lemma_bit_ops(reach, board.occupied_by(enemy), t);
    }
    if quiet_then_captures(board, kind, color, p, reach).contains(m) {
        if a.contains(m) {
            let t = choose|t: int|
                0 <= t < 64 && bit(free, t) && #[trigger] quiet.moves_at(board, t).contains(m);
            lemma_single_member(board, quiet, t, m);
            Square::lemma_at(t);
            lemma_kind_on(board, t);
            lemma_occupied(board, t);
        } else {
            let t = choose|t: int|
                0 <= t < 64 && bit(hits, t) && #[trigger] capture.moves_at(board, t).contains(m);
            lemma_single_member(board, capture, t, m);
            Square::lemma_at(t);
            lemma_sides_apart(board, t);
        }
        assert(piece_rule(board, m));
    }
    if m.piece_kind == kind && m.from.index() == p && piece_rule(board, m) {
        let t = m.to.index();
        lemma_kind_on(board, t);
        lemma_occupied(board, t);
        if bit(board.occupied(), t) {
            lemma_single_member(board, capture, t, m);
            assert(m == capture.move_to(board, t, None));
            assert(capture.moves_at(board, t).contains(m));
        } else {
            lemma_single_member(board, quiet, t, m);
            assert(m == quiet.move_to(board, t, None));
            assert(quiet.moves_at(board, t).contains(m));
        }
    }
}

/// The knight's moves from square `p` that are generated are those that the rules allow.
proof fn lemma_knight_rule(board: Board, p: int, m: Move)
    requires
        board.disjoint(),
        0 <= p < 64,
        bit(board.bb(board.to_move, Kind::Knight), p),
    ensures
        moves_from(board, Kind::Knight, board.to_move, p).contains(m) == (m.piece_kind
            == Kind::Knight && m.from.index() == p && piece_rule(board, m)),
{
    let reach = knight_pattern(one(p));
    assert forall|t: int| 0 <= t < 64 implies bit(reach, t) == knight_jump(p, t) by {
        lemma_knight_pattern(one(p), t);
        if bit(reach, t) {
            let q = choose|q: int| 0 <= q < 64 && bit(one(p), q) && #[trigger] knight_jump(q, t);
            lemma_bit_one(p, q);
        }
        if knight_jump(p, t) {
            lemma_bit_one(p, p);
        }
    }
    lemma_step_rule(board, Kind::Knight, p, reach, m);
}

/// Whether `m` is a castling move of the side to move that the rules allow before attacks
/// are looked at: the right is held, the squares between king and rook are empty, and a
/// rook of the side stands on the corner.
pub open spec fn castle_rule(board: Board, m: Move) -> bool {
    exists|kingside: bool| #[trigger]
        can_castle(board, board.to_move, kingside) && m == castle_move(board.to_move, kingside)
}

/// The king moves of the side to move that are generated are those that the rules allow, if
/// the side has one king.
pub proof fn lemma_king_rule(board: Board, m: Move)
    requires
        board.disjoint(),
        board.one_king(board.to_move),
    ensures
        king_moves_of(board, board.to_move).contains(m) == (m.piece_kind == Kind::King && (
        piece_rule(board, m) || castle_rule(board, m))),
{
    let color = board.to_move;
    let kings = board.bb(color, Kind::King);
    let k = choose|i: int| 0 <= i < 64 && kings == #[trigger] one(i);
    lemma_bit_one(k, k);
    lemma_lowest(kings);
    lemma_bit_one(k, lowest(kings));
    m.from.lemma_index();
    lemma_bit_one(k, m.from.index());
    let reach = king_pattern(kings);
    assert forall|t: int| 0 <= t < 64 implies bit(reach, t) == king_step(k, t) by {
        lemma_king_pattern(kings, t);
        if bit(reach, t) {
            let q = choose|q: int| 0 <= q < 64 && bit(kings, q) && #[trigger] king_step(q, t);
            lemma_bit_one(k, q);
        }
    }
    lemma_step_rule(board, Kind::King, k, reach, m);
    let steps = king_step_moves(board, color);
    let short = castle_moves(board, color, true);
    let long = castle_moves(board, color, false);
    lemma_join_members(steps, short, m);
    lemma_join_members(steps + short, long, m);
    if short.contains(m) {
        assert(short[0] == m);
        assert(can_castle(board, color, true) && m == castle_move(color, true));
    }
    if long.contains(m) {
        assert(long[0] == m);
        assert(can_castle(board, color, false) && m == castle_move(color, false));
    }
    if castle_rule(board, m) {
        let kingside = choose|kingside: bool| #[trigger]
            can_castle(board, color, kingside) && m == castle_move(color, kingside);
        if kingside {
            assert(short[0] == m);
        } else {
            assert(long[0] == m);
        }
    }
}

/// The moves of a slider from square `p` along one kind of line that are generated are
/// those on which the slider reaches, along such a line, a square not held by its own side.
proof fn lemma_line_rule(board: Board, kind: Kind, p: int, line: Kind, m: Move)
    requires
        board.disjoint(),
        0 <= p < 64,
    ensures
        line_moves(board, kind, board.to_move, p, line).contains(m) == (m == piece_template(
            kind,
            board.to_move,
            p,
            Capture::Target,
        ).move_to(board, m.to.index(), None) && slider_sees(
            line,
            board.occupied(),
            p,
            m.to.index(),
        ) && !bit(board.occupied_by(board.to_move), m.to.index())),
{
    let color = board.to_move;
    let template = piece_template(kind, color, p, Capture::Target);
    let attack = slider_attack(line, p, board.occupied());
    let targets = attack & !board.occupied_by(color);
    lemma_moves_to_members(board, template, targets, m);
    lemma_squares(|t: int| slider_sees(line, board.occupied(), p, t));
    m.to.lemma_index();
    assert forall|t: int| 0 <= t < 64 implies bit(targets, t) == (slider_sees(
        line,
        board.occupied(),
        p,
        t,
    ) && !bit(board.occupied_by(color), t)) by {
        lemma_bit_ops(attack, !board.occupied_by(color), t);
        lemma_bit_ops(board.occupied_by(color), board.occupied_by(color), t);
    }
    if line_moves(board, kind, color, p, line).contains(m) {
        let t = choose|t: int|
            0 <= t < 64 && bit(targets, t) && #[trigger] template.moves_at(board, t).contains(m);
        lemma_single_member(board, template, t, m);
        Square::lemma_at(t);
    }
    if m == template.move_to(board, m.to.index(), None) && slider_sees(
        line,
        board.occupied(),
        p,
        m.to.index(),
    ) && !bit(board.occupied_by(color), m.to.index()) {
        let t = m.to.index();
        lemma_single_member(board, template, t, m);
        assert(template.moves_at(board, t).contains(m));
    }
}

/// The moves of a bishop, rook or queen from square `p` that are generated are those that
/// the rules allow.
proof fn lemma_slider_rule(board: Board, kind: Kind, p: int, m: Move)
    requires
        board.disjoint(),
        0 <= p < 64,
        kind == Kind::Bishop || kind == Kind::Rook || kind == Kind::Queen,
        bit(board.bb(board.to_move, kind), p),
    ensures
        moves_from(board, kind, board.to_move, p).contains(m) == (m.piece_kind == kind
            && m.from.index() == p && piece_rule(board, m)),
{
    let color = board.to_move;
    let template = piece_template(kind, color, p, Capture::Target);
    Square::lemma_at(p);
    m.from.lemma_index();
    m.to.lemma_index();
    lemma_line_rule(board, kind, p, Kind::Rook, m);
    lemma_line_rule(board, kind, p, Kind::Bishop, m);
    lemma_join_members(
        line_moves(board, kind, color, p, Kind::Rook),
        line_moves(board, kind, color, p, Kind::Bishop),
        m,
    );
    if m.piece_kind == kind && m.from.index() == p && piece_rule(board, m) {
        assert(m == template.move_to(board, m.to.index(), None));
    }
}

/// The moves of the knights, bishops, rooks or queens of the side to move that are generated
/// are those that the rules allow.
pub proof fn lemma_piece_rule(board: Board, kind: Kind, m: Move)
    requires
        board.disjoint(),
        kind == Kind::Knight || kind == Kind::Bishop || kind == Kind::Rook || kind == Kind::Queen,
    ensures
        piece_moves(board, kind, board.to_move).contains(m) == (m.piece_kind == kind && piece_rule(
            board,
            m,
        )),
{
    let color = board.to_move;
    let f = from_each(board, kind, color);
    let pieces = board.bb(color, kind);
    lemma_each_square_members(pieces, f, m);
    m.from.lemma_index();
    if piece_moves(board, kind, color).contains(m) {
        let p = choose|p: int| 0 <= p < 64 && bit(pieces, p) && #[trigger] f(p).contains(m);
        assert(f(p) == moves_from(board, kind, color, p));
        if kind == Kind::Knight {
            lemma_knight_rule(board, p, m);
        } else {
            lemma_slider_rule(board, kind, p, m);
        }
    }
    if m.piece_kind == kind && piece_rule(board, m) {
        let p = m.from.index();
        assert(f(p) == moves_from(board, kind, color, p));
        if kind == Kind::Knight {
            lemma_knight_rule(board, p, m);
        } else {
            lemma_slider_rule(board, kind, p, m);
        }
        assert(bit(pieces, p) && f(p).contains(m));
    }
}

/// A move is one of the four promotions of a promoting template to square `t` exactly when
/// it is among the moves of the template to `t`.
pub proof fn lemma_promotion_member(board: Board, template: Template, t: int, m: Move)
    requires
        template.promotes,
    ensures
        template.moves_at(board, t).contains(m) == (m == template.move_to(
            board,
            t,
            Some(Kind::Queen),
        ) || m == template.move_to(board, t, Some(Kind::Rook)) || m == template.move_to(
            board,
            t,
            Some(Kind::Bishop),
        ) || m == template.move_to(board, t, Some(Kind::Knight))),
{
    let moves = template.moves_at(board, t);
    assert(moves[0] == template.move_to(board, t, Some(Kind::Queen)));
    assert(moves[1] == template.move_to(board, t, Some(Kind::Rook)));
    assert(moves[2] == template.move_to(board, t, Some(Kind::Bishop)));
    assert(moves[3] == template.move_to(board, t, Some(Kind::Knight)));
}

/// Whether a pawn of `color` that arrives on square `to` promotes as it must: to a queen,
/// rook, bishop or knight on the last rank, and not at all elsewhere.
pub open spec fn promotion_fits(color: Color, to: int, promotion: Option<Kind>) -> bool {
    if rank_of(to) == last_rank(color) {
        promotion == Some(Kind::Queen) || promotion == Some(Kind::Rook) || promotion == Some(
            Kind::Bishop,
        ) || promotion == Some(Kind::Knight)
    } else {
        promotion.is_none()
    }
}

/// Whether `m` is a single push by the rules: one square ahead onto an empty square.
pub open spec fn push_rule(board: Board, m: Move) -> bool {
    let from = m.from.index();
    let to = m.to.index();
    &&& !m.casteling
    &&& !m.double_push
    &&& !m.en_passant
    &&& m.captured_piece.is_none()
    &&& from == to + back(board.to_move)
    &&& !bit(board.occupied(), to)
    &&& promotion_fits(board.to_move, to, m.promoting_piece)
}

/// Whether `m` is a double push by the rules: two squares ahead over an empty square onto
/// an empty square of the fourth rank as the side counts.
pub open spec fn double_push_rule(board: Board, m: Move) -> bool {
    let from = m.from.index();
    let to = m.to.index();
    &&& !m.casteling
    &&& m.double_push
    &&& !m.en_passant
    &&& m.captured_piece.is_none()
    &&& m.promoting_piece.is_none()
    &&& from == to + 2 * back(board.to_move)
    &&& rank_of(to) == double_push_rank(board.to_move)
    &&& !bit(board.occupied(), to)
    &&& !bit(board.occupied(), to + back(board.to_move))
}

/// Whether `m` is a pawn's capture by the rules: one rank ahead and one file aside onto a
/// square held by the other side, taking what stands there.
pub open spec fn capture_rule(board: Board, m: Move) -> bool {
    let from = m.from.index();
    let to = m.to.index();
    &&& !m.casteling
    &&& !m.double_push
    &&& !m.en_passant
    &&& pawn_attacks(board.to_move, from, to)
    &&& bit(board.occupied_by(board.to_move.spec_opponent()), to)
    &&& m.captured_piece == board.kind_on(to)
    &&& promotion_fits(board.to_move, to, m.promoting_piece)
}

/// Whether `m` is a capture in passing by the rules: one rank ahead and one file aside onto
/// the en-passant square, taking a pawn.
pub open spec fn passing_rule(board: Board, m: Move) -> bool {
    let from = m.from.index();
    let to = m.to.index();
    &&& !m.casteling
    &&& !m.double_push
    &&& m.en_passant
    &&& m.promoting_piece.is_none()
    &&& m.captured_piece == Some(Kind::Pawn)
    &&& pawn_attacks(board.to_move, from, to)
    &&& board.en_passant == Some(m.to)
}

/// Whether `m` is a pawn move of the side to move by the rules.
pub open spec fn pawn_rule(board: Board, m: Move) -> bool {
    &&& m.piece_color == board.to_move
    &&& bit(board.bb(board.to_move, Kind::Pawn), m.from.index())
    &&& (push_rule(board, m) || double_push_rule(board, m) || capture_rule(board, m)
        || passing_rule(board, m))
}

/// The squares of a set on and off the last rank of `color`.
proof fn lemma_rank_split(targets: u64, color: Color, t: int)
    requires
        0 <= t < 64,
    ensures
        bit(targets & CLEAR_RANK[last_rank(color)], t) == (bit(targets, t) && rank_of(t)
            != last_rank(color)),
        bit(targets & MASK_RANK[last_rank(color)], t) == (bit(targets, t) && rank_of(t)
            == last_rank(color)),
{
    lemma_bit_ops(targets, CLEAR_RANK[last_rank(color)], t);
    lemma_bit_ops(targets, MASK_RANK[last_rank(color)], t);
    lemma_rank_masks(last_rank(color), t);
}

/// A move is among the moves of a pawn template, without or with promotion as the rank of
/// the destination asks, to the squares of `targets` exactly when it is the move of the
/// template to one of these squares with a promotion that fits.
proof fn lemma_pawn_family(
    board: Board,
    offset: i8,
    captures: Capture,
    targets: u64,
    m: Move,
)
    ensures
        (moves_to(
            board,
            pawn_template(board.to_move, offset, false, false, captures),
            targets & CLEAR_RANK[last_rank(board.to_move)],
        ) + moves_to(
            board,
            pawn_template(board.to_move, offset, true, false, captures),
            targets & MASK_RANK[last_rank(board.to_move)],
        )).contains(m) == (bit(targets, m.to.index()) && promotion_fits(
            board.to_move,
            m.to.index(),
            m.promoting_piece,
        ) && m == pawn_template(board.to_move, offset, false, false, captures).move_to(
            board,
            m.to.index(),
            m.promoting_piece,
        )),
{
    let color = board.to_move;
    let plain = pawn_template(color, offset, false, false, captures);
    let promo = pawn_template(color, offset, true, false, captures);
    let short = targets & CLEAR_RANK[last_rank(color)];
    let last = targets & MASK_RANK[last_rank(color)];
    let a = moves_to(board, plain, short);
    let b = moves_to(board, promo, last);
    lemma_join_members(a, b, m);
    lemma_moves_to_members(board, plain, short, m);
    lemma_moves_to_members(board, promo, last, m);
    m.to.lemma_index();
    let to = m.to.index();
    lemma_rank_split(targets, color, to);
    lemma_single_member(board, plain, to, m);
    lemma_promotion_member(board, promo, to, m);
    if a.contains(m) {
        let t = choose|t: int|
            0 <= t < 64 && bit(short, t) && #[trigger] plain.moves_at(board, t).contains(m);
        lemma_single_member(board, plain, t, m);
        Square::lemma_at(t);
        lemma_rank_split(targets, color, t);
    }
    if b.contains(m) {
        let t = choose|t: int|
            0 <= t < 64 && bit(last, t) && #[trigger] promo.moves_at(board, t).contains(m);
        lemma_promotion_member(board, promo, t, m);
        Square::lemma_at(t);
        lemma_rank_split(targets, color, t);
    }
    if bit(targets, to) && promotion_fits(color, to, m.promoting_piece) && m == plain.move_to(
        board,
        to,
        m.promoting_piece,
    ) {
        if rank_of(to) == last_rank(color) {
            assert(promo.moves_at(board, to).contains(m));
        } else {
            assert(plain.moves_at(board, to).contains(m));
        }
    }
}

/// The pushes of the pawns of the side to move that are generated are those that the rules
/// allow.
proof fn lemma_push_rule(board: Board, m: Move)
    ensures
        pawn_single_moves(board, board.to_move).contains(m) == (m.piece_kind == Kind::Pawn
            && m.piece_color == board.to_move && bit(
            board.bb(board.to_move, Kind::Pawn),
            m.from.index(),
        ) && push_rule(board, m)),
        pawn_double_moves(board, board.to_move).contains(m) == (m.piece_kind == Kind::Pawn
            && m.piece_color == board.to_move && bit(
            board.bb(board.to_move, Kind::Pawn),
            m.from.index(),
        ) && double_push_rule(board, m)),
{
    let color = board.to_move;
    let pawns = board.bb(color, Kind::Pawn);
    let free = !board.occupied();
    let pushes = single_pushes(board, color);
    let doubles = double_pushes(board, color);
    m.to.lemma_index();
    m.from.lemma_index();
    let to = m.to.index();
    let from = m.from.index();
    assert forall|t: int| 0 <= t < 64 implies #[trigger] bit(pushes, t) == (0 <= t + back(color) < 64 && bit(
        pawns,
        t + back(color),
    ) && !bit(board.occupied(), t)) by {
        lemma_bit_ops(forward(color, pawns), free, t);
        lemma_bit_ops(board.occupied(), board.occupied(), t);
        lemma_forward(color, pawns, t);
    }
    lemma_pawn_family(board, back(color), Capture::Nothing, pushes, m);
    if 0 <= to + back(color) < 64 {
        Square::lemma_at(to + back(color));
    }
    let double = pawn_template(color, (2 * back(color)) as i8, false, true, Capture::Nothing);
    lemma_moves_to_members(board, double, doubles, m);
    lemma_single_member(board, double, to, m);
    assert forall|t: int| 0 <= t < 64 implies #[trigger] bit(doubles, t) == (0 <= t + 2 * back(color) < 64
        && bit(pawns, t + 2 * back(color)) && !bit(board.occupied(), t + back(color)) && !bit(
        board.occupied(),
        t,
    ) && rank_of(t) == double_push_rank(color)) by {
        lemma_bit_ops(forward(color, pushes) & free, MASK_RANK[double_push_rank(color)], t);
        lemma_bit_ops(forward(color, pushes), free, t);
        lemma_bit_ops(board.occupied(), board.occupied(), t);
        lemma_forward(color, pushes, t);
        lemma_rank_masks(double_push_rank(color), t);
    }
    if pawn_double_moves(board, color).contains(m) {
        let t = choose|t: int|
            0 <= t < 64 && bit(doubles, t) && #[trigger] double.moves_at(board, t).contains(m);
        lemma_single_member(board, double, t, m);
        assert(bit(doubles, t));
        assert(0 <= t + 2 * back(color) < 64);
        Square::lemma_at(t);
        Square::lemma_at(t + 2 * back(color));
        assert(m.to.index() == t);
        assert(m.from.index() == t + 2 * back(color));
    }
    if m.piece_kind == Kind::Pawn && m.piece_color == color && bit(pawns, from)
        && double_push_rule(board, m) {
        assert(bit(doubles, to));
        assert(m == double.move_to(board, to, None));
        assert(double.moves_at(board, to).contains(m));
    }
}

/// The captures of the pawns of the side to move to one side that are generated are those
/// that the rules allow from the square one file to that side of the destination.
proof fn lemma_capture_side(board: Board, left: bool, m: Move)
    ensures
        (if left {
            pawn_left_moves(board, board.to_move)
        } else {
            pawn_right_moves(board, board.to_move)
        }).contains(m) == (m.piece_kind == Kind::Pawn && m.piece_color == board.to_move && bit(
            board.bb(board.to_move, Kind::Pawn),
            m.from.index(),
        ) && m.from.index() == (if left {
            left_origin(board.to_move, m.to.index())
        } else {
            right_origin(board.to_move, m.to.index())
        }) && (capture_rule(board, m) || passing_rule(board, m))),
{
    let color = board.to_move;
    let enemy = color.spec_opponent();
    let pawns = board.bb(color, Kind::Pawn);
    let pattern = if left {
        pawn_left_pattern(color, pawns)
    } else {
        pawn_right_pattern(color, pawns)
    };
    let offset = if left {
        back_left(color)
    } else {
        back_right(color)
    };
    let hits = pattern & board.occupied_by(enemy);
    let passing = pattern & board.ep_mask();
    let regular = pawn_template(color, offset, false, false, Capture::Target);
    let promo = pawn_template(color, offset, true, false, Capture::Target);
    let in_passing = pawn_template(color, offset, false, false, Capture::Passing);
    let short = hits & CLEAR_RANK[last_rank(color)];
    let last = hits & MASK_RANK[last_rank(color)];
    let a = moves_to(board, regular, short) + moves_to(board, promo, last);
    let b = moves_to(board, in_passing, passing);
    m.to.lemma_index();
    m.from.lemma_index();
    let to = m.to.index();
    let from = m.from.index();
    lemma_join_members(a, b, m);
    lemma_pawn_family(board, offset, Capture::Target, hits, m);
    lemma_moves_to_members(board, in_passing, passing, m);
    lemma_single_member(board, in_passing, to, m);
    assert forall|t: int| 0 <= t < 64 implies (#[trigger] bit(pattern, t) == (0 <= t + offset < 64
        && bit(pawns, t + offset) && pawn_attacks(color, t + offset, t))) by {
        lemma_pawn_patterns(color, pawns, t);
    }
    assert forall|t: int| 0 <= t < 64 implies (#[trigger] bit(hits, t) == (bit(pattern, t) && bit(
        board.occupied_by(enemy),
        t,
    ))) by {
        lemma_bit_ops(pattern, board.occupied_by(enemy), t);
    }
    assert forall|t: int| 0 <= t < 64 implies (#[trigger] bit(passing, t) == (bit(pattern, t)
        && board.en_passant == Some(Square::at(t)))) by {
        lemma_bit_ops(pattern, board.ep_mask(), t);
        lemma_bit_ops(0, 0, t);
        Square::lemma_at(t);
        if board.en_passant.is_some() {
            let square = board.en_passant.unwrap();
            square.lemma_index();
            lemma_bit_one(square.index(), t);
        }
    }
    if 0 <= to + offset < 64 {
        Square::lemma_at(to + offset);
    }
    if b.contains(m) {
        let t = choose|t: int|
            0 <= t < 64 && bit(passing, t) && #[trigger] in_passing.moves_at(board, t).contains(m);
        lemma_single_member(board, in_passing, t, m);
        assert(bit(pattern, t));
        Square::lemma_at(t);
        Square::lemma_at(t + offset);
        assert(m.to.index() == t);
    }
    if a.contains(m) {
        assert(bit(pattern, to));
        assert(m == regular.move_to(board, to, m.promoting_piece));
    }
    if m.piece_kind == Kind::Pawn && m.piece_color == color && bit(pawns, from) && from == to
        + offset {
        if capture_rule(board, m) {
            assert(bit(hits, to));
            assert(m == regular.move_to(board, to, m.promoting_piece));
        }
        if passing_rule(board, m) {
            assert(bit(passing, to));
            assert(m == in_passing.move_to(board, to, None));
            assert(in_passing.moves_at(board, to).contains(m));
        }
    }
}

/// The pawn moves of the side to move that are generated are those that the rules allow.
pub proof fn lemma_pawn_rule(board: Board, m: Move)
    ensures
        pawn_moves(board, board.to_move).contains(m) == (m.piece_kind == Kind::Pawn && pawn_rule(
            board,
            m,
        )),
{
    let color = board.to_move;
    let single = pawn_single_moves(board, color);
    let double = pawn_double_moves(board, color);
    let left = pawn_left_moves(board, color);
    let right = pawn_right_moves(board, color);
    lemma_push_rule(board, m);
    lemma_capture_side(board, true, m);
    lemma_capture_side(board, false, m);
    lemma_join_members(single, double, m);
    lemma_join_members(single + double, left, m);
    lemma_join_members(single + double + left, right, m);
    m.to.lemma_index();
    m.from.lemma_index();
    lemma_pawn_patterns(color, board.bb(color, Kind::Pawn), m.to.index());
}

/// Whether `m` is a pseudo-legal move of the side to move by the rules of the game: a pawn
/// pushes once or twice or captures, in passing too; a knight jumps, a bishop, rook or
/// queen slides and a king steps onto a square that its own side does not hold; a king
/// castles where the right is held, the way is free and the rook is at home.
pub open spec fn pseudo_legal(board: Board, m: Move) -> bool {
    match m.piece_kind {
        Kind::Pawn => pawn_rule(board, m),
        Kind::King => piece_rule(board, m) || castle_rule(board, m),
        _ => piece_rule(board, m),
    }
}

/// On a position where no square is held twice and the side to move has one king, the
/// pseudo-legal moves that are generated are exactly those that the rules allow.
pub proof fn law_generated_moves_are_the_pseudo_legal_moves(board: Board, m: Move)
    requires
        board.disjoint(),
        board.one_king(board.to_move),
    ensures
        pseudo_moves(board, board.to_move).contains(m) == pseudo_legal(board, m),
{
    let color = board.to_move;
    let a = pawn_moves(board, color);
    let b = piece_moves(board, Kind::Knight, color);
    let c = piece_moves(board, Kind::Rook, color);
    let d = piece_moves(board, Kind::Bishop, color);
    let e = piece_moves(board, Kind::Queen, color);
    let f = king_moves_of(board, color);
    lemma_pawn_rule(board, m);
    lemma_piece_rule(board, Kind::Knight, m);
    lemma_piece_rule(board, Kind::Rook, m);
    lemma_piece_rule(board, Kind::Bishop, m);
    lemma_piece_rule(board, Kind::Queen, m);
    lemma_king_rule(board, m);
    lemma_join_members(a, b, m);
    lemma_join_members(a + b, c, m);
    lemma_join_members(a + b + c, d, m);
    lemma_join_members(a + b + c + d, e, m);
    lemma_join_members(a + b + c + d + e, f, m);
    if castle_rule(board, m) {
        let kingside = choose|kingside: bool| #[trigger]
            can_castle(board, color, kingside) && m == castle_move(color, kingside);
        assert(m.piece_kind == Kind::King);
    }
}

/// On such a position the legal moves that are generated are exactly the moves that the
/// rules allow and that take no king, castle across no attacked square and leave the king
/// of the side that moved out of check.
pub proof fn law_generated_moves_are_the_legal_moves(board: Board, m: Move)
    requires
        board.disjoint(),
        board.one_king(board.to_move),
    ensures
        legal_moves(board).contains(m) == (pseudo_legal(board, m) && legal(board, m)),
{
    let pseudo = pseudo_moves(board, board.to_move);
    let pred = is_legal(board);
    law_generated_moves_are_the_pseudo_legal_moves(board, m);
    if legal_moves(board).contains(m) {
        let i = choose|i: int| 0 <= i < legal_moves(board).len() && legal_moves(board)[i] == m;
        pseudo.lemma_filter_pred(pred, i);
        pseudo.lemma_filter_contains_rev(pred, m);
    }
    if pseudo_legal(board, m) && legal(board, m) {
        let i = choose|i: int| 0 <= i < pseudo.len() && pseudo[i] == m;
        pseudo.lemma_filter_contains(pred, i);
    }
}

} // verus!
