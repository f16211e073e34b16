//! What every generated move looks like, whatever the position.
use crate::bitboard::{
    bit, lemma_bit_ops, lemma_lowest, lemma_without_lowest, lowest, one, without_lowest,
};
use crate::board::{appliable, Board};
use crate::geometry::slider_attack;
use crate::move_gen::{
    back, back_left, back_right, castle_from, castle_move, castle_moves, castle_to, double_pushes,
    each_square, from_each, king_moves_of, king_step_moves, last_rank, line_moves, moves_from,
    moves_to, pawn_capture_moves, pawn_double_moves, pawn_left_moves, pawn_moves, pawn_right_moves,
    pawn_single_moves, pawn_template, piece_moves, piece_template, pseudo_moves,
    quiet_then_captures, single_pushes, Capture, Move, Template,
};
use crate::patterns::{king_pattern, knight_pattern, pawn_left_pattern, pawn_right_pattern};
use crate::utils::{lemma_rank_masks, rank_of, Color, Kind, Square, CLEAR_RANK, MASK_RANK};
use vstd::prelude::*;

verus! {

/// Whether every move of `moves` satisfies `pred`.
pub open spec fn all_moves(moves: Seq<Move>, pred: spec_fn(Move) -> bool) -> bool {
    forall|i: int| 0 <= i < moves.len() ==> pred(#[trigger] moves[i])
}

/// What holds of every move of two sequences holds of every move of their join.
pub proof fn lemma_all_join(a: Seq<Move>, b: Seq<Move>, pred: spec_fn(Move) -> bool)
    requires
        all_moves(a, pred),
        all_moves(b, pred),
    ensures
        all_moves(a + b, pred),
{
    assert forall|i: int| 0 <= i < (a + b).len() implies pred(#[trigger] (a + b)[i]) by {
        if i < a.len() {
            assert((a + b)[i] == a[i]);
        } else {
            assert((a + b)[i] == b[i - a.len()]);
        }
    }
}

/// What holds of every move that `f` gives for a square of `squares` holds of every move
/// of `each_square(squares, f)`.
pub proof fn lemma_each_square_all(
    squares: u64,
    f: spec_fn(int) -> Seq<Move>,
    pred: spec_fn(Move) -> bool,
)
    requires
        forall|t: int| 0 <= t < 64 && bit(squares, t) ==> all_moves(#[trigger] f(t), pred),
    ensures
        all_moves(each_square(squares, f), pred),
    decreases squares,
{
    if squares != 0 {
        lemma_lowest(squares);
        lemma_without_lowest(squares);
        let rest = without_lowest(squares);
        assert forall|t: int| 0 <= t < 64 && bit(rest, t) implies all_moves(
            #[trigger] f(t),
            pred,
        ) by {
            assert(bit(squares, t));
        }
        lemma_each_square_all(rest, f, pred);
        lemma_all_join(f(lowest(squares)), each_square(rest, f), pred);
    }
}

/// A move is in the join of two sequences exactly when it is in one of them.
pub proof fn lemma_join_members(a: Seq<Move>, b: Seq<Move>, m: Move)
    ensures
        (a + b).contains(m) == (a.contains(m) || b.contains(m)),
{
    if a.contains(m) {
        let i = choose|i: int| 0 <= i < a.len() && a[i] == m;
        assert((a + b)[i] == m);
    }
    if b.contains(m) {
        let i = choose|i: int| 0 <= i < b.len() && b[i] == m;
        assert((a + b)[a.len() + i] == m);
    }
    if (a + b).contains(m) {
        let i = choose|i: int| 0 <= i < (a + b).len() && (a + b)[i] == m;
        if i < a.len() {
            assert(a[i] == m);
        } else {
            assert(b[i - a.len()] == m);
        }
    }
}

/// `each_square(squares, f)` lists what `f` gives for the squares of `squares` and nothing
/// else.
pub proof fn lemma_each_square_members(squares: u64, f: spec_fn(int) -> Seq<Move>, m: Move)
    ensures
        each_square(squares, f).contains(m) == exists|t: int|
            0 <= t < 64 && bit(squares, t) && #[trigger] f(t).contains(m),
    decreases squares,
{
    if squares == 0 {
        assert forall|t: int| 0 <= t < 64 implies !bit(squares, t) by {
            lemma_bit_ops(0, 0, t);
        }
        assert(each_square(squares, f) =~= Seq::<Move>::empty());
    } else {
        lemma_lowest(squares);
        lemma_without_lowest(squares);
        let low = lowest(squares);
        let rest = without_lowest(squares);
        lemma_each_square_members(rest, f, m);
        lemma_join_members(f(low), each_square(rest, f), m);
        if each_square(squares, f).contains(m) {
            if f(low).contains(m) {
                assert(bit(squares, low) && f(low).contains(m));
            } else {
                let t = choose|t: int| 0 <= t < 64 && bit(rest, t) && #[trigger] f(t).contains(m);
                assert(bit(squares, t) && f(t).contains(m));
            }
        }
        if exists|t: int| 0 <= t < 64 && bit(squares, t) && #[trigger] f(t).contains(m) {
            let t = choose|t: int| 0 <= t < 64 && bit(squares, t) && #[trigger] f(t).contains(m);
            if t != low {
                assert(bit(rest, t) && f(t).contains(m));
            }
        }
    }
}

/// What holds of the moves of a template to each square of `targets` holds of every move of
/// `moves_to`.
pub proof fn lemma_moves_to_all(
    board: Board,
    template: Template,
    targets: u64,
    pred: spec_fn(Move) -> bool,
)
    requires
        forall|t: int|
            0 <= t < 64 && bit(targets, t) ==> all_moves(#[trigger] template.moves_at(board, t), pred),
    ensures
        all_moves(moves_to(board, template, targets), pred),
{
    let f = template.at_each(board);
    assert forall|t: int| 0 <= t < 64 && bit(targets, t) implies all_moves(
        #[trigger] f(t),
        pred,
    ) by {
        assert(f(t) == template.moves_at(board, t));
    }
    lemma_each_square_all(targets, f, pred);
}

/// Whether `m` has the shape of a move of `color`: it moves a piece of `color`, turns no
/// king into another piece, and castles only to a castling square.
pub open spec fn shaped(m: Move, color: Color) -> bool {
    &&& m.piece_color == color
    &&& m.piece_kind == Kind::King ==> m.promoting_piece.is_none()
    &&& appliable(m)
}

/// `shaped`, as a function of the move.
pub open spec fn is_shaped(color: Color) -> spec_fn(Move) -> bool {
    |m: Move| shaped(m, color)
}

/// Whether the parts of `m` agree with each other: at most one of double push, capture in
/// passing and castling; a capture in passing takes a pawn; castling is a king's move from
/// its first square to one of its two castling squares; a promotion is a pawn's move to the
/// last rank that gives a queen, rook, bishop or knight.
pub open spec fn well_formed(m: Move) -> bool {
    &&& !(m.double_push && m.en_passant)
    &&& !(m.double_push && m.casteling)
    &&& !(m.en_passant && m.casteling)
    &&& m.en_passant ==> m.captured_piece == Some(Kind::Pawn)
    &&& m.casteling ==> m.piece_kind == Kind::King && m.from == castle_from(m.piece_color) && (
    m.to == castle_to(m.piece_color, true) || m.to == castle_to(m.piece_color, false))
    &&& m.promoting_piece.is_some() ==> m.piece_kind == Kind::Pawn && rank_of(m.to.index())
        == last_rank(m.piece_color) && (m.promoting_piece == Some(Kind::Queen)
        || m.promoting_piece == Some(Kind::Rook) || m.promoting_piece == Some(Kind::Bishop)
        || m.promoting_piece == Some(Kind::Knight))
}

/// Whether `m` is a well-formed move of `color`.
pub open spec fn formed(m: Move, color: Color) -> bool {
    shaped(m, color) && well_formed(m)
}

/// `formed`, as a function of the move.
pub open spec fn is_formed(color: Color) -> spec_fn(Move) -> bool {
    |m: Move| formed(m, color)
}

/// The squares of a set that lie on the last rank of `color` lie on that rank.
proof fn lemma_on_last_rank(targets: u64, color: Color)
    ensures
        forall|t: int|
            0 <= t < 64 && #[trigger] bit(targets & MASK_RANK[last_rank(color)], t) ==> rank_of(t)
                == last_rank(color),
{
    assert forall|t: int|
        0 <= t < 64 && #[trigger] bit(targets & MASK_RANK[last_rank(color)], t) implies rank_of(t)
        == last_rank(color) by {
        lemma_bit_ops(targets, MASK_RANK[last_rank(color)], t);
        crate::utils::lemma_rank_masks(last_rank(color), t);
    }
}

/// Every pseudo-legal move of `color` is shaped.
pub proof fn lemma_pseudo_shaped(board: Board, color: Color)
    ensures
        all_moves(pseudo_moves(board, color), is_shaped(color)),
{
    lemma_pseudo_formed(board, color);
    let moves = pseudo_moves(board, color);
    assert forall|i: int| 0 <= i < moves.len() implies is_shaped(color)(#[trigger] moves[i]) by {
        assert(is_formed(color)(moves[i]));
    }
}

/// Every move of a template is well formed if the template promotes only pawns on their
/// last rank and does not both push twice and capture in passing.
proof fn lemma_template_formed(board: Board, template: Template, targets: u64)
    requires
        template.promotes ==> template.kind == Kind::Pawn && forall|t: int|
            0 <= t < 64 && bit(targets, t) ==> rank_of(t) == last_rank(template.color),
        !(template.double_push && template.captures is Passing),
    ensures
        all_moves(moves_to(board, template, targets), is_formed(template.color)),
{
    let pred = is_formed(template.color);
    assert forall|t: int| 0 <= t < 64 && bit(targets, t) implies all_moves(
        #[trigger] template.moves_at(board, t),
        pred,
    ) by {
        let moves = template.moves_at(board, t);
        Square::lemma_at(t);
        assert forall|i: int| 0 <= i < moves.len() implies pred(#[trigger] moves[i]) by {
            assert(formed(moves[i], template.color));
        }
    }
    lemma_moves_to_all(board, template, targets, pred);
}

/// Every pseudo-legal move of `color` is well formed: it is a move of `color`, and its
/// flags, its capture and its promotion agree with each other and with its squares.
pub proof fn lemma_pseudo_formed(board: Board, color: Color)
    ensures
        all_moves(pseudo_moves(board, color), is_formed(color)),
{
    let pred = is_formed(color);
    let enemy = board.occupied_by(color.spec_opponent());
    // pawns
    let pushes = single_pushes(board, color);
    let quiet = pawn_template(color, back(color), false, false, Capture::Nothing);
    let promo = pawn_template(color, back(color), true, false, Capture::Nothing);
    lemma_on_last_rank(pushes, color);
    lemma_template_formed(board, quiet, pushes & CLEAR_RANK[last_rank(color)]);
    lemma_template_formed(board, promo, pushes & MASK_RANK[last_rank(color)]);
    lemma_all_join(
        moves_to(board, quiet, pushes & CLEAR_RANK[last_rank(color)]),
        moves_to(board, promo, pushes & MASK_RANK[last_rank(color)]),
        pred,
    );
    lemma_template_formed(
        board,
        pawn_template(color, (2 * back(color)) as i8, false, true, Capture::Nothing),
        double_pushes(board, color),
    );
    lemma_capture_formed(
        board,
        color,
        pawn_left_pattern(color, board.bb(color, Kind::Pawn)),
        back_left(color),
    );
    lemma_capture_formed(
        board,
        color,
        pawn_right_pattern(color, board.bb(color, Kind::Pawn)),
        back_right(color),
    );
    lemma_all_join(pawn_single_moves(board, color), pawn_double_moves(board, color), pred);
    lemma_all_join(
        pawn_single_moves(board, color) + pawn_double_moves(board, color),
        pawn_left_moves(board, color),
        pred,
    );
    lemma_all_join(
        pawn_single_moves(board, color) + pawn_double_moves(board, color) + pawn_left_moves(
            board,
            color,
        ),
        pawn_right_moves(board, color),
        pred,
    );
    // pieces
    lemma_pieces_formed(board, Kind::Knight, color);
    lemma_pieces_formed(board, Kind::Rook, color);
    lemma_pieces_formed(board, Kind::Bishop, color);
    lemma_pieces_formed(board, Kind::Queen, color);
    // king
    lemma_king_formed(board, color);
    let a = pawn_moves(board, color);
    let b = piece_moves(board, Kind::Knight, color);
    let c = piece_moves(board, Kind::Rook, color);
    let d = piece_moves(board, Kind::Bishop, color);
    let e = piece_moves(board, Kind::Queen, color);
    let f = king_moves_of(board, color);
    lemma_all_join(a, b, pred);
    lemma_all_join(a + b, c, pred);
    lemma_all_join(a + b + c, d, pred);
    lemma_all_join(a + b + c + d, e, pred);
    lemma_all_join(a + b + c + d + e, f, pred);
}

/// Every pawn capture of `color` is well formed.
proof fn lemma_capture_formed(board: Board, color: Color, pattern: u64, offset: i8)
    ensures
        all_moves(pawn_capture_moves(board, color, pattern, offset), is_formed(color)),
{
    let pred = is_formed(color);
    let hits = pattern & board.occupied_by(color.spec_opponent());
    let a = pawn_template(color, offset, false, false, Capture::Target);
    let b = pawn_template(color, offset, true, false, Capture::Target);
    let c = pawn_template(color, offset, false, false, Capture::Passing);
    lemma_on_last_rank(hits, color);
    lemma_template_formed(board, a, hits & CLEAR_RANK[last_rank(color)]);
    lemma_template_formed(board, b, hits & MASK_RANK[last_rank(color)]);
    lemma_template_formed(board, c, pattern & board.ep_mask());
    lemma_all_join(
        moves_to(board, a, hits & CLEAR_RANK[last_rank(color)]),
        moves_to(board, b, hits & MASK_RANK[last_rank(color)]),
        pred,
    );
    lemma_all_join(
        moves_to(board, a, hits & CLEAR_RANK[last_rank(color)]) + moves_to(
            board,
            b,
            hits & MASK_RANK[last_rank(color)],
        ),
        moves_to(board, c, pattern & board.ep_mask()),
        pred,
    );
}

/// Every step or jump of a piece of `color` is well formed.
proof fn lemma_steps_formed(board: Board, kind: Kind, color: Color, p: int, reach: u64)
    ensures
        all_moves(quiet_then_captures(board, kind, color, p, reach), is_formed(color)),
{
    let a = piece_template(kind, color, p, Capture::Nothing);
    let b = piece_template(kind, color, p, Capture::Target);
    lemma_template_formed(board, a, reach & !board.occupied());
    lemma_template_formed(board, b, reach & board.occupied_by(color.spec_opponent()));
    lemma_all_join(
        moves_to(board, a, reach & !board.occupied()),
        moves_to(board, b, reach & board.occupied_by(color.spec_opponent())),
        is_formed(color),
    );
}

/// Every move of the knights, bishops, rooks or queens of `color` is well formed.
proof fn lemma_pieces_formed(board: Board, kind: Kind, color: Color)
    ensures
        all_moves(piece_moves(board, kind, color), is_formed(color)),
{
    let pred = is_formed(color);
    let f = from_each(board, kind, color);
    assert forall|p: int| 0 <= p < 64 implies all_moves(#[trigger] f(p), pred) by {
        assert(f(p) == moves_from(board, kind, color, p));
        let own = board.occupied_by(color);
        let template = piece_template(kind, color, p, Capture::Target);
        match kind {
            Kind::Knight => {
                lemma_steps_formed(board, kind, color, p, knight_pattern(one(p)));
            },
            Kind::Bishop => {
                lemma_template_formed(
                    board,
                    template,
                    slider_attack(Kind::Bishop, p, board.occupied()) & !own,
                );
            },
            Kind::Rook => {
                lemma_template_formed(
                    board,
                    template,
                    slider_attack(Kind::Rook, p, board.occupied()) & !own,
                );
            },
            Kind::Queen => {
                lemma_template_formed(
                    board,
                    template,
                    slider_attack(Kind::Bishop, p, board.occupied()) & !own,
                );
                lemma_template_formed(
                    board,
                    template,
                    slider_attack(Kind::Rook, p, board.occupied()) & !own,
                );
                lemma_all_join(
                    line_moves(board, kind, color, p, Kind::Rook),
                    line_moves(board, kind, color, p, Kind::Bishop),
                    pred,
                );
            },
            _ => {},
        }
    }
    lemma_each_square_all(board.bb(color, kind), f, pred);
}

/// Every king move of `color` is well formed.
proof fn lemma_king_formed(board: Board, color: Color)
    ensures
        all_moves(king_moves_of(board, color), is_formed(color)),
{
    let pred = is_formed(color);
    let kings = board.bb(color, Kind::King);
    if kings != 0 {
        lemma_steps_formed(
            board,
            Kind::King,
            color,
            lowest(kings),
            king_pattern(kings),
        );
    }
    let a = king_step_moves(board, color);
    let b = castle_moves(board, color, true);
    let c = castle_moves(board, color, false);
    assert(all_moves(b, pred)) by {
        assert forall|i: int| 0 <= i < b.len() implies pred(#[trigger] b[i]) by {
            assert(formed(castle_move(color, true), color));
        }
    }
    assert(all_moves(c, pred)) by {
        assert forall|i: int| 0 <= i < c.len() implies pred(#[trigger] c[i]) by {
            assert(formed(castle_move(color, false), color));
        }
    }
    lemma_all_join(a, b, pred);
    lemma_all_join(a + b, c, pred);
}

} // verus!
