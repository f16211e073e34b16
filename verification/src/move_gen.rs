//! Moves, and the generator of the pseudo-legal and legal moves of a position.
use crate::bitboard::{
    bit, lemma_bit_nonzero, lemma_bit_ops, lemma_bit_shl, lemma_bit_shr, lemma_bit_test,
    lemma_lowest, lemma_squares, lemma_without_lowest, lowest, one, without_lowest, Bitboard,
};
use crate::board::{appliable, lemma_king_survives, Board};
use crate::geometry::{
    bishop_sees, king_step, knight_jump, lemma_slider_sees_symmetric, pawn_attacks, rook_sees,
    slider_attack, slider_sees,
};
use crate::legality::{
    castle_path_safe, is_legal, legal, lemma_plain_enemy, lemma_quick_legal, lemma_unwatched,
    line_stays_shut, plain, Stance,
};
use crate::magic::Magics;
use crate::patterns::{
    king_moves, king_pattern, knight_moves, knight_pattern, lemma_king_pattern,
    lemma_knight_pattern, lemma_pawn_attack_pattern, lemma_pawn_patterns, pawn_attack_pattern,
    pawn_attacks_of, pawn_left_pattern, pawn_right_pattern,
};
use crate::shapes::{all_moves, is_shaped, lemma_all_join, lemma_pseudo_shaped, shaped};
use crate::utils::{square_mask, Color, Kind, Square, CLEAR_FILE, CLEAR_RANK, MASK_RANK};
use vstd::prelude::*;

verus! {

/// One move of one piece.
#[derive(Clone, Copy, PartialEq, Eq, Debug)]
pub struct Move {
    /// The kind of the piece that moves.
    pub piece_kind: Kind,
    /// The side that moves.
    pub piece_color: Color,
    pub from: Square,
    pub to: Square,
    /// Whether the king castles; `to` is then the king's destination.
    pub casteling: bool,
    /// The kind a pawn turns into on the last rank.
    pub promoting_piece: Option<Kind>,
    /// Whether a pawn advances two squares.
    pub double_push: bool,
    /// Whether a pawn captures in passing.
    pub en_passant: bool,
    /// The kind of the piece taken, if any.
    pub captured_piece: Option<Kind>,
}

/// Where the piece of a move comes from.
#[derive(Clone, Copy, Debug)]
pub enum Origin {
    /// Always the same square.
    Fixed(Square),
    /// The destination plus this many squares.
    Offset(i8),
}

/// What a move takes.
#[derive(Clone, Copy, Debug)]
pub enum Capture {
    /// Nothing.
    Nothing,
    /// Whatever stands on the destination, if anything.
    Target,
    /// The pawn that has just passed the destination.
    Passing,
}

/// A family of moves that differ only in their destination.
#[derive(Clone, Copy, Debug)]
pub struct Template {
    pub kind: Kind,
    pub color: Color,
    pub origin: Origin,
    /// Whether each destination gives four moves, one for each piece a pawn can turn into.
    pub promotes: bool,
    pub double_push: bool,
    pub captures: Capture,
}

impl Template {
    /// The origin of the move to square `t`.
    pub open spec fn origin_of(self, t: int) -> Square {
        match self.origin {
            Origin::Fixed(square) => square,
            Origin::Offset(delta) => Square::at(t + delta),
        }
    }

    /// What the move to square `t` takes.
    pub open spec fn captured(self, board: Board, t: int) -> Option<Kind> {
        match self.captures {
            Capture::Nothing => None,
            Capture::Target => board.kind_on(t),
            Capture::Passing => Some(Kind::Pawn),
        }
    }

    /// The move to square `t` with the given promotion.
    pub open spec fn move_to(self, board: Board, t: int, promotion: Option<Kind>) -> Move {
        Move {
            piece_kind: self.kind,
            piece_color: self.color,
            from: self.origin_of(t),
            to: Square::at(t),
            casteling: false,
            promoting_piece: promotion,
            double_push: self.double_push,
            en_passant: self.captures is Passing,
            captured_piece: self.captured(board, t),
        }
    }

    /// The moves to square `t`: one, or the four promotions to queen, rook, bishop and knight.
    pub open spec fn moves_at(self, board: Board, t: int) -> Seq<Move> {
        if self.promotes {
            seq![
                self.move_to(board, t, Some(Kind::Queen)),
                self.move_to(board, t, Some(Kind::Rook)),
                self.move_to(board, t, Some(Kind::Bishop)),
                self.move_to(board, t, Some(Kind::Knight)),
            ]
        } else {
            seq![self.move_to(board, t, None)]
        }
    }

    /// The moves to each square, as a function of the square.
    pub open spec fn at_each(self, board: Board) -> spec_fn(int) -> Seq<Move> {
        |t: int| self.moves_at(board, t)
    }

    /// Whether every origin of a move to a square of `targets` is on the board.
    pub open spec fn fits(self, targets: u64) -> bool {
        match self.origin {
            Origin::Fixed(square) => true,
            Origin::Offset(delta) => -64 < delta < 64 && forall|t: int|
                0 <= t < 64 && #[trigger] bit(targets, t) ==> 0 <= t + delta < 64,
        }
    }
}

/// What `f` gives for each square of `squares`, in ascending order of the squares, joined.
pub open spec fn each_square(squares: u64, f: spec_fn(int) -> Seq<Move>) -> Seq<Move>
    decreases squares,
    via each_square_decreases
{
    if squares == 0 {
        Seq::empty()
    } else {
        f(lowest(squares)) + each_square(without_lowest(squares), f)
    }
}

/// What is left of a set of squares without its lowest is less than the set.
#[via_fn]
proof fn each_square_decreases(squares: u64, f: spec_fn(int) -> Seq<Move>) {
    if squares != 0 {
        lemma_without_lowest(squares);
    }
}

/// The moves of `template` to each square of `targets`, in ascending order of the squares.
pub open spec fn moves_to(board: Board, template: Template, targets: u64) -> Seq<Move> {
    each_square(targets, template.at_each(board))
}

/// Appends to `list` the moves of `template` to each square of `targets`.
pub fn emit(list: &mut Vec<Move>, board: &Board, template: Template, targets: Bitboard)
    requires
        template.fits(targets.0),
    ensures
        final(list)@ == old(list)@ + moves_to(*board, template, targets.0),
{
    let mut rest = targets;
    let ghost f = template.at_each(*board);
    while rest.0 != 0
        invariant
            template.fits(targets.0),
            f == template.at_each(*board),
            forall|t: int| 0 <= t < 64 && bit(rest.0, t) ==> bit(targets.0, t),
            list@ + each_square(rest.0, f) == old(list)@ + each_square(targets.0, f),
        decreases rest.0,
    {
        let ghost before = list@;
        let ghost was = rest.0;
        proof {
            lemma_lowest(was);
            lemma_without_lowest(was);
        }
        let to: u8 = match rest.pop_lsb() {
            Some(index) => index as u8,
            None => 0,
        };
        let from = match template.origin {
            Origin::Fixed(square) => square,
            Origin::Offset(delta) => Square::from_u8((to as i8 + delta) as u8),
        };
        let target = Square::from_u8(to);
        let captured_piece = match template.captures {
            Capture::Nothing => None,
            Capture::Target => board.get_piece_kind(target),
            Capture::Passing => Some(Kind::Pawn),
        };
        let en_passant = match template.captures {
            Capture::Passing => true,
            _ => false,
        };
        let plain = Move {
            piece_kind: template.kind,
            piece_color: template.color,
            from,
            to: target,
            casteling: false,
            promoting_piece: None,
            double_push: template.double_push,
            en_passant,
            captured_piece,
        };
        if template.promotes {
            list.push(Move { promoting_piece: Some(Kind::Queen), ..plain });
            list.push(Move { promoting_piece: Some(Kind::Rook), ..plain });
            list.push(Move { promoting_piece: Some(Kind::Bishop), ..plain });
            list.push(Move { promoting_piece: Some(Kind::Knight), ..plain });
        } else {
            list.push(plain);
        }
        proof {
            let here = template.moves_at(*board, to as int);
            assert(f(to as int) == here);
            assert(list@ =~= before + here);
            assert(each_square(was, f) == here + each_square(rest.0, f));
            assert((before + here) + each_square(rest.0, f) =~= before + (here + each_square(
                rest.0,
                f,
            )));
        }
    }
    proof {
        assert(list@ + Seq::<Move>::empty() =~= list@);
    }
}

/// The pawns of `pawns` moved one rank ahead, as `color` sees the board.
pub open spec fn forward(color: Color, pawns: u64) -> u64 {
    match color {
        Color::White => pawns << 8,
        Color::Black => pawns >> 8,
    }
}

/// The rank on which a pawn of `color` promotes.
pub open spec fn last_rank(color: Color) -> int {
    match color {
        Color::White => 7,
        Color::Black => 0,
    }
}

/// The rank on which a double push of `color` ends.
pub open spec fn double_push_rank(color: Color) -> int {
    match color {
        Color::White => 3,
        Color::Black => 4,
    }
}

/// From the destination of a pawn of `color` back to the square one rank behind it.
pub open spec fn back(color: Color) -> i8 {
    match color {
        Color::White => -8i8,
        Color::Black => 8,
    }
}

/// From the destination of a capture to the left back to its origin.
pub open spec fn back_left(color: Color) -> i8 {
    match color {
        Color::White => -7i8,
        Color::Black => 7,
    }
}

/// From the destination of a capture to the right back to its origin.
pub open spec fn back_right(color: Color) -> i8 {
    match color {
        Color::White => -9i8,
        Color::Black => 9,
    }
}

/// The squares one rank ahead of a pawn of `color` that are empty.
pub open spec fn single_pushes(board: Board, color: Color) -> u64 {
    forward(color, board.bb(color, Kind::Pawn)) & !board.occupied()
}

/// The squares where a double push of `color` ends: two empty squares ahead of a pawn, the
/// second one on the fourth rank as the side counts.
pub open spec fn double_pushes(board: Board, color: Color) -> u64 {
    forward(color, single_pushes(board, color)) & !board.occupied() & MASK_RANK[double_push_rank(
        color,
    )]
}

/// The template of the pawn moves of `color` that come from `offset` squares away.
pub open spec fn pawn_template(
    color: Color,
    offset: i8,
    promotes: bool,
    double_push: bool,
    captures: Capture,
) -> Template {
    Template {
        kind: Kind::Pawn,
        color,
        origin: Origin::Offset(offset),
        promotes,
        double_push,
        captures,
    }
}

/// The template of the moves of the piece of `kind` and `color` on square `p`.
pub open spec fn piece_template(kind: Kind, color: Color, p: int, captures: Capture) -> Template {
    Template {
        kind,
        color,
        origin: Origin::Fixed(Square::at(p)),
        promotes: false,
        double_push: false,
        captures,
    }
}

/// The single pushes of the pawns of `color`: first those that stay short of the last rank,
/// then the promotions.
pub open spec fn pawn_single_moves(board: Board, color: Color) -> Seq<Move> {
    let pushes = single_pushes(board, color);
    moves_to(
        board,
        pawn_template(color, back(color), false, false, Capture::Nothing),
        pushes & CLEAR_RANK[last_rank(color)],
    ) + moves_to(
        board,
        pawn_template(color, back(color), true, false, Capture::Nothing),
        pushes & MASK_RANK[last_rank(color)],
    )
}

/// The double pushes of the pawns of `color`.
pub open spec fn pawn_double_moves(board: Board, color: Color) -> Seq<Move> {
    moves_to(
        board,
        pawn_template(color, (2 * back(color)) as i8, false, true, Capture::Nothing),
        double_pushes(board, color),
    )
}

/// The captures of the pawns of `color` to one side, given the pattern of that side and the
/// way back from a destination: captures short of the last rank, capturing promotions, and
/// the capture in passing.
pub open spec fn pawn_capture_moves(board: Board, color: Color, pattern: u64, offset: i8) -> Seq<
    Move,
> {
    let hits = pattern & board.occupied_by(color.spec_opponent());
    moves_to(
        board,
        pawn_template(color, offset, false, false, Capture::Target),
        hits & CLEAR_RANK[last_rank(color)],
    ) + moves_to(
        board,
        pawn_template(color, offset, true, false, Capture::Target),
        hits & MASK_RANK[last_rank(color)],
    ) + moves_to(
        board,
        pawn_template(color, offset, false, false, Capture::Passing),
        pattern & board.ep_mask(),
    )
}

/// The captures to the left of the pawns of `color`.
pub open spec fn pawn_left_moves(board: Board, color: Color) -> Seq<Move> {
    pawn_capture_moves(
        board,
        color,
        pawn_left_pattern(color, board.bb(color, Kind::Pawn)),
        back_left(color),
    )
}

/// The captures to the right of the pawns of `color`.
pub open spec fn pawn_right_moves(board: Board, color: Color) -> Seq<Move> {
    pawn_capture_moves(
        board,
        color,
        pawn_right_pattern(color, board.bb(color, Kind::Pawn)),
        back_right(color),
    )
}

/// All pawn moves of `color`: single pushes, double pushes, captures to the left and to
/// the right.
pub open spec fn pawn_moves(board: Board, color: Color) -> Seq<Move> {
    pawn_single_moves(board, color) + pawn_double_moves(board, color) + pawn_left_moves(
        board,
        color,
    ) + pawn_right_moves(board, color)
}

/// The moves of the piece of `kind` and `color` from square `p` to the squares of `reach`:
/// first to the empty ones, then the captures.
pub open spec fn quiet_then_captures(board: Board, kind: Kind, color: Color, p: int, reach: u64) -> Seq<
    Move,
> {
    moves_to(board, piece_template(kind, color, p, Capture::Nothing), reach & !board.occupied())
        + moves_to(
        board,
        piece_template(kind, color, p, Capture::Target),
        reach & board.occupied_by(color.spec_opponent()),
    )
}

/// The moves of a slider of `color` on `p` along the lines of `line`, written as moves of a
/// piece of `kind`: every attacked square that `color` does not occupy.
pub open spec fn line_moves(board: Board, kind: Kind, color: Color, p: int, line: Kind) -> Seq<
    Move,
> {
    moves_to(
        board,
        piece_template(kind, color, p, Capture::Target),
        slider_attack(line, p, board.occupied()) & !board.occupied_by(color),
    )
}

/// The moves of the knight, bishop, rook or queen of `color` on square `p`.
pub open spec fn moves_from(board: Board, kind: Kind, color: Color, p: int) -> Seq<Move> {
    match kind {
        Kind::Knight => quiet_then_captures(board, kind, color, p, knight_pattern(one(p))),
        Kind::Bishop => line_moves(board, kind, color, p, Kind::Bishop),
        Kind::Rook => line_moves(board, kind, color, p, Kind::Rook),
        Kind::Queen => line_moves(board, kind, color, p, Kind::Rook) + line_moves(
            board,
            kind,
            color,
            p,
            Kind::Bishop,
        ),
        _ => Seq::empty(),
    }
}

/// The moves of the piece on each square, as a function of the square.
pub open spec fn from_each(board: Board, kind: Kind, color: Color) -> spec_fn(int) -> Seq<Move> {
    |p: int| moves_from(board, kind, color, p)
}

/// The moves of all knights, bishops, rooks or queens of `color`, piece by piece in
/// ascending order of their squares.
pub open spec fn piece_moves(board: Board, kind: Kind, color: Color) -> Seq<Move> {
    each_square(board.bb(color, kind), from_each(board, kind, color))
}

/// The steps of the king of `color`; with several kings, all steps count as made by the
/// lowest one.
pub open spec fn king_step_moves(board: Board, color: Color) -> Seq<Move> {
    let kings = board.bb(color, Kind::King);
    if kings == 0 {
        Seq::empty()
    } else {
        quiet_then_captures(board, Kind::King, color, lowest(kings), king_pattern(kings))
    }
}

/// The king's square before castling.
pub open spec fn castle_from(color: Color) -> Square {
    match color {
        Color::White => Square::E1,
        Color::Black => Square::E8,
    }
}

/// The king's square after castling.
pub open spec fn castle_to(color: Color, kingside: bool) -> Square {
    match (color, kingside) {
        (Color::White, true) => Square::G1,
        (Color::White, false) => Square::C1,
        (Color::Black, true) => Square::G8,
        (Color::Black, false) => Square::C8,
    }
}

/// The corner of the rook that castles.
pub open spec fn castle_corner(color: Color, kingside: bool) -> Square {
    match (color, kingside) {
        (Color::White, true) => Square::H1,
        (Color::White, false) => Square::A1,
        (Color::Black, true) => Square::H8,
        (Color::Black, false) => Square::A8,
    }
}

/// Whether `color` holds the right to castle on that side.
pub open spec fn has_right(board: Board, color: Color, kingside: bool) -> bool {
    match (color, kingside) {
        (Color::White, true) => board.casteling_rights.white_kingside,
        (Color::White, false) => board.casteling_rights.white_queenside,
        (Color::Black, true) => board.casteling_rights.black_kingside,
        (Color::Black, false) => board.casteling_rights.black_queenside,
    }
}

/// Whether the squares between king and rook are empty.
pub open spec fn castle_way_free(board: Board, color: Color, kingside: bool) -> bool {
    match (color, kingside) {
        (Color::White, true) => board.piece_on(Square::F1.index()).is_none() && board.piece_on(
            Square::G1.index(),
        ).is_none(),
        (Color::White, false) => board.piece_on(Square::B1.index()).is_none() && board.piece_on(
            Square::C1.index(),
        ).is_none() && board.piece_on(Square::D1.index()).is_none(),
        (Color::Black, true) => board.piece_on(Square::F8.index()).is_none() && board.piece_on(
            Square::G8.index(),
        ).is_none(),
        (Color::Black, false) => board.piece_on(Square::B8.index()).is_none() && board.piece_on(
            Square::C8.index(),
        ).is_none() && board.piece_on(Square::D8.index()).is_none(),
    }
}

/// Whether castling of `color` on that side is pseudo-legal: the right is held, the squares
/// between king and rook are empty and a rook of `color` stands on the corner.
pub open spec fn can_castle(board: Board, color: Color, kingside: bool) -> bool {
    &&& has_right(board, color, kingside)
    &&& castle_way_free(board, color, kingside)
    &&& match board.piece_on(castle_corner(color, kingside).index()) {
        Some(piece) => piece.color == color && piece.kind == Kind::Rook,
        None => false,
    }
}

/// The castling move of `color` on that side.
pub open spec fn castle_move(color: Color, kingside: bool) -> Move {
    Move {
        piece_kind: Kind::King,
        piece_color: color,
        from: castle_from(color),
        to: castle_to(color, kingside),
        casteling: true,
        promoting_piece: None,
        double_push: false,
        en_passant: false,
        captured_piece: None,
    }
}

/// The castling move of `color` on that side, if it is pseudo-legal.
pub open spec fn castle_moves(board: Board, color: Color, kingside: bool) -> Seq<Move> {
    if can_castle(board, color, kingside) {
        seq![castle_move(color, kingside)]
    } else {
        Seq::empty()
    }
}

/// The king moves of `color`: steps, then castling on the king's side, then on the queen's.
pub open spec fn king_moves_of(board: Board, color: Color) -> Seq<Move> {
    king_step_moves(board, color) + castle_moves(board, color, true) + castle_moves(
        board,
        color,
        false,
    )
}

/// The pseudo-legal moves of `color`: pawns, knights, rooks, bishops, queens, king.
pub open spec fn pseudo_moves(board: Board, color: Color) -> Seq<Move> {
    pawn_moves(board, color) + piece_moves(board, Kind::Knight, color) + piece_moves(
        board,
        Kind::Rook,
        color,
    ) + piece_moves(board, Kind::Bishop, color) + piece_moves(board, Kind::Queen, color)
        + king_moves_of(board, color)
}

/// Bit `t` of a set of pawns moved one rank ahead.
pub proof fn lemma_forward(color: Color, pawns: u64, t: int)
    requires
        0 <= t < 64,
    ensures
        bit(forward(color, pawns), t) == (0 <= t + back(color) < 64 && bit(pawns, t + back(color))),
{
    lemma_bit_shl(pawns, 8, t);
    lemma_bit_shr(pawns, 8, t);
}

/// Every single push comes from a square of the board, and every double push too.
proof fn lemma_pushes_fit(board: Board, color: Color, rank_mask: u64)
    ensures
        pawn_template(color, back(color), false, false, Capture::Nothing).fits(
            single_pushes(board, color) & rank_mask,
        ),
        pawn_template(color, back(color), true, false, Capture::Nothing).fits(
            single_pushes(board, color) & rank_mask,
        ),
        pawn_template(color, (2 * back(color)) as i8, false, true, Capture::Nothing).fits(
            double_pushes(board, color),
        ),
{
    let pawns = board.bb(color, Kind::Pawn);
    let free = !board.occupied();
    let single = single_pushes(board, color);
    assert forall|t: int| 0 <= t < 64 && bit(single, t) implies 0 <= t + back(color) < 64 by {
        lemma_bit_ops(forward(color, pawns), free, t);
        lemma_forward(color, pawns, t);
    }
    assert forall|t: int| 0 <= t < 64 && #[trigger] bit(single & rank_mask, t) implies 0 <= t
        + back(color) < 64 by {
        lemma_bit_ops(single, rank_mask, t);
    }
    let double = double_pushes(board, color);
    assert forall|t: int| 0 <= t < 64 && #[trigger] bit(double, t) implies 0 <= t + 2 * back(
        color,
    ) < 64 by {
        lemma_bit_ops(forward(color, single) & free, MASK_RANK[double_push_rank(color)], t);
        lemma_bit_ops(forward(color, single), free, t);
        lemma_forward(color, single, t);
        assert(bit(single, t + back(color)));
    }
}

/// A template that fits a set of targets fits every part of it.
proof fn lemma_fits_part(template: Template, targets: u64, other: u64)
    requires
        template.fits(targets),
    ensures
        template.fits(targets & other),
{
    assert forall|t: int| 0 <= t < 64 && #[trigger] bit(targets & other, t) implies bit(
        targets,
        t,
    ) by {
        lemma_bit_ops(targets, other, t);
    }
}

/// Every pawn capture comes from a square of the board.
proof fn lemma_captures_fit(color: Color, pawns: u64, left: bool, template: Template)
    requires
        template.origin == Origin::Offset(
            if left {
                back_left(color)
            } else {
                back_right(color)
            },
        ),
    ensures
        template.fits(
            if left {
                pawn_left_pattern(color, pawns)
            } else {
                pawn_right_pattern(color, pawns)
            },
        ),
{
    let pattern = if left {
        pawn_left_pattern(color, pawns)
    } else {
        pawn_right_pattern(color, pawns)
    };
    assert forall|t: int| 0 <= t < 64 && bit(pattern, t) implies 0 <= t + (if left {
        back_left(color)
    } else {
        back_right(color)
    }) < 64 by {
        lemma_pawn_patterns(color, pawns, t);
    }
}

/// Joining sequences one after the other is joining the first with the join of the rest.
proof fn lemma_join_six(
    start: Seq<Move>,
    a: Seq<Move>,
    b: Seq<Move>,
    c: Seq<Move>,
    d: Seq<Move>,
    e: Seq<Move>,
    f: Seq<Move>,
)
    ensures
        start + a + b + c + d + e + f == start + (a + b + c + d + e + f),
{
    assert(start + a + b + c + d + e + f =~= start + (a + b + c + d + e + f));
}

/// The generator of the moves of one position.
pub struct MoveGen<'a> {
    /// The position.
    pub board: &'a Board,
    /// The magic tables that resolve sliding attacks.
    pub magics: &'a Magics,
    /// The pseudo-legal moves generated so far.
    pub pseudo_move_list: Vec<Move>,
    /// The legal moves generated so far.
    pub legal_move_list: Vec<Move>,
}

/// What the attack query computes decides whether a piece of `by` attacks square `t`: the
/// squares attacked by pawns, kings and knights, and the bishop and rook attacks seen from
/// `t` itself, met with the pieces that move that way.
proof fn lemma_attack_query(board: Board, by: Color, t: int)
    requires
        0 <= t < 64,
    ensures
        board.attacked(t, by) == ({
            let near = pawn_attack_pattern(by, board.bb(by, Kind::Pawn)) | king_pattern(
                board.bb(by, Kind::King),
            ) | knight_pattern(board.bb(by, Kind::Knight));
            let queens = board.bb(by, Kind::Queen);
            let diagonal = slider_attack(Kind::Bishop, t, board.occupied());
            let straight = slider_attack(Kind::Rook, t, board.occupied());
            ||| near & one(t) != 0
            ||| diagonal & (board.bb(by, Kind::Bishop) | queens) != 0
            ||| straight & (board.bb(by, Kind::Rook) | queens) != 0
        }),
{
    let occ = board.occupied();
    let pawns = board.bb(by, Kind::Pawn);
    let kings = board.bb(by, Kind::King);
    let knights = board.bb(by, Kind::Knight);
    let bishops = board.bb(by, Kind::Bishop);
    let rooks = board.bb(by, Kind::Rook);
    let queens = board.bb(by, Kind::Queen);
    let pp = pawn_attack_pattern(by, pawns);
    let kp = king_pattern(kings);
    let np = knight_pattern(knights);
    let near = pp | kp | np;
    let diagonal = slider_attack(Kind::Bishop, t, occ);
    let straight = slider_attack(Kind::Rook, t, occ);
    let dm = diagonal & (bishops | queens);
    let sm = straight & (rooks | queens);
    crate::bitboard::lemma_bit_test(near, t);
    lemma_bit_ops(pp | kp, np, t);
    lemma_bit_ops(pp, kp, t);
    lemma_pawn_attack_pattern(by, pawns, t);
    lemma_king_pattern(kings, t);
    lemma_knight_pattern(knights, t);
    lemma_bit_nonzero(dm);
    lemma_bit_nonzero(sm);
    lemma_squares(|u: int| slider_sees(Kind::Bishop, occ, t, u));
    lemma_squares(|u: int| slider_sees(Kind::Rook, occ, t, u));
    assert forall|p: int| 0 <= p < 64 implies (bit(dm, p) == ((bit(bishops, p) || bit(queens, p))
        && bishop_sees(occ, p, t))) && (bit(sm, p) == ((bit(rooks, p) || bit(queens, p))
        && rook_sees(occ, p, t))) by {
        lemma_bit_ops(diagonal, bishops | queens, p);
        lemma_bit_ops(bishops, queens, p);
        lemma_bit_ops(straight, rooks | queens, p);
        lemma_bit_ops(rooks, queens, p);
        lemma_slider_sees_symmetric(Kind::Bishop, occ, t, p);
        lemma_slider_sees_symmetric(Kind::Rook, occ, t, p);
    }
    let found = near & one(t) != 0 || dm != 0 || sm != 0;
    if found {
        let p = if bit(pp, t) {
            choose|p: int| 0 <= p < 64 && bit(pawns, p) && #[trigger] pawn_attacks(by, p, t)
        } else if bit(kp, t) {
            choose|p: int| 0 <= p < 64 && bit(kings, p) && #[trigger] king_step(p, t)
        } else if bit(np, t) {
            choose|p: int| 0 <= p < 64 && bit(knights, p) && #[trigger] knight_jump(p, t)
        } else if dm != 0 {
            choose|p: int| 0 <= p < 64 && bit(dm, p)
        } else {
            choose|p: int| 0 <= p < 64 && bit(sm, p)
        };
        assert(board.attacks_from(by, p, t));
    }
    if board.attacked(t, by) {
        let p = choose|p: int| 0 <= p < 64 && #[trigger] board.attacks_from(by, p, t);
        if bit(pawns, p) && pawn_attacks(by, p, t) {
            assert(bit(pp, t));
        } else if bit(knights, p) && knight_jump(p, t) {
            assert(bit(np, t));
        } else if bit(kings, p) && king_step(p, t) {
            assert(bit(kp, t));
        } else if (bit(bishops, p) || bit(queens, p)) && bishop_sees(occ, p, t) {
            assert(bit(dm, p));
        } else {
            assert(bit(sm, p));
        }
    }
}

impl<'a> MoveGen<'a> {
    /// A generator for `board` with empty move lists.
    pub fn new(board: &'a Board, magics: &'a Magics) -> (r: Self)
        ensures
            r.board == board,
            r.magics == magics,
            r.pseudo_move_list@.len() == 0,
            r.legal_move_list@.len() == 0,
    {
        MoveGen {
            board,
            magics,
            pseudo_move_list: Vec::with_capacity(100),
            legal_move_list: Vec::with_capacity(100),
        }
    }

    /// Whether this generator is `before` with `added` appended to its pseudo-legal moves.
    pub open spec fn extends(&self, before: &MoveGen<'a>, added: Seq<Move>) -> bool {
        &&& self.board == before.board
        &&& self.magics == before.magics
        &&& self.legal_move_list == before.legal_move_list
        &&& self.pseudo_move_list@ == before.pseudo_move_list@ + added
    }

    /// The pseudo-legal moves generated so far.
    pub fn get_pseudo_moves(&self) -> (r: &Vec<Move>)
        ensures
            r == &self.pseudo_move_list,
    {
        &self.pseudo_move_list
    }

    /// The legal moves generated so far.
    pub fn get_legal_moves(&self) -> (r: &Vec<Move>)
        ensures
            r == &self.legal_move_list,
    {
        &self.legal_move_list
    }

    /// Appends the single pushes of the pawns of `color`.
    fn pawn_single(&mut self, color: Color)
        ensures
            final(self).extends(old(self), pawn_single_moves(*old(self).board, color)),
    {
        let board = self.board;
        let pawns = board.bitboard_of(color, Kind::Pawn).0;
        let free = !board.all_pieces().0;
        let (pushes, last, offset): (u64, usize, i8) = match color {
            Color::White => ((pawns << 8) & free, 7, -8),
            Color::Black => ((pawns >> 8) & free, 0, 8),
        };
        let quiet = Template {
            kind: Kind::Pawn,
            color,
            origin: Origin::Offset(offset),
            promotes: false,
            double_push: false,
            captures: Capture::Nothing,
        };
        let promotion = Template { promotes: true, ..quiet };
        proof {
            lemma_pushes_fit(*board, color, CLEAR_RANK[last as int]);
            lemma_pushes_fit(*board, color, MASK_RANK[last as int]);
        }
        let ghost start = self.pseudo_move_list@;
        emit(&mut self.pseudo_move_list, board, quiet, Bitboard(pushes & CLEAR_RANK[last]));
        let ghost first = moves_to(*board, quiet, pushes & CLEAR_RANK[last as int]);
        emit(&mut self.pseudo_move_list, board, promotion, Bitboard(pushes & MASK_RANK[last]));
        proof {
            let second = moves_to(*board, promotion, pushes & MASK_RANK[last as int]);
            assert((start + first) + second =~= start + (first + second));
        }
    }

    /// Appends the double pushes of the pawns of `color`.
    fn pawn_double(&mut self, color: Color)
        ensures
            final(self).extends(old(self), pawn_double_moves(*old(self).board, color)),
    {
        let board = self.board;
        let pawns = board.bitboard_of(color, Kind::Pawn).0;
        let free = !board.all_pieces().0;
        let (pushes, offset): (u64, i8) = match color {
            Color::White => (((((pawns << 8) & free) << 8) & free) & MASK_RANK[3], -16),
            Color::Black => (((((pawns >> 8) & free) >> 8) & free) & MASK_RANK[4], 16),
        };
        let template = Template {
            kind: Kind::Pawn,
            color,
            origin: Origin::Offset(offset),
            promotes: false,
            double_push: true,
            captures: Capture::Nothing,
        };
        proof {
            lemma_pushes_fit(*board, color, 0);
        }
        emit(&mut self.pseudo_move_list, board, template, Bitboard(pushes));
    }

    /// Appends the captures of the pawns of `color` to one side.
    fn pawn_capture(&mut self, color: Color, left: bool)
        ensures
            final(self).extends(
                old(self),
                if left {
                    pawn_left_moves(*old(self).board, color)
                } else {
                    pawn_right_moves(*old(self).board, color)
                },
            ),
    {
        let board = self.board;
        let pawns = board.bitboard_of(color, Kind::Pawn).0;
        let (pattern, last, offset, enemy): (u64, usize, i8, u64) = match (color, left) {
            (Color::White, true) => ((pawns << 7) & CLEAR_FILE[7], 7, -7, board.all_black_pieces().0),
            (Color::White, false) => (
                (pawns << 9) & CLEAR_FILE[0],
                7,
                -9,
                board.all_black_pieces().0,
            ),
            (Color::Black, true) => ((pawns >> 7) & CLEAR_FILE[0], 0, 7, board.all_white_pieces().0),
            (Color::Black, false) => (
                (pawns >> 9) & CLEAR_FILE[7],
                0,
                9,
                board.all_white_pieces().0,
            ),
        };
        let hits = pattern & enemy;
        let passing = pattern & board.get_en_passant().0;
        let regular = Template {
            kind: Kind::Pawn,
            color,
            origin: Origin::Offset(offset),
            promotes: false,
            double_push: false,
            captures: Capture::Target,
        };
        let promotion = Template { promotes: true, ..regular };
        let in_passing = Template { captures: Capture::Passing, ..regular };
        proof {
            let spec_pawns = board.bb(color, Kind::Pawn);
            lemma_captures_fit(color, spec_pawns, left, regular);
            lemma_captures_fit(color, spec_pawns, left, promotion);
            lemma_captures_fit(color, spec_pawns, left, in_passing);
            lemma_fits_part(regular, pattern, enemy);
            lemma_fits_part(regular, hits, CLEAR_RANK[last as int]);
            lemma_fits_part(promotion, pattern, enemy);
            lemma_fits_part(promotion, hits, MASK_RANK[last as int]);
            lemma_fits_part(in_passing, pattern, board.ep_mask());
        }
        let ghost start = self.pseudo_move_list@;
        emit(&mut self.pseudo_move_list, board, regular, Bitboard(hits & CLEAR_RANK[last]));
        let ghost first = moves_to(*board, regular, hits & CLEAR_RANK[last as int]);
        emit(&mut self.pseudo_move_list, board, promotion, Bitboard(hits & MASK_RANK[last]));
        let ghost second = moves_to(*board, promotion, hits & MASK_RANK[last as int]);
        emit(&mut self.pseudo_move_list, board, in_passing, Bitboard(passing));
        proof {
            let third = moves_to(*board, in_passing, passing);
            assert(((start + first) + second) + third =~= start + (first + second + third));
        }
    }

    /// Appends the moves of the piece of `kind` and `color` on `position` to the squares of
    /// `reach`: first to the empty ones, then the captures.
    fn quiet_and_captures(&mut self, kind: Kind, color: Color, position: Square, reach: Bitboard)
        ensures
            final(self).extends(
                old(self),
                quiet_then_captures(*old(self).board, kind, color, position.index(), reach.0),
            ),
    {
        let board = self.board;
        let enemy = match color {
            Color::White => board.all_black_pieces().0,
            Color::Black => board.all_white_pieces().0,
        };
        let quiet = Template {
            kind,
            color,
            origin: Origin::Fixed(position),
            promotes: false,
            double_push: false,
            captures: Capture::Nothing,
        };
        let capture = Template { captures: Capture::Target, ..quiet };
        proof {
            position.lemma_index();
        }
        let ghost start = self.pseudo_move_list@;
        emit(&mut self.pseudo_move_list, board, quiet, Bitboard(reach.0 & !board.all_pieces().0));
        let ghost first = moves_to(*board, quiet, reach.0 & !board.occupied());
        emit(&mut self.pseudo_move_list, board, capture, Bitboard(reach.0 & enemy));
        proof {
            let second = moves_to(*board, capture, reach.0 & enemy);
            assert((start + first) + second =~= start + (first + second));
        }
    }

    /// Appends the moves of a slider of `color` on `position` along the lines of `line`,
    /// written as moves of a piece of `kind`.
    fn along_lines(&mut self, kind: Kind, color: Color, position: Square, line: Kind)
        requires
            old(self).magics.valid(),
            line == Kind::Rook || line == Kind::Bishop,
        ensures
            final(self).extends(
                old(self),
                line_moves(*old(self).board, kind, color, position.index(), line),
            ),
    {
        let board = self.board;
        let own = match color {
            Color::White => board.all_white_pieces().0,
            Color::Black => board.all_black_pieces().0,
        };
        let attack = match line {
            Kind::Rook => self.magics.rook_attack(position.to_usize(), board.all_pieces()),
            _ => self.magics.bishop_attack(position.to_usize(), board.all_pieces()),
        };
        let template = Template {
            kind,
            color,
            origin: Origin::Fixed(position),
            promotes: false,
            double_push: false,
            captures: Capture::Target,
        };
        proof {
            position.lemma_index();
        }
        emit(&mut self.pseudo_move_list, board, template, Bitboard(attack.0 & !own));
    }

    /// Appends the moves of the knights, bishops, rooks or queens of `color`, piece by piece.
    fn pieces(&mut self, kind: Kind, color: Color)
        requires
            kind == Kind::Knight || old(self).magics.valid(),
        ensures
            final(self).extends(old(self), piece_moves(*old(self).board, kind, color)),
    {
        let board = self.board;
        let all = board.bitboard_of(color, kind);
        let mut rest = all;
        let ghost f = from_each(*board, kind, color);
        let ghost start = self.pseudo_move_list@;
        while rest.0 != 0
            invariant
                kind == Kind::Knight || self.magics.valid(),
                self.board == old(self).board,
                self.magics == old(self).magics,
                self.legal_move_list == old(self).legal_move_list,
                board == self.board,
                f == from_each(*board, kind, color),
                self.pseudo_move_list@ + each_square(rest.0, f) == start + each_square(all.0, f),
            decreases rest.0,
        {
            let ghost before = self.pseudo_move_list@;
            let ghost was = rest.0;
            proof {
                lemma_lowest(was);
                lemma_without_lowest(was);
            }
            let position = match rest.pop_lsb() {
                Some(index) => Square::from_usize(index),
                None => Square::A1,
            };
            let ghost p = position.index();
            match kind {
                Kind::Knight => {
                    let reach = knight_moves(square_mask(position));
                    self.quiet_and_captures(kind, color, position, reach);
                },
                Kind::Bishop => {
                    self.along_lines(kind, color, position, Kind::Bishop);
                },
                Kind::Rook => {
                    self.along_lines(kind, color, position, Kind::Rook);
                },
                Kind::Queen => {
                    self.along_lines(kind, color, position, Kind::Rook);
                    proof {
                        assert(self.pseudo_move_list@ == before + line_moves(
                            *board,
                            kind,
                            color,
                            p,
                            Kind::Rook,
                        ));
                    }
                    self.along_lines(kind, color, position, Kind::Bishop);
                    proof {
                        let a = line_moves(*board, kind, color, p, Kind::Rook);
                        let b = line_moves(*board, kind, color, p, Kind::Bishop);
                        assert((before + a) + b =~= before + (a + b));
                    }
                },
                _ => {
                    proof {
                        assert(before + Seq::<Move>::empty() =~= before);
                    }
                },
            }
            proof {
                let here = moves_from(*board, kind, color, p);
                assert(f(p) == here);
                assert(self.pseudo_move_list@ == before + here);
                assert(each_square(was, f) == here + each_square(rest.0, f));
                assert((before + here) + each_square(rest.0, f) =~= before + (here + each_square(
                    rest.0,
                    f,
                )));
            }
        }
        proof {
            assert(self.pseudo_move_list@ + Seq::<Move>::empty() =~= self.pseudo_move_list@);
        }
    }

    /// Appends the castling move of `color` on one side if the right is held, the squares
    /// between king and rook are empty and a rook of `color` stands on the corner.
    fn castle(&mut self, color: Color, kingside: bool)
        ensures
            final(self).extends(old(self), castle_moves(*old(self).board, color, kingside)),
    {
        let board = self.board;
        let ghost start = self.pseudo_move_list@;
        let (held, from, to, corner, near, middle, far) = match (color, kingside) {
            (Color::White, true) => (
                board.casteling_rights.white_kingside,
                Square::E1,
                Square::G1,
                Square::H1,
                Square::F1,
                Square::G1,
                Square::G1,
            ),
            (Color::White, false) => (
                board.casteling_rights.white_queenside,
                Square::E1,
                Square::C1,
                Square::A1,
                Square::B1,
                Square::C1,
                Square::D1,
            ),
            (Color::Black, true) => (
                board.casteling_rights.black_kingside,
                Square::E8,
                Square::G8,
                Square::H8,
                Square::F8,
                Square::G8,
                Square::G8,
            ),
            (Color::Black, false) => (
                board.casteling_rights.black_queenside,
                Square::E8,
                Square::C8,
                Square::A8,
                Square::B8,
                Square::C8,
                Square::D8,
            ),
        };
        let mut possible = false;
        if held {
            let free = board.get_piece(near).is_none() && board.get_piece(middle).is_none()
                && board.get_piece(far).is_none();
            let rook_there = match board.get_piece(corner) {
                Some(piece) => (match piece.color {
                    Color::White => match color {
                        Color::White => true,
                        Color::Black => false,
                    },
                    Color::Black => match color {
                        Color::White => false,
                        Color::Black => true,
                    },
                }) && (match piece.kind {
                    Kind::Rook => true,
                    _ => false,
                }),
                None => false,
            };
            possible = free && rook_there;
        }
        if possible {
            self.pseudo_move_list.push(
                Move {
                    piece_kind: Kind::King,
                    piece_color: color,
                    from,
                    to,
                    casteling: true,
                    promoting_piece: None,
                    double_push: false,
                    en_passant: false,
                    captured_piece: None,
                },
            );
            proof {
                assert(self.pseudo_move_list@ =~= start + seq![castle_move(color, kingside)]);
            }
        } else {
            proof {
                assert(start + Seq::<Move>::empty() =~= start);
            }
        }
    }

    /// Appends the moves of the king of `color`: steps to empty squares, captures, castling
    /// on the king's side and on the queen's side.
    fn king(&mut self, color: Color)
        ensures
            final(self).extends(old(self), king_moves_of(*old(self).board, color)),
    {
        let board = self.board;
        let ghost start = self.pseudo_move_list@;
        let kings = board.bitboard_of(color, Kind::King);
        if kings.0 != 0 {
            let mut lowest_king = kings;
            proof {
                lemma_lowest(kings.0);
            }
            let position = match lowest_king.pop_lsb() {
                Some(index) => Square::from_usize(index),
                None => Square::A1,
            };
            self.quiet_and_captures(Kind::King, color, position, king_moves(kings));
        } else {
            proof {
                assert(start + Seq::<Move>::empty() =~= start);
            }
        }
        self.castle(color, true);
        self.castle(color, false);
        proof {
            let a = king_step_moves(*board, color);
            let b = castle_moves(*board, color, true);
            let c = castle_moves(*board, color, false);
            assert(((start + a) + b) + c =~= start + (a + b + c));
        }
    }

    /// Appends the single pushes of the white pawns, promotions last.
    pub fn gen_white_pawn_single_move(&mut self)
        ensures
            final(self).extends(old(self), pawn_single_moves(*old(self).board, Color::White)),
    {
        self.pawn_single(Color::White);
    }

    /// Appends the double pushes of the white pawns.
    pub fn gen_white_pawn_double_move(&mut self)
        ensures
            final(self).extends(old(self), pawn_double_moves(*old(self).board, Color::White)),
    {
        self.pawn_double(Color::White);
    }

    /// Appends the captures to the left of the white pawns: plain ones, promotions, then the
    /// capture in passing.
    pub fn gen_white_pawn_left_attack(&mut self)
        ensures
            final(self).extends(old(self), pawn_left_moves(*old(self).board, Color::White)),
    {
        self.pawn_capture(Color::White, true);
    }

    /// Appends the captures to the right of the white pawns: plain ones, promotions, then the
    /// capture in passing.
    pub fn gen_white_pawn_right_attack(&mut self)
        ensures
            final(self).extends(old(self), pawn_right_moves(*old(self).board, Color::White)),
    {
        self.pawn_capture(Color::White, false);
    }

    /// Appends all moves of the white pawns.
    pub fn gen_white_pawns_moves(&mut self)
        ensures
            final(self).extends(old(self), pawn_moves(*old(self).board, Color::White)),
    {
        let ghost start = self.pseudo_move_list@;
        let ghost board = *self.board;
        self.gen_white_pawn_single_move();
        self.gen_white_pawn_double_move();
        self.gen_white_pawn_left_attack();
        self.gen_white_pawn_right_attack();
        proof {
            let a = pawn_single_moves(board, Color::White);
            let b = pawn_double_moves(board, Color::White);
            let c = pawn_left_moves(board, Color::White);
            let d = pawn_right_moves(board, Color::White);
            assert((((start + a) + b) + c) + d =~= start + (a + b + c + d));
        }
    }

    /// Appends the moves of the white king: steps to empty squares, captures, castling.
    pub fn gen_white_king_moves(&mut self)
        ensures
            final(self).extends(old(self), king_moves_of(*old(self).board, Color::White)),
    {
        self.king(Color::White);
    }

    /// Appends the moves of the white knights, piece by piece.
    pub fn gen_white_knight_moves(&mut self)
        ensures
            final(self).extends(
                old(self),
                piece_moves(*old(self).board, Kind::Knight, Color::White),
            ),
    {
        self.pieces(Kind::Knight, Color::White);
    }

    /// Appends the moves of the white bishops, piece by piece.
    pub fn gen_white_bishop_moves(&mut self)
        requires
            old(self).magics.valid(),
        ensures
            final(self).extends(
                old(self),
                piece_moves(*old(self).board, Kind::Bishop, Color::White),
            ),
    {
        self.pieces(Kind::Bishop, Color::White);
    }

    /// Appends the moves of the white rooks, piece by piece.
    pub fn gen_white_rook_moves(&mut self)
        requires
            old(self).magics.valid(),
        ensures
            final(self).extends(old(self), piece_moves(*old(self).board, Kind::Rook, Color::White)),
    {
        self.pieces(Kind::Rook, Color::White);
    }

    /// Appends the moves of the white queens, piece by piece.
    pub fn gen_white_queen_moves(&mut self)
        requires
            old(self).magics.valid(),
        ensures
            final(self).extends(
                old(self),
                piece_moves(*old(self).board, Kind::Queen, Color::White),
            ),
    {
        self.pieces(Kind::Queen, Color::White);
    }

    /// Appends every pseudo-legal move of White.
    pub fn gen_white_moves(&mut self)
        requires
            old(self).magics.valid(),
        ensures
            final(self).extends(old(self), pseudo_moves(*old(self).board, Color::White)),
    {
        let ghost start = self.pseudo_move_list@;
        let ghost board = *self.board;
        let ghost a = pawn_moves(board, Color::White);
        let ghost b = piece_moves(board, Kind::Knight, Color::White);
        let ghost c = piece_moves(board, Kind::Rook, Color::White);
        let ghost d = piece_moves(board, Kind::Bishop, Color::White);
        let ghost e = piece_moves(board, Kind::Queen, Color::White);
        let ghost f = king_moves_of(board, Color::White);
        self.gen_white_pawns_moves();
        assert(self.pseudo_move_list@ == start + a);
        self.gen_white_knight_moves();
        assert(self.pseudo_move_list@ == start + a + b);
        self.gen_white_rook_moves();
        assert(self.pseudo_move_list@ == start + a + b + c);
        self.gen_white_bishop_moves();
        assert(self.pseudo_move_list@ == start + a + b + c + d);
        self.gen_white_queen_moves();
        assert(self.pseudo_move_list@ == start + a + b + c + d + e);
        self.gen_white_king_moves();
        assert(self.pseudo_move_list@ == start + a + b + c + d + e + f);
        proof {
            lemma_join_six(start, a, b, c, d, e, f);
        }
    }

    /// Appends the single pushes of the black pawns, promotions last.
    pub fn gen_black_pawn_single_move(&mut self)
        ensures
            final(self).extends(old(self), pawn_single_moves(*old(self).board, Color::Black)),
    {
        self.pawn_single(Color::Black);
    }

    /// Appends the double pushes of the black pawns.
    pub fn gen_black_pawn_double_move(&mut self)
        ensures
            final(self).extends(old(self), pawn_double_moves(*old(self).board, Color::Black)),
    {
        self.pawn_double(Color::Black);
    }

    /// Appends the captures to the left of the black pawns: plain ones, promotions, then the
    /// capture in passing.
    pub fn gen_black_pawn_left_attack(&mut self)
        ensures
            final(self).extends(old(self), pawn_left_moves(*old(self).board, Color::Black)),
    {
        self.pawn_capture(Color::Black, true);
    }

    /// Appends the captures to the right of the black pawns: plain ones, promotions, then the
    /// capture in passing.
    pub fn gen_black_pawn_right_attack(&mut self)
        ensures
            final(self).extends(old(self), pawn_right_moves(*old(self).board, Color::Black)),
    {
        self.pawn_capture(Color::Black, false);
    }

    /// Appends all moves of the black pawns.
    pub fn gen_black_pawns_moves(&mut self)
        ensures
            final(self).extends(old(self), pawn_moves(*old(self).board, Color::Black)),
    {
        let ghost start = self.pseudo_move_list@;
        let ghost board = *self.board;
        self.gen_black_pawn_single_move();
        self.gen_black_pawn_double_move();
        self.gen_black_pawn_left_attack();
        self.gen_black_pawn_right_attack();
        proof {
            let a = pawn_single_moves(board, Color::Black);
            let b = pawn_double_moves(board, Color::Black);
            let c = pawn_left_moves(board, Color::Black);
            let d = pawn_right_moves(board, Color::Black);
            assert((((start + a) + b) + c) + d =~= start + (a + b + c + d));
        }
    }

    /// Appends the moves of the black king: steps to empty squares, captures, castling.
    pub fn gen_black_king_moves(&mut self)
        ensures
            final(self).extends(old(self), king_moves_of(*old(self).board, Color::Black)),
    {
        self.king(Color::Black);
    }

    /// Appends the moves of the black knights, piece by piece.
    pub fn gen_black_knight_moves(&mut self)
        ensures
            final(self).extends(
                old(self),
                piece_moves(*old(self).board, Kind::Knight, Color::Black),
            ),
    {
        self.pieces(Kind::Knight, Color::Black);
    }

    /// Appends the moves of the black bishops, piece by piece.
    pub fn gen_black_bishop_moves(&mut self)
        requires
            old(self).magics.valid(),
        ensures
            final(self).extends(
                old(self),
                piece_moves(*old(self).board, Kind::Bishop, Color::Black),
            ),
    {
        self.pieces(Kind::Bishop, Color::Black);
    }

    /// Appends the moves of the black rooks, piece by piece.
    pub fn gen_black_rook_moves(&mut self)
        requires
            old(self).magics.valid(),
        ensures
            final(self).extends(old(self), piece_moves(*old(self).board, Kind::Rook, Color::Black)),
    {
        self.pieces(Kind::Rook, Color::Black);
    }

    /// Appends the moves of the black queens, piece by piece.
    pub fn gen_black_queen_moves(&mut self)
        requires
            old(self).magics.valid(),
        ensures
            final(self).extends(
                old(self),
                piece_moves(*old(self).board, Kind::Queen, Color::Black),
            ),
    {
        self.pieces(Kind::Queen, Color::Black);
    }

    /// Appends every pseudo-legal move of Black.
    pub fn gen_black_moves(&mut self)
        requires
            old(self).magics.valid(),
        ensures
            final(self).extends(old(self), pseudo_moves(*old(self).board, Color::Black)),
    {
        let ghost start = self.pseudo_move_list@;
        let ghost board = *self.board;
        let ghost a = pawn_moves(board, Color::Black);
        let ghost b = piece_moves(board, Kind::Knight, Color::Black);
        let ghost c = piece_moves(board, Kind::Rook, Color::Black);
        let ghost d = piece_moves(board, Kind::Bishop, Color::Black);
        let ghost e = piece_moves(board, Kind::Queen, Color::Black);
        let ghost f = king_moves_of(board, Color::Black);
        self.gen_black_pawns_moves();
        assert(self.pseudo_move_list@ == start + a);
        self.gen_black_knight_moves();
        assert(self.pseudo_move_list@ == start + a + b);
        self.gen_black_rook_moves();
        assert(self.pseudo_move_list@ == start + a + b + c);
        self.gen_black_bishop_moves();
        assert(self.pseudo_move_list@ == start + a + b + c + d);
        self.gen_black_queen_moves();
        assert(self.pseudo_move_list@ == start + a + b + c + d + e);
        self.gen_black_king_moves();
        assert(self.pseudo_move_list@ == start + a + b + c + d + e + f);
        proof {
            lemma_join_six(start, a, b, c, d, e, f);
        }
    }

    /// Appends every pseudo-legal move of the side to move.
    pub fn gen_pseudo_moves(&mut self)
        requires
            old(self).magics.valid(),
        ensures
            final(self).extends(
                old(self),
                pseudo_moves(*old(self).board, old(self).board.to_move),
            ),
    {
        match self.board.to_move {
            Color::White => self.gen_white_moves(),
            Color::Black => self.gen_black_moves(),
        }
    }

    /// Whether `m`, which castles, keeps the king off attacked squares on its way.
    fn castles_safely(&self, m: &Move) -> (r: bool)
        requires
            self.magics.valid(),
            appliable(*m),
            m.casteling,
        ensures
            r == castle_path_safe(*self.board, m.to),
    {
        match m.to {
            Square::G1 => !(self.is_square_under_black_attack(Square::E1)
                || self.is_square_under_black_attack(Square::F1)
                || self.is_square_under_black_attack(Square::G1)),
            Square::C1 => !(self.is_square_under_black_attack(Square::E1)
                || self.is_square_under_black_attack(Square::D1)
                || self.is_square_under_black_attack(Square::C1)),
            Square::G8 => !(self.is_square_under_white_attack(Square::E8)
                || self.is_square_under_white_attack(Square::F8)
                || self.is_square_under_white_attack(Square::G8)),
            _ => !(self.is_square_under_white_attack(Square::E8)
                || self.is_square_under_white_attack(Square::D8)
                || self.is_square_under_white_attack(Square::C8)),
        }
    }

    /// Whether the pseudo-legal move `m` is legal.
    pub fn is_legal_move(&self, m: &Move) -> (r: bool)
        requires
            self.magics.valid(),
            shaped(*m, self.board.to_move),
            self.board.bb(self.board.to_move, Kind::King) != 0,
        ensures
            r == legal(*self.board, *m),
    {
        let takes_king = match m.captured_piece {
            Some(Kind::King) => true,
            _ => false,
        };
        if m.casteling {
            if !self.castles_safely(m) {
                return false;
            }
        }
        let mut after: Board = *self.board;
        after.do_move(m);
        proof {
            lemma_king_survives(*self.board, *m);
        }
        !after.is_in_check(self.board.to_move, self.magics) && !takes_king
    }

    /// Finds out where the king of the side to move stands, whether it is in check, and
    /// which squares share a line with it.
    pub fn stance(&self) -> (r: Stance)
        requires
            self.magics.valid(),
            self.board.bb(self.board.to_move, Kind::King) != 0,
        ensures
            r.of(*self.board),
    {
        let color = self.board.to_move;
        let mut kings = self.board.bitboard_of(color, Kind::King);
        proof {
            lemma_lowest(kings.0);
        }
        let king = match kings.pop_lsb() {
            Some(index) => Square::from_usize(index),
            None => Square::A1,
        };
        let enemy = color.opponent();
        let straights = self.magics.rook_attack(king.to_usize(), Bitboard(0));
        let diagonals = self.magics.bishop_attack(king.to_usize(), Bitboard(0));
        let queens = self.board.bitboard_of(enemy, Kind::Queen).0;
        let rooks = self.board.bitboard_of(enemy, Kind::Rook).0;
        let bishops = self.board.bitboard_of(enemy, Kind::Bishop).0;
        let watched_straights = if straights.0 & (rooks | queens) != 0 {
            straights.0
        } else {
            0
        };
        let watched_diagonals = if diagonals.0 & (bishops | queens) != 0 {
            diagonals.0
        } else {
            0
        };
        Stance {
            king,
            in_check: self.is_square_under_attack(king, enemy),
            straights,
            diagonals,
            watched: Bitboard(watched_straights | watched_diagonals),
        }
    }

    /// Whether the plain move `m` leaves the lines of kind `line` to the king shut: its
    /// origin is off these lines, or with the origin vacated and the destination filled the
    /// king sees along them none of the sliders that the other side has after the move.
    fn shuts_line(&self, m: &Move, stance: &Stance, line: Kind) -> (r: bool)
        requires
            self.magics.valid(),
            stance.of(*self.board),
            plain(*m),
            m.piece_color == self.board.to_move,
            line == Kind::Rook || line == Kind::Bishop,
        ensures
            r == line_stays_shut(*self.board, *m, stance.king.index(), line),
    {
        let board = self.board;
        let enemy = m.piece_color.opponent();
        let from = square_mask(m.from).0;
        let to = square_mask(m.to).0;
        let lines = match line {
            Kind::Rook => stance.straights.0,
            _ => stance.diagonals.0,
        };
        proof {
            m.from.lemma_index();
            crate::bitboard::lemma_bit_test(lines, m.from.index());
            lemma_plain_enemy(*board, *m, line);
            lemma_plain_enemy(*board, *m, Kind::Queen);
        }
        if lines & from == 0 {
            return true;
        }
        let known = Bitboard((board.all_pieces().0 & !from) | to);
        let attack = match line {
            Kind::Rook => self.magics.rook_attack(stance.king.to_usize(), known),
            _ => self.magics.bishop_attack(stance.king.to_usize(), known),
        };
        let mut sliders = board.bitboard_of(enemy, line).0;
        let mut queens = board.bitboard_of(enemy, Kind::Queen).0;
        match m.captured_piece {
            Some(Kind::Queen) => {
                queens = queens & !to;
            },
            Some(Kind::Rook) => {
                match line {
                    Kind::Rook => {
                        sliders = sliders & !to;
                    },
                    _ => {},
                }
            },
            Some(Kind::Bishop) => {
                match line {
                    Kind::Bishop => {
                        sliders = sliders & !to;
                    },
                    _ => {},
                }
            },
            _ => {},
        }
        attack.0 & (sliders | queens) == 0
    }

    /// Whether the pseudo-legal move `m` is legal, given the stance of the position. Most
    /// moves are settled by the stance; the others are played on a copy of the board.
    pub fn is_legal_given(&self, m: &Move, stance: &Stance) -> (r: bool)
        requires
            self.magics.valid(),
            shaped(*m, self.board.to_move),
            stance.of(*self.board),
        ensures
            r == legal(*self.board, *m),
    {
        let is_plain = !stance.in_check && !m.casteling && !m.en_passant && (match m.piece_kind {
            Kind::King => false,
            _ => true,
        }) && (match m.promoting_piece {
            Some(Kind::King) => false,
            _ => true,
        });
        if is_plain {
            match m.captured_piece {
                Some(Kind::King) => {
                    return false;
                },
                _ => {},
            }
            proof {
                m.from.lemma_index();
                crate::bitboard::lemma_bit_test(stance.watched.0, m.from.index());
            }
            if stance.watched.0 & square_mask(m.from).0 == 0 {
                proof {
                    lemma_unwatched(*self.board, *m, stance.king.index());
                    lemma_quick_legal(*self.board, *m);
                }
                return true;
            }
            if self.shuts_line(m, stance, Kind::Rook) && self.shuts_line(m, stance, Kind::Bishop) {
                proof {
                    lemma_quick_legal(*self.board, *m);
                }
                return true;
            }
        }
        self.is_legal_move(m)
    }

    /// Generates the pseudo-legal moves of the side to move and moves those that are legal,
    /// with the legal ones among the pseudo-legal moves that were already listed, to the list
    /// of legal moves. The list of pseudo-legal moves is left empty. No move that joins the
    /// legal moves leaves the king of the side to move in check.
    pub fn gen_legal_moves(&mut self)
        requires
            old(self).magics.valid(),
            old(self).board.bb(old(self).board.to_move, Kind::King) != 0,
            all_moves(old(self).pseudo_move_list@, is_shaped(old(self).board.to_move)),
        ensures
            final(self).board == old(self).board,
            final(self).magics == old(self).magics,
            final(self).pseudo_move_list@.len() == 0,
            final(self).legal_move_list@ == old(self).legal_move_list@ + (old(
                self,
            ).pseudo_move_list@ + pseudo_moves(*old(self).board, old(self).board.to_move)).filter(
                is_legal(*old(self).board),
            ),
            forall|i: int|
                old(self).legal_move_list@.len() <= i < final(self).legal_move_list@.len() ==> !old(
                    self,
                ).board.spec_do_move(#[trigger] final(self).legal_move_list@[i]).in_check(
                    old(self).board.to_move,
                ),
    {
        let ghost board = *self.board;
        let ghost pred = is_legal(board);
        let ghost start = self.legal_move_list@;
        self.gen_pseudo_moves();
        let mut items: Vec<Move> = Vec::new();
        core::mem::swap(&mut self.pseudo_move_list, &mut items);
        let stance = self.stance();
        proof {
            lemma_pseudo_shaped(board, board.to_move);
            lemma_all_join(
                old(self).pseudo_move_list@,
                pseudo_moves(board, board.to_move),
                is_shaped(board.to_move),
            );
            assert(items@.take(0).filter(pred) =~= Seq::<Move>::empty()) by {
                reveal(Seq::filter);
            }
            assert(start + Seq::<Move>::empty() =~= start);
        }
        let mut i: usize = 0;
        while i < items.len()
            invariant
                self.magics.valid(),
                self.board == old(self).board,
                self.magics == old(self).magics,
                board == *self.board,
                pred == is_legal(board),
                board.bb(board.to_move, Kind::King) != 0,
                self.pseudo_move_list@.len() == 0,
                stance.of(board),
                all_moves(items@, is_shaped(board.to_move)),
                i <= items.len(),
                self.legal_move_list@ == start + items@.take(i as int).filter(pred),
            decreases items.len() - i,
        {
            let m = items[i];
            proof {
                assert(is_shaped(board.to_move)(items@[i as int]));
                let head = items@.take(i as int);
                let next = items@.take(i + 1);
                assert(next.drop_last() =~= head);
                assert(next.last() == m);
                assert(next.filter(pred) == if pred(m) {
                    head.filter(pred).push(m)
                } else {
                    head.filter(pred)
                }) by {
                    reveal(Seq::filter);
                }
                assert(start + head.filter(pred).push(m) =~= (start + head.filter(pred)).push(m));
            }
            if self.is_legal_given(&m, &stance) {
                self.legal_move_list.push(m);
            }
            i += 1;
        }
        proof {
            assert(items@.take(i as int) =~= items@);
            let kept = items@.filter(pred);
            assert forall|k: int| start.len() <= k < self.legal_move_list@.len() implies !board.spec_do_move(
                #[trigger] self.legal_move_list@[k],
            ).in_check(board.to_move) by {
                items@.lemma_filter_pred(pred, k - start.len());
                assert(self.legal_move_list@[k] == kept[k - start.len()]);
            }
        }
    }

    /// Whether a piece of `by` attacks `square`. The square may be empty or hold a piece of
    /// either side.
    pub fn is_square_under_attack(&self, square: Square, by: Color) -> (r: bool)
        requires
            self.magics.valid(),
        ensures
            r == self.board.attacked(square.index(), by),
    {
        let board = self.board;
        let target = square_mask(square).0;
        proof {
            lemma_attack_query(*board, by, square.index());
        }
        let near = pawn_attacks_of(by, board.bitboard_of(by, Kind::Pawn)).0 | king_moves(
            board.bitboard_of(by, Kind::King),
        ).0 | knight_moves(board.bitboard_of(by, Kind::Knight)).0;
        if near & target != 0 {
            return true;
        }
        let occupancy = board.all_pieces();
        let queens = board.bitboard_of(by, Kind::Queen).0;
        let diagonal = self.magics.bishop_attack(square.to_usize(), occupancy).0;
        if diagonal & (board.bitboard_of(by, Kind::Bishop).0 | queens) != 0 {
            return true;
        }
        let straight = self.magics.rook_attack(square.to_usize(), occupancy).0;
        straight & (board.bitboard_of(by, Kind::Rook).0 | queens) != 0
    }

    /// Whether a white piece attacks `square`.
    pub fn is_square_under_white_attack(&self, square: Square) -> (r: bool)
        requires
            self.magics.valid(),
        ensures
            r == self.board.attacked(square.index(), Color::White),
    {
        self.is_square_under_attack(square, Color::White)
    }

    /// Whether a black piece attacks `square`.
    pub fn is_square_under_black_attack(&self, square: Square) -> (r: bool)
        requires
            self.magics.valid(),
        ensures
            r == self.board.attacked(square.index(), Color::Black),
    {
        self.is_square_under_attack(square, Color::Black)
    }

    /// The squares a knight's jump away from a square of `knight_loc`.
    pub fn gen_knight_moves(&self, knight_loc: Bitboard) -> (r: Bitboard)
        ensures
            r.0 == knight_pattern(knight_loc.0),
    {
        knight_moves(knight_loc)
    }
}

} // verus!
