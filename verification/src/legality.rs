//! Which pseudo-legal moves are legal, and how most of them are seen to be legal without
//! being played.
use crate::bitboard::{
    bit, lemma_bit_nonzero, lemma_bit_one, lemma_bit_ops, lemma_lowest, lemma_squares, one,
    Bitboard,
};
use crate::board::{lemma_moved_bb, lemma_occupied, Board};
use crate::geometry::{
    bishop_sees, in_dir, is_direction, lemma_lines, lemma_ray_sees_fewer, lemma_ray_sees_off_line,
    lemma_slider_sees_symmetric, ray_sees, rook_sees, slider_attack, slider_sees,
};
use crate::move_gen::{pseudo_moves, Move};
use crate::utils::{Color, Kind, Square};
use vstd::prelude::*;

verus! {

/// Whether no piece of the other side attacks the king's square or a square that the king
/// crosses or reaches when it castles to `to`.
pub open spec fn castle_path_safe(board: Board, to: Square) -> bool {
    match to {
        Square::G1 => !board.attacked(Square::E1.index(), Color::Black) && !board.attacked(
            Square::F1.index(),
            Color::Black,
        ) && !board.attacked(Square::G1.index(), Color::Black),
        Square::C1 => !board.attacked(Square::E1.index(), Color::Black) && !board.attacked(
            Square::D1.index(),
            Color::Black,
        ) && !board.attacked(Square::C1.index(), Color::Black),
        Square::G8 => !board.attacked(Square::E8.index(), Color::White) && !board.attacked(
            Square::F8.index(),
            Color::White,
        ) && !board.attacked(Square::G8.index(), Color::White),
        Square::C8 => !board.attacked(Square::E8.index(), Color::White) && !board.attacked(
            Square::D8.index(),
            Color::White,
        ) && !board.attacked(Square::C8.index(), Color::White),
        _ => true,
    }
}

/// Whether the pseudo-legal move `m` is legal on `board`: it takes no king, a castling king
/// neither stands on, crosses nor reaches an attacked square, and after the move the king of
/// the side that moved is not attacked.
pub open spec fn legal(board: Board, m: Move) -> bool {
    &&& m.captured_piece != Some(Kind::King)
    &&& m.casteling ==> castle_path_safe(board, m.to)
    &&& !board.spec_do_move(m).in_check(board.to_move)
}

/// `legal`, as a function of the move.
pub open spec fn is_legal(board: Board) -> spec_fn(Move) -> bool {
    |m: Move| legal(board, m)
}

/// The legal moves of the side to move, in the order of generation.
pub open spec fn legal_moves(board: Board) -> Seq<Move> {
    pseudo_moves(board, board.to_move).filter(is_legal(board))
}

/// Whether `m` moves a piece other than the king in the plain way: no castling, no capture
/// in passing, no promotion to a king.
pub open spec fn plain(m: Move) -> bool {
    &&& m.piece_kind != Kind::King
    &&& !m.casteling
    &&& !m.en_passant
    &&& m.promoting_piece != Some(Kind::King)
}

/// The occupied squares after a plain move, as far as they are known without looking at the
/// pieces: the origin is vacated and the destination filled.
pub open spec fn occupied_after(board: Board, m: Move) -> u64 {
    (board.occupied() & !one(m.from.index())) | one(m.to.index())
}

/// A plain move leaves the king of the mover where it is.
proof fn lemma_plain_king_stays(board: Board, m: Move)
    requires
        plain(m),
    ensures
        board.spec_do_move(m).bb(m.piece_color, Kind::King) == board.bb(m.piece_color, Kind::King),
{
    lemma_moved_bb(board, m, m.piece_color, Kind::King);
}

/// A plain move takes from the other side at most the piece it captures on its destination.
pub proof fn lemma_plain_enemy(board: Board, m: Move, kind: Kind)
    requires
        plain(m),
    ensures
        board.spec_do_move(m).bb(m.piece_color.spec_opponent(), kind) == if m.captured_piece
            == Some(kind) {
            board.bb(m.piece_color.spec_opponent(), kind) & !one(m.to.index())
        } else {
            board.bb(m.piece_color.spec_opponent(), kind)
        },
        forall|p: int|
            0 <= p < 64 && bit(board.spec_do_move(m).bb(m.piece_color.spec_opponent(), kind), p)
                ==> bit(board.bb(m.piece_color.spec_opponent(), kind), p),
{
    let enemy = m.piece_color.spec_opponent();
    lemma_moved_bb(board, m, enemy, kind);
    assert forall|p: int|
        0 <= p < 64 && bit(board.spec_do_move(m).bb(enemy, kind), p) implies bit(
        board.bb(enemy, kind),
        p,
    ) by {
        lemma_bit_ops(board.bb(enemy, kind), !one(m.to.index()), p);
    }
}

/// After a plain move every square is occupied that was occupied before, but for the
/// origin, and so is the destination.
proof fn lemma_plain_occupancy(board: Board, m: Move, u: int)
    requires
        plain(m),
        0 <= u < 64,
        bit(occupied_after(board, m), u),
    ensures
        bit(board.spec_do_move(m).occupied(), u),
{
    let after = board.spec_do_move(m);
    let from = m.from.index();
    let to = m.to.index();
    m.from.lemma_index();
    m.to.lemma_index();
    lemma_bit_ops(board.occupied() & !one(from), one(to), u);
    lemma_bit_ops(board.occupied(), !one(from), u);
    lemma_bit_ops(one(from), one(from), u);
    lemma_bit_one(from, u);
    lemma_bit_one(to, u);
    lemma_occupied(after, u);
    if u == to {
        let kind = match m.promoting_piece {
            Some(kind) => kind,
            None => m.piece_kind,
        };
        lemma_moved_bb(board, m, m.piece_color, kind);
        let mover = kind == m.piece_kind;
        let v0 = board.bb(m.piece_color, kind);
        let v1 = if mover {
            v0 & !one(from)
        } else {
            v0
        };
        lemma_bit_ops(v1, one(to), u);
        assert(bit(after.bb(m.piece_color, kind), u));
    } else {
        lemma_occupied(board, u);
        let (color, kind) = choose|color: Color, kind: Kind| #[trigger]
            bit(board.bb(color, kind), u);
        lemma_moved_bb(board, m, color, kind);
        let v0 = board.bb(color, kind);
        lemma_bit_ops(v0, !one(from), u);
        let v1 = if color == m.piece_color && kind == m.piece_kind {
            v0 & !one(from)
        } else {
            v0
        };
        lemma_bit_ops(v1, one(to), u);
        let v2 = if color == m.piece_color && kind == m.piece_kind && m.promoting_piece.is_none() {
            v1 | one(to)
        } else {
            v1
        };
        lemma_bit_ops(v2, !one(to), u);
        lemma_bit_ops(one(to), one(to), u);
        let v3 = if m.captured_piece == Some(kind) && color == m.piece_color.spec_opponent() {
            v2 & !one(to)
        } else {
            v2
        };
        lemma_bit_ops(v3, one(to), u);
        assert(bit(after.bb(color, kind), u));
    }
}

/// Whether no slider of `kind` lines (rook or bishop) can have been let through to square
/// `k` by the plain move `m`: the origin is off those lines of `k`, or with the origin
/// vacated and the destination filled none of the sliders left to the other side is reached
/// from `k`.
pub open spec fn line_stays_shut(board: Board, m: Move, k: int, line: Kind) -> bool {
    let enemy = m.piece_color.spec_opponent();
    let after = board.spec_do_move(m);
    bit(slider_attack(line, k, 0), m.from.index()) ==> slider_attack(
        line,
        k,
        occupied_after(board, m),
    ) & (after.bb(enemy, line) | after.bb(enemy, Kind::Queen)) == 0
}

/// A slider of one line kind that attacks the king after a plain move attacked it before,
/// if the line stayed shut.
proof fn lemma_line_stays_shut(board: Board, m: Move, k: int, line: Kind, p: int)
    requires
        plain(m),
        0 <= k < 64,
        0 <= p < 64,
        line == Kind::Rook || line == Kind::Bishop,
        line_stays_shut(board, m, k, line),
        bit(board.spec_do_move(m).bb(m.piece_color.spec_opponent(), line), p) || bit(
            board.spec_do_move(m).bb(m.piece_color.spec_opponent(), Kind::Queen),
            p,
        ),
        slider_sees(line, board.spec_do_move(m).occupied(), p, k),
    ensures
        bit(board.bb(m.piece_color.spec_opponent(), line), p) || bit(
            board.bb(m.piece_color.spec_opponent(), Kind::Queen),
            p,
        ),
        slider_sees(line, board.occupied(), p, k),
{
    let enemy = m.piece_color.spec_opponent();
    let after = board.spec_do_move(m);
    let occ = board.occupied();
    let occ_after = after.occupied();
    let known = occupied_after(board, m);
    let from = m.from.index();
    m.from.lemma_index();
    lemma_plain_enemy(board, m, line);
    lemma_plain_enemy(board, m, Kind::Queen);
    assert forall|u: int| 0 <= u < 64 && bit(known, u) implies bit(occ_after, u) by {
        lemma_plain_occupancy(board, m, u);
    }
    assert forall|u: int| 0 <= u < 64 && u != from && bit(occ, u) implies bit(known, u) by {
        lemma_bit_ops(occ & !one(from), one(m.to.index()), u);
        lemma_bit_ops(occ, !one(from), u);
        lemma_bit_ops(one(from), one(from), u);
        lemma_bit_one(from, u);
    }
    lemma_slider_sees_symmetric(line, occ_after, p, k);
    lemma_slider_sees_symmetric(line, occ, p, k);
    lemma_lines(line, k, from);
    let sliders = after.bb(enemy, line) | after.bb(enemy, Kind::Queen);
    lemma_bit_ops(after.bb(enemy, line), after.bb(enemy, Kind::Queen), p);
    if line == Kind::Rook {
        lemma_sees_through(occ, known, occ_after, k, p, 1, 0, from);
        lemma_sees_through(occ, known, occ_after, k, p, -1, 0, from);
        lemma_sees_through(occ, known, occ_after, k, p, 0, 1, from);
        lemma_sees_through(occ, known, occ_after, k, p, 0, -1, from);
    } else {
        lemma_sees_through(occ, known, occ_after, k, p, 1, 1, from);
        lemma_sees_through(occ, known, occ_after, k, p, 1, -1, from);
        lemma_sees_through(occ, known, occ_after, k, p, -1, 1, from);
        lemma_sees_through(occ, known, occ_after, k, p, -1, -1, from);
    }
    assert(slider_sees(line, known, k, p));
    if bit(slider_attack(line, k, 0), from) {
        lemma_squares(|t: int| slider_sees(line, known, k, t));
        lemma_bit_ops(slider_attack(line, k, known), sliders, p);
        lemma_bit_nonzero(slider_attack(line, k, known) & sliders);
        assert(false);
    }
}

/// What is seen along one direction after a move is seen with the known occupancy, and was
/// seen before the move if the origin is off that direction.
proof fn lemma_sees_through(
    occ: u64,
    known: u64,
    occ_after: u64,
    k: int,
    p: int,
    dr: int,
    df: int,
    from: int,
)
    requires
        crate::geometry::is_direction(dr, df),
        forall|u: int| 0 <= u < 64 && bit(known, u) ==> bit(occ_after, u),
        forall|u: int| 0 <= u < 64 && u != from && bit(occ, u) ==> bit(known, u),
    ensures
        ray_sees(occ_after, k, p, dr, df) ==> ray_sees(known, k, p, dr, df),
        ray_sees(known, k, p, dr, df) && !in_dir(k, from, dr, df) ==> ray_sees(occ, k, p, dr, df),
{
    if ray_sees(occ_after, k, p, dr, df) {
        lemma_ray_sees_fewer(occ_after, known, k, p, dr, df);
    }
    if ray_sees(known, k, p, dr, df) && !in_dir(k, from, dr, df) {
        lemma_ray_sees_off_line(occ, known, k, p, dr, df, from);
    }
}

/// A plain move that takes no king is legal if the mover is not in check and both kinds of
/// line to its king stay shut.
pub proof fn lemma_quick_legal(board: Board, m: Move)
    requires
        plain(m),
        m.piece_color == board.to_move,
        m.captured_piece != Some(Kind::King),
        board.bb(board.to_move, Kind::King) != 0,
        !board.in_check(board.to_move),
        line_stays_shut(board, m, board.king_square(board.to_move), Kind::Rook),
        line_stays_shut(board, m, board.king_square(board.to_move), Kind::Bishop),
    ensures
        legal(board, m),
{
    let color = board.to_move;
    let enemy = color.spec_opponent();
    let after = board.spec_do_move(m);
    let k = board.king_square(color);
    lemma_lowest(board.bb(color, Kind::King));
    lemma_plain_king_stays(board, m);
    assert(after.king_square(color) == k);
    if after.attacked(k, enemy) {
        let p = choose|p: int| 0 <= p < 64 && #[trigger] after.attacks_from(enemy, p, k);
        lemma_plain_enemy(board, m, Kind::Pawn);
        lemma_plain_enemy(board, m, Kind::Knight);
        lemma_plain_enemy(board, m, Kind::King);
        if (bit(after.bb(enemy, Kind::Bishop), p) || bit(after.bb(enemy, Kind::Queen), p))
            && bishop_sees(after.occupied(), p, k) {
            lemma_line_stays_shut(board, m, k, Kind::Bishop, p);
        } else if (bit(after.bb(enemy, Kind::Rook), p) || bit(after.bb(enemy, Kind::Queen), p))
            && rook_sees(after.occupied(), p, k) {
            lemma_line_stays_shut(board, m, k, Kind::Rook, p);
        }
        assert(board.attacks_from(enemy, p, k));
        assert(false);
    }
}

/// What is found out about a position before its moves are tested for legality.
pub struct Stance {
    /// The square of the king of the side to move.
    pub king: Square,
    /// Whether that king is in check.
    pub in_check: bool,
    /// The squares on a rank or file with the king.
    pub straights: Bitboard,
    /// The squares on a diagonal with the king.
    pub diagonals: Bitboard,
    /// The squares of those lines through the king on which a slider of the other side
    /// stands that moves along such lines.
    pub watched: Bitboard,
}

/// The sliders of the other side that stand on a line of kind `line` (rook or bishop) with
/// square `k` and move along such lines.
pub open spec fn threats(board: Board, k: int, line: Kind) -> u64 {
    let enemy = board.to_move.spec_opponent();
    slider_attack(line, k, 0) & (board.bb(enemy, line) | board.bb(enemy, Kind::Queen))
}

/// The lines through square `k` on which such a slider stands.
pub open spec fn watched_lines(board: Board, k: int) -> u64 {
    (if threats(board, k, Kind::Rook) != 0 {
        slider_attack(Kind::Rook, k, 0)
    } else {
        0
    }) | (if threats(board, k, Kind::Bishop) != 0 {
        slider_attack(Kind::Bishop, k, 0)
    } else {
        0
    })
}

/// What a slider attacks on a board with pieces it attacks on the empty board.
proof fn lemma_attack_within_lines(line: Kind, k: int, occ: u64, p: int)
    requires
        0 <= p < 64,
        bit(slider_attack(line, k, occ), p),
    ensures
        bit(slider_attack(line, k, 0), p),
{
    lemma_squares(|t: int| slider_sees(line, occ, k, t));
    lemma_squares(|t: int| slider_sees(line, 0, k, t));
    assert forall|u: int| 0 <= u < 64 && bit(0, u) implies bit(occ, u) by {
        lemma_bit_ops(0, 0, u);
    }
    if ray_sees(occ, k, p, 1, 0) {
        lemma_ray_sees_fewer(occ, 0, k, p, 1, 0);
    }
    if ray_sees(occ, k, p, -1, 0) {
        lemma_ray_sees_fewer(occ, 0, k, p, -1, 0);
    }
    if ray_sees(occ, k, p, 0, 1) {
        lemma_ray_sees_fewer(occ, 0, k, p, 0, 1);
    }
    if ray_sees(occ, k, p, 0, -1) {
        lemma_ray_sees_fewer(occ, 0, k, p, 0, -1);
    }
    if ray_sees(occ, k, p, 1, 1) {
        lemma_ray_sees_fewer(occ, 0, k, p, 1, 1);
    }
    if ray_sees(occ, k, p, 1, -1) {
        lemma_ray_sees_fewer(occ, 0, k, p, 1, -1);
    }
    if ray_sees(occ, k, p, -1, 1) {
        lemma_ray_sees_fewer(occ, 0, k, p, -1, 1);
    }
    if ray_sees(occ, k, p, -1, -1) {
        lemma_ray_sees_fewer(occ, 0, k, p, -1, -1);
    }
}

/// Where no slider of the other side stands on a line with the king, a plain move opens
/// no line.
proof fn lemma_no_threat(board: Board, m: Move, k: int, line: Kind)
    requires
        plain(m),
        m.piece_color == board.to_move,
        threats(board, k, line) == 0,
    ensures
        line_stays_shut(board, m, k, line),
{
    let enemy = board.to_move.spec_opponent();
    let after = board.spec_do_move(m);
    let attack = slider_attack(line, k, occupied_after(board, m));
    let sliders = after.bb(enemy, line) | after.bb(enemy, Kind::Queen);
    let before = board.bb(enemy, line) | board.bb(enemy, Kind::Queen);
    lemma_bit_nonzero(attack & sliders);
    lemma_bit_nonzero(threats(board, k, line));
    lemma_plain_enemy(board, m, line);
    lemma_plain_enemy(board, m, Kind::Queen);
    if attack & sliders != 0 {
        let p = choose|p: int| 0 <= p < 64 && bit(attack & sliders, p);
        lemma_bit_ops(attack, sliders, p);
        lemma_bit_ops(after.bb(enemy, line), after.bb(enemy, Kind::Queen), p);
        lemma_bit_ops(board.bb(enemy, line), board.bb(enemy, Kind::Queen), p);
        lemma_attack_within_lines(line, k, occupied_after(board, m), p);
        lemma_bit_ops(slider_attack(line, k, 0), before, p);
        assert(bit(threats(board, k, line), p));
    }
}

/// A plain move from a square off the watched lines opens no line.
pub proof fn lemma_unwatched(board: Board, m: Move, k: int)
    requires
        plain(m),
        m.piece_color == board.to_move,
        !bit(watched_lines(board, k), m.from.index()),
    ensures
        line_stays_shut(board, m, k, Kind::Rook),
        line_stays_shut(board, m, k, Kind::Bishop),
{
    let from = m.from.index();
    m.from.lemma_index();
    let a = if threats(board, k, Kind::Rook) != 0 {
        slider_attack(Kind::Rook, k, 0)
    } else {
        0
    };
    let b = if threats(board, k, Kind::Bishop) != 0 {
        slider_attack(Kind::Bishop, k, 0)
    } else {
        0
    };
    lemma_bit_ops(a, b, from);
    if threats(board, k, Kind::Rook) == 0 {
        lemma_no_threat(board, m, k, Kind::Rook);
    }
    if threats(board, k, Kind::Bishop) == 0 {
        lemma_no_threat(board, m, k, Kind::Bishop);
    }
}

impl Stance {
    /// Whether this is the stance of the side to move on `board`.
    pub open spec fn of(&self, board: Board) -> bool {
        &&& board.bb(board.to_move, Kind::King) != 0
        &&& self.king.index() == board.king_square(board.to_move)
        &&& self.in_check == board.in_check(board.to_move)
        &&& self.straights.0 == slider_attack(Kind::Rook, self.king.index(), 0)
        &&& self.diagonals.0 == slider_attack(Kind::Bishop, self.king.index(), 0)
        &&& self.watched.0 == watched_lines(board, self.king.index())
    }
}

} // verus!
