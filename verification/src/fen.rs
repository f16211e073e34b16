//! Positions and squares written as text: Forsyth-Edwards notation and algebraic squares.
use crate::bitboard::{
    bit, lemma_bit_one, lemma_bit_ops, lemma_is_squares, one, squares, Bitboard,
};
use crate::board::{lemma_with_bb, Board};
use crate::errors::ChessMgError;
use crate::piece::Piece;
use crate::utils::{square_mask, Casteling, Color, Kind, Square};
use vstd::prelude::*;
use vstd::string::{StrSliceExecFns, StringExecFns};

verus! {

/// Whether `c` is white space: a character with the Unicode property `White_Space`.
pub open spec fn is_space(c: char) -> bool {
    let n = c as u32;
    ||| 0x09 <= n <= 0x0d
    ||| n == 0x20
    ||| n == 0x85
    ||| n == 0xa0
    ||| n == 0x1680
    ||| 0x2000 <= n <= 0x200a
    ||| n == 0x2028
    ||| n == 0x2029
    ||| n == 0x202f
    ||| n == 0x205f
    ||| n == 0x3000
}

/// Whether `c` is white space.
pub fn is_whitespace(c: char) -> (r: bool)
    ensures
        r == is_space(c),
{
    let n = c as u32;
    (0x09 <= n && n <= 0x0d) || n == 0x20 || n == 0x85 || n == 0xa0 || n == 0x1680 || (0x2000 <= n
        && n <= 0x200a) || n == 0x2028 || n == 0x2029 || n == 0x202f || n == 0x205f || n == 0x3000
}

/// The characters of `s`.
pub fn chars_of(s: &str) -> (r: Vec<char>)
    ensures
        r@ == s@,
{
    let n = s.unicode_len();
    let mut out: Vec<char> = Vec::new();
    let mut i: usize = 0;
    while i < n
        invariant
            n == s@.len(),
            i <= n,
            out@ == s@.take(i as int),
        decreases n - i,
    {
        out.push(s.get_char(i));
        proof {
            assert(s@.take(i + 1) =~= s@.take(i as int).push(s@[i as int]));
        }
        i += 1;
    }
    proof {
        assert(s@.take(n as int) =~= s@);
    }
    out
}

/// The file that the letter `c` names.
pub open spec fn file_of_letter(c: char) -> Option<int> {
    if 'a' <= c <= 'h' {
        Some(c as u32 - 'a' as u32)
    } else {
        None
    }
}

/// The rank that the digit `c` names.
pub open spec fn rank_of_digit(c: char) -> Option<int> {
    if '1' <= c <= '8' {
        Some(c as u32 - '1' as u32)
    } else {
        None
    }
}

/// The square that `text` names: a file letter from `a` to `h`, then a rank digit from `1`
/// to `8`, and nothing else.
pub open spec fn parse_square(text: Seq<char>) -> Option<Square> {
    if text.len() == 2 {
        match (file_of_letter(text[0]), rank_of_digit(text[1])) {
            (Some(file), Some(rank)) => Some(Square::at(8 * rank + file)),
            _ => None,
        }
    } else {
        None
    }
}

/// The name of a square: its file letter, then its rank digit.
pub open spec fn square_name(square: Square) -> Seq<char> {
    seq![
        (('a' as u32 + square.index() % 8) as u32) as char,
        (('1' as u32 + square.index() / 8) as u32) as char,
    ]
}

/// The square named by two characters.
pub fn square_from_chars(file: char, rank: char) -> (r: Option<Square>)
    ensures
        r == parse_square(seq![file, rank]),
{
    if 'a' <= file && file <= 'h' && '1' <= rank && rank <= '8' {
        let f: u8 = (file as u32 - 'a' as u32) as u8;
        let r: u8 = (rank as u32 - '1' as u32) as u8;
        Some(Square::from_u8(8 * r + f))
    } else {
        None
    }
}

/// The letter of file `f`, as text.
fn file_text(f: u8) -> (r: &'static str)
    requires
        f < 8,
    ensures
        r@ == seq![(('a' as u32 + f) as u32) as char],
{
    proof {
        reveal_strlit("a");
        reveal_strlit("b");
        reveal_strlit("c");
        reveal_strlit("d");
        reveal_strlit("e");
        reveal_strlit("f");
        reveal_strlit("g");
        reveal_strlit("h");
    }
    let text = match f {
        0 => "a",
        1 => "b",
        2 => "c",
        3 => "d",
        4 => "e",
        5 => "f",
        6 => "g",
        _ => "h",
    };
    proof {
        assert(text@ =~= seq![(('a' as u32 + f) as u32) as char]);
    }
    text
}

/// The digit of rank `r`, as text.
fn rank_text(r: u8) -> (text: &'static str)
    requires
        r < 8,
    ensures
        text@ == seq![(('1' as u32 + r) as u32) as char],
{
    proof {
        reveal_strlit("1");
        reveal_strlit("2");
        reveal_strlit("3");
        reveal_strlit("4");
        reveal_strlit("5");
        reveal_strlit("6");
        reveal_strlit("7");
        reveal_strlit("8");
    }
    let text = match r {
        0 => "1",
        1 => "2",
        2 => "3",
        3 => "4",
        4 => "5",
        5 => "6",
        6 => "7",
        _ => "8",
    };
    proof {
        assert(text@ =~= seq![(('1' as u32 + r) as u32) as char]);
    }
    text
}

impl Square {
    /// The square that `text` names, or `InvalidSquare` with the text.
    pub fn parse(text: &str) -> (r: Result<Square, ChessMgError>)
        ensures
            match parse_square(text@) {
                Some(square) => r == Ok::<Square, ChessMgError>(square),
                None => r matches Err(ChessMgError::InvalidSquare(said)) && said@ == text@,
            },
    {
        let chars = chars_of(text);
        if chars.len() == 2 {
            proof {
                assert(text@ =~= seq![chars[0], chars[1]]);
            }
            match square_from_chars(chars[0], chars[1]) {
                Some(square) => {
                    return Ok(square);
                },
                None => {},
            }
        }
        Err(ChessMgError::InvalidSquare(String::from_str(text)))
    }

    /// The name of the square: its file letter, then its rank digit.
    pub fn to_string(&self) -> (r: String)
        ensures
            r@ == square_name(*self),
    {
        let name = String::from_str(file_text(self.file())).concat(rank_text(self.rank()));
        proof {
            assert(name@ =~= square_name(*self));
        }
        name
    }
}

impl core::str::FromStr for Square {
    type Err = ChessMgError;

    /// The square that `text` names, or `InvalidSquare` with the text.
    fn from_str(text: &str) -> (r: Result<Square, ChessMgError>)
        ensures
            match parse_square(text@) {
                Some(square) => r == Ok::<Square, ChessMgError>(square),
                None => r matches Err(ChessMgError::InvalidSquare(said)) && said@ == text@,
            },
    {
        Square::parse(text)
    }
}

/// Naming a square and reading the name gives the square back, and reading a name and naming
/// the square read gives the name back.
pub proof fn law_square_names_round_trip(square: Square, text: Seq<char>)
    ensures
        parse_square(square_name(square)) == Some(square),
        parse_square(text) == Some(square) ==> square_name(square) == text,
{
    square.lemma_index();
    let i = square.index();
    let name = square_name(square);
    assert(name.len() == 2);
    assert(file_of_letter(name[0]) == Some(i % 8));
    assert(rank_of_digit(name[1]) == Some(i / 8));
    if parse_square(text) == Some(square) {
        let file = file_of_letter(text[0])->0;
        let rank = rank_of_digit(text[1])->0;
        Square::lemma_at(8 * rank + file);
        assert(i == 8 * rank + file);
        assert(square_name(square) =~= text);
    }
}

/// The index of the first character of `s` at or after `i` that is no white space, or the
/// length of `s`.
pub open spec fn skip_spaces(s: Seq<char>, i: int) -> int
    decreases s.len() - i,
{
    if 0 <= i < s.len() && is_space(s[i]) {
        skip_spaces(s, i + 1)
    } else {
        i
    }
}

/// The index of the first character of `s` at or after `i` that is white space, or the
/// length of `s`.
pub open spec fn skip_word(s: Seq<char>, i: int) -> int
    decreases s.len() - i,
{
    if 0 <= i < s.len() && !is_space(s[i]) {
        skip_word(s, i + 1)
    } else {
        i
    }
}

/// Where the field of `s` with number `n`, counted from index `i` on, begins and ends; a
/// field is a longest run of characters that are no white space.
pub open spec fn field_from(s: Seq<char>, n: nat, i: int) -> Option<(int, int)>
    decreases n,
{
    let start = skip_spaces(s, i);
    if 0 <= start < s.len() {
        let end = skip_word(s, start);
        if n == 0 {
            Some((start, end))
        } else {
            field_from(s, (n - 1) as nat, end)
        }
    } else {
        None
    }
}

/// The field of `s` with number `n`, the first having number 0.
pub open spec fn field(s: Seq<char>, n: nat) -> Option<Seq<char>> {
    match field_from(s, n, 0) {
        Some((start, end)) => Some(s.subrange(start, end)),
        None => None,
    }
}

/// The piece that the letter `c` names: upper case for White, lower case for Black.
pub open spec fn piece_of(c: char) -> Option<(Kind, Color)> {
    if c == 'P' {
        Some((Kind::Pawn, Color::White))
    } else if c == 'N' {
        Some((Kind::Knight, Color::White))
    } else if c == 'B' {
        Some((Kind::Bishop, Color::White))
    } else if c == 'R' {
        Some((Kind::Rook, Color::White))
    } else if c == 'Q' {
        Some((Kind::Queen, Color::White))
    } else if c == 'K' {
        Some((Kind::King, Color::White))
    } else if c == 'p' {
        Some((Kind::Pawn, Color::Black))
    } else if c == 'n' {
        Some((Kind::Knight, Color::Black))
    } else if c == 'b' {
        Some((Kind::Bishop, Color::Black))
    } else if c == 'r' {
        Some((Kind::Rook, Color::Black))
    } else if c == 'q' {
        Some((Kind::Queen, Color::Black))
    } else if c == 'k' {
        Some((Kind::King, Color::Black))
    } else {
        None
    }
}

/// The number of empty squares that the digit `c` stands for.
pub open spec fn empty_run(c: char) -> Option<int> {
    if '1' <= c <= '8' {
        Some(c as u32 - '0' as u32)
    } else {
        None
    }
}

/// What has been read of a piece placement: the rows that are complete, the eighth rank
/// first, and the squares read of the row in progress, the a-file first.
pub struct Scan {
    pub rows: Seq<Seq<Option<(Kind, Color)>>>,
    pub current: Seq<Option<(Kind, Color)>>,
}

/// What is read of the piece placement `text`, from left to right: a slash ends a row of
/// eight squares, a digit adds that many empty squares and a piece letter one piece, and
/// no row grows beyond eight squares. `None` where `text` breaks one of these rules.
pub open spec fn scan(text: Seq<char>) -> Option<Scan>
    decreases text.len(),
{
    if text.len() == 0 {
        Some(Scan { rows: Seq::empty(), current: Seq::empty() })
    } else {
        let c = text.last();
        match scan(text.drop_last()) {
            None => None,
            Some(before) => {
                if c == '/' {
                    if before.current.len() == 8 {
                        Some(Scan { rows: before.rows.push(before.current), current: Seq::empty() })
                    } else {
                        None
                    }
                } else if empty_run(c).is_some() {
                    if before.current.len() + empty_run(c).unwrap() <= 8 {
                        Some(
                            Scan {
                                rows: before.rows,
                                current: before.current + Seq::new(
                                    empty_run(c).unwrap() as nat,
                                    |i: int| None,
                                ),
                            },
                        )
                    } else {
                        None
                    }
                } else if piece_of(c).is_some() {
                    if before.current.len() < 8 {
                        Some(Scan { rows: before.rows, current: before.current.push(piece_of(c)) })
                    } else {
                        None
                    }
                } else {
                    None
                }
            },
        }
    }
}

/// The eight rows of the piece placement `text`, the eighth rank first, each of eight
/// squares; `None` where `text` is no placement of eight full rows.
pub open spec fn placement(text: Seq<char>) -> Option<Seq<Seq<Option<(Kind, Color)>>>> {
    match scan(text) {
        Some(read) => if read.rows.len() == 7 && read.current.len() == 8 {
            Some(read.rows.push(read.current))
        } else {
            None
        },
        None => None,
    }
}

/// What stands on the square with index `i` when `read` has been read.
pub open spec fn read_at(read: Scan, i: int) -> Option<(Kind, Color)> {
    let row = 7 - i / 8;
    let file = i % 8;
    if 0 <= row < read.rows.len() {
        read.rows[row][file]
    } else if row == read.rows.len() && 0 <= file < read.current.len() {
        read.current[file]
    } else {
        None
    }
}

/// The squares on which `rows` puts a piece of `kind` and `color`, as a word.
pub open spec fn placed(
    rows: Seq<Seq<Option<(Kind, Color)>>>,
    kind: Kind,
    color: Color,
) -> u64 {
    squares(|i: int| rows[7 - i / 8][i % 8] == Some((kind, color)))
}

/// The side to move that a field names.
pub open spec fn side_of(text: Seq<char>) -> Option<Color> {
    if text.len() == 1 && text[0] == 'w' {
        Some(Color::White)
    } else if text.len() == 1 && text[0] == 'b' {
        Some(Color::Black)
    } else {
        None
    }
}

/// The castling rights that a field names: each of the letters `K`, `Q`, `k` and `q` that
/// occurs in it grants its right; other characters say nothing.
pub open spec fn rights_of(text: Seq<char>) -> Casteling {
    Casteling {
        white_kingside: text.contains('K'),
        white_queenside: text.contains('Q'),
        black_kingside: text.contains('k'),
        black_queenside: text.contains('q'),
    }
}

/// The en-passant square that a field names: none for a dash, else the square named.
/// `None` where the field is neither.
pub open spec fn passant_of(text: Seq<char>) -> Option<Option<Square>> {
    if text.len() == 1 && text[0] == '-' {
        Some(None)
    } else {
        match parse_square(text) {
            Some(square) => Some(Some(square)),
            None => None,
        }
    }
}

/// The position with the pieces of `rows`.
pub open spec fn board_of(
    rows: Seq<Seq<Option<(Kind, Color)>>>,
    to_move: Color,
    rights: Casteling,
    passant: Option<Square>,
) -> Board {
    Board {
        to_move,
        white_pawn: Piece {
            kind: Kind::Pawn,
            color: Color::White,
            bitboard: Bitboard(placed(rows, Kind::Pawn, Color::White)),
        },
        white_knight: Piece {
            kind: Kind::Knight,
            color: Color::White,
            bitboard: Bitboard(placed(rows, Kind::Knight, Color::White)),
        },
        white_bishop: Piece {
            kind: Kind::Bishop,
            color: Color::White,
            bitboard: Bitboard(placed(rows, Kind::Bishop, Color::White)),
        },
        white_rook: Piece {
            kind: Kind::Rook,
            color: Color::White,
            bitboard: Bitboard(placed(rows, Kind::Rook, Color::White)),
        },
        white_queen: Piece {
            kind: Kind::Queen,
            color: Color::White,
            bitboard: Bitboard(placed(rows, Kind::Queen, Color::White)),
        },
        white_king: Piece {
            kind: Kind::King,
            color: Color::White,
            bitboard: Bitboard(placed(rows, Kind::King, Color::White)),
        },
        black_pawn: Piece {
            kind: Kind::Pawn,
            color: Color::Black,
            bitboard: Bitboard(placed(rows, Kind::Pawn, Color::Black)),
        },
        black_knight: Piece {
            kind: Kind::Knight,
            color: Color::Black,
            bitboard: Bitboard(placed(rows, Kind::Knight, Color::Black)),
        },
        black_bishop: Piece {
            kind: Kind::Bishop,
            color: Color::Black,
            bitboard: Bitboard(placed(rows, Kind::Bishop, Color::Black)),
        },
        black_rook: Piece {
            kind: Kind::Rook,
            color: Color::Black,
            bitboard: Bitboard(placed(rows, Kind::Rook, Color::Black)),
        },
        black_queen: Piece {
            kind: Kind::Queen,
            color: Color::Black,
            bitboard: Bitboard(placed(rows, Kind::Queen, Color::Black)),
        },
        black_king: Piece {
            kind: Kind::King,
            color: Color::Black,
            bitboard: Bitboard(placed(rows, Kind::King, Color::Black)),
        },
        casteling_rights: rights,
        en_passant: passant,
    }
}

/// The position that `text` describes in Forsyth-Edwards notation: its first four fields
/// are the piece placement, the side to move, the castling rights and the en-passant
/// square; further fields are ignored. `None` where a field is missing or malformed.
pub open spec fn parse_fen(text: Seq<char>) -> Option<Board> {
    match (field(text, 0), field(text, 1), field(text, 2), field(text, 3)) {
        (Some(pieces), Some(side), Some(rights), Some(passant)) => match (
            placement(pieces),
            side_of(side),
            passant_of(passant),
        ) {
            (Some(rows), Some(to_move), Some(square)) => Some(
                board_of(rows, to_move, rights_of(rights), square),
            ),
            _ => None,
        },
        _ => None,
    }
}

/// The piece that the letter `c` names.
pub fn piece_from_letter(c: char) -> (r: Option<(Kind, Color)>)
    ensures
        r == piece_of(c),
{
    match c {
        'P' => Some((Kind::Pawn, Color::White)),
        'N' => Some((Kind::Knight, Color::White)),
        'B' => Some((Kind::Bishop, Color::White)),
        'R' => Some((Kind::Rook, Color::White)),
        'Q' => Some((Kind::Queen, Color::White)),
        'K' => Some((Kind::King, Color::White)),
        'p' => Some((Kind::Pawn, Color::Black)),
        'n' => Some((Kind::Knight, Color::Black)),
        'b' => Some((Kind::Bishop, Color::Black)),
        'r' => Some((Kind::Rook, Color::Black)),
        'q' => Some((Kind::Queen, Color::Black)),
        'k' => Some((Kind::King, Color::Black)),
        _ => None,
    }
}

/// Where the next field of `chars` at or after `from` begins and ends.
pub fn find_field(chars: &Vec<char>, from: usize) -> (r: Option<(usize, usize)>)
    requires
        from <= chars.len(),
    ensures
        match r {
            Some((start, end)) => from <= start < end <= chars.len() && field_from(
                chars@,
                0,
                from as int,
            ) == Some((start as int, end as int)),
            None => field_from(chars@, 0, from as int).is_none(),
        },
{
    let mut start = from;
    while start < chars.len() && is_whitespace(chars[start])
        invariant
            from <= start <= chars.len(),
            skip_spaces(chars@, from as int) == skip_spaces(chars@, start as int),
        decreases chars.len() - start,
    {
        start += 1;
    }
    if start >= chars.len() {
        return None;
    }
    let mut end = start + 1;
    proof {
        assert(skip_word(chars@, start as int) == skip_word(chars@, start + 1));
    }
    while end < chars.len() && !is_whitespace(chars[end])
        invariant
            start < end <= chars.len(),
            skip_word(chars@, start as int) == skip_word(chars@, end as int),
        decreases chars.len() - end,
    {
        end += 1;
    }
    Some((start, end))
}

/// A placement that breaks a rule after some characters breaks it as a whole.
pub proof fn lemma_scan_prefix(text: Seq<char>, n: int)
    requires
        0 <= n <= text.len(),
        scan(text.take(n)).is_none(),
    ensures
        scan(text).is_none(),
    decreases text.len() - n,
{
    if n < text.len() {
        assert(text.take(n + 1).drop_last() =~= text.take(n));
        lemma_scan_prefix(text, n + 1);
    } else {
        assert(text.take(n) =~= text);
    }
}

/// Reading on never takes a completed row away.
pub proof fn lemma_scan_rows(text: Seq<char>, n: int)
    requires
        0 <= n <= text.len(),
        scan(text).is_some(),
    ensures
        scan(text.take(n)).is_some(),
        scan(text.take(n)).unwrap().rows.len() <= scan(text).unwrap().rows.len(),
    decreases text.len() - n,
{
    if scan(text.take(n)).is_none() {
        lemma_scan_prefix(text, n);
    }
    if n < text.len() {
        assert(text.take(n + 1).drop_last() =~= text.take(n));
        lemma_scan_rows(text, n + 1);
    } else {
        assert(text.take(n) =~= text);
    }
}

/// Why a piece placement was refused.
pub enum PlacementError {
    /// There are more or fewer than eight rows.
    RowCount,
    /// A row has more than eight squares.
    RowTooLong,
    /// A row has fewer than eight squares.
    RowTooShort,
    /// A character is neither a piece letter, a digit from 1 to 8 nor a slash.
    BadCharacter,
}

/// The board with the pieces of the placement written in `chars` from `start` to `end`,
/// White to move, without castling rights or en-passant square.
pub fn read_placement(chars: &Vec<char>, start: usize, end: usize) -> (r: Result<
    Board,
    PlacementError,
>)
    requires
        start <= end <= chars.len(),
    ensures
        match placement(chars@.subrange(start as int, end as int)) {
            Some(rows) => r matches Ok(board) && board == board_of(
                rows,
                Color::White,
                Board::spec_zero().casteling_rights,
                None,
            ),
            None => r is Err,
        },
{
    let ghost text = chars@.subrange(start as int, end as int);
    let mut board = Board::zero();
    let mut row: usize = 0;
    let mut file: usize = 0;
    let mut i: usize = start;
    let ghost mut read = Scan { rows: Seq::empty(), current: Seq::empty() };
    proof {
        assert(text.take(0) =~= Seq::<char>::empty());
        assert forall|color: Color, kind: Kind, sq: int| 0 <= sq < 64 implies !#[trigger] bit(
            board.bb(color, kind),
            sq,
        ) by {
            lemma_bit_ops(0, 0, sq);
        }
    }
    while i < end
        invariant
            start <= i <= end <= chars.len(),
            text == chars@.subrange(start as int, end as int),
            scan(text.take(i - start)) == Some(read),
            read.rows.len() == row <= 7,
            read.current.len() == file <= 8,
            forall|k: int| 0 <= k < read.rows.len() ==> (#[trigger] read.rows[k]).len() == 8,
            board.tagged(),
            board.to_move == Color::White,
            board.casteling_rights == Board::spec_zero().casteling_rights,
            board.en_passant.is_none(),
            forall|color: Color, kind: Kind, sq: int|
                0 <= sq < 64 ==> #[trigger] bit(board.bb(color, kind), sq) == (read_at(read, sq)
                    == Some((kind, color))),
        decreases end - i,
    {
        let c = chars[i];
        let ghost n = i - start;
        let ghost was = read;
        proof {
            assert(text.take(n + 1).drop_last() =~= text.take(n));
            assert(text.take(n + 1).last() == c);
        }
        if c == '/' {
            if file < 8 {
                proof {
                    lemma_scan_prefix(text, n + 1);
                }
                return Err(PlacementError::RowTooShort);
            }
            if row >= 7 {
                proof {
                    if scan(text).is_some() {
                        lemma_scan_rows(text, n + 1);
                    }
                }
                return Err(PlacementError::RowCount);
            }
            row += 1;
            file = 0;
            proof {
                read = Scan { rows: was.rows.push(was.current), current: Seq::empty() };
                assert forall|sq: int| 0 <= sq < 64 implies read_at(read, sq) == read_at(
                    was,
                    sq,
                ) by {}
            }
        } else if '1' <= c && c <= '8' {
            let run = (c as u32 - '0' as u32) as usize;
            if file + run > 8 {
                proof {
                    lemma_scan_prefix(text, n + 1);
                }
                return Err(PlacementError::RowTooLong);
            }
            file += run;
            proof {
                read = Scan {
                    rows: was.rows,
                    current: was.current + Seq::new(run as nat, |i: int| None),
                };
                assert forall|sq: int| 0 <= sq < 64 implies read_at(read, sq) == read_at(
                    was,
                    sq,
                ) by {}
            }
        } else {
            match piece_from_letter(c) {
                Some((kind, color)) => {
                    if file >= 8 {
                        proof {
                            lemma_scan_prefix(text, n + 1);
                        }
                        return Err(PlacementError::RowTooLong);
                    }
                    let index = (7 - row) * 8 + file;
                    let ghost old_board = board;
                    let mask = square_mask(Square::from_usize(index)).0;
                    let placed = board.bitboard_of(color, kind).0 | mask;
                    board.set_bitboard(color, kind, Bitboard(placed));
                    file += 1;
                    proof {
                        read = Scan { rows: was.rows, current: was.current.push(Some((kind, color))) };
                        lemma_with_bb(old_board, color, kind, placed);
                        assert forall|sq: int| 0 <= sq < 64 implies read_at(read, sq) == (if sq
                            == index {
                            Some((kind, color))
                        } else {
                            read_at(was, sq)
                        }) by {}
                        assert(read_at(was, index as int).is_none());
                        assert forall|co: Color, ki: Kind, sq: int| 0 <= sq < 64 implies #[trigger] bit(
                            board.bb(co, ki),
                            sq,
                        ) == (read_at(read, sq) == Some((ki, co))) by {
                            assert(bit(old_board.bb(co, ki), sq) == (read_at(was, sq) == Some(
                                (ki, co),
                            )));
                            lemma_bit_ops(old_board.bb(color, kind), one(index as int), sq);
                            lemma_bit_one(index as int, sq);
                        }
                    }
                },
                None => {
                    proof {
                        lemma_scan_prefix(text, n + 1);
                    }
                    return Err(PlacementError::BadCharacter);
                },
            }
        }
        i += 1;
    }
    proof {
        assert(text.take(i - start) =~= text);
    }
    if row != 7 {
        return Err(PlacementError::RowCount);
    }
    if file != 8 {
        return Err(PlacementError::RowTooShort);
    }
    proof {
        let rows = read.rows.push(read.current);
        assert forall|co: Color, ki: Kind, sq: int| 0 <= sq < 64 implies #[trigger] bit(
            board.bb(co, ki),
            sq,
        ) == (rows[7 - sq / 8][sq % 8] == Some((ki, co))) by {
            assert(bit(board.bb(co, ki), sq) == (read_at(read, sq) == Some((ki, co))));
        }
        assert forall|co: Color, ki: Kind| #[trigger] board.bb(co, ki) == placed(rows, ki, co) by {
            lemma_is_squares(board.bb(co, ki), |i: int| rows[7 - i / 8][i % 8] == Some((ki, co)));
        }
        assert(board.bb(Color::White, Kind::Pawn) == placed(rows, Kind::Pawn, Color::White));
        assert(board.bb(Color::White, Kind::Knight) == placed(rows, Kind::Knight, Color::White));
        assert(board.bb(Color::White, Kind::Bishop) == placed(rows, Kind::Bishop, Color::White));
        assert(board.bb(Color::White, Kind::Rook) == placed(rows, Kind::Rook, Color::White));
        assert(board.bb(Color::White, Kind::Queen) == placed(rows, Kind::Queen, Color::White));
        assert(board.bb(Color::White, Kind::King) == placed(rows, Kind::King, Color::White));
        assert(board.bb(Color::Black, Kind::Pawn) == placed(rows, Kind::Pawn, Color::Black));
        assert(board.bb(Color::Black, Kind::Knight) == placed(rows, Kind::Knight, Color::Black));
        assert(board.bb(Color::Black, Kind::Bishop) == placed(rows, Kind::Bishop, Color::Black));
        assert(board.bb(Color::Black, Kind::Rook) == placed(rows, Kind::Rook, Color::Black));
        assert(board.bb(Color::Black, Kind::Queen) == placed(rows, Kind::Queen, Color::Black));
        assert(board.bb(Color::Black, Kind::King) == placed(rows, Kind::King, Color::Black));
    }
    Ok(board)
}

/// Whether `c` occurs in `chars` from `start` to `end`.
pub fn contains_char(chars: &Vec<char>, start: usize, end: usize, c: char) -> (r: bool)
    requires
        start <= end <= chars.len(),
    ensures
        r == chars@.subrange(start as int, end as int).contains(c),
{
    let ghost text = chars@.subrange(start as int, end as int);
    let mut i = start;
    while i < end
        invariant
            start <= i <= end <= chars.len(),
            text == chars@.subrange(start as int, end as int),
            forall|k: int| 0 <= k < i - start ==> text[k] != c,
        decreases end - i,
    {
        if chars[i] == c {
            proof {
                assert(text[i - start] == c);
            }
            return true;
        }
        i += 1;
    }
    false
}

/// In a position read from text the twelve pieces carry their own kind and colour, and no
/// square is held twice.
pub proof fn lemma_parsed_disjoint(text: Seq<char>)
    requires
        parse_fen(text).is_some(),
    ensures
        parse_fen(text).unwrap().tagged(),
        parse_fen(text).unwrap().disjoint(),
{
    let board = parse_fen(text).unwrap();
    let rows = placement(field(text, 0).unwrap()).unwrap();
    assert forall|c1: Color, k1: Kind, c2: Color, k2: Kind, u: int|
        0 <= u < 64 && (c1 != c2 || k1 != k2) implies !(#[trigger] bit(board.bb(c1, k1), u)
        && #[trigger] bit(board.bb(c2, k2), u)) by {
        assert(board.bb(c1, k1) == placed(rows, k1, c1));
        assert(board.bb(c2, k2) == placed(rows, k2, c2));
        crate::bitboard::lemma_squares(|i: int| rows[7 - i / 8][i % 8] == Some((k1, c1)));
        crate::bitboard::lemma_squares(|i: int| rows[7 - i / 8][i % 8] == Some((k2, c2)));
    }
}

impl Board {
    /// The position that `fen` describes in Forsyth-Edwards notation, or `InvalidFEN` where
    /// one of the first four fields is missing or malformed. In the position no square is
    /// held twice; how many kings it has is not looked at.
    pub fn from_fen(fen: &str) -> (r: Result<Board, ChessMgError>)
        ensures
            match parse_fen(fen@) {
                Some(board) => r == Ok::<Board, ChessMgError>(board),
                None => r matches Err(ChessMgError::InvalidFEN(_)),
            },
            r matches Ok(board) ==> board.tagged() && board.disjoint(),
    {
        let chars = chars_of(fen);
        let ghost text = chars@;
        proof {
            reveal_with_fuel(field_from, 5);
            if parse_fen(fen@).is_some() {
                lemma_parsed_disjoint(fen@);
            }
        }
        let (a0, b0) = match find_field(&chars, 0) {
            Some(found) => found,
            None => {
                return Err(ChessMgError::InvalidFEN(String::from_str("Expected at least 4 fields")));
            },
        };
        let (a1, b1) = match find_field(&chars, b0) {
            Some(found) => found,
            None => {
                return Err(ChessMgError::InvalidFEN(String::from_str("Expected at least 4 fields")));
            },
        };
        let (a2, b2) = match find_field(&chars, b1) {
            Some(found) => found,
            None => {
                return Err(ChessMgError::InvalidFEN(String::from_str("Expected at least 4 fields")));
            },
        };
        let (a3, b3) = match find_field(&chars, b2) {
            Some(found) => found,
            None => {
                return Err(ChessMgError::InvalidFEN(String::from_str("Expected at least 4 fields")));
            },
        };
        proof {
            assert(field(text, 0) == Some(text.subrange(a0 as int, b0 as int)));
            assert(field(text, 1) == Some(text.subrange(a1 as int, b1 as int)));
            assert(field(text, 2) == Some(text.subrange(a2 as int, b2 as int)));
            assert(field(text, 3) == Some(text.subrange(a3 as int, b3 as int)));
        }
        let mut board = match read_placement(&chars, a0, b0) {
            Ok(board) => board,
            Err(PlacementError::RowCount) => {
                return Err(ChessMgError::InvalidFEN(String::from_str("Expected 8 ranks")));
            },
            Err(PlacementError::RowTooLong) => {
                return Err(ChessMgError::InvalidFEN(String::from_str("Too many squares in rank")));
            },
            Err(PlacementError::RowTooShort) => {
                return Err(
                    ChessMgError::InvalidFEN(String::from_str("A rank did not fill 8 files")),
                );
            },
            Err(PlacementError::BadCharacter) => {
                return Err(ChessMgError::InvalidFEN(String::from_str("Invalid piece char")));
            },
        };
        let ghost side = text.subrange(a1 as int, b1 as int);
        if b1 - a1 == 1 && chars[a1] == 'w' {
            board.to_move = Color::White;
        } else if b1 - a1 == 1 && chars[a1] == 'b' {
            board.to_move = Color::Black;
        } else {
            proof {
                assert(side.len() == b1 - a1);
                assert(side[0] == chars[a1 as int]);
            }
            return Err(ChessMgError::InvalidFEN(String::from_str("Active color is invalid")));
        }
        proof {
            assert(side[0] == chars[a1 as int]);
        }
        board.casteling_rights.white_kingside = contains_char(&chars, a2, b2, 'K');
        board.casteling_rights.white_queenside = contains_char(&chars, a2, b2, 'Q');
        board.casteling_rights.black_kingside = contains_char(&chars, a2, b2, 'k');
        board.casteling_rights.black_queenside = contains_char(&chars, a2, b2, 'q');
        let ghost passant = text.subrange(a3 as int, b3 as int);
        proof {
            assert(passant[0] == chars[a3 as int]);
        }
        if b3 - a3 == 1 && chars[a3] == '-' {
            board.en_passant = None;
        } else {
            let named = if b3 - a3 == 2 {
                proof {
                    assert(passant =~= seq![chars[a3 as int], chars[a3 + 1]]);
                }
                square_from_chars(chars[a3], chars[a3 + 1])
            } else {
                None
            };
            match named {
                Some(square) => {
                    board.en_passant = Some(square);
                },
                None => {
                    return Err(
                        ChessMgError::InvalidFEN(
                            String::from_str("En passant square is invalid"),
                        ),
                    );
                },
            }
        }
        Ok(board)
    }
}

} // verus!
