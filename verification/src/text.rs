//! Diagrams of bitboards, positions and moves as text.
use crate::bitboard::{bit, lemma_bit_test, Bitboard};
use crate::board::Board;
use crate::move_gen::Move;
use crate::piece::figurine;
use crate::utils::Square;
use vstd::prelude::*;

verus! {

/// Calls `String::from_iter` on the characters of a vector. Taken on trust: the string is
/// made of these characters, in their order.
#[verifier::external_body]
fn string_of(chars: &Vec<char>) -> (r: String)
    ensures
        r@ == chars@,
{
    String::from_iter(chars)
}

/// The digit that names rank `rank`, counted from 0.
pub open spec fn rank_digit(rank: int) -> char {
    (('1' as u32 + rank) as u32) as char
}

/// The first `n` squares of a rank in a diagram, from the a-file on, each followed by a
/// space.
pub open spec fn squares_text(cells: Seq<char>, rank: int, n: nat) -> Seq<char> {
    Seq::new(
        2 * n,
        |j: int|
            if j % 2 == 0 {
                cells[8 * rank + j / 2]
            } else {
                ' '
            },
    )
}

/// One row of a diagram: the rank digit and a space if the row is labelled, then the eight
/// squares of the rank, then a line feed.
pub open spec fn row_text(cells: Seq<char>, rank: int, labelled: bool) -> Seq<char> {
    (if labelled {
        seq![rank_digit(rank), ' ']
    } else {
        Seq::empty()
    }) + squares_text(cells, rank, 8) + seq!['\n']
}

/// The `n` highest rows of a diagram, the eighth rank first.
pub open spec fn rows_text(cells: Seq<char>, n: nat, labelled: bool) -> Seq<char>
    decreases n,
{
    if n == 0 {
        Seq::empty()
    } else {
        rows_text(cells, (n - 1) as nat, labelled) + row_text(cells, 8 - n, labelled)
    }
}

/// The line that names the files under a labelled diagram.
pub open spec fn legend() -> Seq<char> {
    seq![
        ' ', ' ', 'a', ' ', 'b', ' ', 'c', ' ', 'd', ' ', 'e', ' ', 'f', ' ', 'g', ' ', 'h', '\n',
    ]
}

/// The diagram of a bitboard: a line feed, then eight rows with `1` for the squares of the
/// set and `.` for the others.
pub open spec fn bitboard_text(x: u64) -> Seq<char> {
    seq!['\n'] + rows_text(
        Seq::new(
            64,
            |i: int|
                if bit(x, i) {
                    '1'
                } else {
                    '.'
                },
        ),
        8,
        false,
    )
}

/// The diagram of a position: eight labelled rows with the figurine of each piece and `.`
/// for the empty squares, then the legend.
pub open spec fn board_text(board: Board) -> Seq<char> {
    rows_text(
        Seq::new(
            64,
            |i: int|
                match board.piece_on(i) {
                    Some(piece) => figurine(piece.kind, piece.color),
                    None => '.',
                },
        ),
        8,
        true,
    ) + legend()
}

/// The diagram of a move: eight labelled rows with `#` for the destination, `o` for the
/// origin and `.` for the other squares, then the legend.
pub open spec fn move_text(m: Move) -> Seq<char> {
    rows_text(
        Seq::new(
            64,
            |i: int|
                if i == m.to.index() {
                    '#'
                } else if i == m.from.index() {
                    'o'
                } else {
                    '.'
                },
        ),
        8,
        true,
    ) + legend()
}

/// Appends the rows of a diagram of the 64 squares of `cells` to `out`.
fn push_rows(out: &mut Vec<char>, cells: &Vec<char>, labelled: bool)
    requires
        cells.len() == 64,
    ensures
        final(out)@ == old(out)@ + rows_text(cells@, 8, labelled),
{
    let ghost start = out@;
    let mut row: usize = 0;
    proof {
        assert(start + rows_text(cells@, 0, labelled) =~= start);
    }
    while row < 8
        invariant
            cells.len() == 64,
            row <= 8,
            out@ == start + rows_text(cells@, row as nat, labelled),
        decreases 8 - row,
    {
        let rank: usize = 7 - row;
        let ghost before = out@;
        if labelled {
            let digit = match rank {
                0 => '1',
                1 => '2',
                2 => '3',
                3 => '4',
                4 => '5',
                5 => '6',
                6 => '7',
                _ => '8',
            };
            out.push(digit);
            out.push(' ');
        }
        let ghost lead = out@;
        let mut file: usize = 0;
        proof {
            assert(lead + squares_text(cells@, rank as int, 0) =~= lead);
        }
        while file < 8
            invariant
                cells.len() == 64,
                rank < 8,
                file <= 8,
                out@ == lead + squares_text(cells@, rank as int, file as nat),
            decreases 8 - file,
        {
            let ghost was = out@;
            out.push(cells[8 * rank + file]);
            out.push(' ');
            proof {
                assert(out@ =~= lead + squares_text(cells@, rank as int, (file + 1) as nat));
            }
            file += 1;
        }
        out.push('\n');
        proof {
            let cells_text = squares_text(cells@, rank as int, 8);
            assert(out@ =~= lead + cells_text + seq!['\n']);
            assert(lead =~= before + (if labelled {
                seq![rank_digit(rank as int), ' ']
            } else {
                Seq::empty()
            }));
            assert(out@ =~= before + row_text(cells@, rank as int, labelled));
            assert(rows_text(cells@, (row + 1) as nat, labelled) == rows_text(
                cells@,
                row as nat,
                labelled,
            ) + row_text(cells@, 8 - (row + 1), labelled));
            assert(out@ =~= start + rows_text(cells@, (row + 1) as nat, labelled));
        }
        row += 1;
    }
}

/// Appends the legend to `out`.
fn push_legend(out: &mut Vec<char>)
    ensures
        final(out)@ == old(out)@ + legend(),
{
    let ghost start = out@;
    out.push(' ');
    out.push(' ');
    out.push('a');
    out.push(' ');
    out.push('b');
    out.push(' ');
    out.push('c');
    out.push(' ');
    out.push('d');
    out.push(' ');
    out.push('e');
    out.push(' ');
    out.push('f');
    out.push(' ');
    out.push('g');
    out.push(' ');
    out.push('h');
    out.push('\n');
    proof {
        assert(out@ =~= start + legend());
    }
}

impl Bitboard {
    /// The diagram of the set: a line feed, then eight rows from the eighth rank down with
    /// `1` for the squares of the set and `.` for the others.
    pub fn to_string(&self) -> (r: String)
        ensures
            r@ == bitboard_text(self.0),
    {
        let mut cells: Vec<char> = Vec::new();
        let mut i: usize = 0;
        while i < 64
            invariant
                i <= 64,
                cells.len() == i,
                forall|k: int|
                    0 <= k < i ==> cells@[k] == if bit(self.0, k) {
                        '1'
                    } else {
                        '.'
                    },
            decreases 64 - i,
        {
            proof {
                lemma_bit_test(self.0, i as int);
            }
            if self.0 & (1u64 << i) != 0 {
                cells.push('1');
            } else {
                cells.push('.');
            }
            i += 1;
        }
        let mut out: Vec<char> = Vec::new();
        out.push('\n');
        push_rows(&mut out, &cells, false);
        proof {
            assert(cells@ =~= Seq::new(
                64,
                |i: int|
                    if bit(self.0, i) {
                        '1'
                    } else {
                        '.'
                    },
            ));
            assert(out@ =~= bitboard_text(self.0));
        }
        string_of(&out)
    }
}

impl Board {
    /// The diagram of the position: eight rows from the eighth rank down, each with its
    /// number, the figurines of its pieces and `.` for its empty squares, then the legend.
    pub fn to_string(&self) -> (r: String)
        ensures
            r@ == board_text(*self),
    {
        let mut cells: Vec<char> = Vec::new();
        let mut i: usize = 0;
        while i < 64
            invariant
                i <= 64,
                cells.len() == i,
                forall|k: int|
                    0 <= k < i ==> cells@[k] == match self.piece_on(k) {
                        Some(piece) => figurine(piece.kind, piece.color),
                        None => '.',
                    },
            decreases 64 - i,
        {
            let symbol = match self.get_piece(Square::from_usize(i)) {
                Some(piece) => piece.get_char(),
                None => '.',
            };
            cells.push(symbol);
            i += 1;
        }
        let mut out: Vec<char> = Vec::new();
        push_rows(&mut out, &cells, true);
        push_legend(&mut out);
        proof {
            assert(cells@ =~= Seq::new(
                64,
                |i: int|
                    match self.piece_on(i) {
                        Some(piece) => figurine(piece.kind, piece.color),
                        None => '.',
                    },
            ));
            assert(out@ =~= board_text(*self));
        }
        string_of(&out)
    }
}

impl Move {
    /// The diagram of the move: eight numbered rows from the eighth rank down with `#` for
    /// the destination, `o` for the origin and `.` for the other squares, then the legend.
    pub fn diagram(&self) -> (r: String)
        ensures
            r@ == move_text(*self),
    {
        let to = self.to.to_usize();
        let from = self.from.to_usize();
        let mut cells: Vec<char> = Vec::new();
        let mut i: usize = 0;
        while i < 64
            invariant
                i <= 64,
                to == self.to.index(),
                from == self.from.index(),
                cells.len() == i,
                forall|k: int|
                    0 <= k < i ==> cells@[k] == if k == self.to.index() {
                        '#'
                    } else if k == self.from.index() {
                        'o'
                    } else {
                        '.'
                    },
            decreases 64 - i,
        {
            if i == to {
                cells.push('#');
            } else if i == from {
                cells.push('o');
            } else {
                cells.push('.');
            }
            i += 1;
        }
        let mut out: Vec<char> = Vec::new();
        push_rows(&mut out, &cells, true);
        push_legend(&mut out);
        proof {
            assert(cells@ =~= Seq::new(
                64,
                |i: int|
                    if i == self.to.index() {
                        '#'
                    } else if i == self.from.index() {
                        'o'
                    } else {
                        '.'
                    },
            ));
            assert(out@ =~= move_text(*self));
        }
        string_of(&out)
    }
}

} // verus!
