use chess_mg::{Board, Color, Kind, Move, Square};

#[test]
fn the_starting_position_as_a_diagram() {
    let expected = "\
8 ♜ ♞ ♝ ♛ ♚ ♝ ♞ ♜ \n\
7 ♟ ♟ ♟ ♟ ♟ ♟ ♟ ♟ \n\
6 . . . . . . . . \n\
5 . . . . . . . . \n\
4 . . . . . . . . \n\
3 . . . . . . . . \n\
2 ♙ ♙ ♙ ♙ ♙ ♙ ♙ ♙ \n\
1 ♖ ♘ ♗ ♕ ♔ ♗ ♘ ♖ \n  a b c d e f g h\n";
    assert_eq!(Board::default().to_string(), expected);
}

#[test]
fn a_move_as_a_diagram() {
    let m = Move {
        piece_kind: Kind::Knight,
        piece_color: Color::White,
        from: Square::G1,
        to: Square::F3,
        casteling: false,
        promoting_piece: None,
        double_push: false,
        en_passant: false,
        captured_piece: None,
    };
    let expected = "\
8 . . . . . . . . \n\
7 . . . . . . . . \n\
6 . . . . . . . . \n\
5 . . . . . . . . \n\
4 . . . . . . . . \n\
3 . . . . . # . . \n\
2 . . . . . . . . \n\
1 . . . . . . o . \n  a b c d e f g h\n";
    assert_eq!(m.diagram(), expected);
    let stay = Move { to: Square::G1, ..m };
    assert!(stay.diagram().contains("1 . . . . . . # . \n"));
}
