use boardcast::board::{get_color, get_piece_type, make_code, Board, Color, PieceType};

#[test]
fn piece_tokens_parse_from_fixed_vocabulary() {
    assert_eq!(PieceType::from_str("king"), Some(PieceType::King));
    assert_eq!(PieceType::from_str("queen"), Some(PieceType::Queen));
    assert_eq!(PieceType::from_str("rook"), Some(PieceType::Rook));
    assert_eq!(PieceType::from_str("bishop"), Some(PieceType::Bishop));
    assert_eq!(PieceType::from_str("knight"), Some(PieceType::Knight));
    assert_eq!(PieceType::from_str("pawn"), Some(PieceType::Pawn));
    assert_eq!(PieceType::from_str("King"), None);
    assert_eq!(PieceType::from_str("prawn"), None);
}

#[test]
fn color_tokens_parse_from_fixed_vocabulary() {
    assert_eq!(Color::from_str("light"), Some(Color::Light));
    assert_eq!(Color::from_str("dark"), Some(Color::Dark));
    assert_eq!(Color::from_str("Light"), None);
    assert_eq!(Color::from_str(""), None);
}

#[test]
fn square_codes_pack_color_and_kind() {
    assert_eq!(make_code(Color::Light, PieceType::King), 9);
    assert_eq!(make_code(Color::Light, PieceType::Pawn), 14);
    assert_eq!(make_code(Color::Dark, PieceType::King), 17);
    assert_eq!(make_code(Color::Dark, PieceType::Pawn), 22);
}

#[test]
fn color_letters() {
    assert_eq!(get_color(1), "W");
    assert_eq!(get_color(2), "B");
}

#[test]
fn piece_letters_follow_color_case() {
    assert_eq!(get_piece_type(9), "K");
    assert_eq!(get_piece_type(10), "Q");
    assert_eq!(get_piece_type(11), "R");
    assert_eq!(get_piece_type(12), "B");
    assert_eq!(get_piece_type(13), "N");
    assert_eq!(get_piece_type(14), "P");
    assert_eq!(get_piece_type(17), "k");
    assert_eq!(get_piece_type(22), "p");
}

#[test]
fn boards_start_empty_and_keep_writes() {
    let mut board = Board::new();
    for r in 0..8 {
        for c in 0..8 {
            assert_eq!(board.at(r, c), 0);
        }
    }
    board.put(2, 5, 9);
    assert_eq!(board.at(2, 5), 9);
    board.put(2, 5, 17);
    assert_eq!(board.at(2, 5), 17, "the last writer wins");
}

#[test]
fn point_reflection_moves_both_axes() {
    let mut board = Board::new();
    board.put(0, 1, 9);
    let reflected = board.point_reflect();
    assert_eq!(reflected.at(7, 6), 9);
    assert_eq!(reflected.at(0, 1), 0);
}

#[test]
fn point_reflection_twice_is_identity() {
    let mut board = Board::new();
    board.put(0, 0, 9);
    board.put(3, 4, 22);
    board.put(7, 7, 17);
    let twice = board.point_reflect().point_reflect();
    assert_eq!(twice.squares, board.squares);
}
