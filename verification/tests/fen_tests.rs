use boardcast::board::{Board, Perspective};
use boardcast::fen::{decode_placement, encode_to_fen, side_to_move};

fn code(light: bool, kind: u8) -> u8 {
    if light {
        8 + kind
    } else {
        16 + kind
    }
}

#[test]
fn empty_board_rows_encode_as_eight() {
    let board = Board::new();
    let fen = encode_to_fen(&board, "w");
    assert_eq!(fen, "8/8/8/8/8/8/8/8 w KQkq - 0 1");
}

#[test]
fn starting_position_encodes_exactly() {
    // Row 0 is the rendered top edge: the dark back rank when the light
    // side is at the bottom.
    let mut board = Board::new();
    let back = [3u8, 5, 4, 2, 1, 4, 5, 3];
    for c in 0..8 {
        board.put(0, c, code(false, back[c]));
        board.put(1, c, code(false, 6));
        board.put(6, c, code(true, 6));
        board.put(7, c, code(true, back[c]));
    }
    let fen = encode_to_fen(&board, "w");
    assert_eq!(fen, "rnbqkbnr/pppppppp/8/8/8/8/PPPPPPPP/RNBQKBNR w KQkq - 0 1");
}

#[test]
fn runs_flush_between_pieces() {
    let mut board = Board::new();
    board.put(3, 2, code(true, 1));
    board.put(3, 5, code(false, 2));
    let fen = encode_to_fen(&board, "b");
    assert_eq!(fen, "8/8/8/2K2q2/8/8/8/8 b KQkq - 0 1");
}

#[test]
fn side_to_move_follows_perspective() {
    assert_eq!(side_to_move(Perspective::LightAtBottom), "w");
    assert_eq!(side_to_move(Perspective::DarkAtBottom), "b");
}

#[test]
fn dark_at_bottom_encodes_the_reflected_board() {
    let mut board = Board::new();
    board.put(0, 0, code(true, 3));
    let flipped = board.for_notation(Perspective::DarkAtBottom);
    let fen = encode_to_fen(&flipped, side_to_move(Perspective::DarkAtBottom));
    assert_eq!(fen, "8/8/8/8/8/8/8/7R b KQkq - 0 1");
}

#[test]
fn light_at_bottom_encodes_the_board_as_is() {
    let mut board = Board::new();
    board.put(0, 0, code(true, 3));
    let same = board.for_notation(Perspective::LightAtBottom);
    let fen = encode_to_fen(&same, side_to_move(Perspective::LightAtBottom));
    assert_eq!(fen, "R7/8/8/8/8/8/8/8 w KQkq - 0 1");
}

#[test]
fn placement_round_trips_for_full_board() {
    // One piece on every cell.
    let mut board = Board::new();
    for r in 0..8 {
        for c in 0..8 {
            let kind = ((r + c) % 6 + 1) as u8;
            board.put(r, c, code((r + c) % 2 == 0, kind));
        }
    }
    let fen = encode_to_fen(&board, "w");
    let placement = fen.split(' ').next().unwrap();
    let decoded = decode_placement(placement).unwrap();
    assert_eq!(decoded.squares, board.squares);
}

#[test]
fn placement_round_trips_with_runs() {
    let mut board = Board::new();
    board.put(0, 7, code(false, 1));
    board.put(4, 0, code(true, 1));
    board.put(4, 4, code(true, 6));
    let fen = encode_to_fen(&board, "w");
    let placement = fen.split(' ').next().unwrap();
    let decoded = decode_placement(placement).unwrap();
    assert_eq!(decoded.squares, board.squares);
}

#[test]
fn decode_rejects_bad_placements() {
    assert!(decode_placement("").is_none());
    assert!(decode_placement("9/8/8/8/8/8/8/8").is_none());
    assert!(decode_placement("8/8/8/8/8/8/8").is_none());
    assert!(decode_placement("ppppppppp/8/8/8/8/8/8/8").is_none());
    assert!(decode_placement("8/8/8/8/8/8/8/8/8").is_none());
    assert!(decode_placement("x7/8/8/8/8/8/8/8").is_none());
}

#[test]
fn decode_reads_mixed_rows() {
    let decoded = decode_placement("8/8/8/2K2q2/8/8/8/8").unwrap();
    assert_eq!(decoded.squares[3 * 8 + 2], 9);
    assert_eq!(decoded.squares[3 * 8 + 5], 18);
    assert_eq!(decoded.squares[0], 0);
}
