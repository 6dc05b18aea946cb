use boardcast::board::Perspective;
use boardcast::error::{Error, MissingPart};
use boardcast::extract::{extract, extract_from_html, parse_style, Snapshot};

fn chars(s: &str) -> Vec<char> {
    s.chars().collect()
}

fn snapshot() -> Snapshot {
    Snapshot {
        has_title: true,
        pieces: vec![
            (
                "light king".to_string(),
                "top:87.5%;left:50%".to_string(),
            ),
            (
                "dark queen".to_string(),
                "top:0%;left:37.5%".to_string(),
            ),
        ],
        players: vec![
            (
                "player dark".to_string(),
                "/@/someoneelse".to_string(),
            ),
            (
                "player light".to_string(),
                "/@/TheChannel".to_string(),
            ),
        ],
        last_moves: vec![
            "top:25%;left:37.5%".to_string(),
            "top:50%;left:62.5%".to_string(),
        ],
    }
}

#[test]
fn style_pairs_parse_with_whitespace_and_quotes() {
    assert_eq!(parse_style(&chars("top:50%;left:25%")), Some((5000, 2500)));
    assert_eq!(parse_style(&chars(" top : 12.5% ; left : 87.5% ")), Some((1250, 8750)));
    assert_eq!(parse_style(&chars("top:0%;left:100%\" trailing")), Some((0, 10000)));
    assert_eq!(parse_style(&chars("top:3.125%;left:0%")), Some((312, 0)));
}

#[test]
fn style_pairs_reject_bad_shapes() {
    assert_eq!(parse_style(&chars("")), None);
    assert_eq!(parse_style(&chars("top:50%")), None);
    assert_eq!(parse_style(&chars("left:50%;top:25%")), None);
    assert_eq!(parse_style(&chars("top:50;left:25%")), None);
    assert_eq!(parse_style(&chars("top:abc%;left:25%")), None);
    assert_eq!(parse_style(&chars("top:5.5.5%;left:25%")), None);
}

#[test]
fn extraction_reads_pieces_perspective_and_highlights() {
    let e = extract(&snapshot(), "thechannel").unwrap();
    // top 87.5% -> row 7, left 50% -> col 4: a light king, code 9.
    assert_eq!(e.board.at(7, 4), 9);
    // top 0% -> row 0, left 37.5% -> col 3: a dark queen, code 18.
    assert_eq!(e.board.at(0, 3), 18);
    assert_eq!(e.board.at(4, 4), 0);
    // The matched player's class list holds the light marker, so the
    // subject is playing the dark side.
    assert_eq!(e.perspective, Perspective::DarkAtBottom);
    assert_eq!(e.highlights, vec![(2, 3), (4, 5)]);
}

#[test]
fn subject_match_is_case_insensitive_containment() {
    let e = extract(&snapshot(), "THECHANNEL").unwrap();
    assert_eq!(e.perspective, Perspective::DarkAtBottom);
    let e2 = extract(&snapshot(), "chan").unwrap();
    assert_eq!(e2.perspective, Perspective::DarkAtBottom);
}

#[test]
fn unmatched_player_class_means_light_at_bottom() {
    let mut snap = snapshot();
    snap.players = vec![("player dark".to_string(), "/@/TheChannel".to_string())];
    let e = extract(&snap, "thechannel").unwrap();
    assert_eq!(e.perspective, Perspective::LightAtBottom);
}

#[test]
fn zero_piece_elements_fail_as_no_active_game() {
    let mut snap = snapshot();
    snap.pieces = vec![];
    assert_eq!(
        extract(&snap, "thechannel"),
        Err(Error::MarkupMissing(MissingPart::Pieces))
    );
}

#[test]
fn missing_title_fails() {
    let mut snap = snapshot();
    snap.has_title = false;
    assert_eq!(
        extract(&snap, "thechannel"),
        Err(Error::MarkupMissing(MissingPart::Title))
    );
}

#[test]
fn missing_players_fail_as_missing_orientation() {
    let mut snap = snapshot();
    snap.players = vec![];
    assert_eq!(
        extract(&snap, "thechannel"),
        Err(Error::MarkupMissing(MissingPart::Players))
    );
}

#[test]
fn no_matching_player_is_ambiguous_orientation() {
    assert_eq!(
        extract(&snapshot(), "nobodyhere"),
        Err(Error::AmbiguousOrientation)
    );
}

#[test]
fn malformed_piece_class_fails_closed() {
    let mut snap = snapshot();
    snap.pieces[1].0 = "purple king".to_string();
    assert_eq!(extract(&snap, "thechannel"), Err(Error::MalformedAttribute));
}

#[test]
fn malformed_piece_style_fails_closed() {
    let mut snap = snapshot();
    snap.pieces[0].1 = "top:150%;left:0%".to_string();
    assert_eq!(extract(&snap, "thechannel"), Err(Error::MalformedAttribute));
}

#[test]
fn malformed_last_move_fails_closed() {
    let mut snap = snapshot();
    snap.last_moves[0] = "nonsense".to_string();
    assert_eq!(extract(&snap, "thechannel"), Err(Error::MalformedAttribute));
}

#[test]
fn only_first_two_last_moves_are_kept() {
    let mut snap = snapshot();
    snap.last_moves.push("top:0%;left:0%".to_string());
    let e = extract(&snap, "thechannel").unwrap();
    assert_eq!(e.highlights, vec![(2, 3), (4, 5)]);
}

#[test]
fn overlapping_pieces_keep_the_last_writer() {
    let mut snap = snapshot();
    snap.pieces.push((
        "dark pawn".to_string(),
        "top:87.5%;left:50%".to_string(),
    ));
    let e = extract(&snap, "thechannel").unwrap();
    assert_eq!(e.board.at(7, 4), 22);
}

#[test]
fn html_pages_extract_end_to_end() {
    let html = "<html><head><title>Broadcast</title></head><body>\
        <piece class=\"light king\" style=\"top:87.5%;left:50%\"></piece>\
        <piece class=\"dark king\" style=\"top:0%;left:50%\"></piece>\
        <div class=\"player dark\"><a href=\"/@/other\">other</a></div>\
        <div class=\"player light\"><a href=\"/@/TheChannel\">ch</a></div>\
        <div class=\"last-move\" style=\"top:25%;left:37.5%\"></div>\
        <div class=\"last-move\" style=\"top:50%;left:62.5%\"></div>\
        </body></html>";
    let e = extract_from_html(html, "thechannel").unwrap();
    assert_eq!(e.board.at(7, 4), 9);
    assert_eq!(e.board.at(0, 4), 17);
    assert_eq!(e.perspective, Perspective::DarkAtBottom);
    assert_eq!(e.highlights, vec![(2, 3), (4, 5)]);
}

#[test]
fn html_without_pieces_is_no_active_game() {
    let html = "<html><head><title>Broadcast</title></head><body>\
        <div class=\"player light\"><a href=\"/@/TheChannel\">ch</a></div>\
        </body></html>";
    assert_eq!(
        extract_from_html(html, "thechannel"),
        Err(Error::MarkupMissing(MissingPart::Pieces))
    );
}

#[test]
fn html_without_title_fails() {
    let html = "<html><body><piece class=\"light king\" style=\"top:0%;left:0%\"></piece></body></html>";
    assert_eq!(
        extract_from_html(html, "x"),
        Err(Error::MarkupMissing(MissingPart::Title))
    );
}
