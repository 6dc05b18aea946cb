use boardcast::board::Perspective;
use boardcast::coords::render_cell;
use boardcast::engine::best_move_cells;
use boardcast::error::Error;

#[test]
fn best_move_pairs_parse_from_engine_replies() {
    let (from, to) = best_move_cells("bestmove b8c6 ponder e7e5").unwrap();
    assert_eq!(from, (7, 1));
    assert_eq!(to, (5, 2));
}

#[test]
fn best_move_b8c6_maps_to_render_cells_under_light_at_bottom() {
    // File b -> col 1; rank 8 is the top row when light is at the
    // bottom, so the from-cell renders at row 0; rank 6 renders at row 2.
    let (from, to) = best_move_cells("bestmove b8c6 ponder e7e5").unwrap();
    assert_eq!(render_cell(from, Perspective::LightAtBottom), (0, 1));
    assert_eq!(render_cell(to, Perspective::LightAtBottom), (2, 2));
}

#[test]
fn best_move_without_prefix_still_parses() {
    let (from, to) = best_move_cells("e2e4").unwrap();
    assert_eq!(from, (1, 4));
    assert_eq!(to, (3, 4));
}

#[test]
fn best_move_rejects_bad_replies() {
    assert_eq!(best_move_cells(""), Err(Error::MalformedAttribute));
    assert_eq!(best_move_cells("bestmove"), Err(Error::MalformedAttribute));
    assert_eq!(best_move_cells("bestmove e2"), Err(Error::MalformedAttribute));
    assert_eq!(best_move_cells("bestmove x9z0"), Err(Error::MalformedAttribute));
}
