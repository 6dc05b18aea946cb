use boardcast::board::{Board, Perspective};
use boardcast::error::Error;
use boardcast::render::{
    composite, place_piece, render_board, solid_sprite, sprite_file_name, tile_file_name,
    Assets, Sprite,
};

fn white() -> (u8, u8, u8, u8) {
    (255, 255, 255, 255)
}

fn pixel(s: &Sprite, x: u32, y: u32) -> (u8, u8, u8, u8) {
    let base = (4 * (y * s.width + x)) as usize;
    (
        s.pixels[base],
        s.pixels[base + 1],
        s.pixels[base + 2],
        s.pixels[base + 3],
    )
}

fn assets() -> Assets {
    let mut pieces = Vec::new();
    for _ in 0..12 {
        pieces.push(solid_sprite(16, 16, (10, 20, 30, 255)));
    }
    Assets {
        base: solid_sprite(1024, 1024, white()),
        tile_a: solid_sprite(128, 128, (100, 50, 0, 255)),
        tile_b: solid_sprite(128, 128, (180, 140, 90, 255)),
        pieces,
    }
}

#[test]
fn sprite_files_follow_the_naming_convention() {
    assert_eq!(sprite_file_name(9), "w_king_png_128px.png");
    assert_eq!(sprite_file_name(14), "w_pawn_png_128px.png");
    assert_eq!(sprite_file_name(17), "b_king_png_128px.png");
    assert_eq!(sprite_file_name(20), "b_bishop_png_128px.png");
    assert_eq!(tile_file_name(true), "square brown dark_png_128px.png");
    assert_eq!(tile_file_name(false), "square brown light_png_128px.png");
}

#[test]
fn compositing_skips_transparent_pixels() {
    let mut dest = solid_sprite(4, 4, white());
    let mut src = solid_sprite(2, 2, (9, 9, 9, 255));
    // Make one source pixel fully transparent.
    src.pixels[3] = 0;
    composite(&mut dest, &src, 1, 1).unwrap();
    assert_eq!(pixel(&dest, 1, 1), (255, 255, 255, 255), "transparent pixel left alone");
    assert_eq!(pixel(&dest, 2, 1), (9, 9, 9, 255));
    assert_eq!(pixel(&dest, 1, 2), (9, 9, 9, 255));
    assert_eq!(pixel(&dest, 0, 0), (255, 255, 255, 255));
}

#[test]
fn compositing_out_of_bounds_is_a_fault() {
    let mut dest = solid_sprite(128, 128, white());
    let src = solid_sprite(256, 256, (9, 9, 9, 255));
    assert_eq!(composite(&mut dest, &src, 0, 0), Err(Error::RenderBoundsExceeded));
}

#[test]
fn highlighted_squares_differ_from_the_background() {
    // Two highlighted squares at cells (2, 3) and (4, 5), fully opaque
    // single-color tiles: those squares' pixels must end up visually
    // distinct from the white background.
    let board = Board::new();
    let highlights = vec![(2u8, 3u8), (4u8, 5u8)];
    let img = render_board(
        &board,
        Perspective::LightAtBottom,
        &highlights,
        (0, 0),
        (1, 1),
        &assets(),
    )
    .unwrap();
    assert_ne!(pixel(&img, 3 * 128 + 64, 2 * 128 + 64), white());
    assert_ne!(pixel(&img, 5 * 128 + 64, 4 * 128 + 64), white());
    assert_eq!(pixel(&img, 3 * 128 + 64, 2 * 128 + 64), (100, 50, 0, 255));
    assert_eq!(pixel(&img, 5 * 128 + 64, 4 * 128 + 64), (180, 140, 90, 255));
    // An untouched square keeps the background color.
    assert_eq!(pixel(&img, 2 * 128 + 64, 2 * 128 + 64), white());
}

#[test]
fn best_move_squares_are_filled_with_the_two_colors() {
    let board = Board::new();
    let img = render_board(
        &board,
        Perspective::LightAtBottom,
        &Vec::new(),
        (0, 0),
        (1, 1),
        &assets(),
    )
    .unwrap();
    // (0, 0) bottom-based renders at row 7, col 0; (1, 1) at row 6, col 1.
    assert_eq!(pixel(&img, 64, 7 * 128 + 64), (204, 202, 62, 255));
    assert_eq!(pixel(&img, 128 + 64, 6 * 128 + 64), (206, 214, 128, 255));
}

#[test]
fn dark_at_bottom_mirrors_best_move_columns() {
    let board = Board::new();
    let img = render_board(
        &board,
        Perspective::DarkAtBottom,
        &Vec::new(),
        (0, 0),
        (1, 1),
        &assets(),
    )
    .unwrap();
    // (row 0, col 0) bottom-based renders at row 0, col 7 for dark.
    assert_eq!(pixel(&img, 7 * 128 + 64, 64), (204, 202, 62, 255));
}

#[test]
fn occupied_cells_get_their_sprites() {
    let mut board = Board::new();
    board.put(2, 3, 9);
    let img = render_board(
        &board,
        Perspective::LightAtBottom,
        &Vec::new(),
        (0, 0),
        (1, 1),
        &assets(),
    )
    .unwrap();
    // A 16x16 sprite centered in the 128px square: offset 56 on each axis.
    assert_eq!(pixel(&img, 3 * 128 + 64, 2 * 128 + 64), (10, 20, 30, 255));
    assert_eq!(pixel(&img, 3 * 128 + 8, 2 * 128 + 8), white());
}

#[test]
fn wide_sprites_are_scaled_into_one_square_and_centered() {
    // A 256x128 opaque sprite must come out no wider than one square,
    // scaled to 128x64 and centered with 32 rows of padding above and
    // below.
    let mut dest = solid_sprite(1024, 1024, white());
    let sprite = solid_sprite(256, 128, (7, 8, 9, 255));
    place_piece(&mut dest, &sprite, 0, 0).unwrap();
    assert_eq!(pixel(&dest, 64, 64), (7, 8, 9, 255));
    assert_eq!(pixel(&dest, 64, 16), white(), "above the centered sprite");
    assert_eq!(pixel(&dest, 64, 112), white(), "below the centered sprite");
    assert_eq!(pixel(&dest, 64, 32), (7, 8, 9, 255), "top edge after centering");
    assert_eq!(pixel(&dest, 64, 95), (7, 8, 9, 255), "bottom edge after centering");
    assert_eq!(pixel(&dest, 130, 64), white(), "nothing beyond the square");
}

#[test]
fn too_tall_sprites_are_a_layout_fault() {
    let mut dest = solid_sprite(1024, 1024, white());
    let sprite = solid_sprite(100, 200, (7, 8, 9, 255));
    assert_eq!(
        place_piece(&mut dest, &sprite, 0, 0),
        Err(Error::RenderBoundsExceeded)
    );
}
