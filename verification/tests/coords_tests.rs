use boardcast::board::Perspective;
use boardcast::coords::{algebraic_to_cell, cell_to_pixel_origin, percent_to_cell, render_cell};
use boardcast::error::Error;

#[test]
fn percent_zero_is_first_cell() {
    assert_eq!(percent_to_cell(0), Ok(0));
}

#[test]
fn percent_simple_cells() {
    // 12.5% steps: one cell each.
    assert_eq!(percent_to_cell(1250), Ok(1));
    assert_eq!(percent_to_cell(2500), Ok(2));
    assert_eq!(percent_to_cell(8750), Ok(7));
}

#[test]
fn percent_just_below_boundary_stays_in_cell() {
    assert_eq!(percent_to_cell(1249), Ok(0));
    assert_eq!(percent_to_cell(9999), Ok(7));
}

#[test]
fn percent_hundred_is_last_cell_not_past_it() {
    assert_eq!(percent_to_cell(10000), Ok(7));
}

#[test]
fn percent_above_hundred_is_rejected() {
    assert_eq!(percent_to_cell(10001), Err(Error::MalformedAttribute));
    assert_eq!(percent_to_cell(11250), Err(Error::MalformedAttribute));
}

#[test]
fn percent_is_monotone_on_samples() {
    let mut last = 0u8;
    for p in 0..=10000u32 {
        let c = percent_to_cell(p).unwrap();
        assert!(c >= last);
        assert!(c <= 7);
        last = c;
    }
}

#[test]
fn cell_pixel_origin_is_square_multiples() {
    assert_eq!(cell_to_pixel_origin(0, 0), (0, 0));
    assert_eq!(cell_to_pixel_origin(2, 3), (384, 256));
    assert_eq!(cell_to_pixel_origin(7, 7), (896, 896));
}

#[test]
fn algebraic_names_map_to_cells() {
    // col = file - 'a', row = rank - '1' (bottom-based).
    assert_eq!(algebraic_to_cell('a', '1'), Ok((0, 0)));
    assert_eq!(algebraic_to_cell('b', '8'), Ok((7, 1)));
    assert_eq!(algebraic_to_cell('h', '8'), Ok((7, 7)));
}

#[test]
fn algebraic_rejects_off_board_names() {
    assert_eq!(algebraic_to_cell('i', '1'), Err(Error::MalformedAttribute));
    assert_eq!(algebraic_to_cell('a', '9'), Err(Error::MalformedAttribute));
    assert_eq!(algebraic_to_cell('!', '0'), Err(Error::MalformedAttribute));
}

#[test]
fn render_cell_mirrors_row_for_light_at_bottom() {
    assert_eq!(render_cell((7, 1), Perspective::LightAtBottom), (0, 1));
    assert_eq!(render_cell((0, 0), Perspective::LightAtBottom), (7, 0));
}

#[test]
fn render_cell_mirrors_col_for_dark_at_bottom() {
    assert_eq!(render_cell((7, 1), Perspective::DarkAtBottom), (7, 6));
    assert_eq!(render_cell((3, 0), Perspective::DarkAtBottom), (3, 7));
}
