//! The board renderer: composites piece sprites, last-move highlight tiles
//! and best-move fills onto the base board image, all as in-memory RGBA
//! pixel rectangles.

use vstd::prelude::*;
use vstd::arithmetic::div_mod::{
    lemma_div_is_ordered_by_denominator, lemma_fundamental_div_mod,
    lemma_fundamental_div_mod_converse,
};
use crate::board::{Board, code_color, code_kind, valid_code};
use crate::coords::{SQUARE_SIZE, BOARD_SIZE, spec_render_cell, render_cell};
use crate::board::Perspective;
use crate::error::Error;

verus! {

/// An RGBA raster: `width * height` pixels of four bytes each, row-major,
/// channel order red, green, blue, alpha.
pub struct Sprite {
    pub width: u32,
    pub height: u32,
    pub pixels: Vec<u8>,
}

impl Sprite {
    /// The pixel buffer holds exactly four bytes per pixel.
    pub open spec fn wf(&self) -> bool {
        self.pixels@.len() == 4 * (self.width as int) * (self.height as int)
    }
}

/// The byte offset of pixel (x, y) in a raster of width `w`.
pub open spec fn pix(w: int, x: int, y: int) -> int {
    4 * (y * w + x)
}

/// One byte of the result of alpha-compositing `src` onto `dest0` with its
/// top-left corner at (x0, y0): inside the source rectangle a byte comes
/// from the source unless the source pixel is fully transparent; every
/// other byte keeps its old value.
pub open spec fn blend_px(
    dest0: Seq<u8>,
    dw: int,
    src: Seq<u8>,
    sw: int,
    sh: int,
    x0: int,
    y0: int,
    k: int,
) -> u8 {
    let p = k / 4;
    let ch = k % 4;
    let x = p % dw;
    let y = p / dw;
    if x0 <= x < x0 + sw && y0 <= y < y0 + sh && src[pix(sw, x - x0, y - y0) + 3] != 0 {
        src[pix(sw, x - x0, y - y0) + ch]
    } else {
        dest0[k]
    }
}

/// The whole result of alpha-compositing `src` onto `dest0` at (x0, y0).
pub open spec fn spec_composite(
    dest0: Seq<u8>,
    dw: int,
    src: Seq<u8>,
    sw: int,
    sh: int,
    x0: int,
    y0: int,
) -> Seq<u8> {
    Seq::new(dest0.len(), |k: int| blend_px(dest0, dw, src, sw, sh, x0, y0, k))
}

/// `blend_px` restricted to the source columns before `i`, plus the rows
/// before `j` of column `i`: the part of the compositing already done
/// when the copy loop stands at column `i`, row `j`.
pub open spec fn blend_px_upto(
    dest0: Seq<u8>,
    dw: int,
    src: Seq<u8>,
    sw: int,
    sh: int,
    x0: int,
    y0: int,
    i: int,
    j: int,
    k: int,
) -> u8 {
    let p = k / 4;
    let ch = k % 4;
    let x = p % dw;
    let y = p / dw;
    if x0 <= x < x0 + sw && y0 <= y < y0 + sh && (x - x0 < i || (x - x0 == i && y - y0 < j))
        && src[pix(sw, x - x0, y - y0) + 3] != 0 {
        src[pix(sw, x - x0, y - y0) + ch]
    } else {
        dest0[k]
    }
}

/// The byte offset of channel `ch` of pixel (x, y) decomposes back into
/// its parts.
proof fn lemma_pix_offset(dw: int, x: int, y: int, ch: int)
    requires
        0 <= x < dw,
        0 <= y,
        0 <= ch < 4,
    ensures
        (pix(dw, x, y) + ch) / 4 == y * dw + x,
        (pix(dw, x, y) + ch) % 4 == ch,
        (y * dw + x) / dw == y,
        (y * dw + x) % dw == x,
{
    lemma_fundamental_div_mod_converse(pix(dw, x, y) + ch, 4, y * dw + x, ch);
    lemma_fundamental_div_mod_converse(y * dw + x, dw, y, x);
}

/// Every byte offset inside the source rectangle stays inside the source
/// buffer.
proof fn lemma_src_index_bound(sw: int, sh: int, x: int, y: int)
    requires
        0 <= x < sw,
        0 <= y < sh,
    ensures
        0 <= pix(sw, x, y),
        pix(sw, x, y) + 3 < 4 * sw * sh,
{
    assert(y * sw + x < sw * sh) by (nonlinear_arith)
        requires
            0 <= x < sw,
            0 <= y < sh,
    ;
    assert(0 <= y * sw) by (nonlinear_arith)
        requires
            0 <= y,
            0 < sw,
    ;
    assert(4 * sw * sh == 4 * (sw * sh)) by (nonlinear_arith);
}

/// Alpha-composites `src` onto `dest` with its top-left corner at pixel
/// (x0, y0). A source rectangle that would reach past the destination is
/// a fatal layout fault and leaves the destination untouched.
pub fn composite(dest: &mut Sprite, src: &Sprite, x0: u32, y0: u32) -> (r: Result<(), Error>)
    requires
        old(dest).wf(),
        src.wf(),
    ensures
        final(dest).wf(),
        final(dest).width == old(dest).width,
        final(dest).height == old(dest).height,
        r is Ok <==> x0 + src.width <= old(dest).width && y0 + src.height <= old(dest).height,
        r is Ok ==> final(dest).pixels@ == spec_composite(
            old(dest).pixels@,
            old(dest).width as int,
            src.pixels@,
            src.width as int,
            src.height as int,
            x0 as int,
            y0 as int,
        ),
        r is Err ==> r == Err::<(), Error>(Error::RenderBoundsExceeded) && final(dest).pixels@
            == old(dest).pixels@,
{
    let dw = dest.width;
    let dh = dest.height;
    let sw = src.width;
    let sh = src.height;
    if !(x0 <= dw && sw <= dw - x0 && y0 <= dh && sh <= dh - y0) {
        return Err(Error::RenderBoundsExceeded);
    }
    let dn = dest.pixels.len();
    let sn = src.pixels.len();
    let ghost dest0 = dest.pixels@;
    let mut i: u32 = 0;
    while i < sw
        invariant
            i <= sw,
            dest.width == dw,
            dest.height == dh,
            src.width == sw,
            src.height == sh,
            src.wf(),
            x0 + sw <= dw,
            y0 + sh <= dh,
            dn == dest0.len(),
            dn == 4 * (dw as int) * (dh as int),
            sn == 4 * (sw as int) * (sh as int),
            dest.pixels@.len() == dest0.len(),
            forall|k: int|
                0 <= k < dest0.len() ==> dest.pixels@[k] == blend_px_upto(
                    dest0,
                    dw as int,
                    src.pixels@,
                    sw as int,
                    sh as int,
                    x0 as int,
                    y0 as int,
                    i as int,
                    0,
                    k,
                ),
        decreases sw - i,
    {
        let mut j: u32 = 0;
        while j < sh
            invariant
                i < sw,
                j <= sh,
                dest.width == dw,
                dest.height == dh,
                src.width == sw,
                src.height == sh,
                src.wf(),
                x0 + sw <= dw,
                y0 + sh <= dh,
                dn == dest0.len(),
                dn == 4 * (dw as int) * (dh as int),
                sn == 4 * (sw as int) * (sh as int),
                dest.pixels@.len() == dest0.len(),
                forall|k: int|
                    0 <= k < dest0.len() ==> dest.pixels@[k] == blend_px_upto(
                        dest0,
                        dw as int,
                        src.pixels@,
                        sw as int,
                        sh as int,
                        x0 as int,
                        y0 as int,
                        i as int,
                        j as int,
                        k,
                    ),
            decreases sh - j,
        {
            proof {
                lemma_src_index_bound(sw as int, sh as int, i as int, j as int);
            }
            let sbase: usize = 4 * ((j as usize) * (sw as usize) + (i as usize));
            let alpha = src.pixels[sbase + 3];
            let x = x0 + i;
            let y = y0 + j;
            proof {
                lemma_src_index_bound(dw as int, dh as int, x as int, y as int);
            }
            let dbase: usize = 4 * ((y as usize) * (dw as usize) + (x as usize));
            let ghost before = dest.pixels@;
            if alpha != 0 {
                let p0 = src.pixels[sbase];
                let p1 = src.pixels[sbase + 1];
                let p2 = src.pixels[sbase + 2];
                dest.pixels.set(dbase, p0);
                dest.pixels.set(dbase + 1, p1);
                dest.pixels.set(dbase + 2, p2);
                dest.pixels.set(dbase + 3, alpha);
            }
            proof {
                assert forall|k: int| 0 <= k < dest0.len() implies dest.pixels@[k]
                    == blend_px_upto(
                    dest0,
                    dw as int,
                    src.pixels@,
                    sw as int,
                    sh as int,
                    x0 as int,
                    y0 as int,
                    i as int,
                    j as int + 1,
                    k,
                ) by {
                    lemma_fundamental_div_mod(k, 4);
                    lemma_fundamental_div_mod(k / 4, dw as int);
                    let p = k / 4;
                    let ch = k % 4;
                    let xx = p % (dw as int);
                    let yy = p / (dw as int);
                    if xx == x as int && yy == y as int {
                        lemma_pix_offset(dw as int, x as int, y as int, 0);
                        assert(p == (dw as int) * yy + xx);
                        assert((dw as int) * yy == yy * (dw as int)) by (nonlinear_arith);
                        assert(k == 4 * p + ch);
                        assert(k == dbase + ch);
                        lemma_src_index_bound(sw as int, sh as int, i as int, j as int);
                    } else {
                        assert(!(dbase <= k < dbase + 4)) by {
                            if dbase <= k < dbase + 4 {
                                lemma_fundamental_div_mod_converse(
                                    k,
                                    4,
                                    (y as int) * (dw as int) + (x as int),
                                    k - dbase,
                                );
                                lemma_pix_offset(dw as int, x as int, y as int, 0);
                            }
                        }
                        assert(dest.pixels@[k] == before[k]);
                    }
                }
            }
            j = j + 1;
        }
        proof {
            assert forall|k: int| 0 <= k < dest0.len() implies blend_px_upto(
                dest0,
                dw as int,
                src.pixels@,
                sw as int,
                sh as int,
                x0 as int,
                y0 as int,
                i as int,
                sh as int,
                k,
            ) == blend_px_upto(
                dest0,
                dw as int,
                src.pixels@,
                sw as int,
                sh as int,
                x0 as int,
                y0 as int,
                i as int + 1,
                0,
                k,
            ) by {
                lemma_fundamental_div_mod(k, 4);
                lemma_fundamental_div_mod(k / 4, dw as int);
            }
        }
        i = i + 1;
    }
    proof {
        assert(dest.pixels@ =~= spec_composite(
            dest0,
            dw as int,
            src.pixels@,
            sw as int,
            sh as int,
            x0 as int,
            y0 as int,
        ));
    }
    Ok(())
}

/// The channel of an RGBA color selected by a byte offset.
pub open spec fn chan(c: (u8, u8, u8, u8), ch: int) -> u8 {
    if ch == 0 {
        c.0
    } else if ch == 1 {
        c.1
    } else if ch == 2 {
        c.2
    } else {
        c.3
    }
}

/// The pixel buffer of a solid single-color raster.
pub open spec fn spec_solid(w: int, h: int, c: (u8, u8, u8, u8)) -> Seq<u8> {
    Seq::new((4 * w * h) as nat, |k: int| chan(c, k % 4))
}

/// Builds a solid single-color raster.
pub fn solid_sprite(w: u32, h: u32, c: (u8, u8, u8, u8)) -> (s: Sprite)
    requires
        4 * (w as int) * (h as int) <= usize::MAX,
    ensures
        s.wf(),
        s.width == w,
        s.height == h,
        s.pixels@ == spec_solid(w as int, h as int, c),
{
    proof {
        assert(4 * (w as int) * (h as int) == 4 * ((w as int) * (h as int))) by (nonlinear_arith);
    }
    let n: usize = (w as usize) * (h as usize);
    let mut pixels: Vec<u8> = Vec::new();
    let mut t: usize = 0;
    while t < n
        invariant
            t <= n,
            n == (w as int) * (h as int),
            4 * (w as int) * (h as int) == 4 * n,
            pixels@.len() == 4 * t,
            forall|k: int| 0 <= k < 4 * t ==> pixels@[k] == chan(c, k % 4),
        decreases n - t,
    {
        pixels.push(c.0);
        pixels.push(c.1);
        pixels.push(c.2);
        pixels.push(c.3);
        proof {
            assert forall|k: int| 0 <= k < 4 * t + 4 implies pixels@[k] == chan(c, k % 4) by {
                if k >= 4 * t {
                    lemma_fundamental_div_mod_converse(k, 4, t as int, k - 4 * t);
                }
            }
        }
        t = t + 1;
    }
    proof {
        assert(pixels@ =~= spec_solid(w as int, h as int, c));
    }
    Sprite { width: w, height: h, pixels }
}

/// Copies a byte vector.
fn copy_bytes(v: &Vec<u8>) -> (out: Vec<u8>)
    ensures
        out@ == v@,
{
    let mut out: Vec<u8> = Vec::new();
    let mut i: usize = 0;
    while i < v.len()
        invariant
            i <= v@.len(),
            out@ == v@.subrange(0, i as int),
        decreases v@.len() - i,
    {
        out.push(v[i]);
        proof {
            assert(out@ =~= v@.subrange(0, i as int + 1));
        }
        i = i + 1;
    }
    proof {
        assert(v@.subrange(0, v@.len() as int) =~= v@);
    }
    out
}

/// Copies a raster.
pub fn copy_of(s: &Sprite) -> (r: Sprite)
    ensures
        r.width == s.width,
        r.height == s.height,
        r.pixels@ == s.pixels@,
{
    Sprite { width: s.width, height: s.height, pixels: copy_bytes(&s.pixels) }
}

/// The pixels that the nearest-neighbor resampler produces for a source
/// buffer and a pair of target dimensions. Deterministic in its arguments:
/// it names what the image library computes.
pub uninterp spec fn resized_px(px: Seq<u8>, w: int, h: int, nw: int, nh: int) -> Seq<u8>;

/// Relies on image::imageops::resize with the nearest-neighbor filter: the
/// result is an RGBA buffer of exactly the requested dimensions, computed
/// from the source pixels and dimensions alone.
#[verifier::external_body]
fn resize_rgba(src: &Sprite, nw: u32, nh: u32) -> (r: Sprite)
    requires
        src.wf(),
        src.width >= 1,
        src.height >= 1,
        nw >= 1,
        nh >= 1,
    ensures
        r.wf(),
        r.width == nw,
        r.height == nh,
        r.pixels@ == resized_px(
            src.pixels@,
            src.width as int,
            src.height as int,
            nw as int,
            nh as int,
        ),
{
    let buf: image::RgbaImage =
        image::RgbaImage::from_raw(src.width, src.height, src.pixels.clone()).unwrap();
    let out = image::imageops::resize(&buf, nw, nh, image::imageops::FilterType::Nearest);
    Sprite { width: nw, height: nh, pixels: out.into_raw() }
}

/// The width of a piece sprite after scaling: one wider than a square is
/// brought down to exactly one square.
pub open spec fn scaled_w(w: int, h: int) -> int {
    if w > SQUARE_SIZE as int {
        SQUARE_SIZE as int
    } else {
        w
    }
}

/// The height of a piece sprite after scaling: reduced in the same ratio
/// as the width, and at least one pixel.
pub open spec fn scaled_h(w: int, h: int) -> int {
    if w > SQUARE_SIZE as int {
        let t = h * (SQUARE_SIZE as int) / w;
        if t < 1 {
            1
        } else {
            t
        }
    } else {
        h
    }
}

/// The pixels of a piece sprite after scaling.
pub open spec fn scaled_px(px: Seq<u8>, w: int, h: int) -> Seq<u8> {
    if w > SQUARE_SIZE as int {
        resized_px(px, w, h, SQUARE_SIZE as int, scaled_h(w, h))
    } else {
        px
    }
}

/// A sprite wider than one square comes out of scaling exactly one
/// square wide, scaling never widens a sprite, and a placed sprite's
/// leftover pixels split evenly between the two sides of the square,
/// the smaller half (by rounding down) on the left.
pub proof fn lemma_scaled_sprite_fits(w: int, h: int)
    requires
        w >= 1,
    ensures
        scaled_w(w, h) <= SQUARE_SIZE as int,
        scaled_w(w, h) <= w,
        w > SQUARE_SIZE as int ==> scaled_w(w, h) == SQUARE_SIZE as int,
        ({
            let left = (SQUARE_SIZE as int - scaled_w(w, h)) / 2;
            let right = SQUARE_SIZE as int - scaled_w(w, h) - left;
            left <= right <= left + 1 && left + scaled_w(w, h) + right == SQUARE_SIZE as int
        }),
{
    let d = SQUARE_SIZE as int - scaled_w(w, h);
    lemma_fundamental_div_mod(d, 2);
}

/// The result of compositing a sprite of at most one square's width and
/// height centered on a board cell, the leftover pixels split evenly
/// (rounding down on the left and the top); nothing if the sprite cannot
/// be centered inside the destination.
pub open spec fn spec_place_centered(
    dest0: Seq<u8>,
    dw: int,
    dh: int,
    px: Seq<u8>,
    w: int,
    h: int,
    row: int,
    col: int,
) -> Option<Seq<u8>> {
    if w > SQUARE_SIZE as int || h > SQUARE_SIZE as int {
        None
    } else {
        let x0 = col * (SQUARE_SIZE as int) + (SQUARE_SIZE as int - w) / 2;
        let y0 = row * (SQUARE_SIZE as int) + (SQUARE_SIZE as int - h) / 2;
        if x0 + w <= dw && y0 + h <= dh {
            Some(spec_composite(dest0, dw, px, w, h, x0, y0))
        } else {
            None
        }
    }
}

/// The result of scaling a piece sprite to the square and compositing it
/// centered on a board cell.
pub open spec fn spec_place_piece(
    dest0: Seq<u8>,
    dw: int,
    dh: int,
    px: Seq<u8>,
    w: int,
    h: int,
    row: int,
    col: int,
) -> Option<Seq<u8>> {
    spec_place_centered(
        dest0,
        dw,
        dh,
        scaled_px(px, w, h),
        scaled_w(w, h),
        scaled_h(w, h),
        row,
        col,
    )
}

/// Composites a sprite of at most one square's size centered on a board
/// cell.
fn place_centered(dest: &mut Sprite, sp: &Sprite, row: u32, col: u32) -> (r: Result<(), Error>)
    requires
        old(dest).wf(),
        sp.wf(),
        row < 8,
        col < 8,
    ensures
        final(dest).wf(),
        final(dest).width == old(dest).width,
        final(dest).height == old(dest).height,
        spec_place_centered(
            old(dest).pixels@,
            old(dest).width as int,
            old(dest).height as int,
            sp.pixels@,
            sp.width as int,
            sp.height as int,
            row as int,
            col as int,
        ) matches Some(m) ==> r is Ok && final(dest).pixels@ == m,
        spec_place_centered(
            old(dest).pixels@,
            old(dest).width as int,
            old(dest).height as int,
            sp.pixels@,
            sp.width as int,
            sp.height as int,
            row as int,
            col as int,
        ) is None ==> r == Err::<(), Error>(Error::RenderBoundsExceeded) && final(dest).pixels@ == old(
            dest,
        ).pixels@,
{
    if sp.width > SQUARE_SIZE || sp.height > SQUARE_SIZE {
        return Err(Error::RenderBoundsExceeded);
    }
    let x0 = col * SQUARE_SIZE + (SQUARE_SIZE - sp.width) / 2;
    let y0 = row * SQUARE_SIZE + (SQUARE_SIZE - sp.height) / 2;
    if !(x0 + sp.width <= dest.width && y0 + sp.height <= dest.height) {
        return Err(Error::RenderBoundsExceeded);
    }
    composite(dest, sp, x0, y0)
}

/// Scales a piece sprite to the square if it is wider than one, then
/// composites it centered on a board cell. A sprite that still cannot be
/// centered is a fatal layout fault.
pub fn place_piece(dest: &mut Sprite, sprite: &Sprite, row: u32, col: u32) -> (r: Result<
    (),
    Error,
>)
    requires
        old(dest).wf(),
        sprite.wf(),
        sprite.width >= 1,
        sprite.height >= 1,
        row < 8,
        col < 8,
    ensures
        final(dest).wf(),
        final(dest).width == old(dest).width,
        final(dest).height == old(dest).height,
        spec_place_piece(
            old(dest).pixels@,
            old(dest).width as int,
            old(dest).height as int,
            sprite.pixels@,
            sprite.width as int,
            sprite.height as int,
            row as int,
            col as int,
        ) matches Some(m) ==> r is Ok && final(dest).pixels@ == m,
        spec_place_piece(
            old(dest).pixels@,
            old(dest).width as int,
            old(dest).height as int,
            sprite.pixels@,
            sprite.width as int,
            sprite.height as int,
            row as int,
            col as int,
        ) is None ==> r == Err::<(), Error>(Error::RenderBoundsExceeded) && final(dest).pixels@ == old(
            dest,
        ).pixels@,
{
    if sprite.width > SQUARE_SIZE {
        let h64: u64 = (sprite.height as u64) * (SQUARE_SIZE as u64);
        let nh64: u64 = h64 / (sprite.width as u64);
        proof {
            lemma_fundamental_div_mod_converse(
                (sprite.height as int) * (SQUARE_SIZE as int),
                SQUARE_SIZE as int,
                sprite.height as int,
                0,
            );
            lemma_div_is_ordered_by_denominator(
                (sprite.height as int) * (SQUARE_SIZE as int),
                SQUARE_SIZE as int,
                sprite.width as int,
            );
            assert(nh64 <= sprite.height);
        }
        let nh: u32 = if nh64 < 1 {
            1u32
        } else {
            nh64 as u32
        };
        let scaled = resize_rgba(sprite, SQUARE_SIZE, nh);
        place_centered(dest, &scaled, row, col)
    } else {
        place_centered(dest, sprite, row, col)
    }
}

/// The position of an occupied square code's sprite in the asset list:
/// the light pieces first, king through pawn within each side.
pub open spec fn sprite_index(code: u8) -> int {
    (code_color(code) - 1) * 6 + code_kind(code) - 1
}

/// The sprite asset file for an occupied square code, under the asset
/// directory's fixed naming convention.
pub open spec fn spec_sprite_file_name(code: u8) -> Seq<char> {
    let k = code_kind(code);
    if code_color(code) == 1 {
        if k == 1 {
            "w_king_png_128px.png"@
        } else if k == 2 {
            "w_queen_png_128px.png"@
        } else if k == 3 {
            "w_rook_png_128px.png"@
        } else if k == 4 {
            "w_bishop_png_128px.png"@
        } else if k == 5 {
            "w_knight_png_128px.png"@
        } else {
            "w_pawn_png_128px.png"@
        }
    } else {
        if k == 1 {
            "b_king_png_128px.png"@
        } else if k == 2 {
            "b_queen_png_128px.png"@
        } else if k == 3 {
            "b_rook_png_128px.png"@
        } else if k == 4 {
            "b_bishop_png_128px.png"@
        } else if k == 5 {
            "b_knight_png_128px.png"@
        } else {
            "b_pawn_png_128px.png"@
        }
    }
}

/// Names the sprite asset file for an occupied square code.
pub fn sprite_file_name(code: u8) -> (r: String)
    requires
        valid_code(code),
        code != 0,
    ensures
        r@ == spec_sprite_file_name(code),
{
    let color = code / 8;
    let kind = code % 8;
    let s: &str = if color == 1 {
        if kind == 1 {
            "w_king_png_128px.png"
        } else if kind == 2 {
            "w_queen_png_128px.png"
        } else if kind == 3 {
            "w_rook_png_128px.png"
        } else if kind == 4 {
            "w_bishop_png_128px.png"
        } else if kind == 5 {
            "w_knight_png_128px.png"
        } else {
            "w_pawn_png_128px.png"
        }
    } else {
        if kind == 1 {
            "b_king_png_128px.png"
        } else if kind == 2 {
            "b_queen_png_128px.png"
        } else if kind == 3 {
            "b_rook_png_128px.png"
        } else if kind == 4 {
            "b_bishop_png_128px.png"
        } else if kind == 5 {
            "b_knight_png_128px.png"
        } else {
            "b_pawn_png_128px.png"
        }
    };
    s.to_owned()
}

/// The highlight tile asset file for a highlighted square, alternating by
/// position index.
pub open spec fn spec_tile_file_name(even: bool) -> Seq<char> {
    if even {
        "square brown dark_png_128px.png"@
    } else {
        "square brown light_png_128px.png"@
    }
}

/// Names the highlight tile asset file for a highlighted square.
pub fn tile_file_name(even: bool) -> (r: String)
    ensures
        r@ == spec_tile_file_name(even),
{
    if even {
        "square brown dark_png_128px.png".to_owned()
    } else {
        "square brown light_png_128px.png".to_owned()
    }
}

/// The sprite assets a rendering needs: the base board image, the two
/// highlight tiles, and one sprite per (side, piece kind).
pub struct Assets {
    pub base: Sprite,
    pub tile_a: Sprite,
    pub tile_b: Sprite,
    pub pieces: Vec<Sprite>,
}

impl Assets {
    /// The base image covers the whole board, and all twelve piece
    /// sprites exist and are non-empty.
    pub open spec fn wf(&self) -> bool {
        &&& self.base.wf()
        &&& self.base.width == BOARD_SIZE
        &&& self.base.height == BOARD_SIZE
        &&& self.tile_a.wf()
        &&& self.tile_b.wf()
        &&& self.pieces@.len() == 12
        &&& forall|i: int|
            0 <= i < 12 ==> (#[trigger] self.pieces@[i]).wf() && self.pieces@[i].width >= 1
                && self.pieces@[i].height >= 1
    }
}

/// The image after compositing the first `n` highlight tiles onto their
/// cells, tile A on even positions and tile B on odd ones; nothing as
/// soon as a tile reaches past the board.
pub open spec fn spec_tiles_fold(
    img: Seq<u8>,
    a: Assets,
    hs: Seq<(u8, u8)>,
    n: int,
) -> Option<Seq<u8>>
    decreases n,
{
    if n <= 0 {
        Some(img)
    } else {
        match spec_tiles_fold(img, a, hs, n - 1) {
            Some(m) => {
                let tile = if (n - 1) % 2 == 0 {
                    a.tile_a
                } else {
                    a.tile_b
                };
                let x0 = (hs[n - 1].1 as int) * (SQUARE_SIZE as int);
                let y0 = (hs[n - 1].0 as int) * (SQUARE_SIZE as int);
                if x0 + tile.width <= BOARD_SIZE && y0 + tile.height <= BOARD_SIZE {
                    Some(
                        spec_composite(
                            m,
                            BOARD_SIZE as int,
                            tile.pixels@,
                            tile.width as int,
                            tile.height as int,
                            x0,
                            y0,
                        ),
                    )
                } else {
                    None
                }
            },
            None => None,
        }
    }
}

/// Once a tile fails its bounds, later tiles do not revive the fold.
proof fn lemma_tiles_fold_none(img: Seq<u8>, a: Assets, hs: Seq<(u8, u8)>, i: int, n: int)
    requires
        0 <= i <= n,
        spec_tiles_fold(img, a, hs, i) is None,
    ensures
        spec_tiles_fold(img, a, hs, n) is None,
    decreases n - i,
{
    if i < n {
        lemma_tiles_fold_none(img, a, hs, i + 1, n);
    }
}

/// The image after filling one board cell with a solid color.
pub open spec fn spec_fill_cell(img: Seq<u8>, cell: (u8, u8), c: (u8, u8, u8, u8)) -> Seq<u8> {
    spec_composite(
        img,
        BOARD_SIZE as int,
        spec_solid(SQUARE_SIZE as int, SQUARE_SIZE as int, c),
        SQUARE_SIZE as int,
        SQUARE_SIZE as int,
        (cell.1 as int) * (SQUARE_SIZE as int),
        (cell.0 as int) * (SQUARE_SIZE as int),
    )
}

/// The image after compositing the sprites of the first `n` board squares
/// onto their cells; nothing as soon as one sprite cannot be placed.
pub open spec fn spec_pieces_fold(
    img: Seq<u8>,
    board: Seq<u8>,
    a: Assets,
    n: int,
) -> Option<Seq<u8>>
    decreases n,
{
    if n <= 0 {
        Some(img)
    } else {
        match spec_pieces_fold(img, board, a, n - 1) {
            Some(m) => {
                let code = board[n - 1];
                if code == 0 {
                    Some(m)
                } else {
                    let sp = a.pieces@[sprite_index(code)];
                    spec_place_piece(
                        m,
                        BOARD_SIZE as int,
                        BOARD_SIZE as int,
                        sp.pixels@,
                        sp.width as int,
                        sp.height as int,
                        (n - 1) / 8,
                        (n - 1) % 8,
                    )
                }
            },
            None => None,
        }
    }
}

/// Once a sprite fails its bounds, later squares do not revive the fold.
proof fn lemma_pieces_fold_none(img: Seq<u8>, board: Seq<u8>, a: Assets, i: int, n: int)
    requires
        0 <= i <= n,
        spec_pieces_fold(img, board, a, i) is None,
    ensures
        spec_pieces_fold(img, board, a, n) is None,
    decreases n - i,
{
    if i < n {
        lemma_pieces_fold_none(img, board, a, i + 1, n);
    }
}

/// The rendered board image: the base image, then the highlight tiles,
/// then the two solid best-move fills on the perspective-adjusted
/// best-move squares, then every occupied square's sprite, scaled and
/// centered; nothing as soon as any step reaches past the board.
pub open spec fn spec_render_board(
    board: Seq<u8>,
    p: Perspective,
    hs: Seq<(u8, u8)>,
    best_from: (u8, u8),
    best_to: (u8, u8),
    a: Assets,
) -> Option<Seq<u8>> {
    match spec_tiles_fold(a.base.pixels@, a, hs, hs.len() as int) {
        None => None,
        Some(m1) => {
            let m2 = spec_fill_cell(m1, spec_render_cell(best_from, p), (204u8, 202u8, 62u8, 255u8));
            let m3 = spec_fill_cell(m2, spec_render_cell(best_to, p), (206u8, 214u8, 128u8, 255u8));
            spec_pieces_fold(m3, board, a, 64)
        },
    }
}

/// Renders the annotated board image: highlight tiles on the highlighted
/// squares, solid fills on the perspective-adjusted best-move squares, and
/// a sprite on every occupied square. Any step that would reach past the
/// board aborts the rendering.
#[verifier::loop_isolation(false)]
pub fn render_board(
    board: &Board,
    p: Perspective,
    highlights: &Vec<(u8, u8)>,
    best_from: (u8, u8),
    best_to: (u8, u8),
    assets: &Assets,
) -> (r: Result<Sprite, Error>)
    requires
        board.wf(),
        assets.wf(),
        highlights@.len() <= 2,
        forall|i: int|
            0 <= i < highlights@.len() ==> (#[trigger] highlights@[i]).0 < 8
                && highlights@[i].1 < 8,
        best_from.0 < 8 && best_from.1 < 8,
        best_to.0 < 8 && best_to.1 < 8,
    ensures
        spec_render_board(board.squares@, p, highlights@, best_from, best_to, *assets)
            matches Some(m) ==> r matches Ok(s) && s.wf() && s.width == BOARD_SIZE && s.height
            == BOARD_SIZE && s.pixels@ == m,
        spec_render_board(board.squares@, p, highlights@, best_from, best_to, *assets)
            is None ==> r == Err::<Sprite, Error>(Error::RenderBoundsExceeded),
{
    let mut img = copy_of(&assets.base);
    let mut t: usize = 0;
    while t < highlights.len()
        invariant
            t <= highlights@.len(),
            img.width == BOARD_SIZE,
            img.height == BOARD_SIZE,
            img.wf(),
            spec_tiles_fold(assets.base.pixels@, *assets, highlights@, t as int) == Some(
                img.pixels@,
            ),
        decreases highlights@.len() - t,
    {
        let cell = highlights[t];
        let x0 = (cell.1 as u32) * SQUARE_SIZE;
        let y0 = (cell.0 as u32) * SQUARE_SIZE;
        let res = if t % 2 == 0 {
            composite(&mut img, &assets.tile_a, x0, y0)
        } else {
            composite(&mut img, &assets.tile_b, x0, y0)
        };
        match res {
            Ok(()) => {},
            Err(_) => {
                proof {
                    lemma_tiles_fold_none(
                        assets.base.pixels@,
                        *assets,
                        highlights@,
                        t as int + 1,
                        highlights@.len() as int,
                    );
                }
                return Err(Error::RenderBoundsExceeded);
            },
        }
        t = t + 1;
    }
    let from_cell = render_cell(best_from, p);
    let from_tile = solid_sprite(SQUARE_SIZE, SQUARE_SIZE, (204u8, 202u8, 62u8, 255u8));
    let rf = composite(
        &mut img,
        &from_tile,
        (from_cell.1 as u32) * SQUARE_SIZE,
        (from_cell.0 as u32) * SQUARE_SIZE,
    );
    match rf {
        Ok(()) => {},
        Err(_) => {
            return Err(Error::RenderBoundsExceeded);
        },
    }
    let to_cell = render_cell(best_to, p);
    let to_tile = solid_sprite(SQUARE_SIZE, SQUARE_SIZE, (206u8, 214u8, 128u8, 255u8));
    let rt = composite(
        &mut img,
        &to_tile,
        (to_cell.1 as u32) * SQUARE_SIZE,
        (to_cell.0 as u32) * SQUARE_SIZE,
    );
    match rt {
        Ok(()) => {},
        Err(_) => {
            return Err(Error::RenderBoundsExceeded);
        },
    }
    let ghost after_fills = img.pixels@;
    let mut idx: usize = 0;
    while idx < 64
        invariant
            idx <= 64,
            img.width == BOARD_SIZE,
            img.height == BOARD_SIZE,
            img.wf(),
            spec_pieces_fold(after_fills, board.squares@, *assets, idx as int) == Some(
                img.pixels@,
            ),
        decreases 64 - idx,
    {
        let code = board.squares[idx];
        if code != 0 {
            let si: usize = (((code / 8) - 1) * 6 + (code % 8) - 1) as usize;
            proof {
                assert(si as int == sprite_index(code));
                assert(si < 12);
            }
            let row: u32 = (idx / 8) as u32;
            let col: u32 = (idx % 8) as u32;
            match place_piece(&mut img, &assets.pieces[si], row, col) {
                Ok(()) => {},
                Err(_) => {
                    proof {
                        lemma_pieces_fold_none(
                            after_fills,
                            board.squares@,
                            *assets,
                            idx as int + 1,
                            64,
                        );
                    }
                    return Err(Error::RenderBoundsExceeded);
                },
            }
        }
        idx = idx + 1;
    }
    Ok(img)
}

} // verus!
