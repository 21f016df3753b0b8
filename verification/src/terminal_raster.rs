//! The terminal raster: an RGBA image of the terminal grid, redrawn cell by
//! cell from cached glyph tiles, with damage tracking and scroll reuse.
use vstd::prelude::*;
use crate::raster::{
    background_rgba, basic_font_glyph, build_tile, cell_colors, cell_extent, covers_full_rows,
    damage_covers_full_rows, default_background, first_shift, rows_match_downward_shift,
    rows_match_upward_shift, shifted_row, cursor_color, extent, fill_tile, is_tile,
    lemma_pixel_inside, lemma_put_pixel, pixel_at, put_pixel, repainted, resolved_colors, solid,
    write_tile_pixel, Rgba, TileCacheKey,
};
use crate::terminal_model::{
    blank_cell_view, cells_view, copy_cells, TerminalCell, TerminalCellFlags, TerminalCellPublication,
    TerminalCellView, TerminalCursor, TerminalCursorShape, TerminalDamage, TerminalFrame,
    FLAG_HIDDEN, FLAG_WIDE_CHAR_SPACER,
};
use crate::terminal_text::{apply_span_updates, overwrite_spans};
use crate::text::{is_white_space, is_whitespace_char};

verus! {

/// True when pixel `x`, `y` lies in the box `[x0, x1)` by `[y0, y1)`.
pub open spec fn in_box(x: int, y: int, x0: int, x1: int, y0: int, y1: int) -> bool {
    x0 <= x < x1 && y0 <= y < y1
}

/// The pixels of the box `[x0, x1)` by `[y0, y1)`.
pub open spec fn box_on(x0: int, x1: int, y0: int, y1: int) -> spec_fn(int, int) -> bool {
    |x: int, y: int| in_box(x, y, x0, x1, y0, y1)
}

/// Pixels on either of two shapes.
pub open spec fn either_on(a: spec_fn(int, int) -> bool, b: spec_fn(int, int) -> bool) -> spec_fn(
    int,
    int,
) -> bool {
    |x: int, y: int| a(x, y) || b(x, y)
}

/// Painting two shapes in one color paints their union.
pub proof fn lemma_repainted_twice(
    a: Seq<u8>,
    b: Seq<u8>,
    c: Seq<u8>,
    w: int,
    h: int,
    p: spec_fn(int, int) -> bool,
    q: spec_fn(int, int) -> bool,
    color: Seq<u8>,
)
    requires
        repainted(a, b, w, h, p, color),
        repainted(b, c, w, h, q, color),
    ensures
        repainted(a, c, w, h, either_on(p, q), color),
{
    assert forall|x: int, y: int| 0 <= x < w && 0 <= y < h implies #[trigger] pixel_at(c, w, x, y) == if either_on(
        p,
        q,
    )(x, y) {
        color
    } else {
        pixel_at(a, w, x, y)
    } by {
        assert(pixel_at(b, w, x, y) == if p(x, y) {
            color
        } else {
            pixel_at(a, w, x, y)
        });
        assert(pixel_at(c, w, x, y) == if q(x, y) {
            color
        } else {
            pixel_at(b, w, x, y)
        });
    }
}

/// Writing a pixel keeps the image's length.
pub proof fn lemma_put_pixel_len(img: Seq<u8>, w: int, h: int, x: int, y: int, c: Seq<u8>)
    requires
        img.len() == w * h * 4,
        c.len() == 4,
    ensures
        put_pixel(img, w, h, x, y, c).len() == img.len(),
{
    if 0 <= x < w && 0 <= y < h {
        lemma_pixel_inside(w, h, x, y);
    }
}

/// Sets every pixel of the box `[x0, x1)` by `[y0, y1)` that lies in the
/// `w` by `h` image to `color`.
pub fn fill_box(pixels: &mut Vec<u8>, w: u32, h: u32, x0: u32, x1: u32, y0: u32, y1: u32, color: Rgba)
    requires
        old(pixels)@.len() == w * h * 4,
        w * h * 4 <= u32::MAX,
    ensures
        repainted(old(pixels)@, final(pixels)@, w as int, h as int, box_on(x0 as int, x1 as int, y0 as int, y1 as int), color@),
{
    let ghost start = pixels@;
    let mut y: u32 = y0;
    while y < y1
        invariant
            y0 <= y,
            y0 < y1 ==> y <= y1,
            y0 >= y1 ==> y == y0,
            color@.len() == 4,
            pixels@.len() == w * h * 4,
            start.len() == pixels@.len(),
            w * h * 4 <= u32::MAX,
            forall|px: int, py: int| 0 <= px < w && 0 <= py < h ==> #[trigger] pixel_at(pixels@, w as int, px, py)
                == if in_box(px, py, x0 as int, x1 as int, y0 as int, y as int) {
                color@
            } else {
                pixel_at(start, w as int, px, py)
            },
        decreases y1 - y,
    {
        let mut x: u32 = x0;
        while x < x1
            invariant
                x0 <= x,
                x0 < x1 ==> x <= x1,
                x0 >= x1 ==> x == x0,
                color@.len() == 4,
                y0 <= y < y1,
                pixels@.len() == w * h * 4,
                start.len() == pixels@.len(),
                w * h * 4 <= u32::MAX,
                forall|px: int, py: int| 0 <= px < w && 0 <= py < h ==> #[trigger] pixel_at(pixels@, w as int, px, py)
                    == if in_box(px, py, x0 as int, x1 as int, y0 as int, y as int) || (py == y && x0 <= px < x) {
                    color@
                } else {
                    pixel_at(start, w as int, px, py)
                },
            decreases x1 - x,
        {
            let ghost before = pixels@;
            write_tile_pixel(pixels, w, h, x, y, color);
            proof {
                lemma_put_pixel_len(before, w as int, h as int, x as int, y as int, color@);
                assert forall|px: int, py: int| 0 <= px < w && 0 <= py < h implies #[trigger] pixel_at(
                    pixels@,
                    w as int,
                    px,
                    py,
                ) == if in_box(px, py, x0 as int, x1 as int, y0 as int, y as int) || (py == y && x0 <= px < x + 1) {
                    color@
                } else {
                    pixel_at(start, w as int, px, py)
                } by {
                    lemma_put_pixel(before, w as int, h as int, x as int, y as int, color@, px, py);
                }
            }
            x = x + 1;
        }
        proof {
            assert forall|px: int, py: int| 0 <= px < w && 0 <= py < h implies #[trigger] pixel_at(
                pixels@,
                w as int,
                px,
                py,
            ) == if in_box(px, py, x0 as int, x1 as int, y0 as int, y + 1) {
                color@
            } else {
                pixel_at(start, w as int, px, py)
            } by {}
        }
        y = y + 1;
    }
}

/// A pixel `p` half blended toward `c`, fully opaque.
pub open spec fn blended(p: Seq<u8>, c: Seq<u8>) -> Seq<u8> {
    seq![(p[0] / 2 + c[0] / 2) as u8, (p[1] / 2 + c[1] / 2) as u8, (p[2] / 2 + c[2] / 2) as u8, 255u8]
}

/// Each pixel of `after` is the pixel of `before` blended toward `c` inside the
/// box and the pixel of `before` outside it.
pub open spec fn blended_box(before: Seq<u8>, after: Seq<u8>, w: int, h: int, x0: int, x1: int, y0: int, y1: int, c: Seq<u8>) -> bool {
    &&& after.len() == before.len()
    &&& forall|x: int, y: int| 0 <= x < w && 0 <= y < h ==> #[trigger] pixel_at(after, w, x, y) == if in_box(
        x,
        y,
        x0,
        x1,
        y0,
        y1,
    ) {
        blended(pixel_at(before, w, x, y), c)
    } else {
        pixel_at(before, w, x, y)
    }
}

fn blend_pixel(pixels: &mut Vec<u8>, w: u32, h: u32, x: u32, y: u32, color: Rgba)
    requires
        old(pixels)@.len() == w * h * 4,
        w * h * 4 <= u32::MAX,
        x < w,
        y < h,
    ensures
        final(pixels)@ == put_pixel(old(pixels)@, w as int, h as int, x as int, y as int, blended(pixel_at(old(pixels)@, w as int, x as int, y as int), color@)),
{
    proof {
        lemma_pixel_inside(w as int, h as int, x as int, y as int);
    }
    let i = ((y * w + x) * 4) as usize;
    let r = ((pixels[i] as u16) / 2 + (color[0] as u16) / 2) as u8;
    let g = ((pixels[i + 1] as u16) / 2 + (color[1] as u16) / 2) as u8;
    let b = ((pixels[i + 2] as u16) / 2 + (color[2] as u16) / 2) as u8;
    let ghost p = pixel_at(pixels@, w as int, x as int, y as int);
    proof {
        assert(p[0] == pixels@[i as int] && p[1] == pixels@[i + 1] && p[2] == pixels@[i + 2]);
    }
    pixels.set(i, r);
    pixels.set(i + 1, g);
    pixels.set(i + 2, b);
    pixels.set(i + 3, 255);
}

/// Blends every pixel of the box `[x0, x1)` by `[y0, y1)` toward `color`;
/// the box lies inside the `w` by `h` image.
pub fn blend_box(pixels: &mut Vec<u8>, w: u32, h: u32, x0: u32, x1: u32, y0: u32, y1: u32, color: Rgba)
    requires
        old(pixels)@.len() == w * h * 4,
        w * h * 4 <= u32::MAX,
        x1 <= w,
        y1 <= h,
    ensures
        blended_box(old(pixels)@, final(pixels)@, w as int, h as int, x0 as int, x1 as int, y0 as int, y1 as int, color@),
{
    let ghost start = pixels@;
    let mut y: u32 = y0;
    while y < y1
        invariant
            y0 <= y,
            y0 < y1 ==> y <= y1,
            y0 >= y1 ==> y == y0,
            color@.len() == 4,
            y1 <= h,
            x1 <= w,
            pixels@.len() == w * h * 4,
            start.len() == pixels@.len(),
            w * h * 4 <= u32::MAX,
            forall|px: int, py: int| 0 <= px < w && 0 <= py < h ==> #[trigger] pixel_at(pixels@, w as int, px, py)
                == if in_box(px, py, x0 as int, x1 as int, y0 as int, y as int) {
                blended(pixel_at(start, w as int, px, py), color@)
            } else {
                pixel_at(start, w as int, px, py)
            },
        decreases y1 - y,
    {
        let mut x: u32 = x0;
        while x < x1
            invariant
                x0 <= x,
                x0 < x1 ==> x <= x1,
                x0 >= x1 ==> x == x0,
                color@.len() == 4,
                y0 <= y < y1,
                y1 <= h,
                x1 <= w,
                pixels@.len() == w * h * 4,
                start.len() == pixels@.len(),
                w * h * 4 <= u32::MAX,
                forall|px: int, py: int| 0 <= px < w && 0 <= py < h ==> #[trigger] pixel_at(pixels@, w as int, px, py)
                    == if in_box(px, py, x0 as int, x1 as int, y0 as int, y as int) || (py == y && x0 <= px < x) {
                    blended(pixel_at(start, w as int, px, py), color@)
                } else {
                    pixel_at(start, w as int, px, py)
                },
            decreases x1 - x,
        {
            let ghost before = pixels@;
            let ghost p = pixel_at(before, w as int, x as int, y as int);
            blend_pixel(pixels, w, h, x, y, color);
            proof {
                lemma_put_pixel(before, w as int, h as int, x as int, y as int, blended(p, color@), x as int, y as int);
                assert forall|px: int, py: int| 0 <= px < w && 0 <= py < h implies #[trigger] pixel_at(
                    pixels@,
                    w as int,
                    px,
                    py,
                ) == if in_box(px, py, x0 as int, x1 as int, y0 as int, y as int) || (py == y && x0 <= px < x + 1) {
                    blended(pixel_at(start, w as int, px, py), color@)
                } else {
                    pixel_at(start, w as int, px, py)
                } by {
                    lemma_put_pixel(before, w as int, h as int, x as int, y as int, blended(p, color@), px, py);
                }
            }
            x = x + 1;
        }
        proof {
            assert forall|px: int, py: int| 0 <= px < w && 0 <= py < h implies #[trigger] pixel_at(
                pixels@,
                w as int,
                px,
                py,
            ) == if in_box(px, py, x0 as int, x1 as int, y0 as int, y + 1) {
                blended(pixel_at(start, w as int, px, py), color@)
            } else {
                pixel_at(start, w as int, px, py)
            } by {}
        }
        y = y + 1;
    }
}

/// Each pixel of `after` inside the cell box at `x0`, `y0` (`cw` by `ch`)
/// is the matching pixel of `tile`, and the pixel of `before` elsewhere.
pub open spec fn blitted(
    before: Seq<u8>,
    after: Seq<u8>,
    w: int,
    h: int,
    x0: int,
    y0: int,
    cw: int,
    ch: int,
    tile: Seq<u8>,
) -> bool {
    &&& after.len() == before.len()
    &&& forall|x: int, y: int| 0 <= x < w && 0 <= y < h ==> #[trigger] pixel_at(after, w, x, y) == if in_box(
        x,
        y,
        x0,
        x0 + cw,
        y0,
        y0 + ch,
    ) {
        pixel_at(tile, cw, x - x0, y - y0)
    } else {
        pixel_at(before, w, x, y)
    }
}

fn copy_tile_pixel(pixels: &mut Vec<u8>, w: u32, h: u32, x: u32, y: u32, tile: &Vec<u8>, cw: u32, ch: u32, tx: u32, ty: u32)
    requires
        old(pixels)@.len() == w * h * 4,
        w * h * 4 <= u32::MAX,
        x < w,
        y < h,
        tx < cw,
        ty < ch,
        cw * ch * 4 <= tile@.len(),
    ensures
        final(pixels)@ == put_pixel(old(pixels)@, w as int, h as int, x as int, y as int, pixel_at(tile@, cw as int, tx as int, ty as int)),
{
    proof {
        lemma_pixel_inside(w as int, h as int, x as int, y as int);
        lemma_pixel_inside(cw as int, ch as int, tx as int, ty as int);
    }
    let i = ((y * w + x) * 4) as usize;
    let tlen = tile.len();
    let row_start: usize = (ty as usize) * (cw as usize);
    let t = (row_start + (tx as usize)) * 4;
    let ghost p = pixel_at(tile@, cw as int, tx as int, ty as int);
    proof {
        assert(p[0] == tile@[t as int] && p[1] == tile@[t + 1] && p[2] == tile@[t + 2] && p[3] == tile@[t + 3]);
    }
    pixels.set(i, tile[t]);
    pixels.set(i + 1, tile[t + 1]);
    pixels.set(i + 2, tile[t + 2]);
    pixels.set(i + 3, tile[t + 3]);
}

/// Copies `tile` (`cw` by `ch` pixels, row by row) into the box of cell
/// `row`, `col` of the `w` by `h` image.
pub fn blit_tile(pixels: &mut Vec<u8>, w: u32, h: u32, cw: u32, ch: u32, row: u16, col: u16, tile: &Vec<u8>)
    requires
        old(pixels)@.len() == w * h * 4,
        w * h * 4 <= u32::MAX,
        (col + 1) * cw <= w,
        (row + 1) * ch <= h,
        cw * ch * 4 <= tile@.len(),
    ensures
        blitted(old(pixels)@, final(pixels)@, w as int, h as int, col * cw, row * ch, cw as int, ch as int, tile@),
{
    let ghost start = pixels@;
    proof {
        assert(col * cw + cw <= w && row * ch + ch <= h) by (nonlinear_arith)
            requires
                (col + 1) * cw <= w,
                (row + 1) * ch <= h,
        ;
    }
    let x0: u32 = (col as u32) * cw;
    let y0: u32 = (row as u32) * ch;
    let mut ty: u32 = 0;
    while ty < ch
        invariant
            ty <= ch,
            x0 == col * cw,
            y0 == row * ch,
            x0 + cw <= w,
            y0 + ch <= h,
            cw * ch * 4 <= tile@.len(),
            pixels@.len() == w * h * 4,
            start.len() == pixels@.len(),
            w * h * 4 <= u32::MAX,
            forall|px: int, py: int| 0 <= px < w && 0 <= py < h ==> #[trigger] pixel_at(pixels@, w as int, px, py)
                == if in_box(px, py, x0 as int, x0 + cw, y0 as int, y0 + ty) {
                pixel_at(tile@, cw as int, px - x0, py - y0)
            } else {
                pixel_at(start, w as int, px, py)
            },
        decreases ch - ty,
    {
        let mut tx: u32 = 0;
        while tx < cw
            invariant
                tx <= cw,
                ty < ch,
                x0 == col * cw,
                y0 == row * ch,
                x0 + cw <= w,
                y0 + ch <= h,
                cw * ch * 4 <= tile@.len(),
                pixels@.len() == w * h * 4,
                start.len() == pixels@.len(),
                w * h * 4 <= u32::MAX,
                forall|px: int, py: int| 0 <= px < w && 0 <= py < h ==> #[trigger] pixel_at(pixels@, w as int, px, py)
                    == if in_box(px, py, x0 as int, x0 + cw, y0 as int, y0 + ty) || (py == y0 + ty && x0 <= px < x0 + tx) {
                    pixel_at(tile@, cw as int, px - x0, py - y0)
                } else {
                    pixel_at(start, w as int, px, py)
                },
            decreases cw - tx,
        {
            let ghost before = pixels@;
            let ghost p = pixel_at(tile@, cw as int, tx as int, ty as int);
            proof {
                lemma_pixel_inside(cw as int, ch as int, tx as int, ty as int);
                assert(p.len() == 4);
            }
            copy_tile_pixel(pixels, w, h, x0 + tx, y0 + ty, tile, cw, ch, tx, ty);
            proof {
                lemma_put_pixel(before, w as int, h as int, (x0 + tx) as int, (y0 + ty) as int, p, (x0 + tx) as int, (y0 + ty) as int);
                assert forall|px: int, py: int| 0 <= px < w && 0 <= py < h implies #[trigger] pixel_at(
                    pixels@,
                    w as int,
                    px,
                    py,
                ) == if in_box(px, py, x0 as int, x0 + cw, y0 as int, y0 + ty) || (py == y0 + ty && x0 <= px < x0 + tx + 1) {
                    pixel_at(tile@, cw as int, px - x0, py - y0)
                } else {
                    pixel_at(start, w as int, px, py)
                } by {
                    lemma_put_pixel(before, w as int, h as int, (x0 + tx) as int, (y0 + ty) as int, p, px, py);
                }
            }
            tx = tx + 1;
        }
        proof {
            assert forall|px: int, py: int| 0 <= px < w && 0 <= py < h implies #[trigger] pixel_at(
                pixels@,
                w as int,
                px,
                py,
            ) == if in_box(px, py, x0 as int, x0 + cw, y0 as int, y0 + ty + 1) {
                pixel_at(tile@, cw as int, px - x0, py - y0)
            } else {
                pixel_at(start, w as int, px, py)
            } by {}
        }
        ty = ty + 1;
    }
}

/// `img` with the bytes from `start` on, four at a time up to `end`, set to
/// the pattern `c`.
pub open spec fn cleared_range(img: Seq<u8>, start: int, end: int, c: Seq<u8>) -> Seq<u8> {
    let limit = start + (end - start) / 4 * 4;
    Seq::new(img.len(), |i: int| if start <= i < limit { c[(i - start) % 4] } else { img[i] })
}

/// Sets the pixels of `start..end` to `color`, four bytes at a time.
pub fn clear_pixel_range(pixels: &mut Vec<u8>, start: usize, end: usize, color: Rgba)
    requires
        start <= end <= old(pixels)@.len(),
    ensures
        final(pixels)@ == cleared_range(old(pixels)@, start as int, end as int, color@),
{
    let ghost before = pixels@;
    let limit = start + (end - start) / 4 * 4;
    let mut i = start;
    while i < limit
        invariant
            start <= i <= limit <= end <= pixels@.len(),
            limit == start + (end - start) / 4 * 4,
            pixels@.len() == before.len(),
            forall|j: int| 0 <= j < before.len() ==> #[trigger] pixels@[j] == if start <= j < i {
                color@[(j - start) % 4]
            } else {
                before[j]
            },
        decreases limit - i,
    {
        pixels.set(i, color[(i - start) % 4]);
        i = i + 1;
    }
    assert(pixels@ =~= cleared_range(before, start as int, end as int, color@));
}

/// The image after moving its bytes `s` places toward the start (`up`) or
/// the end, filling the bytes uncovered with the pattern `c`; when `s` is
/// zero or not less than the length, all of it.
pub open spec fn shifted_image(img: Seq<u8>, s: int, up: bool, c: Seq<u8>) -> Seq<u8> {
    let n = img.len() as int;
    if s == 0 || s >= n {
        solid(n, c)
    } else if up {
        Seq::new(n as nat, |i: int| if i < n - s { img[i + s] } else { c[(i - (n - s)) % 4] })
    } else {
        Seq::new(n as nat, |i: int| if i < s { c[i % 4] } else { img[i - s] })
    }
}

/// Moves the image's bytes `shift` places toward its start (`up`) or end,
/// clearing what is uncovered to `color`.
pub fn shift_image(pixels: &mut Vec<u8>, shift: usize, up: bool, color: Rgba)
    requires
        old(pixels)@.len() % 4 == 0,
        shift % 4 == 0,
    ensures
        final(pixels)@ == shifted_image(old(pixels)@, shift as int, up, color@),
{
    let ghost before = pixels@;
    let n = pixels.len();
    if shift == 0 || shift >= n {
        fill_tile(pixels, color);
        return;
    }
    if up {
        let keep = n - shift;
        let mut i: usize = 0;
        while i < keep
            invariant
                i <= keep == n - shift,
                n == before.len() == pixels@.len(),
                forall|j: int| 0 <= j < n ==> #[trigger] pixels@[j] == if j < i {
                    before[j + shift]
                } else {
                    before[j]
                },
            decreases keep - i,
        {
            let b = pixels[i + shift];
            pixels.set(i, b);
            i = i + 1;
        }
        let ghost moved = pixels@;
        clear_pixel_range(pixels, keep, n, color);
        assert(pixels@ =~= shifted_image(before, shift as int, up, color@));
    } else {
        let mut i: usize = n;
        while i > shift
            invariant
                shift <= i <= n,
                n == before.len() == pixels@.len(),
                forall|j: int| 0 <= j < n ==> #[trigger] pixels@[j] == if j >= i {
                    before[j - shift]
                } else {
                    before[j]
                },
            decreases i,
        {
            let b = pixels[i - 1 - shift];
            pixels.set(i - 1, b);
            i = i - 1;
        }
        clear_pixel_range(pixels, 0, shift, color);
        assert(pixels@ =~= shifted_image(before, shift as int, up, color@));
    }
}

/// True when `key` is the tile key of `cell`: its character, the colors it
/// is drawn with, whether it is hidden or a wide-character spacer, and
/// whether it is a visible character the basic font has no glyph for.
pub open spec fn key_for(key: TileCacheKey, cell: TerminalCellView, cursor_here: bool) -> bool {
    let colors = cell_colors(cell, cursor_here);
    &&& key.codepoint == cell.codepoint
    &&& key.bg@ == colors.0
    &&& key.fg@ == colors.1
    &&& key.hidden == cell.flags.spec_contains(TerminalCellFlags(FLAG_HIDDEN))
    &&& key.spacer == cell.flags.spec_contains(TerminalCellFlags(FLAG_WIDE_CHAR_SPACER))
    &&& key.missing == ((cell.codepoint as u32) >= 128 && !is_white_space(cell.codepoint))
}

/// The tile key of a cell.
pub fn tile_key(cell: &TerminalCell, cursor_here: bool) -> (key: TileCacheKey)
    ensures
        key_for(key, cell@, cursor_here),
{
    let (bg, fg) = resolved_colors(cell, cursor_here);
    let hidden = cell.flags.contains(TerminalCellFlags(FLAG_HIDDEN));
    let spacer = cell.flags.contains(TerminalCellFlags(FLAG_WIDE_CHAR_SPACER));
    let missing = basic_font_glyph(cell.codepoint).is_none() && !is_whitespace_char(cell.codepoint);
    TileCacheKey { codepoint: cell.codepoint, fg, bg, hidden, spacer, missing }
}

/// True when both keys are equal.
pub fn same_key(a: &TileCacheKey, b: &TileCacheKey) -> (eq: bool)
    ensures
        eq == (*a == *b),
{
    let colors = a.fg[0] == b.fg[0] && a.fg[1] == b.fg[1] && a.fg[2] == b.fg[2] && a.fg[3] == b.fg[3]
        && a.bg[0] == b.bg[0] && a.bg[1] == b.bg[1] && a.bg[2] == b.bg[2] && a.bg[3] == b.bg[3];
    proof {
        if colors {
            assert(a.fg =~= b.fg);
            assert(a.bg =~= b.bg);
        }
    }
    colors && a.codepoint == b.codepoint && a.hidden == b.hidden && a.spacer == b.spacer && a.missing
        == b.missing
}

/// Keys and tiles of a tile cache, in insertion order.
pub open spec fn tiles_view(cache: Seq<(TileCacheKey, Vec<u8>)>) -> Seq<(TileCacheKey, Seq<u8>)> {
    cache.map_values(|e: (TileCacheKey, Vec<u8>)| (e.0, e.1@))
}

/// No key occurs twice.
pub open spec fn keys_unique(tiles: Seq<(TileCacheKey, Seq<u8>)>) -> bool {
    forall|i: int, j: int| 0 <= i < j < tiles.len() ==> (#[trigger] tiles[i]).0 != (#[trigger] tiles[j]).0
}

/// True when the cache holds a tile for `key`.
pub open spec fn has_key(tiles: Seq<(TileCacheKey, Seq<u8>)>, key: TileCacheKey) -> bool {
    exists|i: int| 0 <= i < tiles.len() && (#[trigger] tiles[i]).0 == key
}

/// The cached tile for `key`.
pub open spec fn tile_in(tiles: Seq<(TileCacheKey, Seq<u8>)>, key: TileCacheKey) -> Seq<u8> {
    tiles[choose|i: int| 0 <= i < tiles.len() && (#[trigger] tiles[i]).0 == key].1
}

/// Every cached tile has at least the bytes of a `cw` by `ch` tile.
pub open spec fn tiles_fit(tiles: Seq<(TileCacheKey, Seq<u8>)>, cw: u32, ch: u32) -> bool {
    forall|i: int| 0 <= i < tiles.len() ==> (#[trigger] tiles[i]).1.len() >= cw * ch * 4
}

/// `after` keeps the entries of `before` in front and adds, each for a key not
/// cached before, tiles drawn at `cw` by `ch`.
pub open spec fn tiles_extended(
    before: Seq<(TileCacheKey, Seq<u8>)>,
    after: Seq<(TileCacheKey, Seq<u8>)>,
    cw: u32,
    ch: u32,
) -> bool {
    &&& before.len() <= after.len()
    &&& after.subrange(0, before.len() as int) == before
    &&& keys_unique(before) ==> keys_unique(after)
    &&& forall|i: int| before.len() <= i < after.len() ==> is_tile((#[trigger] after[i]).1, after[i].0, cw, ch)
}

proof fn lemma_tiles_extended_trans(
    a: Seq<(TileCacheKey, Seq<u8>)>,
    b: Seq<(TileCacheKey, Seq<u8>)>,
    c: Seq<(TileCacheKey, Seq<u8>)>,
    cw: u32,
    ch: u32,
)
    requires
        tiles_extended(a, b, cw, ch),
        tiles_extended(b, c, cw, ch),
    ensures
        tiles_extended(a, c, cw, ch),
{
    assert forall|i: int| a.len() <= i < c.len() implies is_tile((#[trigger] c[i]).1, c[i].0, cw, ch) by {
        if i < b.len() {
            assert(c.subrange(0, b.len() as int)[i] == c[i]);
            assert(b[i] == c[i]);
        }
    }
    assert(c.subrange(0, a.len() as int) =~= a) by {
        assert forall|i: int| 0 <= i < a.len() implies c.subrange(0, a.len() as int)[i] == a[i] by {
            assert(c.subrange(0, b.len() as int)[i] == c[i]);
            assert(b.subrange(0, a.len() as int)[i] == b[i]);
        }
    }
}

/// Index of the cache entry for `key`, if any.
fn find_tile(cache: &Vec<(TileCacheKey, Vec<u8>)>, key: &TileCacheKey) -> (found: Option<usize>)
    ensures
        match found {
            Some(i) => i < cache@.len() && cache@[i as int].0 == *key,
            None => !has_key(tiles_view(cache@), *key),
        },
{
    let mut i: usize = 0;
    while i < cache.len()
        invariant
            i <= cache@.len(),
            forall|j: int| 0 <= j < i ==> (#[trigger] cache@[j]).0 != *key,
        decreases cache.len() - i,
    {
        if same_key(&cache[i].0, key) {
            return Some(i);
        }
        i = i + 1;
    }
    proof {
        assert forall|j: int| 0 <= j < tiles_view(cache@).len() implies (#[trigger] tiles_view(cache@)[j]).0 != *key by {
            assert(tiles_view(cache@)[j].0 == cache@[j].0);
        }
    }
    None
}

/// Box of the underline cursor: the last two pixel rows of the cell.
pub open spec fn underline_on(w: int, h: int, cw: int, ch: int, row: int, col: int) -> spec_fn(int, int) -> bool {
    let sx = col * cw;
    let sy = row * ch;
    let y0 = if sy + (if ch > 2 { ch - 2 } else { 0 }) < h { sy + (if ch > 2 { ch - 2 } else { 0 }) } else { h };
    let y1 = if y0 + 2 < h { y0 + 2 } else { h };
    let x1 = if sx + cw < w { sx + cw } else { w };
    box_on(sx, x1, y0, y1)
}

/// Box of the beam cursor: the first two pixel columns of the cell.
pub open spec fn beam_on(w: int, h: int, cw: int, ch: int, row: int, col: int) -> spec_fn(int, int) -> bool {
    let sx = col * cw;
    let sy = row * ch;
    let y1 = if sy + ch < h { sy + ch } else { h };
    let x1 = if sx + 2 < w { sx + 2 } else { w };
    box_on(sx, x1, sy, y1)
}

/// Outline of the hollow block cursor: a rectangle inset by a quarter of
/// the cell (at least one pixel) on each side.
pub open spec fn hollow_on(cw: int, ch: int, row: int, col: int) -> spec_fn(int, int) -> bool {
    let ix = if cw / 4 < 1 { 1 } else { cw / 4 };
    let iy = if ch / 4 < 1 { 1 } else { ch / 4 };
    let sx = col * cw + ix;
    let ex = if (col + 1) * cw > ix { (col + 1) * cw - ix } else { 0 };
    let sy = row * ch + iy;
    let ey = if (row + 1) * ch > iy { (row + 1) * ch - iy } else { 0 };
    let lx = if ex > 0 { ex - 1 } else { 0 };
    let ly = if ey > 0 { ey - 1 } else { 0 };
    either_on(
        either_on(box_on(sx, ex, sy, sy + 1), box_on(sx, ex, ly, ly + 1)),
        either_on(box_on(sx, sx + 1, sy, ey), box_on(lx, lx + 1, sy, ey)),
    )
}

/// `after` is `before` with the cursor of `shape` drawn over the cell at `row`,
/// `col`: a block blends the cell toward the cursor color; an underline
/// and a beam paint two pixel rows or columns in `fg` (a beam in a square
/// cell is drawn as an underline); a hollow block outlines the cell in the
/// cursor color; a hidden cursor draws nothing.
pub open spec fn cursor_drawn(
    before: Seq<u8>,
    after: Seq<u8>,
    w: int,
    h: int,
    cw: int,
    ch: int,
    shape: TerminalCursorShape,
    row: int,
    col: int,
    fg: Seq<u8>,
) -> bool {
    match shape {
        TerminalCursorShape::Block => blended_box(before, after, w, h, col * cw, col * cw + cw, row * ch, row * ch + ch, cursor_color()),
        TerminalCursorShape::Underline => repainted(before, after, w, h, underline_on(w, h, cw, ch, row, col), fg),
        TerminalCursorShape::Beam => if cw == ch {
            repainted(before, after, w, h, underline_on(w, h, cw, ch, row, col), fg)
        } else {
            repainted(before, after, w, h, beam_on(w, h, cw, ch, row, col), fg)
        },
        TerminalCursorShape::HollowBlock => repainted(before, after, w, h, hollow_on(cw, ch, row, col), cursor_color()),
        TerminalCursorShape::Hidden => after == before,
    }
}

/// Draws the cursor of `shape` over the cell at `row`, `col`.
pub fn draw_cursor(
    pixels: &mut Vec<u8>,
    w: u32,
    h: u32,
    cw: u32,
    ch: u32,
    shape: TerminalCursorShape,
    row: u16,
    col: u16,
    fg: Rgba,
)
    requires
        old(pixels)@.len() == w * h * 4,
        w * h * 4 <= u32::MAX,
        (col + 1) * cw <= w,
        (row + 1) * ch <= h,
        1 <= cw,
        1 <= ch,
    ensures
        cursor_drawn(old(pixels)@, final(pixels)@, w as int, h as int, cw as int, ch as int, shape, row as int, col as int, fg@),
{
    proof {
        assert(col * cw + cw <= w && row * ch + ch <= h) by (nonlinear_arith)
            requires
                (col + 1) * cw <= w,
                (row + 1) * ch <= h,
        ;
    }
    let sx: u32 = (col as u32) * cw;
    let sy: u32 = (row as u32) * ch;
    match shape {
        TerminalCursorShape::Block => {
            let ex = if sx + cw < w { sx + cw } else { w };
            let ey = if sy + ch < h { sy + ch } else { h };
            blend_box(pixels, w, h, sx, ex, sy, ey, crate::raster::cursor_rgba());
        },
        TerminalCursorShape::Underline => {
            fill_cursor_line(pixels, w, h, cw, ch, sx, sy, ch, fg);
        },
        TerminalCursorShape::Beam => {
            fill_cursor_line(pixels, w, h, cw, ch, sx, sy, cw, fg);
        },
        TerminalCursorShape::HollowBlock => {
            draw_outline(pixels, w, h, cw, ch, row, col, crate::raster::cursor_rgba());
        },
        TerminalCursorShape::Hidden => {},
    }
}

/// Paints a two-pixel cursor line: along the bottom of the cell when
/// `extent` is the cell height, else down its left side.
fn fill_cursor_line(pixels: &mut Vec<u8>, w: u32, h: u32, cw: u32, ch: u32, sx: u32, sy: u32, extent: u32, color: Rgba)
    requires
        old(pixels)@.len() == w * h * 4,
        w * h * 4 <= u32::MAX,
        sx + cw <= w,
        sy + ch <= h,
        1 <= cw,
        1 <= ch,
    ensures
        extent == ch ==> repainted(
            old(pixels)@,
            final(pixels)@,
            w as int,
            h as int,
            box_on(
                sx as int,
                if sx + cw < w { sx + cw } else { w as int },
                if sy + (if ch > 2 { ch - 2 } else { 0 }) < h { sy + (if ch > 2 { ch - 2 } else { 0 }) } else { h as int },
                if (if sy + (if ch > 2 { ch - 2 } else { 0 }) < h { sy + (if ch > 2 { ch - 2 } else { 0 }) } else { h as int }) + 2 < h {
                    (if sy + (if ch > 2 { ch - 2 } else { 0 }) < h { sy + (if ch > 2 { ch - 2 } else { 0 }) } else { h as int }) + 2
                } else {
                    h as int
                },
            ),
            color@,
        ),
        extent != ch ==> repainted(
            old(pixels)@,
            final(pixels)@,
            w as int,
            h as int,
            box_on(sx as int, if sx + 2 < w { sx + 2 } else { w as int }, sy as int, if sy + ch < h { sy + ch } else { h as int }),
            color@,
        ),
{
    proof {
        assert(w * 4 <= w * h * 4 && h * 4 <= w * h * 4) by (nonlinear_arith)
            requires
                1 <= w,
                1 <= h,
        ;
    }
    let thickness: u32 = 2;
    if extent == ch {
        let top = sy + ch.saturating_sub(thickness);
        let y = if top < h { top } else { h };
        let y_end = if y + thickness < h { y + thickness } else { h };
        let x_end = if sx + cw < w { sx + cw } else { w };
        fill_box(pixels, w, h, sx, x_end, y, y_end, color);
    } else {
        let y_end = if sy + ch < h { sy + ch } else { h };
        let x_end = if sx + thickness < w { sx + thickness } else { w };
        fill_box(pixels, w, h, sx, x_end, sy, y_end, color);
    }
}

/// Outlines the cell at `row`, `col`, inset by a quarter of the cell (at
/// least one pixel) on each side.
fn draw_outline(pixels: &mut Vec<u8>, w: u32, h: u32, cw: u32, ch: u32, row: u16, col: u16, color: Rgba)
    requires
        old(pixels)@.len() == w * h * 4,
        w * h * 4 <= u32::MAX,
        (col + 1) * cw <= w,
        (row + 1) * ch <= h,
        1 <= cw,
        1 <= ch,
    ensures
        repainted(old(pixels)@, final(pixels)@, w as int, h as int, hollow_on(cw as int, ch as int, row as int, col as int), color@),
{
    proof {
        assert(col * cw + cw <= w && row * ch + ch <= h) by (nonlinear_arith)
            requires
                (col + 1) * cw <= w,
                (row + 1) * ch <= h,
        ;
    }
    let q = cw / 4;
    let inset_x = if q < 1 { 1 } else { q };
    let r = ch / 4;
    let inset_y = if r < 1 { 1 } else { r };
    let start_x = (col as u32) * cw + inset_x;
    let end_x = ((col as u32 + 1) * cw).saturating_sub(inset_x);
    let start_y = (row as u32) * ch + inset_y;
    let end_y = ((row as u32 + 1) * ch).saturating_sub(inset_y);
    let last_x = end_x.saturating_sub(1);
    let last_y = end_y.saturating_sub(1);
    let ghost p0 = pixels@;
    fill_box(pixels, w, h, start_x, end_x, start_y, start_y + 1, color);
    let ghost p1 = pixels@;
    fill_box(pixels, w, h, start_x, end_x, last_y, last_y + 1, color);
    let ghost p2 = pixels@;
    fill_box(pixels, w, h, start_x, start_x + 1, start_y, end_y, color);
    let ghost p3 = pixels@;
    fill_box(pixels, w, h, last_x, last_x + 1, start_y, end_y, color);
    proof {
        let a = box_on(start_x as int, end_x as int, start_y as int, start_y + 1);
        let b = box_on(start_x as int, end_x as int, last_y as int, last_y + 1);
        let c = box_on(start_x as int, start_x + 1, start_y as int, end_y as int);
        let d = box_on(last_x as int, last_x + 1, start_y as int, end_y as int);
        lemma_repainted_twice(p0, p1, p2, w as int, h as int, a, b, color@);
        lemma_repainted_twice(p2, p3, pixels@, w as int, h as int, c, d, color@);
        lemma_repainted_twice(p0, p2, pixels@, w as int, h as int, either_on(a, b), either_on(c, d), color@);
        assert(hollow_on(cw as int, ch as int, row as int, col as int) =~= either_on(either_on(a, b), either_on(c, d)));
    }
}

/// Pixel image of a terminal grid, kept between frames so that only the
/// damaged cells are redrawn.
pub struct TerminalRaster {
    width: u32,
    height: u32,
    cell_width: u32,
    cell_height: u32,
    rows: u16,
    cols: u16,
    pixels: Vec<u8>,
    last_cursor: Option<TerminalCursor>,
    cells: Vec<TerminalCell>,
    last_cells: Option<Vec<TerminalCell>>,
    tile_cache: Vec<(TileCacheKey, Vec<u8>)>,
}

/// Value of a [`TerminalRaster`]: image size, cell size and grid, the
/// RGBA bytes, the cursor and cells last drawn, the grid being drawn, and
/// the tile cache in insertion order.
pub struct RasterView {
    pub width: u32,
    pub height: u32,
    pub cell_width: u32,
    pub cell_height: u32,
    pub rows: u16,
    pub cols: u16,
    pub pixels: Seq<u8>,
    pub last_cursor: Option<TerminalCursor>,
    pub cells: Seq<TerminalCellView>,
    pub last_cells: Option<Seq<TerminalCellView>>,
    pub tiles: Seq<(TileCacheKey, Seq<u8>)>,
}

impl View for TerminalRaster {
    type V = RasterView;

    closed spec fn view(&self) -> RasterView {
        RasterView {
            width: self.width,
            height: self.height,
            cell_width: self.cell_width,
            cell_height: self.cell_height,
            rows: self.rows,
            cols: self.cols,
            pixels: self.pixels@,
            last_cursor: self.last_cursor,
            cells: cells_view(self.cells@),
            last_cells: match self.last_cells {
                Some(c) => Some(cells_view(c@)),
                None => None,
            },
            tiles: tiles_view(self.tile_cache@),
        }
    }
}

/// The raster's invariant: the image holds `width * height` pixels and fits
/// 32-bit pixel offsets, cells are at least one pixel, and no tile key is
/// cached twice.
pub open spec fn raster_inv(v: RasterView) -> bool {
    &&& v.pixels.len() == v.width * v.height * 4
    &&& v.width * v.height * 4 <= u32::MAX
    &&& 1 <= v.cell_width
    &&& 1 <= v.cell_height
    &&& keys_unique(v.tiles)
}

/// The raster is set up to draw its grid: the grid fits the image, the cell
/// size divides the image among the grid, the grid holds every cell, and
/// every cached tile is big enough for the cell size.
pub open spec fn drawable(v: RasterView) -> bool {
    &&& v.rows <= v.height
    &&& v.cols <= v.width
    &&& v.cell_width == extent(v.width, v.cols)
    &&& v.cell_height == extent(v.height, v.rows)
    &&& v.cells.len() == v.rows * v.cols
    &&& tiles_fit(v.tiles, v.cell_width, v.cell_height)
}

/// Everything but the image and the tile cache is the same.
pub open spec fn same_grid(a: RasterView, b: RasterView) -> bool {
    &&& a.width == b.width
    &&& a.height == b.height
    &&& a.cell_width == b.cell_width
    &&& a.cell_height == b.cell_height
    &&& a.rows == b.rows
    &&& a.cols == b.cols
    &&& a.last_cursor == b.last_cursor
    &&& a.cells == b.cells
    &&& a.last_cells == b.last_cells
}

/// `after` is `before` after redrawing the cell at `row`, `col` under `cursor`
/// with tile key `key`: the cell's tile (taken from the cache, or drawn and
/// cached) is copied into the cell's box, giving `mid`, and the cursor is
/// drawn over it when it is there.
pub open spec fn cell_redrawn(
    before: RasterView,
    after: RasterView,
    cursor: TerminalCursor,
    row: int,
    col: int,
    key: TileCacheKey,
    mid: Seq<u8>,
) -> bool {
    let cell = before.cells[row * before.cols + col];
    let here = cursor.row == row && cursor.col == col;
    let fg = cell_colors(cell, here).1;
    let w = before.width as int;
    let h = before.height as int;
    let cw = before.cell_width as int;
    let ch = before.cell_height as int;
    let tile = tile_in(after.tiles, key);
    &&& key_for(key, cell, here)
    &&& has_key(after.tiles, key)
    &&& has_key(before.tiles, key) ==> after.tiles == before.tiles
    &&& !has_key(before.tiles, key) ==> after.tiles == before.tiles.push((key, tile)) && is_tile(
        tile,
        key,
        before.cell_width,
        before.cell_height,
    )
    &&& blitted(before.pixels, mid, w, h, col * cw, row * ch, cw, ch, tile)
    &&& if here {
        cursor_drawn(mid, after.pixels, w, h, cw, ch, cursor.shape, row, col, fg)
    } else {
        after.pixels == mid
    }
}

/// Cell boxes of a drawable raster lie inside its image.
proof fn lemma_cell_box(v: RasterView, row: int, col: int)
    requires
        raster_inv(v),
        drawable(v),
        0 <= row < v.rows,
        0 <= col < v.cols,
    ensures
        (col + 1) * v.cell_width <= v.width,
        (row + 1) * v.cell_height <= v.height,
        v.cell_width * v.cell_height * 4 <= u32::MAX,
{
    let (w, h, cw, ch, rows, cols) = (v.width as int, v.height as int, v.cell_width as int, v.cell_height as int, v.rows as int, v.cols as int);
    assert(w / cols >= 1 && (w / cols) * cols <= w) by (nonlinear_arith)
        requires
            1 <= cols <= w,
    ;
    assert(h / rows >= 1 && (h / rows) * rows <= h) by (nonlinear_arith)
        requires
            1 <= rows <= h,
    ;
    assert(cw == w / cols);
    assert(ch == h / rows);
    assert((col + 1) * cw <= w) by (nonlinear_arith)
        requires
            0 <= col + 1 <= cols,
            0 <= cw,
            cw == w / cols,
            (w / cols) * cols <= w,
    ;
    assert((row + 1) * ch <= h) by (nonlinear_arith)
        requires
            0 <= row + 1 <= rows,
            0 <= ch,
            ch == h / rows,
            (h / rows) * rows <= h,
    ;
    assert(cw * ch * 4 <= w * h * 4) by (nonlinear_arith)
        requires
            0 <= cw <= w,
            0 <= ch <= h,
    ;
}

/// With unique keys, the cached tile for a key is the one at its entry.
proof fn lemma_tile_in(tiles: Seq<(TileCacheKey, Seq<u8>)>, key: TileCacheKey, i: int)
    requires
        keys_unique(tiles),
        0 <= i < tiles.len(),
        tiles[i].0 == key,
    ensures
        has_key(tiles, key),
        tile_in(tiles, key) == tiles[i].1,
{
    let j = choose|j: int| 0 <= j < tiles.len() && (#[trigger] tiles[j]).0 == key;
    if j != i {
        if j < i {
            assert(tiles[j].0 != tiles[i].0);
        } else {
            assert(tiles[i].0 != tiles[j].0);
        }
    }
}

/// `s` cut or padded with zero bytes to `n` bytes.
pub open spec fn resized_bytes(s: Seq<u8>, n: int) -> Seq<u8> {
    Seq::new(n as nat, |i: int| if i < s.len() { s[i] } else { 0u8 })
}

/// `s` cut or padded with blank cells to `n` cells.
pub open spec fn resized_cells(s: Seq<TerminalCellView>, n: int) -> Seq<TerminalCellView> {
    Seq::new(n as nat, |i: int| if i < s.len() { s[i] } else { blank_cell_view() })
}

proof fn lemma_apply_span_updates_len(
    cells: Seq<TerminalCellView>,
    batch: crate::terminal_model::TerminalCellSpanBatch,
    width: int,
    n: int,
)
    requires
        batch.spans_in_bounds(),
        n <= batch.spec_spans().len(),
        width >= 0,
    ensures
        apply_span_updates(cells, batch, width, n).len() == cells.len(),
    decreases n,
{
    if n > 0 {
        lemma_apply_span_updates_len(cells, batch, width, n - 1);
        let span = batch.spec_spans()[n - 1];
        assert(span.cells_start + span.len <= batch.spec_cells().len());
        assert(span.row * width >= 0) by (nonlinear_arith)
            requires
                width >= 0,
        ;
    }
}

proof fn lemma_grid_size(rows: u16, cols: u16)
    ensures
        rows * cols <= u32::MAX,
{
    crate::terminal_text::lemma_grid_index_fits(rows, cols, 0, 0);
}

/// Cuts or pads `cells` with blank cells to `n` cells.
pub(crate) fn resize_cells(cells: &mut Vec<TerminalCell>, n: usize)
    ensures
        cells_view(final(cells)@) == resized_cells(cells_view(old(cells)@), n as int),
{
    let ghost before = cells_view(cells@);
    cells.truncate(n);
    while cells.len() < n
        invariant
            cells@.len() <= n,
            cells@.len() >= before.len() || cells@.len() == n,
            forall|i: int| 0 <= i < cells@.len() ==> (#[trigger] cells@[i])@ == if i < before.len() {
                before[i]
            } else {
                blank_cell_view()
            },
        decreases n - cells@.len(),
    {
        cells.push(TerminalCell::default());
    }
    assert(cells_view(cells@) =~= resized_cells(before, n as int));
}

/// `after` is `before` after redrawing some of its cells: sizes and grid stay,
/// the image keeps its length, and the tile cache only gains tiles for
/// the cell size.
pub open spec fn redrawn(before: RasterView, after: RasterView) -> bool {
    &&& raster_inv(after)
    &&& drawable(after)
    &&& same_grid(before, after)
    &&& after.pixels.len() == before.pixels.len()
    &&& tiles_extended(before.tiles, after.tiles, before.cell_width, before.cell_height)
}

proof fn lemma_redrawn_refl(v: RasterView)
    requires
        raster_inv(v),
        drawable(v),
    ensures
        redrawn(v, v),
{
    assert(v.tiles.subrange(0, v.tiles.len() as int) =~= v.tiles);
}

proof fn lemma_redrawn_trans(a: RasterView, b: RasterView, c: RasterView)
    requires
        redrawn(a, b),
        redrawn(b, c),
    ensures
        redrawn(a, c),
{
    lemma_tiles_extended_trans(a.tiles, b.tiles, c.tiles, a.cell_width, a.cell_height);
}

/// Pixels the cursor of `shape` over the cell at `row`, `col` may paint:
/// the cell's box for a block, the underline, beam or outline shape for
/// the others, none when it is hidden.
pub open spec fn cursor_marks(
    w: int,
    h: int,
    cw: int,
    ch: int,
    shape: TerminalCursorShape,
    row: int,
    col: int,
) -> spec_fn(int, int) -> bool {
    match shape {
        TerminalCursorShape::Block => box_on(col * cw, col * cw + cw, row * ch, row * ch + ch),
        TerminalCursorShape::Underline => underline_on(w, h, cw, ch, row, col),
        TerminalCursorShape::Beam => if cw == ch {
            underline_on(w, h, cw, ch, row, col)
        } else {
            beam_on(w, h, cw, ch, row, col)
        },
        TerminalCursorShape::HollowBlock => hollow_on(cw, ch, row, col),
        TerminalCursorShape::Hidden => box_on(0, 0, 0, 0),
    }
}

/// Pixel `x`, `y` lies in the box of the cell at `row`, `col` of a grid of
/// `cw` by `ch` pixel cells.
pub open spec fn in_cell(x: int, y: int, cw: int, ch: int, row: int, col: int) -> bool {
    in_box(x, y, col * cw, col * cw + cw, row * ch, row * ch + ch)
}

/// The tile key of a cell (see [`key_for`]).
pub open spec fn cell_key(cell: TerminalCellView, cursor_here: bool) -> TileCacheKey {
    choose|k: TileCacheKey| key_for(k, cell, cursor_here)
}

/// The box of the cell at `row`, `col` shows the cached tile of the cell's
/// key, at every pixel the cursor may not have painted.
pub open spec fn cell_shown(v: RasterView, cursor: TerminalCursor, row: int, col: int) -> bool {
    let w = v.width as int;
    let h = v.height as int;
    let cw = v.cell_width as int;
    let ch = v.cell_height as int;
    let key = cell_key(v.cells[row * v.cols + col], false);
    &&& has_key(v.tiles, key)
    &&& forall|x: int, y: int|
        0 <= x < w && 0 <= y < h && in_cell(x, y, cw, ch, row, col) && !cursor_marks(
            w,
            h,
            cw,
            ch,
            cursor.shape,
            cursor.row as int,
            cursor.col as int,
        )(x, y) ==> #[trigger] pixel_at(v.pixels, w, x, y) == pixel_at(
            tile_in(v.tiles, key),
            cw,
            x - col * cw,
            y - row * ch,
        )
}

/// A pixel of the cursor's cell as the cursor of `shape` leaves it: the
/// cell's tile pixel `tile_px` where the cursor does not mark the cell;
/// where it does, the tile pixel blended toward the cursor color for a
/// block, `fg` for an underline or a beam, the cursor color for a hollow
/// block.
pub open spec fn cursor_pixel(shape: TerminalCursorShape, marked: bool, tile_px: Seq<u8>, fg: Seq<u8>) -> Seq<u8> {
    if !marked {
        tile_px
    } else {
        match shape {
            TerminalCursorShape::Block => blended(tile_px, cursor_color()),
            TerminalCursorShape::Underline => fg,
            TerminalCursorShape::Beam => fg,
            TerminalCursorShape::HollowBlock => cursor_color(),
            TerminalCursorShape::Hidden => tile_px,
        }
    }
}

/// The box of the cursor's cell shows the cached tile of the cell as a
/// cell under the cursor, with the cursor drawn over it (see
/// [`cursor_pixel`]).
pub open spec fn cursor_cell_shown(v: RasterView, cursor: TerminalCursor) -> bool {
    let w = v.width as int;
    let h = v.height as int;
    let cw = v.cell_width as int;
    let ch = v.cell_height as int;
    let row = cursor.row as int;
    let col = cursor.col as int;
    let cell = v.cells[row * v.cols + col];
    let key = cell_key(cell, true);
    &&& has_key(v.tiles, key)
    &&& forall|x: int, y: int|
        0 <= x < w && 0 <= y < h && in_cell(x, y, cw, ch, row, col) ==> #[trigger] pixel_at(v.pixels, w, x, y)
            == cursor_pixel(
            cursor.shape,
            cursor_marks(w, h, cw, ch, cursor.shape, row, col)(x, y),
            pixel_at(tile_in(v.tiles, key), cw, x - col * cw, y - row * ch),
            cell_colors(cell, true).1,
        )
}

/// Redrawing the cursor's cell shows it with the cursor over its tile.
proof fn lemma_cursor_cell_drawn(
    before: RasterView,
    after: RasterView,
    cursor: TerminalCursor,
    key: TileCacheKey,
    mid: Seq<u8>,
)
    requires
        same_grid(before, after),
        cell_redrawn(before, after, cursor, cursor.row as int, cursor.col as int, key, mid),
    ensures
        cursor_cell_shown(after, cursor),
{
    let w = before.width as int;
    let h = before.height as int;
    let cw = before.cell_width as int;
    let ch = before.cell_height as int;
    let row = cursor.row as int;
    let col = cursor.col as int;
    let cell = before.cells[row * before.cols + col];
    lemma_cell_key(key, cell, true);
    assert forall|x: int, y: int|
        0 <= x < w && 0 <= y < h && in_cell(x, y, cw, ch, row, col) implies #[trigger] pixel_at(after.pixels, w, x, y)
            == cursor_pixel(
            cursor.shape,
            cursor_marks(w, h, cw, ch, cursor.shape, row, col)(x, y),
            pixel_at(tile_in(after.tiles, key), cw, x - col * cw, y - row * ch),
            cell_colors(cell, true).1,
        ) by {
        assert(pixel_at(mid, w, x, y) == pixel_at(tile_in(after.tiles, key), cw, x - col * cw, y - row * ch));
    }
}

/// Redrawing another cell keeps the cursor's cell shown.
proof fn lemma_cursor_cell_kept(
    before: RasterView,
    after: RasterView,
    cursor: TerminalCursor,
    row: int,
    col: int,
    key: TileCacheKey,
    mid: Seq<u8>,
)
    requires
        redrawn(before, after),
        raster_inv(before),
        cell_redrawn(before, after, cursor, row, col, key, mid),
        !(row == cursor.row && col == cursor.col),
        cursor_cell_shown(before, cursor),
    ensures
        cursor_cell_shown(after, cursor),
{
    let w = before.width as int;
    let h = before.height as int;
    let cw = before.cell_width as int;
    let ch = before.cell_height as int;
    let cell = before.cells[cursor.row * before.cols + cursor.col];
    let key2 = cell_key(cell, true);
    lemma_tile_in_kept(before.tiles, after.tiles, key2);
    assert forall|x: int, y: int|
        0 <= x < w && 0 <= y < h && in_cell(x, y, cw, ch, cursor.row as int, cursor.col as int) implies #[trigger] pixel_at(
        after.pixels,
        w,
        x,
        y,
    ) == cursor_pixel(
        cursor.shape,
        cursor_marks(w, h, cw, ch, cursor.shape, cursor.row as int, cursor.col as int)(x, y),
        pixel_at(tile_in(after.tiles, key2), cw, x - cursor.col * cw, y - cursor.row * ch),
        cell_colors(cell, true).1,
    ) by {
        if in_cell(x, y, cw, ch, row, col) {
            lemma_cells_disjoint(x, y, cw, ch, cursor.row as int, cursor.col as int, row, col);
        }
        assert(pixel_at(mid, w, x, y) == pixel_at(before.pixels, w, x, y));
    }
}

/// Every cell of the grid but the cursor's shows its tile (see
/// [`cell_shown`]).
pub open spec fn grid_shown(v: RasterView, cursor: TerminalCursor) -> bool {
    forall|r: int, c: int|
        0 <= r < v.rows && 0 <= c < v.cols && !(r == cursor.row && c == cursor.col) ==> #[trigger] cell_shown(
            v,
            cursor,
            r,
            c,
        )
}

/// A cell has one tile key.
proof fn lemma_cell_key(key: TileCacheKey, cell: TerminalCellView, here: bool)
    requires
        key_for(key, cell, here),
    ensures
        cell_key(cell, here) == key,
{
    let k = cell_key(cell, here);
    assert(key_for(k, cell, here));
    assert(k.fg =~= key.fg);
    assert(k.bg =~= key.bg);
}

/// Growing a cache with unique keys keeps the tiles cached before.
proof fn lemma_tile_in_kept(a: Seq<(TileCacheKey, Seq<u8>)>, b: Seq<(TileCacheKey, Seq<u8>)>, key: TileCacheKey)
    requires
        a.len() <= b.len(),
        b.subrange(0, a.len() as int) == a,
        keys_unique(b),
        has_key(a, key),
    ensures
        has_key(b, key),
        tile_in(b, key) == tile_in(a, key),
{
    let i = choose|i: int| 0 <= i < a.len() && (#[trigger] a[i]).0 == key;
    assert(b[i] == a[i]);
    assert forall|p: int, q: int| 0 <= p < q < a.len() implies (#[trigger] a[p]).0 != (#[trigger] a[q]).0 by {
        assert(a[p] == b[p] && a[q] == b[q]);
    }
    lemma_tile_in(a, key, i);
    lemma_tile_in(b, key, i);
}

/// A cursor paints nothing outside its marks.
proof fn lemma_cursor_only_marks(
    before: Seq<u8>,
    after: Seq<u8>,
    w: int,
    h: int,
    cw: int,
    ch: int,
    shape: TerminalCursorShape,
    row: int,
    col: int,
    fg: Seq<u8>,
    x: int,
    y: int,
)
    requires
        cursor_drawn(before, after, w, h, cw, ch, shape, row, col, fg),
        0 <= x < w,
        0 <= y < h,
        !cursor_marks(w, h, cw, ch, shape, row, col)(x, y),
    ensures
        pixel_at(after, w, x, y) == pixel_at(before, w, x, y),
{
    match shape {
        TerminalCursorShape::Block => {
            assert(!in_box(x, y, col * cw, col * cw + cw, row * ch, row * ch + ch));
        },
        TerminalCursorShape::Underline => {},
        TerminalCursorShape::Beam => {},
        TerminalCursorShape::HollowBlock => {},
        TerminalCursorShape::Hidden => {},
    }
}

/// The boxes of two cells do not overlap.
proof fn lemma_cells_disjoint(x: int, y: int, cw: int, ch: int, r: int, c: int, r2: int, c2: int)
    requires
        cw >= 1,
        ch >= 1,
        in_cell(x, y, cw, ch, r, c),
        in_cell(x, y, cw, ch, r2, c2),
    ensures
        r == r2,
        c == c2,
{
    assert(c == c2) by (nonlinear_arith)
        requires
            cw >= 1,
            c * cw <= x < c * cw + cw,
            c2 * cw <= x < c2 * cw + cw,
    {
        if c < c2 {
            assert((c2 - c) * cw >= cw);
        } else if c2 < c {
            assert((c - c2) * cw >= cw);
        }
    }
    assert(r == r2) by (nonlinear_arith)
        requires
            ch >= 1,
            r * ch <= y < r * ch + ch,
            r2 * ch <= y < r2 * ch + ch,
    {
        if r < r2 {
            assert((r2 - r) * ch >= ch);
        } else if r2 < r {
            assert((r - r2) * ch >= ch);
        }
    }
}

/// A pixel in a cell's box belongs to that cell: its row and column are
/// the pixel's coordinates divided by the cell size.
proof fn lemma_cell_of_pixel(x: int, y: int, cw: int, ch: int, row: int, col: int)
    requires
        cw >= 1,
        ch >= 1,
        in_cell(x, y, cw, ch, row, col),
    ensures
        y / ch == row,
        x / cw == col,
{
    assert(y / ch == row) by (nonlinear_arith)
        requires
            ch >= 1,
            row * ch <= y < row * ch + ch,
    ;
    assert(x / cw == col) by (nonlinear_arith)
        requires
            cw >= 1,
            col * cw <= x < col * cw + cw,
    ;
}

/// Redrawing one cell changes no pixel outside its box and the cursor's
/// marks.
proof fn lemma_redraw_cell_frame(
    before: RasterView,
    after: RasterView,
    cursor: TerminalCursor,
    row: int,
    col: int,
    key: TileCacheKey,
    mid: Seq<u8>,
    x: int,
    y: int,
)
    requires
        cell_redrawn(before, after, cursor, row, col, key, mid),
        0 <= x < before.width,
        0 <= y < before.height,
        !in_cell(x, y, before.cell_width as int, before.cell_height as int, row, col),
        !cursor_marks(
            before.width as int,
            before.height as int,
            before.cell_width as int,
            before.cell_height as int,
            cursor.shape,
            cursor.row as int,
            cursor.col as int,
        )(x, y),
    ensures
        pixel_at(after.pixels, before.width as int, x, y) == pixel_at(before.pixels, before.width as int, x, y),
{
    let here = cursor.row == row && cursor.col == col;
    let cell = before.cells[row * before.cols + col];
    let fg = cell_colors(cell, here).1;
    if here {
        lemma_cursor_only_marks(
            mid,
            after.pixels,
            before.width as int,
            before.height as int,
            before.cell_width as int,
            before.cell_height as int,
            cursor.shape,
            row,
            col,
            fg,
            x,
            y,
        );
    }
}

/// Last column of a grid `cols` wide (0 for an empty grid).
pub open spec fn last_col(cols: u16) -> int {
    if cols > 0 {
        cols - 1
    } else {
        0
    }
}

/// Column `c` of row `r` lies in the damaged span `span`, its right end
/// kept on a grid `cols` wide.
pub open spec fn in_span(span: crate::terminal_model::TerminalDamageSpan, cols: u16, r: int, c: int) -> bool {
    &&& span.row == r
    &&& span.left <= c
    &&& c <= if span.right < last_col(cols) {
        span.right as int
    } else {
        last_col(cols)
    }
}

/// Cells a partial redraw may repaint: those of the damaged spans, the
/// cell the cursor left, and the cell it is on.
pub open spec fn partial_cells(
    spans: Seq<crate::terminal_model::TerminalDamageSpan>,
    previous: Option<TerminalCursor>,
    cursor: TerminalCursor,
    cols: u16,
    r: int,
    c: int,
) -> bool {
    ||| exists|i: int| 0 <= i < spans.len() && #[trigger] in_span(spans[i], cols, r, c)
    ||| (previous matches Some(p) && p.row == r && p.col == c)
    ||| (cursor.row == r && cursor.col == c)
}

/// Every pixel of the image `after`, laid out as `v`'s, that is neither in
/// a cell `drawn` holds nor marked by the cursor is the pixel of `base`.
pub open spec fn kept_except(
    v: RasterView,
    base: Seq<u8>,
    after: Seq<u8>,
    drawn: spec_fn(int, int) -> bool,
    cursor: TerminalCursor,
) -> bool {
    let w = v.width as int;
    let h = v.height as int;
    let cw = v.cell_width as int;
    let ch = v.cell_height as int;
    forall|x: int, y: int|
        0 <= x < w && 0 <= y < h && !drawn(y / ch, x / cw) && !cursor_marks(
            w,
            h,
            cw,
            ch,
            cursor.shape,
            cursor.row as int,
            cursor.col as int,
        )(x, y) ==> #[trigger] pixel_at(after, w, x, y) == pixel_at(base, w, x, y)
}

/// The cells a partial redraw may repaint (see [`partial_cells`]).
pub open spec fn partial_set(
    spans: Seq<crate::terminal_model::TerminalDamageSpan>,
    previous: Option<TerminalCursor>,
    cursor: TerminalCursor,
    cols: u16,
) -> spec_fn(int, int) -> bool {
    |r: int, c: int| partial_cells(spans, previous, cursor, cols, r, c)
}

/// The cells of row `row`.
pub open spec fn row_set(row: int) -> spec_fn(int, int) -> bool {
    |r: int, c: int| r == row
}

/// Every pixel of `after` outside the cells a partial redraw may repaint
/// and outside the cursor's marks is the pixel of `before`.
pub open spec fn kept_outside(
    before: RasterView,
    after: RasterView,
    spans: Seq<crate::terminal_model::TerminalDamageSpan>,
    cursor: TerminalCursor,
) -> bool {
    kept_except(before, before.pixels, after.pixels, partial_set(spans, before.last_cursor, cursor, before.cols), cursor)
}

/// Redrawing a cell of `drawn` keeps the pixels outside `drawn` and the
/// cursor's marks, keeps the other cells shown, and shows the cell unless
/// the cursor is on it.
proof fn lemma_redraw_step(
    start: RasterView,
    base: Seq<u8>,
    before: RasterView,
    after: RasterView,
    drawn: spec_fn(int, int) -> bool,
    cursor: TerminalCursor,
    row: int,
    col: int,
    key: TileCacheKey,
    mid: Seq<u8>,
)
    requires
        redrawn(start, before),
        redrawn(before, after),
        raster_inv(before),
        0 <= row,
        0 <= col,
        row * before.cols + col < before.cells.len() ==> cell_redrawn(before, after, cursor, row, col, key, mid),
        row * before.cols + col >= before.cells.len() ==> after == before,
        drawn(row, col),
        kept_except(start, base, before.pixels, drawn, cursor),
    ensures
        kept_except(start, base, after.pixels, drawn, cursor),
        forall|r: int, c: int|
            !(r == row && c == col) && #[trigger] cell_shown(before, cursor, r, c) ==> cell_shown(after, cursor, r, c),
        row * before.cols + col < before.cells.len() && !(row == cursor.row && col == cursor.col) ==> cell_shown(
            after,
            cursor,
            row,
            col,
        ),
{
    if row * before.cols + col < before.cells.len() {
        let w = start.width as int;
        let h = start.height as int;
        let cw = start.cell_width as int;
        let ch = start.cell_height as int;
        assert forall|x: int, y: int|
            0 <= x < w && 0 <= y < h && !drawn(y / ch, x / cw) && !cursor_marks(
                w,
                h,
                cw,
                ch,
                cursor.shape,
                cursor.row as int,
                cursor.col as int,
            )(x, y) implies #[trigger] pixel_at(after.pixels, w, x, y) == pixel_at(base, w, x, y) by {
            if in_cell(x, y, cw, ch, row, col) {
                lemma_cell_of_pixel(x, y, cw, ch, row, col);
            }
            lemma_redraw_cell_frame(before, after, cursor, row, col, key, mid, x, y);
        }
        assert forall|r: int, c: int|
            !(r == row && c == col) && #[trigger] cell_shown(before, cursor, r, c) implies cell_shown(
                after,
                cursor,
                r,
                c,
            ) by {
            lemma_shown_kept(before, after, cursor, row, col, key, mid, r, c);
        }
        if !(row == cursor.row && col == cursor.col) {
            lemma_shown_new(before, after, cursor, row, col, key, mid);
        }
    }
}

/// What a partial redraw under `cursor` leaves: each cell of the damaged
/// spans and the cell the cursor left, when on the grid and not under the
/// cursor, shows its tile, and every other pixel not marked by the cursor
/// is unchanged.
pub open spec fn partial_shown(
    before: RasterView,
    after: RasterView,
    spans: Seq<crate::terminal_model::TerminalDamageSpan>,
    cursor: TerminalCursor,
) -> bool {
    &&& forall|i: int, c: int|
        0 <= i < spans.len() && spans[i].row < before.rows && 0 <= c < before.cols && in_span(
            spans[i],
            before.cols,
            spans[i].row as int,
            c,
        ) && !(spans[i].row == cursor.row && c == cursor.col) ==> #[trigger] cell_shown(
            after,
            cursor,
            spans[i].row as int,
            c,
        )
    &&& match before.last_cursor {
        Some(p) => (p.row < before.rows && p.col < before.cols && !(p.row == cursor.row && p.col == cursor.col))
            ==> cell_shown(after, cursor, p.row as int, p.col as int),
        None => true,
    }
    &&& kept_outside(before, after, spans, cursor)
}

/// First and end row a scroll by `scroll_rows` uncovers in a grid of
/// `rows`: the last rows after a scroll up, the first after a scroll down.
pub open spec fn exposed_rows(scroll_rows: i16, rows: u16) -> (int, int) {
    let exposed = scroll_size(scroll_rows);
    if scroll_rows > 0 {
        (if rows > exposed { rows - exposed } else { 0 }, rows as int)
    } else {
        (0, if exposed < rows { exposed } else { rows as int })
    }
}

/// Cells a scroll redraw may repaint: the uncovered rows, the cell the
/// cursor left (moved with the scroll), and the cell it is on.
pub open spec fn scroll_cells(
    scroll_rows: i16,
    rows: u16,
    previous: Option<TerminalCursor>,
    cursor: TerminalCursor,
    r: int,
    c: int,
) -> bool {
    let (first, end) = exposed_rows(scroll_rows, rows);
    ||| first <= r < end
    ||| match previous {
        Some(p) => match crate::raster::shifted(p.row, scroll_rows, rows) {
            Some(sr) => sr == r && p.col == c,
            None => false,
        },
        None => false,
    }
    ||| (cursor.row == r && cursor.col == c)
}

/// The cells a scroll redraw may repaint (see [`scroll_cells`]).
pub open spec fn scroll_set(scroll_rows: i16, rows: u16, previous: Option<TerminalCursor>, cursor: TerminalCursor) -> spec_fn(
    int,
    int,
) -> bool {
    |r: int, c: int| scroll_cells(scroll_rows, rows, previous, cursor, r, c)
}

/// The cells of rows `first` to `end`, that end excluded.
pub open spec fn rows_set(first: int, end: int) -> spec_fn(int, int) -> bool {
    |r: int, c: int| first <= r < end
}

/// The image of `v` moved by `scroll_rows` rows of cells, what is
/// uncovered cleared to the default background.
pub open spec fn scrolled_pixels(v: RasterView, scroll_rows: i16) -> Seq<u8> {
    shifted_image(v.pixels, row_stride(v) * scroll_size(scroll_rows), scroll_rows > 0, default_background())
}

/// What a scroll redraw under `cursor` leaves: each cell of the uncovered
/// rows, and the cell the cursor left moved with the scroll, when not
/// under the cursor, shows its tile, and every other pixel not marked by
/// the cursor is the moved image's.
pub open spec fn scrolled_shown(before: RasterView, after: RasterView, cursor: TerminalCursor, scroll_rows: i16) -> bool {
    let (first, end) = exposed_rows(scroll_rows, before.rows);
    &&& forall|r: int, c: int|
        first <= r < end && 0 <= c < before.cols && !(r == cursor.row && c == cursor.col) ==> #[trigger] cell_shown(
            after,
            cursor,
            r,
            c,
        )
    &&& match before.last_cursor {
        Some(p) => match crate::raster::shifted(p.row, scroll_rows, before.rows) {
            Some(sr) => (sr < before.rows && p.col < before.cols && !(sr == cursor.row && p.col == cursor.col))
                ==> cell_shown(after, cursor, sr as int, p.col as int),
            None => true,
        },
        None => true,
    }
    &&& kept_except(
        before,
        scrolled_pixels(before, scroll_rows),
        after.pixels,
        scroll_set(scroll_rows, before.rows, before.last_cursor, cursor),
        cursor,
    )
}

/// One cell redraw of a partial redraw keeps what it has shown and what it
/// has kept.
proof fn lemma_partial_step(
    start: RasterView,
    before: RasterView,
    after: RasterView,
    spans: Seq<crate::terminal_model::TerminalDamageSpan>,
    cursor: TerminalCursor,
    row: int,
    col: int,
    key: TileCacheKey,
    mid: Seq<u8>,
)
    requires
        redrawn(start, before),
        redrawn(before, after),
        raster_inv(before),
        0 <= row,
        0 <= col,
        row * before.cols + col < before.cells.len() ==> cell_redrawn(before, after, cursor, row, col, key, mid),
        row * before.cols + col >= before.cells.len() ==> after == before,
        partial_cells(spans, start.last_cursor, cursor, start.cols, row, col),
        kept_outside(start, before, spans, cursor),
    ensures
        kept_outside(start, after, spans, cursor),
        forall|r: int, c: int|
            !(r == row && c == col) && #[trigger] cell_shown(before, cursor, r, c) ==> cell_shown(after, cursor, r, c),
        row * before.cols + col < before.cells.len() && !(row == cursor.row && col == cursor.col) ==> cell_shown(
            after,
            cursor,
            row,
            col,
        ),
{
    let drawn = partial_set(spans, start.last_cursor, cursor, start.cols);
    assert(drawn(row, col));
    lemma_redraw_step(start, start.pixels, before, after, drawn, cursor, row, col, key, mid);
}

/// Redrawing one cell keeps every other cell shown.
proof fn lemma_shown_kept(
    before: RasterView,
    after: RasterView,
    cursor: TerminalCursor,
    row: int,
    col: int,
    key: TileCacheKey,
    mid: Seq<u8>,
    r: int,
    c: int,
)
    requires
        redrawn(before, after),
        raster_inv(before),
        cell_redrawn(before, after, cursor, row, col, key, mid),
        !(r == row && c == col),
        cell_shown(before, cursor, r, c),
    ensures
        cell_shown(after, cursor, r, c),
{
    let w = before.width as int;
    let h = before.height as int;
    let cw = before.cell_width as int;
    let ch = before.cell_height as int;
    let key2 = cell_key(before.cells[r * before.cols + c], false);
    lemma_tile_in_kept(before.tiles, after.tiles, key2);
    let here = cursor.row == row && cursor.col == col;
    let cell = before.cells[row * before.cols + col];
    let fg = cell_colors(cell, here).1;
    assert forall|x: int, y: int|
        0 <= x < w && 0 <= y < h && in_cell(x, y, cw, ch, r, c) && !cursor_marks(
            w,
            h,
            cw,
            ch,
            cursor.shape,
            cursor.row as int,
            cursor.col as int,
        )(x, y) implies #[trigger] pixel_at(after.pixels, w, x, y) == pixel_at(
        tile_in(after.tiles, key2),
        cw,
        x - c * cw,
        y - r * ch,
    ) by {
        if in_cell(x, y, cw, ch, row, col) {
            lemma_cells_disjoint(x, y, cw, ch, r, c, row, col);
        }
        assert(pixel_at(mid, w, x, y) == pixel_at(before.pixels, w, x, y));
        if here {
            lemma_cursor_only_marks(mid, after.pixels, w, h, cw, ch, cursor.shape, row, col, fg, x, y);
        }
        assert(pixel_at(before.pixels, w, x, y) == pixel_at(tile_in(before.tiles, key2), cw, x - c * cw, y - r * ch));
    }
}

/// A redrawn cell that the cursor is not on shows its tile.
proof fn lemma_shown_new(
    before: RasterView,
    after: RasterView,
    cursor: TerminalCursor,
    row: int,
    col: int,
    key: TileCacheKey,
    mid: Seq<u8>,
)
    requires
        redrawn(before, after),
        cell_redrawn(before, after, cursor, row, col, key, mid),
        !(row == cursor.row && col == cursor.col),
    ensures
        cell_shown(after, cursor, row, col),
{
    let w = before.width as int;
    let h = before.height as int;
    let cw = before.cell_width as int;
    let ch = before.cell_height as int;
    lemma_cell_key(key, before.cells[row * before.cols + col], false);
    assert forall|x: int, y: int|
        0 <= x < w && 0 <= y < h && in_cell(x, y, cw, ch, row, col) && !cursor_marks(
            w,
            h,
            cw,
            ch,
            cursor.shape,
            cursor.row as int,
            cursor.col as int,
        )(x, y) implies #[trigger] pixel_at(after.pixels, w, x, y) == pixel_at(
        tile_in(after.tiles, key),
        cw,
        x - col * cw,
        y - row * ch,
    ) by {
        assert(pixel_at(mid, w, x, y) == pixel_at(tile_in(after.tiles, key), cw, x - col * cw, y - row * ch));
    }
}

/// Tiles cached since the cache was last emptied are drawn at the cell
/// size for their key: with a fresh cache, a shown cell shows its
/// character's glyph in its colors (see [`is_tile`]).
pub proof fn lemma_fresh_tiles_are_drawn(
    tiles: Seq<(TileCacheKey, Seq<u8>)>,
    key: TileCacheKey,
    cw: u32,
    ch: u32,
)
    requires
        tiles_extended(Seq::empty(), tiles, cw, ch),
        keys_unique(tiles),
        has_key(tiles, key),
    ensures
        is_tile(tile_in(tiles, key), key, cw, ch),
{
    let i = choose|i: int| 0 <= i < tiles.len() && (#[trigger] tiles[i]).0 == key;
    lemma_tile_in(tiles, key, i);
    assert(is_tile(tiles[i].1, tiles[i].0, cw, ch));
}

/// Bytes of one row of cells.
pub open spec fn row_stride(v: RasterView) -> int {
    v.width * v.cell_height * 4
}

/// Magnitude of a scroll count.
pub open spec fn scroll_size(scroll_rows: i16) -> int {
    if scroll_rows < 0 { -scroll_rows } else { scroll_rows as int }
}

/// Magnitude of a scroll count.
fn unsigned_abs(scroll_rows: i16) -> (size: u16)
    ensures
        size == scroll_size(scroll_rows),
{
    if scroll_rows >= 0 {
        scroll_rows as u16
    } else if scroll_rows == -32768 {
        32768
    } else {
        (-scroll_rows) as u16
    }
}

/// Scroll to reuse pixels for: when the damage covers every row, the
/// previous grid has the current grid's size and there are two rows or
/// more, the first shift of one to four rows (at most the rows less one)
/// under which the rows kept on screen match.
pub open spec fn scroll_reuse(
    damage: Option<Seq<crate::terminal_model::TerminalDamageSpan>>,
    previous: Option<Seq<TerminalCellView>>,
    current: Seq<TerminalCellView>,
    rows: u16,
    cols: u16,
) -> Option<i16> {
    if !covers_full_rows(damage, rows, cols) {
        None
    } else {
        match previous {
            None => None,
            Some(p) => if p.len() != current.len() || rows <= 1 {
                None
            } else {
                first_shift(p, current, rows, cols, 1, if rows - 1 < 4 { rows - 1 } else { 4 })
            },
        }
    }
}

/// Cells of the grid after `frame`: its full grid when it publishes one,
/// else `cells` cut or padded to the frame's size with the frame's changed
/// spans written over it.
pub open spec fn frame_grid(cells: Seq<TerminalCellView>, frame: TerminalFrame) -> Seq<TerminalCellView> {
    match frame.publication {
        TerminalCellPublication::Full(c) => cells_view((*c)@),
        TerminalCellPublication::Partial(batch) => apply_span_updates(
            resized_cells(cells, frame.rows * frame.cols),
            batch,
            frame.cols as int,
            batch.spec_spans().len() as int,
        ),
    }
}

/// What `update` needs of its arguments: an image whose pixel offsets fit
/// 32 bits and that holds the frame's grid, a full grid of the frame's
/// size, changed spans within their cell storage, and, when the grid keeps
/// its size, cached tiles big enough for the after cell size.
pub open spec fn update_ok(v: RasterView, frame: TerminalFrame, width: u32, height: u32) -> bool {
    &&& width * height * 4 <= u32::MAX
    &&& frame.cols <= width
    &&& frame.rows <= height
    &&& match frame.publication {
        TerminalCellPublication::Full(c) => (*c)@.len() == frame.rows * frame.cols,
        TerminalCellPublication::Partial(batch) => batch.spans_in_bounds(),
    }
    &&& (frame.rows == v.rows && frame.cols == v.cols) ==> tiles_fit(
        v.tiles,
        extent(width, frame.cols),
        extent(height, frame.rows),
    )
}

/// `after` is `before` after `update(frame, width, height)`, all but the pixel
/// values: the image and cell sizes follow the frame, the grid is the
/// frame's, the frame's cursor and grid are remembered as last drawn, and
/// the tile cache holds tiles for the after cell size (after the before ones,
/// when the grid kept its size).
pub open spec fn updated(before: RasterView, after: RasterView, frame: TerminalFrame, width: u32, height: u32) -> bool {
    let geometry_changed = before.rows != frame.rows || before.cols != frame.cols;
    &&& after.width == width
    &&& after.height == height
    &&& after.rows == frame.rows
    &&& after.cols == frame.cols
    &&& after.cell_width == extent(width, frame.cols)
    &&& after.cell_height == extent(height, frame.rows)
    &&& after.pixels.len() == width * height * 4
    &&& after.cells == frame_grid(before.cells, frame)
    &&& after.last_cursor == Some(frame.cursor)
    &&& after.last_cells == Some(after.cells)
    &&& geometry_changed ==> tiles_extended(Seq::empty(), after.tiles, after.cell_width, after.cell_height)
    &&& !geometry_changed ==> tiles_extended(before.tiles, after.tiles, after.cell_width, after.cell_height)
}

impl TerminalRaster {
    /// The raster's invariant holds.
    pub open spec fn wf(&self) -> bool {
        raster_inv(self@)
    }

    /// An empty raster: no image, one-pixel cells, an empty grid, nothing
    /// drawn and nothing cached.
    pub fn new() -> (raster: Self)
        ensures
            raster.wf(),
            raster@ == (RasterView {
                width: 0,
                height: 0,
                cell_width: 1,
                cell_height: 1,
                rows: 0,
                cols: 0,
                pixels: Seq::empty(),
                last_cursor: None,
                cells: Seq::empty(),
                last_cells: None,
                tiles: Seq::empty(),
            }),
    {
        let r = TerminalRaster {
            width: 0,
            height: 0,
            cell_width: 1,
            cell_height: 1,
            rows: 0,
            cols: 0,
            pixels: Vec::new(),
            last_cursor: None,
            cells: Vec::new(),
            last_cells: None,
            tile_cache: Vec::new(),
        };
        proof {
            assert(r@.cells =~= Seq::<TerminalCellView>::empty());
            assert(r@.tiles =~= Seq::<(TileCacheKey, Seq<u8>)>::empty());
            assert(r@.pixels.len() == 0);
            assert(keys_unique(r@.tiles));
            assert(r@.width * r@.height * 4 == 0) by (nonlinear_arith)
                requires
                    r@.width == 0,
            ;
            assert(raster_inv(r@));
        }
        r
    }

    /// Sets the image size, cutting the pixel bytes or padding them with
    /// zeros to `width * height` pixels. The raster stays ready to draw
    /// while every byte offset of the image fits in 32 bits, which is how
    /// drawing computes them.
    pub fn resize(&mut self, width: u32, height: u32)
        requires
            old(self).wf(),
            width * height * 4 <= usize::MAX,
        ensures
            width * height * 4 <= u32::MAX ==> final(self).wf(),
            final(self)@ == (RasterView {
                width,
                height,
                pixels: resized_bytes(old(self)@.pixels, width * height * 4),
                ..old(self)@
            }),
    {
        proof {
            assert(width * height <= width * height * 4) by (nonlinear_arith)
                requires
                    0 <= width * height,
            ;
        }
        let n = (width as usize) * (height as usize) * 4;
        let ghost before = self.pixels@;
        self.width = width;
        self.height = height;
        self.pixels.resize(n, 0u8);
        proof {
            if n > before.len() {
                assert forall|i: int| before.len() <= i < n implies self.pixels@[i] == 0u8 by {
                    assert(cloned::<u8>(0u8, self.pixels@[i]));
                }
            }
            assert(self.pixels@ =~= resized_bytes(before, n as int));
        }
    }

    /// True when the image is not `width` by `height` pixels.
    pub fn dimensions_changed(&self, width: u32, height: u32) -> (changed: bool)
        ensures
            changed == (self@.width != width || self@.height != height),
    {
        self.width != width || self.height != height
    }

    /// The image's RGBA bytes, row by row.
    pub fn pixels(&self) -> (pixels: &[u8])
        ensures
            pixels@ == self@.pixels,
    {
        self.pixels.as_slice()
    }

    /// Index of the cell at `row`, `col` in the grid, when it holds one.
    fn cell_index(&self, row: u16, col: u16) -> (index: Option<usize>)
        ensures
            match index {
                Some(i) => i == row * self@.cols + col && i < self@.cells.len(),
                None => row * self@.cols + col >= self@.cells.len(),
            },
    {
        proof {
            crate::terminal_text::lemma_grid_index_fits(row, self.cols, col, 0);
        }
        let index = (row as usize) * (self.cols as usize) + (col as usize);
        if index < self.cells.len() {
            Some(index)
        } else {
            None
        }
    }

    /// Redraws the cell at `row`, `col`: its tile, then the cursor when it
    /// is there.
    fn redraw_cell(&mut self, frame: &TerminalFrame, row: u16, col: u16) -> (drawn: (Ghost<TileCacheKey>, Ghost<Seq<u8>>))
        requires
            raster_inv(old(self)@),
            drawable(old(self)@),
            col < old(self)@.cols || old(self)@.cols == 0,
        ensures
            raster_inv(final(self)@),
            drawable(final(self)@),
            same_grid(old(self)@, final(self)@),
            final(self)@.pixels.len() == old(self)@.pixels.len(),
            tiles_extended(old(self)@.tiles, final(self)@.tiles, old(self)@.cell_width, old(self)@.cell_height),
            row * old(self)@.cols + col >= old(self)@.cells.len() ==> final(self)@ == old(self)@,
            row * old(self)@.cols + col < old(self)@.cells.len() ==> cell_redrawn(
                old(self)@,
                final(self)@,
                frame.cursor,
                row as int,
                col as int,
                drawn.0@,
                drawn.1@,
            ),
    {
        let ghost old_view = self@;
        let index = match self.cell_index(row, col) {
            Some(i) => i,
            None => {
                proof {
                    assert(self@.tiles.subrange(0, self@.tiles.len() as int) =~= self@.tiles);
                }
                return (Ghost(arbitrary()), Ghost(arbitrary()));
            },
        };
        proof {
            assert(row < self.rows) by (nonlinear_arith)
                requires
                    row * self.cols + col < self.rows * self.cols,
                    col < self.cols,
            ;
            lemma_cell_box(self@, row as int, col as int);
            assert(self@.cells[index as int] == self.cells@[index as int]@);
        }
        let cursor_here = frame.cursor.row == row && frame.cursor.col == col;
        let key = tile_key(&self.cells[index], cursor_here);
        let fg = key.fg;
        let (w, h, cw, ch) = (self.width, self.height, self.cell_width, self.cell_height);
        let ghost tiles0 = self@.tiles;
        let slot = match find_tile(&self.tile_cache, &key) {
            Some(i) => {
                proof {
                    assert(tiles0[i as int].0 == key);
                    lemma_tile_in(tiles0, key, i as int);
                }
                i
            },
            None => {
                let tile = build_tile(cw, ch, key);
                self.tile_cache.push((key, tile));
                proof {
                    assert(self@.tiles =~= tiles0.push((key, tile@)));
                    assert forall|i: int, j: int| 0 <= i < j < self@.tiles.len() implies (#[trigger] self@.tiles[i]).0 != (
                    #[trigger] self@.tiles[j]).0 by {
                        if j == tiles0.len() {
                            assert(self@.tiles[i] == tiles0[i]);
                        } else {
                            assert(self@.tiles[i] == tiles0[i] && self@.tiles[j] == tiles0[j]);
                        }
                    }
                    lemma_tile_in(self@.tiles, key, tiles0.len() as int);
                    assert(self@.tiles.subrange(0, tiles0.len() as int) =~= tiles0);
                }
                self.tile_cache.len() - 1
            },
        };
        let ghost tile = tile_in(self@.tiles, key);
        proof {
            assert(self@.tiles[slot as int].1 == self.tile_cache@[slot as int].1@);
            assert(tile == self.tile_cache@[slot as int].1@);
            assert(tile.len() >= cw * ch * 4);
            if tiles0.len() == self@.tiles.len() {
                assert(self@.tiles.subrange(0, tiles0.len() as int) =~= tiles0);
            }
        }
        let ghost before = self.pixels@;
        blit_tile(&mut self.pixels, w, h, cw, ch, row, col, &self.tile_cache[slot].1);
        let ghost mid = self.pixels@;
        if cursor_here {
            draw_cursor(&mut self.pixels, w, h, cw, ch, frame.cursor.shape, row, col, fg);
        }
        proof {
            let cell = old_view.cells[row * old_view.cols + col];
            assert(cell == old_view.cells[index as int]);
            assert(key_for(key, cell, cursor_here));
            assert(blitted(old_view.pixels, mid, w as int, h as int, col * cw, row * ch, cw as int, ch as int, tile_in(self@.tiles, key)));
            assert(has_key(self@.tiles, key));
            assert(cell_colors(cell, cursor_here).1 == fg@);
            if cursor_here {
                assert(cursor_drawn(mid, self@.pixels, w as int, h as int, cw as int, ch as int, frame.cursor.shape, row as int, col as int, fg@));
            } else {
                assert(self@.pixels == mid);
            }
            assert(cell_redrawn(old_view, self@, frame.cursor, row as int, col as int, key, mid));
        }
        (Ghost(key), Ghost(mid))
    }

    /// Redraws every cell of row `row`.
    fn redraw_row(&mut self, frame: &TerminalFrame, row: u16)
        requires
            raster_inv(old(self)@),
            drawable(old(self)@),
            frame.cols == old(self)@.cols,
        ensures
            redrawn(old(self)@, final(self)@),
            kept_except(old(self)@, old(self)@.pixels, final(self)@.pixels, row_set(row as int), frame.cursor),
            row < old(self)@.rows ==> forall|c: int|
                0 <= c < old(self)@.cols && !(row == frame.cursor.row && c == frame.cursor.col)
                    ==> #[trigger] cell_shown(final(self)@, frame.cursor, row as int, c),
            forall|r: int, c: int|
                r != row && cell_shown(old(self)@, frame.cursor, r, c) ==> #[trigger] cell_shown(
                    final(self)@,
                    frame.cursor,
                    r,
                    c,
                ),
            row == frame.cursor.row && row < old(self)@.rows && frame.cursor.col < old(self)@.cols
                ==> cursor_cell_shown(final(self)@, frame.cursor),
            row != frame.cursor.row && cursor_cell_shown(old(self)@, frame.cursor) ==> cursor_cell_shown(
                final(self)@,
                frame.cursor,
            ),
    {
        proof {
            lemma_redrawn_refl(self@);
        }
        let ghost start = self@;
        let mut col: u16 = 0;
        while col < frame.cols
            invariant
                frame.cols == self@.cols,
                redrawn(start, self@),
                kept_except(start, start.pixels, self@.pixels, row_set(row as int), frame.cursor),
                row < start.rows ==> forall|c: int|
                    0 <= c < col && !(row == frame.cursor.row && c == frame.cursor.col) ==> #[trigger] cell_shown(
                        self@,
                        frame.cursor,
                        row as int,
                        c,
                    ),
                forall|r: int, c: int|
                    r != row && cell_shown(start, frame.cursor, r, c) ==> #[trigger] cell_shown(
                        self@,
                        frame.cursor,
                        r,
                        c,
                    ),
                row == frame.cursor.row && row < start.rows && frame.cursor.col < col ==> cursor_cell_shown(
                    self@,
                    frame.cursor,
                ),
                row != frame.cursor.row && cursor_cell_shown(start, frame.cursor) ==> cursor_cell_shown(
                    self@,
                    frame.cursor,
                ),
            decreases frame.cols - col,
        {
            let ghost before = self@;
            let (Ghost(key), Ghost(mid)) = self.redraw_cell(frame, row, col);
            proof {
                if row * before.cols + col < before.cells.len() {
                    assert(redrawn(before, self@)) by {
                        assert(before.tiles.subrange(0, before.tiles.len() as int) =~= before.tiles);
                    }
                    if row == frame.cursor.row && col == frame.cursor.col {
                        lemma_cursor_cell_drawn(before, self@, frame.cursor, key, mid);
                    } else if cursor_cell_shown(before, frame.cursor) {
                        lemma_cursor_cell_kept(before, self@, frame.cursor, row as int, col as int, key, mid);
                    }
                }
            }
            proof {
                lemma_redrawn_trans(start, before, self@);
                assert(redrawn(before, self@)) by {
                    assert(before.tiles.subrange(0, before.tiles.len() as int) =~= before.tiles);
                }
                assert(row_set(row as int)(row as int, col as int));
                lemma_redraw_step(
                    start,
                    start.pixels,
                    before,
                    self@,
                    row_set(row as int),
                    frame.cursor,
                    row as int,
                    col as int,
                    key,
                    mid,
                );
                let index = row * before.cols + col;
                if index < before.cells.len() {
                    assert forall|r: int, c: int|
                        r != row && cell_shown(start, frame.cursor, r, c) implies #[trigger] cell_shown(
                            self@,
                            frame.cursor,
                            r,
                            c,
                        ) by {
                        assert(cell_shown(before, frame.cursor, r, c));
                        lemma_shown_kept(before, self@, frame.cursor, row as int, col as int, key, mid, r, c);
                    }
                    if row < start.rows {
                        assert forall|c: int|
                            0 <= c < col + 1 && !(row == frame.cursor.row && c == frame.cursor.col)
                                implies #[trigger] cell_shown(self@, frame.cursor, row as int, c) by {
                            if c < col {
                                assert(cell_shown(before, frame.cursor, row as int, c));
                                lemma_shown_kept(
                                    before,
                                    self@,
                                    frame.cursor,
                                    row as int,
                                    col as int,
                                    key,
                                    mid,
                                    row as int,
                                    c,
                                );
                            } else {
                                lemma_shown_new(before, self@, frame.cursor, row as int, col as int, key, mid);
                            }
                        }
                    }
                } else {
                    assert(row >= start.rows) by (nonlinear_arith)
                        requires
                            index >= start.rows * start.cols,
                            index == row * start.cols + col,
                            col < start.cols,
                    ;
                }
            }
            col = col + 1;
        }
    }

    /// Redraws every cell.
    fn redraw_full(&mut self, frame: &TerminalFrame)
        requires
            raster_inv(old(self)@),
            drawable(old(self)@),
            frame.cols == old(self)@.cols,
            frame.rows == old(self)@.rows,
        ensures
            redrawn(old(self)@, final(self)@),
            grid_shown(final(self)@, frame.cursor),
            frame.cursor.row < frame.rows && frame.cursor.col < frame.cols ==> cursor_cell_shown(
                final(self)@,
                frame.cursor,
            ),
    {
        proof {
            lemma_redrawn_refl(self@);
        }
        let ghost start = self@;
        let mut row: u16 = 0;
        while row < frame.rows
            invariant
                frame.cols == self@.cols,
                frame.rows == start.rows,
                row <= frame.rows,
                redrawn(start, self@),
                frame.cursor.row < row && frame.cursor.col < frame.cols ==> cursor_cell_shown(self@, frame.cursor),
                forall|r: int, c: int|
                    0 <= r < row && 0 <= c < self@.cols && !(r == frame.cursor.row && c == frame.cursor.col)
                        ==> #[trigger] cell_shown(self@, frame.cursor, r, c),
            decreases frame.rows - row,
        {
            let ghost before = self@;
            self.redraw_row(frame, row);
            proof {
                lemma_redrawn_trans(start, before, self@);
                assert forall|r: int, c: int|
                    0 <= r < row + 1 && 0 <= c < self@.cols && !(r == frame.cursor.row && c == frame.cursor.col)
                        implies #[trigger] cell_shown(self@, frame.cursor, r, c) by {
                    if r < row {
                        assert(cell_shown(before, frame.cursor, r, c));
                    }
                }
            }
            row = row + 1;
        }
    }

    /// Redraws the damaged cells, the cell the cursor left and the cell it
    /// is on.
    fn redraw_partial(&mut self, frame: &TerminalFrame)
        requires
            raster_inv(old(self)@),
            drawable(old(self)@),
            frame.cols == old(self)@.cols,
            frame.rows == old(self)@.rows,
        ensures
            redrawn(old(self)@, final(self)@),
            frame.damage matches TerminalDamage::Partial(spans) ==> partial_shown(
                old(self)@,
                final(self)@,
                spans@,
                frame.cursor,
            ),
            !(frame.cursor.shape is Hidden) && frame.cursor.row < frame.rows && frame.cursor.col < frame.cols
                ==> cursor_cell_shown(final(self)@, frame.cursor),
    {
        proof {
            lemma_redrawn_refl(self@);
        }
        let ghost start = self@;
        let ghost spans: Seq<crate::terminal_model::TerminalDamageSpan> = match frame.damage.spec_spans() {
            Some(s) => s,
            None => Seq::empty(),
        };
        match &frame.damage {
            TerminalDamage::Full => self.redraw_full(frame),
            TerminalDamage::Partial(lines) => {
                let last = frame.cols.saturating_sub(1);
                let mut i: usize = 0;
                while i < lines.len()
                    invariant
                        frame.cols == self@.cols,
                        frame.cols == start.cols,
                        frame.rows == start.rows,
                        spans == lines@,
                        last == (if frame.cols > 0 { frame.cols - 1 } else { 0 }),
                        redrawn(start, self@),
                        kept_outside(start, self@, spans, frame.cursor),
                        forall|k: int, c: int|
                            0 <= k < i && spans[k].row < start.rows && 0 <= c < start.cols && in_span(
                                spans[k],
                                start.cols,
                                spans[k].row as int,
                                c,
                            ) && !(spans[k].row == frame.cursor.row && c == frame.cursor.col) ==> #[trigger] cell_shown(
                                self@,
                                frame.cursor,
                                spans[k].row as int,
                                c,
                            ),
                    decreases lines.len() - i,
                {
                    let span = lines[i];
                    let right = if span.right < last { span.right } else { last };
                    let mut col: u32 = span.left as u32;
                    let ghost outer = self@;
                    while col <= right as u32
                        invariant
                            frame.cols == self@.cols,
                            frame.cols == start.cols,
                            frame.rows == start.rows,
                            spans == lines@,
                            i < spans.len(),
                            span == spans[i as int],
                            span.left <= col,
                            right <= last,
                            right == (if span.right < last { span.right } else { last }),
                            last == (if frame.cols > 0 { frame.cols - 1 } else { 0 }),
                            redrawn(start, self@),
                            kept_outside(start, self@, spans, frame.cursor),
                            forall|k: int, c: int|
                                0 <= k < i && spans[k].row < start.rows && 0 <= c < start.cols && in_span(
                                    spans[k],
                                    start.cols,
                                    spans[k].row as int,
                                    c,
                                ) && !(spans[k].row == frame.cursor.row && c == frame.cursor.col)
                                    ==> #[trigger] cell_shown(self@, frame.cursor, spans[k].row as int, c),
                            forall|c: int|
                                span.left <= c < col && span.row < start.rows && c < start.cols && !(span.row
                                    == frame.cursor.row && c == frame.cursor.col) ==> #[trigger] cell_shown(
                                    self@,
                                    frame.cursor,
                                    span.row as int,
                                    c,
                                ),
                        decreases right + 1 - col,
                    {
                        let ghost before = self@;
                        let (Ghost(key), Ghost(mid)) = self.redraw_cell(frame, span.row, col as u16);
                        proof {
                            lemma_redrawn_trans(start, before, self@);
                            assert(redrawn(before, self@)) by {
                                assert(before.tiles.subrange(0, before.tiles.len() as int) =~= before.tiles);
                            }
                            assert(in_span(spans[i as int], start.cols, span.row as int, col as int));
                            assert(partial_cells(spans, start.last_cursor, frame.cursor, start.cols, span.row as int, col as int));
                            lemma_partial_step(start, before, self@, spans, frame.cursor, span.row as int, col as int, key, mid);
                            if span.row < start.rows && col < start.cols {
                                assert(span.row * before.cols + col < before.cells.len()) by (nonlinear_arith)
                                    requires
                                        span.row < before.rows,
                                        col < before.cols,
                                        before.cells.len() == before.rows * before.cols,
                                ;
                            }
                            assert forall|k: int, c: int|
                                0 <= k < i && spans[k].row < start.rows && 0 <= c < start.cols && in_span(
                                    spans[k],
                                    start.cols,
                                    spans[k].row as int,
                                    c,
                                ) && !(spans[k].row == frame.cursor.row && c == frame.cursor.col)
                                    implies #[trigger] cell_shown(self@, frame.cursor, spans[k].row as int, c) by {
                                assert(cell_shown(before, frame.cursor, spans[k].row as int, c));
                            }
                            assert forall|c: int|
                                span.left <= c < col + 1 && span.row < start.rows && c < start.cols && !(span.row
                                    == frame.cursor.row && c == frame.cursor.col) implies #[trigger] cell_shown(
                                    self@,
                                    frame.cursor,
                                    span.row as int,
                                    c,
                                ) by {
                                if c < col {
                                    assert(cell_shown(before, frame.cursor, span.row as int, c));
                                }
                            }
                        }
                        col = col + 1;
                    }
                    proof {
                        assert forall|k: int, c: int|
                            0 <= k < i + 1 && spans[k].row < start.rows && 0 <= c < start.cols && in_span(
                                spans[k],
                                start.cols,
                                spans[k].row as int,
                                c,
                            ) && !(spans[k].row == frame.cursor.row && c == frame.cursor.col)
                                implies #[trigger] cell_shown(self@, frame.cursor, spans[k].row as int, c) by {
                            if k == i {
                                assert(span.left <= c < col);
                            }
                        }
                    }
                    i = i + 1;
                }
            },
        }
        let ghost spans_done = self@;
        if let Some(previous) = self.last_cursor {
            if (previous.row != frame.cursor.row || previous.col != frame.cursor.col) && previous.row < frame.rows
                && previous.col < frame.cols {
                let ghost before = self@;
                let (Ghost(key), Ghost(mid)) = self.redraw_cell(frame, previous.row, previous.col);
                proof {
                    lemma_redrawn_trans(start, before, self@);
                    assert(redrawn(before, self@)) by {
                        assert(before.tiles.subrange(0, before.tiles.len() as int) =~= before.tiles);
                    }
                    if frame.damage is Partial {
                        lemma_partial_step(start, before, self@, spans, frame.cursor, previous.row as int, previous.col as int, key, mid);
                        assert(previous.row * before.cols + previous.col < before.cells.len()) by (nonlinear_arith)
                            requires
                                previous.row < before.rows,
                                previous.col < before.cols,
                                before.cells.len() == before.rows * before.cols,
                        ;
                    }
                }
            }
        }
        let visible = match frame.cursor.shape {
            TerminalCursorShape::Hidden => false,
            _ => true,
        };
        let ghost before_cursor = self@;
        if visible && frame.cursor.row < frame.rows && frame.cursor.col < frame.cols {
            let ghost before = self@;
            let (Ghost(key), Ghost(mid)) = self.redraw_cell(frame, frame.cursor.row, frame.cursor.col);
            proof {
                lemma_redrawn_trans(start, before, self@);
                assert(redrawn(before, self@)) by {
                    assert(before.tiles.subrange(0, before.tiles.len() as int) =~= before.tiles);
                }
                assert(frame.cursor.row * before.cols + frame.cursor.col < before.cells.len()) by (nonlinear_arith)
                    requires
                        frame.cursor.row < before.rows,
                        frame.cursor.col < before.cols,
                        before.cells.len() == before.rows * before.cols,
                ;
                lemma_cursor_cell_drawn(before, self@, frame.cursor, key, mid);
                if frame.damage is Partial {
                    lemma_partial_step(start, before, self@, spans, frame.cursor, frame.cursor.row as int, frame.cursor.col as int, key, mid);
                }
            }
        }
        proof {
            if frame.damage is Partial {
                assert forall|k: int, c: int|
                    0 <= k < spans.len() && spans[k].row < start.rows && 0 <= c < start.cols && in_span(
                        spans[k],
                        start.cols,
                        spans[k].row as int,
                        c,
                    ) && !(spans[k].row == frame.cursor.row && c == frame.cursor.col) implies #[trigger] cell_shown(
                        self@,
                        frame.cursor,
                        spans[k].row as int,
                        c,
                    ) by {
                    assert(cell_shown(spans_done, frame.cursor, spans[k].row as int, c));
                    assert(cell_shown(before_cursor, frame.cursor, spans[k].row as int, c));
                }
                match start.last_cursor {
                    Some(p) => {
                        if p.row < start.rows && p.col < start.cols && !(p.row == frame.cursor.row && p.col == frame.cursor.col) {
                            assert(cell_shown(before_cursor, frame.cursor, p.row as int, p.col as int));
                        }
                    },
                    None => {},
                }
            }
        }
    }

    /// Moves the image by `scroll_rows` rows of cells (up for a positive
    /// count), clearing what is uncovered to the default background.
    fn shift_pixels(&mut self, scroll_rows: i16)
        requires
            raster_inv(old(self)@),
            drawable(old(self)@),
        ensures
            raster_inv(final(self)@),
            drawable(final(self)@),
            same_grid(old(self)@, final(self)@),
            final(self)@.tiles == old(self)@.tiles,
            final(self)@.pixels == crate::terminal_raster::shifted_image(
                old(self)@.pixels,
                row_stride(old(self)@) * scroll_size(scroll_rows),
                scroll_rows > 0,
                default_background(),
            ),
    {
        let ghost v = self@;
        proof {
            let (w, h, ch) = (self.width as int, self.height as int, self.cell_height as int);
            if h >= 1 {
                assert(ch <= h) by (nonlinear_arith)
                    requires
                        ch == extent(h as u32, v.rows),
                        v.rows <= h,
                        h >= 1,
                ;
                assert(w * ch * 4 <= w * h * 4) by (nonlinear_arith)
                    requires
                        0 <= ch <= h,
                        0 <= w,
                ;
            } else {
                assert(ch == 1);
            }
        }
        let stride: u64 = (self.width as u64) * (self.cell_height as u64) * 4;
        let size = unsigned_abs(scroll_rows) as u64;
        proof {
            assert(stride <= 0x4_0000_0000);
            assert(stride * size <= 0x4_0000_0000 * 0x8000) by (nonlinear_arith)
                requires
                    stride <= 0x4_0000_0000,
                    size <= 0x8000,
            ;
        }
        let shift = stride * size;
        let n = self.pixels.len();
        let moved: usize = if shift >= n as u64 { n } else { shift as usize };
        proof {
            assert(n % 4 == 0) by (nonlinear_arith)
                requires
                    n == v.width * v.height * 4,
            ;
            let k = (self.width as int) * (self.cell_height as int);
            assert(shift == 4 * (k * size)) by (nonlinear_arith)
                requires
                    shift == stride * size,
                    stride == k * 4,
            ;
            assert(shift % 4 == 0) by (nonlinear_arith)
                requires
                    shift == 4 * (k * size),
                    k * size >= 0,
            ;
        }
        shift_image(&mut self.pixels, moved, scroll_rows > 0, background_rgba());
    }

    /// Redraws the rows a scroll uncovered.
    fn redraw_exposed_rows(&mut self, frame: &TerminalFrame, scroll_rows: i16)
        requires
            raster_inv(old(self)@),
            drawable(old(self)@),
            frame.cols == old(self)@.cols,
            frame.rows == old(self)@.rows,
        ensures
            redrawn(old(self)@, final(self)@),
            ({
                let (first, end) = exposed_rows(scroll_rows, frame.rows);
                &&& kept_except(
                    old(self)@,
                    old(self)@.pixels,
                    final(self)@.pixels,
                    rows_set(first, end),
                    frame.cursor,
                )
                &&& forall|r: int, c: int|
                    first <= r < end && 0 <= c < old(self)@.cols && !(r == frame.cursor.row && c == frame.cursor.col)
                        ==> #[trigger] cell_shown(final(self)@, frame.cursor, r, c)
                &&& forall|r: int, c: int|
                    !(first <= r < end) && cell_shown(old(self)@, frame.cursor, r, c) ==> #[trigger] cell_shown(
                        final(self)@,
                        frame.cursor,
                        r,
                        c,
                    )
            }),
    {
        proof {
            lemma_redrawn_refl(self@);
        }
        let ghost start = self@;
        let exposed = unsigned_abs(scroll_rows);
        let (first, end) = if scroll_rows > 0 {
            (frame.rows.saturating_sub(exposed), frame.rows)
        } else {
            (0, if exposed < frame.rows { exposed } else { frame.rows })
        };
        assert((first as int, end as int) == exposed_rows(scroll_rows, frame.rows));
        let mut row: u16 = first;
        while row < end
            invariant
                frame.cols == self@.cols,
                frame.rows == start.rows,
                first <= row,
                end <= frame.rows,
                redrawn(start, self@),
                kept_except(start, start.pixels, self@.pixels, rows_set(first as int, end as int), frame.cursor),
                forall|r: int, c: int|
                    first <= r < row && 0 <= c < start.cols && !(r == frame.cursor.row && c == frame.cursor.col)
                        ==> #[trigger] cell_shown(self@, frame.cursor, r, c),
                forall|r: int, c: int|
                    !(first <= r < end) && cell_shown(start, frame.cursor, r, c) ==> #[trigger] cell_shown(
                        self@,
                        frame.cursor,
                        r,
                        c,
                    ),
            decreases end - row,
        {
            let ghost before = self@;
            self.redraw_row(frame, row);
            proof {
                lemma_redrawn_trans(start, before, self@);
                let w = start.width as int;
                let h = start.height as int;
                let cw = start.cell_width as int;
                let ch = start.cell_height as int;
                assert forall|x: int, y: int|
                    0 <= x < w && 0 <= y < h && !rows_set(first as int, end as int)(y / ch, x / cw) && !cursor_marks(
                        w,
                        h,
                        cw,
                        ch,
                        frame.cursor.shape,
                        frame.cursor.row as int,
                        frame.cursor.col as int,
                    )(x, y) implies #[trigger] pixel_at(self@.pixels, w, x, y) == pixel_at(start.pixels, w, x, y) by {
                    assert(!row_set(row as int)(y / ch, x / cw));
                    assert(pixel_at(self@.pixels, w, x, y) == pixel_at(before.pixels, w, x, y));
                    assert(pixel_at(before.pixels, w, x, y) == pixel_at(start.pixels, w, x, y));
                }
                assert forall|r: int, c: int|
                    first <= r < row + 1 && 0 <= c < start.cols && !(r == frame.cursor.row && c == frame.cursor.col)
                        implies #[trigger] cell_shown(self@, frame.cursor, r, c) by {
                    if r < row {
                        assert(cell_shown(before, frame.cursor, r, c));
                    }
                }
                assert forall|r: int, c: int|
                    !(first <= r < end) && cell_shown(start, frame.cursor, r, c) implies #[trigger] cell_shown(
                        self@,
                        frame.cursor,
                        r,
                        c,
                    ) by {
                    assert(cell_shown(before, frame.cursor, r, c));
                }
            }
            row = row + 1;
        }
    }

    /// Redraws after a scroll by moving the image and redrawing only the
    /// rows uncovered, the cell the cursor left and the cell it is on.
    fn redraw_scrolled(&mut self, frame: &TerminalFrame, scroll_rows: i16)
        requires
            raster_inv(old(self)@),
            drawable(old(self)@),
            frame.cols == old(self)@.cols,
            frame.rows == old(self)@.rows,
        ensures
            redrawn(old(self)@, final(self)@),
            scrolled_shown(old(self)@, final(self)@, frame.cursor, scroll_rows),
            frame.cursor.row < frame.rows && frame.cursor.col < frame.cols ==> cursor_cell_shown(
                final(self)@,
                frame.cursor,
            ),
    {
        let ghost start = self@;
        self.shift_pixels(scroll_rows);
        proof {
            assert(self@.tiles.subrange(0, self@.tiles.len() as int) =~= self@.tiles);
            assert(redrawn(start, self@));
        }
        let ghost shifted = self@;
        let ghost (first, end) = exposed_rows(scroll_rows, frame.rows);
        let ghost drawn = scroll_set(scroll_rows, start.rows, start.last_cursor, frame.cursor);
        self.redraw_exposed_rows(frame, scroll_rows);
        proof {
            lemma_redrawn_trans(start, shifted, self@);
            let w = start.width as int;
            let h = start.height as int;
            let cw = start.cell_width as int;
            let ch = start.cell_height as int;
            assert forall|x: int, y: int|
                0 <= x < w && 0 <= y < h && !drawn(y / ch, x / cw) && !cursor_marks(
                    w,
                    h,
                    cw,
                    ch,
                    frame.cursor.shape,
                    frame.cursor.row as int,
                    frame.cursor.col as int,
                )(x, y) implies #[trigger] pixel_at(self@.pixels, w, x, y) == pixel_at(
                scrolled_pixels(start, scroll_rows),
                w,
                x,
                y,
            ) by {
                assert(!rows_set(first, end)(y / ch, x / cw));
            }
        }
        let ghost exposed_done = self@;
        if let Some(previous) = self.last_cursor {
            if previous.col < frame.cols {
                if let Some(row) = shifted_row(previous.row, scroll_rows, frame.rows) {
                    let ghost before = self@;
                    let (Ghost(key), Ghost(mid)) = self.redraw_cell(frame, row, previous.col);
                    proof {
                        lemma_redrawn_trans(start, before, self@);
                        assert(redrawn(before, self@)) by {
                            assert(before.tiles.subrange(0, before.tiles.len() as int) =~= before.tiles);
                        }
                        assert(drawn(row as int, previous.col as int));
                        lemma_redraw_step(
                            start,
                            scrolled_pixels(start, scroll_rows),
                            before,
                            self@,
                            drawn,
                            frame.cursor,
                            row as int,
                            previous.col as int,
                            key,
                            mid,
                        );
                        if row < start.rows {
                            assert(row * before.cols + previous.col < before.cells.len()) by (nonlinear_arith)
                                requires
                                    row < before.rows,
                                    previous.col < before.cols,
                                    before.cells.len() == before.rows * before.cols,
                            ;
                        }
                    }
                }
            }
        }
        let ghost previous_done = self@;
        if frame.cursor.row < frame.rows && frame.cursor.col < frame.cols {
            let ghost before = self@;
            let (Ghost(key), Ghost(mid)) = self.redraw_cell(frame, frame.cursor.row, frame.cursor.col);
            proof {
                lemma_redrawn_trans(start, before, self@);
                assert(redrawn(before, self@)) by {
                    assert(before.tiles.subrange(0, before.tiles.len() as int) =~= before.tiles);
                }
                assert(drawn(frame.cursor.row as int, frame.cursor.col as int));
                assert(frame.cursor.row * before.cols + frame.cursor.col < before.cells.len()) by (nonlinear_arith)
                    requires
                        frame.cursor.row < before.rows,
                        frame.cursor.col < before.cols,
                        before.cells.len() == before.rows * before.cols,
                ;
                lemma_cursor_cell_drawn(before, self@, frame.cursor, key, mid);
                lemma_redraw_step(
                    start,
                    scrolled_pixels(start, scroll_rows),
                    before,
                    self@,
                    drawn,
                    frame.cursor,
                    frame.cursor.row as int,
                    frame.cursor.col as int,
                    key,
                    mid,
                );
            }
        }
        proof {
            assert forall|r: int, c: int|
                first <= r < end && 0 <= c < start.cols && !(r == frame.cursor.row && c == frame.cursor.col)
                    implies #[trigger] cell_shown(self@, frame.cursor, r, c) by {
                assert(cell_shown(exposed_done, frame.cursor, r, c));
                assert(cell_shown(previous_done, frame.cursor, r, c));
            }
            match start.last_cursor {
                Some(p) => match crate::raster::shifted(p.row, scroll_rows, start.rows) {
                    Some(sr) => {
                        if sr < start.rows && p.col < start.cols && !(sr == frame.cursor.row && p.col == frame.cursor.col) {
                            assert(cell_shown(previous_done, frame.cursor, sr as int, p.col as int));
                        }
                    },
                    None => {},
                },
                None => {},
            }
        }
    }

    /// Rows the screen scrolled by since the last drawn grid, when the
    /// image can be moved instead of redrawn.
    fn detect_scroll_reuse_rows(&self, frame: &TerminalFrame) -> (scroll: Option<i16>)
        requires
            self@.cells.len() == frame.rows * frame.cols,
        ensures
            scroll == scroll_reuse(frame.damage.spec_spans(), self@.last_cells, self@.cells, frame.rows, frame.cols),
    {
        if !damage_covers_full_rows(&frame.damage, frame.rows, frame.cols) {
            return None;
        }
        let previous = match &self.last_cells {
            Some(p) => p,
            None => return None,
        };
        if previous.len() != self.cells.len() || frame.rows <= 1 {
            return None;
        }
        let max_shift: u16 = if frame.rows - 1 < 4 { frame.rows - 1 } else { 4 };
        let ghost p = cells_view(previous@);
        let ghost c = cells_view(self.cells@);
        proof {
            assert(self@.last_cells == Some(p));
            assert(scroll_reuse(frame.damage.spec_spans(), self@.last_cells, self@.cells, frame.rows, frame.cols)
                == first_shift(p, c, frame.rows, frame.cols, 1, max_shift as int));
        }
        let mut delta: u16 = 1;
        while delta <= max_shift
            invariant
                1 <= delta <= max_shift + 1,
                max_shift <= 4,
                previous@.len() == frame.rows * frame.cols,
                self.cells@.len() == frame.rows * frame.cols,
                p == cells_view(previous@),
                c == cells_view(self.cells@),
                scroll_reuse(frame.damage.spec_spans(), self@.last_cells, self@.cells, frame.rows, frame.cols)
                    == first_shift(p, c, frame.rows, frame.cols, 1, max_shift as int),
                first_shift(p, c, frame.rows, frame.cols, 1, max_shift as int) == first_shift(
                    p,
                    c,
                    frame.rows,
                    frame.cols,
                    delta as int,
                    max_shift as int,
                ),
            decreases max_shift + 1 - delta,
        {
            if rows_match_upward_shift(previous.as_slice(), self.cells.as_slice(), frame.rows, frame.cols, delta) {
                proof {
                    assert(first_shift(p, c, frame.rows, frame.cols, delta as int, max_shift as int) == Some(delta as i16));
                }
                return Some(delta as i16);
            }
            if rows_match_downward_shift(previous.as_slice(), self.cells.as_slice(), frame.rows, frame.cols, delta) {
                proof {
                    assert(first_shift(p, c, frame.rows, frame.cols, delta as int, max_shift as int) == Some((-(delta as int)) as i16));
                }
                return Some(-(delta as i16));
            }
            delta = delta + 1;
        }
        None
    }

    /// Takes the frame's cells into the grid: its full grid, or its changed
    /// spans written over the grid cut or padded to the frame's size.
    fn apply_frame(&mut self, frame: &TerminalFrame)
        requires
            frame.cols == old(self)@.cols,
            match frame.publication {
                TerminalCellPublication::Full(_) => true,
                TerminalCellPublication::Partial(batch) => batch.spans_in_bounds(),
            },
        ensures
            final(self)@ == (RasterView { cells: frame_grid(old(self)@.cells, *frame), ..old(self)@ }),
    {
        if let Some(cells) = frame.full_cells() {
            self.cells = copy_cells(cells);
            return;
        }
        proof {
            crate::terminal_text::lemma_grid_index_fits(frame.rows, frame.cols, 0, 0);
        }
        let n = (frame.rows as usize) * (frame.cols as usize);
        let ghost before = self@.cells;
        if self.cells.len() != n {
            resize_cells(&mut self.cells, n);
        } else {
            assert(resized_cells(before, n as int) =~= before);
        }
        if let Some(changes) = frame.changed_spans() {
            overwrite_spans(&mut self.cells, changes, self.cols);
        }
    }

    /// True when `update(frame, width, height)` may be called: see
    /// [`update_ok`].
    pub fn accepts_update(&self, frame: &TerminalFrame, width: u32, height: u32) -> (ok: bool)
        ensures
            ok == update_ok(self@, *frame, width, height),
    {
        proof {
            assert((width as int) * (height as int) <= 0xffff_ffff * 0xffff_ffff) by (nonlinear_arith)
                requires
                    width <= 0xffff_ffff,
                    height <= 0xffff_ffff,
            ;
        }
        let area = (width as u64) * (height as u64);
        if area > 0x3fff_ffff || frame.cols as u32 > width || frame.rows as u32 > height {
            return false;
        }
        let publication_ok = match &frame.publication {
            TerminalCellPublication::Full(cells) => {
                proof {
                    lemma_grid_size(frame.rows, frame.cols);
                }
                cells.len() == (frame.rows as usize) * (frame.cols as usize)
            },
            TerminalCellPublication::Partial(batch) => spans_fit(batch),
        };
        if !publication_ok {
            return false;
        }
        if frame.rows != self.rows || frame.cols != self.cols {
            return true;
        }
        let cw = cell_extent(width, frame.cols) as u128;
        let ch = cell_extent(height, frame.rows) as u128;
        proof {
            assert(cw * ch <= 0xffff_ffff * 0xffff_ffff) by (nonlinear_arith)
                requires
                    cw <= 0xffff_ffff,
                    ch <= 0xffff_ffff,
            ;
        }
        let needed = cw * ch * 4;
        proof {
            assert(update_ok(self@, *frame, width, height) == tiles_fit(self@.tiles, extent(width, frame.cols), extent(height, frame.rows)));
        }
        let mut i: usize = 0;
        while i < self.tile_cache.len()
            invariant
                i <= self@.tiles.len(),
                self@.tiles.len() == self.tile_cache@.len(),
                needed == extent(width, frame.cols) * extent(height, frame.rows) * 4,
                update_ok(self@, *frame, width, height) == tiles_fit(self@.tiles, extent(width, frame.cols), extent(height, frame.rows)),
                forall|j: int| 0 <= j < i ==> (#[trigger] self@.tiles[j]).1.len() >= needed,
            decreases self.tile_cache.len() - i,
        {
            proof {
                assert(self@.tiles[i as int].1 == self.tile_cache@[i as int].1@);
            }
            if (self.tile_cache[i].1.len() as u128) < needed {
                proof {
                    assert(!((self@.tiles[i as int]).1.len() >= needed));
                }
                return false;
            }
            i = i + 1;
        }
        true
    }

    /// Draws `frame` into a `width` by `height` image: on a new grid size,
    /// or full damage, every cell; on a scroll of the whole screen, the
    /// image moved and the rows uncovered; else the damaged cells, the cell
    /// the cursor left and the cursor's cell. The cursor is drawn over its
    /// cell. The contract states the non-pixel state and, for each of the
    /// three ways of drawing, which cells show their tiles and which pixels
    /// are kept ([`grid_shown`], [`partial_shown`], [`scrolled_shown`]),
    /// and the cursor's cell with the cursor drawn over its tile
    /// ([`cursor_cell_shown`]) whenever that cell is drawn: always but for
    /// a hidden cursor on a partial redraw, whose cell is drawn only when
    /// damaged.
    pub fn update(&mut self, frame: &TerminalFrame, width: u32, height: u32)
        requires
            old(self).wf(),
            update_ok(old(self)@, *frame, width, height),
        ensures
            final(self).wf(),
            updated(old(self)@, final(self)@, *frame, width, height),
            (old(self)@.rows != frame.rows || old(self)@.cols != frame.cols || frame.damage is Full) ==> grid_shown(
                final(self)@,
                frame.cursor,
            ),
            frame.cursor.row < frame.rows && frame.cursor.col < frame.cols && (old(self)@.rows != frame.rows
                || old(self)@.cols != frame.cols || frame.damage is Full || !(frame.cursor.shape is Hidden))
                ==> cursor_cell_shown(final(self)@, frame.cursor),
            ({
                let same_size = old(self)@.width == width && old(self)@.height == height && old(self)@.cell_width
                    == extent(width, frame.cols) && old(self)@.cell_height == extent(height, frame.rows);
                let reuse = scroll_reuse(
                    frame.damage.spec_spans(),
                    old(self)@.last_cells,
                    final(self)@.cells,
                    frame.rows,
                    frame.cols,
                );
                let kept_grid = same_size && old(self)@.rows == frame.rows && old(self)@.cols == frame.cols;
                &&& (kept_grid && reuse is None) ==> match frame.damage.spec_spans() {
                    Some(spans) => partial_shown(old(self)@, final(self)@, spans, frame.cursor),
                    None => true,
                }
                &&& kept_grid ==> match reuse {
                    Some(scroll_rows) => scrolled_shown(old(self)@, final(self)@, frame.cursor, scroll_rows),
                    None => true,
                }
            }),
    {
        let ghost v0 = self@;
        if self.dimensions_changed(width, height) {
            self.resize(width, height);
        }
        let geometry_changed = self.rows != frame.rows || self.cols != frame.cols;
        self.rows = frame.rows;
        self.cols = frame.cols;
        self.cell_width = cell_extent(width, frame.cols);
        self.cell_height = cell_extent(height, frame.rows);
        proof {
            lemma_grid_size(frame.rows, frame.cols);
        }
        let n = (frame.rows as usize) * (frame.cols as usize);
        if geometry_changed {
            self.tile_cache.clear();
            resize_cells(&mut self.cells, n);
            self.last_cells = None;
        }
        let ghost v1 = self@;
        proof {
            if geometry_changed {
                assert(v1.tiles =~= Seq::<(TileCacheKey, Seq<u8>)>::empty());
                assert(frame_grid(v1.cells, *frame) == frame_grid(v0.cells, *frame)) by {
                    assert(resized_cells(resized_cells(v0.cells, n as int), n as int) =~= resized_cells(v0.cells, n as int));
                }
            }
        }
        self.apply_frame(frame);
        let ghost v2 = self@;
        proof {
            if frame.publication is Partial {
                let batch = frame.publication->Partial_0;
                lemma_apply_span_updates_len(resized_cells(v0.cells, n as int), batch, frame.cols as int, batch.spec_spans().len() as int);
            }
            assert(v2.cells.len() == frame.rows * frame.cols);
            assert(v2.tiles.subrange(0, v2.tiles.len() as int) =~= v2.tiles);
            assert(drawable(v2));
            assert(raster_inv(v2));
        }
        let full_damage = match frame.damage {
            TerminalDamage::Full => true,
            TerminalDamage::Partial(_) => false,
        };
        if geometry_changed || full_damage {
            fill_tile(&mut self.pixels, background_rgba());
            let ghost v3 = self@;
            proof {
                lemma_redrawn_refl(v2);
                assert(redrawn(v2, v3));
            }
            self.redraw_full(frame);
            proof {
                lemma_redrawn_trans(v2, v3, self@);
            }
        } else {
            proof {
                assert(!full_damage);
            }
            match self.detect_scroll_reuse_rows(frame) {
                Some(scroll_rows) => {
                    self.redraw_scrolled(frame, scroll_rows);
                    proof {
                        assert(scrolled_shown(v2, self@, frame.cursor, scroll_rows));
                    }
                },
                None => self.redraw_partial(frame),
            }
            proof {
                assert(self@.cells == v2.cells);
            }
        }
        let ghost drawn = self@;
        self.last_cursor = Some(frame.cursor);
        self.last_cells = Some(copy_cells(self.cells.as_slice()));
        proof {
            if cursor_cell_shown(drawn, frame.cursor) {
                assert(cursor_cell_shown(self@, frame.cursor));
            }
            let same_size = v0.width == width && v0.height == height && v0.cell_width == extent(width, frame.cols)
                && v0.cell_height == extent(height, frame.rows);
            if !geometry_changed && !full_damage && same_size && scroll_reuse(
                frame.damage.spec_spans(),
                v0.last_cells,
                self@.cells,
                frame.rows,
                frame.cols,
            ) is None {
                let spans = frame.damage.spec_spans()->0;
                assert(partial_shown(v2, drawn, spans, frame.cursor));
                assert forall|k: int, c: int|
                    0 <= k < spans.len() && spans[k].row < v0.rows && 0 <= c < v0.cols && in_span(
                        spans[k],
                        v0.cols,
                        spans[k].row as int,
                        c,
                    ) && !(spans[k].row == frame.cursor.row && c == frame.cursor.col) implies #[trigger] cell_shown(
                        self@,
                        frame.cursor,
                        spans[k].row as int,
                        c,
                    ) by {
                    assert(cell_shown(drawn, frame.cursor, spans[k].row as int, c));
                }
                match v0.last_cursor {
                    Some(p) => {
                        if p.row < v0.rows && p.col < v0.cols && !(p.row == frame.cursor.row && p.col == frame.cursor.col) {
                            assert(cell_shown(drawn, frame.cursor, p.row as int, p.col as int));
                        }
                    },
                    None => {},
                }
                assert(kept_outside(v0, self@, spans, frame.cursor)) by {
                    assert(kept_outside(v2, drawn, spans, frame.cursor));
                }
            }
            if !geometry_changed && !full_damage && same_size {
                match scroll_reuse(frame.damage.spec_spans(), v0.last_cells, self@.cells, frame.rows, frame.cols) {
                    Some(scroll_rows) => {
                        assert(scrolled_shown(v2, drawn, frame.cursor, scroll_rows));
                        let (first, end) = exposed_rows(scroll_rows, v0.rows);
                        assert forall|r: int, c: int|
                            first <= r < end && 0 <= c < v0.cols && !(r == frame.cursor.row && c == frame.cursor.col)
                                implies #[trigger] cell_shown(self@, frame.cursor, r, c) by {
                            assert(cell_shown(drawn, frame.cursor, r, c));
                        }
                        match v0.last_cursor {
                            Some(p) => match crate::raster::shifted(p.row, scroll_rows, v0.rows) {
                                Some(sr) => {
                                    if sr < v0.rows && p.col < v0.cols && !(sr == frame.cursor.row && p.col
                                        == frame.cursor.col) {
                                        assert(cell_shown(drawn, frame.cursor, sr as int, p.col as int));
                                    }
                                },
                                None => {},
                            },
                            None => {},
                        }
                        assert(scrolled_pixels(v0, scroll_rows) == scrolled_pixels(v2, scroll_rows));
                        assert(kept_except(
                            v0,
                            scrolled_pixels(v0, scroll_rows),
                            self@.pixels,
                            scroll_set(scroll_rows, v0.rows, v0.last_cursor, frame.cursor),
                            frame.cursor,
                        )) by {
                            assert(kept_except(
                                v2,
                                scrolled_pixels(v2, scroll_rows),
                                drawn.pixels,
                                scroll_set(scroll_rows, v2.rows, v2.last_cursor, frame.cursor),
                                frame.cursor,
                            ));
                        }
                    },
                    None => {},
                }
            }
            if geometry_changed || full_damage {
                assert forall|r: int, c: int|
                    0 <= r < self@.rows && 0 <= c < self@.cols && !(r == frame.cursor.row && c == frame.cursor.col)
                        implies #[trigger] cell_shown(self@, frame.cursor, r, c) by {
                    assert(cell_shown(drawn, frame.cursor, r, c));
                }
            }
            lemma_tiles_extended_trans(if geometry_changed { Seq::empty() } else { v0.tiles }, v2.tiles, self@.tiles, self@.cell_width, self@.cell_height);
        }
    }
}

/// True when every span's cells lie within the batch's cell storage.
fn spans_fit(batch: &crate::terminal_model::TerminalCellSpanBatch) -> (ok: bool)
    ensures
        ok == batch.spans_in_bounds(),
{
    let spans = batch.spans();
    let total = batch.cell_count();
    let mut i: usize = 0;
    while i < spans.len()
        invariant
            i <= spans@.len(),
            spans@ == batch.spec_spans(),
            total == batch.spec_cells().len(),
            forall|j: int| 0 <= j < i ==> (#[trigger] spans@[j]).cells_start + spans@[j].len <= total,
        decreases spans.len() - i,
    {
        if (spans[i].cells_start as u64) + (spans[i].len as u64) > total as u64 {
            return false;
        }
        i = i + 1;
    }
    true
}

} // verus!
