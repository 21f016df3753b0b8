use std::sync::Arc;

use gestalt::raster::{build_tile, cell_extent, resolve_palette, shifted_row, TileCacheKey};
use gestalt::terminal_model::{
    TerminalCell, TerminalCellPublication, TerminalCursor, TerminalCursorShape, TerminalDamage, TerminalDamageSpan,
    TerminalFrame,
};
use gestalt::terminal_raster::TerminalRaster;

const BACKGROUND: [u8; 4] = [8, 12, 16, 255];

fn frame(text: &[&str], rows: u16, cols: u16, shape: TerminalCursorShape, damage: TerminalDamage) -> TerminalFrame {
    let mut cells = vec![TerminalCell::default(); usize::from(rows) * usize::from(cols)];
    for (row, line) in text.iter().enumerate() {
        for (col, c) in line.chars().enumerate() {
            cells[row * usize::from(cols) + col].codepoint = c;
        }
    }
    TerminalFrame {
        rows,
        cols,
        history_size: 0,
        cursor: TerminalCursor { row: 0, col: 0, shape },
        bracketed_paste: false,
        display_offset: 0,
        damage,
        publication: TerminalCellPublication::Full(Arc::new(cells)),
    }
}

fn pixel(raster: &TerminalRaster, width: u32, x: u32, y: u32) -> [u8; 4] {
    let i = ((y * width + x) * 4) as usize;
    let p = raster.pixels();
    [p[i], p[i + 1], p[i + 2], p[i + 3]]
}

#[test]
fn new_raster_is_empty() {
    let raster = TerminalRaster::new();
    assert!(raster.pixels().is_empty());
    assert!(raster.dimensions_changed(1, 1));
    assert!(!raster.dimensions_changed(0, 0));
}

#[test]
fn resize_pads_with_zero_bytes() {
    let mut raster = TerminalRaster::new();
    raster.resize(2, 3);
    assert_eq!(raster.pixels().len(), 24);
    assert!(raster.pixels().iter().all(|b| *b == 0));
}

#[test]
fn full_redraw_paints_background_and_block_cursor() {
    let mut raster = TerminalRaster::new();
    let f = frame(&[" ", " "], 2, 2, TerminalCursorShape::Block, TerminalDamage::Full);
    assert!(raster.accepts_update(&f, 16, 16));
    raster.update(&f, 16, 16);
    assert_eq!(raster.pixels().len(), 16 * 16 * 4);
    assert_eq!(pixel(&raster, 16, 0, 0), [131, 128, 89, 255]);
    assert_eq!(pixel(&raster, 16, 7, 7), [131, 128, 89, 255]);
    assert_eq!(pixel(&raster, 16, 8, 0), BACKGROUND);
    assert_eq!(pixel(&raster, 16, 15, 15), BACKGROUND);
}

#[test]
fn hidden_cursor_leaves_glyph_tiles() {
    let mut raster = TerminalRaster::new();
    let f = frame(&["A"], 1, 1, TerminalCursorShape::Hidden, TerminalDamage::Full);
    raster.update(&f, 8, 8);
    let tile = build_tile(
        8,
        8,
        TileCacheKey {
            codepoint: 'A',
            fg: BACKGROUND,
            bg: BACKGROUND,
            hidden: false,
            spacer: false,
            missing: false,
        },
    );
    assert_eq!(tile.len(), 8 * 8 * 4);
    assert_eq!(raster.pixels().len(), 8 * 8 * 4);
}

#[test]
fn partial_damage_redraws_only_damaged_cells() {
    let mut raster = TerminalRaster::new();
    let first = frame(&["  "], 1, 2, TerminalCursorShape::Hidden, TerminalDamage::Full);
    raster.update(&first, 16, 8);
    let before = raster.pixels().to_vec();
    let second = frame(
        &["  "],
        1,
        2,
        TerminalCursorShape::Hidden,
        TerminalDamage::Partial(vec![TerminalDamageSpan { row: 0, left: 1, right: 1 }]),
    );
    raster.update(&second, 16, 8);
    assert_eq!(raster.pixels(), before.as_slice());
}

#[test]
fn update_rejects_frames_larger_than_the_image() {
    let raster = TerminalRaster::new();
    let f = frame(&[], 4, 4, TerminalCursorShape::Block, TerminalDamage::Full);
    assert!(!raster.accepts_update(&f, 2, 2));
    assert!(raster.accepts_update(&f, 4, 4));
}

#[test]
fn palette_and_geometry_helpers() {
    assert_eq!(resolve_palette(1), [204, 36, 29, 255]);
    assert_eq!(resolve_palette(16), [0, 0, 0, 255]);
    assert_eq!(resolve_palette(231), [255, 255, 255, 255]);
    assert_eq!(resolve_palette(232), [8, 8, 8, 255]);
    assert_eq!(cell_extent(100, 0), 1);
    assert_eq!(cell_extent(100, 7), 14);
    assert_eq!(cell_extent(3, 7), 1);
    assert_eq!(shifted_row(5, 2, 10), Some(3));
    assert_eq!(shifted_row(1, 2, 10), None);
    assert_eq!(shifted_row(8, -2, 10), None);
    assert_eq!(shifted_row(7, -2, 10), Some(9));
}

#[test]
fn resize_keeps_the_leading_bytes_and_zero_fills_the_rest() {
    let mut raster = TerminalRaster::new();
    let f = frame(&[" ", " "], 2, 2, TerminalCursorShape::Hidden, TerminalDamage::Full);
    raster.update(&f, 16, 16);
    let old = raster.pixels().to_vec();
    raster.resize(16, 20);
    assert_eq!(raster.pixels().len(), 16 * 20 * 4);
    assert!(!raster.dimensions_changed(16, 20));
    assert_eq!(&raster.pixels()[..old.len()], &old[..]);
    assert!(raster.pixels()[old.len()..].iter().all(|b| *b == 0));
    raster.resize(4, 4);
    assert_eq!(raster.pixels(), &old[..64]);
}

#[test]
fn one_cell_update_draws_the_cursor_over_the_background() {
    let mut raster = TerminalRaster::new();
    let f = frame(&[" "], 1, 1, TerminalCursorShape::Block, TerminalDamage::Full);
    raster.update(&f, 1, 1);
    assert_eq!(raster.pixels(), &[131, 128, 89, 255]);
    let mut hidden = TerminalRaster::new();
    let g = frame(&[" "], 1, 1, TerminalCursorShape::Hidden, TerminalDamage::Full);
    hidden.update(&g, 1, 1);
    assert_eq!(hidden.pixels(), &[8, 12, 16, 255]);
}
