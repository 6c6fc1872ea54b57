use payme_qr::qr::{encode, half_block_rows, raster, to_ansi, to_svg, TerminalStyle, QUIET_ZONE};

const LINK: &str = "https://payme.sk/2/q/PME?IBAN=SK6807200002891987426353&CN=Hope+charity";

#[test]
fn the_quiet_zone_surrounds_the_symbol() {
    let matrix = encode(LINK).unwrap();
    // A version-N symbol is 4N+17 modules wide, plus two quiet zones.
    assert_eq!((matrix.size - 2 * QUIET_ZONE) % 4, 1);

    for i in 0..matrix.size {
        for q in 0..QUIET_ZONE {
            assert!(!matrix.is_dark(i, q), "top quiet zone");
            assert!(!matrix.is_dark(q, i), "left quiet zone");
            assert!(!matrix.is_dark(i, matrix.size - 1 - q), "bottom quiet zone");
            assert!(!matrix.is_dark(matrix.size - 1 - q, i), "right quiet zone");
        }
    }
}

#[test]
fn finder_pattern_is_where_it_should_be() {
    let matrix = encode(LINK).unwrap();
    // Top-left finder: a 7x7 dark ring starting right after the quiet zone.
    for i in 0..7 {
        assert!(matrix.is_dark(QUIET_ZONE + i, QUIET_ZONE));
        assert!(matrix.is_dark(QUIET_ZONE, QUIET_ZONE + i));
    }
    assert!(!matrix.is_dark(QUIET_ZONE + 1, QUIET_ZONE + 1));
}

#[test]
fn half_block_rows_cover_every_module() {
    let matrix = encode(LINK).unwrap();
    let rows = half_block_rows(&matrix);
    assert_eq!(rows.len(), matrix.size.div_ceil(2));
    assert!(rows.iter().all(|r| r.len() == matrix.size));
}

#[test]
fn cell_size_matches_the_rendered_output() {
    let matrix = encode(LINK).unwrap();
    for style in [TerminalStyle::HalfBlocks, TerminalStyle::FullBlocks] {
        let (_, rows) = style.cell_size(&matrix);
        assert_eq!(to_ansi(&matrix, style).lines().count(), rows);
    }
}

#[test]
fn svg_declares_the_scaled_side() {
    let matrix = encode(LINK).unwrap();
    let svg = to_svg(&matrix, 4);
    let side = matrix.size * 4;
    assert!(svg.contains(&format!("viewBox=\"0 0 {side} {side}\"")));
    assert!(svg.contains("<rect"));
}

#[test]
fn the_short_link_fits_a_version_4_symbol() {
    let matrix = encode(LINK).unwrap();
    assert_eq!(matrix.size, 33 + 2 * QUIET_ZONE);
}

#[test]
fn a_link_too_long_for_any_symbol_is_refused() {
    let long = "x".repeat(3000);
    let err = encode(&long).unwrap_err();
    assert_eq!(err.message(), "the payment link does not fit into a QR code");
}

#[test]
fn the_raster_is_scaled_and_starts_white() {
    let matrix = encode(LINK).unwrap();
    let (side, pixels) = raster(&matrix, 3);
    assert_eq!(side as usize, matrix.size * 3);
    assert_eq!(pixels.len(), (side * side) as usize);
    assert_eq!(pixels[0], 255);
    let corner = (QUIET_ZONE * 3) * side as usize + QUIET_ZONE * 3;
    assert_eq!(pixels[corner], 0);
}

#[test]
fn toggling_the_style_twice_changes_nothing() {
    assert_eq!(TerminalStyle::HalfBlocks.toggled().toggled(), TerminalStyle::HalfBlocks);
    assert_eq!(TerminalStyle::HalfBlocks.toggled(), TerminalStyle::FullBlocks);
}

#[test]
fn full_blocks_draw_two_characters_per_module() {
    let matrix = encode(LINK).unwrap();
    let (cols, rows) = TerminalStyle::FullBlocks.cell_size(&matrix);
    assert_eq!((cols, rows), (matrix.size * 2, matrix.size));
}
