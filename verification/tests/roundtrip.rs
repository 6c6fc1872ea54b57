//! End-to-end check: what we draw is what a scanner reads back.

use payme_qr::payment::Payment;
use payme_qr::spec::Preset;
use payme_qr::{generate, qr};

/// rqrr reports the raw format-information value; index 0 is level M.
const ECC_LEVEL_M: u16 = 0;

fn payment() -> Payment {
    Payment {
        preset: Preset::Eshop,
        iban: "SK6807200002891987426353".into(),
        creditor_name: "The Best e-shops ltd".into(),
        amount: "200.30".into(),
        reference: "/VS2546874464/SS2019568456/KS1118".into(),
        message: "my e-shop, Kosice".into(),
        ..Payment::default()
    }
}

fn decode(matrix: &qr::Matrix, scale: u32) -> (u16, String) {
    let (side, pixels) = qr::raster(matrix, scale);
    let side = side as usize;
    let mut prepared = rqrr::PreparedImage::prepare_from_greyscale(side, side, |x, y| {
        pixels[y * side + x]
    });
    let grids = prepared.detect_grids();
    assert_eq!(grids.len(), 1, "exactly one QR symbol in the image");
    let (meta, content) = grids[0].decode().expect("the symbol decodes");
    (meta.ecc_level, content)
}

#[test]
fn a_rendered_symbol_decodes_back_to_the_payment_link() {
    let (url, matrix) = generate(&payment()).expect("a valid payment");
    let (ecc_level, decoded) = decode(&matrix, 8);
    assert_eq!(decoded, url);
    assert_eq!(ecc_level, ECC_LEVEL_M);
}

#[test]
fn a_small_scale_raster_still_decodes() {
    let (url, matrix) = generate(&payment()).expect("a valid payment");
    assert_eq!(decode(&matrix, 2).1, url);
}

#[test]
fn the_longest_permitted_payment_still_fits_into_a_qr_code() {
    // Every attribute at its maximum length.
    let payment = Payment {
        preset: Preset::Eshop,
        iban: "SK6807200002891987426353".into(),
        creditor_name: "N".repeat(70),
        amount: "9999999.99".into(),
        reference: "R".repeat(35),
        message: "M".repeat(140),
        ..Payment::default()
    };
    let (url, matrix) = generate(&payment).expect("a valid payment");
    assert!(url.len() > 280);
    assert!(matrix.size > 0);
}

#[test]
fn an_invalid_payment_yields_its_errors() {
    let errors = generate(&Payment::default()).unwrap_err();
    assert_eq!(errors.len(), 2);
}
