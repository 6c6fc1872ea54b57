use payme_qr::iban::{bban_to_iban, format_pretty, mod97, normalize, parse};

/// The IBAN used throughout the standard's examples.
const SPEC_IBAN: &str = "SK6807200002891987426353";

#[test]
fn accepts_the_spec_example_in_any_spacing() {
    assert_eq!(parse(SPEC_IBAN).unwrap(), SPEC_IBAN);
    assert_eq!(parse("SK68 0720 0002 8919 8742 6353").unwrap(), SPEC_IBAN);
    assert_eq!(parse("sk68 0720 0002 8919 8742 6353").unwrap(), SPEC_IBAN);
}

#[test]
fn rejects_a_broken_checksum() {
    assert!(parse("SK6907200002891987426353").is_err());
}

#[test]
fn rejects_an_unknown_bank_code() {
    // Same account, bank code 0721, check digits recomputed so only the
    // Slovak bank-code rule can reject it.
    let iban = bban_to_iban("SK", "072100028919874263 53".replace(' ', "").as_str());
    assert!(mod97(&iban) == 1);
    assert!(parse(&iban).unwrap_err().contains("bank code"));
}

#[test]
fn converts_a_slovak_bban() {
    assert_eq!(parse("0720 000289 1987426353").unwrap(), SPEC_IBAN);
    assert_eq!(
        parse("072000028919874263").unwrap_err(),
        "Not a valid BBAN (a Slovak BBAN has 20 digits)."
    );
}

#[test]
fn accepts_a_foreign_iban_without_slovak_rules() {
    assert_eq!(
        parse("CZ65 0800 0000 1920 0014 5399").unwrap(),
        "CZ6508000000192000145399"
    );
}

#[test]
fn pretty_printing_groups_by_four() {
    assert_eq!(format_pretty(SPEC_IBAN), "SK68 0720 0002 8919 8742 6353");
}

#[test]
fn a_valid_iban_has_remainder_one() {
    assert_eq!(mod97(SPEC_IBAN), 1);
    assert_eq!(mod97("SK6907200002891987426353"), 2);
}

#[test]
fn a_converted_bban_checks_out() {
    let iban = bban_to_iban("SK", "07200002891987426353");
    assert_eq!(iban, SPEC_IBAN);
    assert_eq!(mod97(&iban), 1);
}

#[test]
fn a_parsed_iban_parses_to_itself() {
    let once = parse(" sk68 0720 0002 8919 8742 6353 ").unwrap();
    assert_eq!(parse(&once).unwrap(), once);
}

#[test]
fn normalising_drops_spaces_and_upper_cases() {
    assert_eq!(normalize(" sk68 0720\t0002 "), "SK6807200002");
}

#[test]
fn an_empty_iban_is_reported() {
    assert!(parse("   ").is_err());
}

#[test]
fn normalising_twice_is_normalising_once() {
    let once = payme_qr::iban::normalize(" sk68 0720 0002\t8919 8742 6353 ");
    assert_eq!(once, "SK6807200002891987426353");
    assert_eq!(payme_qr::iban::normalize(&once), once);
}
