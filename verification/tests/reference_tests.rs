use payme_qr::reference::{build, digits_only, is_canonical, parse, Symbols};

fn symbols(vs: &str, ss: &str, ks: &str) -> Symbols {
    Symbols {
        vs: vs.into(),
        ss: ss.into(),
        ks: ks.into(),
    }
}

#[test]
fn builds_the_reference_from_the_spec_example() {
    let s = symbols("2546874464", "2019568456", "1118");
    assert_eq!(build(&s), "/VS2546874464/SS2019568456/KS1118");
}

#[test]
fn empty_symbols_produce_no_reference() {
    assert_eq!(build(&Symbols::default()), "");
}

#[test]
fn a_single_symbol_still_emits_all_three_tokens() {
    assert_eq!(build(&symbols("123", "", "")), "/VS123/SS/KS");
}

#[test]
fn round_trips_through_parse() {
    let s = symbols("2546874464", "2019568456", "1118");
    assert_eq!(parse(&build(&s)), s);
    assert_eq!(
        parse(&build(&symbols("123", "", ""))),
        symbols("123", "", "")
    );
}

#[test]
fn parsing_free_text_yields_nothing() {
    assert_eq!(parse("INVOICE-2026-01"), Symbols::default());
}

#[test]
fn recognises_the_canonical_form() {
    assert!(is_canonical("/VS2546874464/SS2019568456/KS1118"));
    assert!(is_canonical("/VS/SS/KS"));
    assert!(!is_canonical("/VS12345678901/SS/KS")); // VS too long
    assert!(!is_canonical("/VS1/SS/KS12345")); // KS too long
    assert!(!is_canonical("QR-ab29e346f1d8"));
}

#[test]
fn keeps_only_digits() {
    assert_eq!(digits_only(" 12 34a5 "), "12345");
}

#[test]
fn a_built_reference_is_canonical() {
    assert!(is_canonical(&build(&symbols("0", "12", "0308"))));
    assert!(Symbols::default().is_empty());
    assert!(!symbols("", "", "1").is_empty());
}
