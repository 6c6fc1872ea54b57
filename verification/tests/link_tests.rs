use payme_qr::link::{base_url, build, decode_value, encode_value};
use payme_qr::payment::Payment;
use payme_qr::spec::Preset;

#[test]
fn encodes_like_url_search_params() {
    assert_eq!(encode_value("Alice Payee"), "Alice+Payee");
    assert_eq!(
        encode_value("/VS2546874464/SS2019568456/KS1118"),
        "%2FVS2546874464%2FSS2019568456%2FKS1118"
    );
    assert_eq!(encode_value("my e-shop, Kosice"), "my+e-shop%2C+Kosice");
    assert_eq!(encode_value("8.59"), "8.59");
    assert_eq!(encode_value("O'Brien (Ltd.)"), "O%27Brien+%28Ltd.%29");
}

#[test]
fn decoding_round_trips() {
    for value in ["Alice Payee", "my e-shop, Kosice", "/VS1/SS/KS", "a+b%c"] {
        assert_eq!(decode_value(&encode_value(value)), value);
    }
}

#[test]
fn builds_the_person_to_person_example() {
    let payment = Payment {
        iban: "SK6807200002891987426353".into(),
        creditor_name: "Alice Payee".into(),
        amount: "8.59".into(),
        due_date: "2028-04-30".into(),
        message: "Thank you for lunch".into(),
        ..Payment::default()
    };
    assert_eq!(
        build(&payment.resolve().unwrap()),
        "https://payme.sk/2/p/PME?IBAN=SK6807200002891987426353&AM=8.59&CC=EUR\
         &DT=20280430&MSG=Thank+you+for+lunch&CN=Alice+Payee"
    );
}

#[test]
fn builds_the_static_donation_example() {
    let payment = Payment {
        preset: Preset::Donation,
        iban: "SK6807200002891987426353".into(),
        creditor_name: "Hope charity".into(),
        ..Payment::default()
    };
    assert_eq!(
        build(&payment.resolve().unwrap()),
        "https://payme.sk/2/q/PME?IBAN=SK6807200002891987426353&CN=Hope+charity"
    );
}

#[test]
fn multibyte_text_is_percent_encoded_by_its_utf8_bytes() {
    assert_eq!(encode_value("\u{e1}"), "%C3%A1");
    assert_eq!(decode_value("%C3%A1+x"), "\u{e1} x");
    assert_eq!(decode_value("%zz"), "%zz");
}

#[test]
fn the_base_url_names_the_type() {
    let payment = Payment {
        preset: Preset::Store,
        iban: "SK6807200002891987426353".into(),
        creditor_name: "Shop".into(),
        amount: "1".into(),
        reference: "R".into(),
        ..Payment::default()
    };
    assert_eq!(base_url(&payment.resolve().unwrap()), "https://payme.sk/2/m/PME");
}

#[test]
fn bytes_that_are_not_utf8_decode_to_the_replacement_character() {
    assert_eq!(decode_value("a%FFb"), "a\u{fffd}b");
}
