//! Concrete instances of the properties the library proves.

use payme_qr::contacts::Contacts;
use payme_qr::iban;
use payme_qr::link::{decode_value, encode_value};
use payme_qr::payment::Payment;
use payme_qr::reference::{self, Symbols};
use payme_qr::spec::{Field, Preset};
use payme_qr::text::normalize;

#[test]
fn decoding_undoes_encoding_for_awkward_text() {
    for value in ["", "+%&=?", "\u{17d}ilina \u{2013} 100%", "a b  c", "/VS1/SS2/KS3"] {
        assert_eq!(decode_value(&encode_value(value)), value);
    }
}

#[test]
fn encoded_values_use_only_link_safe_characters() {
    let encoded = encode_value("K\u{f4}\u{161} & co. 5% off/+");
    assert!(encoded
        .chars()
        .all(|c| c.is_ascii_alphanumeric() || "*-._+%".contains(c)));
}

#[test]
fn a_parsed_reference_builds_back_to_itself() {
    let s = Symbols { vs: "7".into(), ss: "".into(), ks: "0308".into() };
    let built = reference::build(&s);
    assert!(reference::is_canonical(&built));
    assert_eq!(reference::parse(&built), s);
}

#[test]
fn a_converted_bban_has_a_valid_checksum() {
    for bban in ["11000000002612345678", "09000000000123456789"] {
        let iban = iban::bban_to_iban("SK", bban);
        assert_eq!(iban::mod97(&iban), 1, "{iban}");
    }
}

#[test]
fn normalised_text_is_in_the_recommended_set() {
    let n = normalize("\u{201e}\u{17d}lt\u{fd} k\u{f4}\u{148}\u{201c} #1 & \u{20ac}");
    assert!(n.value.chars().all(payme_qr::spec::is_recommended_char), "{}", n.value);
}

#[test]
fn a_valid_payment_meets_the_standard() {
    let resolved = Payment {
        preset: Preset::Store,
        iban: "sk68 0720 0002 8919 8742 6353".into(),
        creditor_name: "\u{10c}aj & k\u{e1}va".into(),
        amount: "1,5".into(),
        currency: "eur".into(),
        reference: "QR-1".into(),
        due_date: "2028-04-30".into(),
        ..Payment::default()
    }
    .resolve()
    .unwrap();
    assert_eq!(resolved.get(Field::DueDate), None, "the type omits the due date");
    assert_eq!(resolved.get(Field::Currency), Some("EUR"));
    assert_eq!(resolved.get(Field::Amount), Some("1.5"));
    assert_eq!(resolved.get(Field::Iban), Some("SK6807200002891987426353"));
    assert_eq!(resolved.get(Field::CreditorName), Some("Caj  kava"));
}

#[test]
fn a_history_survives_writing_and_reading() {
    let mut contacts = Contacts::default();
    for (name, iban) in [
        ("z", "1"),
        ("A: b", "x # y"),
        ("quote \" and \\ back", "new\nline"),
        ("  spaced  out ", "null"),
        ("#hash", "true"),
    ] {
        contacts.remember(name, iban);
    }
    assert_eq!(Contacts::parse(&contacts.to_yaml()), contacts);
}

#[test]
fn remembering_then_looking_up_gives_the_iban() {
    let mut contacts = Contacts::default();
    assert!(contacts.remember(" Ann  Lee ", " SK1 "));
    assert_eq!(contacts.iban_for("ann lee"), Some("SK1"));
    assert!(!contacts.remember(" Ann  Lee ", " SK1 "));
    assert!(contacts.forget("ANN LEE"));
    assert_eq!(contacts.iban_for("Ann Lee"), None);
}
