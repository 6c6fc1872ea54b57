use payme_qr::payment::{FieldError, Payment};
use payme_qr::spec::{Field, PaymentType, Preset};

const SPEC_IBAN: &str = "SK6807200002891987426353";

fn base() -> Payment {
    Payment {
        iban: SPEC_IBAN.into(),
        creditor_name: "Alice Payee".into(),
        ..Payment::default()
    }
}

#[test]
fn a_minimal_p2p_payment_resolves() {
    let resolved = base().resolve().unwrap();
    assert_eq!(resolved.payment_type, PaymentType::P);
    assert_eq!(resolved.get(Field::Iban), Some(SPEC_IBAN));
    assert_eq!(resolved.get(Field::CreditorName), Some("Alice Payee"));
    // No amount, so no currency travels either.
    assert_eq!(resolved.get(Field::Currency), None);
}

#[test]
fn mandatory_attributes_are_reported_per_type() {
    let payment = Payment {
        preset: Preset::Eshop,
        ..base()
    };
    let errors = payment.resolve().unwrap_err();
    let fields: Vec<Field> = errors.iter().map(|e| e.field).collect();
    assert_eq!(fields, vec![Field::Amount, Field::PaymentId]);
}

#[test]
fn every_error_is_collected_at_once() {
    let payment = Payment {
        iban: "SK0000000000000000000000".into(),
        creditor_name: String::new(),
        amount: "12.345".into(),
        ..Payment::default()
    };
    let errors = payment.resolve().unwrap_err();
    assert_eq!(errors.len(), 3);
}

#[test]
fn amount_accepts_comma_and_bounds() {
    let ok = |a: &str| {
        Payment {
            amount: a.into(),
            ..base()
        }
        .resolve()
    };
    assert_eq!(ok("8,59").unwrap().get(Field::Amount), Some("8.59"));
    assert_eq!(ok("9999999.99").unwrap().get(Field::Amount), Some("9999999.99"));
    assert_eq!(ok("999999999").unwrap().get(Field::Amount), Some("999999999"));
    assert!(ok("1234567890").is_err());
    assert!(ok("12345678.9").is_err());
    assert!(ok("1.234").is_err());
    assert!(ok("abc").is_err());
}

#[test]
fn currency_is_emitted_only_with_an_amount() {
    let with = Payment {
        amount: "8.59".into(),
        ..base()
    }
    .resolve()
    .unwrap();
    assert_eq!(with.get(Field::Currency), Some("EUR"));

    let bad = Payment {
        amount: "8.59".into(),
        currency: "CZK".into(),
        ..base()
    };
    assert_eq!(bad.resolve().unwrap_err()[0].field, Field::Currency);
}

#[test]
fn due_date_is_dropped_for_types_that_omit_it() {
    let p2p = Payment {
        due_date: "2028-04-30".into(),
        ..base()
    }
    .resolve()
    .unwrap();
    assert_eq!(p2p.get(Field::DueDate), Some("20280430"));

    let donation = Payment {
        preset: Preset::Donation,
        due_date: "2028-04-30".into(),
        ..base()
    }
    .resolve()
    .unwrap();
    assert_eq!(donation.get(Field::DueDate), None);
}

#[test]
fn due_date_accepts_both_input_shapes_and_rejects_impossible_dates() {
    let compact = Payment {
        due_date: "20280430".into(),
        ..base()
    }
    .resolve()
    .unwrap();
    assert_eq!(compact.get(Field::DueDate), Some("20280430"));
    assert!(Payment {
        due_date: "2028-02-30".into(),
        ..base()
    }
    .resolve()
    .is_err());
}

#[test]
fn reference_slash_rules() {
    let pi = |r: &str| {
        Payment {
            reference: r.into(),
            ..base()
        }
        .resolve()
    };
    assert!(pi("/VS2546874464/SS2019568456/KS1118").is_ok());
    assert!(pi("QR-ab29e346f1d841c8a95a63d857490818").is_ok());
    assert!(pi("/invoice").is_err());
    assert!(pi("invoice/").is_err());
    assert!(pi("in//voice").is_err());
}

#[test]
fn free_text_is_normalised_and_length_checked() {
    let payment = Payment {
        creditor_name: "Ko\u{161}ick\u{e1} kaviare\u{148}".into(),
        message: "Kava & \u{10d}aj".into(),
        ..base()
    };
    let resolved = payment.resolve().unwrap();
    assert_eq!(resolved.get(Field::CreditorName), Some("Kosicka kaviaren"));
    assert_eq!(resolved.get(Field::Message), Some("Kava  caj"));

    let long = Payment {
        message: "x".repeat(141),
        ..base()
    };
    assert_eq!(long.resolve().unwrap_err()[0].field, Field::Message);
}

#[test]
fn normalisation_can_be_turned_off_and_then_rejects_unsupported_characters() {
    let payment = Payment {
        creditor_name: "Ko\u{161}ick\u{e1} kaviare\u{148}".into(),
        normalize_text: false,
        ..base()
    };
    assert_eq!(payment.resolve().unwrap_err()[0].field, Field::CreditorName);
}

#[test]
fn every_error_message_names_its_problem() {
    let missing = Payment {
        preset: Preset::Eshop,
        ..base()
    }
    .resolve()
    .unwrap_err();
    assert_eq!(missing[0].message, "Required for /e/ links.");
    assert_eq!(missing[0].to_text(), "Amount: Required for /e/ links.");

    let amount = Payment { amount: "1.234".into(), ..base() }.resolve().unwrap_err();
    assert_eq!(
        amount[0].message,
        "Enter an amount of up to 9 digits, or 7 digits with 1-2 decimal places."
    );
    let currency = Payment { amount: "1".into(), currency: "usd".into(), ..base() }
        .resolve()
        .unwrap_err();
    assert_eq!(currency[0].message, "Version 2 of the standard only supports EUR.");
    let date = Payment { due_date: "tomorrow".into(), ..base() }.resolve().unwrap_err();
    assert_eq!(date[0].message, "Enter a date as YYYY-MM-DD or YYYYMMDD.");
    let long = Payment { creditor_name: "n".repeat(71), ..base() }.resolve().unwrap_err();
    assert_eq!(long[0].message, "Maximum length is 70 characters.");
    let slash = Payment { reference: "/a".into(), ..base() }.resolve().unwrap_err();
    assert_eq!(slash[0].message, "Must not start or end with `/`.");
    let double = Payment { reference: "a//b".into(), ..base() }.resolve().unwrap_err();
    assert_eq!(double[0].message, "Must not contain `//`.");
    let raw = Payment { message: "a&b&".into(), normalize_text: false, ..base() }
        .resolve()
        .unwrap_err();
    assert_eq!(
        raw[0].message,
        "Unsupported characters: & (enable normalisation to strip them)."
    );
    assert_eq!(FieldError::new(Field::Iban, "x".into()).to_text(), "IBAN: x");
}

#[test]
fn a_blank_currency_sends_the_amount_alone() {
    let resolved = Payment { amount: "10".into(), currency: " ".into(), ..base() }
        .resolve()
        .unwrap();
    assert_eq!(resolved.get(Field::Amount), Some("10"));
    assert_eq!(resolved.get(Field::Currency), None);
}

#[test]
fn values_come_in_query_string_order() {
    let resolved = Payment {
        amount: "1".into(),
        message: "hi".into(),
        reference: "x".into(),
        ..base()
    }
    .resolve()
    .unwrap();
    let fields: Vec<Field> = resolved.values.iter().map(|(f, _)| *f).collect();
    assert_eq!(
        fields,
        [Field::Iban, Field::Amount, Field::Currency, Field::PaymentId, Field::Message, Field::CreditorName]
    );
}

#[test]
fn the_due_date_reads_through_the_date_parser() {
    let p = Payment { due_date: " 2028-04-30 ".into(), ..base() };
    assert_eq!(p.read_due_date().as_deref(), Some("20280430"));
    assert_eq!(p.resolve_with_date(Some("20300101".into())).unwrap().get(Field::DueDate), Some("20300101"));
    assert!(p.resolve_with_date(None).is_err());
}

#[test]
fn an_early_year_keeps_four_digits() {
    let p = Payment { due_date: "0999-01-02".into(), ..base() };
    assert_eq!(p.resolve().unwrap().get(Field::DueDate), Some("09990102"));
}

#[test]
fn a_mandatory_name_that_normalises_to_nothing_is_missing() {
    let payment = Payment {
        creditor_name: "&&".into(),
        ..base()
    };
    let errors = payment.resolve().unwrap_err();
    assert_eq!(errors.len(), 1);
    assert_eq!(errors[0].field, Field::CreditorName);
    assert_eq!(errors[0].message, "Required for /p/ links.");
}

#[test]
fn a_mandatory_reference_that_normalises_to_nothing_is_missing() {
    let payment = Payment {
        preset: Preset::Store,
        amount: "5".into(),
        reference: "\u{20ac}\u{20ac}".into(),
        ..base()
    };
    let errors = payment.resolve().unwrap_err();
    let fields: Vec<Field> = errors.iter().map(|e| e.field).collect();
    assert_eq!(fields, vec![Field::PaymentId]);
    assert!(errors[0].message.starts_with("Required for /"));
}

#[test]
fn an_optional_message_that_normalises_to_nothing_is_left_out() {
    let payment = Payment {
        message: "&&".into(),
        ..base()
    };
    let resolved = payment.resolve().unwrap();
    assert_eq!(resolved.get(Field::Message), None);
}
