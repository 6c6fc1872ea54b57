use payme_qr::spec::Field::{Amount, CreditorName, Currency, DueDate, Iban, Message, PaymentId};
use payme_qr::spec::Requirement::{Mandatory, Omitted, Optional};
use payme_qr::spec::{
    is_recommended_char, Field, PaymentType, Preset, Requirement, FIELD_ORDER, PRESETS,
};

#[test]
fn due_date_is_only_carried_by_p2p_types() {
    for preset in PRESETS {
        let expected = match preset.payment_type() {
            PaymentType::P => Requirement::Optional,
            _ => Requirement::Omitted,
        };
        assert_eq!(preset.requirement(Field::DueDate), expected, "{preset:?}");
    }
}

#[test]
fn requirement_matrix_matches_table_2() {
    // (preset, iban, amount, currency, due, pi, msg, cn)
    let rows = [
        (Preset::Store, Mandatory, Mandatory, Mandatory, Omitted, Mandatory, Optional, Mandatory),
        (Preset::Eshop, Mandatory, Mandatory, Mandatory, Omitted, Mandatory, Optional, Mandatory),
        (Preset::Donation, Mandatory, Optional, Optional, Omitted, Optional, Optional, Mandatory),
        (Preset::P2p, Mandatory, Optional, Optional, Optional, Optional, Optional, Mandatory),
        // Invoice is `/p/` with a mandatory amount; PI stays optional.
        (Preset::Invoice, Mandatory, Mandatory, Mandatory, Optional, Optional, Optional, Mandatory),
    ];

    for (preset, iban, am, cc, dt, pi, msg, cn) in rows {
        assert_eq!(preset.requirement(Iban), iban, "{preset:?} IBAN");
        assert_eq!(preset.requirement(Amount), am, "{preset:?} AM");
        assert_eq!(preset.requirement(Currency), cc, "{preset:?} CC");
        assert_eq!(preset.requirement(DueDate), dt, "{preset:?} DT");
        assert_eq!(preset.requirement(PaymentId), pi, "{preset:?} PI");
        assert_eq!(preset.requirement(Message), msg, "{preset:?} MSG");
        assert_eq!(preset.requirement(CreditorName), cn, "{preset:?} CN");
    }
}

#[test]
fn annex_a_charset() {
    for c in "abzABZ09/-?:().,'+ ".chars() {
        assert!(is_recommended_char(c), "{c:?} should be recommended");
    }
    for c in "\u{e1}\u{161}#@_&%\"".chars() {
        assert!(!is_recommended_char(c), "{c:?} should not be recommended");
    }
}

#[test]
fn presets_and_types_are_read_by_name() {
    assert_eq!(Preset::parse(" EShop ").unwrap(), Preset::Eshop);
    assert_eq!(Preset::parse("normal").unwrap(), Preset::P2p);
    assert!(Preset::parse("nonsense").is_err());
    assert_eq!(PaymentType::parse("M").unwrap(), PaymentType::M);
    assert!(PaymentType::parse("x").is_err());
    assert_eq!(PaymentType::Q.letter(), "q");
}

#[test]
fn fields_come_in_query_string_order() {
    let keys: Vec<&str> = FIELD_ORDER.iter().map(|f| f.key()).collect();
    assert_eq!(keys, ["IBAN", "AM", "CC", "DT", "PI", "MSG", "CN"]);
    assert_eq!(Field::Message.max_len(), 140);
    assert_eq!(Field::PaymentId.label(), "Reference");
}
