use payme_qr::cli::{normalisation_notes, Args};
use payme_qr::contacts::Contacts;
use payme_qr::qr::TerminalStyle;
use payme_qr::spec::{Field, PaymentType, Preset};

fn args() -> Args {
    Args {
        preset: None,
        payment_type: None,
        iban: Some("SK6807200002891987426353".into()),
        name: Some("Alice Payee".into()),
        amount: None,
        currency: "EUR".into(),
        due: None,
        reference: None,
        vs: None,
        ss: None,
        ks: None,
        msg: None,
        png: None,
        svg: None,
        scale: 8,
        print_link: false,
        print_qr: false,
        blocks: false,
        no_normalize: false,
        contacts: None,
        no_remember: false,
        list_contacts: false,
    }
}

#[test]
fn the_type_letter_picks_the_plainest_preset() {
    let mut a = args();
    assert_eq!(a.preset(), Preset::P2p);
    a.payment_type = Some(PaymentType::M);
    assert_eq!(a.preset(), Preset::Store);
    a.payment_type = Some(PaymentType::Q);
    assert_eq!(a.preset(), Preset::Donation);
    a.preset = Some(Preset::Invoice);
    assert_eq!(a.preset(), Preset::Invoice);
}

#[test]
fn symbols_build_the_reference() {
    let mut a = args();
    a.vs = Some("25 46".into());
    a.ks = Some("1118".into());
    let p = a.to_payment(&Contacts::default()).unwrap();
    assert_eq!(p.reference, "/VS2546/SS/KS1118");
    assert_eq!(p.creditor_name, "Alice Payee");
    assert!(p.normalize_text);
}

#[test]
fn a_symbol_too_long_is_refused() {
    let mut a = args();
    a.ks = Some("12345".into());
    assert_eq!(a.to_payment(&Contacts::default()).unwrap_err(), "--ks takes at most 4 digits");
    a.ks = None;
    a.vs = Some("12345678901".into());
    assert_eq!(a.validate_symbols().unwrap_err(), "--vs takes at most 10 digits");
}

#[test]
fn a_remembered_name_supplies_the_iban() {
    let mut contacts = Contacts::default();
    contacts.remember("Alice Payee", "SK3709008482989234185969");
    let mut a = args();
    a.iban = None;
    assert_eq!(a.to_payment(&contacts).unwrap().iban, "SK3709008482989234185969");
    a.name = Some("Bob".into());
    assert_eq!(
        a.to_payment(&contacts).unwrap_err(),
        "no IBAN given and \"Bob\" is not in the recipient history; pass --iban once and it will be remembered"
    );
}

#[test]
fn without_outputs_both_are_shown() {
    let mut a = args();
    assert!(a.nothing_requested());
    assert_eq!(a.style(), TerminalStyle::HalfBlocks);
    a.blocks = true;
    a.png = Some("x.png".into());
    assert!(!a.nothing_requested());
    assert_eq!(a.style(), TerminalStyle::FullBlocks);
}

#[test]
fn normalised_fields_are_pointed_out() {
    let mut a = args();
    a.msg = Some("Ko\u{161}ice".into());
    let p = a.to_payment(&Contacts::default()).unwrap();
    let resolved = p.resolve().unwrap();
    let notes = normalisation_notes(&p, &resolved);
    assert_eq!(notes, vec![(Field::Message, "Kosice".to_string())]);
}

#[test]
fn a_produced_code_keeps_its_recipient_only_with_a_history_file() {
    let a = args();
    let contacts = Contacts::default();
    let resolved = a.to_payment(&contacts).unwrap().resolve().unwrap();
    let mut history = Contacts::default();
    assert!(!a.remember_recipient(&mut history, false, &resolved));
    assert!(history.is_empty());
    assert!(a.remember_recipient(&mut history, true, &resolved));
    assert_eq!(history.iban_for("Alice Payee"), Some("SK6807200002891987426353"));
    assert!(!a.remember_recipient(&mut history, true, &resolved));
    let mut quiet = args();
    quiet.no_remember = true;
    let mut other = Contacts::default();
    assert!(!quiet.remember_recipient(&mut other, true, &resolved));
    assert!(other.is_empty());
}
