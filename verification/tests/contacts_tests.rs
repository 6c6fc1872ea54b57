use payme_qr::contacts::{clean, Contacts};

fn sample() -> Contacts {
    let mut contacts = Contacts::default();
    contacts.remember("Alice Payee", "SK6807200002891987426353");
    contacts.remember("Alan Turing", "SK3709008482989234185969");
    contacts.remember("Bob's Bakery", "SK2256002926649607918409");
    contacts
}

#[test]
fn a_recipient_survives_a_write_and_a_read() {
    let contacts = sample();
    assert_eq!(Contacts::parse(&contacts.to_yaml()), contacts);
    assert_eq!(contacts.iban_for("alice payee"), Some("SK6807200002891987426353"));
}

#[test]
fn awkward_names_are_quoted_and_read_back() {
    let mut contacts = Contacts::default();
    contacts.remember("Sport: klub, o.z.", "SK6807200002891987426353");
    contacts.remember("42", "SK3709008482989234185969");
    let yaml = contacts.to_yaml();
    assert!(yaml.contains("\"Sport: klub, o.z.\":"), "{yaml}");
    assert!(yaml.contains("\"42\":"), "{yaml}");
    assert_eq!(Contacts::parse(&yaml), contacts);
}

#[test]
fn a_hand_written_file_is_understood() {
    let contacts = Contacts::parse(
        "---\n\
         # my payees\n\
         \n\
         Alice Payee: SK6807200002891987426353  # lunch money\n\
         \"Bob's Bakery\" : \"SK2256002926649607918409\"\n\
         nonsense without a separator\n",
    );
    assert_eq!(contacts.len(), 2);
    assert_eq!(contacts.iban_for("Bob's Bakery"), Some("SK2256002926649607918409"));
    assert_eq!(
        contacts.iban_for("Alice Payee"),
        Some("SK6807200002891987426353"),
        "an inline comment is not part of the IBAN"
    );
}

#[test]
fn completion_offers_every_name_with_the_prefix() {
    let contacts = sample();
    let names: Vec<&str> = contacts.matches("al").iter().map(|(n, _)| *n).collect();
    assert_eq!(names, ["Alan Turing", "Alice Payee"]);
    assert_eq!(contacts.matches("ali").len(), 1);
    assert!(
        contacts.matches("").is_empty(),
        "nothing is suggested before the first keystroke"
    );
    assert!(contacts.matches("zz").is_empty());
}

#[test]
fn remembering_the_same_pair_twice_changes_nothing() {
    let mut contacts = sample();
    assert!(!contacts.remember("Alice Payee", "SK6807200002891987426353"));
    assert!(!contacts.remember("  Alice   Payee ", "SK6807200002891987426353"));
    assert!(contacts.remember("Alice Payee", "SK3709008482989234185969"));
    assert_eq!(contacts.len(), 3, "the IBAN was replaced, not added");
    assert!(!contacts.remember("Nobody", ""));
}

#[test]
fn a_new_capitalisation_replaces_the_old_entry() {
    let mut contacts = sample();
    assert!(contacts.remember("ALICE PAYEE", "SK6807200002891987426353"));
    assert_eq!(contacts.len(), 3);
    assert_eq!(contacts.matches("ALI"), [("ALICE PAYEE", "SK6807200002891987426353")]);
}

#[test]
fn white_space_collapses_to_single_spaces() {
    assert_eq!(clean("  Alice \t  Payee \n"), "Alice Payee");
    assert_eq!(clean("   "), "");
}

#[test]
fn the_file_lists_names_in_order_under_a_comment() {
    let yaml = sample().to_yaml();
    assert_eq!(
        yaml,
        "# Recipients remembered by payme-qr: name (key) to IBAN (value).\n\
         # Edit or delete entries freely; the file is rewritten as codes are generated.\n\
         Alan Turing: SK3709008482989234185969\n\
         Alice Payee: SK6807200002891987426353\n\
         Bob's Bakery: SK2256002926649607918409\n"
    );
}

#[test]
fn look_alike_scalars_are_quoted() {
    let mut contacts = Contacts::default();
    for name in ["yes", "1e5", "-dash", "inf", "say \"hi\"", "#tag", "a: b"] {
        contacts.remember(name, "SK6807200002891987426353");
    }
    let yaml = contacts.to_yaml();
    assert!(yaml.contains("\"yes\":"), "{yaml}");
    assert!(yaml.contains("\"1e5\":"), "{yaml}");
    assert!(yaml.contains("\"-dash\":"), "{yaml}");
    assert!(yaml.contains("\"inf\":"), "{yaml}");
    assert!(yaml.contains("\nsay \"hi\": "), "{yaml}");
    assert!(yaml.contains("\"#tag\":"), "{yaml}");
    assert!(yaml.contains("\"a: b\":"), "{yaml}");
    assert_eq!(Contacts::parse(&yaml), contacts);
}

#[test]
fn a_recipient_can_be_forgotten() {
    let mut contacts = sample();
    assert!(contacts.forget("ALICE payee"));
    assert_eq!(contacts.iban_for("Alice Payee"), None);
    assert!(!contacts.forget("Alice Payee"));
    assert_eq!(contacts.len(), 2);
    let names: Vec<&str> = contacts.iter().iter().map(|(n, _)| *n).collect();
    assert_eq!(names, ["Alan Turing", "Bob's Bakery"]);
}

#[test]
fn a_later_line_for_the_same_name_wins() {
    let contacts = Contacts::parse("a: X1\nb: Y\na: X2\n");
    assert_eq!(contacts.len(), 2);
    assert_eq!(contacts.iban_for("a"), Some("X2"));
    assert!(!contacts.is_empty());
}

#[test]
fn matching_over_lowered_names_picks_by_position() {
    let contacts = sample();
    let names: Vec<String> = contacts.iter().iter().map(|(n, _)| n.to_lowercase()).collect();
    let found = contacts.matches_lowered(&names, "al");
    let picked: Vec<&str> = found.iter().map(|(n, _)| *n).collect();
    assert_eq!(picked, vec!["Alan Turing", "Alice Payee"]);
    let shifted: Vec<String> = vec!["zz".into(), "al".into(), "zz".into()];
    let found = contacts.matches_lowered(&shifted, "al");
    assert_eq!(found.len(), 1);
    assert_eq!(found[0].0, "Alice Payee");
}

#[test]
fn remembering_keeps_every_other_entry() {
    let mut contacts = sample();
    assert!(contacts.remember("alice payee", "SK3709008482989234185969"));
    assert_eq!(contacts.len(), 3);
    assert_eq!(contacts.iban_for("Bob's Bakery"), Some("SK2256002926649607918409"));
    assert_eq!(contacts.iban_for("Alan Turing"), Some("SK3709008482989234185969"));
    assert_eq!(contacts.iban_for("ALICE PAYEE"), Some("SK3709008482989234185969"));
    assert!(!contacts.remember("alice payee", "SK3709008482989234185969"));
}
