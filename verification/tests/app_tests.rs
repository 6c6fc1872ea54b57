use payme_qr::contacts::Contacts;
use payme_qr::spec::Preset;
use payme_qr::tui::app::{App, Effect, Key, KeyCode, Mode, Row, SaveKind, StatusKind};

fn key(code: KeyCode) -> Key {
    Key::plain(code)
}

fn ctrl(c: char) -> Key {
    Key::ctrl(c)
}

fn type_str(app: &mut App, text: &str) {
    for c in text.chars() {
        app.on_key(key(KeyCode::Char(c)));
    }
}

/// A form over an empty history, so the tests never touch a real one.
fn blank() -> App {
    App::with_history(Contacts::default(), None)
}

/// A form whose history is kept in a file; the writes come back as effects.
fn remembering(contacts: Contacts) -> App {
    App::with_history(contacts, Some("history.yml".to_string()))
}

fn known() -> Contacts {
    let mut contacts = Contacts::default();
    contacts.remember("Alice Payee", "SK6807200002891987426353");
    contacts.remember("Alan Turing", "SK3709008482989234185969");
    contacts
}

fn filled() -> App {
    let mut app = blank();
    app.focus = Row::Iban.index();
    type_str(&mut app, "SK6807200002891987426353");
    app.focus = Row::Name.index();
    type_str(&mut app, "Alice Payee");
    app
}

#[test]
fn a_filled_form_produces_the_spec_link() {
    let app = filled();
    assert_eq!(
        app.url(),
        Some("https://payme.sk/2/p/PME?IBAN=SK6807200002891987426353&CN=Alice+Payee")
    );
    assert!(app.matrix().is_some());
}

#[test]
fn typing_symbols_fills_the_reference() {
    let mut app = filled();
    app.focus = Row::Vs.index();
    type_str(&mut app, "2546874464");
    assert_eq!(app.input(Row::Reference).as_str(), "/VS2546874464/SS/KS");

    app.focus = Row::Ks.index();
    type_str(&mut app, "1118");
    assert_eq!(app.input(Row::Reference).as_str(), "/VS2546874464/SS/KS1118");
    assert!(app.url().unwrap().contains("PI=%2FVS2546874464%2FSS%2FKS1118"));
}

#[test]
fn typing_a_reference_backfills_the_symbols() {
    let mut app = filled();
    app.focus = Row::Reference.index();
    type_str(&mut app, "/VS123/SS456/KS0308");
    assert_eq!(app.input(Row::Vs).as_str(), "123");
    assert_eq!(app.input(Row::Ss).as_str(), "456");
    assert_eq!(app.input(Row::Ks).as_str(), "0308");
}

#[test]
fn free_text_reference_clears_the_symbols() {
    let mut app = filled();
    app.focus = Row::Vs.index();
    type_str(&mut app, "42");
    app.focus = Row::Reference.index();
    app.on_key(ctrl('u'));
    type_str(&mut app, "QR-ab29e346");
    assert!(app.symbols().is_empty());
    assert!(app.url().unwrap().contains("PI=QR-ab29e346"));
}

#[test]
fn focus_skips_attributes_the_type_omits() {
    let mut app = filled();
    app.preset = Preset::Donation;
    app.focus = Row::Currency.index();
    app.step_focus(1);
    assert_eq!(app.focused_row(), Row::Reference, "the due date row is skipped");
}

#[test]
fn changing_the_preset_moves_focus_off_an_omitted_row() {
    let mut app = filled();
    app.focus = Row::DueDate.index();
    app.focus = Row::Preset.index();
    app.on_key(key(KeyCode::Right)); // P2p -> Invoice
    assert_eq!(app.preset, Preset::Invoice);
    app.focus = Row::DueDate.index();
    app.focus = Row::Preset.index();
    app.on_key(key(KeyCode::Right)); // Invoice -> Store, which omits the due date
    assert_eq!(app.preset, Preset::Store);
}

#[test]
fn the_due_date_is_dropped_when_the_type_omits_it() {
    let mut app = filled();
    app.focus = Row::DueDate.index();
    type_str(&mut app, "2028-04-30");
    assert!(app.url().unwrap().contains("DT=20280430"));

    app.preset = Preset::Donation;
    app.recompute();
    assert!(!app.url().unwrap().contains("DT="));
}

#[test]
fn missing_mandatory_attributes_are_reported_on_their_row() {
    let mut app = blank();
    app.preset = Preset::Eshop;
    app.recompute();
    assert!(!app.errors_for(Row::Iban).is_empty());
    assert!(!app.errors_for(Row::Name).is_empty());
    assert!(!app.errors_for(Row::Amount).is_empty());
    assert!(app.matrix().is_none());
}

#[test]
fn amount_input_rejects_a_second_separator() {
    let mut app = filled();
    app.focus = Row::Amount.index();
    type_str(&mut app, "8.5.9");
    assert_eq!(app.input(Row::Amount).as_str(), "8.59");
    assert!(app.url().unwrap().contains("AM=8.59&CC=EUR"));
}

#[test]
fn saving_is_refused_until_the_form_is_valid() {
    let mut app = blank();
    app.on_key(ctrl('s'));
    assert_eq!(app.mode, Mode::Edit);
    assert_eq!(app.status.kind, StatusKind::Error);

    let mut app = filled();
    app.on_key(ctrl('s'));
    assert!(matches!(app.mode, Mode::Save { kind: SaveKind::Png, .. }));
    app.on_key(key(KeyCode::Esc));
    assert_eq!(app.mode, Mode::Edit);
    assert!(!app.should_quit, "Esc closes the dialog rather than the app");
}

#[test]
fn normalisation_can_be_toggled() {
    let mut app = filled();
    app.focus = Row::Message.index();
    type_str(&mut app, "Ko\u{161}ice");
    assert!(app.url().unwrap().contains("MSG=Kosice"));

    app.on_key(ctrl('n'));
    assert!(!app.normalize);
    assert!(!app.errors_for(Row::Message).is_empty());
}

#[test]
fn escape_quits_the_form() {
    let mut app = filled();
    app.on_key(key(KeyCode::Esc));
    assert!(app.should_quit);
}

#[test]
fn a_remembered_name_completes_as_it_is_typed() {
    let mut app = App::with_history(known(), None);
    type_str(&mut app, "Ali");

    let suggestion = app.suggestion().expect("Alice Payee is offered");
    assert_eq!(suggestion.name, "Alice Payee");
    assert_eq!(suggestion.completion, "ce Payee");
    assert_eq!(suggestion.total, 1);

    // Right at the end of the line takes it, the way a shell would.
    app.on_key(key(KeyCode::Right));
    assert_eq!(app.input(Row::Name).as_str(), "Alice Payee");
    assert_eq!(
        app.input(Row::Iban).as_str(),
        "SK6807200002891987426353",
        "the IBAN comes with the name"
    );
    assert!(app.suggestion().is_none(), "nothing is left to complete");
    assert!(app.url().unwrap().ends_with("CN=Alice+Payee"));
}

#[test]
fn several_recipients_share_a_prefix_and_can_be_cycled() {
    let mut app = App::with_history(known(), None);
    type_str(&mut app, "Al");
    let suggestion = app.suggestion().unwrap();
    assert_eq!((suggestion.name.as_str(), suggestion.total), ("Alan Turing", 2));
    assert!(app.input(Row::Iban).is_empty(), "an ambiguous prefix fills in no IBAN");

    app.on_key(key(KeyCode::Down));
    assert_eq!(app.suggestion().unwrap().name, "Alice Payee");

    app.on_key(key(KeyCode::Enter));
    assert_eq!(app.input(Row::Name).as_str(), "Alice Payee");
    assert_eq!(app.input(Row::Iban).as_str(), "SK6807200002891987426353");
}

#[test]
fn an_ibanless_name_typed_in_full_still_finds_its_iban() {
    let mut app = App::with_history(known(), None);
    type_str(&mut app, "alice payee");
    assert_eq!(app.input(Row::Iban).as_str(), "SK6807200002891987426353");
    assert!(app.iban_from_history());
}

#[test]
fn an_iban_typed_by_hand_is_never_overwritten() {
    let mut app = App::with_history(known(), None);
    app.focus = Row::Iban.index();
    type_str(&mut app, "SK2256002926649607918409");
    app.focus = Row::Name.index();
    type_str(&mut app, "Alice Payee");
    assert_eq!(app.input(Row::Iban).as_str(), "SK2256002926649607918409");
    assert!(!app.iban_from_history());
}

#[test]
fn a_filled_in_iban_is_taken_back_when_the_name_stops_matching() {
    let mut app = App::with_history(known(), None);
    type_str(&mut app, "Alice Payee");
    assert!(!app.input(Row::Iban).is_empty());
    app.on_key(ctrl('u'));
    type_str(&mut app, "Someone Else");
    assert!(
        app.input(Row::Iban).is_empty(),
        "an offered IBAN does not outlive the name that brought it"
    );
}

#[test]
fn an_incomplete_form_leaves_the_history_alone() {
    let mut app = remembering(Contacts::default());
    type_str(&mut app, "Alice Payee");
    assert_eq!(app.on_key(ctrl('r')), Effect::Nothing);
    assert_eq!(app.status.kind, StatusKind::Info);
    assert_eq!(
        app.on_key(key(KeyCode::Esc)),
        Effect::Nothing,
        "no file is written for a payment that never was"
    );
}

#[test]
fn saving_writes_the_file_at_the_typed_path() {
    let mut app = filled();
    app.on_key(ctrl('e'));
    if let Mode::Save { path, .. } = &mut app.mode {
        path.clear();
    }
    type_str(&mut app, " /tmp/saved.svg ");
    let effect = app.on_key(key(KeyCode::Enter));
    assert_eq!(
        effect,
        Effect::WriteCode { kind: SaveKind::Svg, path: "/tmp/saved.svg".into(), scale: 8 }
    );
    assert_eq!(app.code_written(Ok(())), Effect::Nothing, "no history file to update");
    assert_eq!(app.status.kind, StatusKind::Success, "{}", app.status.text);
    assert_eq!(app.status.text, "Saved SVG to /tmp/saved.svg");
}

#[test]
fn saving_a_code_remembers_its_recipient() {
    let mut app = remembering(Contacts::default());
    app.focus = Row::Iban.index();
    type_str(&mut app, "SK6807200002891987426353");
    app.focus = Row::Name.index();
    type_str(&mut app, "Alice Payee");

    app.on_key(ctrl('e'));
    if let Mode::Save { path, .. } = &mut app.mode {
        path.clear();
    }
    type_str(&mut app, "remembered.svg");
    assert!(matches!(app.on_key(key(KeyCode::Enter)), Effect::WriteCode { .. }));
    let Effect::SaveHistory { path, text } = app.code_written(Ok(())) else {
        panic!("the recipient is to be written to the history");
    };
    assert_eq!(path, "history.yml");
    app.history_saved(Ok(()));
    assert_eq!(app.status.kind, StatusKind::Success, "{}", app.status.text);
    assert_eq!(
        app.status.text,
        "Saved SVG to remembered.svg \u{25aa} remembered Alice Payee"
    );

    let stored = Contacts::parse(&text);
    assert_eq!(stored.iban_for("Alice Payee"), Some("SK6807200002891987426353"));
}

#[test]
fn quitting_on_a_valid_form_remembers_the_recipient() {
    let mut app = remembering(Contacts::default());
    app.focus = Row::Iban.index();
    type_str(&mut app, "SK6807200002891987426353");
    app.focus = Row::Name.index();
    type_str(&mut app, "Kov\u{e1}\u{10d}");
    let effect = app.on_key(key(KeyCode::Esc));

    assert!(app.should_quit);
    let Effect::SaveHistory { text, .. } = effect else {
        panic!("the recipient is to be written to the history");
    };
    let stored = Contacts::parse(&text);
    assert_eq!(
        stored.iban_for("Kovac"),
        Some("SK6807200002891987426353"),
        "the name is stored as it is transmitted, folded to the Annex A set"
    );
}

#[test]
fn a_recipient_can_be_forgotten_again() {
    let mut app = remembering(known());
    type_str(&mut app, "Alice Payee");
    let Effect::SaveHistory { text, .. } = app.on_key(ctrl('d')) else {
        panic!("the history is to be rewritten");
    };
    app.history_saved(Ok(()));

    assert_eq!(app.status.kind, StatusKind::Success, "{}", app.status.text);
    assert!(app.input(Row::Iban).is_empty());
    assert_eq!(Contacts::parse(&text).iban_for("Alice Payee"), None);
}

#[test]
fn remembering_by_hand_reports_what_happened() {
    let mut app = remembering(Contacts::default());
    app.focus = Row::Iban.index();
    type_str(&mut app, "SK6807200002891987426353");
    app.focus = Row::Name.index();
    type_str(&mut app, "Alice Payee");
    assert!(matches!(app.on_key(ctrl('r')), Effect::SaveHistory { .. }));
    app.history_saved(Err("disk full".into()));
    assert_eq!(app.status.kind, StatusKind::Error);
    assert_eq!(app.status.text, "Could not save the recipient history: disk full");
    assert_eq!(app.on_key(ctrl('r')), Effect::Nothing);
    assert_eq!(app.status.text, "Already in the history.");
}

#[test]
fn forgetting_an_unknown_name_says_so() {
    let mut app = remembering(known());
    type_str(&mut app, "Nobody");
    assert_eq!(app.on_key(ctrl('d')), Effect::Nothing);
    assert_eq!(app.status.text, "Nobody is not in the history.");
}

#[test]
fn a_failed_write_is_reported() {
    let mut app = filled();
    app.on_key(ctrl('s'));
    assert!(matches!(app.on_key(key(KeyCode::Enter)), Effect::WriteCode { .. }));
    assert_eq!(app.code_written(Err("permission denied".into())), Effect::Nothing);
    assert_eq!(app.status.kind, StatusKind::Error);
    assert_eq!(app.status.text, "permission denied");
}

#[test]
fn an_empty_file_name_is_refused() {
    let mut app = filled();
    app.on_key(ctrl('s'));
    app.on_key(ctrl('u'));
    assert_eq!(app.on_key(key(KeyCode::Enter)), Effect::Nothing);
    assert_eq!(app.status.text, "Enter a file name.");
    assert_eq!(app.mode, Mode::Edit);
}

#[test]
fn releases_and_unknown_keys_change_nothing() {
    let mut app = filled();
    let before = app.input(Row::Name).clone();
    app.on_key(Key { code: KeyCode::Char('x'), ctrl: false, release: true });
    app.on_key(key(KeyCode::Other));
    assert_eq!(app.input(Row::Name), &before);
}

#[test]
fn the_focus_walks_the_rows_and_wraps() {
    let mut app = blank();
    app.focus = Row::Message.index();
    app.on_key(key(KeyCode::Tab));
    assert_eq!(app.focused_row(), Row::Preset);
    app.on_key(key(KeyCode::BackTab));
    assert_eq!(app.focused_row(), Row::Message);
    assert!(app.is_disabled(Row::DueDate) == false);
}

#[test]
fn the_drawing_style_can_be_toggled() {
    let mut app = filled();
    app.on_key(ctrl('p'));
    assert_eq!(app.status.text, "QR drawing: FullBlocks");
    app.on_key(ctrl('p'));
    assert_eq!(app.status.text, "QR drawing: HalfBlocks");
}

#[test]
fn without_a_history_file_nothing_is_written() {
    let mut app = filled();
    assert_eq!(app.on_key(ctrl('r')), Effect::Nothing);
    assert_eq!(app.on_key(key(KeyCode::Esc)), Effect::Nothing);
    assert!(app.should_quit);
}
