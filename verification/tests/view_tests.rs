use payme_qr::contacts::Contacts;
use payme_qr::spec::Preset;
use payme_qr::tui::app::{App, Key, KeyCode, Row};
use payme_qr::tui::view::{centered, footer, issues, place_symbol, row_view, status_line, LabelLook, Look};

fn type_str(app: &mut App, text: &str) {
    for c in text.chars() {
        app.on_key(Key::plain(KeyCode::Char(c)));
    }
}

fn texts(pieces: &[payme_qr::tui::view::Piece]) -> Vec<(&str, Look)> {
    pieces.iter().map(|p| (p.text.as_str(), p.look)).collect()
}

#[test]
fn the_focused_empty_row_shows_its_hint_and_a_mandatory_mark() {
    let app = App::with_history(Contacts::default(), None);
    let row = row_view(&app, Row::Name.index(), 30);
    assert_eq!(row.label, "Recipient name *");
    assert_eq!(row.label_look, LabelLook::Error, "a missing name is an error");
    assert_eq!(texts(&row.pieces), [("Beneficiary of the payment (CN)", Look::Dim)]);
    assert_eq!(row.cursor, Some(0));
}

#[test]
fn the_preset_row_offers_arrows() {
    let mut app = App::with_history(Contacts::default(), None);
    app.focus = Row::Preset.index();
    let row = row_view(&app, 0, 30);
    assert_eq!(row.label, "Payment type");
    assert_eq!(row.label_look, LabelLook::Focused);
    assert_eq!(
        texts(&row.pieces),
        [
            ("\u{25c2} ", Look::Accent),
            ("P2P payment", Look::Bold),
            (" \u{25b8}", Look::Accent),
            ("  /p/", Look::Dim),
        ]
    );
}

#[test]
fn an_omitted_row_says_its_value_is_not_sent() {
    let mut app = App::with_history(Contacts::default(), None);
    app.focus = Row::DueDate.index();
    type_str(&mut app, "2028-04-30");
    app.preset = Preset::Donation;
    app.recompute();
    let row = row_view(&app, Row::DueDate.index(), 40);
    assert_eq!(row.label_look, LabelLook::Dim);
    assert_eq!(
        texts(&row.pieces),
        [("2028-04-30", Look::DimStruck), ("  not sent in /q/ links", Look::Dim)]
    );
}

#[test]
fn a_long_value_scrolls_to_keep_the_cursor_in_view() {
    let mut app = App::with_history(Contacts::default(), None);
    type_str(&mut app, "abcdefghij");
    let row = row_view(&app, Row::Name.index(), 4);
    assert_eq!(texts(&row.pieces), [("hij", Look::Plain)]);
    assert_eq!(row.cursor, Some(3));
    assert!(row_view(&app, Row::Name.index(), 0).pieces.is_empty());
}

#[test]
fn several_candidates_show_a_counter() {
    let mut contacts = Contacts::default();
    contacts.remember("Alice Payee", "SK6807200002891987426353");
    contacts.remember("Alan Turing", "SK3709008482989234185969");
    let mut app = App::with_history(contacts, None);
    type_str(&mut app, "Al");
    let row = row_view(&app, Row::Name.index(), 40);
    assert_eq!(
        texts(&row.pieces),
        [("Al", Look::Plain), ("an Turing", Look::Dim), ("  1/2 \u{2191}\u{2193}", Look::AccentDim)]
    );
    assert!(footer(&app).starts_with("\u{2192}/Ctrl+F accept"));
}

#[test]
fn the_issues_pane_lists_errors_or_the_changes() {
    let mut app = App::with_history(Contacts::default(), None);
    let lines = issues(&app);
    assert_eq!(lines.len(), 2);
    assert_eq!(
        texts(&lines[0]),
        [("\u{2022} ", Look::Error), ("IBAN: ", Look::Bold), ("IBAN is required.", Look::Plain)]
    );

    app.focus = Row::Iban.index();
    type_str(&mut app, "SK6807200002891987426353");
    app.focus = Row::Name.index();
    type_str(&mut app, "Ko\u{161}ice");
    let lines = issues(&app);
    assert_eq!(texts(&lines[0]), [("\u{2713} Valid payment link.", Look::Success)]);
    assert_eq!(texts(&lines[1]), [("Recipient name is sent as \"Kosice\"", Look::Dim)]);
}

#[test]
fn the_status_line_falls_back_to_the_hint() {
    let mut app = App::with_history(Contacts::default(), None);
    let piece = status_line(&app);
    assert_eq!((piece.text.as_str(), piece.look), ("Beneficiary of the payment (CN)", Look::Dim));
    app.on_key(Key::ctrl('s'));
    assert_eq!(status_line(&app).look, Look::Error);
    assert!(footer(&app).ends_with("Ctrl+N normalise (on)  Ctrl+U clear  Esc quit"));
}

#[test]
fn the_symbol_is_centred_or_the_room_is_reported() {
    assert_eq!(place_symbol(10, 4, 20, 10), Ok((5, 3)));
    assert_eq!(
        place_symbol(30, 4, 20, 10).unwrap_err(),
        "Not enough room for the QR code: it needs 30x4 cells, this pane has 20x10.\n\
         Enlarge the terminal, or press Ctrl+P for the other drawing style."
    );
    assert_eq!(centered(0, 0, 100, 40, 60, 3), (20, 18, 60, 3));
    assert_eq!(centered(2, 1, 50, 2, 60, 3), (2, 1, 50, 2));
}
