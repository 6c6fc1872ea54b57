use payme_qr::tui::field::{Accepts, TextField};

fn typed(text: &str, accepts: Accepts, max_len: usize) -> TextField {
    let mut field = TextField::default();
    for c in text.chars() {
        field.insert(c, accepts, max_len);
    }
    field
}

#[test]
fn typing_respects_the_field_rules() {
    assert_eq!(typed("sk68 0720x!", Accepts::Iban, 34).as_str(), "SK68 0720X");
    assert_eq!(typed("12,3,4a", Accepts::Amount, 12).as_str(), "12,34");
    assert_eq!(typed("2028-04-30", Accepts::Date, 10).as_str(), "2028-04-30");
    assert_eq!(typed("12a34", Accepts::Digits, 10).as_str(), "1234");
}

#[test]
fn the_length_limit_stops_input() {
    assert_eq!(typed("123456", Accepts::Digits, 4).as_str(), "1234");
}

#[test]
fn editing_moves_the_cursor_over_multibyte_text() {
    let mut field = TextField::new("K\u{f3}\u{161}a");
    assert_eq!(field.cursor_col(), 4);
    field.left();
    field.backspace();
    assert_eq!(field.as_str(), "K\u{f3}a");
    assert_eq!(field.cursor_col(), 2);
    field.home();
    field.delete();
    assert_eq!(field.as_str(), "\u{f3}a");
}

#[test]
fn deletes_a_word_at_a_time() {
    let mut field = TextField::new("Thank you for lunch");
    field.delete_word();
    assert_eq!(field.as_str(), "Thank you for ");
    field.delete_word();
    assert_eq!(field.as_str(), "Thank you ");
}

#[test]
fn setting_a_value_keeps_the_cursor_valid() {
    let mut field = TextField::new("/VS123456/SS/KS");
    field.set("/VS1/SS/KS");
    assert!(field.cursor_col() <= field.as_str().chars().count());
    field.end();
    assert_eq!(field.cursor_col(), 10);
}

#[test]
fn setting_keeps_the_cursor_at_its_byte_offset() {
    // Three two-byte letters put the cursor six bytes in: six one-byte
    // characters of the new text.
    let mut field = TextField::new("\u{e1}\u{e1}\u{e1}");
    field.set("abcdefgh");
    assert_eq!(field.cursor_col(), 6);
    // Past the end of a shorter text it stops at the end.
    field.set("ab");
    assert_eq!(field.cursor_col(), 2);
    // Inside a multi-byte character it backs off to its start.
    let mut field = TextField::new("abc");
    field.set("\u{e1}\u{e1}");
    assert_eq!(field.cursor_col(), 1);
}

#[test]
fn control_characters_never_go_in() {
    let field = typed("a\u{7}b", Accepts::Any, 10);
    assert_eq!(field.as_str(), "ab");
    assert!(field.at_end());
    assert!(!field.is_empty());
}

#[test]
fn a_word_goes_after_any_white_space() {
    let mut field = TextField::new("a\u{3000}b");
    field.delete_word();
    assert_eq!(field.as_str(), "a\u{3000}");
    assert!(field.at_end());
    let mut plain = TextField::new("a b");
    plain.delete_word();
    assert_eq!(plain.as_str(), "a ");
    assert!(plain.at_end());
}

#[test]
fn setting_a_shorter_value_keeps_the_cursor_within_it() {
    let mut field = TextField::new("/VS123456/SS/KS");
    field.set("/VS1/SS/KS");
    assert_eq!(field.as_str(), "/VS1/SS/KS");
    assert_eq!(field.cursor_col(), 10);
    let mut accented = TextField::new("abc");
    accented.set("\u{e1}\u{e1}");
    assert_eq!(accented.cursor_col(), 1);
}
