use payme_qr::text::{normalize, unsupported_chars};

#[test]
fn strips_slovak_diacritics() {
    let n = normalize("\u{17d}ilina, Ko\u{161}ice \u{2013} \u{10c}au");
    assert_eq!(n.value, "Zilina, Kosice  Cau");
    assert!(n.changed);
}

#[test]
fn covers_every_slovak_accented_letter() {
    let n = normalize("\u{e1}\u{e4}\u{10d}\u{10f}\u{e9}\u{ed}\u{13a}\u{13e}\u{148}\u{f3}\u{f4}\u{155}\u{161}\u{165}\u{fa}\u{fd}\u{17e}");
    assert_eq!(n.value, "aacdeillnoorstuyz");
}

#[test]
fn keeps_recommended_text_untouched() {
    let n = normalize("Cafe on the corner, Zilina (2nd floor) - table 4");
    assert_eq!(n.value, "Cafe on the corner, Zilina (2nd floor) - table 4");
    assert!(!n.changed);
}

#[test]
fn drops_characters_outside_annex_a() {
    let n = normalize("Ivan & Co. #7 \u{201e}best\u{201c}");
    assert_eq!(n.value, "Ivan  Co. 7 best");
}

#[test]
fn reports_unsupported_characters_once_each() {
    assert_eq!(unsupported_chars("a&b&c#"), vec!['&', '#']);
    assert!(unsupported_chars("Plain text 123").is_empty());
}

#[test]
fn white_space_folds_to_spaces() {
    assert_eq!(normalize("a\tb\nc").value, "a b c");
}

#[test]
fn folding_decomposed_text_drops_marks_and_foreign_characters() {
    let folded = payme_qr::text::fold_decomposed(&['a', '\u{301}', '\t', 'B', '\u{20ac}', '&', '1']);
    assert_eq!(folded, vec!['a', ' ', 'B', '1']);
    assert_eq!(payme_qr::text::fold_decomposed(&[]), Vec::<char>::new());
}
