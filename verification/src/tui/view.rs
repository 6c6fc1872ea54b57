//! What the form shows, as text and looks: each row's label and value, the
//! list of issues, the status line and the key help. Turning these into
//! terminal cells is the drawing code's business.

use vstd::prelude::*;

use crate::payment::errors_view;
use crate::qr::TerminalStyle;
use crate::spec::{field_label, letter_char, preset_label, preset_type, requirement_of, Requirement};
use crate::strings::{decimal, decimal_chars, from_chars, owned, push_all, push_str, to_chars};
use crate::tui::app::{
    disabled, errors_on, rest_after, row_at, row_field, row_hint, row_label, App, FormView, Mode,
    Outcome, Row, StatusKind,
};

verus! {

/// How a piece of text is drawn.
#[derive(Debug, Clone, Copy, PartialEq, Eq, Structural)]
pub enum Look {
    Plain,
    Dim,
    /// Dim and struck through: a value that is not sent.
    DimStruck,
    Bold,
    /// The accent colour: what has the focus, or information.
    Accent,
    /// The accent colour, dimmed.
    AccentDim,
    Error,
    Success,
}

/// A run of text drawn one way.
#[derive(Debug, Clone, PartialEq, Eq)]
pub struct Piece {
    pub text: String,
    pub look: Look,
}

/// Runs of text as text and look.
pub open spec fn pieces_view(v: Seq<Piece>) -> Seq<(Seq<char>, Look)> {
    v.map_values(|p: Piece| (p.text@, p.look))
}

/// How a row's label is drawn.
#[derive(Debug, Clone, Copy, PartialEq, Eq, Structural)]
pub enum LabelLook {
    Plain,
    /// The attribute is omitted by the payment type.
    Dim,
    /// The attribute has an error.
    Error,
    /// The row has the focus.
    Focused,
}

/// One row of the form as it is shown.
#[derive(Debug, Clone, PartialEq, Eq)]
pub struct RowView {
    pub label: String,
    pub label_look: LabelLook,
    /// What the value area shows, left to right.
    pub pieces: Vec<Piece>,
    /// The column of the cursor in the value area, when the row has the focus.
    pub cursor: Option<usize>,
}

/// Whether validation reported something on a row; the symbols leave their
/// errors to the reference row.
pub open spec fn row_has_error(v: FormView, row: Row) -> bool {
    match (v.outcome, row_field(row)) {
        (Outcome::Invalid(es), Some(f)) => !(row == Row::Vs || row == Row::Ks || row == Row::Ss)
            && errors_on(es@, f).len() > 0,
        _ => false,
    }
}

/// The row at `index` has the focus, and the form is not in a dialog.
pub open spec fn has_focus(v: FormView, index: int) -> bool {
    index == v.focus && v.mode == Mode::Edit
}

/// How a row's label is drawn: omitted rows are dimmed, rows with an error
/// stand out, the focused row is highlighted.
pub open spec fn label_look(v: FormView, index: int) -> LabelLook {
    let row = row_at(index);
    if disabled(v.preset, row) {
        LabelLook::Dim
    } else if row_has_error(v, row) {
        LabelLook::Error
    } else if has_focus(v, index) {
        LabelLook::Focused
    } else {
        LabelLook::Plain
    }
}

/// A row's label, marked with ` *` where the attribute is mandatory.
pub open spec fn label_text(v: FormView, row: Row) -> Seq<char> {
    row_label(row) + if row_field(row) matches Some(f) && requirement_of(v.preset, f)
        == Requirement::Mandatory {
        " *"@
    } else {
        seq![]
    }
}

/// How far the value is scrolled so that the cursor stays visible in `width`
/// columns.
pub open spec fn scroll(cursor: nat, width: nat) -> nat {
    let last = if width > 0 {
        (width - 1) as nat
    } else {
        0nat
    };
    if cursor > last {
        (cursor - last) as nat
    } else {
        0nat
    }
}

/// At most `width` characters of `s` from `from` on.
pub open spec fn window(s: Seq<char>, from: nat, width: nat) -> Seq<char> {
    let t = if from <= s.len() {
        s.skip(from as int)
    } else {
        seq![]
    };
    if width <= t.len() {
        t.take(width as int)
    } else {
        t
    }
}

/// The path letter of the payment type in `/x/` form.
pub open spec fn type_path(v: FormView) -> Seq<char> {
    "/"@ + seq![letter_char(preset_type(v.preset))] + "/"@
}

/// What the value area of row `index` shows in `width` columns: the preset
/// with arrows to change it; a row the type omits says its value is not
/// sent; the name row offers the highlighted remembered name after what is
/// typed, with a counter when there are several; an IBAN brought in from
/// the history says so; an empty focused row shows its hint.
pub open spec fn value_pieces(v: FormView, index: int, width: nat) -> Seq<(Seq<char>, Look)> {
    let row = row_at(index);
    let focused = has_focus(v, index);
    if width == 0 {
        seq![]
    } else if row == Row::Preset {
        let arrow = if focused {
            Look::Accent
        } else {
            Look::Dim
        };
        seq![
            ("\u{25c2} "@, arrow),
            (preset_label(v.preset), Look::Bold),
            (" \u{25b8}"@, arrow),
            ("  "@ + type_path(v), Look::Dim),
        ]
    } else {
        let (text, cursor) = v.inputs[index];
        let visible = window(text, scroll(cursor, width), width);
        let look = if disabled(v.preset, row) {
            Look::Dim
        } else {
            Look::Plain
        };
        let note = "not sent in "@ + type_path(v) + " links"@;
        if disabled(v.preset, row) {
            if text.len() == 0 {
                seq![(note, look)]
            } else {
                seq![(visible, Look::DimStruck), ("  "@ + note, look)]
            }
        } else if row == Row::Name && v.mode == Mode::Edit && v.focused() == Row::Name
            && v.candidates.len() > 0 {
            let name = v.candidates[v.candidate as int].0;
            let shown = seq![(visible, look), (rest_after(name, text.len()), Look::Dim)];
            if v.candidates.len() > 1 {
                shown.push(
                    (
                        "  "@ + decimal(v.candidate + 1) + "/"@ + decimal(v.candidates.len())
                            + " \u{2191}\u{2193}"@,
                        Look::AccentDim,
                    ),
                )
            } else {
                shown
            }
        } else if row == Row::Iban && !focused && v.iban_filled && text.len() > 0 {
            seq![(visible, look), ("  remembered"@, Look::Dim)]
        } else if text.len() == 0 && focused {
            seq![(row_hint(row), Look::Dim)]
        } else {
            seq![(visible, look)]
        }
    }
}

/// Where the cursor goes in the value area of row `index`, when it has the focus.
pub open spec fn value_cursor(v: FormView, index: int, width: nat) -> Option<nat> {
    if has_focus(v, index) && width > 0 {
        if row_at(index) == Row::Preset {
            Some(0)
        } else {
            let cursor = v.inputs[index].1;
            Some((cursor - scroll(cursor, width)) as nat)
        }
    } else {
        None
    }
}

fn piece(text: String, look: Look) -> (r: Piece)
    ensures
        r.text@ == text@,
        r.look == look,
{
    Piece { text, look }
}

/// The characters of `s` from `from` on, at most `width` of them.
fn window_exec(s: &[char], from: usize, width: usize) -> (r: String)
    ensures
        r@ == window(s@, from as nat, width as nat),
{
    let n = s.len();
    let t = if from <= n {
        let t = crate::strings::slice_of(s, from, n);
        assert(t@ =~= s@.skip(from as int));
        t
    } else {
        Vec::new()
    };
    if width <= t.len() {
        let w = crate::strings::slice_of(t.as_slice(), 0, width);
        assert(w@ =~= t@.take(width as int));
        from_chars(w.as_slice())
    } else {
        from_chars(t.as_slice())
    }
}

/// Text followed by text.
fn joined(a: &str, b: &[char], c: &str) -> (r: String)
    ensures
        r@ == a@ + b@ + c@,
{
    let mut out: Vec<char> = Vec::new();
    push_str(&mut out, a);
    push_all(&mut out, b);
    push_str(&mut out, c);
    from_chars(out.as_slice())
}

/// A row of the form as it is shown, its value in `width` columns.
pub fn row_view(app: &App, index: usize, width: usize) -> (r: RowView)
    requires
        app.wf(),
        index < 11,
    ensures
        r.label@ == label_text(app@, row_at(index as int)),
        r.label_look == label_look(app@, index as int),
        pieces_view(r.pieces@) == value_pieces(app@, index as int, width as nat),
        r.cursor == (match value_cursor(app@, index as int, width as nat) {
            Some(c) => Some(c as usize),
            None => None::<usize>,
        }),
{
    let row = Row::at(index);
    let focused = app.focus_index() == index && app.is_editing();
    let is_disabled = app.is_disabled(row);
    let errors = app.errors_for(row);
    let has_error = errors.len() > 0;
    proof {
        assert(errors@.map_values(|e: &crate::payment::FieldError| *e).len() == errors@.len());
        assert(has_error == row_has_error(app@, row));
    }
    let label_look = if is_disabled {
        LabelLook::Dim
    } else if has_error {
        LabelLook::Error
    } else if focused {
        LabelLook::Focused
    } else {
        LabelLook::Plain
    };
    let mandatory = match app.requirement(row) {
        Some(Requirement::Mandatory) => true,
        _ => false,
    };
    let mut label_chars: Vec<char> = Vec::new();
    push_str(&mut label_chars, row.label());
    if mandatory {
        push_str(&mut label_chars, " *");
    }
    proof {
        reveal_strlit(" *");
    }
    assert(label_chars@ =~= label_text(app@, row));
    let label = from_chars(label_chars.as_slice());
    let mut pieces: Vec<Piece> = Vec::new();
    if width == 0 {
        assert(pieces_view(pieces@) =~= value_pieces(app@, index as int, width as nat));
        return RowView { label, label_look, pieces, cursor: None };
    }
    let letter = app.current_preset().payment_type().letter();
    let mut path: Vec<char> = Vec::new();
    push_str(&mut path, "/");
    push_str(&mut path, letter);
    push_str(&mut path, "/");
    proof {
        reveal_strlit("/");
    }
    assert(path@ =~= type_path(app@));
    if row == Row::Preset {
        let arrow = if focused {
            Look::Accent
        } else {
            Look::Dim
        };
        pieces.push(piece(owned("\u{25c2} "), arrow));
        pieces.push(piece(owned(app.current_preset().label()), Look::Bold));
        pieces.push(piece(owned(" \u{25b8}"), arrow));
        pieces.push(piece(joined("  ", path.as_slice(), ""), Look::Dim));
        proof {
            reveal_strlit("");
        }
        assert(pieces_view(pieces@) =~= value_pieces(app@, index as int, width as nat));
        let cursor = if focused {
            Some(0)
        } else {
            None
        };
        return RowView { label, label_look, pieces, cursor };
    }
    let field = app.input(row);
    let chars = to_chars(field.as_str());
    let cursor = field.cursor_col();
    let last = if width > 0 {
        width - 1
    } else {
        0
    };
    let offset = if cursor > last {
        cursor - last
    } else {
        0
    };
    let visible = window_exec(chars.as_slice(), offset, width);
    let look = if is_disabled {
        Look::Dim
    } else {
        Look::Plain
    };
    let note = joined("not sent in ", path.as_slice(), " links");
    let suggestion = if row == Row::Name {
        app.suggestion()
    } else {
        None
    };
    if is_disabled {
        if chars.len() == 0 {
            pieces.push(piece(note, look));
        } else {
            pieces.push(piece(visible, Look::DimStruck));
            let mut spaced: Vec<char> = Vec::new();
            push_str(&mut spaced, "  ");
            push_str(&mut spaced, note.as_str());
            pieces.push(piece(from_chars(spaced.as_slice()), look));
        }
    } else if let Some(s) = suggestion {
        pieces.push(piece(visible, look));
        pieces.push(piece(s.completion, Look::Dim));
        if s.total > 1 {
            let mut counter: Vec<char> = Vec::new();
            push_str(&mut counter, "  ");
            let position = decimal_chars((s.index as u64) + 1);
            push_all(&mut counter, position.as_slice());
            push_str(&mut counter, "/");
            let total = decimal_chars(s.total as u64);
            push_all(&mut counter, total.as_slice());
            push_str(&mut counter, " \u{2191}\u{2193}");
            pieces.push(piece(from_chars(counter.as_slice()), Look::AccentDim));
        }
    } else if row == Row::Iban && !focused && app.iban_from_history() {
        pieces.push(piece(visible, look));
        pieces.push(piece(owned("  remembered"), Look::Dim));
    } else if chars.len() == 0 && focused {
        pieces.push(piece(owned(row.hint()), Look::Dim));
    } else {
        pieces.push(piece(visible, look));
    }
    assert(pieces_view(pieces@) =~= value_pieces(app@, index as int, width as nat));
    let cursor = if focused {
        Some(cursor - offset)
    } else {
        None
    };
    RowView { label, label_look, pieces, cursor }
}

/// The free-text fields normalisation changed on their way into the link of
/// the payment on screen, with what is sent.
pub open spec fn form_notes(v: FormView) -> Seq<(crate::spec::Field, Seq<char>)> {
    let q = choose|q: crate::payment::Payment| v.describes(q);
    match crate::payment::resolution(q, crate::payment::due_date_of(q)) {
        Ok((_, values)) => crate::cli::changed_fields(q, values),
        Err(_) => seq![],
    }
}

/// One reported problem: a bullet, the field's label and the message.
pub open spec fn error_line(field: crate::spec::Field, message: Seq<char>) -> Seq<(Seq<char>, Look)> {
    seq![("\u{2022} "@, Look::Error), (field_label(field) + ": "@, Look::Bold), (message, Look::Plain)]
}

/// One change normalisation made.
pub open spec fn note_line(field: crate::spec::Field, sent: Seq<char>) -> Seq<(Seq<char>, Look)> {
    seq![(field_label(field) + " is sent as \""@ + sent + "\""@, Look::Dim)]
}

/// The issues pane: every error of an invalid payment; a reminder of the
/// mandatory fields while nothing is reported; or that the link is valid,
/// followed by what normalisation changed.
pub open spec fn issue_lines(v: FormView) -> Seq<Seq<(Seq<char>, Look)>> {
    match v.outcome {
        Outcome::Invalid(errors) => if errors@.len() > 0 {
            Seq::new(errors@.len(), |i: int| error_line(errors@[i].field, errors@[i].message@))
        } else {
            seq![seq![("Fill in the mandatory fields marked with *."@, Look::Dim)]]
        },
        Outcome::Ready { .. } => seq![seq![("\u{2713} Valid payment link."@, Look::Success)]]
            + Seq::new(form_notes(v).len(), |i: int| note_line(form_notes(v)[i].0, form_notes(v)[i].1)),
    }
}

/// Lines of runs of text as text and looks.
pub open spec fn lines_view(v: Seq<Vec<Piece>>) -> Seq<Seq<(Seq<char>, Look)>> {
    v.map_values(|l: Vec<Piece>| pieces_view(l@))
}

/// The lines of the issues pane.
pub fn issues(app: &App) -> (r: Vec<Vec<Piece>>)
    requires
        app.wf(),
    ensures
        lines_view(r@) == issue_lines(app@),
{
    let mut lines: Vec<Vec<Piece>> = Vec::new();
    match app.current_outcome() {
        Outcome::Invalid(errors) => {
            if errors.len() == 0 {
                let mut line: Vec<Piece> = Vec::new();
                line.push(piece(owned("Fill in the mandatory fields marked with *."), Look::Dim));
                assert(pieces_view(line@) =~= seq![
                    ("Fill in the mandatory fields marked with *."@, Look::Dim),
                ]);
                lines.push(line);
                assert(lines_view(lines@) =~= seq![pieces_view(line@)]);
                assert(lines_view(lines@) =~= issue_lines(app@));
                return lines;
            }
            for i in 0..errors.len()
                invariant
                    app@.outcome == Outcome::Invalid(*errors),
                    lines_view(lines@) == Seq::new(
                        i as nat,
                        |k: int| error_line(errors@[k].field, errors@[k].message@),
                    ),
            {
                let e = &errors[i];
                let mut label: Vec<char> = Vec::new();
                push_str(&mut label, e.field.label());
                push_str(&mut label, ": ");
                let mut line: Vec<Piece> = Vec::new();
                line.push(piece(owned("\u{2022} "), Look::Error));
                line.push(piece(from_chars(label.as_slice()), Look::Bold));
                line.push(piece(e.message.clone(), Look::Plain));
                assert(pieces_view(line@) =~= error_line(e.field, e.message@));
                let ghost before = lines@;
                lines.push(line);
                assert(lines_view(lines@) =~= lines_view(before).push(pieces_view(line@)));
                assert(lines_view(lines@) =~= Seq::new(
                    (i + 1) as nat,
                    |k: int| error_line(errors@[k].field, errors@[k].message@),
                ));
            }
            assert(lines_view(lines@) =~= issue_lines(app@));
            lines
        },
        Outcome::Ready { .. } => {
            let mut first: Vec<Piece> = Vec::new();
            first.push(piece(owned("\u{2713} Valid payment link."), Look::Success));
            assert(pieces_view(first@) =~= seq![("\u{2713} Valid payment link."@, Look::Success)]);
            lines.push(first);
            assert(lines_view(lines@) =~= seq![pieces_view(first@)]);
            let payment = app.payment();
            let notes = match payment.resolve() {
                Ok(resolved) => crate::cli::normalisation_notes(&payment, &resolved),
                Err(_) => Vec::new(),
            };
            proof {
                form_notes_of(app@, payment);
            }
            let ghost ns = form_notes(app@);
            assert(crate::payment::pairs_view(notes@) == ns);
            let ghost head = lines_view(lines@);
            for i in 0..notes.len()
                invariant
                    crate::payment::pairs_view(notes@) == ns,
                    lines_view(lines@) == head + Seq::new(
                        i as nat,
                        |k: int| note_line(ns[k].0, ns[k].1),
                    ),
            {
                let (field, sent) = &notes[i];
                assert(ns[i as int] == (*field, sent@));
                let mut text: Vec<char> = Vec::new();
                push_str(&mut text, field.label());
                push_str(&mut text, " is sent as \"");
                push_str(&mut text, sent.as_str());
                push_str(&mut text, "\"");
                let mut line: Vec<Piece> = Vec::new();
                line.push(piece(from_chars(text.as_slice()), Look::Dim));
                assert(pieces_view(line@) =~= note_line(*field, sent@));
                let ghost before = lines@;
                lines.push(line);
                assert(lines_view(lines@) =~= lines_view(before).push(pieces_view(line@)));
                assert(lines_view(lines@) =~= head + Seq::new(
                    (i + 1) as nat,
                    |k: int| note_line(ns[k].0, ns[k].1),
                ));
            }
            assert(lines_view(lines@) =~= issue_lines(app@));
            lines
        },
    }
}

/// The notes of the payment on screen are those of any payment it describes.
proof fn form_notes_of(v: FormView, p: crate::payment::Payment)
    requires
        v.describes(p),
    ensures
        form_notes(v) == match crate::payment::resolution(p, crate::payment::due_date_of(p)) {
            Ok((_, values)) => crate::cli::changed_fields(p, values),
            Err(_) => Seq::<(crate::spec::Field, Seq<char>)>::empty(),
        },
{
    let q = choose|q: crate::payment::Payment| v.describes(q);
    assert(v.describes(q));
    assert(crate::tui::app::same_form(p, q));
    crate::tui::app::lemma_resolution_by_form(p, q);
}

/// The status line: the latest message in the colour of its kind, or the
/// hint of the focused row while there is none.
pub open spec fn status_piece(v: FormView) -> (Seq<char>, Look) {
    if v.status.text@.len() == 0 {
        (row_hint(v.focused()), Look::Dim)
    } else {
        (v.status.text@, match v.status.kind {
            StatusKind::Info => Look::Accent,
            StatusKind::Success => Look::Success,
            StatusKind::Error => Look::Error,
        })
    }
}

pub fn status_line(app: &App) -> (r: Piece)
    requires
        app.wf(),
    ensures
        (r.text@, r.look) == status_piece(app@),
{
    let status = app.current_status();
    if status.text.as_str().is_empty() {
        return piece(owned(app.focused_row().hint()), Look::Dim);
    }
    let look = match status.kind {
        StatusKind::Info => Look::Accent,
        StatusKind::Success => Look::Success,
        StatusKind::Error => Look::Error,
    };
    piece(status.text.clone(), look)
}

/// The key help: on the name row with a suggestion, the completion keys;
/// otherwise the editing keys and whether normalisation is on.
pub open spec fn footer_text(v: FormView) -> Seq<char> {
    if v.focused() == Row::Name && v.mode == Mode::Edit && v.candidates.len() > 0 {
        "\u{2192}/Ctrl+F accept  \u{2191}\u{2193} other recipient  Ctrl+D forget  Ctrl+S PNG  Ctrl+E SVG  Esc quit"@
    } else {
        "Tab move  \u{2190}\u{2192} edit/choose  Ctrl+S PNG  Ctrl+E SVG  Ctrl+R remember  Ctrl+N normalise ("@
            + (if v.normalize {
            "on"@
        } else {
            "off"@
        }) + ")  Ctrl+U clear  Esc quit"@
    }
}

pub fn footer(app: &App) -> (r: String)
    requires
        app.wf(),
    ensures
        r@ == footer_text(app@),
{
    if app.focused_row() == Row::Name && app.suggestion().is_some() {
        return owned(
            "\u{2192}/Ctrl+F accept  \u{2191}\u{2193} other recipient  Ctrl+D forget  Ctrl+S PNG  Ctrl+E SVG  Esc quit",
        );
    }
    let mut out: Vec<char> = Vec::new();
    push_str(
        &mut out,
        "Tab move  \u{2190}\u{2192} edit/choose  Ctrl+S PNG  Ctrl+E SVG  Ctrl+R remember  Ctrl+N normalise (",
    );
    if app.normalizing() {
        push_str(&mut out, "on");
    } else {
        push_str(&mut out, "off");
    }
    push_str(&mut out, ")  Ctrl+U clear  Esc quit");
    from_chars(out.as_slice())
}

/// Where a symbol of `cols` by `rows` cells goes in a pane of `width` by
/// `height`: centred, or, when it does not fit, what to say instead.
pub open spec fn placement(cols: nat, rows: nat, width: nat, height: nat) -> Result<(nat, nat), Seq<char>> {
    if cols > width || rows > height {
        Err(
            "Not enough room for the QR code: it needs "@ + decimal(cols) + "x"@ + decimal(rows)
                + " cells, this pane has "@ + decimal(width) + "x"@ + decimal(height)
                + ".\nEnlarge the terminal, or press Ctrl+P for the other drawing style."@,
        )
    } else {
        Ok((((width - cols) / 2) as nat, ((height - rows) / 2) as nat))
    }
}

pub fn place_symbol(cols: usize, rows: usize, width: u16, height: u16) -> (r: Result<(u16, u16), String>)
    ensures
        match r {
            Ok((x, y)) => placement(cols as nat, rows as nat, width as nat, height as nat) == Ok::<
                (nat, nat),
                Seq<char>,
            >((x as nat, y as nat)),
            Err(m) => placement(cols as nat, rows as nat, width as nat, height as nat) == Err::<
                (nat, nat),
                Seq<char>,
            >(m@),
        },
{
    let w = width as usize;
    let h = height as usize;
    if cols > w || rows > h {
        let mut out: Vec<char> = Vec::new();
        push_str(&mut out, "Not enough room for the QR code: it needs ");
        push_all(&mut out, decimal_chars(cols as u64).as_slice());
        push_str(&mut out, "x");
        push_all(&mut out, decimal_chars(rows as u64).as_slice());
        push_str(&mut out, " cells, this pane has ");
        push_all(&mut out, decimal_chars(width as u64).as_slice());
        push_str(&mut out, "x");
        push_all(&mut out, decimal_chars(height as u64).as_slice());
        push_str(&mut out, ".\nEnlarge the terminal, or press Ctrl+P for the other drawing style.");
        return Err(from_chars(out.as_slice()));
    }
    let x = (width - cols as u16) / 2;
    let y = (height - rows as u16) / 2;
    Ok((x, y))
}

/// A `width` by `height` rectangle in the middle of the area at `(x, y)` of
/// `area_width` by `area_height`, shrunk to fit.
pub fn centered(x: u16, y: u16, area_width: u16, area_height: u16, width: u16, height: u16) -> (r: (
    u16,
    u16,
    u16,
    u16,
))
    requires
        x + area_width <= u16::MAX,
        y + area_height <= u16::MAX,
    ensures
        r.2 == (if width < area_width {
            width
        } else {
            area_width
        }),
        r.3 == (if height < area_height {
            height
        } else {
            area_height
        }),
        r.0 == x + (area_width - r.2) / 2,
        r.1 == y + (area_height - r.3) / 2,
{
    let w = if width < area_width {
        width
    } else {
        area_width
    };
    let h = if height < area_height {
        height
    } else {
        area_height
    };
    (x + (area_width - w) / 2, y + (area_height - h) / 2, w, h)
}

} // verus!
