//! State of the interactive form and the key handling that drives it.
//!
//! The form never touches the disk itself. Where a key calls for a file to
//! be written (the QR code, the recipient history), the key handler returns an
//! [`Effect`] naming the write; the caller performs it and reports back with
//! [`App::code_written`] or [`App::history_saved`], and the form carries on
//! from there.

use vstd::prelude::*;

use crate::contacts::{self, Contacts};
use crate::payment::{FieldError, Payment};
use crate::qr::{Matrix, TerminalStyle};
use crate::reference::{self, Symbols};
use crate::spec::{requirement_of, Field, Preset, Requirement};
use crate::strings::{from_chars, owned, push_str, to_chars};
use crate::tui::field::{Accepts, TextField};

verus! {

/// One line of the form. `Preset` is the type selector, the rest are inputs.
#[derive(Debug, Clone, Copy, PartialEq, Eq, Structural)]
pub enum Row {
    Preset,
    Name,
    Iban,
    Amount,
    Currency,
    DueDate,
    Reference,
    Vs,
    Ks,
    Ss,
    Message,
}

/// The rows, top to bottom.
pub const ROWS: [Row; 11] = [
    Row::Preset,
    Row::Name,
    Row::Iban,
    Row::Amount,
    Row::Currency,
    Row::DueDate,
    Row::Reference,
    Row::Vs,
    Row::Ks,
    Row::Ss,
    Row::Message,
];

/// The position of a row, top to bottom.
pub open spec fn row_index(r: Row) -> int {
    match r {
        Row::Preset => 0,
        Row::Name => 1,
        Row::Iban => 2,
        Row::Amount => 3,
        Row::Currency => 4,
        Row::DueDate => 5,
        Row::Reference => 6,
        Row::Vs => 7,
        Row::Ks => 8,
        Row::Ss => 9,
        Row::Message => 10,
    }
}

/// The row at a position.
pub open spec fn row_at(i: int) -> Row {
    if i == 0 {
        Row::Preset
    } else if i == 1 {
        Row::Name
    } else if i == 2 {
        Row::Iban
    } else if i == 3 {
        Row::Amount
    } else if i == 4 {
        Row::Currency
    } else if i == 5 {
        Row::DueDate
    } else if i == 6 {
        Row::Reference
    } else if i == 7 {
        Row::Vs
    } else if i == 8 {
        Row::Ks
    } else if i == 9 {
        Row::Ss
    } else {
        Row::Message
    }
}

/// The attribute a row feeds, when it maps to one directly; the symbols
/// are folded into the payment identification.
pub open spec fn row_field(r: Row) -> Option<Field> {
    match r {
        Row::Name => Some(Field::CreditorName),
        Row::Iban => Some(Field::Iban),
        Row::Amount => Some(Field::Amount),
        Row::Currency => Some(Field::Currency),
        Row::DueDate => Some(Field::DueDate),
        Row::Reference | Row::Vs | Row::Ks | Row::Ss => Some(Field::PaymentId),
        Row::Message => Some(Field::Message),
        Row::Preset => None,
    }
}

/// What a row accepts as it is typed into.
pub open spec fn row_accepts(r: Row) -> Accepts {
    match r {
        Row::Iban => Accepts::Iban,
        Row::Amount => Accepts::Amount,
        Row::DueDate => Accepts::Date,
        Row::Vs | Row::Ks | Row::Ss => Accepts::Digits,
        _ => Accepts::Any,
    }
}

/// The length limit enforced while typing: room for the spaces of a grouped
/// IBAN, ten characters of date, the symbol lengths, else the attribute's
/// own limit.
pub open spec fn row_max_len(r: Row) -> nat {
    match r {
        Row::Preset => 0,
        Row::Iban => 42,
        Row::DueDate => 10,
        Row::Vs | Row::Ss => 10,
        Row::Ks => 4,
        Row::Name => crate::spec::field_max_len(Field::CreditorName),
        Row::Amount => crate::spec::field_max_len(Field::Amount),
        Row::Currency => crate::spec::field_max_len(Field::Currency),
        Row::Reference => crate::spec::field_max_len(Field::PaymentId),
        Row::Message => crate::spec::field_max_len(Field::Message),
    }
}

/// The label a row is shown with.
pub open spec fn row_label(r: Row) -> Seq<char> {
    match r {
        Row::Preset => "Payment type"@,
        Row::Name => "Recipient name"@,
        Row::Iban => "IBAN"@,
        Row::Amount => "Amount"@,
        Row::Currency => "Currency"@,
        Row::DueDate => "Due date"@,
        Row::Reference => "Reference"@,
        Row::Vs => "Variable symbol"@,
        Row::Ks => "Constant symbol"@,
        Row::Ss => "Specific symbol"@,
        Row::Message => "Message"@,
    }
}

/// The hint shown for a row while it is empty and focused.
pub open spec fn row_hint(r: Row) -> Seq<char> {
    match r {
        Row::Preset => "Left/Right choose the payment context"@,
        Row::Name => "Beneficiary of the payment (CN)"@,
        Row::Iban => "IBAN, or a 20-digit Slovak BBAN"@,
        Row::Amount => "Up to 9 digits, or 7 digits with 1-2 decimals"@,
        Row::Currency => "Version 2 of the standard only supports EUR"@,
        Row::DueDate => "YYYY-MM-DD; only person-to-person links carry it"@,
        Row::Reference => "End-to-end reference (PI); symbols fill it in"@,
        Row::Vs => "Variable symbol, up to 10 digits"@,
        Row::Ks => "Constant symbol, up to 4 digits"@,
        Row::Ss => "Specific symbol, up to 10 digits"@,
        Row::Message => "Message for the recipient, up to 140 characters"@,
    }
}

/// A row is shown but skipped over when its attribute is omitted by the type.
pub open spec fn disabled(p: Preset, r: Row) -> bool {
    match row_field(r) {
        Some(f) => requirement_of(p, f) == Requirement::Omitted,
        None => false,
    }
}

impl Row {
    /// The position of the row, top to bottom.
    pub fn index(self) -> (r: usize)
        ensures
            r == row_index(self),
            row_at(r as int) == self,
    {
        match self {
            Row::Preset => 0,
            Row::Name => 1,
            Row::Iban => 2,
            Row::Amount => 3,
            Row::Currency => 4,
            Row::DueDate => 5,
            Row::Reference => 6,
            Row::Vs => 7,
            Row::Ks => 8,
            Row::Ss => 9,
            Row::Message => 10,
        }
    }

    /// The row at a position.
    pub fn at(i: usize) -> (r: Row)
        requires
            i < 11,
        ensures
            r == row_at(i as int),
            row_index(r) == i,
    {
        if i == 0 {
            Row::Preset
        } else if i == 1 {
            Row::Name
        } else if i == 2 {
            Row::Iban
        } else if i == 3 {
            Row::Amount
        } else if i == 4 {
            Row::Currency
        } else if i == 5 {
            Row::DueDate
        } else if i == 6 {
            Row::Reference
        } else if i == 7 {
            Row::Vs
        } else if i == 8 {
            Row::Ks
        } else if i == 9 {
            Row::Ss
        } else {
            Row::Message
        }
    }

    pub fn label(self) -> (r: &'static str)
        ensures
            r@ == row_label(self),
            r@.len() > 0,
    {
        let r = match self {
            Row::Preset => "Payment type",
            Row::Name => "Recipient name",
            Row::Iban => "IBAN",
            Row::Amount => "Amount",
            Row::Currency => "Currency",
            Row::DueDate => "Due date",
            Row::Reference => "Reference",
            Row::Vs => "Variable symbol",
            Row::Ks => "Constant symbol",
            Row::Ss => "Specific symbol",
            Row::Message => "Message",
        };
        proof {
            reveal_strlit("Payment type");
            reveal_strlit("Recipient name");
            reveal_strlit("IBAN");
            reveal_strlit("Amount");
            reveal_strlit("Currency");
            reveal_strlit("Due date");
            reveal_strlit("Reference");
            reveal_strlit("Variable symbol");
            reveal_strlit("Constant symbol");
            reveal_strlit("Specific symbol");
            reveal_strlit("Message");
        }
        r
    }

    /// The attribute this row feeds, when it maps to one directly.
    pub fn spec_field(self) -> (r: Option<Field>)
        ensures
            r == row_field(self),
    {
        match self {
            Row::Name => Some(Field::CreditorName),
            Row::Iban => Some(Field::Iban),
            Row::Amount => Some(Field::Amount),
            Row::Currency => Some(Field::Currency),
            Row::DueDate => Some(Field::DueDate),
            Row::Reference | Row::Vs | Row::Ks | Row::Ss => Some(Field::PaymentId),
            Row::Message => Some(Field::Message),
            Row::Preset => None,
        }
    }

    pub fn accepts(self) -> (r: Accepts)
        ensures
            r == row_accepts(self),
    {
        match self {
            Row::Iban => Accepts::Iban,
            Row::Amount => Accepts::Amount,
            Row::DueDate => Accepts::Date,
            Row::Vs | Row::Ks | Row::Ss => Accepts::Digits,
            _ => Accepts::Any,
        }
    }

    /// Length limit enforced while typing.
    pub fn max_len(self) -> (r: usize)
        ensures
            r == row_max_len(self),
    {
        match self {
            Row::Preset => 0,
            Row::Iban => 42,
            Row::DueDate => 10,
            Row::Vs | Row::Ss => 10,
            Row::Ks => 4,
            Row::Name => Field::CreditorName.max_len(),
            Row::Amount => Field::Amount.max_len(),
            Row::Currency => Field::Currency.max_len(),
            Row::Reference => Field::PaymentId.max_len(),
            Row::Message => Field::Message.max_len(),
        }
    }

    pub fn hint(self) -> (r: &'static str)
        ensures
            r@ == row_hint(self),
            r@.len() > 0,
    {
        let r = match self {
            Row::Preset => "Left/Right choose the payment context",
            Row::Name => "Beneficiary of the payment (CN)",
            Row::Iban => "IBAN, or a 20-digit Slovak BBAN",
            Row::Amount => "Up to 9 digits, or 7 digits with 1-2 decimals",
            Row::Currency => "Version 2 of the standard only supports EUR",
            Row::DueDate => "YYYY-MM-DD; only person-to-person links carry it",
            Row::Reference => "End-to-end reference (PI); symbols fill it in",
            Row::Vs => "Variable symbol, up to 10 digits",
            Row::Ks => "Constant symbol, up to 4 digits",
            Row::Ss => "Specific symbol, up to 10 digits",
            Row::Message => "Message for the recipient, up to 140 characters",
        };
        proof {
            reveal_strlit("Left/Right choose the payment context");
            reveal_strlit("Beneficiary of the payment (CN)");
            reveal_strlit("IBAN, or a 20-digit Slovak BBAN");
            reveal_strlit("Up to 9 digits, or 7 digits with 1-2 decimals");
            reveal_strlit("Version 2 of the standard only supports EUR");
            reveal_strlit("YYYY-MM-DD; only person-to-person links carry it");
            reveal_strlit("End-to-end reference (PI); symbols fill it in");
            reveal_strlit("Variable symbol, up to 10 digits");
            reveal_strlit("Constant symbol, up to 4 digits");
            reveal_strlit("Specific symbol, up to 10 digits");
            reveal_strlit("Message for the recipient, up to 140 characters");
        }
        r
    }
}

/// The file format a QR code is saved in.
#[derive(Debug, Clone, Copy, PartialEq, Eq, Structural)]
pub enum SaveKind {
    Png,
    Svg,
}

impl SaveKind {
    /// The file name offered when saving.
    pub fn default_path(self) -> (r: &'static str)
        ensures
            r@ == (match self {
                SaveKind::Png => "payme.png"@,
                SaveKind::Svg => "payme.svg"@,
            }),
    {
        match self {
            SaveKind::Png => "payme.png",
            SaveKind::Svg => "payme.svg",
        }
    }

    pub fn label(self) -> (r: &'static str)
        ensures
            r@ == (match self {
                SaveKind::Png => "PNG"@,
                SaveKind::Svg => "SVG"@,
            }),
    {
        match self {
            SaveKind::Png => "PNG",
            SaveKind::Svg => "SVG",
        }
    }
}

#[derive(Debug, Clone, PartialEq, Eq)]
pub enum Mode {
    Edit,
    /// Asking for a file name before writing the QR code.
    Save { kind: SaveKind, path: TextField },
}

#[derive(Debug, Clone, Copy, PartialEq, Eq, Structural)]
pub enum StatusKind {
    Info,
    Success,
    Error,
}

#[derive(Debug, Clone, PartialEq, Eq)]
pub struct Status {
    pub text: String,
    pub kind: StatusKind,
}

/// What the current form produces: either a link and its symbol, or the
/// reasons why it is not a valid payment yet.
#[derive(Debug, Clone)]
pub enum Outcome {
    Ready { url: String, matrix: Matrix },
    Invalid(Vec<FieldError>),
}

/// A remembered recipient offered for the name being typed.
#[derive(Debug, Clone, PartialEq, Eq)]
pub struct Suggestion {
    /// The full remembered name.
    pub name: String,
    /// The part of it still to be typed, drawn after the cursor.
    pub completion: String,
    /// Position among the candidates, for the `2/4` counter.
    pub index: usize,
    pub total: usize,
}

/// What became of a recipient on its way to the history file.
#[derive(Debug, Clone, PartialEq, Eq)]
pub enum Remembered {
    /// Nothing to write: no valid payment, or the history already said this.
    Unchanged,
    Added(String),
    Failed(String),
}

/// A key, as far as the form tells keys apart.
#[derive(Debug, Clone, Copy, PartialEq, Eq, Structural)]
pub enum KeyCode {
    Char(char),
    Esc,
    Enter,
    Tab,
    BackTab,
    Up,
    Down,
    Left,
    Right,
    Home,
    End,
    Backspace,
    Delete,
    /// Any other key, which the form ignores.
    Other,
}

/// A key press (or release) with whether Control was held.
#[derive(Debug, Clone, Copy, PartialEq, Eq, Structural)]
pub struct Key {
    pub code: KeyCode,
    pub ctrl: bool,
    /// A key release, which the form ignores.
    pub release: bool,
}

impl Key {
    /// A key pressed on its own.
    pub fn plain(code: KeyCode) -> (r: Key)
        ensures
            r == (Key { code, ctrl: false, release: false }),
    {
        Key { code, ctrl: false, release: false }
    }

    /// A character typed with Control held.
    pub fn ctrl(c: char) -> (r: Key)
        ensures
            r == (Key { code: KeyCode::Char(c), ctrl: true, release: false }),
    {
        Key { code: KeyCode::Char(c), ctrl: true, release: false }
    }
}

/// A file the caller is asked to write for the form.
#[derive(Debug, Clone, PartialEq, Eq)]
pub enum Effect {
    /// Nothing to write.
    Nothing,
    /// Write `text` to the history file at `path`, creating the directories
    /// it lives in, then report with [`App::history_saved`].
    SaveHistory { path: String, text: String },
    /// Write the QR code on screen to `path` as `kind`, at `scale` pixels or
    /// units per module, then report with [`App::code_written`].
    WriteCode { kind: SaveKind, path: String, scale: u32 },
}

/// What the form does once a requested write is done.
#[derive(Debug, Clone, PartialEq, Eq)]
pub enum After {
    /// Nothing to report.
    Quietly,
    /// The recipient `name` was remembered (Ctrl+R): report it.
    Announce(String),
    /// The recipient `name` was forgotten (Ctrl+D): report it.
    Forgot(String),
    /// The QR code was being written as `kind` to `path`: report it, then
    /// remember the recipient.
    Written(SaveKind, String),
    /// The QR code was written as `kind` to `path` and the recipient `name`
    /// remembered: report both.
    WrittenAndRemembered(SaveKind, String, String),
}

/// What a key does in the form, before anything is done about it.
#[derive(Debug, Clone, Copy, PartialEq, Eq, Structural)]
pub enum EditAction {
    Quit,
    BeginSave(SaveKind),
    ToggleStyle,
    ToggleNormalize,
    Remember,
    Forget,
    /// Take the offered recipient.
    Accept,
    /// Highlight another candidate: forward when `true`.
    Cycle(bool),
    Clear,
    DeleteWord,
    /// Move the focus: down when `true`.
    StepFocus(bool),
    /// Choose another preset: the next one when `true`.
    StepPreset(bool),
    Left,
    Right,
    Home,
    End,
    Backspace,
    Delete,
    Insert(char),
    Ignore,
}

/// Scale chosen so a saved symbol is comfortably scannable from a screen.
pub const SAVE_SCALE: u32 = 8;

pub struct App {
    pub preset: Preset,
    pub focus: usize,
    inputs: Vec<TextField>,
    pub normalize: bool,
    pub style: TerminalStyle,
    pub mode: Mode,
    pub status: Status,
    pub outcome: Outcome,
    pub should_quit: bool,
    /// Recipients from previous sessions, and where they are kept.
    contacts: Contacts,
    contacts_path: Option<String>,
    /// Remembered names that start with what has been typed into the name row.
    candidates: Vec<(String, String)>,
    candidate: usize,
    /// Whether the IBAN on screen was filled in from the history. Only such an
    /// IBAN may be replaced when the name changes; one the user typed is theirs.
    iban_from_history: bool,
    /// What to do once the write last requested is done.
    after: After,
}

/// The outcome as the result `generate` gave.
pub open spec fn outcome_result(o: Outcome) -> Result<(String, Matrix), Vec<FieldError>> {
    match o {
        Outcome::Ready { url, matrix } => Ok((url, matrix)),
        Outcome::Invalid(errors) => Err(errors),
    }
}

/// The errors reported on one field, in order.
pub open spec fn errors_on(es: Seq<FieldError>, f: Field) -> Seq<FieldError>
    decreases es.len(),
{
    if es.len() == 0 {
        seq![]
    } else if es.last().field == f {
        errors_on(es.drop_last(), f).push(es.last())
    } else {
        errors_on(es.drop_last(), f)
    }
}

/// One step around the rows, wrapping at either end.
pub open spec fn next_row(i: int, delta: int) -> int {
    (i + delta) % 11
}

/// Step from row `at` in direction `delta` until a row the type does not
/// omit, trying at most `budget` rows.
pub open spec fn stepped(p: Preset, at: int, delta: int, budget: nat) -> int
    decreases budget,
{
    if budget == 0 {
        at
    } else if !disabled(p, row_at(next_row(at, delta))) {
        next_row(at, delta)
    } else {
        stepped(p, next_row(at, delta), delta, (budget - 1) as nat)
    }
}

/// Where the focus goes from `focus` in direction `delta`: the next row the
/// type does not omit.
pub open spec fn focus_step(p: Preset, focus: int, delta: int) -> int {
    stepped(p, focus, delta, 11)
}

/// Only the due date is ever omitted, by the types other than `/p/`.
proof fn lemma_only_due_date_disabled(p: Preset, r: Row)
    ensures
        disabled(p, r) ==> r == Row::DueDate,
{
}

/// Moving the focus always lands on a row the type does not omit, one of
/// the rows of the form.
pub proof fn lemma_focus_step_enabled(p: Preset, focus: int, delta: int)
    requires
        0 <= focus < 11,
        delta == 1 || delta == -1,
    ensures
        0 <= focus_step(p, focus, delta) < 11,
        !disabled(p, row_at(focus_step(p, focus, delta))),
{
    let n1 = next_row(focus, delta);
    let n2 = next_row(n1, delta);
    lemma_only_due_date_disabled(p, row_at(n1));
    lemma_only_due_date_disabled(p, row_at(n2));
    assert(0 <= n1 < 11);
    assert(0 <= n2 < 11);
    if disabled(p, row_at(n1)) {
        assert(n1 == 5);
        assert(n2 == 4 || n2 == 6);
        assert(stepped(p, n1, delta, 10) == n2);
    }
}

/// The position of a preset among the presets.
pub open spec fn preset_index(p: Preset) -> int {
    match p {
        Preset::P2p => 0,
        Preset::Invoice => 1,
        Preset::Store => 2,
        Preset::Eshop => 3,
        Preset::Donation => 4,
    }
}

/// The preset at a position.
pub open spec fn preset_at(i: int) -> Preset {
    if i == 0 {
        Preset::P2p
    } else if i == 1 {
        Preset::Invoice
    } else if i == 2 {
        Preset::Store
    } else if i == 3 {
        Preset::Eshop
    } else {
        Preset::Donation
    }
}

/// The IBAN the history offers for the name typed: the one remembered under
/// that name, or else that of the only recipient still matching.
pub open spec fn offered_iban(
    history: contacts::Entries,
    name: Seq<char>,
    candidates: contacts::Entries,
) -> Option<Seq<char>> {
    match contacts::iban_of(history, name) {
        Some(v) => Some(v),
        None => if candidates.len() == 1 {
            Some(candidates[0].1)
        } else {
            None
        },
    }
}

/// The text after the first `n` characters.
pub open spec fn rest_after(s: Seq<char>, n: nat) -> Seq<char> {
    if n <= s.len() {
        s.skip(n as int)
    } else {
        seq![]
    }
}

/// The message shown once an offered recipient is taken.
pub open spec fn filled_in_message(name: Seq<char>) -> Seq<char> {
    "Filled in "@ + name + " from the history."@
}

/// What Backspace leaves of an input.
pub open spec fn after_backspace(f: (Seq<char>, nat)) -> Seq<char> {
    if f.1 > 0 {
        f.0.remove(f.1 - 1)
    } else {
        f.0
    }
}

/// What Delete leaves of an input.
pub open spec fn after_delete(f: (Seq<char>, nat)) -> Seq<char> {
    if f.1 < f.0.len() {
        f.0.remove(f.1 as int)
    } else {
        f.0
    }
}

/// What Ctrl+W leaves of an input: the word before the cursor goes, with
/// the white space between it and the cursor.
pub open spec fn after_delete_word(f: (Seq<char>, nat)) -> Seq<char> {
    let head = f.0.take(f.1 as int);
    f.0.take(crate::tui::field::word_start(head) as int) + f.0.skip(f.1 as int)
}

/// A status line as its kind and text.
pub open spec fn status_of(s: Status) -> (StatusKind, Seq<char>) {
    (s.kind, s.text@)
}

/// The label of a file format.
pub open spec fn kind_label(kind: SaveKind) -> Seq<char> {
    match kind {
        SaveKind::Png => "PNG"@,
        SaveKind::Svg => "SVG"@,
    }
}

/// The status line after the history was dealt with: `announce` reports
/// the quiet outcomes too; a failure is always reported.
pub open spec fn remembered_status(
    current: (StatusKind, Seq<char>),
    outcome: Remembered,
    announce: bool,
    ready: bool,
) -> (StatusKind, Seq<char>) {
    match outcome {
        Remembered::Added(name) => if announce {
            (StatusKind::Success, "Remembered "@ + name@ + "."@)
        } else {
            current
        },
        Remembered::Unchanged => if announce {
            (StatusKind::Info, if ready {
                "Already in the history."@
            } else {
                "Fill in the form before remembering the recipient."@
            })
        } else {
            current
        },
        Remembered::Failed(e) => (
            StatusKind::Error,
            "Could not save the recipient history: "@ + e@,
        ),
    }
}

/// The status line once a code was written to `path` and its recipient
/// dealt with.
pub open spec fn saved_status(kind: SaveKind, path: Seq<char>, outcome: Remembered) -> (
    StatusKind,
    Seq<char>,
) {
    let saved = "Saved "@ + kind_label(kind) + " to "@ + path;
    match outcome {
        Remembered::Added(name) => (StatusKind::Success, saved + " \u{25aa} remembered "@ + name@),
        Remembered::Unchanged => (StatusKind::Success, saved),
        Remembered::Failed(e) => (
            StatusKind::Error,
            "Could not save the recipient history: "@ + e@,
        ),
    }
}

/// The status line once remembering, begun for `then`, is done.
pub open spec fn finished_status(
    then: After,
    outcome: Remembered,
    ready: bool,
    current: (StatusKind, Seq<char>),
) -> (StatusKind, Seq<char>) {
    match then {
        After::Written(kind, path) => saved_status(kind, path@, outcome),
        After::WrittenAndRemembered(kind, path, _) => saved_status(kind, path@, outcome),
        After::Quietly => current,
        _ => remembered_status(current, outcome, true, ready),
    }
}

/// What the form waits for once the recipient `name`, remembered for
/// `then`, is being written.
pub open spec fn waiting_for(then: After, name: Seq<char>, after: After) -> bool {
    match then {
        After::Written(kind, path) => after matches After::WrittenAndRemembered(k, p, n) && k
            == kind && p@ == path@ && n@ == name,
        After::Quietly => after == After::Quietly,
        _ => after matches After::Announce(n) && n@ == name,
    }
}

/// The file name being typed, after a key in the save dialog: the usual
/// editing keys, Ctrl+U to clear, any other character typed in.
pub open spec fn path_after(f: (Seq<char>, nat), key: Key) -> (Seq<char>, nat) {
    match key.code {
        KeyCode::Backspace => if f.1 > 0 {
            (f.0.remove(f.1 - 1), (f.1 - 1) as nat)
        } else {
            f
        },
        KeyCode::Delete => if f.1 < f.0.len() {
            (f.0.remove(f.1 as int), f.1)
        } else {
            f
        },
        KeyCode::Left => (f.0, if f.1 > 0 {
            (f.1 - 1) as nat
        } else {
            0nat
        }),
        KeyCode::Right => (f.0, if f.1 < f.0.len() {
            f.1 + 1
        } else {
            f.1
        }),
        KeyCode::Home => (f.0, 0nat),
        KeyCode::End => (f.0, f.0.len()),
        KeyCode::Char(c) => if c == 'u' && key.ctrl {
            (Seq::<char>::empty(), 0nat)
        } else {
            match crate::tui::field::sanitized(c, Accepts::Any, f.0) {
                Some(d) => if f.0.len() >= 255 {
                    f
                } else {
                    (f.0.insert(f.1 as int, d), f.1 + 1)
                },
                None => f,
            }
        },
        _ => f,
    }
}

/// The IBAN on screen was typed by hand.
pub open spec fn iban_typed(v: FormView) -> bool {
    !v.iban_filled && v.text(Row::Iban).len() > 0
}

/// What a key does in the form: Esc and Ctrl+Q/C quit, Ctrl+S/E save as PNG
/// or SVG, Ctrl+P and Ctrl+N toggle the drawing and normalisation, Ctrl+R
/// and Ctrl+D remember and forget the recipient; on the name row with
/// candidates, Ctrl+F, Right at the end and Enter take the offered one, and
/// with several of them Up and Down walk them; Ctrl+U and Ctrl+W clear and
/// delete a word; Tab, Down and Enter move down, BackTab and Up move up;
/// Left and Right choose the preset on its row and move the cursor
/// elsewhere; the rest edit the focused input.
pub open spec fn edit_action(v: FormView, key: Key) -> EditAction {
    let ctrl = key.ctrl;
    let row = v.focused();
    let completing = row == Row::Name && v.candidates.len() > 0;
    let name_at_end = v.inputs[row_index(Row::Name)].1 == v.inputs[row_index(Row::Name)].0.len();
    match key.code {
        KeyCode::Esc => EditAction::Quit,
        KeyCode::Char(c) => if ctrl && (c == 'q' || c == 'c') {
            EditAction::Quit
        } else if ctrl && c == 's' {
            EditAction::BeginSave(SaveKind::Png)
        } else if ctrl && c == 'e' {
            EditAction::BeginSave(SaveKind::Svg)
        } else if ctrl && c == 'p' {
            EditAction::ToggleStyle
        } else if ctrl && c == 'n' {
            EditAction::ToggleNormalize
        } else if ctrl && c == 'r' {
            EditAction::Remember
        } else if ctrl && c == 'd' {
            EditAction::Forget
        } else if ctrl && c == 'f' && completing {
            EditAction::Accept
        } else if ctrl && c == 'u' {
            EditAction::Clear
        } else if ctrl && c == 'w' {
            EditAction::DeleteWord
        } else if !ctrl {
            EditAction::Insert(c)
        } else {
            EditAction::Ignore
        },
        KeyCode::Right => if completing && name_at_end {
            EditAction::Accept
        } else if row == Row::Preset {
            EditAction::StepPreset(true)
        } else {
            EditAction::Right
        },
        KeyCode::Down => if completing && v.candidates.len() > 1 {
            EditAction::Cycle(true)
        } else {
            EditAction::StepFocus(true)
        },
        KeyCode::Up => if completing && v.candidates.len() > 1 {
            EditAction::Cycle(false)
        } else {
            EditAction::StepFocus(false)
        },
        KeyCode::Tab => EditAction::StepFocus(true),
        KeyCode::BackTab => EditAction::StepFocus(false),
        KeyCode::Enter => if completing {
            EditAction::Accept
        } else {
            EditAction::StepFocus(true)
        },
        KeyCode::Left => if row == Row::Preset {
            EditAction::StepPreset(false)
        } else {
            EditAction::Left
        },
        KeyCode::Home => EditAction::Home,
        KeyCode::End => EditAction::End,
        KeyCode::Backspace => EditAction::Backspace,
        KeyCode::Delete => EditAction::Delete,
        _ => EditAction::Ignore,
    }
}

/// The status after an attempt to save without a valid form.
pub open spec fn no_code_message() -> Seq<char> {
    "Fill in the form before saving."@
}

/// How the drawing style reads in the status line.
pub open spec fn style_name(s: TerminalStyle) -> Seq<char> {
    match s {
        TerminalStyle::HalfBlocks => "HalfBlocks"@,
        TerminalStyle::FullBlocks => "FullBlocks"@,
    }
}

/// The recipient a payment goes to, when it validates: the creditor name
/// and the IBAN as they are sent.
pub open spec fn recipient_of(p: Payment) -> Option<(Seq<char>, Seq<char>)> {
    match crate::payment::resolution(p, crate::payment::due_date_of(p)) {
        Ok((_, values)) => match (
            crate::payment::lookup(values, Field::CreditorName),
            crate::payment::lookup(values, Field::Iban),
        ) {
            (Some(n), Some(i)) => Some((n, i)),
            _ => None,
        },
        Err(_) => None,
    }
}

/// Two payments with the same attributes as typed.
pub open spec fn same_form(p: Payment, q: Payment) -> bool {
    &&& p.preset == q.preset
    &&& p.iban@ == q.iban@
    &&& p.creditor_name@ == q.creditor_name@
    &&& p.amount@ == q.amount@
    &&& p.currency@ == q.currency@
    &&& p.due_date@ == q.due_date@
    &&& p.reference@ == q.reference@
    &&& p.message@ == q.message@
    &&& p.normalize_text == q.normalize_text
}

/// Validation reads a payment only through what was typed.
pub proof fn lemma_resolution_by_form(p: Payment, q: Payment)
    requires
        same_form(p, q),
    ensures
        crate::payment::resolution(p, crate::payment::due_date_of(p))
            == crate::payment::resolution(q, crate::payment::due_date_of(q)),
{
    let d = crate::payment::due_date_of(p);
    assert(crate::payment::due_date_of(q) == d);
    assert(crate::payment::iban_attr(p) == crate::payment::iban_attr(q));
    assert(crate::payment::amount_attr(p) == crate::payment::amount_attr(q));
    assert(crate::payment::currency_attr(p, true) == crate::payment::currency_attr(q, true));
    assert(crate::payment::currency_attr(p, false) == crate::payment::currency_attr(q, false));
    assert(crate::payment::due_attr(p, d) == crate::payment::due_attr(q, d));
    assert(crate::payment::text_attr(p, Field::PaymentId, p.reference@) == crate::payment::text_attr(
        q,
        Field::PaymentId,
        q.reference@,
    ));
    assert(crate::payment::payment_id_attr(p) == crate::payment::payment_id_attr(q));
    assert(crate::payment::text_attr(p, Field::Message, p.message@) == crate::payment::text_attr(
        q,
        Field::Message,
        q.message@,
    ));
    assert(crate::payment::text_attr(p, Field::CreditorName, p.creditor_name@)
        == crate::payment::text_attr(q, Field::CreditorName, q.creditor_name@));
    assert(crate::payment::attrs(p, d) =~= crate::payment::attrs(q, d));
}

/// What `generate` yields depends on what was typed, not on how it is held.
pub proof fn lemma_generated_by_form(
    p: Payment,
    q: Payment,
    r: Result<(String, Matrix), Vec<FieldError>>,
)
    requires
        same_form(p, q),
    ensures
        crate::generated(p, r) == crate::generated(q, r),
{
    lemma_resolution_by_form(p, q);
}

/// The state of the form: what is on screen, the remembered recipients and
/// the completion offered from them.
pub struct FormView {
    pub preset: Preset,
    pub focus: int,
    /// The text and cursor of each row's input, top to bottom.
    pub inputs: Seq<(Seq<char>, nat)>,
    pub normalize: bool,
    pub style: TerminalStyle,
    pub mode: Mode,
    pub status: Status,
    pub outcome: Outcome,
    pub should_quit: bool,
    /// The remembered recipients.
    pub history: contacts::Entries,
    /// Where the history is kept, if anywhere.
    pub history_path: Option<Seq<char>>,
    /// The recipients offered for the name typed so far.
    pub candidates: contacts::Entries,
    /// Which of them is highlighted.
    pub candidate: nat,
    /// Whether the IBAN on screen was filled in from the history.
    pub iban_filled: bool,
    /// What the form does once the write last requested is done.
    pub after: After,
}

impl FormView {
    /// The text of a row's input.
    pub open spec fn text(self, row: Row) -> Seq<char> {
        self.inputs[row_index(row)].0
    }

    /// The payment the form describes, as typed.
    pub open spec fn describes(self, p: Payment) -> bool {
        &&& p.preset == self.preset
        &&& p.creditor_name@ == self.text(Row::Name)
        &&& p.iban@ == self.text(Row::Iban)
        &&& p.amount@ == self.text(Row::Amount)
        &&& p.currency@ == self.text(Row::Currency)
        &&& p.due_date@ == self.text(Row::DueDate)
        &&& p.reference@ == self.text(Row::Reference)
        &&& p.message@ == self.text(Row::Message)
        &&& p.normalize_text == self.normalize
    }

    /// The link and symbol on screen are what `generate` makes of the form.
    pub open spec fn outcome_current(self) -> bool {
        forall|p: Payment| #[trigger] self.describes(p) ==> crate::generated(p, outcome_result(self.outcome))
    }

    /// The recipient of the payment on screen, when it validates.
    pub open spec fn recipient(self) -> Option<(Seq<char>, Seq<char>)> {
        recipient_of(choose|p: Payment| self.describes(p))
    }

    /// What remembering the recipient on screen does to the history: whether
    /// it changes, and the history afterwards.
    pub open spec fn remembering(self) -> (bool, contacts::Entries) {
        match self.recipient() {
            Some((n, i)) => contacts::remembered(self.history, n, i),
            None => (false, self.history),
        }
    }

    /// The row the focus is on.
    pub open spec fn focused(self) -> Row {
        row_at(self.focus)
    }

    /// The same form with one row's input replaced.
    pub open spec fn with_input(self, row: Row, input: (Seq<char>, nat)) -> FormView {
        FormView { inputs: self.inputs.update(row_index(row), input), ..self }
    }
}

/// The link stays current while nothing it is built from changes.
pub proof fn lemma_outcome_kept(a: FormView, b: FormView)
    requires
        a.outcome_current(),
        a.inputs.len() == b.inputs.len(),
        forall|r: Row| #[trigger] a.text(r) == b.text(r),
        a.preset == b.preset,
        a.normalize == b.normalize,
        a.outcome == b.outcome,
    ensures
        b.outcome_current(),
{
    assert forall|p: Payment| #[trigger] b.describes(p) implies crate::generated(
        p,
        outcome_result(b.outcome),
    ) by {
        assert(a.text(Row::Name) == b.text(Row::Name));
        assert(a.text(Row::Iban) == b.text(Row::Iban));
        assert(a.text(Row::Amount) == b.text(Row::Amount));
        assert(a.text(Row::Currency) == b.text(Row::Currency));
        assert(a.text(Row::DueDate) == b.text(Row::DueDate));
        assert(a.text(Row::Reference) == b.text(Row::Reference));
        assert(a.text(Row::Message) == b.text(Row::Message));
        assert(a.describes(p));
    }
}

/// Any payment the form describes goes to the form's recipient.
pub proof fn lemma_recipient(v: FormView, p: Payment)
    requires
        v.describes(p),
    ensures
        v.recipient() == recipient_of(p),
{
    let q = choose|q: Payment| v.describes(q);
    assert(v.describes(q));
    lemma_resolution_by_form(p, q);
}

/// Remembering the recipient on screen, with a history that holds each
/// recipient once: a form that does not validate leaves the history as it
/// is, and so does a recipient already there; otherwise the recipient is the
/// creditor name and IBAN the payment transmits (the name as normalisation
/// left it), the history afterwards gives that IBAN for that name, and the
/// text written for it reads back as that history.
pub proof fn lemma_remember_recipient(v: FormView, p: Payment)
    requires
        v.describes(p),
        contacts::valid_entries(v.history),
        contacts::distinct_names(v.history),
    ensures
        crate::payment::resolution(p, crate::payment::due_date_of(p)) is Err ==> v.remembering()
            == (false, v.history),
        !v.remembering().0 ==> v.remembering().1 == v.history,
        v.remembering().0 ==> (match crate::payment::resolution(p, crate::payment::due_date_of(p)) {
            Ok((_, values)) => {
                &&& crate::payment::lookup(values, Field::CreditorName) matches Some(n)
                &&& crate::payment::lookup(values, Field::Iban) matches Some(i)
                &&& contacts::iban_of(v.remembering().1, n) == Some(i)
                &&& contacts::distinct_names(v.remembering().1)
                &&& contacts::parsed(contacts::yaml_text(v.remembering().1)) == v.remembering().1
            },
            Err(_) => false,
        }),
{
    lemma_recipient(v, p);
    let d = crate::payment::due_date_of(p);
    if let Some((n, i)) = recipient_of(p) {
        if v.remembering().0 {
            crate::payment::lemma_resolution_meets_standard(p, d);
            assert(crate::iban::looks_like_iban(i));
            assert forall|k: int| 0 <= k < i.len() implies !crate::strings::is_white_space(
                #[trigger] i[k],
            ) by {
                if k >= 4 {
                    assert(crate::strings::is_alphanumeric(i[k]));
                }
            }
            contacts::lemma_collapsed_plain(i);
            contacts::lemma_remember_then_lookup(v.history, n, i);
            contacts::lemma_yaml_round_trip(v.remembering().1);
        }
    }
}

impl View for App {
    type V = FormView;

    closed spec fn view(&self) -> FormView {
        FormView {
            preset: self.preset,
            focus: self.focus as int,
            inputs: self.inputs@.map_values(|f: TextField| f@),
            normalize: self.normalize,
            style: self.style,
            mode: self.mode,
            status: self.status,
            outcome: self.outcome,
            should_quit: self.should_quit,
            history: self.contacts@,
            history_path: match self.contacts_path {
                Some(p) => Some(p@),
                None => None,
            },
            candidates: contacts::entries_view(self.candidates@),
            candidate: self.candidate as nat,
            iban_filled: self.iban_from_history,
            after: self.after,
        }
    }
}

impl App {
    /// The form is consistent: a focus on one of its rows, an input per row,
    /// each with its cursor in place, a highlight among the candidates, and a
    /// well-formed history.
    pub closed spec fn wf(&self) -> bool {
        &&& self.focus < 11
        &&& self.inputs@.len() == 11
        &&& forall|i: int| 0 <= i < 11 ==> (#[trigger] self.inputs@[i]).wf()
        &&& (self.candidates@.len() == 0 ==> self.candidate == 0)
        &&& (self.candidates@.len() > 0 ==> self.candidate < self.candidates@.len())
        &&& self.contacts.wf()
        &&& (self.mode matches Mode::Save { path, .. } ==> path.wf())
    }

    /// Build the form over a given recipient history and the file it is kept
    /// in. Taking them as arguments keeps the form off the disk.
    pub fn with_history(contacts: Contacts, contacts_path: Option<String>) -> (r: App)
        requires
            contacts.wf(),
        ensures
            r.wf(),
            r@.preset == Preset::P2p,
            r@.focus == row_index(Row::Name),
            forall|row: Row| row != Row::Currency ==> #[trigger] r@.inputs[row_index(row)] == (
            Seq::<char>::empty(), 0nat),
            r@.inputs[row_index(Row::Currency)] == ("EUR"@, 0nat),
            r@.normalize,
            r@.style == TerminalStyle::HalfBlocks,
            r@.mode == Mode::Edit,
            r@.status.kind == StatusKind::Info && r@.status.text@.len() == 0,
            !r@.should_quit,
            r@.history == contacts@,
            r@.history_path == (match contacts_path {
                Some(p) => Some(p@),
                None => None::<Seq<char>>,
            }),
            r@.candidates.len() == 0,
            !r@.iban_filled,
            r@.outcome_current(),
    {
        let mut inputs: Vec<TextField> = Vec::new();
        for i in 0..11usize
            invariant
                inputs@.len() == i,
                forall|k: int| 0 <= k < i ==> (#[trigger] inputs@[k])@ == (Seq::<char>::empty(), 0nat),
        {
            inputs.push(TextField::default());
        }
        let mut app = App {
            preset: Preset::P2p,
            focus: Row::Name.index(),
            inputs,
            normalize: true,
            style: TerminalStyle::HalfBlocks,
            mode: Mode::Edit,
            status: Status { text: String::new(), kind: StatusKind::Info },
            outcome: Outcome::Invalid(Vec::new()),
            should_quit: false,
            contacts,
            contacts_path,
            candidates: Vec::new(),
            candidate: 0,
            iban_from_history: false,
            after: After::Quietly,
        };
        app.set_input(Row::Currency, crate::spec::CURRENCY_EUR);
        proof {
            reveal_strlit("EUR");
        }
        app.recompute();
        app
    }

    /// Replace the text of a row's input.
    fn set_input(&mut self, row: Row, value: &str)
        requires
            old(self).wf(),
        ensures
            final(self).wf(),
            final(self)@ == old(self)@.with_input(
                row,
                (value@, crate::tui::field::chars_within(
                    value@,
                    crate::tui::field::byte_len(
                        old(self)@.inputs[row_index(row)].0.take(
                            old(self)@.inputs[row_index(row)].1 as int,
                        ),
                    ) as int,
                )),
            ),
    {
        let i = row.index();
        let mut field = TextField::default();
        std::mem::swap(&mut field, &mut self.inputs[i]);
        field.set(value);
        self.inputs.set(i, field);
        assert(self@.inputs =~= old(self)@.inputs.update(i as int, field@));
    }

    /// The position of the focused row.
    pub fn focus_index(&self) -> (r: usize)
        ensures
            r == self@.focus,
    {
        self.focus
    }

    /// Whether the form is being edited rather than asking for a file name.
    pub fn is_editing(&self) -> (r: bool)
        ensures
            r == (self@.mode == Mode::Edit),
    {
        match self.mode {
            Mode::Edit => true,
            Mode::Save { .. } => false,
        }
    }

    pub fn current_preset(&self) -> (r: Preset)
        ensures
            r == self@.preset,
    {
        self.preset
    }

    pub fn current_status(&self) -> (r: &Status)
        ensures
            *r == self@.status,
    {
        &self.status
    }

    pub fn normalizing(&self) -> (r: bool)
        ensures
            r == self@.normalize,
    {
        self.normalize
    }

    pub fn current_outcome(&self) -> (r: &Outcome)
        ensures
            *r == self@.outcome,
    {
        &self.outcome
    }

    pub fn input(&self, row: Row) -> (r: &TextField)
        requires
            self.wf(),
        ensures
            r@ == self@.inputs[row_index(row)],
            r.wf(),
    {
        &self.inputs[row.index()]
    }

    pub fn focused_row(&self) -> (r: Row)
        requires
            self.wf(),
        ensures
            r == self@.focused(),
    {
        Row::at(self.focus)
    }

    /// Rows whose attribute the current type omits are shown but skipped over.
    pub fn is_disabled(&self, row: Row) -> (r: bool)
        ensures
            r == disabled(self@.preset, row),
    {
        match row.spec_field() {
            Some(field) => self.preset.requirement(field) == Requirement::Omitted,
            None => false,
        }
    }

    pub fn requirement(&self, row: Row) -> (r: Option<Requirement>)
        ensures
            r == (match row_field(row) {
                Some(f) => Some(requirement_of(self@.preset, f)),
                None => None,
            }),
    {
        match row.spec_field() {
            Some(field) => Some(self.preset.requirement(field)),
            None => None,
        }
    }

    /// Errors attached to a row, so they can be shown next to the input. The
    /// symbols share one attribute, whose errors belong on the reference row.
    pub fn errors_for(&self, row: Row) -> (r: Vec<&FieldError>)
        ensures
            r@.map_values(|e: &FieldError| *e) == (match (self@.outcome, row_field(row)) {
                (Outcome::Invalid(es), Some(f)) => if row == Row::Vs || row == Row::Ks || row
                    == Row::Ss {
                    Seq::<FieldError>::empty()
                } else {
                    errors_on(es@, f)
                },
                _ => Seq::<FieldError>::empty(),
            }),
    {
        let mut out: Vec<&FieldError> = Vec::new();
        let errors = match &self.outcome {
            Outcome::Invalid(errors) => errors,
            Outcome::Ready { .. } => {
                assert(out@.map_values(|e: &FieldError| *e) =~= Seq::<FieldError>::empty());
                return out;
            },
        };
        let field = match row.spec_field() {
            Some(f) => f,
            None => {
                assert(out@.map_values(|e: &FieldError| *e) =~= Seq::<FieldError>::empty());
                return out;
            },
        };
        if row == Row::Vs || row == Row::Ks || row == Row::Ss {
            assert(out@.map_values(|e: &FieldError| *e) =~= Seq::<FieldError>::empty());
            return out;
        }
        for i in 0..errors.len()
            invariant
                out@.map_values(|e: &FieldError| *e) == errors_on(errors@.take(i as int), field),
        {
            assert(errors@.take(i + 1).drop_last() =~= errors@.take(i as int));
            let ghost before = out@;
            if errors[i].field == field {
                out.push(&errors[i]);
                assert(out@.map_values(|e: &FieldError| *e) =~= before.map_values(
                    |e: &FieldError| *e,
                ).push(errors@[i as int]));
            }
        }
        assert(errors@.take(errors@.len() as int) =~= errors@);
        out
    }

    /// The Slovak payment symbols as typed.
    pub fn symbols(&self) -> (r: Symbols)
        requires
            self.wf(),
        ensures
            r.vs@ == self@.text(Row::Vs),
            r.ss@ == self@.text(Row::Ss),
            r.ks@ == self@.text(Row::Ks),
    {
        Symbols {
            vs: owned(self.input(Row::Vs).as_str()),
            ss: owned(self.input(Row::Ss).as_str()),
            ks: owned(self.input(Row::Ks).as_str()),
        }
    }

    /// The payment the form describes.
    pub fn payment(&self) -> (r: Payment)
        requires
            self.wf(),
        ensures
            self@.describes(r),
    {
        Payment {
            preset: self.preset,
            creditor_name: owned(self.input(Row::Name).as_str()),
            iban: owned(self.input(Row::Iban).as_str()),
            amount: owned(self.input(Row::Amount).as_str()),
            currency: owned(self.input(Row::Currency).as_str()),
            due_date: owned(self.input(Row::DueDate).as_str()),
            reference: owned(self.input(Row::Reference).as_str()),
            message: owned(self.input(Row::Message).as_str()),
            normalize_text: self.normalize,
        }
    }

    /// Rebuild the link and the symbol from the current form.
    pub fn recompute(&mut self)
        requires
            old(self).wf(),
        ensures
            final(self).wf(),
            final(self)@.outcome_current(),
            final(self)@ == (FormView { outcome: final(self)@.outcome, ..old(self)@ }),
    {
        let p = self.payment();
        let r = crate::generate(&p);
        self.outcome = match r {
            Ok((url, matrix)) => Outcome::Ready { url, matrix },
            Err(errors) => Outcome::Invalid(errors),
        };
        proof {
            assert(outcome_result(self.outcome) == r);
            assert forall|q: Payment| #[trigger] self@.describes(q) implies crate::generated(
                q,
                outcome_result(self@.outcome),
            ) by {
                lemma_generated_by_form(p, q, r);
            }
        }
    }

    /// Whether the IBAN on screen came from the history rather than the keyboard.
    pub fn iban_from_history(&self) -> (r: bool)
        requires
            self.wf(),
        ensures
            r == (self@.iban_filled && self@.text(Row::Iban).len() > 0),
    {
        self.iban_from_history && !self.input(Row::Iban).is_empty()
    }

    fn set_status(&mut self, kind: StatusKind, text: String)
        requires
            old(self).wf(),
        ensures
            final(self).wf(),
            final(self)@ == (FormView { status: Status { text, kind }, ..old(self)@ }),
    {
        self.status = Status { text, kind };
    }

    // -- navigation ------------------------------------------------------

    /// Move the focus to the next row in direction `delta` that the type
    /// does not omit.
    pub fn step_focus(&mut self, delta: isize)
        requires
            old(self).wf(),
            delta == 1 || delta == -1,
        ensures
            final(self).wf(),
            final(self)@ == (FormView {
                focus: focus_step(old(self)@.preset, old(self)@.focus, delta as int),
                ..old(self)@
            }),
    {
        let mut next: usize = self.focus;
        let mut budget: usize = 11;
        loop
            invariant_except_break
                next < 11,
                budget <= 11,
                delta == 1 || delta == -1,
                focus_step(self@.preset, self@.focus, delta as int) == stepped(
                    self@.preset,
                    next as int,
                    delta as int,
                    budget as nat,
                ),
            ensures
                next < 11,
                focus_step(self@.preset, self@.focus, delta as int) == next,
            decreases budget,
        {
            if budget == 0 {
                break;
            }
            let prev = next;
            next = if delta == 1 {
                if next == 10 {
                    0
                } else {
                    next + 1
                }
            } else {
                if next == 0 {
                    10
                } else {
                    next - 1
                }
            };
            assert(next == next_row(prev as int, delta as int));
            budget -= 1;
            if !self.is_disabled(Row::at(next)) {
                break;
            }
        }
        self.focus = next;
    }

    /// Move to the next preset in direction `delta`. The new type may omit
    /// the row in focus, in which case the focus moves on.
    fn step_preset(&mut self, delta: isize)
        requires
            old(self).wf(),
            delta == 1 || delta == -1,
        ensures
            final(self).wf(),
            final(self)@.preset == preset_at((preset_index(old(self)@.preset) + delta) % 5),
            final(self)@.focus == (if disabled(final(self)@.preset, old(self)@.focused()) {
                focus_step(final(self)@.preset, old(self)@.focus, 1)
            } else {
                old(self)@.focus
            }),
            final(self)@.outcome_current(),
            final(self)@ == (FormView {
                preset: final(self)@.preset,
                focus: final(self)@.focus,
                outcome: final(self)@.outcome,
                ..old(self)@
            }),
    {
        let at: usize = match self.preset {
            Preset::P2p => 0,
            Preset::Invoice => 1,
            Preset::Store => 2,
            Preset::Eshop => 3,
            Preset::Donation => 4,
        };
        let next: usize = if delta == 1 {
            if at == 4 {
                0
            } else {
                at + 1
            }
        } else {
            if at == 0 {
                4
            } else {
                at - 1
            }
        };
        self.preset = if next == 0 {
            Preset::P2p
        } else if next == 1 {
            Preset::Invoice
        } else if next == 2 {
            Preset::Store
        } else if next == 3 {
            Preset::Eshop
        } else {
            Preset::Donation
        };
        if self.is_disabled(self.focused_row()) {
            self.step_focus(1);
        }
        self.recompute();
    }

    // -- symbol synchronisation -----------------------------------------

    /// The symbols drive the reference, as on the payme.sk form.
    fn sync_reference_from_symbols(&mut self)
        requires
            old(self).wf(),
        ensures
            final(self).wf(),
            final(self)@.text(Row::Reference) == reference::reference_of(
                old(self)@.text(Row::Vs),
                old(self)@.text(Row::Ss),
                old(self)@.text(Row::Ks),
            ),
            final(self)@ == (FormView { inputs: final(self)@.inputs, ..old(self)@ }),
            forall|r: Row|
                r != Row::Reference ==> #[trigger] final(self)@.inputs[row_index(r)]
                    == old(self)@.inputs[row_index(r)],
    {
        let reference = reference::build(&self.symbols());
        self.set_input(Row::Reference, reference.as_str());
    }

    /// A reference typed by hand is parsed back into the symbols.
    fn sync_symbols_from_reference(&mut self)
        requires
            old(self).wf(),
        ensures
            final(self).wf(),
            (final(self)@.text(Row::Vs), final(self)@.text(Row::Ss), final(self)@.text(Row::Ks))
                == reference::symbols_in(old(self)@.text(Row::Reference)),
            final(self)@ == (FormView { inputs: final(self)@.inputs, ..old(self)@ }),
            forall|r: Row|
                r != Row::Vs && r != Row::Ss && r != Row::Ks ==> #[trigger] final(self)@.inputs[row_index(r)]
                    == old(self)@.inputs[row_index(r)],
    {
        let parsed = reference::parse(self.input(Row::Reference).as_str());
        self.set_input(Row::Vs, parsed.vs.as_str());
        self.set_input(Row::Ss, parsed.ss.as_str());
        self.set_input(Row::Ks, parsed.ks.as_str());
    }

    // -- remembered recipients -------------------------------------------

    /// The completion to draw after the name being typed, if any is left.
    pub fn suggestion(&self) -> (r: Option<Suggestion>)
        requires
            self.wf(),
        ensures
            match r {
                Some(s) => {
                    &&& self@.mode == Mode::Edit
                    &&& self@.focused() == Row::Name
                    &&& self@.candidate < self@.candidates.len()
                    &&& s.name@ == self@.candidates[self@.candidate as int].0
                    &&& s.completion@ == rest_after(
                        self@.candidates[self@.candidate as int].0,
                        self@.text(Row::Name).len(),
                    )
                    &&& s.index == self@.candidate
                    &&& s.total == self@.candidates.len()
                },
                None => self@.mode != Mode::Edit || self@.focused() != Row::Name
                    || self@.candidates.len() == 0,
            },
    {
        match self.mode {
            Mode::Edit => {},
            _ => return None,
        }
        if self.focused_row() != Row::Name {
            return None;
        }
        if self.candidate >= self.candidates.len() {
            return None;
        }
        proof {
            contacts::lemma_entries_view(self.candidates@);
        }
        let name = &self.candidates[self.candidate].0;
        let typed = to_chars(self.input(Row::Name).as_str()).len();
        let chars = to_chars(name.as_str());
        let completion = if typed <= chars.len() {
            let rest = crate::strings::slice_of(chars.as_slice(), typed, chars.len());
            assert(rest@ =~= chars@.skip(typed as int));
            from_chars(rest.as_slice())
        } else {
            String::new()
        };
        Some(
            Suggestion {
                name: name.clone(),
                completion,
                index: self.candidate,
                total: self.candidates.len(),
            },
        )
    }

    /// Recompute the candidates for the name typed so far. The highlight goes
    /// back to the best match on every edit, so cycling never outlives the
    /// prefix it was cycling through.
    fn update_candidates(&mut self)
        requires
            old(self).wf(),
        ensures
            final(self).wf(),
            final(self)@.candidates == contacts::completions(
                old(self)@.history,
                old(self)@.text(Row::Name),
            ),
            final(self)@.candidate == 0,
            final(self)@ == (FormView {
                candidates: final(self)@.candidates,
                candidate: 0,
                inputs: final(self)@.inputs,
                iban_filled: final(self)@.iban_filled,
                ..old(self)@
            }),
            Self::iban_filling(
                old(self)@,
                final(self)@.candidates,
                final(self)@.inputs,
                final(self)@.iban_filled,
            ),
    {
        let found = self.contacts.matches(self.input(Row::Name).as_str());
        let mut owned_pairs: Vec<(String, String)> = Vec::new();
        for i in 0..found.len()
            invariant
                contacts::entries_view(owned_pairs@) == contacts::pairs_of(found@).take(i as int),
        {
            let ghost before = owned_pairs@;
            let pair = (owned(found[i].0), owned(found[i].1));
            owned_pairs.push(pair);
            proof {
                contacts::lemma_entries_view(before);
                contacts::lemma_entries_view(owned_pairs@);
                assert(contacts::entries_view(owned_pairs@) =~= contacts::entries_view(before).push(
                    (pair.0@, pair.1@),
                ));
                assert(contacts::pairs_of(found@)[i as int] == (found@[i as int].0@, found@[i as int].1@));
            }
            assert(contacts::entries_view(owned_pairs@) =~= contacts::pairs_of(found@).take(
                i + 1,
            ));
        }
        assert(contacts::pairs_of(found@).take(found@.len() as int) =~= contacts::pairs_of(found@));
        self.candidates = owned_pairs;
        self.candidate = 0;
        self.fill_iban_from_history();
    }

    /// How the IBAN follows the name: an IBAN typed by hand stays; otherwise
    /// the one the history offers is filled in, and when nothing is offered
    /// an IBAN filled in earlier is taken back.
    pub open spec fn iban_filling(
        old: FormView,
        candidates: contacts::Entries,
        inputs: Seq<(Seq<char>, nat)>,
        filled: bool,
    ) -> bool {
        let iban = old.inputs[row_index(Row::Iban)];
        let other_rows_kept = forall|r: Row|
            r != Row::Iban ==> #[trigger] inputs[row_index(r)] == old.inputs[row_index(r)];
        &&& inputs.len() == old.inputs.len()
        &&& other_rows_kept
        &&& if !old.iban_filled && iban.0.len() > 0 {
            inputs == old.inputs && filled == old.iban_filled
        } else {
            match offered_iban(old.history, old.text(Row::Name), candidates) {
                Some(v) => filled && inputs[row_index(Row::Iban)].0 == v && (iban.0 == v
                    ==> inputs[row_index(Row::Iban)] == iban),
                None => if old.iban_filled {
                    !filled && inputs[row_index(Row::Iban)] == (Seq::<char>::empty(), 0nat)
                } else {
                    inputs == old.inputs && !filled
                },
            }
        }
    }

    /// Bring in the IBAN that goes with the name as soon as it is
    /// unambiguous: the name is one we know, or only one remembered name
    /// still matches.
    fn fill_iban_from_history(&mut self)
        requires
            old(self).wf(),
        ensures
            final(self).wf(),
            final(self)@ == (FormView {
                inputs: final(self)@.inputs,
                iban_filled: final(self)@.iban_filled,
                ..old(self)@
            }),
            Self::iban_filling(
                old(self)@,
                old(self)@.candidates,
                final(self)@.inputs,
                final(self)@.iban_filled,
            ),
    {
        if !self.iban_from_history && !self.input(Row::Iban).is_empty() {
            assert(self@.inputs =~= old(self)@.inputs);
            return;
        }
        proof {
            contacts::lemma_entries_view(self.candidates@);
        }
        let offered: Option<String> = match self.contacts.iban_for(self.input(Row::Name).as_str()) {
            Some(v) => Some(owned(v)),
            None => if self.candidates.len() == 1 {
                Some(self.candidates[0].1.clone())
            } else {
                None
            },
        };
        match offered {
            Some(iban) => {
                let same = crate::strings::chars_eq_str(
                    to_chars(self.input(Row::Iban).as_str()).as_slice(),
                    iban.as_str(),
                );
                if !same {
                    self.set_input(Row::Iban, iban.as_str());
                } else {
                    assert(self@.inputs =~= old(self)@.inputs);
                }
                self.iban_from_history = true;
            },
            None => {
                if self.iban_from_history {
                    let i = Row::Iban.index();
                    let mut field = TextField::default();
                    std::mem::swap(&mut field, &mut self.inputs[i]);
                    field.clear();
                    self.inputs.set(i, field);
                    self.iban_from_history = false;
                    assert(self@.inputs =~= old(self)@.inputs.update(
                        row_index(Row::Iban),
                        (Seq::<char>::empty(), 0nat),
                    ));
                } else {
                    assert(self@.inputs =~= old(self)@.inputs);
                }
            },
        }
    }

    /// Highlight the next (or previous) candidate, wrapping around.
    fn cycle_candidate(&mut self, delta: isize)
        requires
            old(self).wf(),
            delta == 1 || delta == -1,
        ensures
            final(self).wf(),
            final(self)@ == (FormView {
                candidate: if old(self)@.candidates.len() < 2 {
                    old(self)@.candidate
                } else {
                    ((old(self)@.candidate + delta) % (old(self)@.candidates.len() as int)) as nat
                },
                ..old(self)@
            }),
    {
        let n = self.candidates.len();
        if n < 2 {
            return;
        }
        proof {
            contacts::lemma_entries_view(self.candidates@);
        }
        let c = self.candidate;
        if delta == 1 {
            self.candidate = if c + 1 == n {
                0
            } else {
                c + 1
            };
            proof {
                if c + 1 < n {
                    vstd::arithmetic::div_mod::lemma_small_mod((c + 1) as nat, n as nat);
                } else {
                    vstd::arithmetic::div_mod::lemma_mod_self_0(n as int);
                }
            }
        } else {
            self.candidate = if c == 0 {
                n - 1
            } else {
                c - 1
            };
            proof {
                if c > 0 {
                    vstd::arithmetic::div_mod::lemma_small_mod((c - 1) as nat, n as nat);
                } else {
                    assert((-1int) % (n as int) == n - 1) by (nonlinear_arith)
                        requires
                            n >= 2,
                    ;
                }
            }
        }
    }

    /// Take the offered recipient: their full name and their IBAN.
    fn accept_suggestion(&mut self)
        requires
            old(self).wf(),
        ensures
            final(self).wf(),
            old(self)@.candidates.len() == 0 ==> final(self)@ == old(self)@,
            old(self)@.candidates.len() > 0 ==> {
                let (name, iban) = old(self)@.candidates[old(self)@.candidate as int];
                &&& final(self)@.text(Row::Name) == name
                &&& final(self)@.inputs[row_index(Row::Name)].1 == name.len()
                &&& final(self)@.text(Row::Iban) == iban
                &&& final(self)@.iban_filled
                &&& final(self)@.candidates.len() == 0
                &&& final(self)@.candidate == 0
                &&& final(self)@.outcome_current()
                &&& final(self)@.status == Status {
                    text: final(self)@.status.text,
                    kind: StatusKind::Info,
                }
                &&& final(self)@.status.text@ == filled_in_message(name)
                &&& forall|r: Row|
                    r != Row::Name && r != Row::Iban ==> #[trigger] final(self)@.inputs[row_index(r)]
                        == old(self)@.inputs[row_index(r)]
                &&& final(self)@ == (FormView {
                    inputs: final(self)@.inputs,
                    iban_filled: true,
                    candidates: final(self)@.candidates,
                    candidate: 0,
                    outcome: final(self)@.outcome,
                    status: final(self)@.status,
                    ..old(self)@
                })
            },
    {
        if self.candidate >= self.candidates.len() {
            return;
        }
        proof {
            contacts::lemma_entries_view(self.candidates@);
        }
        let name = self.candidates[self.candidate].0.clone();
        let iban = self.candidates[self.candidate].1.clone();
        let i = Row::Name.index();
        let mut field = TextField::default();
        std::mem::swap(&mut field, &mut self.inputs[i]);
        field.set(name.as_str());
        field.end();
        self.inputs.set(i, field);
        assert(self@.inputs =~= old(self)@.inputs.update(i as int, field@));
        let ghost mid = self@;
        self.set_input(Row::Iban, iban.as_str());
        assert(self@.inputs[row_index(Row::Name)] == mid.inputs[row_index(Row::Name)]);
        self.iban_from_history = true;
        self.candidates = Vec::new();
        self.candidate = 0;
        self.recompute();
        let ghost after_recompute = self@;
        let mut text: Vec<char> = Vec::new();
        push_str(&mut text, "Filled in ");
        push_str(&mut text, name.as_str());
        push_str(&mut text, " from the history.");
        self.set_status(StatusKind::Info, from_chars(text.as_slice()));
        assert(contacts::entries_view(self.candidates@) =~= Seq::<(Seq<char>, Seq<char>)>::empty());
        proof {
            lemma_outcome_kept(after_recompute, self@);
        }
    }

    /// What an edit of a row brings along: the symbols and the reference
    /// follow each other, the name brings its candidates and IBAN, an IBAN
    /// typed over an offered one becomes the user's own; then the link is
    /// rebuilt.
    fn after_edit(&mut self, row: Row)
        requires
            old(self).wf(),
        ensures
            final(self).wf(),
            Self::followed(old(self)@, row, final(self)@),
            final(self)@.outcome_current(),
            (row == Row::Vs || row == Row::Ks || row == Row::Ss) ==> final(self)@.text(
                Row::Reference,
            ) == reference::reference_of(
                old(self)@.text(Row::Vs),
                old(self)@.text(Row::Ss),
                old(self)@.text(Row::Ks),
            ),
            row == Row::Reference ==> (
                final(self)@.text(Row::Vs),
                final(self)@.text(Row::Ss),
                final(self)@.text(Row::Ks),
            ) == reference::symbols_in(old(self)@.text(Row::Reference)),
            row == Row::Name ==> final(self)@.candidates == contacts::completions(
                old(self)@.history,
                old(self)@.text(Row::Name),
            ) && final(self)@.candidate == 0 && Self::iban_filling(
                old(self)@,
                final(self)@.candidates,
                final(self)@.inputs,
                final(self)@.iban_filled,
            ),
            row == Row::Iban ==> !final(self)@.iban_filled,
            row != Row::Vs && row != Row::Ks && row != Row::Ss && row != Row::Reference && row
                != Row::Name ==> final(self)@.inputs == old(self)@.inputs,
            (row == Row::Vs || row == Row::Ks || row == Row::Ss) ==> final(self)@.text(Row::Vs)
                == old(self)@.text(Row::Vs) && final(self)@.text(Row::Ss) == old(self)@.text(Row::Ss)
                && final(self)@.text(Row::Ks) == old(self)@.text(Row::Ks),
            row == Row::Reference ==> final(self)@.text(Row::Reference) == old(self)@.text(
                Row::Reference,
            ),
            row != Row::Name ==> final(self)@.candidates == old(self)@.candidates
                && final(self)@.candidate == old(self)@.candidate,
            row != Row::Name && row != Row::Iban ==> final(self)@.iban_filled
                == old(self)@.iban_filled,
            row != Row::Name ==> final(self)@.inputs[row_index(Row::Iban)] == old(
                self,
            )@.inputs[row_index(Row::Iban)],
            final(self)@.text(Row::Name) == old(self)@.text(Row::Name),
            final(self)@ == (FormView {
                inputs: final(self)@.inputs,
                candidates: final(self)@.candidates,
                candidate: final(self)@.candidate,
                iban_filled: final(self)@.iban_filled,
                outcome: final(self)@.outcome,
                ..old(self)@
            }),
    {
        match row {
            Row::Vs | Row::Ks | Row::Ss => self.sync_reference_from_symbols(),
            Row::Reference => self.sync_symbols_from_reference(),
            Row::Name => self.update_candidates(),
            Row::Iban => self.iban_from_history = false,
            _ => {},
        }
        self.recompute();
    }

    // -- the history on disk ------------------------------------------------

    /// The file the history is kept in, with the text to write there.
    fn history_effect(&self) -> (r: Effect)
        requires
            self.wf(),
            self@.history_path is Some,
        ensures
            r matches Effect::SaveHistory { path, text } && Some(path@) == self@.history_path
                && text@ == contacts::yaml_text(self@.history),
    {
        let path = match &self.contacts_path {
            Some(p) => p.clone(),
            None => String::new(),
        };
        Effect::SaveHistory { path, text: self.contacts.to_yaml() }
    }

    /// Add the recipient of the payment now on screen to the history, then
    /// carry on with `then` once it is written -- or at once, when there is
    /// nothing to write.
    fn remember_then(&mut self, then: After) -> (r: Effect)
        requires
            old(self).wf(),
        ensures
            final(self).wf(),
            final(self)@.history == old(self)@.remembering().1,
            r is SaveHistory <==> (old(self)@.remembering().0 && old(self)@.history_path is Some),
            r is Nothing || r is SaveHistory,
            r matches Effect::SaveHistory { path, text } ==> Some(path@) == final(self)@.history_path
                && text@ == contacts::yaml_text(final(self)@.history),
            final(self)@ == (FormView {
                history: final(self)@.history,
                status: final(self)@.status,
                after: final(self)@.after,
                ..old(self)@
            }),
            r is Nothing ==> final(self)@.after == After::Quietly && status_of(final(self)@.status)
                == finished_status(
                then,
                Remembered::Unchanged,
                old(self)@.outcome is Ready,
                status_of(old(self)@.status),
            ),
            r is SaveHistory ==> {
                &&& final(self)@.status == old(self)@.status
                &&& old(self)@.recipient() matches Some((n, _)) && waiting_for(
                    then,
                    n,
                    final(self)@.after,
                )
            },
    {
        let p = self.payment();
        proof {
            lemma_recipient(self@, p);
        }
        let resolved = match p.resolve() {
            Ok(r) => r,
            Err(_) => {
                self.finish_remember(then, Remembered::Unchanged);
                return Effect::Nothing;
            },
        };
        let name = match resolved.get(Field::CreditorName) {
            Some(n) => owned(n),
            None => {
                self.finish_remember(then, Remembered::Unchanged);
                return Effect::Nothing;
            },
        };
        let iban = match resolved.get(Field::Iban) {
            Some(i) => owned(i),
            None => {
                self.finish_remember(then, Remembered::Unchanged);
                return Effect::Nothing;
            },
        };
        if !self.contacts.remember(name.as_str(), iban.as_str()) {
            self.finish_remember(then, Remembered::Unchanged);
            return Effect::Nothing;
        }
        // With nowhere to write it -- no home directory -- the recipient still
        // completes for the rest of this session, quietly.
        if self.contacts_path.is_none() {
            self.finish_remember(then, Remembered::Unchanged);
            return Effect::Nothing;
        }
        self.after = match then {
            After::Written(kind, path) => After::WrittenAndRemembered(kind, path, name),
            After::Quietly => After::Quietly,
            _ => After::Announce(name),
        };
        self.history_effect()
    }

    /// Add the recipient of the payment now on screen to the history file.
    /// Called when a code is actually produced, never on every keystroke.
    pub fn remember_recipient(&mut self) -> (r: Effect)
        requires
            old(self).wf(),
        ensures
            final(self).wf(),
            final(self)@.history == old(self)@.remembering().1,
            r is SaveHistory <==> (old(self)@.remembering().0 && old(self)@.history_path is Some),
            r matches Effect::SaveHistory { path, text } ==> Some(path@) == final(self)@.history_path
                && text@ == contacts::yaml_text(final(self)@.history),
            final(self)@ == (FormView {
                history: final(self)@.history,
                status: final(self)@.status,
                after: final(self)@.after,
                ..old(self)@
            }),
    {
        self.remember_then(After::Quietly)
    }

    /// Report what became of the recipient once remembering is done.
    fn finish_remember(&mut self, then: After, outcome: Remembered)
        requires
            old(self).wf(),
        ensures
            final(self).wf(),
            final(self)@ == (FormView {
                status: final(self)@.status,
                after: After::Quietly,
                ..old(self)@
            }),
            status_of(final(self)@.status) == finished_status(
                then,
                outcome,
                old(self)@.outcome is Ready,
                status_of(old(self)@.status),
            ),
    {
        self.after = After::Quietly;
        match then {
            After::Written(kind, path) => self.report_saved(kind, path, outcome),
            After::WrittenAndRemembered(kind, path, _) => self.report_saved(kind, path, outcome),
            After::Quietly => {},
            _ => self.report_remembered(outcome, true),
        }
    }

    /// Report the code written to `path`, and what became of its recipient.
    fn report_saved(&mut self, kind: SaveKind, path: String, outcome: Remembered)
        requires
            old(self).wf(),
        ensures
            final(self).wf(),
            final(self)@ == (FormView { status: final(self)@.status, ..old(self)@ }),
            status_of(final(self)@.status) == saved_status(kind, path@, outcome),
    {
        let mut text: Vec<char> = Vec::new();
        push_str(&mut text, "Saved ");
        push_str(&mut text, kind.label());
        push_str(&mut text, " to ");
        push_str(&mut text, path.as_str());
        if let Remembered::Added(name) = &outcome {
            push_str(&mut text, " \u{25aa} remembered ");
            push_str(&mut text, name.as_str());
        }
        self.set_status(StatusKind::Success, from_chars(text.as_slice()));
        self.report_remembered(outcome, false);
    }

    /// Show what happened to the history. `announce` also reports the quiet
    /// cases, for the explicit Ctrl+R; a failure is always worth saying.
    fn report_remembered(&mut self, outcome: Remembered, announce: bool)
        requires
            old(self).wf(),
        ensures
            final(self).wf(),
            final(self)@ == (FormView { status: final(self)@.status, ..old(self)@ }),
            status_of(final(self)@.status) == remembered_status(
                status_of(old(self)@.status),
                outcome,
                announce,
                old(self)@.outcome is Ready,
            ),
    {
        match outcome {
            Remembered::Added(name) => if announce {
                let mut text: Vec<char> = Vec::new();
                push_str(&mut text, "Remembered ");
                push_str(&mut text, name.as_str());
                push_str(&mut text, ".");
                self.set_status(StatusKind::Success, from_chars(text.as_slice()));
            },
            Remembered::Unchanged => if announce {
                let text = match self.outcome {
                    Outcome::Ready { .. } => "Already in the history.",
                    Outcome::Invalid(_) => "Fill in the form before remembering the recipient.",
                };
                self.set_status(StatusKind::Info, owned(text));
            },
            Remembered::Failed(error) => {
                let mut text: Vec<char> = Vec::new();
                push_str(&mut text, "Could not save the recipient history: ");
                push_str(&mut text, error.as_str());
                self.set_status(StatusKind::Error, from_chars(text.as_slice()));
            },
        }
    }

    /// Drop the recipient on screen from the history, for a name stored by
    /// mistake or an IBAN that has since changed.
    fn forget_recipient(&mut self) -> (r: Effect)
        requires
            old(self).wf(),
        ensures
            final(self).wf(),
            (final(self)@.history, r is SaveHistory) == ({
                let (found, rest) = contacts::forgotten(
                    old(self)@.history,
                    old(self)@.text(Row::Name),
                );
                (rest, found && old(self)@.history_path is Some)
            }),
            final(self)@ == (FormView {
                history: final(self)@.history,
                status: final(self)@.status,
                after: final(self)@.after,
                ..old(self)@
            }),
            r is Nothing || r is SaveHistory,
            r matches Effect::SaveHistory { path, text } ==> Some(path@) == final(self)@.history_path
                && text@ == contacts::yaml_text(final(self)@.history),
            !contacts::forgotten(old(self)@.history, old(self)@.text(Row::Name)).0 ==> status_of(
                final(self)@.status,
            ) == (StatusKind::Info, old(self)@.text(Row::Name) + " is not in the history."@),
    {
        let name = owned(self.input(Row::Name).as_str());
        if !self.contacts.forget(name.as_str()) {
            let mut text: Vec<char> = Vec::new();
            push_str(&mut text, name.as_str());
            push_str(&mut text, " is not in the history.");
            self.set_status(StatusKind::Info, from_chars(text.as_slice()));
            return Effect::Nothing;
        }
        if self.contacts_path.is_none() {
            return Effect::Nothing;
        }
        self.after = After::Forgot(name);
        self.history_effect()
    }

    /// The history file was written, or could not be: carry on from where
    /// the write was asked for.
    pub fn history_saved(&mut self, result: Result<(), String>)
        requires
            old(self).wf(),
        ensures
            final(self).wf(),
            final(self)@.after == After::Quietly,
            final(self)@.history == old(self)@.history,
            old(self)@.after matches After::Forgot(_) && result is Ok ==> {
                &&& final(self)@.candidates == contacts::completions(
                    old(self)@.history,
                    old(self)@.text(Row::Name),
                )
                &&& Self::iban_filling(
                    old(self)@,
                    final(self)@.candidates,
                    final(self)@.inputs,
                    final(self)@.iban_filled,
                )
            },
            !(old(self)@.after matches After::Forgot(_) && result is Ok) ==> final(self)@ == (
            FormView { status: final(self)@.status, after: After::Quietly, ..old(self)@ }),
            status_of(final(self)@.status) == Self::history_status(old(self)@, result),
    {
        let mut after = After::Quietly;
        std::mem::swap(&mut after, &mut self.after);
        match after {
            After::Forgot(name) => match result {
                Ok(()) => {
                    // The name matches nobody now, so `update_candidates` also
                    // takes back the IBAN this entry had filled in.
                    self.update_candidates();
                    let mut text: Vec<char> = Vec::new();
                    push_str(&mut text, "Forgot ");
                    push_str(&mut text, name.as_str());
                    push_str(&mut text, ".");
                    self.set_status(StatusKind::Success, from_chars(text.as_slice()));
                },
                Err(e) => self.set_status(StatusKind::Error, e),
            },
            After::Announce(name) => {
                let outcome = match result {
                    Ok(()) => Remembered::Added(name),
                    Err(e) => Remembered::Failed(e),
                };
                self.report_remembered(outcome, true);
            },
            After::WrittenAndRemembered(kind, path, name) => {
                let outcome = match result {
                    Ok(()) => Remembered::Added(name),
                    Err(e) => Remembered::Failed(e),
                };
                self.report_saved(kind, path, outcome);
            },
            _ => {},
        }
    }

    /// The QR code was written, or could not be: report it, and on success
    /// remember its recipient, which may ask for the history to be written.
    pub fn code_written(&mut self, result: Result<(), String>) -> (r: Effect)
        requires
            old(self).wf(),
        ensures
            final(self).wf(),
            final(self)@.inputs == old(self)@.inputs,
            final(self)@.outcome == old(self)@.outcome,
            r is Nothing || r is SaveHistory,
            r matches Effect::SaveHistory { path, text } ==> Some(path@) == final(self)@.history_path
                && text@ == contacts::yaml_text(final(self)@.history),
            result is Err ==> final(self)@ == (FormView {
                status: Status { text: result->Err_0, kind: StatusKind::Error },
                after: After::Quietly,
                ..old(self)@
            }),
            result is Ok ==> match old(self)@.after {
                After::Written(kind, path) => {
                    &&& final(self)@.history == old(self)@.remembering().1
                    &&& r is SaveHistory <==> (old(self)@.remembering().0
                        && old(self)@.history_path is Some)
                    &&& r is Nothing ==> status_of(final(self)@.status) == saved_status(
                        kind,
                        path@,
                        Remembered::Unchanged,
                    )
                    &&& r is SaveHistory ==> (old(self)@.recipient() matches Some((n, _))
                        && waiting_for(After::Written(kind, path), n, final(self)@.after))
                },
                _ => r is Nothing && final(self)@ == (FormView {
                    after: After::Quietly,
                    ..old(self)@
                }),
            },
    {
        let mut after = After::Quietly;
        std::mem::swap(&mut after, &mut self.after);
        let ghost mid = self@;
        let p = self.payment();
        proof {
            lemma_recipient(mid, p);
            lemma_recipient(old(self)@, p);
            assert(mid.remembering() == old(self)@.remembering());
        }
        match result {
            Ok(()) => match after {
                After::Written(kind, path) => self.remember_then(After::Written(kind, path)),
                _ => Effect::Nothing,
            },
            Err(e) => {
                self.set_status(StatusKind::Error, e);
                Effect::Nothing
            },
        }
    }

    // -- key handling ----------------------------------------------------

    fn action_for(&self, key: Key) -> (r: EditAction)
        requires
            self.wf(),
        ensures
            r == edit_action(self@, key),
    {
        let ctrl = key.ctrl;
        let row = self.focused_row();
        let completing = row == Row::Name && self.candidates.len() > 0;
        proof {
            contacts::lemma_entries_view(self.candidates@);
        }
        let name_at_end = self.input(Row::Name).at_end();
        match key.code {
            KeyCode::Esc => EditAction::Quit,
            KeyCode::Char(c) => if ctrl && (c == 'q' || c == 'c') {
                EditAction::Quit
            } else if ctrl && c == 's' {
                EditAction::BeginSave(SaveKind::Png)
            } else if ctrl && c == 'e' {
                EditAction::BeginSave(SaveKind::Svg)
            } else if ctrl && c == 'p' {
                EditAction::ToggleStyle
            } else if ctrl && c == 'n' {
                EditAction::ToggleNormalize
            } else if ctrl && c == 'r' {
                EditAction::Remember
            } else if ctrl && c == 'd' {
                EditAction::Forget
            } else if ctrl && c == 'f' && completing {
                EditAction::Accept
            } else if ctrl && c == 'u' {
                EditAction::Clear
            } else if ctrl && c == 'w' {
                EditAction::DeleteWord
            } else if !ctrl {
                EditAction::Insert(c)
            } else {
                EditAction::Ignore
            },
            KeyCode::Right => if completing && name_at_end {
                EditAction::Accept
            } else if row == Row::Preset {
                EditAction::StepPreset(true)
            } else {
                EditAction::Right
            },
            KeyCode::Down => if completing && self.candidates.len() > 1 {
                EditAction::Cycle(true)
            } else {
                EditAction::StepFocus(true)
            },
            KeyCode::Up => if completing && self.candidates.len() > 1 {
                EditAction::Cycle(false)
            } else {
                EditAction::StepFocus(false)
            },
            KeyCode::Tab => EditAction::StepFocus(true),
            KeyCode::BackTab => EditAction::StepFocus(false),
            KeyCode::Enter => if completing {
                EditAction::Accept
            } else {
                EditAction::StepFocus(true)
            },
            KeyCode::Left => if row == Row::Preset {
                EditAction::StepPreset(false)
            } else {
                EditAction::Left
            },
            KeyCode::Home => EditAction::Home,
            KeyCode::End => EditAction::End,
            KeyCode::Backspace => EditAction::Backspace,
            KeyCode::Delete => EditAction::Delete,
            KeyCode::Other => EditAction::Ignore,
        }
    }

    /// Apply a text-field operation to the focused row's input.
    fn edit_focused(&mut self, action: EditAction)
        requires
            old(self).wf(),
            action is Clear || action is DeleteWord || action is Backspace || action is Delete
                || action is Insert || action is Left || action is Right || action is Home
                || action is End,
        ensures
            final(self).wf(),
            final(self)@ == old(self)@.with_input(
                old(self)@.focused(),
                final(self)@.inputs[old(self)@.focus],
            ),
            (action is Left || action is Right || action is Home || action is End)
                ==> final(self)@.inputs[old(self)@.focus].0 == old(self)@.inputs[old(self)@.focus].0,
            action is Clear ==> final(self)@.inputs[old(self)@.focus].0 == Seq::<char>::empty(),
            action is Backspace ==> final(self)@.inputs[old(self)@.focus].0 == after_backspace(
                old(self)@.inputs[old(self)@.focus],
            ),
            action is Delete ==> final(self)@.inputs[old(self)@.focus].0 == after_delete(
                old(self)@.inputs[old(self)@.focus],
            ),
            action is DeleteWord ==> final(self)@.inputs[old(self)@.focus].0 == after_delete_word(
                old(self)@.inputs[old(self)@.focus],
            ),
            action matches EditAction::Insert(c) ==> final(self)@.inputs[old(self)@.focus].0 == (
            match crate::tui::field::sanitized(
                c,
                row_accepts(old(self)@.focused()),
                old(self)@.text(old(self)@.focused()),
            ) {
                Some(d) => if old(self)@.text(old(self)@.focused()).len() >= row_max_len(
                    old(self)@.focused(),
                ) {
                    old(self)@.text(old(self)@.focused())
                } else {
                    old(self)@.text(old(self)@.focused()).insert(
                        old(self)@.inputs[old(self)@.focus].1 as int,
                        d,
                    )
                },
                None => old(self)@.text(old(self)@.focused()),
            }),
    {
        let row = self.focused_row();
        let i = self.focus;
        let mut field = TextField::default();
        std::mem::swap(&mut field, &mut self.inputs[i]);
        match action {
            EditAction::Clear => field.clear(),
            EditAction::DeleteWord => field.delete_word(),
            EditAction::Backspace => field.backspace(),
            EditAction::Delete => field.delete(),
            EditAction::Insert(c) => field.insert(c, row.accepts(), row.max_len()),
            EditAction::Left => field.left(),
            EditAction::Right => field.right(),
            EditAction::Home => field.home(),
            _ => field.end(),
        }
        self.inputs.set(i, field);
        assert(self@.inputs =~= old(self)@.inputs.update(i as int, field@));
    }

    /// Leaving with a valid payment counts as having generated it, so the
    /// recipient is kept for next time.
    fn quit(&mut self) -> (r: Effect)
        requires
            old(self).wf(),
        ensures
            final(self).wf(),
            final(self)@.should_quit,
            final(self)@.inputs == old(self)@.inputs,
            final(self)@.outcome == old(self)@.outcome,
            final(self)@.preset == old(self)@.preset,
            final(self)@.normalize == old(self)@.normalize,
            final(self)@.history == old(self)@.remembering().1,
            r is Nothing || r is SaveHistory,
            r is SaveHistory <==> (old(self)@.remembering().0 && old(self)@.history_path is Some),
            r matches Effect::SaveHistory { path, text } ==> Some(path@) == final(self)@.history_path
                && text@ == contacts::yaml_text(final(self)@.history),
    {
        let r = self.remember_then(After::Quietly);
        self.should_quit = true;
        r
    }

    fn begin_save(&mut self, kind: SaveKind)
        requires
            old(self).wf(),
        ensures
            final(self).wf(),
            old(self)@.outcome is Ready ==> {
                &&& final(self)@ == (FormView { mode: final(self)@.mode, ..old(self)@ })
                &&& final(self)@.mode matches Mode::Save { kind: k, path } && k == kind
                    && path@.0 == (match kind {
                    SaveKind::Png => "payme.png"@,
                    SaveKind::Svg => "payme.svg"@,
                }) && path@.1 == path@.0.len()
            },
            old(self)@.outcome is Invalid ==> {
                &&& final(self)@ == (FormView { status: final(self)@.status, ..old(self)@ })
                &&& final(self)@.status.kind == StatusKind::Error
                &&& final(self)@.status.text@ == no_code_message()
            },
    {
        if self.matrix().is_none() {
            self.set_status(StatusKind::Error, owned("Fill in the form before saving."));
            return;
        }
        self.mode = Mode::Save { kind, path: TextField::new(kind.default_path()) };
    }

    /// Handle a key in the form. Writes the key asks for come back as an
    /// [`Effect`].
    pub fn on_key(&mut self, key: Key) -> (r: Effect)
        requires
            old(self).wf(),
        ensures
            final(self).wf(),
            key.release ==> final(self)@ == old(self)@ && r == Effect::Nothing,
            old(self)@.outcome_current() ==> final(self)@.outcome_current(),
            !key.release && old(self)@.mode == Mode::Edit ==> Self::edit_done(
                old(self)@,
                key,
                final(self)@,
            ),
            !key.release && old(self)@.mode is Save ==> Self::save_done(
                old(self)@,
                key,
                final(self)@,
                r,
            ),
            r is SaveHistory ==> old(self)@.mode == Mode::Edit && (edit_action(old(self)@, key) is Quit
                || edit_action(old(self)@, key) is Remember || edit_action(old(self)@, key) is Forget),
            r is SaveHistory <==> (!key.release && old(self)@.mode == Mode::Edit
                && Self::saves_history(old(self)@, key)),
            old(self)@.mode == Mode::Edit && iban_typed(old(self)@) && old(self)@.focused() != Row::Iban
                && !(edit_action(old(self)@, key) is Accept) ==> final(self)@.inputs[row_index(Row::Iban)]
                == old(self)@.inputs[row_index(Row::Iban)],
            r matches Effect::SaveHistory { path, text } ==> Some(path@) == final(self)@.history_path
                && text@ == contacts::yaml_text(final(self)@.history),
    {
        if key.release {
            return Effect::Nothing;
        }
        let ghost start = self@;
        let r = match self.mode {
            Mode::Save { .. } => self.on_key_save(key),
            Mode::Edit => self.on_key_edit(key),
        };
        proof {
            if start.outcome_current() && self@.inputs == start.inputs && self@.preset == start.preset
                && self@.normalize == start.normalize && self@.outcome == start.outcome {
                lemma_outcome_kept(start, self@);
            }
        }
        r
    }

    /// The status line once the history file was written, or could not be.
    pub open spec fn history_status(old: FormView, result: Result<(), String>) -> (
        StatusKind,
        Seq<char>,
    ) {
        let outcome = |name: String|
            match result {
                Ok(()) => Remembered::Added(name),
                Err(e) => Remembered::Failed(e),
            };
        match old.after {
            After::Forgot(name) => match result {
                Ok(()) => (StatusKind::Success, "Forgot "@ + name@ + "."@),
                Err(e) => (StatusKind::Error, e@),
            },
            After::Announce(name) => remembered_status(
                status_of(old.status),
                outcome(name),
                true,
                old.outcome is Ready,
            ),
            After::WrittenAndRemembered(kind, path, name) => saved_status(
                kind,
                path@,
                outcome(name),
            ),
            _ => status_of(old.status),
        }
    }

    /// What a key pressed in the save dialog has done: Esc closes it, Enter
    /// closes it and asks for the code to be written to the trimmed name,
    /// the other keys edit the name.
    pub open spec fn save_done(old: FormView, key: Key, new: FormView, r: Effect) -> bool {
        match old.mode {
            Mode::Save { kind, path } => match key.code {
                KeyCode::Esc => {
                    &&& new == (FormView { mode: Mode::Edit, status: new.status, ..old })
                    &&& new.status.kind == StatusKind::Info
                    &&& new.status.text@ == "Save cancelled."@
                    &&& r is Nothing
                },
                KeyCode::Enter => {
                    &&& new.mode == Mode::Edit
                    &&& new.inputs == old.inputs
                    &&& new.outcome == old.outcome
                    &&& new.preset == old.preset
                    &&& new.normalize == old.normalize
                    &&& r is Nothing || r is WriteCode
                    &&& r matches Effect::WriteCode { kind: k, path: p, scale } ==> k == kind && p@
                        == crate::strings::trim(path@.0) && scale == SAVE_SCALE
                    &&& r is Nothing ==> new.status.kind == StatusKind::Error
                },
                _ => {
                    &&& new.mode matches Mode::Save { kind: k, path: q } && k == kind && q@
                        == path_after(path@, key)
                    &&& new == (FormView { mode: new.mode, ..old })
                    &&& r is Nothing
                },
            },
            Mode::Edit => true,
        }
    }

    /// Whether a key pressed in the form asks for the history file to be
    /// written: leaving or remembering when the recipient on screen changes
    /// the history, forgetting when the name on screen is in it -- and only
    /// when the history has a file.
    pub open spec fn saves_history(old: FormView, key: Key) -> bool {
        old.history_path is Some && match edit_action(old, key) {
            EditAction::Quit | EditAction::Remember => old.remembering().0,
            EditAction::Forget => contacts::forgotten(old.history, old.text(Row::Name)).0,
            _ => false,
        }
    }

    /// What a key pressed in the form has done to it.
    pub open spec fn edit_done(old: FormView, key: Key, new: FormView) -> bool {
        match edit_action(old, key) {
            EditAction::Quit => new.should_quit && new.inputs == old.inputs && new.history
                == old.remembering().1,
            EditAction::BeginSave(kind) => if old.outcome is Ready {
                &&& new == (FormView { mode: new.mode, ..old })
                &&& new.mode matches Mode::Save { kind: k, path } && k == kind && path@.0 == (
                match kind {
                    SaveKind::Png => "payme.png"@,
                    SaveKind::Svg => "payme.svg"@,
                }) && path@.1 == path@.0.len()
            } else {
                &&& new == (FormView { status: new.status, ..old })
                &&& status_of(new.status) == (StatusKind::Error, no_code_message())
            },
            EditAction::ToggleStyle => new == (FormView {
                style: match old.style {
                    TerminalStyle::HalfBlocks => TerminalStyle::FullBlocks,
                    TerminalStyle::FullBlocks => TerminalStyle::HalfBlocks,
                },
                status: Status {
                    text: new.status.text,
                    kind: StatusKind::Info,
                },
                ..old
            }) && new.status.text@ == "QR drawing: "@ + style_name(new.style),
            EditAction::ToggleNormalize => new.normalize == !old.normalize && new.inputs
                == old.inputs && new.outcome_current(),
            EditAction::Remember => new.inputs == old.inputs && new.outcome == old.outcome
                && new.history == old.remembering().1,
            EditAction::Forget => {
                &&& new.history == contacts::forgotten(old.history, old.text(Row::Name)).1
                &&& new == (FormView { history: new.history, status: new.status, after: new.after, ..old })
                &&& !contacts::forgotten(old.history, old.text(Row::Name)).0 ==> status_of(new.status)
                    == (StatusKind::Info, old.text(Row::Name) + " is not in the history."@)
            },
            EditAction::Accept => if old.candidates.len() == 0 {
                new == old
            } else {
                let (name, iban) = old.candidates[old.candidate as int];
                &&& new.text(Row::Name) == name
                &&& new.inputs[row_index(Row::Name)].1 == name.len()
                &&& new.text(Row::Iban) == iban
                &&& new.candidates.len() == 0
                &&& new.outcome_current()
                &&& status_of(new.status) == (StatusKind::Info, filled_in_message(name))
                &&& forall|r: Row|
                    r != Row::Name && r != Row::Iban ==> #[trigger] new.inputs[row_index(r)]
                        == old.inputs[row_index(r)]
                &&& new == (FormView {
                    inputs: new.inputs,
                    iban_filled: true,
                    candidates: new.candidates,
                    candidate: 0,
                    outcome: new.outcome,
                    status: new.status,
                    ..old
                })
            },
            EditAction::Cycle(forward) => new == (FormView {
                candidate: ((old.candidate + if forward {
                    1int
                } else {
                    -1int
                }) % (old.candidates.len() as int)) as nat,
                ..old
            }),
            EditAction::StepFocus(down) => new == (FormView {
                focus: focus_step(old.preset, old.focus, if down {
                    1int
                } else {
                    -1int
                }),
                ..old
            }),
            EditAction::StepPreset(next) => {
                &&& new.preset == preset_at(
                    (preset_index(old.preset) + if next {
                        1int
                    } else {
                        -1int
                    }) % 5,
                )
                &&& new.focus == (if disabled(new.preset, old.focused()) {
                    focus_step(new.preset, old.focus, 1)
                } else {
                    old.focus
                })
                &&& new == (FormView {
                    preset: new.preset,
                    focus: new.focus,
                    outcome: new.outcome,
                    ..old
                })
                &&& new.outcome_current()
            },
            EditAction::Left | EditAction::Right | EditAction::Home | EditAction::End => new
                == old.with_input(old.focused(), new.inputs[old.focus]) && new.inputs[old.focus].0
                == old.inputs[old.focus].0,
            EditAction::Clear => new.text(old.focused()) == Seq::<char>::empty()
                && Self::followed(old.with_input(old.focused(), new.inputs[old.focus]), old.focused(), new),
            EditAction::Insert(c) => new.text(old.focused()) == (match crate::tui::field::sanitized(
                c,
                row_accepts(old.focused()),
                old.text(old.focused()),
            ) {
                Some(d) => if old.text(old.focused()).len() >= row_max_len(old.focused()) {
                    old.text(old.focused())
                } else {
                    old.text(old.focused()).insert(old.inputs[old.focus].1 as int, d)
                },
                None => old.text(old.focused()),
            }) && Self::followed(old.with_input(old.focused(), new.inputs[old.focus]), old.focused(), new),
            EditAction::Backspace => new.text(old.focused()) == after_backspace(old.inputs[old.focus])
                && Self::followed(old.with_input(old.focused(), new.inputs[old.focus]), old.focused(), new),
            EditAction::Delete => new.text(old.focused()) == after_delete(old.inputs[old.focus])
                && Self::followed(old.with_input(old.focused(), new.inputs[old.focus]), old.focused(), new),
            EditAction::DeleteWord => new.text(old.focused()) == after_delete_word(
                old.inputs[old.focus],
            ) && Self::followed(old.with_input(old.focused(), new.inputs[old.focus]), old.focused(), new),
            EditAction::Ignore => new == old,
        }
    }

    /// What the form brings along once `row` was edited into `mid`: the
    /// symbols and the reference follow each other; the name brings its
    /// completion candidates and, by [`Self::iban_filling`], the IBAN
    /// remembered for it; an IBAN typed over an offered one becomes the
    /// user's own; every other row stays as it was; the link is rebuilt.
    pub open spec fn followed(mid: FormView, row: Row, new: FormView) -> bool {
        let kept_besides = |a: Row, b: Row, c: Row|
            forall|r: Row|
                r != a && r != b && r != c ==> #[trigger] new.inputs[row_index(r)]
                    == mid.inputs[row_index(r)];
        let same_candidates = new.candidates == mid.candidates && new.candidate == mid.candidate;
        &&& new.inputs.len() == mid.inputs.len()
        &&& new.outcome_current()
        &&& new == (FormView {
            inputs: new.inputs,
            candidates: new.candidates,
            candidate: new.candidate,
            iban_filled: new.iban_filled,
            outcome: new.outcome,
            ..mid
        })
        &&& match row {
            Row::Vs | Row::Ks | Row::Ss => {
                &&& new.text(Row::Reference) == reference::reference_of(
                    mid.text(Row::Vs),
                    mid.text(Row::Ss),
                    mid.text(Row::Ks),
                )
                &&& kept_besides(Row::Reference, Row::Reference, Row::Reference)
                &&& same_candidates
                &&& new.iban_filled == mid.iban_filled
            },
            Row::Reference => {
                &&& (new.text(Row::Vs), new.text(Row::Ss), new.text(Row::Ks))
                    == reference::symbols_in(mid.text(Row::Reference))
                &&& kept_besides(Row::Vs, Row::Ss, Row::Ks)
                &&& same_candidates
                &&& new.iban_filled == mid.iban_filled
            },
            Row::Name => {
                &&& new.candidates == contacts::completions(mid.history, mid.text(Row::Name))
                &&& new.candidate == 0
                &&& Self::iban_filling(mid, new.candidates, new.inputs, new.iban_filled)
            },
            Row::Iban => {
                &&& new.inputs == mid.inputs
                &&& same_candidates
                &&& !new.iban_filled
            },
            _ => {
                &&& new.inputs == mid.inputs
                &&& same_candidates
                &&& new.iban_filled == mid.iban_filled
            },
        }
    }

    fn on_key_edit(&mut self, key: Key) -> (r: Effect)
        requires
            old(self).wf(),
            old(self)@.mode == Mode::Edit,
        ensures
            final(self).wf(),
            old(self)@.outcome_current() ==> final(self)@.outcome_current(),
            Self::edit_done(old(self)@, key, final(self)@),
            r matches Effect::SaveHistory { path, text } ==> Some(path@) == final(self)@.history_path
                && text@ == contacts::yaml_text(final(self)@.history),
            r is Nothing || r is SaveHistory,
            r is SaveHistory ==> (edit_action(old(self)@, key) is Quit || edit_action(old(self)@, key) is Remember
                || edit_action(old(self)@, key) is Forget),
            r is SaveHistory <==> Self::saves_history(old(self)@, key),
            iban_typed(old(self)@) && old(self)@.focused() != Row::Iban && !(edit_action(old(self)@, key) is Accept)
                ==> final(self)@.inputs[row_index(Row::Iban)] == old(self)@.inputs[row_index(Row::Iban)],
    {
        let action = self.action_for(key);
        match action {
            EditAction::Quit | EditAction::Remember | EditAction::Forget => self.io_action(
                action,
                key,
            ),
            EditAction::Clear | EditAction::DeleteWord | EditAction::Backspace
            | EditAction::Delete | EditAction::Insert(_) => {
                self.text_action(action, key);
                Effect::Nothing
            },
            _ => {
                self.view_action(action, key);
                Effect::Nothing
            },
        }
    }

    /// The keys that may ask for the history to be written.
    fn io_action(&mut self, action: EditAction, key: Key) -> (r: Effect)
        requires
            old(self).wf(),
            action == edit_action(old(self)@, key),
            action is Quit || action is Remember || action is Forget,
        ensures
            final(self).wf(),
            final(self)@.inputs == old(self)@.inputs,
            r is Nothing || r is SaveHistory,
            old(self)@.outcome_current() ==> final(self)@.outcome_current(),
            Self::edit_done(old(self)@, key, final(self)@),
            r is SaveHistory <==> Self::saves_history(old(self)@, key),
            r matches Effect::SaveHistory { path, text } ==> Some(path@) == final(self)@.history_path
                && text@ == contacts::yaml_text(final(self)@.history),
    {
        let ghost start = self@;
        let r = match action {
            EditAction::Quit => self.quit(),
            EditAction::Remember => self.remember_then(After::Announce(String::new())),
            _ => self.forget_recipient(),
        };
        proof {
            if start.outcome_current() {
                lemma_outcome_kept(start, self@);
            }
        }
        r
    }

    /// The keys that edit the focused input.
    fn text_action(&mut self, action: EditAction, key: Key)
        requires
            old(self).wf(),
            action == edit_action(old(self)@, key),
            action is Clear || action is DeleteWord || action is Backspace || action is Delete
                || action is Insert,
        ensures
            final(self).wf(),
            final(self)@.outcome_current(),
            Self::edit_done(old(self)@, key, final(self)@),
            iban_typed(old(self)@) && old(self)@.focused() != Row::Iban ==> final(self)@.inputs[row_index(Row::Iban)]
                == old(self)@.inputs[row_index(Row::Iban)],
    {
        let row = self.focused_row();
        self.edit_focused(action);
        let ghost mid = self@;
        self.after_edit(row);
        proof {
            assert(self@.inputs[old(self)@.focus] == mid.inputs[old(self)@.focus]);
            assert(mid == old(self)@.with_input(old(self)@.focused(), self@.inputs[old(self)@.focus]));
        }
    }

    /// The keys that move about the form or change how it is shown.
    fn view_action(&mut self, action: EditAction, key: Key)
        requires
            old(self).wf(),
            action == edit_action(old(self)@, key),
            !(action is Quit || action is Remember || action is Forget || action is Clear
                || action is DeleteWord || action is Backspace || action is Delete
                || action is Insert),
        ensures
            final(self).wf(),
            old(self)@.outcome_current() ==> final(self)@.outcome_current(),
            Self::edit_done(old(self)@, key, final(self)@),
            !(action is Accept) && old(self)@.focused() != Row::Iban ==> final(self)@.inputs[row_index(Row::Iban)]
                == old(self)@.inputs[row_index(Row::Iban)],
    {
        let ghost start = self@;
        match action {
            EditAction::BeginSave(kind) => self.begin_save(kind),
            EditAction::ToggleStyle => {
                self.style = self.style.toggled();
                let mut text: Vec<char> = Vec::new();
                push_str(&mut text, "QR drawing: ");
                match self.style {
                    TerminalStyle::HalfBlocks => push_str(&mut text, "HalfBlocks"),
                    TerminalStyle::FullBlocks => push_str(&mut text, "FullBlocks"),
                }
                self.set_status(StatusKind::Info, from_chars(text.as_slice()));
            },
            EditAction::ToggleNormalize => {
                self.normalize = !self.normalize;
                let text = if self.normalize {
                    "Text normalisation on"
                } else {
                    "Text normalisation off"
                };
                self.set_status(StatusKind::Info, owned(text));
                self.recompute();
            },
            EditAction::Accept => self.accept_suggestion(),
            EditAction::Cycle(forward) => self.cycle_candidate(
                if forward {
                    1
                } else {
                    -1
                },
            ),
            EditAction::StepFocus(down) => self.step_focus(
                if down {
                    1
                } else {
                    -1
                },
            ),
            EditAction::StepPreset(next) => self.step_preset(
                if next {
                    1
                } else {
                    -1
                },
            ),
            EditAction::Ignore => {},
            _ => self.edit_focused(action),
        }
        proof {
            if start.outcome_current() && !(action is Accept || action is ToggleNormalize
                || action is StepPreset) {
                lemma_outcome_kept(start, self@);
            }
        }
    }

    fn on_key_save(&mut self, key: Key) -> (r: Effect)
        requires
            old(self).wf(),
            old(self)@.mode is Save,
        ensures
            final(self).wf(),
            Self::save_done(old(self)@, key, final(self)@, r),
    {
        let mut mode = Mode::Edit;
        std::mem::swap(&mut mode, &mut self.mode);
        let (kind, mut path) = match mode {
            Mode::Save { kind, path } => (kind, path),
            Mode::Edit => (SaveKind::Png, TextField::default()),
        };
        match key.code {
            KeyCode::Esc => {
                self.set_status(StatusKind::Info, owned("Save cancelled."));
                return Effect::Nothing;
            },
            KeyCode::Enter => {
                let target = from_chars(crate::strings::trimmed(path.as_str()).as_slice());
                return self.write(kind, target);
            },
            KeyCode::Backspace => path.backspace(),
            KeyCode::Delete => path.delete(),
            KeyCode::Left => path.left(),
            KeyCode::Right => path.right(),
            KeyCode::Home => path.home(),
            KeyCode::End => path.end(),
            KeyCode::Char(c) => if c == 'u' && key.ctrl {
                path.clear();
            } else {
                path.insert(c, Accepts::Any, 255);
            },
            _ => {},
        }
        self.mode = Mode::Save { kind, path };
        Effect::Nothing
    }

    /// Ask for the QR code to be written to `path`.
    fn write(&mut self, kind: SaveKind, path: String) -> (r: Effect)
        requires
            old(self).wf(),
        ensures
            final(self).wf(),
            final(self)@.inputs == old(self)@.inputs,
            final(self)@.outcome == old(self)@.outcome,
            final(self)@.preset == old(self)@.preset,
            final(self)@.normalize == old(self)@.normalize,
            final(self)@.mode == old(self)@.mode,
            r is Nothing || r is WriteCode,
            r matches Effect::WriteCode { kind: k, path: p, scale } ==> k == kind && p@ == path@
                && scale == SAVE_SCALE && path@.len() > 0 && old(self)@.outcome is Ready,
            r is Nothing ==> final(self)@.status.kind == StatusKind::Error,
            r is WriteCode ==> final(self)@.after == After::Written(kind, path),
            final(self)@ == (FormView {
                status: final(self)@.status,
                after: final(self)@.after,
                ..old(self)@
            }),
    {
        if path.as_str().is_empty() {
            self.set_status(StatusKind::Error, owned("Enter a file name."));
            return Effect::Nothing;
        }
        if self.matrix().is_none() {
            self.set_status(StatusKind::Error, owned("Fill in the form before saving."));
            return Effect::Nothing;
        }
        self.after = After::Written(kind, path.clone());
        Effect::WriteCode { kind, path, scale: SAVE_SCALE }
    }

    pub fn url(&self) -> (r: Option<&str>)
        ensures
            match self@.outcome {
                Outcome::Ready { url, .. } => r matches Some(u) && u@ == url@,
                Outcome::Invalid(_) => r is None,
            },
    {
        match &self.outcome {
            Outcome::Ready { url, .. } => Some(url.as_str()),
            Outcome::Invalid(_) => None,
        }
    }

    pub fn matrix(&self) -> (r: Option<&Matrix>)
        ensures
            match self@.outcome {
                Outcome::Ready { matrix, .. } => r == Some(&matrix),
                Outcome::Invalid(_) => r is None,
            },
    {
        match &self.outcome {
            Outcome::Ready { matrix, .. } => Some(matrix),
            Outcome::Invalid(_) => None,
        }
    }
}

} // verus!
