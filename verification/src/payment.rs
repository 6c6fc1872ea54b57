//! The payment as the user enters it, and its validation against the standard.

use chrono::Datelike;
use vstd::prelude::*;

use crate::iban;
use crate::reference;
use crate::spec::{
    field_label, field_max_len, field_rank, letter_char, preset_type, recommended, requirement_of,
    Field, PaymentType, Preset, Requirement,
};
use crate::strings::{
    all_digits, are_digits, find, find_chars, from_chars, owned, push_all, push_str, slice_of,
    starts_with, to_chars, trim, trimmed, upper_chars, upper_seq,
};
use crate::text;

verus! {

/// One problem with one field. Validation collects all of them so that the
/// form can show every issue at once instead of one per keystroke.
#[derive(Debug, Clone, PartialEq, Eq)]
pub struct FieldError {
    pub field: Field,
    pub message: String,
}

/// `label: message`, the way diagnostics print a field error.
pub open spec fn error_text(field: Field, message: Seq<char>) -> Seq<char> {
    field_label(field) + ": "@ + message
}

impl FieldError {
    pub fn new(field: Field, message: String) -> (r: FieldError)
        ensures
            r.field == field,
            r.message@ == message@,
    {
        FieldError { field, message }
    }

    /// The error as one line of text: the field's label, a colon, the message.
    pub fn to_text(&self) -> (r: String)
        ensures
            r@ == error_text(self.field, self.message@),
    {
        let mut out: Vec<char> = Vec::new();
        push_str(&mut out, self.field.label());
        push_str(&mut out, ": ");
        push_str(&mut out, self.message.as_str());
        from_chars(out.as_slice())
    }
}

/// Raw user input.
#[derive(Debug, Clone, PartialEq, Eq)]
pub struct Payment {
    pub preset: Preset,
    pub iban: String,
    pub creditor_name: String,
    pub amount: String,
    pub currency: String,
    /// `YYYY-MM-DD` or `YYYYMMDD`; only carried by `/p/` links.
    pub due_date: String,
    /// Payment identification (PI): free text or the canonical symbol encoding.
    pub reference: String,
    pub message: String,
    /// Fold free text down to the Annex A character set before transmitting.
    pub normalize_text: bool,
}

impl Default for Payment {
    fn default() -> (r: Payment)
        ensures
            r.preset == Preset::P2p,
            r.iban@.len() == 0,
            r.creditor_name@.len() == 0,
            r.amount@.len() == 0,
            r.currency@ == "EUR"@,
            r.due_date@.len() == 0,
            r.reference@.len() == 0,
            r.message@.len() == 0,
            r.normalize_text,
    {
        Payment {
            preset: Preset::P2p,
            iban: String::new(),
            creditor_name: String::new(),
            amount: String::new(),
            currency: owned("EUR"),
            due_date: String::new(),
            reference: String::new(),
            message: String::new(),
            normalize_text: true,
        }
    }
}

/// A payment that satisfies the standard, with every attribute in its
/// transmitted form and in the order they appear in the query string.
#[derive(Debug, Clone, PartialEq, Eq)]
pub struct Resolved {
    pub payment_type: PaymentType,
    pub values: Vec<(Field, String)>,
}

/// The attribute values as text.
pub open spec fn pairs_view(v: Seq<(Field, String)>) -> Seq<(Field, Seq<char>)> {
    v.map_values(|p: (Field, String)| (p.0, p.1@))
}

/// The errors as field and message.
pub open spec fn errors_view(v: Seq<FieldError>) -> Seq<(Field, Seq<char>)> {
    v.map_values(|e: FieldError| (e.field, e.message@))
}

/// The value of the first pair for `f`.
pub open spec fn lookup(values: Seq<(Field, Seq<char>)>, f: Field) -> Option<Seq<char>>
    decreases values.len(),
{
    if values.len() == 0 {
        None
    } else if values[0].0 == f {
        Some(values[0].1)
    } else {
        lookup(values.skip(1), f)
    }
}

impl Resolved {
    /// The transmitted value of `field`, if it is sent.
    pub fn get(&self, field: Field) -> (r: Option<&str>)
        ensures
            match r {
                Some(s) => lookup(pairs_view(self.values@), field) == Some(s@),
                None => lookup(pairs_view(self.values@), field) is None,
            },
    {
        let n = self.values.len();
        let ghost all = pairs_view(self.values@);
        let mut i: usize = 0;
        assert(all.skip(0) =~= all);
        while i < n
            invariant
                i <= n,
                n == self.values@.len(),
                all == pairs_view(self.values@),
                lookup(all, field) == lookup(all.skip(i as int), field),
            decreases n - i,
        {
            assert(all.skip(i as int)[0] == all[i as int]);
            if self.values[i].0 == field {
                return Some(self.values[i].1.as_str());
            }
            assert(all.skip(i as int).skip(1) =~= all.skip(i + 1));
            i += 1;
        }
        assert(all.skip(n as int) =~= Seq::<(Field, Seq<char>)>::empty());
        None
    }
}

// ---------------------------------------------------------------------------
// What each attribute resolves to
// ---------------------------------------------------------------------------

/// What validation makes of one attribute: a value to send (possibly empty,
/// which is not sent), nothing to send, or an error message.
pub enum Attr {
    Value(Seq<char>),
    Absent,
    Error(Seq<char>),
}

pub open spec fn opt_view(o: Option<String>) -> Option<Seq<char>> {
    match o {
        Some(d) => Some(d@),
        None => None,
    }
}

pub open spec fn attr_of(r: Result<Option<String>, String>) -> Attr {
    match r {
        Ok(Some(v)) => Attr::Value(v@),
        Ok(None) => Attr::Absent,
        Err(e) => Attr::Error(e@),
    }
}

pub open spec fn required_message(p: Preset) -> Seq<char> {
    "Required for /"@ + seq![letter_char(preset_type(p))] + "/ links."@
}

fn required(p: Preset) -> (r: String)
    ensures
        r@ == required_message(p),
{
    let mut out: Vec<char> = Vec::new();
    push_str(&mut out, "Required for /");
    push_str(&mut out, p.payment_type().letter());
    push_str(&mut out, "/ links.");
    from_chars(out.as_slice())
}

pub open spec fn mandatory(p: Preset, f: Field) -> bool {
    requirement_of(p, f) == Requirement::Mandatory
}

/// The IBAN, as `iban::parse` reads it.
pub open spec fn iban_attr(p: Payment) -> Attr {
    match iban::parsed(p.iban@) {
        Ok(v) => Attr::Value(v),
        Err(e) => Attr::Error(e),
    }
}

/// Every `,` read as a `.`.
pub open spec fn comma_to_dot(s: Seq<char>) -> Seq<char> {
    s.map_values(|c: char| if c == ',' { '.' } else { c })
}

/// Up to nine digits, or up to seven digits, a dot and one or two digits.
pub open spec fn amount_ok(v: Seq<char>) -> bool {
    match find(v, seq!['.']) {
        None => 1 <= v.len() <= 9 && all_digits(v),
        Some(k) => {
            let whole = v.take(k);
            let dec = v.skip(k + 1);
            &&& 1 <= whole.len() <= 7
            &&& all_digits(whole)
            &&& 1 <= dec.len() <= 2
            &&& all_digits(dec)
        },
    }
}

pub open spec fn amount_message() -> Seq<char> {
    "Enter an amount of up to 9 digits, or 7 digits with 1-2 decimal places."@
}

/// The amount: trimmed, decimal comma read as a dot.
pub open spec fn amount_attr(p: Payment) -> Attr {
    let raw = trim(p.amount@);
    if raw.len() == 0 {
        if mandatory(p.preset, Field::Amount) {
            Attr::Error(required_message(p.preset))
        } else {
            Attr::Absent
        }
    } else if amount_ok(comma_to_dot(raw)) {
        Attr::Value(comma_to_dot(raw))
    } else {
        Attr::Error(amount_message())
    }
}

pub open spec fn currency_message() -> Seq<char> {
    "Version 2 of the standard only supports EUR."@
}

/// The currency: it only travels alongside an amount, unless it is mandatory.
pub open spec fn currency_attr(p: Payment, has_amount: bool) -> Attr {
    let raw = upper_seq(trim(p.currency@));
    if !has_amount && !mandatory(p.preset, Field::Currency) {
        Attr::Absent
    } else if raw.len() == 0 {
        if mandatory(p.preset, Field::Currency) {
            Attr::Error(required_message(p.preset))
        } else {
            Attr::Absent
        }
    } else if raw != "EUR"@ {
        Attr::Error(currency_message())
    } else {
        Attr::Value(raw)
    }
}

/// `chrono::NaiveDate::parse_from_str(raw, fmt)`: the calendar date the text
/// reads as under the format, as year, month and day; `None` where it does
/// not parse or names no date.
pub uninterp spec fn chrono_date(raw: Seq<char>, fmt: Seq<char>) -> Option<(int, nat, nat)>;

/// `chrono::NaiveDate::parse_from_str`, the date read out through
/// `Datelike`. Which texts parse to which dates is chrono's business; the
/// contract names the result, and states the ranges chrono documents for
/// months and days and the years its `NaiveDate` spans.
#[verifier::external_body]
fn parse_date(raw: &str, fmt: &str) -> (r: Option<(i32, u32, u32)>)
    ensures
        match r {
            Some((y, m, d)) => {
                &&& chrono_date(raw@, fmt@) == Some((y as int, m as nat, d as nat))
                &&& 1 <= m <= 12
                &&& 1 <= d <= 31
                &&& -262143 <= y <= 262142
            },
            None => chrono_date(raw@, fmt@) is None,
        },
{
    chrono::NaiveDate::parse_from_str(raw, fmt).ok().map(|d| (d.year(), d.month(), d.day()))
}

/// `n` in decimal, with zeros in front up to `width` digits.
pub open spec fn zero_padded(n: nat, width: nat) -> Seq<char> {
    let digits = crate::strings::decimal(n);
    if digits.len() < width {
        Seq::new((width - digits.len()) as nat, |i: int| '0') + digits
    } else {
        digits
    }
}

/// A year as `%Y` writes it: four digits, zero-padded, for the years 0 to
/// 9999; otherwise with its sign, then at least four digits.
pub open spec fn year_text(y: int) -> Seq<char> {
    if 0 <= y < 10000 {
        zero_padded(y as nat, 4)
    } else if y < 0 {
        seq!['-'] + zero_padded((-y) as nat, 4)
    } else {
        seq!['+'] + zero_padded(y as nat, 4)
    }
}

/// A date as `%Y%m%d` writes it, the form the link carries.
pub open spec fn compact_date(d: (int, nat, nat)) -> Seq<char> {
    year_text(d.0) + zero_padded(d.1, 2) + zero_padded(d.2, 2)
}

fn zero_padded_chars(n: u64, width: usize) -> (r: Vec<char>)
    ensures
        r@ == zero_padded(n as nat, width as nat),
{
    let digits = crate::strings::decimal_chars(n);
    if digits.len() < width {
        let mut out: Vec<char> = Vec::new();
        let k = width - digits.len();
        for i in 0..k
            invariant
                out@ == Seq::new(i as nat, |j: int| '0'),
        {
            out.push('0');
            assert(out@ =~= Seq::new((i + 1) as nat, |j: int| '0'));
        }
        push_all(&mut out, digits.as_slice());
        out
    } else {
        digits
    }
}

/// Render a date as `%Y%m%d`.
fn date_compact(y: i32, m: u32, d: u32) -> (r: String)
    requires
        -262143 <= y <= 262142,
    ensures
        r@ == compact_date((y as int, m as nat, d as nat)),
{
    let mut out: Vec<char> = Vec::new();
    if 0 <= y && y < 10000 {
        push_all(&mut out, zero_padded_chars(y as u64, 4).as_slice());
    } else if y < 0 {
        out.push('-');
        push_all(&mut out, zero_padded_chars((-y) as u64, 4).as_slice());
    } else {
        out.push('+');
        push_all(&mut out, zero_padded_chars(y as u64, 4).as_slice());
    }
    push_all(&mut out, zero_padded_chars(m as u64, 2).as_slice());
    push_all(&mut out, zero_padded_chars(d as u64, 2).as_slice());
    from_chars(out.as_slice())
}

/// What the date parser makes of a text under one format, in the form the
/// link carries.
pub open spec fn date_under(raw: Seq<char>, fmt: Seq<char>) -> Option<Seq<char>> {
    match chrono_date(raw, fmt) {
        Some(d) => Some(compact_date(d)),
        None => None,
    }
}

/// A due date as `YYYY-MM-DD`, or else as `YYYYMMDD`, in its transmitted form.
pub open spec fn due_date_text(raw: Seq<char>) -> Option<Seq<char>> {
    match date_under(raw, "%Y-%m-%d"@) {
        Some(d) => Some(d),
        None => date_under(raw, "%Y%m%d"@),
    }
}

/// A text read as a date under one format.
fn read_date(raw: &str, fmt: &str) -> (r: Option<String>)
    ensures
        match r {
            Some(s) => date_under(raw@, fmt@) == Some(s@),
            None => date_under(raw@, fmt@) is None,
        },
{
    match parse_date(raw, fmt) {
        Some((y, m, d)) => Some(date_compact(y, m, d)),
        None => None,
    }
}

/// The date the payment's due date field reads as.
pub open spec fn due_date_of(p: Payment) -> Option<Seq<char>> {
    due_date_text(trim(p.due_date@))
}

pub open spec fn date_message() -> Seq<char> {
    "Enter a date as YYYY-MM-DD or YYYYMMDD."@
}

/// The due date, given what the date parser makes of the trimmed field:
/// omitted types drop it, an empty field sends nothing.
pub open spec fn due_attr(p: Payment, date: Option<Seq<char>>) -> Attr {
    if requirement_of(p.preset, Field::DueDate) == Requirement::Omitted {
        Attr::Absent
    } else if trim(p.due_date@).len() == 0 {
        Attr::Absent
    } else {
        match date {
            Some(d) => Attr::Value(d),
            None => Attr::Error(date_message()),
        }
    }
}

/// The value a free-text field transmits: trimmed, and with normalisation on,
/// folded to the Annex A set and trimmed again.
pub open spec fn text_value(p: Payment, raw: Seq<char>) -> Seq<char> {
    if p.normalize_text {
        trim(text::annex_a(trim(raw)))
    } else {
        trim(raw)
    }
}

pub open spec fn max_len_message(f: Field) -> Seq<char> {
    "Maximum length is "@ + crate::strings::decimal(field_max_len(f)) + " characters."@
}

pub open spec fn unsupported_message(list: Seq<char>) -> Seq<char> {
    "Unsupported characters: "@ + list + " (enable normalisation to strip them)."@
}

/// A free-text attribute: the mandatory check, normalisation, the length limit
/// and, with normalisation off, the recommended character set.
pub open spec fn text_attr(p: Payment, f: Field, raw: Seq<char>) -> Attr {
    let t = trim(raw);
    if t.len() == 0 {
        if mandatory(p.preset, f) {
            Attr::Error(required_message(p.preset))
        } else {
            Attr::Value(seq![])
        }
    } else {
        let v = text_value(p, raw);
        if v.len() == 0 && mandatory(p.preset, f) {
            Attr::Error(required_message(p.preset))
        } else if v.len() > field_max_len(f) {
            Attr::Error(max_len_message(f))
        } else if !p.normalize_text && text::unsupported_of(v).len() > 0 {
            Attr::Error(unsupported_message(text::unsupported_of(v)))
        } else {
            Attr::Value(v)
        }
    }
}

pub open spec fn slash_message() -> Seq<char> {
    "Must not start or end with `/`."@
}

pub open spec fn double_slash_message() -> Seq<char> {
    "Must not contain `//`."@
}

/// The payment identification: a free-text attribute which, outside the
/// canonical symbol encoding, may not start or end with a slash nor hold `//`.
pub open spec fn payment_id_attr(p: Payment) -> Attr {
    match text_attr(p, Field::PaymentId, p.reference@) {
        Attr::Value(v) => if v.len() == 0 {
            Attr::Absent
        } else if !reference::canonical(v) && (v[0] == '/' || v.last() == '/') {
            Attr::Error(slash_message())
        } else if !reference::canonical(v) && crate::strings::contains_seq(v, seq!['/', '/']) {
            Attr::Error(double_slash_message())
        } else {
            Attr::Value(v)
        },
        other => other,
    }
}

/// A payment identification that does not start or end with a slash and
/// holds no two slashes in a row is sent as it stands, single slashes inside
/// it included; when the payment validates, it is the value the link carries.
pub proof fn lemma_single_slashes_allowed(p: Payment, date: Option<Seq<char>>, v: Seq<char>)
    requires
        text_attr(p, Field::PaymentId, p.reference@) == Attr::Value(v),
        v.len() > 0,
        v[0] != '/',
        v[v.len() - 1] != '/',
        forall|i: int| 0 <= i < v.len() - 1 ==> !(#[trigger] v[i] == '/' && v[i + 1] == '/'),
    ensures
        payment_id_attr(p) == Attr::Value(v),
        resolution(p, date) matches Ok((_, values)) ==> lookup(values, Field::PaymentId) == Some(v),
{
    crate::strings::lemma_find_from(v, seq!['/', '/'], 0);
    if let Some(k) = crate::strings::find(v, seq!['/', '/']) {
        assert(v.subrange(k, k + 2) == seq!['/', '/']);
        assert(v[k] == v.subrange(k, k + 2)[0]);
        assert(v[k + 1] == v.subrange(k, k + 2)[1]);
        assert(v[k] == '/' && v[k + 1] == '/');
    }
    assert(v.last() == v[v.len() - 1]);
    lemma_resolution_shape(p, date);
    assert(attrs(p, date)[field_rank(Field::PaymentId)].1 == payment_id_attr(p));
}

/// Every attribute, in the order of the query string, given what the date
/// parser makes of the due date.
pub open spec fn attrs(p: Payment, date: Option<Seq<char>>) -> Seq<(Field, Attr)> {
    let amount = amount_attr(p);
    seq![
        (Field::Iban, iban_attr(p)),
        (Field::Amount, amount),
        (Field::Currency, currency_attr(p, amount is Value)),
        (Field::DueDate, due_attr(p, date)),
        (Field::PaymentId, payment_id_attr(p)),
        (Field::Message, text_attr(p, Field::Message, p.message@)),
        (Field::CreditorName, text_attr(p, Field::CreditorName, p.creditor_name@)),
    ]
}

/// The errors among the attributes, in order.
pub open spec fn errors_of(a: Seq<(Field, Attr)>) -> Seq<(Field, Seq<char>)>
    decreases a.len(),
{
    if a.len() == 0 {
        seq![]
    } else {
        let rest = errors_of(a.drop_last());
        match a.last().1 {
            Attr::Error(e) => rest.push((a.last().0, e)),
            _ => rest,
        }
    }
}

/// The non-empty values among the attributes, in order.
pub open spec fn values_of(a: Seq<(Field, Attr)>) -> Seq<(Field, Seq<char>)>
    decreases a.len(),
{
    if a.len() == 0 {
        seq![]
    } else {
        let rest = values_of(a.drop_last());
        match a.last().1 {
            Attr::Value(v) => if v.len() > 0 {
                rest.push((a.last().0, v))
            } else {
                rest
            },
            _ => rest,
        }
    }
}

/// What validation yields: the type and the values to send when no attribute
/// is in error, otherwise every error.
pub open spec fn resolution(p: Payment, date: Option<Seq<char>>) -> Result<
    (PaymentType, Seq<(Field, Seq<char>)>),
    Seq<(Field, Seq<char>)>,
> {
    let a = attrs(p, date);
    if errors_of(a).len() == 0 {
        Ok((preset_type(p.preset), values_of(a)))
    } else {
        Err(errors_of(a))
    }
}

pub open spec fn resolved_as(
    r: Result<Resolved, Vec<FieldError>>,
    expected: Result<(PaymentType, Seq<(Field, Seq<char>)>), Seq<(Field, Seq<char>)>>,
) -> bool {
    match r {
        Ok(res) => expected == Ok::<
            (PaymentType, Seq<(Field, Seq<char>)>),
            Seq<(Field, Seq<char>)>,
        >((res.payment_type, pairs_view(res.values@))),
        Err(es) => expected == Err::<
            (PaymentType, Seq<(Field, Seq<char>)>),
            Seq<(Field, Seq<char>)>,
        >(errors_view(es@)),
    }
}

// ---------------------------------------------------------------------------
// Validation
// ---------------------------------------------------------------------------

fn commas_to_dots(v: &[char]) -> (r: Vec<char>)
    ensures
        r@ == comma_to_dot(v@),
{
    let mut r: Vec<char> = Vec::new();
    for i in 0..v.len()
        invariant
            r@ == comma_to_dot(v@.take(i as int)),
    {
        r.push(if v[i] == ',' { '.' } else { v[i] });
        assert(comma_to_dot(v@.take(i + 1)) =~= r@);
    }
    assert(v@.take(v.len() as int) =~= v@);
    r
}

fn is_amount(v: &[char]) -> (r: bool)
    ensures
        r == amount_ok(v@),
{
    let dot: Vec<char> = vec!['.'];
    assert(dot@ =~= seq!['.']);
    match find_chars(v, dot.as_slice()) {
        None => 1 <= v.len() && v.len() <= 9 && are_digits(v),
        Some(k) => {
            proof {
                crate::strings::lemma_find(v@, dot@);
            }
            let vlen = v.len();
            assert(crate::strings::occurs_at(v@, dot@, k as int));
            assert(k + 1 <= vlen);
            let whole = slice_of(v, 0, k);
            let dec = slice_of(v, k + 1, v.len());
            assert(whole@ =~= v@.take(k as int));
            assert(dec@ =~= v@.skip(k + 1));
            1 <= whole.len() && whole.len() <= 7 && are_digits(whole.as_slice()) && 1 <= dec.len()
                && dec.len() <= 2 && are_digits(dec.as_slice())
        },
    }
}

proof fn lemma_take_step(a: Seq<(Field, Attr)>, k: int)
    requires
        0 <= k < a.len(),
    ensures
        errors_of(a.take(k + 1)) == match a[k].1 {
            Attr::Error(e) => errors_of(a.take(k)).push((a[k].0, e)),
            _ => errors_of(a.take(k)),
        },
        values_of(a.take(k + 1)) == match a[k].1 {
            Attr::Value(v) => if v.len() > 0 {
                values_of(a.take(k)).push((a[k].0, v))
            } else {
                values_of(a.take(k))
            },
            _ => values_of(a.take(k)),
        },
{
    assert(a.take(k + 1).drop_last() =~= a.take(k));
    assert(a.take(k + 1).last() == a[k]);
}

/// Record one attribute's outcome: an error, a value to send, or nothing.
fn gather(
    field: Field,
    result: Result<Option<String>, String>,
    errors: &mut Vec<FieldError>,
    values: &mut Vec<(Field, String)>,
)
    ensures
        errors_view(final(errors)@) == match attr_of(result) {
            Attr::Error(e) => errors_view(old(errors)@).push((field, e)),
            _ => errors_view(old(errors)@),
        },
        pairs_view(final(values)@) == match attr_of(result) {
            Attr::Value(v) => if v.len() > 0 {
                pairs_view(old(values)@).push((field, v))
            } else {
                pairs_view(old(values)@)
            },
            _ => pairs_view(old(values)@),
        },
{
    match result {
        Ok(Some(v)) => {
            if !v.as_str().is_empty() {
                values.push((field, v));
                assert(pairs_view(values@) =~= pairs_view(old(values)@).push((field, values@.last().1@)));
            }
        },
        Ok(None) => {},
        Err(e) => {
            errors.push(FieldError { field, message: e });
            assert(errors_view(errors@) =~= errors_view(old(errors)@).push(
                (field, errors@.last().message@),
            ));
        },
    }
}

impl Payment {
    fn resolve_amount(&self) -> (r: Result<Option<String>, String>)
        ensures
            attr_of(r) == amount_attr(*self),
    {
        let raw = trimmed(self.amount.as_str());
        if raw.len() == 0 {
            if self.preset.requirement(Field::Amount) == Requirement::Mandatory {
                return Err(required(self.preset));
            }
            return Ok(None);
        }
        let value = commas_to_dots(raw.as_slice());
        if !is_amount(value.as_slice()) {
            return Err(owned(
                "Enter an amount of up to 9 digits, or 7 digits with 1-2 decimal places.",
            ));
        }
        Ok(Some(from_chars(value.as_slice())))
    }

    fn resolve_currency(&self, has_amount: bool) -> (r: Result<Option<String>, String>)
        ensures
            attr_of(r) == currency_attr(*self, has_amount),
    {
        let t = trimmed(self.currency.as_str());
        let raw = upper_chars(t.as_slice());
        if !has_amount && self.preset.requirement(Field::Currency) != Requirement::Mandatory {
            return Ok(None);
        }
        if raw.len() == 0 {
            if self.preset.requirement(Field::Currency) == Requirement::Mandatory {
                return Err(required(self.preset));
            }
            return Ok(None);
        }
        if !crate::strings::chars_eq_str(raw.as_slice(), "EUR") {
            return Err(owned("Version 2 of the standard only supports EUR."));
        }
        Ok(Some(from_chars(raw.as_slice())))
    }

    /// What the date parser makes of the trimmed due date field.
    pub fn read_due_date(&self) -> (r: Option<String>)
        ensures
            match r {
                Some(d) => due_date_of(*self) == Some(d@),
                None => due_date_of(*self) is None,
            },
    {
        let t = trimmed(self.due_date.as_str());
        let raw = from_chars(t.as_slice());
        match read_date(raw.as_str(), "%Y-%m-%d") {
            Some(d) => Some(d),
            None => read_date(raw.as_str(), "%Y%m%d"),
        }
    }

    fn resolve_due_date(&self, date: &Option<String>) -> (r: Result<Option<String>, String>)
        ensures
            attr_of(r) == due_attr(
                *self,
                opt_view(*date),
            ),
    {
        if self.preset.requirement(Field::DueDate) == Requirement::Omitted {
            return Ok(None);
        }
        let raw = trimmed(self.due_date.as_str());
        if raw.len() == 0 {
            return Ok(None);
        }
        match date {
            Some(d) => Ok(Some(d.clone())),
            None => Err(owned("Enter a date as YYYY-MM-DD or YYYYMMDD.")),
        }
    }

    fn resolve_text(&self, field: Field, raw: &str) -> (r: Result<Option<String>, String>)
        ensures
            attr_of(r) == text_attr(*self, field, raw@),
    {
        let t = trimmed(raw);
        if t.len() == 0 {
            if self.preset.requirement(field) == Requirement::Mandatory {
                return Err(required(self.preset));
            }
            return Ok(Some(String::new()));
        }
        let value = if self.normalize_text {
            let ts = from_chars(t.as_slice());
            let n = text::normalize(ts.as_str());
            trimmed(n.value.as_str())
        } else {
            t
        };
        if value.len() == 0 && self.preset.requirement(field) == Requirement::Mandatory {
            return Err(required(self.preset));
        }
        if value.len() > field.max_len() {
            let mut out: Vec<char> = Vec::new();
            push_str(&mut out, "Maximum length is ");
            let digits = crate::strings::decimal_chars(field.max_len() as u64);
            push_all(&mut out, digits.as_slice());
            push_str(&mut out, " characters.");
            return Err(from_chars(out.as_slice()));
        }
        let text = from_chars(value.as_slice());
        if !self.normalize_text {
            let unsupported = text::unsupported_chars(text.as_str());
            if unsupported.len() > 0 {
                let mut out: Vec<char> = Vec::new();
                push_str(&mut out, "Unsupported characters: ");
                push_all(&mut out, unsupported.as_slice());
                push_str(&mut out, " (enable normalisation to strip them).");
                return Err(from_chars(out.as_slice()));
            }
        }
        Ok(Some(text))
    }

    fn resolve_payment_id(&self) -> (r: Result<Option<String>, String>)
        ensures
            attr_of(r) == payment_id_attr(*self),
    {
        let value = match self.resolve_text(Field::PaymentId, self.reference.as_str()) {
            Ok(Some(v)) => v,
            Ok(None) => return Ok(None),
            Err(e) => return Err(e),
        };
        let v = to_chars(value.as_str());
        if v.len() == 0 {
            return Ok(None);
        }
        if !reference::is_canonical(value.as_str()) {
            if v[0] == '/' || v[v.len() - 1] == '/' {
                return Err(owned("Must not start or end with `/`."));
            }
            let dd: Vec<char> = vec!['/', '/'];
            assert(dd@ =~= seq!['/', '/']);
            if find_chars(v.as_slice(), dd.as_slice()).is_some() {
                return Err(owned("Must not contain `//`."));
            }
        }
        Ok(Some(value))
    }

    /// Validate every field against what the date parser made of the due
    /// date, and produce the transmitted attribute values or every error.
    pub fn resolve_with_date(&self, date: Option<String>) -> (r: Result<Resolved, Vec<FieldError>>)
        ensures
            resolved_as(r, resolution(*self, opt_view(date))),
    {
        let ghost dv = opt_view(date);
        let ghost a = attrs(*self, dv);
        let iban = match iban::parse(self.iban.as_str()) {
            Ok(v) => Ok(Some(v)),
            Err(e) => Err(e),
        };
        let amount = self.resolve_amount();
        let has_amount = matches!(amount, Ok(Some(_)));
        let currency = self.resolve_currency(has_amount);
        let due = self.resolve_due_date(&date);
        let payment_id = self.resolve_payment_id();
        let message = self.resolve_text(Field::Message, self.message.as_str());
        let creditor = self.resolve_text(Field::CreditorName, self.creditor_name.as_str());
        assert(attr_of(iban) == a[0].1);
        assert(attr_of(amount) == a[1].1);
        assert(attr_of(currency) == a[2].1);
        assert(attr_of(due) == a[3].1);
        assert(attr_of(payment_id) == a[4].1);
        assert(attr_of(message) == a[5].1);
        assert(attr_of(creditor) == a[6].1);
        let mut errors: Vec<FieldError> = Vec::new();
        let mut values: Vec<(Field, String)> = Vec::new();
        assert(a.take(0) =~= Seq::<(Field, Attr)>::empty());
        assert(errors_view(errors@) =~= errors_of(a.take(0)));
        assert(pairs_view(values@) =~= values_of(a.take(0)));
        gather(Field::Iban, iban, &mut errors, &mut values);
        proof { lemma_take_step(a, 0); }
        gather(Field::Amount, amount, &mut errors, &mut values);
        proof { lemma_take_step(a, 1); }
        gather(Field::Currency, currency, &mut errors, &mut values);
        proof { lemma_take_step(a, 2); }
        gather(Field::DueDate, due, &mut errors, &mut values);
        proof { lemma_take_step(a, 3); }
        gather(Field::PaymentId, payment_id, &mut errors, &mut values);
        proof { lemma_take_step(a, 4); }
        gather(Field::Message, message, &mut errors, &mut values);
        proof { lemma_take_step(a, 5); }
        gather(Field::CreditorName, creditor, &mut errors, &mut values);
        proof { lemma_take_step(a, 6); }
        assert(a.take(7) =~= a);
        if errors.len() == 0 {
            Ok(Resolved { payment_type: self.preset.payment_type(), values })
        } else {
            Err(errors)
        }
    }

    /// Validate every field and produce the transmitted attribute values.
    pub fn resolve(&self) -> (r: Result<Resolved, Vec<FieldError>>)
        ensures
            resolved_as(r, resolution(*self, due_date_of(*self))),
    {
        let date = if self.preset.requirement(Field::DueDate) == Requirement::Omitted {
            None
        } else {
            let raw = trimmed(self.due_date.as_str());
            if raw.len() == 0 {
                None
            } else {
                self.read_due_date()
            }
        };
        let ghost dv = opt_view(date);
        let r = self.resolve_with_date(date);
        proof {
            assert(due_attr(*self, dv) == due_attr(*self, due_date_of(*self)));
            assert(attrs(*self, dv) =~= attrs(*self, due_date_of(*self)));
        }
        r
    }
}

// ---------------------------------------------------------------------------
// Laws
// ---------------------------------------------------------------------------

/// The fields of a list strictly increase in query-string order.
pub open spec fn ordered(v: Seq<(Field, Seq<char>)>) -> bool {
    forall|i: int, j: int| 0 <= i < j < v.len() ==> field_rank(#[trigger] v[i].0) < field_rank(#[trigger] v[j].0)
}

pub open spec fn attrs_ordered(a: Seq<(Field, Attr)>) -> bool {
    forall|i: int, j: int| 0 <= i < j < a.len() ==> field_rank(#[trigger] a[i].0) < field_rank(#[trigger] a[j].0)
}

/// What an attribute puts into the link.
pub open spec fn sent(a: Attr) -> Option<Seq<char>> {
    match a {
        Attr::Value(v) => if v.len() > 0 {
            Some(v)
        } else {
            None
        },
        _ => None,
    }
}

proof fn lemma_ranks_bounded(a: Seq<(Field, Attr)>, bound: int)
    requires
        forall|i: int| 0 <= i < a.len() ==> field_rank(#[trigger] a[i].0) < bound,
    ensures
        forall|i: int| 0 <= i < values_of(a).len() ==> field_rank(#[trigger] values_of(a)[i].0) < bound,
        forall|i: int| 0 <= i < errors_of(a).len() ==> field_rank(#[trigger] errors_of(a)[i].0) < bound,
    decreases a.len(),
{
    if a.len() > 0 {
        let t = a.drop_last();
        assert forall|i: int| 0 <= i < t.len() implies field_rank(#[trigger] t[i].0) < bound by {
            assert(t[i] == a[i]);
        }
        lemma_ranks_bounded(t, bound);
        let last = a[a.len() - 1];
        assert(field_rank(last.0) < bound);
        let (vs, es) = (values_of(t), errors_of(t));
        assert forall|i: int| 0 <= i < values_of(a).len() implies field_rank(
            #[trigger] values_of(a)[i].0,
        ) < bound by {
            if i < vs.len() {
                lemma_values_prefix(a, i);
            }
        }
        assert forall|i: int| 0 <= i < errors_of(a).len() implies field_rank(
            #[trigger] errors_of(a)[i].0,
        ) < bound by {
            if i < es.len() {
                lemma_errors_prefix(a, i);
            }
        }
    }
}

/// Appending an attribute keeps the values already gathered, and adds at most
/// the last one.
proof fn lemma_values_prefix(a: Seq<(Field, Attr)>, i: int)
    requires
        a.len() > 0,
    ensures
        values_of(a).len() == values_of(a.drop_last()).len() || (values_of(a).len() == values_of(
            a.drop_last(),
        ).len() + 1 && values_of(a).last() == (a.last().0, a.last().1->Value_0)
            && a.last().1 is Value && a.last().1->Value_0.len() > 0),
        0 <= i < values_of(a.drop_last()).len() ==> values_of(a)[i] == values_of(a.drop_last())[i],
{
}

proof fn lemma_errors_prefix(a: Seq<(Field, Attr)>, i: int)
    requires
        a.len() > 0,
    ensures
        errors_of(a).len() == errors_of(a.drop_last()).len() || (errors_of(a).len() == errors_of(
            a.drop_last(),
        ).len() + 1 && errors_of(a).last() == (a.last().0, a.last().1->Error_0)
            && a.last().1 is Error),
        0 <= i < errors_of(a.drop_last()).len() ==> errors_of(a)[i] == errors_of(a.drop_last())[i],
{
}

proof fn lemma_filters_ordered(a: Seq<(Field, Attr)>)
    requires
        attrs_ordered(a),
    ensures
        ordered(values_of(a)),
        ordered(errors_of(a)),
    decreases a.len(),
{
    if a.len() > 0 {
        let t = a.drop_last();
        assert(attrs_ordered(t));
        lemma_filters_ordered(t);
        let last = a[a.len() - 1];
        assert forall|i: int| 0 <= i < t.len() implies field_rank(#[trigger] t[i].0) < field_rank(last.0) by {
            assert(t[i] == a[i]);
        }
        lemma_ranks_bounded(t, field_rank(last.0));
    }
}

proof fn lemma_lookup_push(v: Seq<(Field, Seq<char>)>, x: (Field, Seq<char>), f: Field)
    ensures
        lookup(v.push(x), f) == if lookup(v, f) is Some {
            lookup(v, f)
        } else if x.0 == f {
            Some(x.1)
        } else {
            None::<Seq<char>>
        },
    decreases v.len(),
{
    let w = v.push(x);
    assert(w[0] == if v.len() > 0 { v[0] } else { x });
    if v.len() > 0 {
        assert(w.skip(1) =~= v.skip(1).push(x));
        lemma_lookup_push(v.skip(1), x, f);
        if v[0].0 != f {
            assert(lookup(w, f) == lookup(w.skip(1), f));
            assert(lookup(v, f) == lookup(v.skip(1), f));
        }
    } else {
        assert(w.skip(1) =~= Seq::<(Field, Seq<char>)>::empty());
        assert(lookup(v, f) is None);
        if x.0 != f {
            assert(lookup(w, f) == lookup(w.skip(1), f));
        }
    }
}

/// The value a field is sent with: the one its attribute resolved to, when
/// the field occurs once among the attributes.
proof fn lemma_lookup_values(a: Seq<(Field, Attr)>, k: int)
    requires
        attrs_ordered(a),
        0 <= k < a.len(),
    ensures
        lookup(values_of(a), a[k].0) == sent(a[k].1),
    decreases a.len(),
{
    let f = a[k].0;
    let t = a.drop_last();
    assert(attrs_ordered(t));
    let last = a[a.len() - 1];
    if k < a.len() - 1 {
        lemma_lookup_values(t, k);
        assert(t[k] == a[k]);
        assert(field_rank(f) < field_rank(last.0));
        match last.1 {
            Attr::Value(v) => if v.len() > 0 {
                lemma_lookup_push(values_of(t), (last.0, v), f);
            },
            _ => {},
        }
    } else {
        lemma_lookup_absent(t, f);
        match last.1 {
            Attr::Value(v) => if v.len() > 0 {
                lemma_lookup_push(values_of(t), (last.0, v), f);
            },
            _ => {},
        }
    }
}

proof fn lemma_lookup_absent(a: Seq<(Field, Attr)>, f: Field)
    requires
        forall|i: int| 0 <= i < a.len() ==> (#[trigger] a[i]).0 != f,
    ensures
        lookup(values_of(a), f) is None,
    decreases a.len(),
{
    if a.len() > 0 {
        let t = a.drop_last();
        assert forall|i: int| 0 <= i < t.len() implies (#[trigger] t[i]).0 != f by {
            assert(t[i] == a[i]);
        }
        lemma_lookup_absent(t, f);
        let last = a[a.len() - 1];
        match last.1 {
            Attr::Value(v) => if v.len() > 0 {
                lemma_lookup_push(values_of(t), (last.0, v), f);
            },
            _ => {},
        }
    }
}

proof fn lemma_attrs_ordered(p: Payment, date: Option<Seq<char>>)
    ensures
        attrs_ordered(attrs(p, date)),
        attrs(p, date).len() == 7,
{
}

/// The value sent for each field, when validation succeeds.
pub open spec fn sent_value(p: Payment, date: Option<Seq<char>>, f: Field) -> Option<Seq<char>> {
    sent(attrs(p, date)[field_rank(f)].1)
}

/// Validation reports every problem at once: errors come one per field at
/// most, in the order of the query string; the values to send likewise, each
/// non-empty; and each field is sent with exactly the value it resolved to.
pub proof fn lemma_resolution_shape(p: Payment, date: Option<Seq<char>>)
    ensures
        match resolution(p, date) {
            Ok((t, values)) => {
                &&& t == preset_type(p.preset)
                &&& ordered(values)
                &&& forall|i: int| 0 <= i < values.len() ==> (#[trigger] values[i]).1.len() > 0
                &&& forall|f: Field| #[trigger] lookup(values, f) == sent_value(p, date, f)
            },
            Err(errors) => errors.len() > 0 && ordered(errors),
        },
{
    let a = attrs(p, date);
    lemma_attrs_ordered(p, date);
    lemma_filters_ordered(a);
    lemma_values_nonempty(a);
    assert forall|f: Field| #[trigger] lookup(values_of(a), f) == sent_value(p, date, f) by {
        let k = field_rank(f);
        assert(a[k].0 == f);
        lemma_lookup_values(a, k);
    }
}

proof fn lemma_values_nonempty(a: Seq<(Field, Attr)>)
    ensures
        forall|i: int| 0 <= i < values_of(a).len() ==> (#[trigger] values_of(a)[i]).1.len() > 0,
    decreases a.len(),
{
    if a.len() > 0 {
        let t = a.drop_last();
        lemma_values_nonempty(t);
        assert forall|i: int| 0 <= i < values_of(a).len() implies (
        #[trigger] values_of(a)[i]).1.len() > 0 by {
            lemma_values_prefix(a, i);
            if i < values_of(t).len() {
                assert(values_of(t)[i].1.len() > 0);
            }
        }
    }
}

/// What the standard asks of the attributes a link carries, given the value
/// sent for each field: attributes the payment type omits are not sent; every
/// mandatory attribute is sent; the currency only travels alongside an amount and is
/// `EUR`; an amount has at most nine digits, or seven and one or two
/// decimals; free text is within its length limit and in the recommended
/// character set; the IBAN sent is a valid IBAN.
pub open spec fn meets_standard(p: Payment, sent: spec_fn(Field) -> Option<Seq<char>>) -> bool {
    &&& forall|f: Field|
        requirement_of(p.preset, f) == Requirement::Omitted ==> #[trigger] sent(f) is None
    &&& mandatory(p.preset, Field::Iban) ==> sent(Field::Iban) is Some
    &&& mandatory(p.preset, Field::Amount) ==> sent(Field::Amount) is Some
    &&& mandatory(p.preset, Field::Currency) ==> sent(Field::Currency) is Some
    &&& mandatory(p.preset, Field::PaymentId) ==> sent(Field::PaymentId) is Some
    &&& mandatory(p.preset, Field::CreditorName) ==> sent(Field::CreditorName) is Some
    &&& sent(Field::Currency) is Some ==> sent(Field::Amount) is Some
    &&& sent(Field::Currency) matches Some(c) ==> c == "EUR"@
    &&& sent(Field::Amount) matches Some(am) ==> amount_ok(am)
    &&& text_fits(sent(Field::PaymentId), Field::PaymentId)
    &&& text_fits(sent(Field::Message), Field::Message)
    &&& text_fits(sent(Field::CreditorName), Field::CreditorName)
    &&& sent(Field::Iban) matches Some(v) ==> iban::looks_like_iban(v) && iban::iban_check(v)
        == Ok::<(), Seq<char>>(())
}

/// A free-text value within its field's length limit and in the recommended
/// character set.
pub open spec fn text_fits(value: Option<Seq<char>>, f: Field) -> bool {
    value matches Some(v) ==> v.len() <= field_max_len(f) && forall|i: int|
        0 <= i < v.len() ==> recommended(#[trigger] v[i])
}

/// Every payment that validates meets the standard with the values it sends.
pub proof fn lemma_resolution_meets_standard(p: Payment, date: Option<Seq<char>>)
    ensures
        resolution(p, date) matches Ok((t, values)) ==> meets_standard(
            p,
            |f: Field| lookup(values, f),
        ),
{
    let a = attrs(p, date);
    if errors_of(a).len() == 0 {
        lemma_resolution_shape(p, date);
        lemma_no_errors(a);
        lemma_attrs_ordered(p, date);
        let values = values_of(a);
        assert(!(a[0].1 is Error) && !(a[1].1 is Error) && !(a[2].1 is Error) && !(
        a[3].1 is Error) && !(a[4].1 is Error) && !(a[5].1 is Error) && !(a[6].1 is Error));
        lemma_clean_meets_standard(p, date);
        assert forall|f: Field| #[trigger] lookup(values, f) == sent_value(p, date, f) by {}
        assert((|f: Field| lookup(values, f)) =~= (|f: Field| sent_value(p, date, f)));
    }
}

/// The values of attributes none of which is in error meet the standard.
proof fn lemma_clean_meets_standard(p: Payment, date: Option<Seq<char>>)
    requires
        forall|k: int| 0 <= k < 7 ==> !((#[trigger] attrs(p, date)[k]).1 is Error),
    ensures
        meets_standard(p, |f: Field| sent_value(p, date, f)),
{
    let a = attrs(p, date);
    assert(!(a[0].1 is Error) && !(a[1].1 is Error) && !(a[2].1 is Error) && !(a[3].1 is Error)
        && !(a[4].1 is Error) && !(a[5].1 is Error) && !(a[6].1 is Error));
    let sv = |f: Field| sent_value(p, date, f);
    iban::lemma_parsed_is_valid(p.iban@);
    lemma_text_sent(p, Field::Message, p.message@);
    lemma_text_sent(p, Field::CreditorName, p.creditor_name@);
    lemma_text_sent(p, Field::PaymentId, p.reference@);
    lemma_amount_sent(p);
    assert forall|f: Field| requirement_of(p.preset, f) == Requirement::Omitted implies #[trigger] sv(
        f,
    ) is None by {
        assert(f == Field::DueDate);
    }
    if sv(Field::Iban) is Some {
        assert(iban_attr(p) is Value);
    }
}

/// An amount that validates is sent, and is a well-formed amount.
proof fn lemma_amount_sent(p: Payment)
    ensures
        amount_attr(p) matches Attr::Value(v) ==> v.len() > 0 && amount_ok(v),
{
    let raw = trim(p.amount@);
    assert(comma_to_dot(raw).len() == raw.len());
}

/// A free-text value that validates fits its field, and a mandatory one that
/// validates has something left to send.
proof fn lemma_text_sent(p: Payment, f: Field, raw: Seq<char>)
    ensures
        text_attr(p, f, raw) matches Attr::Value(v) ==> text_fits(Some(v), f),
        mandatory(p.preset, f) && !(text_attr(p, f, raw) is Error) ==> text_value(p, raw).len() > 0
            && text_attr(p, f, raw) == Attr::Value(text_value(p, raw)),
{
    lemma_text_recommended(p, f, raw);
}

/// With no error among the attributes, none of them is in error.
proof fn lemma_no_errors(a: Seq<(Field, Attr)>)
    requires
        errors_of(a).len() == 0,
    ensures
        forall|i: int| 0 <= i < a.len() ==> !((#[trigger] a[i]).1 is Error),
    decreases a.len(),
{
    if a.len() > 0 {
        let t = a.drop_last();
        match a[a.len() - 1].1 {
            Attr::Error(e) => {
                assert(errors_of(a).len() == errors_of(t).len() + 1);
            },
            _ => {},
        }
        lemma_no_errors(t);
        assert forall|i: int| 0 <= i < a.len() implies !((#[trigger] a[i]).1 is Error) by {
            if i < t.len() {
                assert(t[i] == a[i]);
            }
        }
    }
}

/// A free-text value that validation accepts is in the recommended set.
proof fn lemma_text_recommended(p: Payment, f: Field, raw: Seq<char>)
    ensures
        text_attr(p, f, raw) matches Attr::Value(v) ==> forall|i: int|
            0 <= i < v.len() ==> recommended(#[trigger] v[i]),
{
    let t = trim(raw);
    if t.len() > 0 && p.normalize_text {
        let n = text::annex_a(t);
        text::lemma_annex_a_recommended(t);
        let v = trim(n);
        crate::strings::lemma_lead_ws_bound(n);
        crate::strings::lemma_trail_ws_bound(n.skip(crate::strings::lead_ws(n) as int));
        assert forall|i: int| 0 <= i < v.len() implies recommended(#[trigger] v[i]) by {
            assert(v[i] == n[i + crate::strings::lead_ws(n)]);
        }
    } else if t.len() > 0 {
        let v = trim(raw);
        if text::unsupported_of(v).len() == 0 {
            text::lemma_unsupported(v);
            assert forall|i: int| 0 <= i < v.len() implies recommended(#[trigger] v[i]) by {
                if !recommended(v[i]) {
                    assert(v.contains(v[i]));
                    assert(text::unsupported_of(v).contains(v[i]));
                }
            }
        }
    }
}

} // verus!
