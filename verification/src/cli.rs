//! Non-interactive mode: the flags, and the payment they describe.

use vstd::prelude::*;

use crate::contacts::{iban_of, Contacts};
use crate::payment::{Payment, Resolved};
use crate::qr::TerminalStyle;
use crate::reference::{self, digits_of, reference_of, Symbols};
use crate::spec::{Field, PaymentType, Preset};
use crate::strings::{from_chars, push_str, to_chars, trim};

verus! {

/// Exit code used when the payment does not satisfy the standard.
pub const EXIT_INVALID: i32 = 2;

/// The command line, as the argument parser hands it over.
#[derive(Debug, Clone, PartialEq, Eq)]
pub struct Args {
    /// Form preset: p2p, invoice, store, eshop or donation.
    pub preset: Option<Preset>,
    /// Type path component, for those who would rather pick it directly.
    pub payment_type: Option<PaymentType>,
    /// Recipient IBAN; optional when the name has been remembered.
    pub iban: Option<String>,
    /// Recipient name (CN).
    pub name: Option<String>,
    pub amount: Option<String>,
    pub currency: String,
    /// Due date, `YYYY-MM-DD`; only carried by `/p/` links.
    pub due: Option<String>,
    /// Payment identification (PI) as free text.
    pub reference: Option<String>,
    pub vs: Option<String>,
    pub ss: Option<String>,
    pub ks: Option<String>,
    pub msg: Option<String>,
    /// Write the QR code to this PNG file.
    pub png: Option<String>,
    /// Write the QR code to this SVG file.
    pub svg: Option<String>,
    /// Pixels (PNG) or units (SVG) per QR module.
    pub scale: u32,
    pub print_link: bool,
    pub print_qr: bool,
    /// Draw the printed QR code with two characters per module.
    pub blocks: bool,
    /// Keep national characters instead of folding them to the Annex A set.
    pub no_normalize: bool,
    /// Recipient history file.
    pub contacts: Option<String>,
    /// Do not add this recipient to the history file.
    pub no_remember: bool,
    /// List the remembered recipients and exit.
    pub list_contacts: bool,
}

/// The text of an optional flag, empty when it is absent.
pub open spec fn text_or_empty(o: Option<String>) -> Seq<char> {
    match o {
        Some(s) => s@,
        None => seq![],
    }
}

fn owned_or_empty(o: &Option<String>) -> (r: String)
    ensures
        r@ == text_or_empty(*o),
{
    match o {
        Some(s) => s.clone(),
        None => String::new(),
    }
}

/// The preset the flags select: `--preset`, else the plainest preset for the
/// `--type` letter, else person to person.
pub open spec fn preset_of(a: Args) -> Preset {
    match a.preset {
        Some(p) => p,
        None => match a.payment_type {
            Some(PaymentType::M) => Preset::Store,
            Some(PaymentType::E) => Preset::Eshop,
            Some(PaymentType::Q) => Preset::Donation,
            _ => Preset::P2p,
        },
    }
}

/// A `--type` letter given without `--preset` picks a preset of that very
/// payment type.
pub proof fn lemma_type_letter_preset(a: Args)
    ensures
        a.preset is None ==> (a.payment_type matches Some(t) ==> crate::spec::preset_type(
            preset_of(a),
        ) == t),
        a.preset matches Some(q) ==> preset_of(a) == q,
{
}

/// The first symbol flag longer than the standard allows (10, 10 and 4
/// digits), with the message reporting it.
pub open spec fn symbol_error(a: Args) -> Option<Seq<char>> {
    if digits_of(text_or_empty(a.vs)).len() > 10 {
        Some("--vs takes at most 10 digits"@)
    } else if digits_of(text_or_empty(a.ss)).len() > 10 {
        Some("--ss takes at most 10 digits"@)
    } else if digits_of(text_or_empty(a.ks)).len() > 4 {
        Some("--ks takes at most 4 digits"@)
    } else {
        None
    }
}

/// The payment identification: built from the symbols when any is given,
/// else the free text of `--ref`.
pub open spec fn reference_text(a: Args) -> Seq<char> {
    let vs = digits_of(text_or_empty(a.vs));
    let ss = digits_of(text_or_empty(a.ss));
    let ks = digits_of(text_or_empty(a.ks));
    if vs.len() == 0 && ss.len() == 0 && ks.len() == 0 {
        text_or_empty(a.reference)
    } else {
        reference_of(vs, ss, ks)
    }
}

/// The message when neither the flags nor the history give an IBAN.
pub open spec fn missing_iban_message(name: Seq<char>) -> Seq<char> {
    "no IBAN given and \""@ + name
        + "\" is not in the recipient history; pass --iban once and it will be remembered"@
}

/// The IBAN the payment goes to: `--iban`, else the one remembered for the name.
pub open spec fn iban_choice(a: Args, history: crate::contacts::Entries) -> Option<Seq<char>> {
    match a.iban {
        Some(i) => Some(i@),
        None => iban_of(history, text_or_empty(a.name)),
    }
}

/// The payment the flags describe, field by field.
pub open spec fn describes(a: Args, iban: Seq<char>, p: Payment) -> bool {
    &&& p.preset == preset_of(a)
    &&& p.iban@ == iban
    &&& p.creditor_name@ == text_or_empty(a.name)
    &&& p.amount@ == text_or_empty(a.amount)
    &&& p.currency@ == a.currency@
    &&& p.due_date@ == text_or_empty(a.due)
    &&& p.reference@ == reference_text(a)
    &&& p.message@ == text_or_empty(a.msg)
    &&& p.normalize_text == !a.no_normalize
}

impl Args {
    /// Which preset the flags select. `--type` picks the plainest preset for
    /// that type path component.
    pub fn preset(&self) -> (r: Preset)
        ensures
            r == preset_of(*self),
    {
        if let Some(preset) = self.preset {
            return preset;
        }
        match self.payment_type {
            Some(PaymentType::M) => Preset::Store,
            Some(PaymentType::E) => Preset::Eshop,
            Some(PaymentType::Q) => Preset::Donation,
            _ => Preset::P2p,
        }
    }

    /// The symbols, with everything but digits dropped.
    pub fn symbols(&self) -> (r: Symbols)
        ensures
            r.vs@ == digits_of(text_or_empty(self.vs)),
            r.ss@ == digits_of(text_or_empty(self.ss)),
            r.ks@ == digits_of(text_or_empty(self.ks)),
    {
        let vs = owned_or_empty(&self.vs);
        let ss = owned_or_empty(&self.ss);
        let ks = owned_or_empty(&self.ks);
        Symbols {
            vs: reference::digits_only(vs.as_str()),
            ss: reference::digits_only(ss.as_str()),
            ks: reference::digits_only(ks.as_str()),
        }
    }

    /// Check the symbol lengths, which the standard fixes per symbol.
    pub fn validate_symbols(&self) -> (r: Result<(), String>)
        ensures
            match r {
                Ok(()) => symbol_error(*self) is None,
                Err(e) => symbol_error(*self) == Some(e@),
            },
    {
        let symbols = self.symbols();
        proof {
            reveal_strlit("--vs takes at most 10 digits");
            reveal_strlit("--ss takes at most 10 digits");
            reveal_strlit("--ks takes at most 4 digits");
        }
        if to_chars(symbols.vs.as_str()).len() > 10 {
            return Err(crate::strings::owned("--vs takes at most 10 digits"));
        }
        if to_chars(symbols.ss.as_str()).len() > 10 {
            return Err(crate::strings::owned("--ss takes at most 10 digits"));
        }
        if to_chars(symbols.ks.as_str()).len() > 4 {
            return Err(crate::strings::owned("--ks takes at most 4 digits"));
        }
        Ok(())
    }

    /// The payment the flags describe. An omitted IBAN is looked up under the
    /// recipient's name, so a payee paid once can be paid again by name alone.
    pub fn to_payment(&self, contacts: &Contacts) -> (r: Result<Payment, String>)
        ensures
            match r {
                Ok(p) => {
                    &&& symbol_error(*self) is None
                    &&& iban_choice(*self, contacts@) matches Some(iban) && describes(*self, iban, p)
                },
                Err(e) => match symbol_error(*self) {
                    Some(m) => e@ == m,
                    None => iban_choice(*self, contacts@) is None && e@ == missing_iban_message(
                        text_or_empty(self.name),
                    ),
                },
            },
    {
        self.validate_symbols()?;
        let symbols = self.symbols();
        let reference = if symbols.is_empty() {
            owned_or_empty(&self.reference)
        } else {
            reference::build(&symbols)
        };
        let name = owned_or_empty(&self.name);
        let iban = match &self.iban {
            Some(iban) => iban.clone(),
            None => match contacts.iban_for(name.as_str()) {
                Some(found) => crate::strings::owned(found),
                None => {
                    let mut out: Vec<char> = Vec::new();
                    push_str(&mut out, "no IBAN given and \"");
                    push_str(&mut out, name.as_str());
                    push_str(
                        &mut out,
                        "\" is not in the recipient history; pass --iban once and it will be remembered",
                    );
                    return Err(from_chars(out.as_slice()));
                },
            },
        };
        Ok(
            Payment {
                preset: self.preset(),
                iban,
                creditor_name: name,
                amount: owned_or_empty(&self.amount),
                currency: self.currency.clone(),
                due_date: owned_or_empty(&self.due),
                reference,
                message: owned_or_empty(&self.msg),
                normalize_text: !self.no_normalize,
            },
        )
    }

    /// How the QR code is drawn on the terminal.
    pub fn style(&self) -> (r: TerminalStyle)
        ensures
            r == (if self.blocks {
                TerminalStyle::FullBlocks
            } else {
                TerminalStyle::HalfBlocks
            }),
    {
        if self.blocks {
            TerminalStyle::FullBlocks
        } else {
            TerminalStyle::HalfBlocks
        }
    }

    /// With no output selected, the link and the code are both shown.
    pub fn nothing_requested(&self) -> (r: bool)
        ensures
            r == (!self.print_link && !self.print_qr && self.png is None && self.svg is None),
    {
        !self.print_link && !self.print_qr && self.png.is_none() && self.svg.is_none()
    }

    /// Once the code was produced its recipient is kept for next time: the
    /// creditor name and IBAN the link carries go into the history, unless
    /// remembering was switched off or the history has no file. Returns
    /// whether the history changed and so has to be written.
    pub fn remember_recipient(&self, contacts: &mut Contacts, has_file: bool, resolved: &Resolved) -> (r: bool)
        requires
            old(contacts).wf(),
        ensures
            final(contacts).wf(),
            ({
                let values = crate::payment::pairs_view(resolved.values@);
                match (
                    crate::payment::lookup(values, Field::CreditorName),
                    crate::payment::lookup(values, Field::Iban),
                ) {
                    (Some(n), Some(i)) if !self.no_remember && has_file => (r, final(contacts)@)
                        == crate::contacts::remembered(old(contacts)@, n, i),
                    _ => !r && final(contacts)@ == old(contacts)@,
                }
            }),
    {
        if self.no_remember || !has_file {
            return false;
        }
        match (resolved.get(Field::CreditorName), resolved.get(Field::Iban)) {
            (Some(name), Some(iban)) => contacts.remember(name, iban),
            _ => false,
        }
    }
}

/// The free-text fields whose transmitted value differs from what was
/// typed, once trimmed: what normalisation changed.
pub open spec fn changed_fields(p: Payment, values: Seq<(Field, Seq<char>)>) -> Seq<(Field, Seq<char>)> {
    let sent = |f: Field|
        match crate::payment::lookup(values, f) {
            Some(v) => v,
            None => seq![],
        };
    let check = |f: Field, original: Seq<char>|
        if p.normalize_text && original.len() > 0 && sent(f) != trim(original) {
            seq![(f, sent(f))]
        } else {
            seq![]
        };
    check(Field::CreditorName, p.creditor_name@) + check(Field::Message, p.message@) + check(
        Field::PaymentId,
        p.reference@,
    )
}

/// Every field that normalisation changed on its way into the link, with the
/// value that is sent, so that nothing is altered silently.
pub fn normalisation_notes(payment: &Payment, resolved: &Resolved) -> (r: Vec<(Field, String)>)
    ensures
        crate::payment::pairs_view(r@) == changed_fields(
            *payment,
            crate::payment::pairs_view(resolved.values@),
        ),
{
    let mut notes: Vec<(Field, String)> = Vec::new();
    if payment.normalize_text {
        note_change(&mut notes, resolved, Field::CreditorName, payment.creditor_name.as_str());
        note_change(&mut notes, resolved, Field::Message, payment.message.as_str());
        note_change(&mut notes, resolved, Field::PaymentId, payment.reference.as_str());
    }
    let ghost v = crate::payment::pairs_view(resolved.values@);
    assert(crate::payment::pairs_view(notes@) =~= changed_fields(*payment, v));
    notes
}

/// Record `field` when what is sent for it differs from the trimmed original.
fn note_change(notes: &mut Vec<(Field, String)>, resolved: &Resolved, field: Field, original: &str)
    ensures
        crate::payment::pairs_view(final(notes)@) == crate::payment::pairs_view(old(notes)@) + ({
            let sent = match crate::payment::lookup(
                crate::payment::pairs_view(resolved.values@),
                field,
            ) {
                Some(v) => v,
                None => seq![],
            };
            if original@.len() > 0 && sent != trim(original@) {
                seq![(field, sent)]
            } else {
                seq![]
            }
        }),
{
    let sent: &str = match resolved.get(field) {
        Some(v) => v,
        None => "",
    };
    proof {
        reveal_strlit("");
    }
    let ghost expected = match crate::payment::lookup(crate::payment::pairs_view(resolved.values@), field) {
        Some(v) => v,
        None => seq![],
    };
    assert(sent@ == expected);
    let t = crate::strings::trimmed(original);
    let s = to_chars(sent);
    if !original.is_empty() && !crate::strings::chars_eq(s.as_slice(), t.as_slice()) {
        let ghost before = notes@;
        notes.push((field, crate::strings::owned(sent)));
        assert(crate::payment::pairs_view(notes@) =~= crate::payment::pairs_view(before) + seq![
            (field, sent@),
        ]);
    } else {
        assert(crate::payment::pairs_view(notes@) =~= crate::payment::pairs_view(notes@) + seq![]);
    }
}

} // verus!
