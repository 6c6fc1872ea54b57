//! Constants and structural rules of the SBA Payment Link Standard 2.0.

use vstd::prelude::*;

use crate::strings::{
    chars_eq_str, from_chars, is_alphanumeric, lower_chars, lower_seq, push_all, push_str,
    to_chars, trim, trim_chars,
};

verus! {

/// Second-level domain of the Payment Link Website.
pub const PAYMENT_LINK_DOMAIN: &'static str = "payme.sk";

/// Path segment `{Version}`; the standard only carries major versions.
pub const VERSION: &'static str = "2";

/// Path segment `{PaymentLinkSchemeID}`; identifies the payme.sk implementation.
pub const SCHEME_ID: &'static str = "PME";

/// The only currency valid in version 2 of the standard.
pub const CURRENCY_EUR: &'static str = "EUR";

/// Type path component: the payment context the link is created for.
#[derive(Debug, Clone, Copy, PartialEq, Eq, Structural)]
pub enum PaymentType {
    /// `/m/` mobile payment at the point of interaction (dynamic QR).
    M,
    /// `/e/` e-commerce.
    E,
    /// `/q/` static QR code at the point of interaction, and donations.
    Q,
    /// `/p/` person-to-person.
    P,
}

pub open spec fn letter_char(t: PaymentType) -> char {
    match t {
        PaymentType::M => 'm',
        PaymentType::E => 'e',
        PaymentType::Q => 'q',
        PaymentType::P => 'p',
    }
}

impl PaymentType {
    pub fn letter(self) -> (r: &'static str)
        ensures
            r@ == seq![letter_char(self)],
    {
        match self {
            PaymentType::M => {
                let r = "m";
                proof {
                    reveal_strlit("m");
                }
                r
            },
            PaymentType::E => {
                let r = "e";
                proof {
                    reveal_strlit("e");
                }
                r
            },
            PaymentType::Q => {
                let r = "q";
                proof {
                    reveal_strlit("q");
                }
                r
            },
            PaymentType::P => {
                let r = "p";
                proof {
                    reveal_strlit("p");
                }
                r
            },
        }
    }

    /// The payment type named by `s`: one of `m`, `e`, `q`, `p`, in any case
    /// and with surrounding white space.
    pub open spec fn named(s: Seq<char>) -> Option<PaymentType> {
        let t = lower_seq(trim(s));
        if t == seq!['m'] {
            Some(PaymentType::M)
        } else if t == seq!['e'] {
            Some(PaymentType::E)
        } else if t == seq!['q'] {
            Some(PaymentType::Q)
        } else if t == seq!['p'] {
            Some(PaymentType::P)
        } else {
            None
        }
    }

    /// Parse a payment type; the error names what was given.
    pub fn parse(s: &str) -> (r: Result<PaymentType, String>)
        ensures
            match r {
                Ok(t) => PaymentType::named(s@) == Some(t),
                Err(e) => PaymentType::named(s@) is None && e@ == unknown_message(
                    "unknown payment type `"@,
                    lower_seq(trim(s@)),
                    "` (expected m, e, q or p)"@,
                ),
            },
    {
        let v = to_chars(s);
        let t = trim_chars(v.as_slice());
        let l = lower_chars(t.as_slice());
        let one = l.len() == 1;
        if one && l[0] == 'm' {
            assert(l@ =~= seq!['m']);
            Ok(PaymentType::M)
        } else if one && l[0] == 'e' {
            assert(l@ =~= seq!['e']);
            Ok(PaymentType::E)
        } else if one && l[0] == 'q' {
            assert(l@ =~= seq!['q']);
            Ok(PaymentType::Q)
        } else if one && l[0] == 'p' {
            assert(l@ =~= seq!['p']);
            Ok(PaymentType::P)
        } else {
            assert(l@ != seq!['m'] && l@ != seq!['e'] && l@ != seq!['q'] && l@ != seq!['p']) by {
                if l@.len() == 1 {
                    assert(seq!['m'][0] == 'm');
                    assert(seq!['e'][0] == 'e');
                    assert(seq!['q'][0] == 'q');
                    assert(seq!['p'][0] == 'p');
                }
            }
            Err(unknown(
                "unknown payment type `",
                l.as_slice(),
                "` (expected m, e, q or p)",
            ))
        }
    }
}

pub open spec fn unknown_message(head: Seq<char>, what: Seq<char>, tail: Seq<char>) -> Seq<char> {
    head + what + tail
}

fn unknown(head: &str, what: &[char], tail: &str) -> (r: String)
    ensures
        r@ == unknown_message(head@, what@, tail@),
{
    let mut out: Vec<char> = Vec::new();
    push_str(&mut out, head);
    push_all(&mut out, what);
    push_str(&mut out, tail);
    from_chars(out.as_slice())
}

impl core::str::FromStr for PaymentType {
    type Err = String;

    /// Same as [`PaymentType::parse`].
    fn from_str(s: &str) -> (r: Result<Self, Self::Err>)
        ensures
            match r {
                Ok(t) => PaymentType::named(s@) == Some(t),
                Err(e) => PaymentType::named(s@) is None && e@ == unknown_message(
                    "unknown payment type `"@,
                    lower_seq(trim(s@)),
                    "` (expected m, e, q or p)"@,
                ),
            },
    {
        PaymentType::parse(s)
    }
}

/// A query attribute of the payment link.
#[derive(Debug, Clone, Copy, PartialEq, Eq, PartialOrd, Ord, Hash, Structural)]
pub enum Field {
    Iban,
    Amount,
    Currency,
    DueDate,
    PaymentId,
    Message,
    CreditorName,
}

/// Attributes in the order they are emitted into the query string.
pub const FIELD_ORDER: [Field; 7] = [
    Field::Iban,
    Field::Amount,
    Field::Currency,
    Field::DueDate,
    Field::PaymentId,
    Field::Message,
    Field::CreditorName,
];

/// Position of a field in the query string; also the order errors are reported in.
pub open spec fn field_rank(f: Field) -> int {
    match f {
        Field::Iban => 0,
        Field::Amount => 1,
        Field::Currency => 2,
        Field::DueDate => 3,
        Field::PaymentId => 4,
        Field::Message => 5,
        Field::CreditorName => 6,
    }
}

pub open spec fn field_key(f: Field) -> Seq<char> {
    match f {
        Field::Iban => "IBAN"@,
        Field::Amount => "AM"@,
        Field::Currency => "CC"@,
        Field::DueDate => "DT"@,
        Field::PaymentId => "PI"@,
        Field::Message => "MSG"@,
        Field::CreditorName => "CN"@,
    }
}

pub open spec fn field_label(f: Field) -> Seq<char> {
    match f {
        Field::Iban => "IBAN"@,
        Field::Amount => "Amount"@,
        Field::Currency => "Currency"@,
        Field::DueDate => "Due date"@,
        Field::PaymentId => "Reference"@,
        Field::Message => "Message"@,
        Field::CreditorName => "Recipient name"@,
    }
}

pub open spec fn field_max_len(f: Field) -> nat {
    match f {
        Field::Iban => 34,
        Field::Amount => 9,
        Field::Currency => 3,
        Field::DueDate => 8,
        Field::PaymentId => 35,
        Field::Message => 140,
        Field::CreditorName => 70,
    }
}

impl Field {
    pub fn rank(self) -> (r: usize)
        ensures
            r == field_rank(self),
    {
        match self {
            Field::Iban => 0,
            Field::Amount => 1,
            Field::Currency => 2,
            Field::DueDate => 3,
            Field::PaymentId => 4,
            Field::Message => 5,
            Field::CreditorName => 6,
        }
    }

    /// Encoded attribute name used in the query string.
    pub fn key(self) -> (r: &'static str)
        ensures
            r@ == field_key(self),
    {
        match self {
            Field::Iban => "IBAN",
            Field::Amount => "AM",
            Field::Currency => "CC",
            Field::DueDate => "DT",
            Field::PaymentId => "PI",
            Field::Message => "MSG",
            Field::CreditorName => "CN",
        }
    }

    /// Human label used by the form and by command-line diagnostics.
    pub fn label(self) -> (r: &'static str)
        ensures
            r@ == field_label(self),
    {
        match self {
            Field::Iban => "IBAN",
            Field::Amount => "Amount",
            Field::Currency => "Currency",
            Field::DueDate => "Due date",
            Field::PaymentId => "Reference",
            Field::Message => "Message",
            Field::CreditorName => "Recipient name",
        }
    }

    /// Maximum length of the value before URL encoding.
    pub fn max_len(self) -> (r: usize)
        ensures
            r == field_max_len(self),
    {
        match self {
            Field::Iban => 34,
            Field::Amount => 9,
            Field::Currency => 3,
            Field::DueDate => 8,
            Field::PaymentId => 35,
            Field::Message => 140,
            Field::CreditorName => 70,
        }
    }
}

/// Whether an attribute must, may, or must not appear for a given context.
#[derive(Debug, Clone, Copy, PartialEq, Eq, Structural)]
pub enum Requirement {
    Mandatory,
    Optional,
    /// The attribute is omitted for this type; a value is not transmitted.
    Omitted,
}

/// A form preset, mirroring the tabs of the payme.sk generator.
#[derive(Debug, Clone, Copy, PartialEq, Eq, Structural)]
pub enum Preset {
    /// Ordinary person-to-person payment.
    P2p,
    /// Invoice payment: `/p/`, but the amount is expected.
    Invoice,
    /// Payment at the point of interaction.
    Store,
    /// E-commerce payment.
    Eshop,
    /// Donations and other static QR codes.
    Donation,
}

pub const PRESETS: [Preset; 5] = [
    Preset::P2p,
    Preset::Invoice,
    Preset::Store,
    Preset::Eshop,
    Preset::Donation,
];

pub open spec fn preset_type(p: Preset) -> PaymentType {
    match p {
        Preset::P2p | Preset::Invoice => PaymentType::P,
        Preset::Store => PaymentType::M,
        Preset::Eshop => PaymentType::E,
        Preset::Donation => PaymentType::Q,
    }
}

pub open spec fn preset_label(p: Preset) -> Seq<char> {
    match p {
        Preset::P2p => "P2P payment"@,
        Preset::Invoice => "Invoice"@,
        Preset::Store => "In-store (POI)"@,
        Preset::Eshop => "E-commerce"@,
        Preset::Donation => "Donation / static QR"@,
    }
}

/// Requirement of `f` under preset `p`: the requirement per payment type,
/// refined by the presets of the payme.sk form.
pub open spec fn requirement_of(p: Preset, f: Field) -> Requirement {
    match f {
        Field::Iban | Field::CreditorName => Requirement::Mandatory,
        Field::DueDate => if preset_type(p) == PaymentType::P {
            Requirement::Optional
        } else {
            Requirement::Omitted
        },
        Field::Message => Requirement::Optional,
        Field::Amount | Field::Currency => match p {
            Preset::Store | Preset::Eshop | Preset::Invoice => Requirement::Mandatory,
            _ => Requirement::Optional,
        },
        Field::PaymentId => match p {
            Preset::Store | Preset::Eshop => Requirement::Mandatory,
            _ => Requirement::Optional,
        },
    }
}

impl Preset {
    pub fn payment_type(self) -> (r: PaymentType)
        ensures
            r == preset_type(self),
    {
        match self {
            Preset::P2p | Preset::Invoice => PaymentType::P,
            Preset::Store => PaymentType::M,
            Preset::Eshop => PaymentType::E,
            Preset::Donation => PaymentType::Q,
        }
    }

    pub fn label(self) -> (r: &'static str)
        ensures
            r@ == preset_label(self),
    {
        match self {
            Preset::P2p => "P2P payment",
            Preset::Invoice => "Invoice",
            Preset::Store => "In-store (POI)",
            Preset::Eshop => "E-commerce",
            Preset::Donation => "Donation / static QR",
        }
    }

    /// Requirement of `field` under this preset.
    pub fn requirement(self, field: Field) -> (r: Requirement)
        ensures
            r == requirement_of(self, field),
    {
        match field {
            Field::Iban | Field::CreditorName => Requirement::Mandatory,
            Field::DueDate => match self.payment_type() {
                PaymentType::P => Requirement::Optional,
                _ => Requirement::Omitted,
            },
            Field::Message => Requirement::Optional,
            Field::Amount | Field::Currency | Field::PaymentId => match self {
                Preset::Store | Preset::Eshop => Requirement::Mandatory,
                Preset::Invoice => match field {
                    Field::Amount | Field::Currency => Requirement::Mandatory,
                    _ => Requirement::Optional,
                },
                _ => Requirement::Optional,
            },
        }
    }

    /// The preset named by `s` (case-insensitive, white space trimmed).
    pub open spec fn named(s: Seq<char>) -> Option<Preset> {
        let t = lower_seq(trim(s));
        if t == "p2p"@ || t == "normal"@ {
            Some(Preset::P2p)
        } else if t == "invoice"@ {
            Some(Preset::Invoice)
        } else if t == "store"@ {
            Some(Preset::Store)
        } else if t == "eshop"@ || t == "ecommerce"@ {
            Some(Preset::Eshop)
        } else if t == "donation"@ || t == "qr"@ {
            Some(Preset::Donation)
        } else {
            None
        }
    }

    /// Parse a preset name; the error names what was given.
    pub fn parse(s: &str) -> (r: Result<Preset, String>)
        ensures
            match r {
                Ok(p) => Preset::named(s@) == Some(p),
                Err(e) => Preset::named(s@) is None && e@ == unknown_message(
                    "unknown preset `"@,
                    lower_seq(trim(s@)),
                    "` (expected p2p, invoice, store, eshop or donation)"@,
                ),
            },
    {
        let v = to_chars(s);
        let t = trim_chars(v.as_slice());
        let l = lower_chars(t.as_slice());
        let l = l.as_slice();
        if chars_eq_str(l, "p2p") || chars_eq_str(l, "normal") {
            Ok(Preset::P2p)
        } else if chars_eq_str(l, "invoice") {
            Ok(Preset::Invoice)
        } else if chars_eq_str(l, "store") {
            Ok(Preset::Store)
        } else if chars_eq_str(l, "eshop") || chars_eq_str(l, "ecommerce") {
            Ok(Preset::Eshop)
        } else if chars_eq_str(l, "donation") || chars_eq_str(l, "qr") {
            Ok(Preset::Donation)
        } else {
            Err(unknown(
                "unknown preset `",
                l,
                "` (expected p2p, invoice, store, eshop or donation)",
            ))
        }
    }
}

impl core::str::FromStr for Preset {
    type Err = String;

    /// Same as [`Preset::parse`].
    fn from_str(s: &str) -> (r: Result<Self, Self::Err>)
        ensures
            match r {
                Ok(p) => Preset::named(s@) == Some(p),
                Err(e) => Preset::named(s@) is None && e@ == unknown_message(
                    "unknown preset `"@,
                    lower_seq(trim(s@)),
                    "` (expected p2p, invoice, store, eshop or donation)"@,
                ),
            },
    {
        Preset::parse(s)
    }
}

/// Characters recommended for PI, MSG and CN (Annex A of the standard).
pub open spec fn recommended(c: char) -> bool {
    is_alphanumeric(c) || c == '/' || c == '-' || c == '?' || c == ':' || c == '(' || c == ')'
        || c == '.' || c == ',' || c == '\'' || c == '+' || c == ' '
}

pub fn is_recommended_char(c: char) -> (r: bool)
    ensures
        r == recommended(c),
{
    crate::strings::is_ascii_alphanumeric(c) || c == '/' || c == '-' || c == '?' || c == ':' || c
        == '(' || c == ')' || c == '.' || c == ',' || c == '\'' || c == '+' || c == ' '
}

} // verus!
