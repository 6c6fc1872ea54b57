//! Offline generator of PayMe payment links and QR payment codes.
//!
//! The library follows the Slovak Banking Association's *Payment Link
//! Standard, version 2.0*; where the standard leaves a detail open, the
//! behaviour of the generator on payme.sk is reproduced so that links are
//! byte-identical to the ones the website produces.

pub mod strings;
pub mod spec;
pub mod iban;
pub mod reference;
pub mod text;
pub mod payment;
pub mod link;
pub mod qr;
pub mod contacts;
pub mod tui;
pub mod cli;

pub use payment::{FieldError, Payment, Resolved};
pub use spec::{Field, PaymentType, Preset, Requirement};

use vstd::prelude::*;

verus! {

/// What `generate` yields for a payment: the link and the symbol encoding it,
/// or the validation errors, or, when the link does not fit into a QR code,
/// one error on the message.
pub open spec fn generated(p: Payment, r: Result<(String, qr::Matrix), Vec<FieldError>>) -> bool {
    let res = payment::resolution(p, payment::due_date_of(p));
    match res {
        Err(errors) => r matches Err(es) && payment::errors_view(es@) == errors,
        Ok((t, values)) => {
            let url = link::link_of(t, values);
            match r {
                Ok((u, m)) => u@ == url && qr::encodes(m, vstd::utf8::encode_utf8(url)),
                Err(es) => {
                    &&& qr::qr_symbol_m(vstd::utf8::encode_utf8(url)) is None
                    &&& payment::errors_view(es@) == seq![
                        (Field::Message, "the payment link does not fit into a QR code"@),
                    ]
                },
            }
        },
    }
}

/// Validate a payment, build its link and encode the QR symbol in one step.
pub fn generate(payment: &Payment) -> (r: Result<(String, qr::Matrix), Vec<FieldError>>)
    ensures
        generated(*payment, r),
{
    let resolved = payment.resolve()?;
    let url = link::build(&resolved);
    match qr::encode(url.as_str()) {
        Ok(matrix) => Ok((url, matrix)),
        Err(err) => {
            let mut errors: Vec<FieldError> = Vec::new();
            errors.push(FieldError { field: Field::Message, message: err.message() });
            assert(payment::errors_view(errors@) =~= seq![
                (Field::Message, "the payment link does not fit into a QR code"@),
            ]);
            Err(errors)
        },
    }
}

} // verus!
