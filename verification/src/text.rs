//! Normalisation of free-text attributes to the Annex A character set.
//!
//! The standard recommends replacing national Slovak characters with their
//! ASCII equivalents and dropping anything outside the recommended set, so
//! that the link stays readable and the QR code stays small.

use unicode_normalization::UnicodeNormalization;
use vstd::prelude::*;

use crate::spec::{is_recommended_char, recommended};
use crate::strings::{chars_eq, from_chars, is_white_space, is_whitespace, to_chars};

verus! {

/// The canonical decomposition (Unicode Normalization Form D) of a string.
pub uninterp spec fn nfd(s: Seq<char>) -> Seq<char>;

/// Whether a character is a combining mark (`General_Category=Mark`).
pub uninterp spec fn combining_mark(c: char) -> bool;

/// `UnicodeNormalization::nfd` on a string slice, collected. The
/// decomposition comes from the Unicode tables; the contract names it.
#[verifier::external_body]
fn nfd_chars(s: &str) -> (r: Vec<char>)
    ensures
        r@ == nfd(s@),
{
    s.nfd().collect()
}

/// `unicode_normalization::char::is_combining_mark`: the contract names the
/// table lookup it performs.
pub assume_specification[ unicode_normalization::char::is_combining_mark ](c: char) -> (r: bool)
    ensures
        r == combining_mark(c),
;

/// Result of normalising one field.
pub struct Normalized {
    pub value: String,
    /// True when the transmitted value differs from what the user typed.
    pub changed: bool,
}

/// What one decomposed character becomes: nothing for a combining mark, a
/// space for white space, itself when recommended, otherwise nothing.
pub open spec fn folded_char(c: char) -> Seq<char> {
    if combining_mark(c) {
        seq![]
    } else if is_white_space(c) {
        seq![' ']
    } else if recommended(c) {
        seq![c]
    } else {
        seq![]
    }
}

/// `folded_char` over a whole decomposed string.
pub open spec fn folded(d: Seq<char>) -> Seq<char>
    decreases d.len(),
{
    if d.len() == 0 {
        seq![]
    } else {
        folded(d.drop_last()) + folded_char(d.last())
    }
}

/// The Annex A spelling of a string: decompose accents away, fold white space
/// to spaces, and drop whatever is still outside the set.
pub open spec fn annex_a(s: Seq<char>) -> Seq<char> {
    folded(nfd(s))
}

/// Fold a decomposed text to the Annex A set: combining marks go, white
/// space becomes a space, recommended characters stay and the rest goes.
pub fn fold_decomposed(d: &[char]) -> (r: Vec<char>)
    ensures
        r@ == folded(d@),
{
    let mut value: Vec<char> = Vec::new();
    for i in 0..d.len()
        invariant
            value@ == folded(d@.take(i as int)),
    {
        let c = d[i];
        assert(d@.take(i + 1).drop_last() =~= d@.take(i as int));
        if unicode_normalization::char::is_combining_mark(c) {
        } else if is_whitespace(c) {
            value.push(' ');
        } else if is_recommended_char(c) {
            value.push(c);
        }
    }
    assert(d@.take(d.len() as int) =~= d@);
    value
}

/// Map to the Annex A character set: decompose accents away, fold whitespace to
/// spaces, and drop whatever is still outside the set.
pub fn normalize(input: &str) -> (r: Normalized)
    ensures
        r.value@ == annex_a(input@),
        r.changed == (r.value@ != input@),
{
    let d = nfd_chars(input);
    let value = fold_decomposed(d.as_slice());
    let original = to_chars(input);
    let changed = !chars_eq(value.as_slice(), original.as_slice());
    Normalized { value: from_chars(value.as_slice()), changed }
}

/// Every character of a normalised value is in the recommended set.
pub proof fn lemma_annex_a_recommended(s: Seq<char>)
    ensures
        forall|i: int| 0 <= i < annex_a(s).len() ==> recommended(#[trigger] annex_a(s)[i]),
{
    lemma_folded_recommended(nfd(s));
}

proof fn lemma_folded_recommended(d: Seq<char>)
    ensures
        forall|i: int| 0 <= i < folded(d).len() ==> recommended(#[trigger] folded(d)[i]),
    decreases d.len(),
{
    if d.len() > 0 {
        lemma_folded_recommended(d.drop_last());
        let f = folded(d);
        let p = folded(d.drop_last());
        assert forall|i: int| 0 <= i < f.len() implies recommended(#[trigger] f[i]) by {
            if i < p.len() {
                assert(f[i] == p[i]);
            }
        }
    }
}

/// The characters outside the recommended set, each once, in order of first
/// appearance.
pub open spec fn unsupported_of(s: Seq<char>) -> Seq<char>
    decreases s.len(),
{
    if s.len() == 0 {
        seq![]
    } else {
        let r = unsupported_of(s.drop_last());
        let c = s.last();
        if !recommended(c) && !r.contains(c) {
            r.push(c)
        } else {
            r
        }
    }
}

fn contains_char(v: &[char], c: char) -> (r: bool)
    ensures
        r == v@.contains(c),
{
    for i in 0..v.len()
        invariant
            forall|j: int| 0 <= j < i ==> v@[j] != c,
    {
        if v[i] == c {
            return true;
        }
    }
    false
}

/// Characters of `input` that are outside the recommended set, de-duplicated
/// and in order of first appearance. Used to explain what normalisation will do.
pub fn unsupported_chars(input: &str) -> (r: Vec<char>)
    ensures
        r@ == unsupported_of(input@),
        r@.no_duplicates(),
        forall|c: char|
            #![trigger r@.contains(c)]
            #![trigger input@.contains(c)]
            r@.contains(c) <==> (input@.contains(c) && !recommended(c)),
{
    let v = to_chars(input);
    let mut out: Vec<char> = Vec::new();
    for i in 0..v.len()
        invariant
            v@ == input@,
            out@ == unsupported_of(v@.take(i as int)),
    {
        let c = v[i];
        assert(v@.take(i + 1).drop_last() =~= v@.take(i as int));
        if !is_recommended_char(c) && !contains_char(out.as_slice(), c) {
            out.push(c);
        }
    }
    assert(v@.take(v.len() as int) =~= v@);
    proof {
        lemma_unsupported(input@);
    }
    out
}

proof fn lemma_contains_push(t: Seq<char>, c: char, x: char)
    ensures
        t.push(c).contains(x) <==> (t.contains(x) || x == c),
{
    if t.push(c).contains(x) {
        let k = choose|k: int| 0 <= k < t.push(c).len() && t.push(c)[k] == x;
        if k < t.len() {
            assert(t[k] == x);
        }
    }
    if t.contains(x) {
        let k = choose|k: int| 0 <= k < t.len() && t[k] == x;
        assert(t.push(c)[k] == x);
    }
    if x == c {
        assert(t.push(c)[t.len() as int] == x);
    }
}

/// The unsupported characters are listed once each, and they are exactly the
/// characters of the input outside the recommended set.
pub proof fn lemma_unsupported(s: Seq<char>)
    ensures
        unsupported_of(s).no_duplicates(),
        forall|c: char|
            #![trigger unsupported_of(s).contains(c)]
            #![trigger s.contains(c)]
            unsupported_of(s).contains(c) <==> (s.contains(c) && !recommended(c)),
    decreases s.len(),
{
    if s.len() > 0 {
        let t = s.drop_last();
        lemma_unsupported(t);
        let r = unsupported_of(t);
        let c = s.last();
        assert(t.push(c) =~= s);
        assert forall|x: char| #![trigger unsupported_of(s).contains(x)] #![trigger s.contains(x)] unsupported_of(s).contains(x) <==> (s.contains(x) && !recommended(x)) by {
            lemma_contains_push(t, c, x);
            lemma_contains_push(r, c, x);
            assert(r.contains(x) <==> (t.contains(x) && !recommended(x)));
            assert(r.contains(c) <==> (t.contains(c) && !recommended(c)));
            if !recommended(c) && !r.contains(c) {
                assert(unsupported_of(s) == r.push(c));
            } else {
                assert(unsupported_of(s) == r);
            }
        }
    } else {
        assert forall|x: char| #![trigger unsupported_of(s).contains(x)] #![trigger s.contains(x)] unsupported_of(s).contains(x) <==> (s.contains(x) && !recommended(x)) by {
            assert(unsupported_of(s) =~= Seq::<char>::empty());
        }
    }
}

} // verus!
