//! The Slovak payment symbols carried inside the Payment identification (PI).
//!
//! The standard defines the encoding `/VS{0,10}/SS{0,10}/KS{0,4}`. The payme.sk
//! form keeps a free-text reference field and the three symbol fields in sync;
//! that two-way sync is reproduced here.

use vstd::prelude::*;

use crate::strings::{
    all_digits, are_digits, find, find_chars, from_chars, is_ascii_digit, is_digit, push_all,
    slice_of, starts_with, to_chars, upper_chars, upper_seq,
};

verus! {

/// The three Slovak payment symbols, as digit strings.
#[derive(Debug, Clone, PartialEq, Eq)]
pub struct Symbols {
    pub vs: String,
    pub ss: String,
    pub ks: String,
}

impl Default for Symbols {
    fn default() -> (r: Symbols)
        ensures
            r.vs@ == Seq::<char>::empty(),
            r.ss@ == Seq::<char>::empty(),
            r.ks@ == Seq::<char>::empty(),
    {
        Symbols { vs: String::new(), ss: String::new(), ks: String::new() }
    }
}

impl Symbols {
    pub open spec fn empty(&self) -> bool {
        self.vs@.len() == 0 && self.ss@.len() == 0 && self.ks@.len() == 0
    }

    pub fn is_empty(&self) -> (r: bool)
        ensures
            r == self.empty(),
    {
        self.vs.as_str().is_empty() && self.ss.as_str().is_empty() && self.ks.as_str().is_empty()
    }
}

/// The digits of `s`, in order.
pub open spec fn digits_of(s: Seq<char>) -> Seq<char>
    decreases s.len(),
{
    if s.len() == 0 {
        seq![]
    } else if is_digit(s.last()) {
        digits_of(s.drop_last()).push(s.last())
    } else {
        digits_of(s.drop_last())
    }
}

/// Keep only digits, the way the form sanitises the symbol inputs.
pub fn digits_only(input: &str) -> (r: String)
    ensures
        r@ == digits_of(input@),
{
    let v = to_chars(input);
    let mut out: Vec<char> = Vec::new();
    for i in 0..v.len()
        invariant
            v@ == input@,
            out@ == digits_of(v@.take(i as int)),
    {
        assert(v@.take(i + 1).drop_last() =~= v@.take(i as int));
        if is_ascii_digit(v[i]) {
            out.push(v[i]);
        }
    }
    assert(v@.take(v.len() as int) =~= v@);
    from_chars(out.as_slice())
}

pub open spec fn vs_token() -> Seq<char> {
    seq!['/', 'V', 'S']
}

pub open spec fn ss_token() -> Seq<char> {
    seq!['/', 'S', 'S']
}

pub open spec fn ks_token() -> Seq<char> {
    seq!['/', 'K', 'S']
}

/// The canonical reference for three symbols: nothing when all are empty,
/// otherwise all three tokens, each followed by its symbol.
pub open spec fn reference_of(vs: Seq<char>, ss: Seq<char>, ks: Seq<char>) -> Seq<char> {
    if vs.len() == 0 && ss.len() == 0 && ks.len() == 0 {
        seq![]
    } else {
        vs_token() + vs + ss_token() + ss + ks_token() + ks
    }
}

/// Build the canonical reference from the symbols. All three tokens are always
/// present once any symbol is filled, as on the payme.sk form.
pub fn build(symbols: &Symbols) -> (r: String)
    ensures
        r@ == reference_of(symbols.vs@, symbols.ss@, symbols.ks@),
{
    if symbols.is_empty() {
        return String::new();
    }
    let mut out: Vec<char> = Vec::new();
    out.push('/');
    out.push('V');
    out.push('S');
    let vs = to_chars(symbols.vs.as_str());
    push_all(&mut out, vs.as_slice());
    out.push('/');
    out.push('S');
    out.push('S');
    let ss = to_chars(symbols.ss.as_str());
    push_all(&mut out, ss.as_slice());
    out.push('/');
    out.push('K');
    out.push('S');
    let ks = to_chars(symbols.ks.as_str());
    push_all(&mut out, ks.as_slice());
    assert(out@ =~= reference_of(symbols.vs@, symbols.ss@, symbols.ks@));
    from_chars(out.as_slice())
}

/// Number of leading digits.
pub open spec fn lead_digits(s: Seq<char>) -> nat
    decreases s.len(),
{
    if s.len() > 0 && is_digit(s[0]) {
        1 + lead_digits(s.drop_first())
    } else {
        0
    }
}

/// The digits that follow the first occurrence of `token`, or nothing.
pub open spec fn captured(hay: Seq<char>, token: Seq<char>) -> Seq<char> {
    match find(hay, token) {
        Some(at) => {
            let rest = hay.skip(at + token.len());
            rest.take(lead_digits(rest) as int)
        },
        None => seq![],
    }
}

proof fn lemma_lead_digits(s: Seq<char>, k: int)
    requires
        0 <= k <= s.len(),
        forall|j: int| 0 <= j < k ==> is_digit(#[trigger] s[j]),
        k == s.len() || !is_digit(s[k]),
    ensures
        lead_digits(s) == k,
    decreases k,
{
    if k > 0 {
        lemma_lead_digits(s.drop_first(), k - 1);
    }
}

fn capture(hay: &[char], token: &[char]) -> (r: Vec<char>)
    ensures
        r@ == captured(hay@, token@),
{
    match find_chars(hay, token) {
        Some(at) => {
            proof {
                crate::strings::lemma_find(hay@, token@);
            }
            assert(crate::strings::occurs_at(hay@, token@, at as int));
            let hay_len = hay.len();
            let token_len = token.len();
            assert(at + token_len <= hay_len);
            let start = at + token_len;
            let ghost rest = hay@.skip(start as int);
            let mut end = start;
            while end < hay.len() && is_ascii_digit(hay[end])
                invariant
                    start <= end <= hay@.len(),
                    rest == hay@.skip(start as int),
                    forall|j: int| start <= j < end ==> is_digit(#[trigger] hay@[j]),
                decreases hay@.len() - end,
            {
                end += 1;
            }
            proof {
                assert forall|j: int| 0 <= j < end - start implies is_digit(#[trigger] rest[j]) by {
                    assert(rest[j] == hay@[j + start]);
                }
                if end < hay@.len() {
                    assert(rest[end - start] == hay@[end as int]);
                }
                lemma_lead_digits(rest, end - start);
                assert(hay@.subrange(start as int, end as int) =~= rest.take(end - start));
            }
            slice_of(hay, start, end)
        },
        None => Vec::new(),
    }
}

/// The symbols read back out of a reference (case-insensitive).
pub open spec fn symbols_in(reference: Seq<char>) -> (Seq<char>, Seq<char>, Seq<char>) {
    let up = upper_seq(reference);
    (captured(up, vs_token()), captured(up, ss_token()), captured(up, ks_token()))
}

/// Recover the symbols from a reference. Partial input is tolerated so the
/// fields can be kept in sync while the user is still typing.
pub fn parse(reference: &str) -> (r: Symbols)
    ensures
        (r.vs@, r.ss@, r.ks@) == symbols_in(reference@),
{
    let v = to_chars(reference);
    let up = upper_chars(v.as_slice());
    let vs_t: Vec<char> = vec!['/', 'V', 'S'];
    let ss_t: Vec<char> = vec!['/', 'S', 'S'];
    let ks_t: Vec<char> = vec!['/', 'K', 'S'];
    assert(vs_t@ =~= vs_token() && ss_t@ =~= ss_token() && ks_t@ =~= ks_token());
    let vs = capture(up.as_slice(), vs_t.as_slice());
    let ss = capture(up.as_slice(), ss_t.as_slice());
    let ks = capture(up.as_slice(), ks_t.as_slice());
    Symbols {
        vs: from_chars(vs.as_slice()),
        ss: from_chars(ss.as_slice()),
        ks: from_chars(ks.as_slice()),
    }
}

/// `reference` is exactly the canonical symbol encoding, in any case.
pub open spec fn canonical(reference: Seq<char>) -> bool {
    let up = upper_seq(reference);
    &&& starts_with(up, vs_token())
    &&& {
        let rest = up.skip(3);
        match find(rest, ss_token()) {
            None => false,
            Some(a) => {
                let vs = rest.take(a);
                let rest2 = rest.skip(a + 3);
                match find(rest2, ks_token()) {
                    None => false,
                    Some(b) => {
                        let ss = rest2.take(b);
                        let ks = rest2.skip(b + 3);
                        &&& vs.len() <= 10
                        &&& ss.len() <= 10
                        &&& ks.len() <= 4
                        &&& all_digits(vs)
                        &&& all_digits(ss)
                        &&& all_digits(ks)
                    },
                }
            },
        }
    }
}

/// True when `reference` is exactly the canonical symbol encoding.
pub fn is_canonical(reference: &str) -> (r: bool)
    ensures
        r == canonical(reference@),
{
    let v = to_chars(reference);
    let up = upper_chars(v.as_slice());
    let vs_t: Vec<char> = vec!['/', 'V', 'S'];
    let ss_t: Vec<char> = vec!['/', 'S', 'S'];
    let ks_t: Vec<char> = vec!['/', 'K', 'S'];
    assert(vs_t@ =~= vs_token() && ss_t@ =~= ss_token() && ks_t@ =~= ks_token());
    if !crate::strings::starts_with_chars(up.as_slice(), vs_t.as_slice()) {
        return false;
    }
    let rest = slice_of(up.as_slice(), 3, up.len());
    assert(rest@ =~= up@.skip(3));
    let a = match find_chars(rest.as_slice(), ss_t.as_slice()) {
        Some(a) => a,
        None => return false,
    };
    proof {
        crate::strings::lemma_find(rest@, ss_t@);
    }
    let vs = slice_of(rest.as_slice(), 0, a);
    let rest2 = slice_of(rest.as_slice(), a + 3, rest.len());
    assert(vs@ =~= rest@.take(a as int));
    assert(rest2@ =~= rest@.skip(a + 3));
    let b = match find_chars(rest2.as_slice(), ks_t.as_slice()) {
        Some(b) => b,
        None => return false,
    };
    proof {
        crate::strings::lemma_find(rest2@, ks_t@);
    }
    let ss = slice_of(rest2.as_slice(), 0, b);
    let ks = slice_of(rest2.as_slice(), b + 3, rest2.len());
    assert(ss@ =~= rest2@.take(b as int));
    assert(ks@ =~= rest2@.skip(b + 3));
    vs.len() <= 10 && ss.len() <= 10 && ks.len() <= 4 && are_digits(vs.as_slice()) && are_digits(
        ss.as_slice(),
    ) && are_digits(ks.as_slice())
}

// ---------------------------------------------------------------------------
// Laws
// ---------------------------------------------------------------------------

proof fn lemma_upper_identity(s: Seq<char>)
    requires
        forall|i: int| 0 <= i < s.len() ==> !crate::strings::is_lower(#[trigger] s[i]),
    ensures
        upper_seq(s) == s,
{
    assert(upper_seq(s) =~= s);
}

/// In `d + tok + tail` with `d` all digits, the token is first found right after `d`.
proof fn lemma_find_after_digits(d: Seq<char>, tok: Seq<char>, tail: Seq<char>)
    requires
        all_digits(d),
        tok.len() == 3,
        tok[0] == '/',
    ensures
        find(d + tok + tail, tok) == Some(d.len() as int),
{
    let h = d + tok + tail;
    assert(h.subrange(d.len() as int, d.len() + 3int) =~= tok);
    assert forall|j: int| 0 <= j < d.len() implies !crate::strings::occurs_at(h, tok, j) by {
        assert(h[j] == d[j]);
        assert(is_digit(d[j]));
        crate::strings::lemma_no_occurrence(h, tok, j);
    }
    crate::strings::lemma_find_first(h, tok, d.len() as int);
}

proof fn lemma_lead_digits_before_slash(d: Seq<char>, rest: Seq<char>)
    requires
        all_digits(d),
        rest.len() > 0,
        rest[0] == '/',
    ensures
        lead_digits(d + rest) == d.len(),
{
    let h = d + rest;
    assert forall|j: int| 0 <= j < d.len() implies is_digit(#[trigger] h[j]) by {
        assert(h[j] == d[j]);
    }
    assert(h[d.len() as int] == rest[0]);
    lemma_lead_digits(h, d.len() as int);
}

/// The symbols read back out of the reference built from them are the symbols
/// themselves, whenever each symbol is a string of digits.
pub proof fn lemma_parse_build(vs: Seq<char>, ss: Seq<char>, ks: Seq<char>)
    requires
        all_digits(vs),
        all_digits(ss),
        all_digits(ks),
    ensures
        symbols_in(reference_of(vs, ss, ks)) == (vs, ss, ks),
{
    let r = reference_of(vs, ss, ks);
    if vs.len() == 0 && ss.len() == 0 && ks.len() == 0 {
        assert(upper_seq(r) =~= r);
        crate::strings::lemma_find(r, vs_token());
        crate::strings::lemma_find(r, ss_token());
        crate::strings::lemma_find(r, ks_token());
        assert(vs =~= seq![] && ss =~= seq![] && ks =~= seq![]);
    } else {
        assert forall|i: int| 0 <= i < r.len() implies !crate::strings::is_lower(#[trigger] r[i]) by {
            if vs_token().len() <= i < vs_token().len() + vs.len() {
                assert(r[i] == vs[i - 3]);
            } else if 6 + vs.len() <= i < 6 + vs.len() + ss.len() {
                assert(r[i] == ss[i - 6 - vs.len()]);
            } else if 9 + vs.len() + ss.len() <= i {
                assert(r[i] == ks[i - 9 - vs.len() - ss.len()]);
            }
        }
        lemma_upper_identity(r);
        // VS
        let e: Seq<char> = seq![];
        let t1 = vs + ss_token() + ss + ks_token() + ks;
        assert(r =~= e + vs_token() + t1);
        lemma_find_after_digits(e, vs_token(), t1);
        assert(r.skip(3) =~= vs + (ss_token() + ss + ks_token() + ks));
        lemma_lead_digits_before_slash(vs, ss_token() + ss + ks_token() + ks);
        assert(r.skip(3).take(vs.len() as int) =~= vs);
        // SS
        let p2 = vs_token() + vs;
        let t2 = ss + ks_token() + ks;
        assert(r =~= p2 + ss_token() + t2);
        assert(find(r, ss_token()) == Some(p2.len() as int)) by {
            assert(r.subrange(p2.len() as int, p2.len() + 3int) =~= ss_token());
            assert forall|j: int| 0 <= j < p2.len() implies !crate::strings::occurs_at(r, ss_token(), j) by {
                if j >= 3 {
                    assert(r[j] == vs[j - 3]);
                }
                crate::strings::lemma_no_occurrence(r, ss_token(), j);
            }
            crate::strings::lemma_find_first(r, ss_token(), p2.len() as int);
        }
        assert(r.skip(p2.len() + 3int) =~= ss + (ks_token() + ks));
        lemma_lead_digits_before_slash(ss, ks_token() + ks);
        assert(r.skip(p2.len() + 3int).take(ss.len() as int) =~= ss);
        // KS
        let p3 = vs_token() + vs + ss_token() + ss;
        assert(r =~= p3 + ks_token() + ks);
        assert(find(r, ks_token()) == Some(p3.len() as int)) by {
            assert(r.subrange(p3.len() as int, p3.len() + 3int) =~= ks_token());
            assert forall|j: int| 0 <= j < p3.len() implies !crate::strings::occurs_at(r, ks_token(), j) by {
                if 3 <= j < 3 + vs.len() {
                    assert(r[j] == vs[j - 3]);
                } else if 6 + vs.len() <= j {
                    assert(r[j] == ss[j - 6 - vs.len()]);
                }
                crate::strings::lemma_no_occurrence(r, ks_token(), j);
            }
            crate::strings::lemma_find_first(r, ks_token(), p3.len() as int);
        }
        assert(r.skip(p3.len() + 3int) =~= ks);
        assert forall|j: int| 0 <= j < ks.len() implies is_digit(#[trigger] ks[j]) by {}
        lemma_lead_digits(ks, ks.len() as int);
        assert(ks.take(ks.len() as int) =~= ks);
    }
}

/// The reference built from symbols of at most 10, 10 and 4 digits, not all
/// empty, is in the canonical form.
pub proof fn lemma_build_canonical(vs: Seq<char>, ss: Seq<char>, ks: Seq<char>)
    requires
        all_digits(vs),
        all_digits(ss),
        all_digits(ks),
        vs.len() <= 10,
        ss.len() <= 10,
        ks.len() <= 4,
        !(vs.len() == 0 && ss.len() == 0 && ks.len() == 0),
    ensures
        canonical(reference_of(vs, ss, ks)),
{
    let r = reference_of(vs, ss, ks);
    assert forall|i: int| 0 <= i < r.len() implies !crate::strings::is_lower(#[trigger] r[i]) by {
        if 3 <= i < 3 + vs.len() {
            assert(r[i] == vs[i - 3]);
        } else if 6 + vs.len() <= i < 6 + vs.len() + ss.len() {
            assert(r[i] == ss[i - 6 - vs.len()]);
        } else if 9 + vs.len() + ss.len() <= i {
            assert(r[i] == ks[i - 9 - vs.len() - ss.len()]);
        }
    }
    lemma_upper_identity(r);
    assert(r.take(3) =~= vs_token());
    let rest = r.skip(3);
    assert(rest =~= vs + ss_token() + (ss + ks_token() + ks));
    lemma_find_after_digits(vs, ss_token(), ss + ks_token() + ks);
    assert(rest.take(vs.len() as int) =~= vs);
    let rest2 = rest.skip(vs.len() + 3int);
    assert(rest2 =~= ss + ks_token() + ks);
    lemma_find_after_digits(ss, ks_token(), ks);
    assert(rest2.take(ss.len() as int) =~= ss);
    assert(rest2.skip(ss.len() + 3int) =~= ks);
}

} // verus!
