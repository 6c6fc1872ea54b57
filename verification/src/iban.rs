//! IBAN normalisation and validation.
//!
//! The standard only requires the ISO 20022 pattern and the ISO 13616 mod-97
//! checksum. The payme.sk generator applies extra checks to Slovak accounts
//! (bank code and the two mod-11 weight checks) and also accepts a 20-digit
//! Slovak BBAN, converting it to an IBAN; both are mirrored here so that this
//! library accepts and rejects exactly what the website does.

use vstd::prelude::*;

use vstd::utf8::{decode_utf8, encode_utf8, is_ascii_chars, is_ascii_chars_encode_utf8, valid_utf8};

use crate::strings::{
    all_digits, are_digits, digit_char, from_chars, is_alphanumeric, is_digit, is_lower,
    is_upper, is_white_space, is_whitespace, owned, push_all, push_str, slice_of, starts_with,
    to_chars, upper_char,
};

verus! {

// ---------------------------------------------------------------------------
// Upper-casing, as `char::to_uppercase` does it
// ---------------------------------------------------------------------------

/// The full Unicode upper-case mapping of a character (one or more characters).
pub uninterp spec fn unicode_upper(c: char) -> Seq<char>;

/// `char::to_uppercase`, collected. The contract names its result; the
/// mapping comes from the Unicode tables and is not spelled out here.
#[verifier::external_body]
fn char_to_uppercase(c: char) -> (r: Vec<char>)
    ensures
        r@ == unicode_upper(c),
{
    c.to_uppercase().collect()
}

/// The upper-case mapping of one character: for ASCII the letters `a`..`z`
/// become `A`..`Z` and everything else stays; beyond ASCII the Unicode mapping.
pub open spec fn upper_of(c: char) -> Seq<char> {
    if is_ascii_char(c) {
        seq![upper_char(c)]
    } else {
        unicode_upper(c)
    }
}

fn upper_mapping(c: char) -> (r: Vec<char>)
    ensures
        r@ == upper_of(c),
{
    if crate::strings::code_point(c) < 128 {
        let mut r: Vec<char> = Vec::new();
        r.push(crate::strings::to_ascii_upper(c));
        r
    } else {
        char_to_uppercase(c)
    }
}

/// White space removed and every character upper-cased, the way the generator
/// prepares an IBAN before validating it.
pub open spec fn normalized(s: Seq<char>) -> Seq<char>
    decreases s.len(),
{
    if s.len() == 0 {
        seq![]
    } else if is_white_space(s.last()) {
        normalized(s.drop_last())
    } else {
        normalized(s.drop_last()) + upper_of(s.last())
    }
}

/// Strip white space and upper-case.
pub fn normalize(input: &str) -> (r: String)
    ensures
        r@ == normalized(input@),
{
    let v = to_chars(input);
    let mut out: Vec<char> = Vec::new();
    for i in 0..v.len()
        invariant
            v@ == input@,
            out@ == normalized(v@.take(i as int)),
    {
        let c = v[i];
        assert(v@.take(i + 1).drop_last() =~= v@.take(i as int));
        if !is_whitespace(c) {
            let u = upper_mapping(c);
            push_all(&mut out, u.as_slice());
        }
    }
    assert(v@.take(v.len() as int) =~= v@);
    from_chars(out.as_slice())
}

// ---------------------------------------------------------------------------
// The ISO 7064 MOD 97-10 checksum
// ---------------------------------------------------------------------------

/// Characters the checksum can read without overflow: digits, and anything
/// from `A` upwards (letters count `A` = 10 ... `Z` = 35).
pub open spec fn checksum_char(c: char) -> bool {
    is_digit(c) || c >= 'A'
}

pub open spec fn checksum_chars(s: Seq<char>) -> bool {
    forall|i: int| 0 <= i < s.len() ==> checksum_char(#[trigger] s[i])
}

/// The remainder modulo 97 of the number spelled by `s`, each letter read as
/// two decimal digits (`A` = 10 ... `Z` = 35).
pub open spec fn mod97_of(s: Seq<char>) -> int
    decreases s.len(),
{
    if s.len() == 0 {
        0
    } else {
        let acc = mod97_of(s.drop_last());
        let c = s.last();
        if is_digit(c) {
            (acc * 10 + (c as int - 48)) % 97
        } else {
            (acc * 100 + (c as int - 55)) % 97
        }
    }
}

/// The checksum of an IBAN: its first four characters rotated to the end.
pub open spec fn iban_mod97(iban: Seq<char>) -> int {
    mod97_of(iban.skip(4) + iban.take(4))
}

pub open spec fn is_ascii_char(c: char) -> bool {
    (c as u32) < 128
}

proof fn lemma_mod97_bound(s: Seq<char>)
    ensures
        0 <= mod97_of(s) < 97,
    decreases s.len(),
{
    if s.len() > 0 {
        lemma_mod97_bound(s.drop_last());
    }
}

fn mod97_chars(s: &[char]) -> (r: u32)
    requires
        checksum_chars(s@),
    ensures
        r == mod97_of(s@),
{
    let mut acc: u32 = 0;
    let n = s.len();
    for i in 0..n
        invariant
            n == s@.len(),
            checksum_chars(s@),
            acc == mod97_of(s@.take(i as int)),
            acc < 97,
    {
        let c = s[i];
        assert(checksum_char(s@[i as int]));
        assert(s@.take(i + 1).drop_last() =~= s@.take(i as int));
        proof {
            lemma_mod97_bound(s@.take(i + 1));
        }
        assert(c == s@[i as int]);
        let u = crate::strings::code_point(c);
        if '0' <= c && c <= '9' {
            assert(48 <= u <= 57);
            acc = (acc * 10 + (u - 48)) % 97;
        } else {
            assert(u >= 65);
            acc = (acc * 100 + (u - 55)) % 97;
        }
    }
    assert(s@.take(n as int) =~= s@);
    acc
}

/// ISO 7064 MOD 97-10 over the IBAN with the first four characters rotated to the end.
pub fn mod97(iban: &str) -> (r: u32)
    requires
        iban@.len() >= 4,
        forall|i: int| 0 <= i < 4 ==> is_ascii_char(#[trigger] iban@[i]),
        checksum_chars(iban@),
    ensures
        r == iban_mod97(iban@),
{
    let v = to_chars(iban);
    mod97_rotated(v.as_slice())
}

fn mod97_rotated(v: &[char]) -> (r: u32)
    requires
        v@.len() >= 4,
        checksum_chars(v@),
    ensures
        r == iban_mod97(v@),
{
    let mut rotated = slice_of(v, 4, v.len());
    let head = slice_of(v, 0, 4);
    push_all(&mut rotated, head.as_slice());
    assert(checksum_chars(rotated@)) by {
        assert forall|i: int| 0 <= i < rotated@.len() implies checksum_char(#[trigger] rotated@[i]) by {
            if i < v@.len() - 4 {
                assert(rotated@[i] == v@[i + 4]);
            } else {
                assert(rotated@[i] == v@[i - (v@.len() - 4)]);
            }
        }
    }
    mod97_chars(rotated.as_slice())
}

// ---------------------------------------------------------------------------
// Slovak account rules
// ---------------------------------------------------------------------------

/// The number spelled by a string of decimal digits.
pub open spec fn digits_value(s: Seq<char>) -> nat
    decreases s.len(),
{
    if s.len() == 0 {
        0
    } else {
        digits_value(s.drop_last()) * 10 + (s.last() as nat - 48) as nat
    }
}

/// Bank codes accepted for Slovak accounts by the payme.sk generator.
pub open spec fn known_bank_code(code: nat) -> bool {
    code == 200 || code == 720 || code == 900 || code == 1100 || code == 1111 || code == 3000
        || code == 3100 || code == 5200 || code == 5600 || code == 5900 || code == 6500 || code
        == 7300 || code == 7500 || code == 7930 || code == 8050 || code == 8100 || code == 8120
        || code == 8130 || code == 8160 || code == 8170 || code == 8180 || code == 8191 || code
        == 8320 || code == 8330 || code == 8360 || code == 8370 || code == 8390 || code == 8400
        || code == 8420 || code == 8430 || code == 8440 || code == 8450 || code == 9950 || code
        == 9951 || code == 9953 || code == 9952
}

fn is_known_bank_code(code: u32) -> (r: bool)
    ensures
        r == known_bank_code(code as nat),
{
    code == 200 || code == 720 || code == 900 || code == 1100 || code == 1111 || code == 3000
        || code == 3100 || code == 5200 || code == 5600 || code == 5900 || code == 6500 || code
        == 7300 || code == 7500 || code == 7930 || code == 8050 || code == 8100 || code == 8120
        || code == 8130 || code == 8160 || code == 8170 || code == 8180 || code == 8191 || code
        == 8320 || code == 8330 || code == 8360 || code == 8370 || code == 8390 || code == 8400
        || code == 8420 || code == 8430 || code == 8440 || code == 8450 || code == 9950 || code
        == 9951 || code == 9953 || code == 9952
}

/// Weights of the mod-11 check: `10 5 8 4 2 1` for the six-digit account
/// prefix, `6 3 7 9 10 5 8 4 2 1` for the ten-digit account number.
pub open spec fn weight(account: bool, i: int) -> int {
    if account {
        if i == 0 { 6 } else if i == 1 { 3 } else if i == 2 { 7 } else if i == 3 { 9 }
        else if i == 4 { 10 } else if i == 5 { 5 } else if i == 6 { 8 } else if i == 7 { 4 }
        else if i == 8 { 2 } else { 1 }
    } else {
        if i == 0 { 10 } else if i == 1 { 5 } else if i == 2 { 8 } else if i == 3 { 4 }
        else if i == 4 { 2 } else { 1 }
    }
}

fn weight_at(account: bool, i: usize) -> (r: u32)
    ensures
        r == weight(account, i as int),
{
    let w: [u32; 10] = if account {
        [6, 3, 7, 9, 10, 5, 8, 4, 2, 1]
    } else {
        [10, 5, 8, 4, 2, 1, 1, 1, 1, 1]
    };
    if i < 10 {
        w[i]
    } else {
        1
    }
}

/// The weighted digit sum of the mod-11 check.
pub open spec fn weighted_sum(digits: Seq<char>, account: bool) -> int
    decreases digits.len(),
{
    if digits.len() == 0 {
        0
    } else {
        weighted_sum(digits.drop_last(), account) + (digits.last() as int - 48) * weight(
            account,
            digits.len() - 1,
        )
    }
}

fn weighted_sum_of(digits: &[char], account: bool) -> (r: u32)
    requires
        digits@.len() <= 10,
        all_digits(digits@),
    ensures
        r == weighted_sum(digits@, account),
{
    let mut sum: u32 = 0;
    let n = digits.len();
    for i in 0..n
        invariant
            n == digits@.len(),
            n <= 10,
            all_digits(digits@),
            sum == weighted_sum(digits@.take(i as int), account),
            sum <= 90 * i,
    {
        assert(digits@.take(i + 1).drop_last() =~= digits@.take(i as int));
        assert(crate::strings::is_digit(digits@[i as int]));
        let d = digits[i] as u32 - 48;
        let w = weight_at(account, i);
        assert(w <= 10);
        assert(d * w <= 90) by (nonlinear_arith)
            requires
                d <= 9,
                w <= 10,
        ;
        sum = sum + d * w;
    }
    assert(digits@.take(n as int) =~= digits@);
    sum
}

pub open spec fn sk_prefix() -> Seq<char> {
    seq!['S', 'K']
}

/// The Slovak rules: 24 characters, digits after the country code, a known
/// bank code and both mod-11 checks.
pub open spec fn sk_check(iban: Seq<char>) -> Result<(), Seq<char>> {
    if iban.len() != 24 || !all_digits(iban.skip(2)) {
        Err("Not a valid IBAN (a Slovak IBAN has 24 characters)."@)
    } else if !known_bank_code(digits_value(iban.subrange(4, 8))) {
        Err("Not a valid IBAN (unknown bank code "@ + iban.subrange(4, 8) + ")."@)
    } else if weighted_sum(iban.subrange(8, 14), false) % 11 != 0 {
        Err("Not a valid IBAN (account prefix)."@)
    } else if weighted_sum(iban.subrange(14, 24), true) % 11 != 0 {
        Err("Not a valid IBAN (account number)."@)
    } else {
        Ok(())
    }
}

/// The checks every IBAN goes through: length, checksum, and for Slovak
/// IBANs the Slovak rules.
pub open spec fn iban_check(iban: Seq<char>) -> Result<(), Seq<char>> {
    if iban.len() > 34 {
        Err("Not a valid IBAN (longer than 34 characters)."@)
    } else if iban_mod97(iban) != 1 {
        Err("Not a valid IBAN (checksum)."@)
    } else if starts_with(iban, sk_prefix()) {
        sk_check(iban)
    } else {
        Ok(())
    }
}

/// The ISO 20022 shape: two upper-case letters, two digits, then letters and digits.
pub open spec fn looks_like_iban(s: Seq<char>) -> bool {
    &&& s.len() >= 5
    &&& is_upper(s[0]) && is_upper(s[1])
    &&& is_digit(s[2]) && is_digit(s[3])
    &&& forall|i: int| 4 <= i < s.len() ==> is_alphanumeric(#[trigger] s[i])
}

proof fn lemma_shape_checksum_chars(s: Seq<char>)
    requires
        forall|i: int| 0 <= i < s.len() ==> is_alphanumeric(#[trigger] s[i]),
    ensures
        checksum_chars(s),
{
}

fn looks_like(s: &[char]) -> (r: bool)
    ensures
        r == looks_like_iban(s@),
{
    let n = s.len();
    if n < 5 {
        return false;
    }
    if !(('A' <= s[0] && s[0] <= 'Z') && ('A' <= s[1] && s[1] <= 'Z') && ('0' <= s[2] && s[2]
        <= '9') && ('0' <= s[3] && s[3] <= '9')) {
        return false;
    }
    let mut i: usize = 4;
    while i < n
        invariant
            4 <= i <= n,
            n == s@.len(),
            forall|j: int| 4 <= j < i ==> is_alphanumeric(#[trigger] s@[j]),
        decreases n - i,
    {
        if !crate::strings::is_ascii_alphanumeric(s[i]) {
            return false;
        }
        i += 1;
    }
    true
}

fn digits_number(s: &[char]) -> (r: u32)
    requires
        s@.len() <= 4,
        all_digits(s@),
    ensures
        r == digits_value(s@),
{
    let mut v: u32 = 0;
    let n = s.len();
    for i in 0..n
        invariant
            n == s@.len(),
            n <= 4,
            all_digits(s@),
            v == digits_value(s@.take(i as int)),
            v < 10000,
            i <= 1 ==> v < 10,
            i <= 2 ==> v < 100,
            i <= 3 ==> v < 1000,
    {
        assert(s@.take(i + 1).drop_last() =~= s@.take(i as int));
        assert(crate::strings::is_digit(s@[i as int]));
        v = v * 10 + (s[i] as u32 - 48);
    }
    assert(s@.take(n as int) =~= s@);
    v
}

fn error_with_code(code: &[char]) -> (r: String)
    ensures
        r@ == "Not a valid IBAN (unknown bank code "@ + code@ + ")."@,
{
    let mut out: Vec<char> = Vec::new();
    push_str(&mut out, "Not a valid IBAN (unknown bank code ");
    push_all(&mut out, code);
    push_str(&mut out, ").");
    from_chars(out.as_slice())
}

fn validate_sk(iban: &[char]) -> (r: Result<(), String>)
    ensures
        match r {
            Ok(()) => sk_check(iban@) == Ok::<(), Seq<char>>(()),
            Err(e) => sk_check(iban@) == Err::<(), Seq<char>>(e@),
        },
{
    if iban.len() != 24 {
        return Err(owned("Not a valid IBAN (a Slovak IBAN has 24 characters)."));
    }
    let rest = slice_of(iban, 2, 24);
    assert(rest@ =~= iban@.skip(2));
    if !are_digits(rest.as_slice()) {
        return Err(owned("Not a valid IBAN (a Slovak IBAN has 24 characters)."));
    }
    let code = slice_of(iban, 4, 8);
    let prefix = slice_of(iban, 8, 14);
    let account = slice_of(iban, 14, 24);
    assert(all_digits(code@) && all_digits(prefix@) && all_digits(account@)) by {
        assert forall|i: int| 0 <= i < code@.len() implies is_digit(#[trigger] code@[i]) by {
            assert(code@[i] == rest@[i + 2]);
        }
        assert forall|i: int| 0 <= i < prefix@.len() implies is_digit(#[trigger] prefix@[i]) by {
            assert(prefix@[i] == rest@[i + 6]);
        }
        assert forall|i: int| 0 <= i < account@.len() implies is_digit(#[trigger] account@[i]) by {
            assert(account@[i] == rest@[i + 12]);
        }
    }
    let number = digits_number(code.as_slice());
    if !is_known_bank_code(number) {
        return Err(error_with_code(code.as_slice()));
    }
    if weighted_sum_of(prefix.as_slice(), false) % 11 != 0 {
        return Err(owned("Not a valid IBAN (account prefix)."));
    }
    if weighted_sum_of(account.as_slice(), true) % 11 != 0 {
        return Err(owned("Not a valid IBAN (account number)."));
    }
    Ok(())
}

fn validate_iban(iban: &[char]) -> (r: Result<(), String>)
    requires
        checksum_chars(iban@),
        iban@.len() >= 4,
    ensures
        match r {
            Ok(()) => iban_check(iban@) == Ok::<(), Seq<char>>(()),
            Err(e) => iban_check(iban@) == Err::<(), Seq<char>>(e@),
        },
{
    if iban.len() > 34 {
        return Err(owned("Not a valid IBAN (longer than 34 characters)."));
    }
    if mod97_rotated(iban) != 1 {
        return Err(owned("Not a valid IBAN (checksum)."));
    }
    let sk = iban[0] == 'S' && iban[1] == 'K';
    assert(sk == starts_with(iban@, sk_prefix())) by {
        if sk {
            assert(iban@.take(2) =~= sk_prefix());
        } else {
            if starts_with(iban@, sk_prefix()) {
                assert(iban@.take(2)[0] == iban@[0]);
                assert(iban@.take(2)[1] == iban@[1]);
            }
        }
    }
    if sk {
        validate_sk(iban)
    } else {
        Ok(())
    }
}

// ---------------------------------------------------------------------------
// BBAN to IBAN
// ---------------------------------------------------------------------------

/// Two decimal digits of `n` (`n < 100`), zero-padded.
pub open spec fn two_digits(n: int) -> Seq<char> {
    seq![digit_char((n / 10) as nat), digit_char((n % 10) as nat)]
}

/// The IBAN for a country code and a BBAN: the check digits make the checksum 1.
pub open spec fn bban_iban(country: Seq<char>, bban: Seq<char>) -> Seq<char> {
    country + two_digits(98 - iban_mod97(country + seq!['0', '0'] + bban)) + bban
}

/// What `bban_to_iban` needs of its arguments: the checksum must be able to
/// read every character, and the first four characters of `{country}00{bban}`
/// must be ASCII, so that the rotation splits between characters.
pub open spec fn bban_args_ok(country: Seq<char>, bban: Seq<char>) -> bool {
    let s = country + seq!['0', '0'] + bban;
    &&& s.len() >= 4
    &&& forall|i: int| 0 <= i < 4 ==> is_ascii_char(#[trigger] s[i])
    &&& checksum_chars(s)
}

/// Build an IBAN from a country code and a BBAN by computing the check digits.
pub fn bban_to_iban(country: &str, bban: &str) -> (r: String)
    requires
        bban_args_ok(country@, bban@),
    ensures
        r@ == bban_iban(country@, bban@),
{
    let c = to_chars(country);
    let b = to_chars(bban);
    let out = bban_to_iban_chars(c.as_slice(), b.as_slice());
    from_chars(out.as_slice())
}

fn bban_to_iban_chars(c: &[char], b: &[char]) -> (r: Vec<char>)
    requires
        bban_args_ok(c@, b@),
    ensures
        r@ == bban_iban(c@, b@),
{
    let mut s: Vec<char> = Vec::new();
    push_all(&mut s, c);
    s.push('0');
    s.push('0');
    push_all(&mut s, b);
    assert(s@ =~= c@ + seq!['0', '0'] + b@);
    let m = mod97_rotated(s.as_slice());
    proof {
        lemma_mod97_bound(s@.skip(4) + s@.take(4));
    }
    let check = 98 - m;
    let mut out: Vec<char> = Vec::new();
    push_all(&mut out, c);
    out.push(crate::strings::char_from_ascii(check / 10 + 48));
    out.push(crate::strings::char_from_ascii(check % 10 + 48));
    push_all(&mut out, b);
    assert(out@ =~= bban_iban(c@, b@));
    out
}

// ---------------------------------------------------------------------------
// Parsing
// ---------------------------------------------------------------------------

/// What `parse` returns: the canonical IBAN, or the message explaining why the
/// input is not one.
pub open spec fn parsed(input: Seq<char>) -> Result<Seq<char>, Seq<char>> {
    let n = normalized(input);
    if n.len() == 0 {
        Err("IBAN is required."@)
    } else if looks_like_iban(n) {
        match iban_check(n) {
            Ok(()) => Ok(n),
            Err(e) => Err(e),
        }
    } else if !all_digits(n) {
        Err("Not a valid IBAN."@)
    } else if n.len() != 20 {
        Err("Not a valid BBAN (a Slovak BBAN has 20 digits)."@)
    } else {
        let iban = bban_iban(sk_prefix(), n);
        match iban_check(iban) {
            Ok(()) => Ok(iban),
            Err(e) => Err(e),
        }
    }
}

/// Validate an IBAN (or a Slovak BBAN) and return it in canonical IBAN form.
pub fn parse(input: &str) -> (r: Result<String, String>)
    ensures
        match r {
            Ok(v) => parsed(input@) == Ok::<Seq<char>, Seq<char>>(v@),
            Err(e) => parsed(input@) == Err::<Seq<char>, Seq<char>>(e@),
        },
{
    let normalized = normalize(input);
    let n = to_chars(normalized.as_str());
    if n.len() == 0 {
        return Err(owned("IBAN is required."));
    }
    if looks_like(n.as_slice()) {
        proof {
            lemma_shape_checksum_chars(n@.skip(4));
            assert(checksum_chars(n@)) by {
                assert forall|i: int| 0 <= i < n@.len() implies checksum_char(#[trigger] n@[i]) by {
                    if i >= 4 {
                        assert(is_alphanumeric(n@[i]));
                    }
                }
            }
        }
        return match validate_iban(n.as_slice()) {
            Ok(()) => Ok(normalized),
            Err(e) => Err(e),
        };
    }
    if !are_digits(n.as_slice()) {
        return Err(owned("Not a valid IBAN."));
    }
    if n.len() != 20 {
        return Err(owned("Not a valid BBAN (a Slovak BBAN has 20 digits)."));
    }
    let sk: Vec<char> = vec!['S', 'K'];
    assert(sk@ =~= sk_prefix());
    proof {
        let s = sk@ + seq!['0', '0'] + n@;
        assert forall|i: int| 0 <= i < s.len() implies checksum_char(#[trigger] s[i]) by {
            if i >= 4 {
                assert(s[i] == n@[i - 4]);
            }
        }
    }
    let iban = bban_to_iban_chars(sk.as_slice(), n.as_slice());
    assert(checksum_chars(iban@)) by {
        assert forall|i: int| 0 <= i < iban@.len() implies checksum_char(#[trigger] iban@[i]) by {
            if i >= 4 {
                assert(iban@[i] == n@[i - 4]);
            }
            if i == 2 || i == 3 {
                let m = iban_mod97(sk_prefix() + seq!['0', '0'] + n@);
                lemma_mod97_bound((sk_prefix() + seq!['0', '0'] + n@).skip(4) + (sk_prefix() + seq!['0', '0'] + n@).take(4));
            }
        }
    }
    match validate_iban(iban.as_slice()) {
        Ok(()) => Ok(from_chars(iban.as_slice())),
        Err(e) => Err(e),
    }
}

// ---------------------------------------------------------------------------
// Display
// ---------------------------------------------------------------------------

/// The text of a chunk of bytes, or nothing where the chunk is not UTF-8.
pub open spec fn chunk_text(b: Seq<u8>) -> Seq<char> {
    if valid_utf8(b) {
        decode_utf8(b)
    } else {
        seq![]
    }
}

/// The bytes in chunks of four, each chunk read as text, joined by single spaces.
pub open spec fn pretty_bytes(b: Seq<u8>) -> Seq<char>
    decreases b.len(),
{
    if b.len() <= 4 {
        chunk_text(b)
    } else {
        chunk_text(b.take(4)) + seq![' '] + pretty_bytes(b.skip(4))
    }
}

fn chunk_text_of(b: &[u8]) -> (r: Vec<char>)
    ensures
        r@ == chunk_text(b@),
{
    match crate::strings::utf8_text(b) {
        Some(s) => to_chars(s),
        None => Vec::new(),
    }
}

/// Group an IBAN into blocks of four for display.
pub fn format_pretty(iban: &str) -> (r: String)
    ensures
        r@ == pretty_bytes(encode_utf8(iban@)),
{
    let b = iban.as_bytes();
    let len = b.len();
    let first_end = if len < 4 {
        len
    } else {
        4
    };
    let first = crate::strings::byte_slice(b, 0, first_end);
    let mut out = chunk_text_of(first.as_slice());
    if len <= 4 {
        assert(first@ =~= b@);
        return from_chars(out.as_slice());
    }
    assert(first@ == b@.take(4));
    let mut i: usize = 4;
    while i < len
        invariant
            4 <= i <= len,
            len == b@.len(),
            b@ == encode_utf8(iban@),
            i < len ==> pretty_bytes(b@) == out@ + seq![' '] + pretty_bytes(b@.skip(i as int)),
            i >= len ==> pretty_bytes(b@) == out@,
        decreases len - i,
    {
        let ghost rest = b@.skip(i as int);
        let end = if len - i <= 4 {
            len
        } else {
            i + 4
        };
        let chunk = crate::strings::byte_slice(b, i, end);
        let text = chunk_text_of(chunk.as_slice());
        let ghost before = out@;
        out.push(' ');
        push_all(&mut out, text.as_slice());
        if len - i <= 4 {
            assert(chunk@ =~= rest);
        } else {
            assert(chunk@ =~= rest.take(4));
            assert(rest.skip(4) =~= b@.skip(i + 4));
        }
        assert(out@ =~= before + seq![' '] + text@);
        i = end;
    }
    from_chars(out.as_slice())
}

/// An ASCII string in groups of four characters separated by single spaces.
pub open spec fn grouped(s: Seq<char>) -> Seq<char>
    decreases s.len(),
{
    if s.len() <= 4 {
        s
    } else {
        s.take(4) + seq![' '] + grouped(s.skip(4))
    }
}

/// For an ASCII IBAN, `format_pretty` gives the groups of four characters.
pub proof fn lemma_pretty_ascii(s: Seq<char>)
    requires
        is_ascii_chars(s),
    ensures
        pretty_bytes(encode_utf8(s)) == grouped(s),
    decreases s.len(),
{
    broadcast use vstd::utf8::encode_utf8_decode_utf8, vstd::utf8::encode_utf8_valid_utf8;

    is_ascii_chars_encode_utf8(s);
    let b = encode_utf8(s);
    if s.len() <= 4 {
    } else {
        let h = s.take(4);
        let t = s.skip(4);
        assert(is_ascii_chars(h));
        assert(is_ascii_chars(t));
        is_ascii_chars_encode_utf8(h);
        is_ascii_chars_encode_utf8(t);
        assert(b.take(4) =~= encode_utf8(h));
        assert(b.skip(4) =~= encode_utf8(t));
        lemma_pretty_ascii(t);
    }
}

// ---------------------------------------------------------------------------
// Laws
// ---------------------------------------------------------------------------

proof fn lemma_two_digits(x: int)
    requires
        0 <= x < 100,
    ensures
        is_digit(two_digits(x)[0]) && is_digit(two_digits(x)[1]),
        (two_digits(x)[0] as int - 48) * 10 + (two_digits(x)[1] as int - 48) == x,
{
}

/// Pushing one digit onto the checksummed string.
proof fn lemma_mod97_push_digit(s: Seq<char>, c: char)
    requires
        is_digit(c),
    ensures
        mod97_of(s.push(c)) == (mod97_of(s) * 10 + (c as int - 48)) % 97,
{
    assert(s.push(c).drop_last() =~= s);
}

/// The check digits that `bban_to_iban` computes make the ISO 13616 checksum
/// come out as 1, for every two-character country code and every BBAN the
/// checksum can read.
pub proof fn lemma_bban_to_iban_checksum(country: Seq<char>, bban: Seq<char>)
    requires
        country.len() == 2,
        bban_args_ok(country, bban),
    ensures
        iban_mod97(bban_iban(country, bban)) == 1,
{
    let zz = seq!['0', '0'];
    let s = country + zz + bban;
    assert(s.skip(4) + s.take(4) =~= ((bban + country).push('0')).push('0'));
    let m0 = mod97_of(bban + country);
    lemma_mod97_bound(bban + country);
    lemma_mod97_push_digit(bban + country, '0');
    lemma_mod97_push_digit((bban + country).push('0'), '0');
    let r = iban_mod97(s);
    assert(r == ((m0 * 10) % 97 * 10) % 97);
    assert(((m0 * 10) % 97 * 10) % 97 == (m0 * 100) % 97) by (nonlinear_arith)
        requires
            0 <= m0,
    ;
    let check = 98 - r;
    lemma_mod97_bound(s.skip(4) + s.take(4));
    assert(2 <= check <= 98);
    let t = two_digits(check);
    lemma_two_digits(check);
    let iban = bban_iban(country, bban);
    assert(iban =~= country + t + bban);
    assert(iban.skip(4) + iban.take(4) =~= ((bban + country).push(t[0])).push(t[1]));
    lemma_mod97_push_digit(bban + country, t[0]);
    lemma_mod97_push_digit((bban + country).push(t[0]), t[1]);
    let d1 = t[0] as int - 48;
    let d2 = t[1] as int - 48;
    assert((((m0 * 10 + d1) % 97) * 10 + d2) % 97 == (m0 * 100 + d1 * 10 + d2) % 97)
        by (nonlinear_arith)
        requires
            0 <= m0,
            0 <= d1,
            0 <= d2,
    ;
    assert((m0 * 100 + (98 - (m0 * 100) % 97)) % 97 == 1) by (nonlinear_arith)
        requires
            0 <= m0,
    ;
}

proof fn lemma_bban_iban_shape(n: Seq<char>)
    requires
        n.len() == 20,
        all_digits(n),
    ensures
        looks_like_iban(bban_iban(sk_prefix(), n)),
        bban_iban(sk_prefix(), n).len() == 24,
{
    let s = sk_prefix() + seq!['0', '0'] + n;
    lemma_mod97_bound(s.skip(4) + s.take(4));
    let x = 98 - iban_mod97(s);
    lemma_two_digits(x);
    let iban = bban_iban(sk_prefix(), n);
    assert forall|i: int| 4 <= i < iban.len() implies is_alphanumeric(#[trigger] iban[i]) by {
        assert(iban[i] == n[i - 4]);
    }
}

/// What `parse` accepts is a valid IBAN: it has the ISO 20022 shape and passes
/// every check (length, checksum, and the Slovak rules for a Slovak IBAN).
pub proof fn lemma_parsed_is_valid(input: Seq<char>)
    ensures
        parsed(input) matches Ok(v) ==> looks_like_iban(v) && iban_check(v) == Ok::<(), Seq<char>>(()),
{
    let n = normalized(input);
    if n.len() != 0 && !looks_like_iban(n) && all_digits(n) && n.len() == 20 {
        lemma_bban_iban_shape(n);
    }
}

proof fn lemma_normalized_canonical(v: Seq<char>)
    requires
        forall|i: int| 0 <= i < v.len() ==> is_digit(#[trigger] v[i]) || is_upper(v[i]),
    ensures
        normalized(v) == v,
    decreases v.len(),
{
    if v.len() > 0 {
        lemma_normalized_canonical(v.drop_last());
        assert(v.drop_last().push(v.last()) =~= v);
        assert(is_digit(v.last()) || is_upper(v.last()));
    }
}

/// Parsing is idempotent: the canonical IBAN that `parse` returns for an
/// ASCII input parses to itself.
pub proof fn lemma_parse_canonical(input: Seq<char>)
    requires
        forall|i: int| 0 <= i < input.len() ==> is_ascii_char(#[trigger] input[i]),
    ensures
        parsed(input) matches Ok(v) ==> parsed(v) == Ok::<Seq<char>, Seq<char>>(v),
{
    lemma_parsed_is_valid(input);
    if let Ok(v) = parsed(input) {
        let n = normalized(input);
        if looks_like_iban(n) {
            lemma_normalized_upper(input);
        } else {
            let iban = bban_iban(sk_prefix(), n);
            lemma_bban_iban_shape(n);
            let s = sk_prefix() + seq!['0', '0'] + n;
            lemma_mod97_bound(s.skip(4) + s.take(4));
            lemma_two_digits(98 - iban_mod97(s));
            assert forall|i: int| 0 <= i < v.len() implies is_digit(#[trigger] v[i]) || is_upper(v[i]) by {
                if i >= 4 {
                    assert(v[i] == n[i - 4]);
                }
            }
        }
        assert forall|i: int| 0 <= i < v.len() implies is_digit(#[trigger] v[i]) || is_upper(v[i]) by {
            if looks_like_iban(n) {
                lemma_normalized_upper(input);
            } else {
                if i >= 4 {
                    assert(v[i] == n[i - 4]);
                }
            }
        }
        lemma_normalized_canonical(v);
    }
}

/// No lower-case letter survives the normalisation of an ASCII string.
proof fn lemma_normalized_upper(s: Seq<char>)
    requires
        forall|i: int| 0 <= i < s.len() ==> is_ascii_char(#[trigger] s[i]),
    ensures
        forall|i: int| 0 <= i < normalized(s).len() ==> !is_lower(#[trigger] normalized(s)[i]),
    decreases s.len(),
{
    if s.len() > 0 {
        let t = s.drop_last();
        assert forall|i: int| 0 <= i < t.len() implies is_ascii_char(#[trigger] t[i]) by {
            assert(t[i] == s[i]);
        }
        lemma_normalized_upper(t);
        assert(is_ascii_char(s.last()));
        let n = normalized(s);
        assert forall|i: int| 0 <= i < n.len() implies !is_lower(#[trigger] n[i]) by {
            if i < normalized(t).len() {
                assert(n[i] == normalized(t)[i]);
            }
        }
    }
}

/// An upper-cased ASCII text without white space: what normalising ASCII
/// input leaves.
pub open spec fn plain_upper(t: Seq<char>) -> bool {
    forall|i: int|
        0 <= i < t.len() ==> is_ascii_char(#[trigger] t[i]) && !is_white_space(t[i]) && !is_lower(
            t[i],
        )
}

proof fn lemma_normalized_plain(s: Seq<char>)
    requires
        forall|i: int| 0 <= i < s.len() ==> is_ascii_char(#[trigger] s[i]),
    ensures
        plain_upper(normalized(s)),
    decreases s.len(),
{
    if s.len() > 0 {
        let t = s.drop_last();
        assert forall|i: int| 0 <= i < t.len() implies is_ascii_char(#[trigger] t[i]) by {
            assert(t[i] == s[i]);
        }
        lemma_normalized_plain(t);
        let c = s.last();
        assert(is_ascii_char(c));
        let n = normalized(s);
        let m = normalized(t);
        assert forall|i: int| 0 <= i < n.len() implies is_ascii_char(#[trigger] n[i])
            && !is_white_space(n[i]) && !is_lower(n[i]) by {
            if i < m.len() {
                assert(n[i] == m[i]);
            } else {
                assert(n[i] == upper_char(c));
                if is_lower(c) {
                    assert((upper_char(c) as u32) == (c as u32) - 32);
                }
            }
        }
    }
}

proof fn lemma_plain_fixed(t: Seq<char>)
    requires
        plain_upper(t),
    ensures
        normalized(t) == t,
    decreases t.len(),
{
    if t.len() > 0 {
        let u = t.drop_last();
        assert(plain_upper(u)) by {
            assert forall|i: int| 0 <= i < u.len() implies is_ascii_char(#[trigger] u[i])
                && !is_white_space(u[i]) && !is_lower(u[i]) by {
                assert(u[i] == t[i]);
            }
        }
        lemma_plain_fixed(u);
        assert(u.push(t.last()) =~= t);
    }
}

/// Normalising an ASCII IBAN a second time changes nothing: white space is
/// gone and every letter is upper case after the first time.
pub proof fn lemma_normalize_idempotent(s: Seq<char>)
    requires
        forall|i: int| 0 <= i < s.len() ==> is_ascii_char(#[trigger] s[i]),
    ensures
        plain_upper(normalized(s)),
        normalized(normalized(s)) == normalized(s),
{
    lemma_normalized_plain(s);
    lemma_plain_fixed(normalized(s));
}

/// Every bank code of the Slovak list is accepted: a Slovak IBAN of 24
/// characters, all digits after `SK`, with a correct checksum, one of the
/// listed bank codes and both mod-11 checks passing parses to itself.
pub proof fn lemma_listed_bank_codes_accepted(iban: Seq<char>)
    requires
        iban.len() == 24,
        iban[0] == 'S',
        iban[1] == 'K',
        forall|i: int| 2 <= i < 24 ==> is_digit(#[trigger] iban[i]),
        iban_mod97(iban) == 1,
        ({
            let code = digits_value(iban.subrange(4, 8));
            code == 200 || code == 720 || code == 900 || code == 1100 || code == 1111 || code == 3000 || code == 3100 || code == 5200 || code == 5600 || code == 5900 || code == 6500 || code == 7300 || code == 7500 || code == 7930 || code == 8050 || code == 8100 || code == 8120 || code == 8130 || code == 8160 || code == 8170 || code == 8180 || code == 8191 || code == 8320 || code == 8330 || code == 8360 || code == 8370 || code == 8390 || code == 8400 || code == 8420 || code == 8430 || code == 8440 || code == 8450 || code == 9950 || code == 9951 || code == 9953 || code == 9952
        }),
        weighted_sum(iban.subrange(8, 14), false) % 11 == 0,
        weighted_sum(iban.subrange(14, 24), true) % 11 == 0,
    ensures
        parsed(iban) == Ok::<Seq<char>, Seq<char>>(iban),
{
    lemma_normalized_canonical(iban);
    assert(starts_with(iban, sk_prefix())) by {
        assert(iban.take(2) =~= sk_prefix());
    }
    assert(all_digits(iban.skip(2))) by {
        assert forall|i: int| 0 <= i < iban.skip(2).len() implies is_digit(#[trigger] iban.skip(2)[i]) by {
            assert(iban.skip(2)[i] == iban[i + 2]);
        }
    }
    assert(looks_like_iban(iban));
}

} // verus!
