//! Recipients remembered between sessions.
//!
//! A payment is nearly always sent to someone the user has paid before, so the
//! recipient's name and IBAN are kept in a small YAML file -- the name is the
//! key, the IBAN the value:
//!
//! ```yaml
//! "The Best e-shops ltd": SK3709008482989234185969
//! ```
//!
//! The file is meant to be readable and editable by hand, so it is read as a
//! flat mapping of scalars: comments, blank lines and a leading `---` are
//! ignored, and both plain and double-quoted scalars are accepted. Lines that
//! cannot be read are skipped rather than treated as an error, so that a
//! corrupted history never stops the generator from working. Reading the file
//! from disk and writing it back is the caller's business; this module turns
//! text into entries and entries into text.

use vstd::prelude::*;

use crate::strings::{
    from_chars, is_control, is_control_char, is_white_space, is_whitespace, lower_char, push_all,
    push_str, starts_with, starts_with_chars, to_ascii_lower, to_chars, trim, trim_start,
    trim_start_chars,
};

verus! {

/// Overrides the location of the history file.
pub const PATH_ENV: &'static str = "PAYME_QR_CONTACTS";

/// Directory, under the user's configuration directory, that holds the history.
pub const DIR_NAME: &'static str = "payme-qr";

/// Name of the history file.
pub const FILE_NAME: &'static str = "contacts.yml";

// ---------------------------------------------------------------------------
// Names in order
// ---------------------------------------------------------------------------

/// Names are kept in the order of their code points, character by character,
/// a shorter name before every longer one it starts. This is the order of
/// their UTF-8 bytes, so the file lists names as any byte-wise sort would.
pub open spec fn name_before(a: Seq<char>, b: Seq<char>) -> bool
    decreases a.len(),
{
    if b.len() == 0 {
        false
    } else if a.len() == 0 {
        true
    } else if a[0] != b[0] {
        a[0] < b[0]
    } else {
        name_before(a.drop_first(), b.drop_first())
    }
}

pub proof fn lemma_before_irreflexive(a: Seq<char>)
    ensures
        !name_before(a, a),
    decreases a.len(),
{
    if a.len() > 0 {
        lemma_before_irreflexive(a.drop_first());
    }
}

pub proof fn lemma_before_transitive(a: Seq<char>, b: Seq<char>, c: Seq<char>)
    requires
        name_before(a, b),
        name_before(b, c),
    ensures
        name_before(a, c),
    decreases a.len(),
{
    if a.len() > 0 && a[0] == b[0] && b[0] == c[0] {
        lemma_before_transitive(a.drop_first(), b.drop_first(), c.drop_first());
    }
}

pub proof fn lemma_before_total(a: Seq<char>, b: Seq<char>)
    ensures
        a == b || name_before(a, b) || name_before(b, a),
    decreases a.len(),
{
    if a.len() > 0 && b.len() > 0 && a[0] == b[0] {
        lemma_before_total(a.drop_first(), b.drop_first());
        if a.drop_first() == b.drop_first() {
            assert(a =~= seq![a[0]] + a.drop_first());
            assert(b =~= seq![b[0]] + b.drop_first());
        }
    } else if a.len() == 0 && b.len() == 0 {
        assert(a =~= b);
    }
}

pub proof fn lemma_before_asymmetric(a: Seq<char>, b: Seq<char>)
    requires
        name_before(a, b),
    ensures
        !name_before(b, a),
{
    if name_before(b, a) {
        lemma_before_transitive(a, b, a);
        lemma_before_irreflexive(a);
    }
}

/// `a` comes before `b` among the names.
fn is_before(a: &str, b: &str) -> (r: bool)
    ensures
        r == name_before(a@, b@),
{
    let x = to_chars(a);
    let y = to_chars(b);
    let mut i: usize = 0;
    assert(x@.skip(0) =~= x@ && y@.skip(0) =~= y@);
    while i < x.len() && i < y.len() && x[i] == y[i]
        invariant
            i <= x@.len(),
            i <= y@.len(),
            x@ == a@,
            y@ == b@,
            name_before(a@, b@) == name_before(x@.skip(i as int), y@.skip(i as int)),
        decreases x@.len() - i,
    {
        assert(x@.skip(i as int).drop_first() =~= x@.skip(i + 1));
        assert(y@.skip(i as int).drop_first() =~= y@.skip(i + 1));
        i += 1;
    }
    if i == y.len() {
        false
    } else if i == x.len() {
        true
    } else {
        x[i] < y[i]
    }
}

// ---------------------------------------------------------------------------
// The entries
// ---------------------------------------------------------------------------

/// Name and IBAN pairs.
pub type Entries = Seq<(Seq<char>, Seq<char>)>;

/// Strictly increasing names: each name once, in order.
pub open spec fn sorted(s: Entries) -> bool {
    forall|i: int, j: int| 0 <= i < j < s.len() ==> name_before(#[trigger] s[i].0, #[trigger] s[j].0)
}

/// Where `name` belongs among sorted entries: after every name before it.
pub open spec fn slot(s: Entries, name: Seq<char>) -> nat
    decreases s.len(),
{
    if s.len() == 0 || !name_before(s[0].0, name) {
        0
    } else {
        1 + slot(s.drop_first(), name)
    }
}

/// The entries with `name` mapped to `iban`: the entry for that exact name
/// takes the new IBAN, or a new entry goes in at its place in the order.
pub open spec fn upsert(s: Entries, name: Seq<char>, iban: Seq<char>) -> Entries {
    let i = slot(s, name) as int;
    if i < s.len() && s[i].0 == name {
        s.update(i, (name, iban))
    } else {
        s.insert(i, (name, iban))
    }
}

proof fn lemma_slot(s: Entries, name: Seq<char>, i: int)
    requires
        0 <= i <= s.len(),
        forall|j: int| 0 <= j < i ==> name_before(#[trigger] s[j].0, name),
        i == s.len() || !name_before(s[i].0, name),
    ensures
        slot(s, name) == i,
    decreases i,
{
    if i > 0 {
        assert forall|j: int| 0 <= j < i - 1 implies name_before(
            #[trigger] s.drop_first()[j].0,
            name,
        ) by {
            assert(s.drop_first()[j] == s[j + 1]);
        }
        lemma_slot(s.drop_first(), name, i - 1);
    }
}

proof fn lemma_slot_bounds(s: Entries, name: Seq<char>)
    ensures
        slot(s, name) <= s.len(),
        forall|j: int| 0 <= j < slot(s, name) ==> name_before(#[trigger] s[j].0, name),
        slot(s, name) == s.len() || !name_before(s[slot(s, name) as int].0, name),
    decreases s.len(),
{
    if s.len() > 0 && name_before(s[0].0, name) {
        lemma_slot_bounds(s.drop_first(), name);
        assert forall|j: int| 0 <= j < slot(s, name) implies name_before(
            #[trigger] s[j].0,
            name,
        ) by {
            if j > 0 {
                assert(s[j] == s.drop_first()[j - 1]);
            }
        }
    }
}

/// Upserting keeps the entries sorted.
pub proof fn lemma_upsert_sorted(s: Entries, name: Seq<char>, iban: Seq<char>)
    requires
        sorted(s),
    ensures
        sorted(upsert(s, name, iban)),
        upsert(s, name, iban).len() == s.len() || upsert(s, name, iban).len() == s.len() + 1,
{
    lemma_slot_bounds(s, name);
    let i = slot(s, name) as int;
    let r = upsert(s, name, iban);
    // Everything from the slot on comes after the name, apart from an equal one there.
    assert forall|j: int| i <= j < s.len() && s[j].0 != name implies name_before(
        name,
        #[trigger] s[j].0,
    ) by {
        lemma_before_total(name, s[j].0);
        if name_before(s[j].0, name) {
            if j > i {
                lemma_before_transitive(s[i].0, s[j].0, name);
            }
        }
    }
    assert forall|j: int| 0 <= j < i implies #[trigger] s[j].0 != name by {
        lemma_before_irreflexive(name);
    }
    if i < s.len() && s[i].0 == name {
        assert forall|a: int, b: int| 0 <= a < b < r.len() implies name_before(
            #[trigger] r[a].0,
            #[trigger] r[b].0,
        ) by {
            if a == i {
                assert(name_before(s[a].0, s[b].0));
            } else if b == i {
                assert(name_before(s[a].0, s[b].0));
            } else {
                assert(name_before(s[a].0, s[b].0));
            }
        }
    } else {
        assert forall|a: int, b: int| 0 <= a < b < r.len() implies name_before(
            #[trigger] r[a].0,
            #[trigger] r[b].0,
        ) by {
            if b < i {
                assert(r[a] == s[a] && r[b] == s[b]);
            } else if b == i {
                assert(r[a] == s[a]);
            } else if a < i {
                assert(r[a] == s[a] && r[b] == s[b - 1]);
                lemma_before_transitive(s[a].0, name, s[b - 1].0);
            } else if a == i {
                assert(r[b] == s[b - 1]);
                if b - 1 == i {
                } else {
                    assert(s[b - 1].0 != name) by {
                        assert(name_before(s[i].0, s[b - 1].0));
                        if s[b - 1].0 == name {
                            lemma_before_total(name, s[i].0);
                            lemma_before_asymmetric(s[i].0, name);
                        }
                    }
                }
            } else {
                assert(r[a] == s[a - 1] && r[b] == s[b - 1]);
            }
        }
    }
}

/// Entries that are sorted with one more at the end: upserting that last one
/// into the others appends it.
pub proof fn lemma_upsert_last(s: Entries, name: Seq<char>, iban: Seq<char>)
    requires
        sorted(s.push((name, iban))),
    ensures
        upsert(s, name, iban) == s.push((name, iban)),
{
    let t = s.push((name, iban));
    assert forall|j: int| 0 <= j < s.len() implies name_before(#[trigger] s[j].0, name) by {
        assert(t[j] == s[j] && t[s.len() as int] == (name, iban));
        assert(name_before(t[j].0, t[s.len() as int].0));
    }
    lemma_slot(s, name, s.len() as int);
    assert(s.insert(s.len() as int, (name, iban)) =~= s.push((name, iban)));
}

/// Removing an entry keeps the entries sorted.
pub proof fn lemma_remove_sorted(s: Entries, i: int)
    requires
        sorted(s),
        0 <= i < s.len(),
    ensures
        sorted(s.remove(i)),
{
    let r = s.remove(i);
    assert forall|a: int, b: int| 0 <= a < b < r.len() implies name_before(
        #[trigger] r[a].0,
        #[trigger] r[b].0,
    ) by {
        let a2 = if a < i { a } else { a + 1 };
        let b2 = if b < i { b } else { b + 1 };
        assert(r[a] == s[a2] && r[b] == s[b2]);
    }
}

/// Every entry has a name and an IBAN.
pub open spec fn filled(s: Entries) -> bool {
    forall|i: int| 0 <= i < s.len() ==> (#[trigger] s[i]).0.len() > 0 && s[i].1.len() > 0
}

/// Entries as the history keeps them: sorted, each with a name and an IBAN.
pub open spec fn valid_entries(s: Entries) -> bool {
    sorted(s) && filled(s)
}

pub proof fn lemma_upsert_valid(s: Entries, name: Seq<char>, iban: Seq<char>)
    requires
        valid_entries(s),
        name.len() > 0,
        iban.len() > 0,
    ensures
        valid_entries(upsert(s, name, iban)),
{
    lemma_upsert_sorted(s, name, iban);
    lemma_slot_bounds(s, name);
}

// ---------------------------------------------------------------------------
// Matching names
// ---------------------------------------------------------------------------

/// `str::eq_ignore_ascii_case`: equal once ASCII letters are lower-cased.
pub open spec fn same_name(a: Seq<char>, b: Seq<char>) -> bool {
    a.len() == b.len() && forall|i: int| 0 <= i < a.len() ==> lower_char(#[trigger] a[i]) == lower_char(b[i])
}

fn same_name_exec(a: &str, b: &str) -> (r: bool)
    ensures
        r == same_name(a@, b@),
{
    let x = to_chars(a);
    let y = to_chars(b);
    if x.len() != y.len() {
        return false;
    }
    let n = x.len();
    let mut i: usize = 0;
    while i < n
        invariant
            i <= n,
            n == x@.len(),
            n == y@.len(),
            x@ == a@,
            y@ == b@,
            forall|j: int| 0 <= j < i ==> lower_char(#[trigger] x@[j]) == lower_char(y@[j]),
        decreases n - i,
    {
        if to_ascii_lower(x[i]) != to_ascii_lower(y[i]) {
            return false;
        }
        i += 1;
    }
    true
}

/// The first entry at or after `i` whose name is `name` regardless of ASCII case.
pub open spec fn find_name_from(s: Entries, name: Seq<char>, i: int) -> Option<int>
    decreases s.len() - i,
{
    if i < 0 || i >= s.len() {
        None
    } else if same_name(s[i].0, name) {
        Some(i)
    } else {
        find_name_from(s, name, i + 1)
    }
}

/// The first entry whose name is `name` regardless of ASCII case.
pub open spec fn find_name(s: Entries, name: Seq<char>) -> Option<int> {
    find_name_from(s, name, 0)
}

pub proof fn lemma_find_name_from(s: Entries, name: Seq<char>, i: int)
    requires
        0 <= i,
    ensures
        match find_name_from(s, name, i) {
            Some(k) => i <= k < s.len() && same_name(s[k].0, name) && forall|j: int|
                i <= j < k ==> !same_name(#[trigger] s[j].0, name),
            None => forall|j: int| i <= j < s.len() ==> !same_name(#[trigger] s[j].0, name),
        },
    decreases s.len() - i,
{
    if i < s.len() && !same_name(s[i].0, name) {
        lemma_find_name_from(s, name, i + 1);
    }
}

// ---------------------------------------------------------------------------
// Collapsing white space
// ---------------------------------------------------------------------------

/// The words of `s` and whether white space follows the last of them: the
/// state of reading `s` from the left.
pub open spec fn words_state(s: Seq<char>) -> (Seq<char>, bool)
    decreases s.len(),
{
    if s.len() == 0 {
        (seq![], false)
    } else {
        let (out, gap) = words_state(s.drop_last());
        let c = s.last();
        if is_white_space(c) {
            (out, true)
        } else if gap && out.len() > 0 {
            (out.push(' ').push(c), false)
        } else {
            (out.push(c), false)
        }
    }
}

/// The words of `s`, joined by single spaces: `split_whitespace` followed by
/// `join(" ")`.
pub open spec fn collapsed(s: Seq<char>) -> Seq<char> {
    words_state(s).0
}

/// A text without white space collapses to itself.
pub proof fn lemma_collapsed_plain(s: Seq<char>)
    requires
        forall|i: int| 0 <= i < s.len() ==> !is_white_space(#[trigger] s[i]),
    ensures
        words_state(s) == (s, false),
        collapsed(s) == s,
    decreases s.len(),
{
    if s.len() > 0 {
        let t = s.drop_last();
        assert forall|i: int| 0 <= i < t.len() implies !is_white_space(#[trigger] t[i]) by {
            assert(t[i] == s[i]);
        }
        lemma_collapsed_plain(t);
        assert(!is_white_space(s.last()));
        assert(t.push(s.last()) =~= s);
    }
}

/// Text as collapsing leaves it, but for a space it may still end with: the
/// only white space is single spaces, and it does not start with one.
pub open spec fn spaced(t: Seq<char>) -> bool {
    &&& forall|i: int| 0 <= i < t.len() && is_white_space(#[trigger] t[i]) ==> t[i] == ' '
    &&& t.len() > 0 ==> !is_white_space(t[0])
    &&& forall|i: int| 0 <= i < t.len() - 1 && #[trigger] t[i] == ' ' ==> t[i + 1] != ' '
}

proof fn lemma_words_state_spaced(s: Seq<char>)
    ensures
        spaced(words_state(s).0),
        words_state(s).0.len() > 0 ==> !is_white_space(words_state(s).0.last()),
    decreases s.len(),
{
    if s.len() > 0 {
        lemma_words_state_spaced(s.drop_last());
        let (out, gap) = words_state(s.drop_last());
        let c = s.last();
        let r = words_state(s).0;
        if !is_white_space(c) {
            assert forall|i: int| 0 <= i < r.len() && is_white_space(#[trigger] r[i]) implies r[i]
                == ' ' by {
                if i < out.len() {
                    assert(r[i] == out[i]);
                }
            }
            assert forall|i: int| 0 <= i < r.len() - 1 && #[trigger] r[i] == ' ' implies r[i + 1]
                != ' ' by {
                if i < out.len() - 1 {
                    assert(r[i] == out[i] && r[i + 1] == out[i + 1]);
                }
            }
            if out.len() > 0 {
                assert(r[0] == out[0]);
            }
        }
    }
}

proof fn lemma_spaced_words_state(t: Seq<char>)
    requires
        spaced(t),
    ensures
        words_state(t) == (if t.len() > 0 && t.last() == ' ' {
            (t.drop_last(), true)
        } else {
            (t, false)
        }),
    decreases t.len(),
{
    if t.len() > 0 {
        let u = t.drop_last();
        assert(spaced(u)) by {
            assert forall|i: int| 0 <= i < u.len() && is_white_space(#[trigger] u[i]) implies u[i]
                == ' ' by {
                assert(u[i] == t[i]);
            }
            assert forall|i: int| 0 <= i < u.len() - 1 && #[trigger] u[i] == ' ' implies u[i + 1]
                != ' ' by {
                assert(u[i] == t[i] && u[i + 1] == t[i + 1]);
            }
            if u.len() > 0 {
                assert(u[0] == t[0]);
            }
        }
        lemma_spaced_words_state(u);
        let c = t.last();
        if is_white_space(c) {
            assert(c == t[t.len() - 1]);
            assert(u.len() > 0);
            assert(u.last() == t[t.len() - 2]);
        } else if u.len() > 0 && u.last() == ' ' {
            assert(u.last() == t[t.len() - 2]);
            assert(u.len() >= 2) by {
                assert(u[0] == t[0]);
            }
            assert(u.drop_last().push(' ').push(c) =~= t);
        } else {
            assert(u.push(c) =~= t);
        }
    }
}

/// Collapsing white space a second time changes nothing.
pub proof fn lemma_collapsed_idempotent(s: Seq<char>)
    ensures
        collapsed(collapsed(s)) == collapsed(s),
{
    lemma_words_state_spaced(s);
    lemma_spaced_words_state(collapsed(s));
}

/// Collapse the white space of a value on its way into the history, so that
/// the same recipient typed with a stray trailing space is not stored twice.
pub fn clean(value: &str) -> (r: String)
    ensures
        r@ == collapsed(value@),
{
    let v = to_chars(value);
    let mut out: Vec<char> = Vec::new();
    let mut gap = false;
    for i in 0..v.len()
        invariant
            v@ == value@,
            words_state(v@.take(i as int)) == (out@, gap),
    {
        let c = v[i];
        assert(v@.take(i + 1).drop_last() =~= v@.take(i as int));
        if is_whitespace(c) {
            gap = true;
        } else {
            if gap && out.len() > 0 {
                out.push(' ');
            }
            out.push(c);
            gap = false;
        }
    }
    assert(v@.take(v@.len() as int) =~= v@);
    from_chars(out.as_slice())
}

// ---------------------------------------------------------------------------
// Lower case, for completion
// ---------------------------------------------------------------------------

/// `str::to_lowercase`: the lower-case mapping of the Unicode character
/// database that the standard library was built with.
pub uninterp spec fn unicode_lower(s: Seq<char>) -> Seq<char>;

/// `str::to_lowercase`. Its result is named, not spelled out: the mapping is
/// the Unicode character database's.
#[verifier::external_body]
fn to_lowercase(s: &str) -> (r: String)
    ensures
        r@ == unicode_lower(s@),
{
    s.to_lowercase()
}

/// The entries whose name, lower-cased, starts with the lower-cased prefix.
pub open spec fn matching(s: Entries, prefix: Seq<char>) -> Entries
    decreases s.len(),
{
    if s.len() == 0 {
        seq![]
    } else {
        let rest = matching(s.drop_last(), prefix);
        if starts_with(unicode_lower(s.last().0), unicode_lower(prefix)) {
            rest.push(s.last())
        } else {
            rest
        }
    }
}

/// The entries whose lowered name, given by position in `lowered`, starts
/// with the lowered prefix `p`, in order.
pub open spec fn matching_by(s: Entries, lowered: Seq<Seq<char>>, p: Seq<char>) -> Entries
    decreases s.len(),
{
    if s.len() == 0 {
        seq![]
    } else {
        let rest = matching_by(s.drop_last(), lowered, p);
        if starts_with(lowered[s.len() - 1], p) {
            rest.push(s.last())
        } else {
            rest
        }
    }
}

/// Matching over names lowered beforehand is matching itself.
pub proof fn lemma_matching_by(s: Entries, lowered: Seq<Seq<char>>, prefix: Seq<char>)
    requires
        lowered.len() == s.len(),
        forall|j: int| 0 <= j < s.len() ==> #[trigger] lowered[j] == unicode_lower(s[j].0),
    ensures
        matching_by(s, lowered, unicode_lower(prefix)) == matching(s, prefix),
    decreases s.len(),
{
    if s.len() > 0 {
        let t = s.drop_last();
        assert forall|j: int| 0 <= j < t.len() implies #[trigger] lowered.take(t.len() as int)[j]
            == unicode_lower(t[j].0) by {
            assert(lowered[j] == unicode_lower(s[j].0));
        }
        lemma_matching_by_prefix(t, lowered, unicode_lower(prefix));
        lemma_matching_by(t, lowered.take(t.len() as int), prefix);
        assert(lowered[s.len() - 1] == unicode_lower(s[s.len() - 1].0));
    }
}

/// Only the lowered names of the entries themselves count.
proof fn lemma_matching_by_prefix(s: Entries, lowered: Seq<Seq<char>>, p: Seq<char>)
    requires
        lowered.len() >= s.len(),
    ensures
        matching_by(s, lowered.take(s.len() as int), p) == matching_by(s, lowered, p),
    decreases s.len(),
{
    if s.len() > 0 {
        lemma_matching_by_prefix(s.drop_last(), lowered, p);
        lemma_matching_by_prefix(s.drop_last(), lowered.take(s.len() as int), p);
        assert(lowered.take(s.len() as int).take(s.len() - 1) =~= lowered.take(s.len() - 1));
    }
}

/// `t` begins with `p`, character for character.
pub open spec fn begins(t: Seq<char>, p: Seq<char>) -> bool {
    p.len() <= t.len() && forall|i: int| 0 <= i < p.len() ==> #[trigger] t[i] == p[i]
}

/// Matching over lowered names keeps exactly the entries whose lowered name
/// begins with the prefix: each one it returns is such an entry, each such
/// entry is returned, and they come in the history's order.
pub proof fn lemma_matching_by_begins(s: Entries, lowered: Seq<Seq<char>>, p: Seq<char>)
    requires
        lowered.len() >= s.len(),
    ensures
        forall|e: (Seq<char>, Seq<char>)|
            #[trigger] matching_by(s, lowered, p).contains(e) <==> exists|i: int|
                0 <= i < s.len() && s[i] == e && begins(lowered[i], p),
        matching_by(s, lowered, p).len() <= s.len(),
    decreases s.len(),
{
    if s.len() > 0 {
        let t = s.drop_last();
        let k = s.len() - 1;
        lemma_matching_by_begins(t, lowered, p);
        let r = matching_by(s, lowered, p);
        let q = matching_by(t, lowered, p);
        assert(starts_with(lowered[k], p) <==> begins(lowered[k], p)) by {
            if begins(lowered[k], p) {
                assert(lowered[k].take(p.len() as int) =~= p);
            }
            if starts_with(lowered[k], p) {
                assert forall|i: int| 0 <= i < p.len() implies #[trigger] lowered[k][i] == p[i] by {
                    assert(lowered[k].take(p.len() as int)[i] == lowered[k][i]);
                }
            }
        }
        assert forall|e: (Seq<char>, Seq<char>)| #[trigger] r.contains(e) <==> exists|i: int|
            0 <= i < s.len() && s[i] == e && begins(lowered[i], p) by {
            if r.contains(e) {
                if q.contains(e) {
                    let i = choose|i: int| 0 <= i < t.len() && t[i] == e && begins(lowered[i], p);
                    assert(s[i] == t[i]);
                } else {
                    let j = choose|j: int| 0 <= j < r.len() && r[j] == e;
                    if j < q.len() {
                        assert(r[j] == q[j]);
                    }
                    assert(s[k] == e && begins(lowered[k], p));
                }
            }
            if exists|i: int| 0 <= i < s.len() && s[i] == e && begins(lowered[i], p) {
                let i = choose|i: int| 0 <= i < s.len() && s[i] == e && begins(lowered[i], p);
                if i < k {
                    assert(t[i] == e);
                    assert(q.contains(e));
                    let j = choose|j: int| 0 <= j < q.len() && q[j] == e;
                    assert(r[j] == q[j]);
                } else {
                    assert(r[r.len() - 1] == e);
                }
            }
        }
    }
}

/// Completion offers exactly the remembered entries whose name, lower-cased,
/// begins with what has been typed, lower-cased once leading white space is
/// dropped -- and nothing before anything is typed.
pub proof fn lemma_completions_begin_with_prefix(s: Entries, typed: Seq<char>)
    ensures
        trim_start(typed).len() == 0 ==> completions(s, typed).len() == 0,
        trim_start(typed).len() > 0 ==> forall|e: (Seq<char>, Seq<char>)|
            #[trigger] completions(s, typed).contains(e) <==> (s.contains(e) && begins(
                unicode_lower(e.0),
                unicode_lower(trim_start(typed)),
            )),
{
    if trim_start(typed).len() > 0 {
        let lowered = s.map_values(|e: (Seq<char>, Seq<char>)| unicode_lower(e.0));
        lemma_matching_by(s, lowered, trim_start(typed));
        lemma_matching_by_begins(s, lowered, unicode_lower(trim_start(typed)));
        let p = unicode_lower(trim_start(typed));
        assert forall|e: (Seq<char>, Seq<char>)| #[trigger] completions(s, typed).contains(e) <==> (
        s.contains(e) && begins(unicode_lower(e.0), p)) by {
            if s.contains(e) && begins(unicode_lower(e.0), p) {
                let i = choose|i: int| 0 <= i < s.len() && s[i] == e;
                assert(lowered[i] == unicode_lower(e.0));
            }
            if completions(s, typed).contains(e) {
                let i = choose|i: int| 0 <= i < s.len() && s[i] == e && begins(lowered[i], p);
                assert(lowered[i] == unicode_lower(s[i].0));
            }
        }
    }
}

/// What completion offers for a typed prefix: nothing before the first
/// character is typed, then every matching entry in order.
pub open spec fn completions(s: Entries, typed: Seq<char>) -> Entries {
    let prefix = trim_start(typed);
    if prefix.len() == 0 {
        seq![]
    } else {
        matching(s, prefix)
    }
}

/// What remembering a recipient does: the pair, with white space collapsed,
/// replaces the entry of that name regardless of ASCII case, unless the
/// history already holds it exactly.
pub open spec fn remembered(s: Entries, name: Seq<char>, iban: Seq<char>) -> (bool, Entries) {
    let n = collapsed(name);
    let v = collapsed(iban);
    if n.len() == 0 || v.len() == 0 {
        (false, s)
    } else {
        match find_name(s, n) {
            Some(k) => if s[k].0 == n && s[k].1 == v {
                (false, s)
            } else {
                (true, upsert(s.remove(k), n, v))
            },
            None => (true, upsert(s, n, v)),
        }
    }
}

/// What forgetting a name does: the first entry of that name regardless of
/// ASCII case goes.
pub open spec fn forgotten(s: Entries, name: Seq<char>) -> (bool, Entries) {
    match find_name(s, collapsed(name)) {
        Some(k) => (true, s.remove(k)),
        None => (false, s),
    }
}

/// The IBAN remembered for a name, matched without regard to ASCII case.
pub open spec fn iban_of(s: Entries, name: Seq<char>) -> Option<Seq<char>> {
    match find_name(s, collapsed(name)) {
        Some(k) => Some(s[k].1),
        None => None,
    }
}

/// The entries as pairs of text.
pub open spec fn entries_view(v: Seq<(String, String)>) -> Entries {
    v.map_values(|e: (String, String)| (e.0@, e.1@))
}

pub proof fn lemma_entries_view(v: Seq<(String, String)>)
    ensures
        entries_view(v).len() == v.len(),
        forall|i: int| 0 <= i < v.len() ==> #[trigger] entries_view(v)[i] == (v[i].0@, v[i].1@),
{
}

/// Borrowed pairs as text.
pub open spec fn pairs_of(v: Seq<(&str, &str)>) -> Entries {
    v.map_values(|e: (&str, &str)| (e.0@, e.1@))
}

// ---------------------------------------------------------------------------
// Writing scalars
// ---------------------------------------------------------------------------

/// Characters that open a YAML construct and so cannot start a plain scalar.
pub open spec fn is_indicator(c: char) -> bool {
    c == '-' || c == '?' || c == ':' || c == ',' || c == '[' || c == ']' || c == '{' || c == '}'
        || c == '#' || c == '&' || c == '*' || c == '!' || c == '|' || c == '>' || c == '\''
        || c == '"' || c == '%' || c == '@' || c == '`'
}

fn indicator(c: char) -> (r: bool)
    ensures
        r == is_indicator(c),
{
    c == '-' || c == '?' || c == ':' || c == ',' || c == '[' || c == ']' || c == '{' || c == '}'
        || c == '#' || c == '&' || c == '*' || c == '!' || c == '|' || c == '>' || c == '\''
        || c == '"' || c == '%' || c == '@' || c == '`'
}

/// Words that a YAML reader takes for a boolean or null rather than text.
pub open spec fn is_reserved_word(lowered: Seq<char>) -> bool {
    lowered == "true"@ || lowered == "false"@ || lowered == "yes"@ || lowered == "no"@ || lowered
        == "on"@ || lowered == "off"@ || lowered == "null"@ || lowered == "~"@
}

/// Digits with at most one dot among them, and at least one digit.
pub open spec fn mantissa_syntax(m: Seq<char>) -> bool {
    match crate::strings::find(m, seq!['.']) {
        None => m.len() > 0 && crate::strings::all_digits(m),
        Some(k) => m.len() > 1 && crate::strings::all_digits(m.take(k))
            && crate::strings::all_digits(m.skip(k + 1)),
    }
}

/// An optional sign followed by at least one digit.
pub open spec fn exponent_syntax(x: Seq<char>) -> bool {
    let d = if x.len() > 0 && (x[0] == '+' || x[0] == '-') {
        x.drop_first()
    } else {
        x
    };
    d.len() > 0 && crate::strings::all_digits(d)
}

/// What `str::parse::<f64>` accepts, as its documentation gives the grammar:
/// an optional sign, then `inf`, `infinity` or `nan` in any case, or a
/// decimal number with an optional exponent introduced by `e` or `E`.
pub open spec fn float_syntax(s: Seq<char>) -> bool {
    let body = if s.len() > 0 && (s[0] == '+' || s[0] == '-') {
        s.drop_first()
    } else {
        s
    };
    let lowered = crate::strings::lower_seq(body);
    ||| lowered == "inf"@
    ||| lowered == "infinity"@
    ||| lowered == "nan"@
    ||| match crate::strings::find(lowered, seq!['e']) {
        None => mantissa_syntax(body),
        Some(k) => mantissa_syntax(body.take(k)) && exponent_syntax(body.skip(k + 1)),
    }
}

/// Whether a scalar can be written without quotes: it must not be empty,
/// start with a YAML indicator, hold a `:`, a `#`, a control character or an
/// edge space, and must not look like a number or a boolean to a YAML reader.
pub open spec fn plain_safe(v: Seq<char>) -> bool {
    &&& v.len() > 0
    &&& trim(v) == v
    &&& !is_indicator(v[0])
    &&& forall|i: int|
        0 <= i < v.len() ==> !is_control_char(#[trigger] v[i]) && v[i] != ':' && v[i] != '#'
    &&& !is_reserved_word(crate::strings::lower_seq(v))
    &&& !float_syntax(v)
}

/// How a character is written between double quotes.
pub open spec fn escaped_char(c: char) -> Seq<char> {
    if c == '"' {
        seq!['\\', '"']
    } else if c == '\\' {
        seq!['\\', '\\']
    } else if c == '\n' {
        seq!['\\', 'n']
    } else if c == '\t' {
        seq!['\\', 't']
    } else {
        seq![c]
    }
}

/// The characters of `s`, each written as between double quotes.
pub open spec fn escaped(s: Seq<char>) -> Seq<char>
    decreases s.len(),
{
    if s.len() == 0 {
        seq![]
    } else {
        escaped(s.drop_last()) + escaped_char(s.last())
    }
}

/// How a scalar is written: as it is where that is safe, else double-quoted.
pub open spec fn scalar_text(v: Seq<char>) -> Seq<char> {
    if plain_safe(v) {
        v
    } else {
        seq!['"'] + escaped(v) + seq!['"']
    }
}

/// One entry of the file: `name: iban`.
pub open spec fn entry_line(e: (Seq<char>, Seq<char>)) -> Seq<char> {
    scalar_text(e.0) + ": "@ + scalar_text(e.1)
}

/// The first line of the comment that opens the file.
pub open spec fn header_first() -> Seq<char> {
    "# Recipients remembered by payme-qr: name (key) to IBAN (value)."@
}

/// The second line of the comment that opens the file.
pub open spec fn header_second() -> Seq<char> {
    "# Edit or delete entries freely; the file is rewritten as codes are generated."@
}

/// The comment that opens the file.
pub open spec fn yaml_header() -> Seq<char> {
    header_first() + seq!['\n'] + header_second() + seq!['\n']
}

/// The entries, one line each.
pub open spec fn yaml_body(s: Entries) -> Seq<char>
    decreases s.len(),
{
    if s.len() == 0 {
        seq![]
    } else {
        yaml_body(s.drop_last()) + entry_line(s.last()) + seq!['\n']
    }
}

proof fn lemma_body_step(s: Entries, i: int)
    requires
        0 <= i < s.len(),
    ensures
        yaml_body(s.take(i + 1)) == yaml_body(s.take(i)) + (entry_line(s[i]) + seq!['\n']),
{
    assert(s.take(i + 1).drop_last() =~= s.take(i));
    assert(s.take(i + 1).last() == s[i]);
    assert(yaml_body(s.take(i)) + entry_line(s[i]) + seq!['\n'] =~= yaml_body(s.take(i)) + (
    entry_line(s[i]) + seq!['\n']));
}

/// The history file for the entries.
pub open spec fn yaml_text(s: Entries) -> Seq<char> {
    yaml_header() + yaml_body(s)
}

/// An optional sign stripped.
fn unsigned(v: &[char]) -> (r: Vec<char>)
    ensures
        r@ == (if v@.len() > 0 && (v@[0] == '+' || v@[0] == '-') {
            v@.drop_first()
        } else {
            v@
        }),
{
    if v.len() > 0 && (v[0] == '+' || v[0] == '-') {
        let r = crate::strings::slice_of(v, 1, v.len());
        assert(r@ =~= v@.drop_first());
        r
    } else {
        let r = crate::strings::slice_of(v, 0, v.len());
        assert(r@ =~= v@);
        r
    }
}

fn mantissa_ok(m: &[char]) -> (r: bool)
    ensures
        r == mantissa_syntax(m@),
{
    let dot: Vec<char> = vec!['.'];
    assert(dot@ =~= seq!['.']);
    match crate::strings::find_chars(m, dot.as_slice()) {
        None => m.len() > 0 && crate::strings::are_digits(m),
        Some(k) => {
            proof {
                crate::strings::lemma_find(m@, dot@);
            }
            let mlen = m.len();
            assert(crate::strings::occurs_at(m@, dot@, k as int));
            assert(k + 1 <= mlen);
            let whole = crate::strings::slice_of(m, 0, k);
            let frac = crate::strings::slice_of(m, k + 1, m.len());
            assert(whole@ =~= m@.take(k as int));
            assert(frac@ =~= m@.skip(k + 1));
            m.len() > 1 && crate::strings::are_digits(whole.as_slice())
                && crate::strings::are_digits(frac.as_slice())
        },
    }
}

fn exponent_ok(x: &[char]) -> (r: bool)
    ensures
        r == exponent_syntax(x@),
{
    let d = unsigned(x);
    d.len() > 0 && crate::strings::are_digits(d.as_slice())
}

/// Whether `str::parse::<f64>` would accept the text.
fn looks_like_float(v: &[char]) -> (r: bool)
    ensures
        r == float_syntax(v@),
{
    let body = unsigned(v);
    let lowered = crate::strings::lower_chars(body.as_slice());
    if crate::strings::chars_eq_str(lowered.as_slice(), "inf") || crate::strings::chars_eq_str(
        lowered.as_slice(),
        "infinity",
    ) || crate::strings::chars_eq_str(lowered.as_slice(), "nan") {
        proof {
            reveal_strlit("inf");
            reveal_strlit("infinity");
            reveal_strlit("nan");
        }
        return true;
    }
    let e: Vec<char> = vec!['e'];
    assert(e@ =~= seq!['e']);
    match crate::strings::find_chars(lowered.as_slice(), e.as_slice()) {
        None => mantissa_ok(body.as_slice()),
        Some(k) => {
            proof {
                crate::strings::lemma_find(lowered@, e@);
            }
            let m = crate::strings::slice_of(body.as_slice(), 0, k);
            let x = crate::strings::slice_of(body.as_slice(), k + 1, body.len());
            assert(m@ =~= body@.take(k as int));
            assert(x@ =~= body@.skip(k + 1));
            mantissa_ok(m.as_slice()) && exponent_ok(x.as_slice())
        },
    }
}

fn is_reserved(v: &[char]) -> (r: bool)
    ensures
        r == is_reserved_word(crate::strings::lower_seq(v@)),
{
    let l = crate::strings::lower_chars(v);
    let s = l.as_slice();
    crate::strings::chars_eq_str(s, "true") || crate::strings::chars_eq_str(s, "false")
        || crate::strings::chars_eq_str(s, "yes") || crate::strings::chars_eq_str(s, "no")
        || crate::strings::chars_eq_str(s, "on") || crate::strings::chars_eq_str(s, "off")
        || crate::strings::chars_eq_str(s, "null") || crate::strings::chars_eq_str(s, "~")
}

/// Whether a scalar can be written without quotes.
fn is_plain_safe(v: &[char]) -> (r: bool)
    ensures
        r == plain_safe(v@),
{
    if v.len() == 0 {
        return false;
    }
    let t = crate::strings::trim_chars(v);
    if !crate::strings::chars_eq(t.as_slice(), v) {
        return false;
    }
    if indicator(v[0]) {
        return false;
    }
    let n = v.len();
    let mut i: usize = 0;
    while i < n
        invariant
            i <= n,
            n == v@.len(),
            forall|j: int|
                0 <= j < i ==> !is_control_char(#[trigger] v@[j]) && v@[j] != ':' && v@[j] != '#',
        decreases n - i,
    {
        let c = v[i];
        if is_control(c) || c == ':' || c == '#' {
            return false;
        }
        i += 1;
    }
    if is_reserved(v) {
        return false;
    }
    !looks_like_float(v)
}

/// Append how a scalar is written.
fn write_scalar(out: &mut Vec<char>, value: &str)
    ensures
        final(out)@ == old(out)@ + scalar_text(value@),
{
    let v = to_chars(value);
    if is_plain_safe(v.as_slice()) {
        push_all(out, v.as_slice());
        return;
    }
    let ghost start = out@;
    out.push('"');
    for i in 0..v.len()
        invariant
            v@ == value@,
            out@ == start + seq!['"'] + escaped(v@.take(i as int)),
    {
        let c = v[i];
        assert(v@.take(i + 1).drop_last() =~= v@.take(i as int));
        if c == '"' {
            out.push('\\');
            out.push('"');
        } else if c == '\\' {
            out.push('\\');
            out.push('\\');
        } else if c == '\n' {
            out.push('\\');
            out.push('n');
        } else if c == '\t' {
            out.push('\\');
            out.push('t');
        } else {
            out.push(c);
        }
        assert(out@ =~= start + seq!['"'] + escaped(v@.take(i + 1)));
    }
    out.push('"');
    assert(v@.take(v@.len() as int) =~= v@);
    assert(out@ =~= start + scalar_text(value@));
}

// ---------------------------------------------------------------------------
// Reading the file
// ---------------------------------------------------------------------------

/// The character an escape `\c` stands for: the ones written for a newline
/// and a tab, otherwise `c` itself.
pub open spec fn unescaped(c: char) -> char {
    if c == 'n' {
        '\n'
    } else if c == 't' {
        '\t'
    } else {
        c
    }
}

/// `c` put in front of what a quoted scalar reads as.
pub open spec fn prepend(c: char, r: Option<(Seq<char>, Seq<char>)>) -> Option<(Seq<char>, Seq<char>)> {
    match r {
        Some((v, after)) => Some((seq![c] + v, after)),
        None => None,
    }
}

/// A double-quoted scalar read from just after its opening quote: its value
/// and the text after the closing quote, or `None` when no quote closes it.
pub open spec fn unquote(rest: Seq<char>) -> Option<(Seq<char>, Seq<char>)>
    decreases rest.len(),
{
    if rest.len() == 0 {
        None
    } else if rest[0] == '"' {
        Some((seq![], rest.drop_first()))
    } else if rest[0] == '\\' {
        if rest.len() < 2 {
            None
        } else {
            prepend(unescaped(rest[1]), unquote(rest.skip(2)))
        }
    } else {
        prepend(rest[0], unquote(rest.drop_first()))
    }
}

/// `v` put in front of what a quoted scalar reads as.
pub open spec fn prefixed(v: Seq<char>, r: Option<(Seq<char>, Seq<char>)>) -> Option<
    (Seq<char>, Seq<char>),
> {
    match r {
        Some((w, after)) => Some((v + w, after)),
        None => None,
    }
}

/// Read a double-quoted scalar that starts at `rest`, just after its opening
/// quote: its value and the index just past the closing quote.
fn read_quoted(rest: &[char]) -> (r: Option<(Vec<char>, usize)>)
    ensures
        match r {
            Some((v, at)) => at <= rest@.len() && unquote(rest@) == Some((v@, rest@.skip(at as int))),
            None => unquote(rest@) is None,
        },
{
    let mut value: Vec<char> = Vec::new();
    let n = rest.len();
    let mut i: usize = 0;
    assert(rest@.skip(0) =~= rest@);
    assert(value@ + seq![] =~= value@);
    while i < n
        invariant
            i <= n,
            n == rest@.len(),
            unquote(rest@) == prefixed(value@, unquote(rest@.skip(i as int))),
        decreases n - i,
    {
        let ghost t = rest@.skip(i as int);
        assert(t[0] == rest@[i as int]);
        let c = rest[i];
        if c == '"' {
            assert(t.drop_first() =~= rest@.skip(i + 1));
            assert(value@ + seq![] =~= value@);
            return Some((value, i + 1));
        }
        if c == '\\' {
            if i + 1 >= n {
                return None;
            }
            assert(t[1] == rest@[i + 1]);
            assert(t.skip(2) =~= rest@.skip(i + 2));
            let e = rest[i + 1];
            let u = if e == 'n' {
                '\n'
            } else if e == 't' {
                '\t'
            } else {
                e
            };
            let ghost old_value = value@;
            value.push(u);
            proof {
                match unquote(rest@.skip(i + 2)) {
                    Some((w, a)) => {
                        assert(old_value + (seq![u] + w) =~= value@ + w);
                    },
                    None => {},
                }
            }
            i += 2;
        } else {
            assert(t.drop_first() =~= rest@.skip(i + 1));
            let ghost old_value = value@;
            value.push(c);
            proof {
                match unquote(rest@.skip(i + 1)) {
                    Some((w, a)) => {
                        assert(old_value + (seq![c] + w) =~= value@ + w);
                    },
                    None => {},
                }
            }
            i += 1;
        }
    }
    assert(rest@.skip(n as int) =~= Seq::<char>::empty());
    None
}

/// What a scalar reads as: a double-quoted one as its value, a plain one
/// trimmed and without a trailing comment (one that ` #` starts).
pub open spec fn scalar_value(raw: Seq<char>) -> Seq<char> {
    let r = trim(raw);
    let quoted = if r.len() > 0 && r[0] == '"' {
        unquote(r.drop_first())
    } else {
        None
    };
    match quoted {
        Some((v, _)) => v,
        None => match crate::strings::find(r, " #"@) {
            Some(at) => crate::strings::trim_end(r.take(at)),
            None => r,
        },
    }
}

fn read_scalar(raw: &[char]) -> (r: Vec<char>)
    ensures
        r@ == scalar_value(raw@),
{
    let r = crate::strings::trim_chars(raw);
    if r.len() > 0 && r[0] == '"' {
        let rest = crate::strings::slice_of(r.as_slice(), 1, r.len());
        assert(rest@ =~= r@.drop_first());
        if let Some((v, _)) = read_quoted(rest.as_slice()) {
            return v;
        }
    }
    let marker: Vec<char> = vec![' ', '#'];
    proof {
        reveal_strlit(" #");
    }
    assert(marker@ =~= " #"@);
    match crate::strings::find_chars(r.as_slice(), marker.as_slice()) {
        Some(at) => {
            proof {
                crate::strings::lemma_find(r@, marker@);
            }
            let head = crate::strings::slice_of(r.as_slice(), 0, at);
            assert(head@ =~= r@.take(at as int));
            crate::strings::trim_end_chars(head.as_slice())
        },
        None => r,
    }
}

/// `u8::is_ascii_whitespace`: space, tab, line feed, form feed, carriage return.
pub open spec fn is_ascii_space(c: char) -> bool {
    c == ' ' || c == '\t' || c == '\n' || c == '\u{c}' || c == '\r'
}

/// A colon followed by white space or the end of the line: where a plain key ends.
pub open spec fn is_separator(line: Seq<char>, i: int) -> bool {
    0 <= i < line.len() && line[i] == ':' && (i + 1 == line.len() || is_ascii_space(line[i + 1]))
}

pub open spec fn separator_from(line: Seq<char>, i: int) -> Option<int>
    decreases line.len() - i,
{
    if i < 0 || i >= line.len() {
        None
    } else if is_separator(line, i) {
        Some(i)
    } else {
        separator_from(line, i + 1)
    }
}

/// The first place where a plain key ends.
pub open spec fn separator(line: Seq<char>) -> Option<int> {
    separator_from(line, 0)
}

pub proof fn lemma_separator_from(line: Seq<char>, i: int)
    requires
        0 <= i,
    ensures
        match separator_from(line, i) {
            Some(k) => i <= k < line.len() && is_separator(line, k) && forall|j: int|
                i <= j < k ==> !is_separator(line, j),
            None => forall|j: int| i <= j < line.len() ==> !is_separator(line, j),
        },
    decreases line.len() - i,
{
    if i < line.len() && !is_separator(line, i) {
        lemma_separator_from(line, i + 1);
    }
}

/// `key: value` split, honouring a quoted key so that a name holding a colon
/// still reads back correctly.
pub open spec fn pair_of(line: Seq<char>) -> Option<(Seq<char>, Seq<char>)> {
    if line.len() > 0 && line[0] == '"' {
        match unquote(line.drop_first()) {
            Some((key, after)) => {
                let a = trim_start(after);
                if a.len() > 0 && a[0] == ':' {
                    Some((key, scalar_value(a.drop_first())))
                } else {
                    None
                }
            },
            None => None,
        }
    } else {
        match separator(line) {
            Some(at) => Some((scalar_value(line.take(at)), scalar_value(line.skip(at + 1)))),
            None => None,
        }
    }
}

fn split_pair(line: &[char]) -> (r: Option<(Vec<char>, Vec<char>)>)
    ensures
        match r {
            Some((k, v)) => pair_of(line@) == Some((k@, v@)),
            None => pair_of(line@) is None,
        },
{
    let n = line.len();
    if n > 0 && line[0] == '"' {
        let rest = crate::strings::slice_of(line, 1, n);
        assert(rest@ =~= line@.drop_first());
        match read_quoted(rest.as_slice()) {
            Some((key, at)) => {
                let after = crate::strings::slice_of(rest.as_slice(), at, rest.len());
                assert(after@ =~= rest@.skip(at as int));
                let a = trim_start_chars(after.as_slice());
                if a.len() > 0 && a[0] == ':' {
                    let tail = crate::strings::slice_of(a.as_slice(), 1, a.len());
                    assert(tail@ =~= a@.drop_first());
                    let value = read_scalar(tail.as_slice());
                    return Some((key, value));
                }
                return None;
            },
            None => return None,
        }
    }
    let mut i: usize = 0;
    while i < n
        invariant
            i <= n,
            n == line@.len(),
            !(n > 0 && line@[0] == '"'),
            separator(line@) == separator_from(line@, i as int),
        decreases n - i,
    {
        if line[i] == ':' && (i + 1 == n || {
            let c = line[i + 1];
            c == ' ' || c == '\t' || c == '\n' || c == '\u{c}' || c == '\r'
        }) {
            assert(is_separator(line@, i as int));
            assert(separator_from(line@, i as int) == Some(i as int));
            assert(!(line@.len() > 0 && line@[0] == '"'));
            let head = crate::strings::slice_of(line, 0, i);
            let tail = crate::strings::slice_of(line, i + 1, n);
            assert(head@ =~= line@.take(i as int));
            assert(tail@ =~= line@.skip(i + 1));
            let k = read_scalar(head.as_slice());
            let v = read_scalar(tail.as_slice());
            return Some((k, v));
        }
        assert(!is_separator(line@, i as int));
        i += 1;
    }
    None
}

/// The entry a line of the file holds, if it holds one: blank lines,
/// comments and document markers hold none, and neither do lines without a
/// separator or with an empty name or IBAN.
pub open spec fn line_entry(line: Seq<char>) -> Option<(Seq<char>, Seq<char>)> {
    let l = trim(line);
    if l.len() == 0 || l[0] == '#' || l == "---"@ || l == "..."@ {
        None
    } else {
        match pair_of(l) {
            Some((n, v)) => if n.len() > 0 && v.len() > 0 {
                Some((n, v))
            } else {
                None
            },
            None => None,
        }
    }
}

/// The entries with the one a line holds taken in.
pub open spec fn take_line(acc: Entries, line: Seq<char>) -> Entries {
    match line_entry(line) {
        Some((n, v)) => upsert(acc, n, v),
        None => acc,
    }
}

/// The state of reading `text` from the left: the entries of the lines
/// already ended, and the line being read.
pub open spec fn scan(text: Seq<char>) -> (Entries, Seq<char>)
    decreases text.len(),
{
    if text.len() == 0 {
        (seq![], seq![])
    } else {
        let (acc, cur) = scan(text.drop_last());
        if text.last() == '\n' {
            (take_line(acc, cur), seq![])
        } else {
            (acc, cur.push(text.last()))
        }
    }
}

/// The history a file holds: each line's entry taken in turn, a later line
/// for the same name replacing an earlier one.
pub open spec fn parsed(text: Seq<char>) -> Entries {
    let (acc, cur) = scan(text);
    take_line(acc, cur)
}

fn string_eq_str(v: &[char], s: &str) -> (r: bool)
    ensures
        r == (v@ == s@),
{
    crate::strings::chars_eq_str(v, s)
}

/// The entry a line holds.
fn read_line(line: &[char]) -> (r: Option<(String, String)>)
    ensures
        match r {
            Some((n, v)) => line_entry(line@) == Some((n@, v@)),
            None => line_entry(line@) is None,
        },
{
    let l = crate::strings::trim_chars(line);
    if l.len() == 0 || l[0] == '#' || string_eq_str(l.as_slice(), "---") || string_eq_str(
        l.as_slice(),
        "...",
    ) {
        return None;
    }
    match split_pair(l.as_slice()) {
        Some((n, v)) => {
            if n.len() > 0 && v.len() > 0 {
                Some((from_chars(n.as_slice()), from_chars(v.as_slice())))
            } else {
                None
            }
        },
        None => None,
    }
}

/// Take in the entry a line holds.
fn take_in(entries: Vec<(String, String)>, line: &[char]) -> (r: Vec<(String, String)>)
    requires
        valid_entries(entries_view(entries@)),
    ensures
        valid_entries(entries_view(r@)),
        entries_view(r@) == take_line(entries_view(entries@), line@),
{
    match read_line(line) {
        Some((n, v)) => insert_entry(entries, n, v),
        None => entries,
    }
}

// ---------------------------------------------------------------------------
// Writing and reading back
// ---------------------------------------------------------------------------

proof fn lemma_escaped_front(c: char, v: Seq<char>)
    ensures
        escaped(seq![c] + v) == escaped_char(c) + escaped(v),
    decreases v.len(),
{
    let w = seq![c] + v;
    if v.len() == 0 {
        assert(w =~= seq![c]);
        assert(w.drop_last() =~= Seq::<char>::empty());
        assert(escaped(Seq::<char>::empty()) =~= Seq::<char>::empty());
        assert(w.last() == c);
        assert(escaped(w) =~= escaped_char(c));
        assert(escaped_char(c) + escaped(v) =~= escaped_char(c));
    } else {
        assert(w.drop_last() =~= seq![c] + v.drop_last());
        assert(w.last() == v.last());
        lemma_escaped_front(c, v.drop_last());
        assert(escaped(w) == escaped(w.drop_last()) + escaped_char(w.last()));
        assert(escaped(v) == escaped(v.drop_last()) + escaped_char(v.last()));
        assert(escaped(w) =~= escaped_char(c) + escaped(v));
    }
}

proof fn lemma_escaped_no_newline(v: Seq<char>)
    ensures
        forall|i: int| 0 <= i < escaped(v).len() ==> #[trigger] escaped(v)[i] != '\n',
    decreases v.len(),
{
    if v.len() > 0 {
        lemma_escaped_no_newline(v.drop_last());
        let a = escaped(v.drop_last());
        let b = escaped_char(v.last());
        assert forall|i: int| 0 <= i < escaped(v).len() implies #[trigger] escaped(v)[i] != '\n' by {
            if i < a.len() {
                assert(escaped(v)[i] == a[i]);
            } else {
                assert(escaped(v)[i] == b[i - a.len()]);
            }
        }
    }
}

/// A quoted scalar reads back as the value that was escaped into it.
proof fn lemma_unquote_escaped(v: Seq<char>, tail: Seq<char>)
    ensures
        unquote(escaped(v) + seq!['"'] + tail) == Some((v, tail)),
    decreases v.len(),
{
    let text = escaped(v) + seq!['"'] + tail;
    if v.len() == 0 {
        assert(text =~= seq!['"'] + tail);
        assert(text.drop_first() =~= tail);
    } else {
        let c = v[0];
        let w = v.drop_first();
        assert(v =~= seq![c] + w);
        lemma_escaped_front(c, w);
        lemma_unquote_escaped(w, tail);
        let e = escaped_char(c);
        assert(text =~= e + (escaped(w) + seq!['"'] + tail));
        if e.len() == 2 {
            assert(text.skip(2) =~= escaped(w) + seq!['"'] + tail);
            assert(seq![unescaped(e[1])] + w =~= v);
        } else {
            assert(text.drop_first() =~= escaped(w) + seq!['"'] + tail);
            assert(seq![c] + w =~= v);
        }
    }
}

/// A value with no edge white space starts and ends with something else.
proof fn lemma_trimmed_edges(v: Seq<char>)
    requires
        v.len() > 0,
        trim(v) == v,
    ensures
        !is_white_space(v[0]),
        !is_white_space(v.last()),
{
    crate::strings::lemma_lead_ws_bound(v);
    let t = trim_start(v);
    crate::strings::lemma_trail_ws_bound(t);
    if is_white_space(v[0]) {
        assert(trim(v).len() < v.len());
    }
    if is_white_space(v.last()) {
        if t.len() > 0 {
            assert(t.last() == v.last());
        }
        assert(trim(v).len() < v.len());
    }
}

/// Text that neither starts nor ends with white space is its own trim.
proof fn lemma_trim_unchanged(v: Seq<char>)
    requires
        v.len() > 0,
        !is_white_space(v[0]),
        !is_white_space(v.last()),
    ensures
        trim(v) == v,
{
    crate::strings::lemma_lead_ws(v, 0);
    assert(trim_start(v) =~= v);
    crate::strings::lemma_trail_ws(v, 0);
    assert(trim(v) =~= v);
}

/// Without a `#`, a scalar holds no ` #` comment.
proof fn lemma_no_comment(v: Seq<char>)
    requires
        forall|i: int| 0 <= i < v.len() ==> #[trigger] v[i] != '#',
    ensures
        crate::strings::find(v, " #"@) is None,
{
    reveal_strlit(" #");
    crate::strings::lemma_find(v, " #"@);
    if let Some(k) = crate::strings::find(v, " #"@) {
        assert(v.subrange(k, k + 2)[1] == v[k + 1]);
    }
}

/// How a scalar is written never holds a line break, and neither starts nor
/// ends with white space.
proof fn lemma_scalar_text_shape(v: Seq<char>)
    requires
        v.len() > 0,
    ensures
        scalar_text(v).len() > 0,
        forall|i: int| 0 <= i < scalar_text(v).len() ==> #[trigger] scalar_text(v)[i] != '\n',
        !is_white_space(scalar_text(v)[0]),
        !is_white_space(scalar_text(v).last()),
        scalar_text(v)[0] != '#',
        scalar_text(v)[0] == '"' <==> !plain_safe(v),
{
    if plain_safe(v) {
        lemma_trimmed_edges(v);
        assert forall|i: int| 0 <= i < v.len() implies #[trigger] v[i] != '\n' by {
            assert(!is_control_char(v[i]));
        }
    } else {
        lemma_escaped_no_newline(v);
        let q = seq!['"'] + escaped(v) + seq!['"'];
        assert forall|i: int| 0 <= i < q.len() implies #[trigger] q[i] != '\n' by {
            if 0 < i < q.len() - 1 {
                assert(q[i] == escaped(v)[i - 1]);
            }
        }
    }
}

/// A written scalar, after a separating space, reads back as its value.
proof fn lemma_scalar_reads_back(v: Seq<char>)
    requires
        v.len() > 0,
    ensures
        scalar_value(seq![' '] + scalar_text(v)) == v,
{
    let t = scalar_text(v);
    lemma_scalar_text_shape(v);
    let raw = seq![' '] + t;
    crate::strings::lemma_lead_ws(raw, 1);
    assert(trim_start(raw) =~= t);
    lemma_trim_unchanged(t);
    assert(trim(raw) == t);
    if plain_safe(v) {
        lemma_no_comment(v);
    } else {
        lemma_unquote_escaped(v, seq![]);
        assert(t.drop_first() =~= escaped(v) + seq!['"'] + Seq::<char>::empty());
    }
}

/// The line written for an entry reads back as that entry.
proof fn lemma_entry_line_reads_back(name: Seq<char>, iban: Seq<char>)
    requires
        name.len() > 0,
        iban.len() > 0,
    ensures
        line_entry(entry_line((name, iban))) == Some((name, iban)),
        forall|i: int|
            0 <= i < entry_line((name, iban)).len() ==> #[trigger] entry_line((name, iban))[i]
                != '\n',
{
    let a = scalar_text(name);
    let b = scalar_text(iban);
    let line = entry_line((name, iban));
    lemma_scalar_text_shape(name);
    lemma_scalar_text_shape(iban);
    assert(line =~= a + ": "@ + b);
    reveal_strlit(": ");
    reveal_strlit("---");
    reveal_strlit("...");
    assert(line[0] == a[0]);
    assert(line.last() == b.last());
    lemma_trim_unchanged(line);
    assert forall|i: int| 0 <= i < line.len() implies #[trigger] line[i] != '\n' by {
        if i < a.len() {
            assert(line[i] == a[i]);
        } else if i >= a.len() + 2 {
            assert(line[i] == b[i - a.len() - 2]);
        }
    }
    lemma_scalar_reads_back(iban);
    if plain_safe(name) {
        // A plain name holds no colon, so the first separator follows it.
        assert forall|j: int| 0 <= j < name.len() implies !is_separator(line, j) by {
            assert(line[j] == name[j]);
        }
        assert(is_separator(line, name.len() as int));
        lemma_separator_from(line, 0);
        match separator(line) {
            Some(k) => {
                if k < name.len() {
                    assert(!is_separator(line, k));
                } else if k > name.len() {
                    assert(!is_separator(line, name.len() as int));
                }
            },
            None => {},
        }
        assert(line.take(name.len() as int) =~= name);
        assert(line.skip(name.len() + 1int) =~= seq![' '] + b);
        lemma_trimmed_edges(name);
        lemma_no_comment(name);
    } else {
        let rest = line.drop_first();
        lemma_unquote_escaped(name, ": "@ + b);
        assert(rest =~= escaped(name) + seq!['"'] + (": "@ + b));
        let after = ": "@ + b;
        crate::strings::lemma_lead_ws(after, 0);
        assert(trim_start(after) =~= after);
        assert(after.drop_first() =~= seq![' '] + b);
    }
}

/// Reading a line of text that holds no line break, after lines already
/// ended, leaves that line pending.
proof fn lemma_scan_within_line(prefix: Seq<char>, line: Seq<char>, j: int)
    requires
        scan(prefix).1.len() == 0,
        forall|i: int| 0 <= i < line.len() ==> #[trigger] line[i] != '\n',
        0 <= j <= line.len(),
    ensures
        scan(prefix + line.take(j)) == (scan(prefix).0, line.take(j)),
    decreases j,
{
    if j == 0 {
        assert(prefix + line.take(0) =~= prefix);
        assert(scan(prefix).1 =~= line.take(0));
    } else {
        lemma_scan_within_line(prefix, line, j - 1);
        assert((prefix + line.take(j)).drop_last() =~= prefix + line.take(j - 1));
        assert((prefix + line.take(j)).last() == line[j - 1]);
        assert(line.take(j - 1).push(line[j - 1]) =~= line.take(j));
    }
}

/// Reading a whole line and its line break takes in the line's entry.
proof fn lemma_scan_line(prefix: Seq<char>, line: Seq<char>)
    requires
        scan(prefix).1.len() == 0,
        forall|i: int| 0 <= i < line.len() ==> #[trigger] line[i] != '\n',
    ensures
        scan(prefix + line + seq!['\n']) == (take_line(scan(prefix).0, line), Seq::<char>::empty()),
{
    lemma_scan_within_line(prefix, line, line.len() as int);
    assert(line.take(line.len() as int) =~= line);
    let t = prefix + line + seq!['\n'];
    assert(t.drop_last() =~= prefix + line);
}

/// The comment lines that open the file hold no entry.
proof fn lemma_header(acc: Entries)
    ensures
        scan(yaml_header()) == (Seq::<(Seq<char>, Seq<char>)>::empty(), Seq::<char>::empty()),
{
    reveal_strlit("# Recipients remembered by payme-qr: name (key) to IBAN (value).");
    reveal_strlit("# Edit or delete entries freely; the file is rewritten as codes are generated.");
    let a = header_first();
    let b = header_second();
    assert forall|i: int| 0 <= i < a.len() implies #[trigger] a[i] != '\n' by {}
    assert forall|i: int| 0 <= i < b.len() implies #[trigger] b[i] != '\n' by {}
    let e = Seq::<char>::empty();
    assert(scan(e) == (Seq::<(Seq<char>, Seq<char>)>::empty(), e));
    lemma_scan_line(e, a);
    assert(e + a + seq!['\n'] =~= a + seq!['\n']);
    crate::strings::lemma_lead_ws(a, 0);
    crate::strings::lemma_trail_ws(a, 0);
    assert(trim(a) =~= a);
    assert(line_entry(a) is None);
    lemma_scan_line(a + seq!['\n'], b);
    crate::strings::lemma_lead_ws(b, 0);
    crate::strings::lemma_trail_ws(b, 0);
    assert(trim(b) =~= b);
    assert(line_entry(b) is None);
    assert(a + seq!['\n'] + b + seq!['\n'] =~= yaml_header());
}

/// Reading the file written for sorted entries gives them back, line by line.
proof fn lemma_scan_yaml(s: Entries)
    requires
        valid_entries(s),
    ensures
        scan(yaml_text(s)) == (s, Seq::<char>::empty()),
    decreases s.len(),
{
    if s.len() == 0 {
        lemma_header(s);
        assert(yaml_text(s) =~= yaml_header());
        assert(s =~= Seq::<(Seq<char>, Seq<char>)>::empty());
    } else {
        let t = s.drop_last();
        assert(valid_entries(t));
        lemma_scan_yaml(t);
        let e = s.last();
        assert(e == s[s.len() - 1]);
        lemma_entry_line_reads_back(e.0, e.1);
        lemma_scan_line(yaml_text(t), entry_line(e));
        assert(yaml_text(s) =~= yaml_text(t) + entry_line(e) + seq!['\n']);
        assert(t.push(e) =~= s);
        lemma_upsert_last(t, e.0, e.1);
    }
}

/// A history survives being written and read back: parsing the file that
/// `to_yaml` writes gives the same entries, in the same order.
pub proof fn lemma_yaml_round_trip(s: Entries)
    requires
        valid_entries(s),
    ensures
        parsed(yaml_text(s)) == s,
{
    lemma_scan_yaml(s);
    assert(line_entry(Seq::<char>::empty()) is None);
}

// ---------------------------------------------------------------------------
// One entry per recipient
// ---------------------------------------------------------------------------

/// No two names are the same regardless of ASCII case: each recipient once.
pub open spec fn distinct_names(s: Entries) -> bool {
    forall|i: int, j: int|
        0 <= i < s.len() && 0 <= j < s.len() && i != j ==> !same_name(#[trigger] s[i].0, #[trigger] s[j].0)
}

proof fn lemma_same_name_equiv(a: Seq<char>, b: Seq<char>, c: Seq<char>)
    ensures
        same_name(a, a),
        same_name(a, b) ==> same_name(b, a),
        same_name(a, b) && same_name(b, c) ==> same_name(a, c),
{
    if same_name(a, b) && same_name(b, c) {
        assert forall|i: int| 0 <= i < a.len() implies lower_char(#[trigger] a[i]) == lower_char(c[i]) by {
            assert(lower_char(a[i]) == lower_char(b[i]));
            assert(lower_char(b[i]) == lower_char(c[i]));
        }
    }
}

/// Where a name that holds no entry of the same name goes in.
proof fn lemma_insert_fresh(s: Entries, name: Seq<char>, iban: Seq<char>)
    requires
        valid_entries(s),
        distinct_names(s),
        name.len() > 0,
        iban.len() > 0,
        forall|j: int| 0 <= j < s.len() ==> !same_name(#[trigger] s[j].0, name),
    ensures
        upsert(s, name, iban) == s.insert(slot(s, name) as int, (name, iban)),
        slot(s, name) <= s.len(),
        distinct_names(upsert(s, name, iban)),
        valid_entries(upsert(s, name, iban)),
        find_name(upsert(s, name, iban), name) == Some(slot(s, name) as int),
{
    lemma_slot_bounds(s, name);
    lemma_upsert_valid(s, name, iban);
    let i = slot(s, name) as int;
    if i < s.len() {
        lemma_same_name_equiv(name, name, name);
        assert(s[i].0 != name);
    }
    let r = upsert(s, name, iban);
    assert(r == s.insert(i, (name, iban)));
    assert forall|a: int, b: int|
        0 <= a < r.len() && 0 <= b < r.len() && a != b implies !same_name(
        #[trigger] r[a].0,
        #[trigger] r[b].0,
    ) by {
        let a2 = if a < i { a } else { a - 1 };
        let b2 = if b < i { b } else { b - 1 };
        if a == i {
            assert(r[b] == s[b2]);
            lemma_same_name_equiv(name, s[b2].0, name);
        } else if b == i {
            assert(r[a] == s[a2]);
        } else {
            assert(r[a] == s[a2] && r[b] == s[b2]);
        }
    }
    lemma_find_name_from(r, name, 0);
    lemma_same_name_equiv(name, name, name);
    match find_name(r, name) {
        Some(k) => {
            if k != i {
                assert(r[i].0 == name);
                lemma_same_name_equiv(r[k].0, name, name);
            }
        },
        None => {
            assert(same_name(r[i].0, name));
        },
    }
}

/// What remembering leaves: the history with the collapsed name, found again
/// at its own entry.
proof fn lemma_remembered_entry(s: Entries, name: Seq<char>, iban: Seq<char>)
    requires
        valid_entries(s),
        distinct_names(s),
        collapsed(name).len() > 0,
        collapsed(iban).len() > 0,
    ensures
        valid_entries(remembered(s, name, iban).1),
        distinct_names(remembered(s, name, iban).1),
        find_name(remembered(s, name, iban).1, collapsed(name)) matches Some(k) && remembered(
            s,
            name,
            iban,
        ).1[k] == (collapsed(name), collapsed(iban)),
{
    let n = collapsed(name);
    let v = collapsed(iban);
    lemma_find_name_from(s, n, 0);
    match find_name(s, n) {
        Some(k) => {
            if s[k].0 == n && s[k].1 == v {
            } else {
                let t = s.remove(k);
                lemma_remove_sorted(s, k);
                assert forall|j: int| 0 <= j < t.len() implies !same_name(#[trigger] t[j].0, n) by {
                    let j2 = if j < k { j } else { j + 1 };
                    assert(t[j] == s[j2]);
                    lemma_same_name_equiv(s[j2].0, n, s[k].0);
                    lemma_same_name_equiv(s[k].0, n, n);
                }
                assert forall|a: int, b: int|
                    0 <= a < t.len() && 0 <= b < t.len() && a != b implies !same_name(
                    #[trigger] t[a].0,
                    #[trigger] t[b].0,
                ) by {
                    let a2 = if a < k { a } else { a + 1 };
                    let b2 = if b < k { b } else { b + 1 };
                    assert(t[a] == s[a2] && t[b] == s[b2]);
                }
                lemma_insert_fresh(t, n, v);
            }
        },
        None => {
            lemma_insert_fresh(s, n, v);
        },
    }
}

/// Remembering a recipient keeps each recipient once: afterwards the
/// history holds the cleaned pair under exactly the cleaned name, no other
/// name equals it regardless of ASCII case, and looking up the name as typed
/// or as cleaned gives the IBAN just remembered; remembering the same pair
/// again changes nothing.
pub proof fn lemma_remember_then_lookup(s: Entries, name: Seq<char>, iban: Seq<char>)
    requires
        valid_entries(s),
        distinct_names(s),
        collapsed(name).len() > 0,
        collapsed(iban).len() > 0,
    ensures
        valid_entries(remembered(s, name, iban).1),
        distinct_names(remembered(s, name, iban).1),
        find_name(remembered(s, name, iban).1, collapsed(name)) matches Some(k)
            && remembered(s, name, iban).1[k] == (collapsed(name), collapsed(iban))
            && forall|j: int|
            0 <= j < remembered(s, name, iban).1.len() && same_name(
                #[trigger] remembered(s, name, iban).1[j].0,
                collapsed(name),
            ) ==> j == k,
        iban_of(remembered(s, name, iban).1, name) == Some(collapsed(iban)),
        iban_of(remembered(s, name, iban).1, collapsed(name)) == Some(collapsed(iban)),
        remembered(remembered(s, name, iban).1, name, iban) == (false, remembered(s, name, iban).1),
{
    lemma_remembered_entry(s, name, iban);
    lemma_collapsed_idempotent(name);
    let t = remembered(s, name, iban).1;
    let n = collapsed(name);
    lemma_find_name_from(t, n, 0);
    if let Some(k) = find_name(t, n) {
        assert forall|j: int| 0 <= j < t.len() && same_name(#[trigger] t[j].0, n) implies j == k by {
            if j != k {
                assert(!same_name(t[j].0, t[k].0));
            }
        }
    }
}

/// Putting in an entry of name `n` leaves the entries of other names alone.
proof fn lemma_insert_others(t: Entries, i: int, x: (Seq<char>, Seq<char>), n: Seq<char>)
    requires
        0 <= i <= t.len(),
        same_name(x.0, n),
    ensures
        forall|e: (Seq<char>, Seq<char>)|
            !same_name(e.0, n) ==> (#[trigger] t.insert(i, x).contains(e) <==> t.contains(e)),
{
    let r = t.insert(i, x);
    assert forall|e: (Seq<char>, Seq<char>)| !same_name(e.0, n) implies (#[trigger] r.contains(e)
        <==> t.contains(e)) by {
        if r.contains(e) {
            let a = choose|a: int| 0 <= a < r.len() && r[a] == e;
            if a == i {
                assert(false);
            }
            let a1 = if a < i { a } else { a - 1 };
            assert(r[a] == t[a1]);
        }
        if t.contains(e) {
            let a = choose|a: int| 0 <= a < t.len() && t[a] == e;
            let a2 = if a < i { a } else { a + 1 };
            assert(r[a2] == t[a]);
        }
    }
}

/// Taking out an entry of name `n` leaves the entries of other names alone.
proof fn lemma_remove_others(s: Entries, k: int, n: Seq<char>)
    requires
        0 <= k < s.len(),
        same_name(s[k].0, n),
    ensures
        forall|e: (Seq<char>, Seq<char>)|
            !same_name(e.0, n) ==> (#[trigger] s.remove(k).contains(e) <==> s.contains(e)),
{
    let t = s.remove(k);
    assert forall|e: (Seq<char>, Seq<char>)| !same_name(e.0, n) implies (#[trigger] t.contains(e)
        <==> s.contains(e)) by {
        if t.contains(e) {
            let a = choose|a: int| 0 <= a < t.len() && t[a] == e;
            let a2 = if a < k { a } else { a + 1 };
            assert(t[a] == s[a2]);
        }
        if s.contains(e) {
            let a = choose|a: int| 0 <= a < s.len() && s[a] == e;
            if a == k {
                assert(false);
            }
            let a1 = if a < k { a } else { a - 1 };
            assert(t[a1] == s[a]);
        }
    }
}

/// Remembering a recipient changes the history exactly when both texts have
/// something left once white space is collapsed and the history does not
/// already hold that very pair; it then adds one entry, or replaces the one
/// of that name regardless of ASCII case, and keeps every other entry.
pub proof fn lemma_remember_keeps_others(s: Entries, name: Seq<char>, iban: Seq<char>)
    requires
        valid_entries(s),
        distinct_names(s),
    ensures
        ({
            let n = collapsed(name);
            let v = collapsed(iban);
            let (changed, t) = remembered(s, name, iban);
            &&& changed <==> (n.len() > 0 && v.len() > 0 && !(find_name(s, n) matches Some(k)
                && s[k] == (n, v)))
            &&& !changed ==> t == s
            &&& changed ==> t.len() == s.len() + (if find_name(s, n) is None {
                1int
            } else {
                0int
            })
            &&& forall|e: (Seq<char>, Seq<char>)|
                !same_name(e.0, n) ==> (#[trigger] t.contains(e) <==> s.contains(e))
        }),
{
    let n = collapsed(name);
    let v = collapsed(iban);
    if n.len() == 0 || v.len() == 0 {
        return;
    }
    lemma_find_name_from(s, n, 0);
    lemma_same_name_equiv(n, n, n);
    match find_name(s, n) {
        Some(k) => {
            if s[k].0 == n && s[k].1 == v {
                assert(s[k] == (n, v));
            } else {
                let t = s.remove(k);
                lemma_remove_sorted(s, k);
                assert forall|j: int| 0 <= j < t.len() implies !same_name(#[trigger] t[j].0, n) by {
                    let j2 = if j < k { j } else { j + 1 };
                    assert(t[j] == s[j2]);
                    lemma_same_name_equiv(s[j2].0, n, s[k].0);
                    lemma_same_name_equiv(s[k].0, n, n);
                }
                assert forall|a: int, b: int|
                    0 <= a < t.len() && 0 <= b < t.len() && a != b implies !same_name(
                    #[trigger] t[a].0,
                    #[trigger] t[b].0,
                ) by {
                    let a2 = if a < k { a } else { a + 1 };
                    let b2 = if b < k { b } else { b + 1 };
                    assert(t[a] == s[a2] && t[b] == s[b2]);
                }
                lemma_insert_fresh(t, n, v);
                assert(!(s[k] == (n, v)));
                lemma_remove_others(s, k, n);
                lemma_insert_others(t, slot(t, n) as int, (n, v), n);
            }
        },
        None => {
            lemma_insert_fresh(s, n, v);
            lemma_insert_others(s, slot(s, n) as int, (n, v), n);
        },
    }
}

/// After a recipient is forgotten the history no longer knows the name,
/// as long as it held each recipient once.
pub proof fn lemma_forget_then_lookup(s: Entries, name: Seq<char>)
    requires
        valid_entries(s),
        distinct_names(s),
    ensures
        iban_of(forgotten(s, name).1, name) is None,
        distinct_names(forgotten(s, name).1),
{
    let n = collapsed(name);
    lemma_find_name_from(s, n, 0);
    match find_name(s, n) {
        Some(k) => {
            let t = s.remove(k);
            assert forall|j: int| 0 <= j < t.len() implies !same_name(#[trigger] t[j].0, n) by {
                let j2 = if j < k { j } else { j + 1 };
                assert(t[j] == s[j2]);
                lemma_same_name_equiv(s[j2].0, n, s[k].0);
                lemma_same_name_equiv(s[k].0, n, n);
            }
            assert forall|a: int, b: int|
                0 <= a < t.len() && 0 <= b < t.len() && a != b implies !same_name(
                #[trigger] t[a].0,
                #[trigger] t[b].0,
            ) by {
                let a2 = if a < k { a } else { a + 1 };
                let b2 = if b < k { b } else { b + 1 };
                assert(t[a] == s[a2] && t[b] == s[b2]);
            }
            lemma_find_name_from(t, n, 0);
        },
        None => {},
    }
}

// ---------------------------------------------------------------------------
// The history
// ---------------------------------------------------------------------------

/// Name-to-IBAN pairs, ordered by name so the file has a stable diff.
#[derive(Debug, Clone, PartialEq, Eq)]
pub struct Contacts {
    entries: Vec<(String, String)>,
}

impl View for Contacts {
    type V = Entries;

    open spec fn view(&self) -> Entries {
        self.entries_seq()
    }
}

impl Default for Contacts {
    fn default() -> (r: Contacts)
        ensures
            r@ == Seq::<(Seq<char>, Seq<char>)>::empty(),
            r.wf(),
    {
        Contacts { entries: Vec::new() }
    }
}

impl Contacts {
    pub closed spec fn entries_seq(&self) -> Entries {
        entries_view(self.entries@)
    }

    /// The history is sorted by name, and every entry has a name and an IBAN.
    pub open spec fn wf(&self) -> bool {
        valid_entries(self@)
    }

    /// Record a recipient. Returns `false` when the history already said
    /// this, so a caller can skip rewriting an unchanged file.
    pub fn remember(&mut self, name: &str, iban: &str) -> (changed: bool)
        requires
            old(self).wf(),
        ensures
            final(self).wf(),
            (changed, final(self)@) == remembered(old(self)@, name@, iban@),
    {
        let ghost s = self@;
        let name = clean(name);
        let iban = clean(iban);
        if name.as_str().is_empty() || iban.as_str().is_empty() {
            return false;
        }
        // A name is one recipient however it was capitalised at the time.
        match self.key_for(name.as_str()) {
            Some(k) => {
                if str_eq(self.entries[k].0.as_str(), name.as_str()) && str_eq(
                    self.entries[k].1.as_str(),
                    iban.as_str(),
                ) {
                    return false;
                }
                let mut entries: Vec<(String, String)> = Vec::new();
                std::mem::swap(&mut entries, &mut self.entries);
                proof {
                    lemma_entries_view(entries@);
                }
                entries.remove(k);
                assert(entries_view(entries@) =~= s.remove(k as int));
                proof {
                    lemma_remove_sorted(s, k as int);
                }
                self.entries = insert_entry(entries, name, iban);
            },
            None => {
                let mut entries: Vec<(String, String)> = Vec::new();
                std::mem::swap(&mut entries, &mut self.entries);
                self.entries = insert_entry(entries, name, iban);
            },
        }
        true
    }

    /// Drop the recipient of that name, matched without regard to ASCII
    /// case. Returns whether there was one.
    pub fn forget(&mut self, name: &str) -> (found: bool)
        requires
            old(self).wf(),
        ensures
            final(self).wf(),
            (found, final(self)@) == forgotten(old(self)@, name@),
    {
        let ghost s = self@;
        let name = clean(name);
        match self.key_for(name.as_str()) {
            Some(k) => {
                let mut entries: Vec<(String, String)> = Vec::new();
                std::mem::swap(&mut entries, &mut self.entries);
                proof {
                    lemma_entries_view(entries@);
                }
                entries.remove(k);
                assert(entries_view(entries@) =~= s.remove(k as int));
                proof {
                    lemma_remove_sorted(s, k as int);
                }
                self.entries = entries;
                true
            },
            None => false,
        }
    }

    /// The index of the first entry named `name` regardless of ASCII case.
    fn key_for(&self, name: &str) -> (r: Option<usize>)
        ensures
            r matches Some(k) ==> find_name(self@, name@) == Some(k as int) && k < self.entries@.len()
                && self@[k as int] == (self.entries@[k as int].0@, self.entries@[k as int].1@),
            r is None ==> find_name(self@, name@) is None,
    {
        proof {
            lemma_entries_view(self.entries@);
        }
        let n = self.entries.len();
        let mut i: usize = 0;
        while i < n
            invariant
                i <= n,
                n == self@.len(),
                find_name(self@, name@) == find_name_from(self@, name@, i as int),
            decreases n - i,
        {
            if same_name_exec(self.entries[i].0.as_str(), name) {
                return Some(i);
            }
            i += 1;
        }
        assert(find_name_from(self@, name@, n as int) is None);
        None
    }

    /// The IBAN stored for a name, matched without regard to capitalisation.
    pub fn iban_for(&self, name: &str) -> (r: Option<&str>)
        ensures
            match r {
                Some(v) => iban_of(self@, name@) == Some(v@),
                None => iban_of(self@, name@) is None,
            },
    {
        let name = clean(name);
        match self.key_for(name.as_str()) {
            Some(k) => Some(self.entries[k].1.as_str()),
            None => None,
        }
    }

    /// Every remembered name starting with what has been typed so far, in
    /// alphabetical order. An empty prefix suggests nothing: completion
    /// should appear as the user types, not before.
    pub fn matches(&self, prefix: &str) -> (r: Vec<(&str, &str)>)
        ensures
            pairs_of(r@) == completions(self@, prefix@),
    {
        let t = trim_start_chars(to_chars(prefix).as_slice());
        if t.len() == 0 {
            let out: Vec<(&str, &str)> = Vec::new();
            assert(pairs_of(out@) =~= Seq::<(Seq<char>, Seq<char>)>::empty());
            return out;
        }
        let typed = from_chars(t.as_slice());
        let folded = to_lowercase(typed.as_str());
        let ghost s = self@;
        proof {
            lemma_entries_view(self.entries@);
        }
        let n = self.entries.len();
        let mut lowered: Vec<String> = Vec::new();
        for i in 0..n
            invariant
                n == s.len(),
                s == self@,
                lowered@.len() == i,
                forall|j: int| 0 <= j < i ==> #[trigger] lowered@[j]@ == unicode_lower(s[j].0),
        {
            assert(s[i as int].0 == self.entries[i as int].0@);
            lowered.push(to_lowercase(self.entries[i].0.as_str()));
        }
        let r = self.matches_lowered(lowered.as_slice(), folded.as_str());
        proof {
            let l = lowered@.map_values(|x: String| x@);
            assert forall|j: int| 0 <= j < s.len() implies #[trigger] l[j] == unicode_lower(s[j].0) by {
                assert(lowered@[j]@ == unicode_lower(s[j].0));
            }
            lemma_matching_by(s, l, typed@);
        }
        r
    }

    /// The entries whose name, lowered beforehand into `lowered` (one per
    /// entry, in order), starts with the lowered prefix `prefix`, in order.
    pub fn matches_lowered(&self, lowered: &[String], prefix: &str) -> (r: Vec<(&str, &str)>)
        requires
            lowered@.len() == self@.len(),
        ensures
            pairs_of(r@) == matching_by(self@, lowered@.map_values(|x: String| x@), prefix@),
    {
        let p = to_chars(prefix);
        let ghost s = self@;
        let ghost l = lowered@.map_values(|x: String| x@);
        proof {
            lemma_entries_view(self.entries@);
        }
        let n = self.entries.len();
        let mut out: Vec<(&str, &str)> = Vec::new();
        for i in 0..n
            invariant
                n == s.len(),
                s == self@,
                l == lowered@.map_values(|x: String| x@),
                lowered@.len() == n,
                p@ == prefix@,
                pairs_of(out@) == matching_by(s.take(i as int), l, p@),
        {
            let name = self.entries[i].0.as_str();
            let low = to_chars(lowered[i].as_str());
            assert(s.take(i + 1).drop_last() =~= s.take(i as int));
            assert(s[i as int].0 == name@);
            assert(l[i as int] == low@);
            if starts_with_chars(low.as_slice(), p.as_slice()) {
                out.push((name, self.entries[i].1.as_str()));
                assert(pairs_of(out@) =~= matching_by(s.take(i as int), l, p@).push(s[i as int]));
            }
        }
        assert(s.take(n as int) =~= s);
        out
    }

    /// Every entry, in order.
    pub fn iter(&self) -> (r: Vec<(&str, &str)>)
        ensures
            pairs_of(r@) == self@,
    {
        let mut out: Vec<(&str, &str)> = Vec::new();
        proof {
            lemma_entries_view(self.entries@);
        }
        let n = self.entries.len();
        for i in 0..n
            invariant
                n == self@.len(),
                pairs_of(out@) == self@.take(i as int),
        {
            proof {
                lemma_entries_view(self.entries@);
            }
            let pair = (self.entries[i].0.as_str(), self.entries[i].1.as_str());
            assert(pair.0@ == self@[i as int].0 && pair.1@ == self@[i as int].1);
            let ghost before = out@;
            out.push(pair);
            assert(pairs_of(out@) =~= pairs_of(before).push((pair.0@, pair.1@)));
            assert(pairs_of(out@) =~= self@.take(i + 1));
        }
        assert(self@.take(n as int) =~= self@);
        out
    }

    /// Read the history from the text of its file.
    pub fn parse(text: &str) -> (r: Contacts)
        ensures
            r.wf(),
            r@ == parsed(text@),
    {
        let chars = to_chars(text);
        let mut entries: Vec<(String, String)> = Vec::new();
        let mut line: Vec<char> = Vec::new();
        assert(entries_view(entries@) =~= Seq::<(Seq<char>, Seq<char>)>::empty());
        for i in 0..chars.len()
            invariant
                chars@ == text@,
                valid_entries(entries_view(entries@)),
                scan(chars@.take(i as int)) == (entries_view(entries@), line@),
        {
            assert(chars@.take(i + 1).drop_last() =~= chars@.take(i as int));
            let c = chars[i];
            if c == '\n' {
                entries = take_in(entries, line.as_slice());
                line = Vec::new();
                assert(line@ =~= Seq::<char>::empty());
            } else {
                line.push(c);
            }
        }
        assert(chars@.take(chars@.len() as int) =~= chars@);
        let entries = take_in(entries, line.as_slice());
        Contacts { entries }
    }

    /// The history file: a comment, then one `name: iban` line per entry.
    pub fn to_yaml(&self) -> (r: String)
        ensures
            r@ == yaml_text(self@),
    {
        let mut out: Vec<char> = Vec::new();
        push_str(&mut out, "# Recipients remembered by payme-qr: name (key) to IBAN (value).");
        out.push('\n');
        push_str(
            &mut out,
            "# Edit or delete entries freely; the file is rewritten as codes are generated.",
        );
        out.push('\n');
        assert(out@ =~= yaml_header());
        proof {
            lemma_entries_view(self.entries@);
        }
        let n = self.entries.len();
        let ghost h = yaml_header();
        for i in 0..n
            invariant
                n == self@.len(),
                n == self.entries@.len(),
                forall|k: int| 0 <= k < n ==> #[trigger] self@[k] == (self.entries@[k].0@, self.entries@[k].1@),
                out@ == h + yaml_body(self@.take(i as int)),
        {
            let ghost before = out@;
            write_scalar(&mut out, self.entries[i].0.as_str());
            push_str(&mut out, ": ");
            write_scalar(&mut out, self.entries[i].1.as_str());
            out.push('\n');
            proof {
                let e = self@[i as int];
                assert(out@ =~= before + (entry_line(e) + seq!['\n']));
                lemma_body_step(self@, i as int);
                assert(out@ =~= h + yaml_body(self@.take(i + 1)));
            }
        }
        assert(self@.take(n as int) =~= self@);
        from_chars(out.as_slice())
    }

    pub fn len(&self) -> (r: usize)
        ensures
            r == self@.len(),
    {
        self.entries.len()
    }

    pub fn is_empty(&self) -> (r: bool)
        ensures
            r == (self@.len() == 0),
    {
        self.entries.len() == 0
    }
}

/// Two strings hold the same characters.
fn str_eq(a: &str, b: &str) -> (r: bool)
    ensures
        r == (a@ == b@),
{
    let x = to_chars(a);
    let y = to_chars(b);
    crate::strings::chars_eq(x.as_slice(), y.as_slice())
}

/// Put `name` with `iban` into sorted entries.
fn insert_entry(entries: Vec<(String, String)>, name: String, iban: String) -> (r: Vec<
    (String, String),
>)
    requires
        valid_entries(entries_view(entries@)),
        name@.len() > 0,
        iban@.len() > 0,
    ensures
        entries_view(r@) == upsert(entries_view(entries@), name@, iban@),
        valid_entries(entries_view(r@)),
{
    let ghost s = entries_view(entries@);
    let mut entries = entries;
    let n = entries.len();
    let mut i: usize = 0;
    while i < n && is_before(entries[i].0.as_str(), name.as_str())
        invariant
            i <= n,
            n == s.len(),
            s == entries_view(entries@),
            forall|j: int| 0 <= j < i ==> name_before(#[trigger] s[j].0, name@),
        decreases n - i,
    {
        i += 1;
    }
    proof {
        lemma_slot(s, name@, i as int);
        lemma_upsert_valid(s, name@, iban@);
    }
    if i < n && str_eq(entries[i].0.as_str(), name.as_str()) {
        entries.set(i, (name, iban));
        assert(entries_view(entries@) =~= s.update(i as int, (name@, iban@)));
    } else {
        entries.insert(i, (name, iban));
        assert(entries_view(entries@) =~= s.insert(i as int, (name@, iban@)));
    }
    entries
}

} // verus!
