//! A single-line text input: the value plus a cursor.

use vstd::prelude::*;

use crate::strings::{
    from_chars, is_alphanumeric, is_control, is_control_char, is_digit, is_white_space,
    is_whitespace, to_ascii_upper, to_chars, upper_char,
};

verus! {

/// Which characters a field accepts, so that invalid input cannot be typed at all.
#[derive(Debug, Clone, Copy, PartialEq, Eq, Structural)]
pub enum Accepts {
    Any,
    /// IBAN: letters, digits and spaces, upper-cased as you type.
    Iban,
    /// An amount: digits and a single decimal separator.
    Amount,
    /// A date: digits and dashes.
    Date,
    /// Digits only, as the Slovak payment symbols require.
    Digits,
}

/// What a field makes of one typed character, given what it already holds:
/// control characters never go in; an IBAN takes letters, digits and spaces,
/// upper-cased; an amount takes digits and one decimal separator; a date
/// digits and dashes; symbols digits.
pub open spec fn sanitized(c: char, accepts: Accepts, current: Seq<char>) -> Option<char> {
    if is_control_char(c) {
        None
    } else {
        match accepts {
            Accepts::Any => Some(c),
            Accepts::Iban => if is_alphanumeric(c) || c == ' ' {
                Some(upper_char(c))
            } else {
                None
            },
            Accepts::Amount => if is_digit(c) {
                Some(c)
            } else if (c == '.' || c == ',') && !current.contains('.') && !current.contains(',') {
                Some(c)
            } else {
                None
            },
            Accepts::Date => if is_digit(c) || c == '-' {
                Some(c)
            } else {
                None
            },
            Accepts::Digits => if is_digit(c) {
                Some(c)
            } else {
                None
            },
        }
    }
}

/// Whether the text already holds a decimal separator.
fn holds_separator(current: &[char]) -> (r: bool)
    ensures
        r == (current@.contains('.') || current@.contains(',')),
{
    let n = current.len();
    let mut i: usize = 0;
    while i < n
        invariant
            i <= n,
            n == current@.len(),
            forall|j: int| 0 <= j < i ==> #[trigger] current@[j] != '.' && current@[j] != ',',
        decreases n - i,
    {
        if current[i] == '.' {
            assert(current@[i as int] == '.');
            assert(current@.contains('.'));
            return true;
        }
        if current[i] == ',' {
            assert(current@[i as int] == ',');
            assert(current@.contains(','));
            return true;
        }
        i += 1;
    }
    false
}

/// Apply a field's input rules to one character.
fn sanitize(c: char, accepts: Accepts, current: &[char]) -> (r: Option<char>)
    ensures
        r == sanitized(c, accepts, current@),
{
    if is_control(c) {
        return None;
    }
    match accepts {
        Accepts::Any => Some(c),
        Accepts::Iban => if crate::strings::is_ascii_alphanumeric(c) || c == ' ' {
            Some(to_ascii_upper(c))
        } else {
            None
        },
        Accepts::Amount => {
            if crate::strings::is_ascii_digit(c) {
                Some(c)
            } else if c == '.' || c == ',' {
                if holds_separator(current) {
                    return None;
                }
                Some(c)
            } else {
                None
            }
        },
        Accepts::Date => if crate::strings::is_ascii_digit(c) || c == '-' {
            Some(c)
        } else {
            None
        },
        Accepts::Digits => if crate::strings::is_ascii_digit(c) {
            Some(c)
        } else {
            None
        },
    }
}

/// How many bytes a character takes in UTF-8.
pub open spec fn char_bytes(c: char) -> nat {
    if (c as u32) < 0x80 {
        1
    } else if (c as u32) < 0x800 {
        2
    } else if (c as u32) < 0x10000 {
        3
    } else {
        4
    }
}

/// How many bytes the characters take in UTF-8.
pub open spec fn byte_len(s: Seq<char>) -> nat
    decreases s.len(),
{
    if s.len() == 0 {
        0
    } else {
        byte_len(s.drop_last()) + char_bytes(s.last())
    }
}

/// How many leading characters of `s` fit in `bytes` bytes of UTF-8.
pub open spec fn chars_within(s: Seq<char>, bytes: int) -> nat
    decreases s.len(),
{
    if s.len() == 0 || char_bytes(s[0]) > bytes {
        0
    } else {
        1 + chars_within(s.drop_first(), bytes - char_bytes(s[0]))
    }
}

/// The bytes of a text are those of its first character and of the rest.
proof fn lemma_byte_len_front(s: Seq<char>)
    requires
        s.len() > 0,
    ensures
        byte_len(s) == char_bytes(s[0]) + byte_len(s.drop_first()),
    decreases s.len(),
{
    if s.len() > 1 {
        lemma_byte_len_front(s.drop_last());
        assert(s.drop_last().drop_first() =~= s.drop_first().drop_last());
        assert(s.drop_last()[0] == s[0]);
        assert(s.drop_first().last() == s.last());
        assert(byte_len(s.drop_first()) == byte_len(s.drop_first().drop_last()) + char_bytes(
            s.drop_first().last(),
        ));
    } else {
        assert(s.drop_first().len() == 0);
        assert(s.drop_last().len() == 0);
        assert(s.last() == s[0]);
        assert(byte_len(s.drop_last()) == 0);
        assert(byte_len(s.drop_first()) == 0);
    }
}

/// `chars_within` counts the longest run of leading characters whose UTF-8
/// fits in the given bytes: those fit, and one character more would not.
pub proof fn lemma_chars_within(s: Seq<char>, bytes: int)
    requires
        bytes >= 0,
    ensures
        chars_within(s, bytes) <= s.len(),
        byte_len(s.take(chars_within(s, bytes) as int)) <= bytes,
        chars_within(s, bytes) < s.len() ==> byte_len(s.take(chars_within(s, bytes) + 1int)) > bytes,
    decreases s.len(),
{
    let k = chars_within(s, bytes) as int;
    if s.len() == 0 || char_bytes(s[0]) > bytes {
        assert(s.take(0).len() == 0);
        if s.len() > 0 {
            lemma_byte_len_front(s.take(1));
            assert(s.take(1).drop_first().len() == 0);
        }
    } else {
        let t = s.drop_first();
        let b = bytes - char_bytes(s[0]);
        lemma_chars_within(t, b);
        lemma_byte_len_front(s.take(k));
        assert(s.take(k).drop_first() =~= t.take(k - 1));
        if k < s.len() {
            lemma_byte_len_front(s.take(k + 1));
            assert(s.take(k + 1).drop_first() =~= t.take(k));
        }
    }
}

fn char_bytes_exec(c: char) -> (r: u128)
    ensures
        r == char_bytes(c),
{
    let u = crate::strings::code_point(c);
    if u < 0x80 {
        1
    } else if u < 0x800 {
        2
    } else if u < 0x10000 {
        3
    } else {
        4
    }
}

/// Just past the last white space in `t`, or its start when it holds none.
pub open spec fn after_last_space(t: Seq<char>) -> nat
    decreases t.len(),
{
    if t.len() == 0 {
        0
    } else if is_white_space(t.last()) {
        t.len()
    } else {
        after_last_space(t.drop_last())
    }
}

/// Where the word before the cursor starts: white space before the cursor
/// is passed over, then the word up to the white space in front of it.
pub open spec fn word_start(head: Seq<char>) -> nat {
    after_last_space(crate::strings::trim_end(head))
}

/// A single-line input: the text and the number of characters before the cursor.
#[derive(Debug, Clone, PartialEq, Eq)]
pub struct TextField {
    value: String,
    /// Number of characters before the cursor.
    cursor: usize,
}

impl View for TextField {
    type V = (Seq<char>, nat);

    open spec fn view(&self) -> (Seq<char>, nat) {
        self.state()
    }
}

impl Default for TextField {
    fn default() -> (r: TextField)
        ensures
            r@ == (Seq::<char>::empty(), 0nat),
            r.wf(),
    {
        TextField { value: String::new(), cursor: 0 }
    }
}

impl TextField {
    pub closed spec fn state(&self) -> (Seq<char>, nat) {
        (self.value@, self.cursor as nat)
    }

    /// The cursor is within the text.
    pub open spec fn wf(&self) -> bool {
        self@.1 <= self@.0.len()
    }

    /// A field holding `value`, with the cursor at its end.
    pub fn new(value: &str) -> (r: TextField)
        ensures
            r@ == (value@, value@.len()),
            r.wf(),
    {
        let v = crate::strings::owned(value);
        let n = to_chars(value).len();
        TextField { value: v, cursor: n }
    }

    pub fn as_str(&self) -> (r: &str)
        ensures
            r@ == self@.0,
    {
        self.value.as_str()
    }

    pub fn is_empty(&self) -> (r: bool)
        ensures
            r == (self@.0.len() == 0),
    {
        self.value.as_str().is_empty()
    }

    /// Whether the cursor sits past the last character, where a completion can
    /// be accepted without swallowing a plain cursor movement.
    pub fn at_end(&self) -> (r: bool)
        ensures
            r == (self@.1 == self@.0.len()),
    {
        self.cursor == to_chars(self.value.as_str()).len()
    }

    /// Number of characters before the cursor, i.e. the column to draw it at.
    pub fn cursor_col(&self) -> (r: usize)
        ensures
            r == self@.1,
    {
        self.cursor
    }

    /// Replace the text. The cursor keeps its place in bytes of UTF-8, as far
    /// as the new text reaches, and backs off to the start of a character.
    pub fn set(&mut self, value: &str)
        requires
            old(self).wf(),
        ensures
            final(self).wf(),
            final(self)@ == (value@, chars_within(
                value@,
                byte_len(old(self)@.0.take(old(self)@.1 as int)) as int,
            )),
            byte_len(value@.take(final(self)@.1 as int)) <= byte_len(
                old(self)@.0.take(old(self)@.1 as int),
            ),
            final(self)@.1 < value@.len() ==> byte_len(value@.take(final(self)@.1 + 1int)) > byte_len(
                old(self)@.0.take(old(self)@.1 as int),
            ),
    {
        proof {
            lemma_chars_within(value@, byte_len(self@.0.take(self@.1 as int)) as int);
        }
        let old_chars = to_chars(self.value.as_str());
        let mut bytes: u128 = 0;
        let mut i: usize = 0;
        while i < self.cursor
            invariant
                i <= self.cursor,
                self.cursor <= old_chars@.len(),
                bytes == byte_len(old_chars@.take(i as int)),
                bytes <= 4 * i,
            decreases self.cursor - i,
        {
            assert(old_chars@.take(i + 1).drop_last() =~= old_chars@.take(i as int));
            bytes = bytes + char_bytes_exec(old_chars[i]);
            i += 1;
        }
        let new_chars = to_chars(value);
        let n = new_chars.len();
        let mut k: usize = 0;
        let mut used: u128 = 0;
        assert(new_chars@.skip(0) =~= new_chars@);
        while k < n && used + char_bytes_exec(new_chars[k]) <= bytes
            invariant
                k <= n,
                n == new_chars@.len(),
                used <= bytes,
                bytes <= 4 * usize::MAX,
                chars_within(new_chars@, bytes as int) == k + chars_within(
                    new_chars@.skip(k as int),
                    bytes - used,
                ),
            decreases n - k,
        {
            let b = char_bytes_exec(new_chars[k]);
            assert(new_chars@.skip(k as int)[0] == new_chars@[k as int]);
            assert(new_chars@.skip(k as int).drop_first() =~= new_chars@.skip(k + 1));
            used = used + b;
            k += 1;
        }
        proof {
            let t = new_chars@.skip(k as int);
            if k < n {
                assert(t[0] == new_chars@[k as int]);
            }
        }
        self.value = crate::strings::owned(value);
        self.cursor = k;
    }

    /// Insert `c` at the cursor unless the field's rules reject it or
    /// `max_len` characters are already there.
    pub fn insert(&mut self, c: char, accepts: Accepts, max_len: usize)
        requires
            old(self).wf(),
        ensures
            final(self).wf(),
            final(self)@ == match sanitized(c, accepts, old(self)@.0) {
                Some(d) => if old(self)@.0.len() >= max_len {
                    old(self)@
                } else {
                    (old(self)@.0.insert(old(self)@.1 as int, d), old(self)@.1 + 1)
                },
                None => old(self)@,
            },
    {
        let mut chars = to_chars(self.value.as_str());
        let d = match sanitize(c, accepts, chars.as_slice()) {
            Some(d) => d,
            None => return,
        };
        if chars.len() >= max_len {
            return;
        }
        chars.insert(self.cursor, d);
        self.value = from_chars(chars.as_slice());
        self.cursor = self.cursor + 1;
    }

    /// Delete the character before the cursor.
    pub fn backspace(&mut self)
        requires
            old(self).wf(),
        ensures
            final(self).wf(),
            final(self)@ == if old(self)@.1 > 0 {
                (old(self)@.0.remove(old(self)@.1 - 1), (old(self)@.1 - 1) as nat)
            } else {
                old(self)@
            },
    {
        if self.cursor > 0 {
            let mut chars = to_chars(self.value.as_str());
            chars.remove(self.cursor - 1);
            self.value = from_chars(chars.as_slice());
            self.cursor = self.cursor - 1;
        }
    }

    /// Delete the character under the cursor.
    pub fn delete(&mut self)
        requires
            old(self).wf(),
        ensures
            final(self).wf(),
            final(self)@ == if old(self)@.1 < old(self)@.0.len() {
                (old(self)@.0.remove(old(self)@.1 as int), old(self)@.1)
            } else {
                old(self)@
            },
    {
        let mut chars = to_chars(self.value.as_str());
        if self.cursor < chars.len() {
            chars.remove(self.cursor);
            self.value = from_chars(chars.as_slice());
        }
    }

    /// Delete the word before the cursor (Ctrl+W): back over white space,
    /// then over the word, up to the white space before it.
    pub fn delete_word(&mut self)
        requires
            old(self).wf(),
        ensures
            final(self).wf(),
            final(self)@ == ({
                let s = word_start(old(self)@.0.take(old(self)@.1 as int));
                (old(self)@.0.take(s as int) + old(self)@.0.skip(old(self)@.1 as int), s)
            }),
    {
        let chars = to_chars(self.value.as_str());
        let head = crate::strings::slice_of(chars.as_slice(), 0, self.cursor);
        assert(head@ =~= self@.0.take(self@.1 as int));
        let start = word_start_exec(head.as_slice());
        let mut out = crate::strings::slice_of(chars.as_slice(), 0, start);
        let tail = crate::strings::slice_of(chars.as_slice(), self.cursor, chars.len());
        crate::strings::push_all(&mut out, tail.as_slice());
        self.value = from_chars(out.as_slice());
        self.cursor = start;
    }

    pub fn clear(&mut self)
        ensures
            final(self)@ == (Seq::<char>::empty(), 0nat),
            final(self).wf(),
    {
        self.value = String::new();
        self.cursor = 0;
    }

    pub fn left(&mut self)
        requires
            old(self).wf(),
        ensures
            final(self).wf(),
            final(self)@ == (old(self)@.0, if old(self)@.1 > 0 {
                (old(self)@.1 - 1) as nat
            } else {
                0nat
            }),
    {
        if self.cursor > 0 {
            self.cursor = self.cursor - 1;
        }
    }

    pub fn right(&mut self)
        requires
            old(self).wf(),
        ensures
            final(self).wf(),
            final(self)@ == (old(self)@.0, if old(self)@.1 < old(self)@.0.len() {
                old(self)@.1 + 1
            } else {
                old(self)@.1
            }),
    {
        let n = to_chars(self.value.as_str()).len();
        if self.cursor < n {
            self.cursor = self.cursor + 1;
        }
    }

    pub fn home(&mut self)
        ensures
            final(self)@ == (old(self)@.0, 0nat),
            final(self).wf(),
    {
        self.cursor = 0;
    }

    pub fn end(&mut self)
        ensures
            final(self)@ == (old(self)@.0, old(self)@.0.len()),
            final(self).wf(),
    {
        self.cursor = to_chars(self.value.as_str()).len();
    }
}

proof fn lemma_after_last_space_bound(t: Seq<char>)
    ensures
        after_last_space(t) <= t.len(),
    decreases t.len(),
{
    if t.len() > 0 && !is_white_space(t.last()) {
        lemma_after_last_space_bound(t.drop_last());
    }
}

fn word_start_exec(head: &[char]) -> (r: usize)
    ensures
        r == word_start(head@),
        r <= head@.len(),
{
    let t = crate::strings::trim_end_chars(head);
    proof {
        crate::strings::lemma_trail_ws_bound(head@);
    }
    let mut k: usize = t.len();
    assert(t@.take(k as int) =~= t@);
    while k > 0 && !is_whitespace(t[k - 1])
        invariant
            k <= t@.len(),
            after_last_space(t@) == after_last_space(t@.take(k as int)),
        decreases k,
    {
        assert(t@.take(k as int).drop_last() =~= t@.take(k - 1));
        k -= 1;
    }
    proof {
        lemma_after_last_space_bound(t@);
        if k > 0 {
            assert(t@.take(k as int).last() == t@[k - 1]);
        }
    }
    k
}

} // verus!
