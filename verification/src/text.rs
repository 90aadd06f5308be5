//! Characters and text: the character classes of the macro language, the
//! trimming of surrounding whitespace, and the few conversions between
//! strings and character sequences that the rest of the crate builds on.

use vstd::prelude::*;
use vstd::string::*;

verus! {

/// The character that opens a quoted span.
pub const OPEN_QUOTE: char = '`';

/// The character that closes a quoted span.
pub const CLOSE_QUOTE: char = '\'';

/// Whitespace: the Unicode `White_Space` code points.
pub open spec fn is_space(c: char) -> bool {
    ||| ('\u{9}' <= c && c <= '\u{D}')
    ||| c == ' '
    ||| c == '\u{85}'
    ||| c == '\u{A0}'
    ||| c == '\u{1680}'
    ||| ('\u{2000}' <= c && c <= '\u{200A}')
    ||| c == '\u{2028}'
    ||| c == '\u{2029}'
    ||| c == '\u{202F}'
    ||| c == '\u{205F}'
    ||| c == '\u{3000}'
}

/// A character that may begin a macro name: an ASCII letter or `_`.
pub open spec fn is_name_start(c: char) -> bool {
    ('a' <= c && c <= 'z') || ('A' <= c && c <= 'Z') || c == '_'
}

/// A character that may continue a macro name: an ASCII letter, digit or `_`.
pub open spec fn is_name_char(c: char) -> bool {
    is_name_start(c) || is_digit(c)
}

/// An ASCII decimal digit.
pub open spec fn is_digit(c: char) -> bool {
    '0' <= c && c <= '9'
}

/// The value of a decimal digit.
pub open spec fn digit_value(c: char) -> nat
    recommends
        is_digit(c),
{
    (c as nat - '0' as nat) as nat
}

#[verifier::when_used_as_spec(is_space)]
pub fn space(c: char) -> (r: bool)
    ensures
        r == is_space(c),
{
    ('\u{9}' <= c && c <= '\u{D}') || c == ' ' || c == '\u{85}' || c == '\u{A0}' || c == '\u{1680}'
        || ('\u{2000}' <= c && c <= '\u{200A}') || c == '\u{2028}' || c == '\u{2029}' || c
        == '\u{202F}' || c == '\u{205F}' || c == '\u{3000}'
}

#[verifier::when_used_as_spec(is_name_start)]
pub fn name_start(c: char) -> (r: bool)
    ensures
        r == is_name_start(c),
{
    ('a' <= c && c <= 'z') || ('A' <= c && c <= 'Z') || c == '_'
}

#[verifier::when_used_as_spec(is_digit)]
pub fn digit(c: char) -> (r: bool)
    ensures
        r == is_digit(c),
{
    '0' <= c && c <= '9'
}

#[verifier::when_used_as_spec(is_name_char)]
pub fn name_char(c: char) -> (r: bool)
    ensures
        r == is_name_char(c),
{
    name_start(c) || digit(c)
}

/// The first index in `[from, to]` that is `to` or holds no whitespace.
pub open spec fn skip_spaces(s: Seq<char>, from: int, to: int) -> int
    decreases to - from,
{
    if 0 <= from < to <= s.len() && is_space(s[from]) {
        skip_spaces(s, from + 1, to)
    } else {
        from
    }
}

/// The last index in `[from, to]` that is `from` or follows a character
/// that is no whitespace.
pub open spec fn drop_spaces(s: Seq<char>, from: int, to: int) -> int
    decreases to - from,
{
    if 0 <= from < to <= s.len() && is_space(s[to - 1]) {
        drop_spaces(s, from, to - 1)
    } else {
        to
    }
}

/// `s` without its leading and trailing whitespace.
pub open spec fn trim(s: Seq<char>) -> Seq<char> {
    let from = skip_spaces(s, 0, s.len() as int);
    s.subrange(from, drop_spaces(s, from, s.len() as int))
}

/// `skip_spaces` stays in its range, passes whitespace only, and stops at
/// the first character that is none.
pub proof fn lemma_skip_spaces(s: Seq<char>, from: int, to: int)
    requires
        0 <= from <= to <= s.len(),
    ensures
        from <= skip_spaces(s, from, to) <= to,
        forall|k: int| from <= k < skip_spaces(s, from, to) ==> is_space(#[trigger] s[k]),
        skip_spaces(s, from, to) < to ==> !is_space(s[skip_spaces(s, from, to)]),
    decreases to - from,
{
    if from < to && is_space(s[from]) {
        lemma_skip_spaces(s, from + 1, to);
    }
}

/// `drop_spaces` stays in its range, passes whitespace only, and stops
/// behind the last character that is none.
pub proof fn lemma_drop_spaces(s: Seq<char>, from: int, to: int)
    requires
        0 <= from <= to <= s.len(),
    ensures
        from <= drop_spaces(s, from, to) <= to,
        forall|k: int| drop_spaces(s, from, to) <= k < to ==> is_space(#[trigger] s[k]),
        from < drop_spaces(s, from, to) ==> !is_space(s[drop_spaces(s, from, to) - 1]),
    decreases to - from,
{
    if from < to && is_space(s[to - 1]) {
        lemma_drop_spaces(s, from, to - 1);
    }
}

/// What `trim` returns, said without recursion: the part of `s` between its
/// first and its last character that is no whitespace.
pub proof fn law_trim_keeps_the_middle(s: Seq<char>)
    ensures
        ({
            let from = skip_spaces(s, 0, s.len() as int);
            let to = drop_spaces(s, from, s.len() as int);
            &&& 0 <= from <= to <= s.len()
            &&& trim(s) == s.subrange(from, to)
            &&& forall|k: int| 0 <= k < from ==> is_space(#[trigger] s[k])
            &&& forall|k: int| to <= k < s.len() ==> is_space(#[trigger] s[k])
            &&& from < to ==> !is_space(s[from]) && !is_space(s[to - 1])
        }),
{
    let from = skip_spaces(s, 0, s.len() as int);
    lemma_skip_spaces(s, 0, s.len() as int);
    lemma_drop_spaces(s, from, s.len() as int);
}

/// `String::push` of the standard library: the string afterwards is the
/// string before with `ch` at its end.
pub assume_specification[ String::push ](s: &mut String, ch: char)
    ensures
        final(s)@ == old(s)@.push(ch),
;

/// The characters of `s`, in order.
pub fn to_chars(s: &str) -> (r: Vec<char>)
    ensures
        r@ == s@,
{
    let mut out: Vec<char> = Vec::new();
    for c in it: s.chars()
        invariant
            out@ == it.seq().take(it.index() as int),
    {
        out.push(c);
    }
    out
}

/// The string made of `chars[from..to]`.
pub fn text_of(chars: &[char], from: usize, to: usize) -> (r: String)
    requires
        from <= to <= chars@.len(),
    ensures
        r@ == chars@.subrange(from as int, to as int),
{
    let mut out = String::new();
    let mut i: usize = from;
    while i < to
        invariant
            from <= i <= to <= chars@.len(),
            out@ == chars@.subrange(from as int, i as int),
        decreases to - i,
    {
        out.push(chars[i]);
        i += 1;
        assert(out@ =~= chars@.subrange(from as int, i as int));
    }
    out
}

/// Moves `from` forward over whitespace, no further than `to`.
pub fn skip_spaces_in(chars: &[char], from: usize, to: usize) -> (r: usize)
    requires
        from <= to <= chars@.len(),
    ensures
        r == skip_spaces(chars@, from as int, to as int),
        from <= r <= to,
{
    let mut i: usize = from;
    while i < to && space(chars[i])
        invariant
            from <= i <= to <= chars@.len(),
            skip_spaces(chars@, from as int, to as int) == skip_spaces(chars@, i as int, to as int),
        decreases to - i,
    {
        i += 1;
    }
    i
}

/// Moves `to` backward over whitespace, no further than `from`.
pub fn drop_spaces_in(chars: &[char], from: usize, to: usize) -> (r: usize)
    requires
        from <= to <= chars@.len(),
    ensures
        r == drop_spaces(chars@, from as int, to as int),
        from <= r <= to,
{
    let mut j: usize = to;
    while from < j && space(chars[j - 1])
        invariant
            from <= j <= to <= chars@.len(),
            drop_spaces(chars@, from as int, to as int) == drop_spaces(chars@, from as int, j as int),
        decreases j - from,
    {
        j -= 1;
    }
    j
}

/// `s` without its leading and trailing whitespace, as a new string.
pub fn trimmed(s: &str) -> (r: String)
    ensures
        r@ == trim(s@),
{
    let chars = to_chars(s);
    let from = skip_spaces_in(chars.as_slice(), 0, chars.len());
    let to = drop_spaces_in(chars.as_slice(), from, chars.len());
    text_of(chars.as_slice(), from, to)
}

/// Whether two strings hold the same characters.
pub fn same_text(a: &str, b: &str) -> (r: bool)
    ensures
        r == (a@ == b@),
{
    let x = a.as_bytes();
    let y = b.as_bytes();
    if x.len() != y.len() {
        return false;
    }
    let mut i: usize = 0;
    while i < x.len()
        invariant
            i <= x@.len(),
            x@.len() == y@.len(),
            x@ == a.spec_bytes(),
            y@ == b.spec_bytes(),
            forall|k: int| 0 <= k < i ==> x@[k] == y@[k],
        decreases x@.len() - i,
    {
        if x[i] != y[i] {
            return false;
        }
        i += 1;
    }
    proof {
        assert(x@ =~= y@);
        vstd::utf8::encode_utf8_decode_utf8(a@);
        vstd::utf8::encode_utf8_decode_utf8(b@);
    }
    true
}

/// The character that stands for the digit `d`.
pub open spec fn digit_char(d: nat) -> char
    recommends
        d <= 9,
{
    ('0' as nat + d) as char
}

/// The decimal numeral of `n`, without leading zeros.
pub open spec fn numeral(n: nat) -> Seq<char>
    decreases n,
{
    if n < 10 {
        seq![digit_char(n)]
    } else {
        numeral(n / 10).push(digit_char(n % 10))
    }
}

/// Appends the decimal numeral of `n` to `out`.
pub fn push_numeral(out: &mut String, n: usize)
    ensures
        final(out)@ == old(out)@ + numeral(n as nat),
    decreases n,
{
    if n >= 10 {
        push_numeral(out, n / 10);
    }
    let d = (n % 10) as u8;
    out.push((d + 48) as char);
    assert(out@ =~= old(out)@ + numeral(n as nat));
}

} // verus!
