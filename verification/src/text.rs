//! Splitting and trimming of protocol text, one character at a time.

use vstd::prelude::*;

verus! {

/// The characters with the Unicode property `White_Space`.
pub open spec fn is_white_space(c: char) -> bool {
    ||| '\u{9}' <= c <= '\u{d}'
    ||| c == ' '
    ||| c == '\u{85}'
    ||| c == '\u{a0}'
    ||| c == '\u{1680}'
    ||| '\u{2000}' <= c <= '\u{200a}'
    ||| c == '\u{2028}'
    ||| c == '\u{2029}'
    ||| c == '\u{202f}'
    ||| c == '\u{205f}'
    ||| c == '\u{3000}'
}

/// Specifies `char::is_whitespace`: it holds of the characters with the Unicode property
/// `White_Space`, and of no others.
pub assume_specification[ char::is_whitespace ](c: char) -> (answer: bool)
    ensures
        answer == is_white_space(c),
;

/// The index of the first character of `s` of which `p` holds, or the length of `s` if there is
/// none.
pub open spec fn position(s: Seq<char>, p: spec_fn(char) -> bool) -> int
    decreases s.len(),
{
    if s.len() == 0 || p(s[0]) {
        0
    } else {
        1 + position(s.drop_first(), p)
    }
}

/// The first index at which `p` holds is the position.
pub proof fn lemma_position(s: Seq<char>, p: spec_fn(char) -> bool, n: int)
    requires
        0 <= n <= s.len(),
        forall|i: int| 0 <= i < n ==> !p(#[trigger] s[i]),
        n < s.len() ==> p(s[n]),
    ensures
        position(s, p) == n,
    decreases s.len(),
{
    if s.len() > 0 && n > 0 {
        assert(!p(s[0]));
        assert forall|i: int| 0 <= i < n - 1 implies !p(#[trigger] s.drop_first()[i]) by {
            assert(s.drop_first()[i] == s[i + 1]);
        }
        lemma_position(s.drop_first(), p, n - 1);
    }
}

/// Whether a character is white space.
pub open spec fn white() -> spec_fn(char) -> bool {
    |c: char| is_white_space(c)
}

/// Whether a character is not white space.
pub open spec fn solid() -> spec_fn(char) -> bool {
    |c: char| !is_white_space(c)
}

/// Whether a character is a colon.
pub open spec fn colon() -> spec_fn(char) -> bool {
    |c: char| c == ':'
}

/// Whether a character is not a colon.
pub open spec fn not_colon() -> spec_fn(char) -> bool {
    |c: char| c != ':'
}

/// The text before the first character of which `p` holds, and the text after it. Where `p` holds
/// of no character, the first part is all of `s` and there is no second.
pub open spec fn split_first(s: Seq<char>, p: spec_fn(char) -> bool) -> (
    Seq<char>,
    Option<Seq<char>>,
) {
    let n = position(s, p);
    (
        s.take(n),
        if n < s.len() {
            Some(s.skip(n + 1))
        } else {
            None
        },
    )
}

/// `s` without the white space at its end.
pub open spec fn trim_end(s: Seq<char>) -> Seq<char>
    decreases s.len(),
{
    if s.len() > 0 && is_white_space(s.last()) {
        trim_end(s.drop_last())
    } else {
        s
    }
}

/// `s` without the white space at its two ends.
pub open spec fn trimmed(s: Seq<char>) -> Seq<char> {
    trim_end(s.skip(position(s, solid())))
}

/// `s` without the colons at its start.
pub open spec fn without_leading_colons(s: Seq<char>) -> Seq<char> {
    s.skip(position(s, not_colon()))
}

/// The text, or the empty text where there is none.
pub open spec fn or_empty(s: Option<Seq<char>>) -> Seq<char> {
    match s {
        Some(text) => text,
        None => Seq::empty(),
    }
}

/// The position lies within `s`; `p` holds there and nowhere before.
pub proof fn lemma_position_bounds(s: Seq<char>, p: spec_fn(char) -> bool)
    ensures
        0 <= position(s, p) <= s.len(),
        forall|i: int| 0 <= i < position(s, p) ==> !p(#[trigger] s[i]),
        position(s, p) < s.len() ==> p(s[position(s, p)]),
    decreases s.len(),
{
    if s.len() > 0 && !p(s[0]) {
        let rest = s.drop_first();
        lemma_position_bounds(rest, p);
        assert forall|i: int| 0 <= i < position(s, p) implies !p(#[trigger] s[i]) by {
            if i > 0 {
                assert(rest[i - 1] == s[i]);
            }
        }
    }
}

/// Trimming cuts behind the last character that is not white space.
pub proof fn lemma_trim_end(s: Seq<char>, n: int)
    requires
        0 <= n <= s.len(),
        forall|i: int| n <= i < s.len() ==> is_white_space(#[trigger] s[i]),
        n > 0 ==> !is_white_space(s[n - 1]),
    ensures
        trim_end(s) == s.take(n),
    decreases s.len(),
{
    if n < s.len() {
        assert(is_white_space(s[s.len() - 1]));
        lemma_trim_end(s.drop_last(), n);
        assert(s.drop_last().take(n) =~= s.take(n));
    } else {
        assert(s.take(n) =~= s);
    }
}

/// The index of the first character of which `test` holds.
fn find<F: Fn(char) -> bool>(
    s: &str,
    test: F,
    Ghost(p): Ghost<spec_fn(char) -> bool>,
) -> (n: usize)
    requires
        forall|c: char| test.requires((c,)),
        forall|c: char, found: bool| test.ensures((c,), found) ==> found == p(c),
    ensures
        n == position(s@, p),
        n <= s@.len(),
{
    let len: usize = s.unicode_len();
    let mut n: usize = 0;
    for c in it: s.chars()
        invariant
            it.seq() == s@,
            len == s@.len(),
            n == it.index(),
            forall|i: int| 0 <= i < n ==> !p(#[trigger] s@[i]),
            forall|c: char| test.requires((c,)),
            forall|c: char, found: bool| test.ensures((c,), found) ==> found == p(c),
    {
        if test(c) {
            proof {
                lemma_position(s@, p, n as int);
            }
            return n;
        }
        n = n + 1;
    }
    proof {
        lemma_position(s@, p, n as int);
    }
    n
}

fn is_white(c: char) -> (found: bool)
    ensures
        found == is_white_space(c),
{
    c.is_whitespace()
}

fn is_solid(c: char) -> (found: bool)
    ensures
        found == !is_white_space(c),
{
    !c.is_whitespace()
}

fn is_colon(c: char) -> (found: bool)
    ensures
        found == (c == ':'),
{
    c == ':'
}

fn is_not_colon(c: char) -> (found: bool)
    ensures
        found == (c != ':'),
{
    c != ':'
}

/// The text before and after the character at `n`.
fn split_at(s: &str, n: usize) -> (parts: (&str, Option<&str>))
    requires
        n <= s@.len(),
    ensures
        parts.0@ == s@.take(n as int),
        match parts.1 {
            Some(after) => n < s@.len() && after@ == s@.skip(n + 1),
            None => n == s@.len(),
        },
{
    let len: usize = s.unicode_len();
    let before = s.substring_char(0, n);
    if n < len {
        (before, Some(s.substring_char(n + 1, len)))
    } else {
        (before, None)
    }
}

/// Splits `s` at its first white space, which belongs to neither part.
pub fn split_at_white_space(s: &str) -> (parts: (&str, Option<&str>))
    ensures
        parts.0@ == split_first(s@, white()).0,
        text_of(parts.1) == split_first(s@, white()).1,
{
    let n: usize = find(s, is_white, Ghost(white()));
    split_at(s, n)
}

/// Splits `s` at its first colon, which belongs to neither part.
pub fn split_at_colon(s: &str) -> (parts: (&str, Option<&str>))
    ensures
        parts.0@ == split_first(s@, colon()).0,
        text_of(parts.1) == split_first(s@, colon()).1,
{
    let n: usize = find(s, is_colon, Ghost(colon()));
    split_at(s, n)
}

/// The characters of a text that may be absent.
pub open spec fn text_of(s: Option<&str>) -> Option<Seq<char>> {
    match s {
        Some(text) => Some(text@),
        None => None,
    }
}

/// The characters of a string that may be absent.
pub open spec fn string_of(s: Option<String>) -> Option<Seq<char>> {
    match s {
        Some(text) => Some(text@),
        None => None,
    }
}

/// Removes the colons at the start of `s`.
pub fn strip_leading_colons(s: &str) -> (stripped: &str)
    ensures
        stripped@ == without_leading_colons(s@),
{
    let n: usize = find(s, is_not_colon, Ghost(not_colon()));
    let len: usize = s.unicode_len();
    s.substring_char(n, len)
}

/// Removes the white space at the two ends of `s`.
pub fn trim(s: &str) -> (inner: &str)
    ensures
        inner@ == trimmed(s@),
{
    let len: usize = s.unicode_len();
    let start: usize = find(s, is_solid, Ghost(solid()));
    let mut n: usize = 0;
    let mut end: usize = start;
    for c in it: s.chars()
        invariant
            it.seq() == s@,
            len == s@.len(),
            n == it.index(),
            start <= end <= len,
            end <= n || end == start,
            end > start ==> !is_white_space(s@[end - 1]),
            forall|i: int| end <= i < n ==> is_white_space(#[trigger] s@[i]),
            start == position(s@, solid()),
    {
        n = n + 1;
        if !c.is_whitespace() {
            proof {
                lemma_position_bounds(s@, solid());
                if n <= start {
                    assert(!solid()(s@[n - 1]));
                }
            }
            end = n;
        }
    }
    let inner = s.substring_char(start, end);
    proof {
        let rest = s@.skip(start as int);
        assert forall|i: int| end - start <= i < rest.len() implies is_white_space(
            #[trigger] rest[i],
        ) by {
            assert(rest[i] == s@[start + i]);
        }
        lemma_trim_end(rest, end - start);
        assert(rest.take(end - start) =~= s@.subrange(start as int, end as int));
    }
    inner
}

/// Whether two texts are equal.
pub fn same_text(a: &str, b: &str) -> (same: bool)
    ensures
        same == (a@ == b@),
{
    proof {
        vstd::utf8::encode_utf8_decode_utf8(a@);
        vstd::utf8::encode_utf8_decode_utf8(b@);
    }
    let left = a.as_bytes();
    let right = b.as_bytes();
    if left.len() != right.len() {
        return false;
    }
    for i in 0..left.len()
        invariant
            left@ == vstd::utf8::encode_utf8(a@),
            right@ == vstd::utf8::encode_utf8(b@),
            left@.len() == right@.len(),
            forall|j: int| 0 <= j < i ==> left@[j] == right@[j],
    {
        if left[i] != right[i] {
            return false;
        }
    }
    assert(left@ =~= right@);
    true
}

} // verus!
