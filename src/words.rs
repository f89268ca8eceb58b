//! Word classification of characters and the word-step positions computed
//! from it.

use vstd::prelude::*;

use crate::text::{
    byte_len, byte_offset, char_index_at, chars_of, index_of, is_boundary,
    lemma_byte_offset_injective, lemma_byte_offset_monotonic, offset_of,
};

verus! {

/// What `char::is_whitespace` says of `c`: whether it has the Unicode
/// `White_Space` property.
pub uninterp spec fn whitespace(c: char) -> bool;

/// Relies on `char::is_whitespace`, whose answer depends on the character alone.
#[verifier::external_body]
fn is_space(c: char) -> (r: bool)
    ensures
        r == whitespace(c),
{
    c.is_whitespace()
}

/// The punctuation and symbols that form a word class of their own.
pub open spec fn separator(c: char) -> bool {
    c == '.' || c == '/' || c == '\\' || c == '(' || c == ')' || c == '"' || c == '\''
        || c == '-' || c == ':' || c == ',' || c == ';' || c == '<' || c == '>' || c == '~'
        || c == '!' || c == '@' || c == '#' || c == '$' || c == '%' || c == '^' || c == '&'
        || c == '*' || c == '|' || c == '+' || c == '=' || c == '[' || c == ']' || c == '{'
        || c == '}' || c == '`' || c == '?'
}

/// A word boundary lies between `c` and `next` when exactly one of them is
/// whitespace, or exactly one of them is a separator.
pub open spec fn word_boundary(c: char, next: char) -> bool {
    whitespace(c) != whitespace(next) || separator(c) != separator(next)
}

/// Index of the first `j >= from` with a word boundary between `s[j]` and
/// `s[j + 1]`, or `s.len()` when there is none.
pub open spec fn first_boundary_from(s: Seq<char>, from: int) -> int
    decreases s.len() - from,
{
    if from < 0 || from + 1 >= s.len() {
        s.len() as int
    } else if word_boundary(s[from], s[from + 1]) {
        from
    } else {
        first_boundary_from(s, from + 1)
    }
}

/// Index of the first character at or after `from` that is not whitespace,
/// or `s.len()` when there is none.
pub open spec fn skip_space_from(s: Seq<char>, from: int) -> int
    decreases s.len() - from,
{
    if from < 0 || from >= s.len() {
        s.len() as int
    } else if !whitespace(s[from]) {
        from
    } else {
        skip_space_from(s, from + 1)
    }
}

/// Start of the next word after character index `i`: the first non-space
/// character after the first word boundary at or after `i`, or the end of `s`.
pub open spec fn next_word_index(s: Seq<char>, i: int) -> int {
    let b = first_boundary_from(s, i);
    if b >= s.len() {
        s.len() as int
    } else {
        skip_space_from(s, b + 1)
    }
}

/// Largest `j` with `1 <= j < upto` whose character is not whitespace, or 0
/// when there is none.
pub open spec fn last_word_char_before(s: Seq<char>, upto: int) -> int
    decreases upto,
{
    if upto <= 1 {
        0
    } else if !whitespace(s[upto - 1]) {
        upto - 1
    } else {
        last_word_char_before(s, upto - 1)
    }
}

/// Largest `m` with `1 <= m < upto` and a word boundary between `s[m - 1]`
/// and `s[m]`, or 0 when there is none.
pub open spec fn last_boundary_before(s: Seq<char>, upto: int) -> int
    decreases upto,
{
    if upto <= 1 {
        0
    } else if word_boundary(s[upto - 2], s[upto - 1]) {
        upto - 1
    } else {
        last_boundary_before(s, upto - 1)
    }
}

/// Start of the word before character index `i`: skipping the whitespace
/// before `i`, the index just after the last word boundary, or 0.
pub open spec fn prev_word_index(s: Seq<char>, i: int) -> int {
    last_boundary_before(s, last_word_char_before(s, i))
}

/// Whether a character is whitespace and whether it is a separator.
#[derive(Clone, Copy, Debug, PartialEq, Eq)]
pub struct CharClass {
    pub space: bool,
    pub separator: bool,
}

/// Whether `c` is one of the word separators.
pub fn is_separator(c: char) -> (r: bool)
    ensures
        r == separator(c),
{
    match c {
        '.' | '/' | '\\' | '(' | ')' | '"' | '\'' | '-' | ':' | ',' | ';' | '<' | '>' | '~'
        | '!' | '@' | '#' | '$' | '%' | '^' | '&' | '*' | '|' | '+' | '=' | '[' | ']' | '{'
        | '}' | '`' | '?' => true,
        _ => false,
    }
}

/// The class of `c`.
pub fn classify(c: char) -> (r: CharClass)
    ensures
        r.space == whitespace(c),
        r.separator == separator(c),
{
    CharClass { space: is_space(c), separator: is_separator(c) }
}

/// Whether two adjacent characters of classes `a` and `b` are separated by a
/// word boundary.
pub fn classes_differ(a: CharClass, b: CharClass) -> (r: bool)
    ensures
        r == (a.space != b.space || a.separator != b.separator),
{
    (a.space && !b.space) || (!a.space && b.space) || (a.separator && !b.separator) || (
    !a.separator && b.separator)
}

/// Whether a word boundary lies between `c` and `next`.
pub fn is_word_boundary(c: char, next: char) -> (r: bool)
    ensures
        r == word_boundary(c, next),
{
    classes_differ(classify(c), classify(next))
}

/// Character index of the start of the next word after character index `i`.
pub fn next_word_in(s: &Vec<char>, i: usize) -> (r: usize)
    ensures
        r == next_word_index(s@, i as int),
        r <= s@.len(),
        i <= s@.len() ==> i <= r,
        i < s@.len() ==> i < r,
{
    let n = s.len();
    if i >= n {
        return n;
    }
    let mut j = i;
    while j + 1 < n && !is_word_boundary(s[j], s[j + 1])
        invariant
            n == s@.len(),
            i <= j < n,
            first_boundary_from(s@, i as int) == first_boundary_from(s@, j as int),
        decreases n - j,
    {
        j = j + 1;
    }
    if j + 1 >= n {
        return n;
    }
    let mut m = j + 1;
    while m < n && is_space(s[m])
        invariant
            n == s@.len(),
            j < m <= n,
            next_word_index(s@, i as int) == skip_space_from(s@, m as int),
        decreases n - m,
    {
        m = m + 1;
    }
    m
}

/// Character index of the start of the word before character index `i`.
pub fn prev_word_in(s: &Vec<char>, i: usize) -> (r: usize)
    requires
        i <= s@.len(),
    ensures
        r == prev_word_index(s@, i as int),
        r <= i,
        i > 0 ==> r < i,
{
    let mut j = i;
    while j > 1 && is_space(s[j - 1])
        invariant
            j <= i <= s@.len(),
            last_word_char_before(s@, i as int) == last_word_char_before(s@, j as int),
        decreases j,
    {
        j = j - 1;
    }
    let k = if j <= 1 { 0 } else { j - 1 };
    let mut u = k;
    while u > 1 && !is_word_boundary(s[u - 2], s[u - 1])
        invariant
            u <= k,
            k < i || k == 0,
            i <= s@.len(),
            k == last_word_char_before(s@, i as int),
            last_boundary_before(s@, k as int) == last_boundary_before(s@, u as int),
        decreases u,
    {
        u = u - 1;
    }
    if u <= 1 { 0 } else { u - 1 }
}

/// Byte offset of the start of the next word after byte offset `b` of `s`.
pub open spec fn next_word_position(s: Seq<char>, b: int) -> int {
    byte_offset(s, next_word_index(s, char_index_at(s, b))) as int
}

/// Byte offset of the start of the word before byte offset `b` of `s`.
pub open spec fn prev_word_position(s: Seq<char>, b: int) -> int {
    byte_offset(s, prev_word_index(s, char_index_at(s, b))) as int
}

/// Where the character with index `k` starts, `char_index_at` finds `k` again.
pub proof fn lemma_char_index_at(s: Seq<char>, k: int)
    requires
        0 <= k <= s.len(),
    ensures
        is_boundary(s, byte_offset(s, k) as int),
        char_index_at(s, byte_offset(s, k) as int) == k,
{
    let b = byte_offset(s, k) as int;
    assert(is_boundary(s, b));
    let j = char_index_at(s, b);
    lemma_byte_offset_injective(s, j, k);
}

/// Every offset of `s` is at most its byte length.
pub proof fn lemma_byte_offset_bounded(s: Seq<char>, k: int)
    requires
        0 <= k <= s.len(),
    ensures
        byte_offset(s, k) <= byte_len(s),
{
    lemma_byte_offset_monotonic(s, k, s.len() as int);
    assert(s.take(s.len() as int) =~= s);
}

/// Byte offset of the start of the next word after byte offset `index` of
/// `source`; the length of `source` where no word follows.
pub fn get_next_word_pos(source: &str, index: usize) -> (r: usize)
    requires
        is_boundary(source@, index as int),
        byte_len(source@) <= usize::MAX,
    ensures
        r == next_word_position(source@, index as int),
        source@.len() == 0 ==> r == 0,
{
    let chars = chars_of(source);
    let k = index_of(&chars, index);
    proof {
        lemma_char_index_at(source@, k as int);
    }
    let j = next_word_in(&chars, k);
    proof {
        lemma_byte_offset_bounded(source@, j as int);
        if source@.len() == 0 {
            assert(source@.take(0) =~= Seq::<char>::empty());
        }
    }
    offset_of(&chars, j)
}

/// Byte offset of the start of the word before byte offset `index` of
/// `source`; 0 where no word precedes.
pub fn get_prev_word_pos(source: &str, index: usize) -> (r: usize)
    requires
        is_boundary(source@, index as int),
    ensures
        r == prev_word_position(source@, index as int),
        r <= index,
        index > 0 ==> r < index,
{
    let chars = chars_of(source);
    let k = index_of(&chars, index);
    proof {
        lemma_char_index_at(source@, k as int);
    }
    let j = prev_word_in(&chars, k);
    proof {
        lemma_byte_offset_monotonic(source@, j as int, k as int);
    }
    offset_of(&chars, j)
}

} // verus!
