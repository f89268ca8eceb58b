//! The character model of a line of text: how many bytes each character
//! takes in UTF-8, and the byte offset at which each character starts.

use vstd::prelude::*;
use vstd::std_specs::iter::IteratorSpec;
use vstd::string::{axiom_spec_iter, next_postcondition};

verus! {

/// Number of bytes that `c` takes when encoded as UTF-8.
pub open spec fn char_width(c: char) -> nat {
    let v = c as u32;
    if v < 0x80 {
        1
    } else if v < 0x800 {
        2
    } else if v < 0x10000 {
        3
    } else {
        4
    }
}

/// Number of bytes that the characters `s` take when encoded as UTF-8.
pub open spec fn byte_len(s: Seq<char>) -> nat
    decreases s.len(),
{
    if s.len() == 0 {
        0
    } else {
        byte_len(s.drop_last()) + char_width(s.last())
    }
}

/// Byte offset at which the character with index `k` of `s` starts.
pub open spec fn byte_offset(s: Seq<char>, k: int) -> nat {
    byte_len(s.take(k))
}

/// `b` is the byte offset of the start of some character of `s`, or of its end.
pub open spec fn is_boundary(s: Seq<char>, b: int) -> bool {
    exists|k: int| 0 <= k <= s.len() && byte_offset(s, k) == b
}

/// Index of the character of `s` that starts at byte offset `b`, where `b`
/// is a boundary of `s`.
pub open spec fn char_index_at(s: Seq<char>, b: int) -> int {
    choose|k: int| 0 <= k <= s.len() && byte_offset(s, k) == b
}

/// The offsets of successive characters grow by the width of the character passed.
pub proof fn lemma_byte_offset_step(s: Seq<char>, k: int)
    requires
        0 <= k < s.len(),
    ensures
        byte_offset(s, k + 1) == byte_offset(s, k) + char_width(s[k]),
        1 <= char_width(s[k]) <= 4,
{
    assert(s.take(k + 1).drop_last() =~= s.take(k));
}

/// Byte offsets grow strictly with the character index.
pub proof fn lemma_byte_offset_monotonic(s: Seq<char>, j: int, k: int)
    requires
        0 <= j <= k <= s.len(),
    ensures
        byte_offset(s, j) <= byte_offset(s, k),
        j < k ==> byte_offset(s, j) + k - j <= byte_offset(s, k),
        byte_offset(s, k) <= byte_offset(s, j) + 4 * (k - j),
    decreases k - j,
{
    if j < k {
        lemma_byte_offset_monotonic(s, j, k - 1);
        lemma_byte_offset_step(s, k - 1);
    }
}

/// A character index is determined by its byte offset.
pub proof fn lemma_byte_offset_injective(s: Seq<char>, j: int, k: int)
    requires
        0 <= j <= s.len(),
        0 <= k <= s.len(),
        byte_offset(s, j) == byte_offset(s, k),
    ensures
        j == k,
{
    if j < k {
        lemma_byte_offset_monotonic(s, j, k);
    } else if k < j {
        lemma_byte_offset_monotonic(s, k, j);
    }
}

/// The offsets of a prefix are the same in the whole text.
pub proof fn lemma_byte_offset_prefix(s: Seq<char>, t: Seq<char>, k: int)
    requires
        0 <= k <= s.len(),
        k <= t.len(),
        s.take(k) =~= t.take(k),
    ensures
        byte_offset(s, k) == byte_offset(t, k),
{
}

/// Number of bytes that `c` takes in UTF-8.
pub fn char_len(c: char) -> (r: usize)
    ensures
        r == char_width(c),
        1 <= r <= 4,
{
    let v = c as u32;
    if v < 0x80 {
        1
    } else if v < 0x800 {
        2
    } else if v < 0x10000 {
        3
    } else {
        4
    }
}

/// Byte offset of the character with index `k` of `s`.
pub fn offset_of(s: &Vec<char>, k: usize) -> (r: usize)
    requires
        k <= s@.len(),
        byte_offset(s@, k as int) <= usize::MAX,
    ensures
        r == byte_offset(s@, k as int),
{
    let mut i: usize = 0;
    let mut acc: usize = 0;
    while i < k
        invariant
            i <= k <= s@.len(),
            acc == byte_offset(s@, i as int),
            byte_offset(s@, k as int) <= usize::MAX,
        decreases k - i,
    {
        proof {
            lemma_byte_offset_step(s@, i as int);
            lemma_byte_offset_monotonic(s@, i as int + 1, k as int);
        }
        acc = acc + char_len(s[i]);
        i = i + 1;
    }
    acc
}

/// Index of the character of `s` that starts at byte offset `b`.
pub fn index_of(s: &Vec<char>, b: usize) -> (r: usize)
    requires
        is_boundary(s@, b as int),
    ensures
        r <= s@.len(),
        byte_offset(s@, r as int) == b,
{
    let ghost k = choose|k: int| 0 <= k <= s@.len() && byte_offset(s@, k) == b;
    let n: usize = s.len();
    let mut i: usize = 0;
    let mut acc: usize = 0;
    while acc < b
        invariant
            0 <= k <= s@.len(),
            n == s@.len(),
            byte_offset(s@, k) == b,
            i <= k,
            acc == byte_offset(s@, i as int),
        decreases k - i,
    {
        proof {
            if i == k {
                assert(false);
            }
            lemma_byte_offset_step(s@, i as int);
            lemma_byte_offset_monotonic(s@, i as int + 1, k);
        }
        acc = acc + char_len(s[i]);
        i = i + 1;
    }
    proof {
        lemma_byte_offset_monotonic(s@, i as int, k);
        if i < k {
            assert(false);
        }
    }
    i
}

/// The characters of `s`, in order.
pub fn chars_of(s: &str) -> (r: Vec<char>)
    ensures
        r@ == s@,
{
    broadcast use axiom_spec_iter, next_postcondition;

    let mut it = s.chars();
    let mut out: Vec<char> = Vec::new();
    loop
        invariant
            out@ + it.remaining() == s@,
            it.obeys_prophetic_iter_laws(),
            it.decrease() is Some,
        decreases it.decrease()->0,
    {
        match it.next() {
            Some(c) => {
                proof {
                    assert(out@.push(c) + it.remaining() =~= s@);
                }
                out.push(c);
            },
            None => {
                return out;
            },
        }
    }
}

/// Relies on `String::push`, which appends `c` to the end of `s`.
#[verifier::external_body]
fn push_char(s: &mut String, c: char)
    ensures
        final(s)@ == old(s)@.push(c),
{
    s.push(c)
}

/// The string made of the characters `s`.
pub fn string_of(s: &Vec<char>) -> (r: String)
    ensures
        r@ == s@,
{
    let mut out = String::new();
    let mut i: usize = 0;
    while i < s.len()
        invariant
            i <= s@.len(),
            out@ == s@.take(i as int),
        decreases s@.len() - i,
    {
        push_char(&mut out, s[i]);
        i = i + 1;
        proof {
            assert(out@ =~= s@.take(i as int));
        }
    }
    proof {
        assert(s@.take(i as int) =~= s@);
    }
    out
}

} // verus!
