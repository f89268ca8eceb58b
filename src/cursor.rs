//! The editing cursor: a line of text and a position in it.

use vstd::prelude::*;

use crate::text::{
    byte_len, byte_offset, char_width, chars_of, is_boundary, lemma_byte_offset_monotonic,
    lemma_byte_offset_prefix, lemma_byte_offset_step, offset_of, string_of,
};
use crate::words::{
    lemma_char_index_at, next_word_in, next_word_index, next_word_position, prev_word_in,
    prev_word_index, prev_word_position,
};

verus! {

/// Character index after one step right from `k` in `s`: `k + 1`, or `k`
/// at the end.
pub open spec fn step_right(s: Seq<char>, k: int) -> int {
    if k < s.len() {
        k + 1
    } else {
        k
    }
}

/// Character index after one step left from `k`: `k - 1`, or `k` at the start.
pub open spec fn step_left(k: int) -> int {
    if k > 0 {
        k - 1
    } else {
        k
    }
}

/// Text and character index after inserting `c` at index `k` of `s`.
pub open spec fn inserted(s: Seq<char>, k: int, c: char) -> (Seq<char>, int) {
    (s.insert(k, c), k + 1)
}

/// Text and character index after removing the character before index `k`
/// of `s`; unchanged at the start.
pub open spec fn backspaced(s: Seq<char>, k: int) -> (Seq<char>, int) {
    if k > 0 {
        (s.remove(k - 1), k - 1)
    } else {
        (s, k)
    }
}

/// A line of text with a cursor that always sits between two characters.
pub struct Cursor {
    source: Vec<char>,
    /// Number of characters before the cursor.
    pos: usize,
}

/// Removes the characters of `v` with index in `from..to`.
fn remove_range(v: &mut Vec<char>, from: usize, to: usize)
    requires
        from <= to <= old(v)@.len(),
    ensures
        final(v)@ == old(v)@.take(from as int) + old(v)@.skip(to as int),
{
    let mut tail = v.split_off(to);
    v.truncate(from);
    v.append(&mut tail);
    proof {
        assert(final(v)@ =~= old(v)@.take(from as int) + old(v)@.skip(to as int));
    }
}

impl Cursor {
    /// The text held.
    pub closed spec fn text(&self) -> Seq<char> {
        self.source@
    }

    /// Number of characters before the cursor.
    pub closed spec fn chars_before(&self) -> int {
        self.pos as int
    }

    /// Byte offset of the cursor in the UTF-8 encoding of the text.
    pub open spec fn position(&self) -> int {
        byte_offset(self.text(), self.chars_before()) as int
    }

    /// The cursor lies within the text.
    pub open spec fn wf(&self) -> bool {
        0 <= self.chars_before() <= self.text().len()
    }

    /// A cursor at the start of `source`.
    pub fn from(source: String) -> (r: Cursor)
        ensures
            r.wf(),
            r.text() == source@,
            r.chars_before() == 0,
    {
        Cursor { source: chars_of(source.as_str()), pos: 0 }
    }

    /// The whole text.
    pub fn as_str(&self) -> (r: String)
        ensures
            r@ == self.text(),
    {
        string_of(&self.source)
    }

    /// The whole text, giving up the cursor.
    pub fn into_inner(self) -> (r: String)
        ensures
            r@ == self.text(),
    {
        string_of(&self.source)
    }

    /// The text before the cursor.
    pub fn substring(&self) -> (r: String)
        requires
            self.wf(),
        ensures
            r@ == self.text().take(self.chars_before()),
    {
        let mut before = self.source.clone();
        before.truncate(self.pos);
        proof {
            assert(before@ =~= self.text().take(self.chars_before()));
        }
        string_of(&before)
    }

    /// The character just after the cursor, if any.
    pub fn char(&self) -> (r: Option<char>)
        requires
            self.wf(),
        ensures
            self.chars_before() < self.text().len() ==> r == Some(
                self.text()[self.chars_before()],
            ),
            self.chars_before() == self.text().len() ==> r is None,
    {
        if self.pos < self.source.len() {
            Some(self.source[self.pos])
        } else {
            None
        }
    }

    /// Byte offset of the cursor.
    pub fn index(&self) -> (r: usize)
        requires
            self.wf(),
            self.position() <= usize::MAX,
        ensures
            r == self.position(),
    {
        offset_of(&self.source, self.pos)
    }

    /// Moves past the character after the cursor; does nothing at the end.
    pub fn right(&mut self)
        requires
            old(self).wf(),
        ensures
            final(self).wf(),
            final(self).text() == old(self).text(),
            final(self).chars_before() == step_right(old(self).text(), old(self).chars_before()),
            old(self).chars_before() < old(self).text().len() ==> final(self).position()
                == old(self).position() + char_width(old(self).text()[old(self).chars_before()]),
    {
        if self.pos < self.source.len() {
            proof {
                lemma_byte_offset_step(self.source@, self.pos as int);
            }
            self.pos = self.pos + 1;
        }
    }

    /// Moves before the character before the cursor and says whether it
    /// moved; does nothing at the start.
    pub fn left(&mut self) -> (r: bool)
        requires
            old(self).wf(),
        ensures
            final(self).wf(),
            final(self).text() == old(self).text(),
            r == (old(self).chars_before() > 0),
            final(self).chars_before() == step_left(old(self).chars_before()),
            r ==> final(self).position() + char_width(old(self).text()[final(self).chars_before()])
                == old(self).position(),
    {
        if self.pos > 0 {
            proof {
                lemma_byte_offset_step(self.source@, self.pos - 1);
            }
            self.pos = self.pos - 1;
            true
        } else {
            false
        }
    }

    /// Moves to the start of the next word.
    pub fn next_word(&mut self)
        requires
            old(self).wf(),
        ensures
            final(self).wf(),
            final(self).text() == old(self).text(),
            final(self).chars_before() == next_word_index(
                old(self).text(),
                old(self).chars_before(),
            ),
            final(self).position() == next_word_position(old(self).text(), old(self).position()),
    {
        proof {
            lemma_char_index_at(self.source@, self.pos as int);
        }
        self.pos = next_word_in(&self.source, self.pos);
    }

    /// Moves to the start of the word before the cursor.
    pub fn prev_word(&mut self)
        requires
            old(self).wf(),
        ensures
            final(self).wf(),
            final(self).text() == old(self).text(),
            final(self).chars_before() == prev_word_index(
                old(self).text(),
                old(self).chars_before(),
            ),
            final(self).position() == prev_word_position(old(self).text(), old(self).position()),
    {
        proof {
            lemma_char_index_at(self.source@, self.pos as int);
        }
        self.pos = prev_word_in(&self.source, self.pos);
    }

    /// Inserts `c` at the cursor and moves past it.
    pub fn insert(&mut self, c: char)
        requires
            old(self).wf(),
        ensures
            final(self).wf(),
            (final(self).text(), final(self).chars_before()) == inserted(
                old(self).text(),
                old(self).chars_before(),
                c,
            ),
            final(self).position() == old(self).position() + char_width(c),
    {
        let ghost before = self.source@;
        self.source.insert(self.pos, c);
        proof {
            lemma_byte_offset_prefix(before, self.source@, self.pos as int);
            lemma_byte_offset_step(self.source@, self.pos as int);
        }
        // The new length bounds the step past `c`.
        let len = self.source.len();
        proof {
            assert(self.pos < len);
        }
        self.pos = self.pos + 1;
    }

    /// Removes and returns the character after the cursor, if any.
    pub fn remove(&mut self) -> (r: Option<char>)
        requires
            old(self).wf(),
        ensures
            final(self).wf(),
            final(self).chars_before() == old(self).chars_before(),
            old(self).chars_before() < old(self).text().len() ==> r == Some(
                old(self).text()[old(self).chars_before()],
            ) && final(self).text() == old(self).text().remove(old(self).chars_before()),
            old(self).chars_before() == old(self).text().len() ==> r is None && final(self).text()
                == old(self).text(),
    {
        if self.pos < self.source.len() {
            Some(self.source.remove(self.pos))
        } else {
            None
        }
    }

    /// Removes the text from the cursor to the start of the next word.
    pub fn remove_next_word(&mut self)
        requires
            old(self).wf(),
        ensures
            final(self).wf(),
            final(self).chars_before() == old(self).chars_before(),
            final(self).text() == old(self).text().take(old(self).chars_before()) + old(
                self,
            ).text().skip(next_word_index(old(self).text(), old(self).chars_before())),
    {
        let next = next_word_in(&self.source, self.pos);
        remove_range(&mut self.source, self.pos, next);
    }

    /// Removes the text from the start of the word before the cursor up to
    /// the cursor, and moves there.
    pub fn remove_prev_word(&mut self)
        requires
            old(self).wf(),
        ensures
            final(self).wf(),
            final(self).chars_before() == prev_word_index(
                old(self).text(),
                old(self).chars_before(),
            ),
            final(self).text() == old(self).text().take(final(self).chars_before()) + old(
                self,
            ).text().skip(old(self).chars_before()),
    {
        let prev = prev_word_in(&self.source, self.pos);
        remove_range(&mut self.source, prev, self.pos);
        self.pos = prev;
    }

    /// Removes and returns the character before the cursor, if any.
    pub fn back(&mut self) -> (r: Option<char>)
        requires
            old(self).wf(),
        ensures
            final(self).wf(),
            (final(self).text(), final(self).chars_before()) == backspaced(
                old(self).text(),
                old(self).chars_before(),
            ),
            old(self).chars_before() > 0 ==> r == Some(
                old(self).text()[old(self).chars_before() - 1],
            ),
            old(self).chars_before() == 0 ==> r is None,
    {
        if self.left() {
            self.remove()
        } else {
            None
        }
    }

    /// Empties the text.
    pub fn clear(&mut self)
        ensures
            final(self).wf(),
            final(self).text() == Seq::<char>::empty(),
            final(self).chars_before() == 0,
    {
        self.source.clear();
        self.pos = 0;
    }

    /// Moves to the end of the text.
    pub fn end(&mut self)
        ensures
            final(self).wf(),
            final(self).text() == old(self).text(),
            final(self).chars_before() == old(self).text().len(),
    {
        self.pos = self.source.len();
    }

    /// Moves to the start of the text.
    pub fn start(&mut self)
        ensures
            final(self).wf(),
            final(self).text() == old(self).text(),
            final(self).chars_before() == 0,
    {
        self.pos = 0;
    }
}

/// The cursor always lies on a character boundary of its text, between its
/// start and its end.
pub proof fn lemma_position_on_boundary(c: Cursor)
    requires
        c.wf(),
    ensures
        0 <= c.position() <= byte_len(c.text()),
        is_boundary(c.text(), c.position()),
{
    lemma_byte_offset_monotonic(c.text(), c.chars_before(), c.text().len() as int);
    assert(c.text().take(c.text().len() as int) =~= c.text());
}

/// A step right from anywhere but the end, followed by a step left, comes
/// back to the same place.
pub proof fn lemma_right_then_left(s: Seq<char>, k: int)
    requires
        0 <= k < s.len(),
    ensures
        step_left(step_right(s, k)) == k,
{
}

/// Inserting a character and then removing the character before the cursor
/// gives back the text and the cursor as they were.
pub proof fn lemma_insert_then_back(s: Seq<char>, k: int, c: char)
    requires
        0 <= k <= s.len(),
    ensures
        backspaced(inserted(s, k, c).0, inserted(s, k, c).1) == (s, k),
        inserted(s, k, c).0[inserted(s, k, c).1 - 1] == c,
{
    assert(s.insert(k, c).remove(k) =~= s);
}

/// At the end a step right stays at the end, and at the start a step left
/// stays at the start, however often it is taken.
pub proof fn lemma_steps_stop_at_ends(s: Seq<char>)
    ensures
        step_right(s, s.len() as int) == s.len(),
        step_left(0) == 0,
{
}

} // verus!
