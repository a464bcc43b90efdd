//! Text as sequences of characters.

use vstd::prelude::*;

verus! {

/// The lower-case form of a text, as the standard library computes it.
pub uninterp spec fn lowercase_of(text: Seq<char>) -> Seq<char>;

/// Calls `str::to_lowercase`. The standard library defines the result by the
/// Unicode lower-case mapping of the whole text; it depends on nothing but the
/// text, and `lowercase_of` is the name for it.
#[verifier::external_body]
pub(crate) fn to_lowercase(text: &str) -> (r: String)
    ensures
        r@ == lowercase_of(text@),
{
    text.to_lowercase()
}

/// The characters of `text`, in order.
pub fn chars_of(text: &str) -> (r: Vec<char>)
    ensures
        r@ == text@,
{
    let mut out: Vec<char> = Vec::new();
    for c in it: text.chars()
        invariant
            it.seq() == text@,
            out@ == text@.take(it.index() as int),
    {
        out.push(c);
    }
    out
}

/// Whether `chars` spells exactly `word`.
pub fn spells(chars: &[char], word: &str) -> (r: bool)
    ensures
        r == (chars@ == word@),
{
    let mut seen: usize = 0;
    for c in it: word.chars()
        invariant
            it.seq() == word@,
            seen == it.index(),
            seen <= chars@.len(),
            chars@.take(seen as int) == word@.take(seen as int),
    {
        if seen < chars.len() && chars[seen] == c {
            assert(chars@.take(seen + 1) == chars@.take(seen as int).push(chars@[seen as int]));
            assert(word@.take(seen + 1) == word@.take(seen as int).push(word@[seen as int]));
            seen += 1;
        } else {
            assert(chars@ == word@ ==> chars@[seen as int] == word@[seen as int]);
            return false;
        }
    }
    assert(word@.take(seen as int) == word@);
    assert(chars@ == word@ ==> chars@.take(seen as int) == chars@);
    assert(seen == chars@.len() ==> chars@.take(seen as int) == chars@);
    seen == chars.len()
}

/// A line without its ending: a line feed at the end is dropped, and with it
/// a carriage return that stands before it. Nothing else is touched.
pub open spec fn without_line_ending(line: Seq<char>) -> Seq<char> {
    if line.len() > 0 && line.last() == '\n' {
        let rest = line.drop_last();
        if rest.len() > 0 && rest.last() == '\r' {
            rest.drop_last()
        } else {
            rest
        }
    } else {
        line
    }
}

/// Drops the line ending from a line as it was read.
pub fn strip_line_ending(line: &str) -> (r: &str)
    ensures
        r@ == without_line_ending(line@),
{
    let n = line.unicode_len();
    if n > 0 && line.get_char(n - 1) == '\n' {
        if n > 1 && line.get_char(n - 2) == '\r' {
            assert(line@.subrange(0, n - 2) == line@.drop_last().drop_last());
            line.substring_char(0, n - 2)
        } else {
            assert(line@.subrange(0, n - 1) == line@.drop_last());
            line.substring_char(0, n - 1)
        }
    } else {
        assert(line@.subrange(0, n as int) == line@);
        line.substring_char(0, n)
    }
}

} // verus!
