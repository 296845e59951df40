//! Finding where an embedded tag ends.

use vstd::prelude::*;

verus! {

/// The position after the `%}` that ends a tag, looking from `pos` on. A `"`
/// opens a string, which the next `"` closes; `%}` inside a string does not count.
pub open spec fn tag_end_from(s: Seq<u8>, pos: int, in_string: bool) -> Option<int>
    decreases s.len() - pos,
{
    if pos < 0 || pos >= s.len() {
        None
    } else if s[pos] == 0x22 {
        tag_end_from(s, pos + 1, !in_string)
    } else if !in_string && s[pos] == 0x25 && pos + 1 < s.len() && s[pos + 1] == 0x7d {
        Some(pos + 2)
    } else {
        tag_end_from(s, pos + 1, in_string)
    }
}

/// The position after the tag that begins at `start` with `{%`, if one does.
pub open spec fn tag_end_at(s: Seq<u8>, start: int) -> Option<int> {
    if 0 <= start && start + 1 < s.len() && s[start] == 0x7b && s[start + 1] == 0x25 {
        tag_end_from(s, start + 2, false)
    } else {
        None
    }
}

/// A tag ends after the place where the search for its end began, and inside the text.
pub proof fn lemma_tag_end_bounds(s: Seq<u8>, pos: int, in_string: bool)
    requires
        0 <= pos,
    ensures
        tag_end_from(s, pos, in_string) is Some ==> pos + 2 <= tag_end_from(
            s,
            pos,
            in_string,
        ).unwrap() <= s.len(),
    decreases s.len() - pos,
{
    if pos < s.len() {
        if s[pos] == 0x22 {
            lemma_tag_end_bounds(s, pos + 1, !in_string);
        } else if !in_string && s[pos] == 0x25 && pos + 1 < s.len() && s[pos + 1] == 0x7d {
        } else {
            lemma_tag_end_bounds(s, pos + 1, in_string);
        }
    }
}

/// The position after the tag that begins at `start`, if one does: `{%` stands
/// at `start`, and `%}` follows outside any string.
pub fn scan_tag_end_at(bytes: &[u8], start: usize) -> (end: Option<usize>)
    ensures
        match end {
            Some(found) => tag_end_at(bytes@, start as int) == Some(found as int) && start + 4
                <= found <= bytes@.len(),
            None => tag_end_at(bytes@, start as int) is None,
        },
{
    if start >= bytes.len() || bytes.len() - start < 2 || bytes[start] != 0x7b || bytes[start + 1]
        != 0x25 {
        return None;
    }
    let mut pos = start + 2;
    let mut in_string = false;
    proof {
        lemma_tag_end_bounds(bytes@, pos as int, false);
    }
    while pos < bytes.len()
        invariant
            start + 2 <= pos <= bytes.len(),
            tag_end_at(bytes@, start as int) == tag_end_from(bytes@, pos as int, in_string),
        decreases bytes.len() - pos,
    {
        if bytes[pos] == 0x22 {
            in_string = !in_string;
        } else if !in_string && bytes[pos] == 0x25 && bytes.len() - pos >= 2 && bytes[pos + 1]
            == 0x7d {
            return Some(pos + 2);
        }
        pos += 1;
    }
    None
}

/// The length of the tag that the bytes begin with, if they begin with one.
pub fn scan_markdoc_tag_end(bytes: &[u8]) -> (length: Option<usize>)
    ensures
        match length {
            Some(found) => tag_end_at(bytes@, 0) == Some(found as int) && 4 <= found
                <= bytes@.len(),
            None => tag_end_at(bytes@, 0) is None,
        },
{
    scan_tag_end_at(bytes, 0)
}

} // verus!
