//! Byte-level helpers on UTF-8 text: slicing by byte range, searching, trimming.

use vstd::prelude::*;
use vstd::string::*;
use vstd::utf8::*;

verus! {

/// The text that the byte range `start..end` of a UTF-8 buffer holds. A range
/// that is out of bounds, reversed, or that cuts a character holds no text.
#[verifier::opaque]
pub open spec fn text_between(bytes: Seq<u8>, start: int, end: int) -> Seq<char> {
    if sliceable(bytes, start, end) {
        decode_utf8(bytes.subrange(start, end))
    } else {
        Seq::empty()
    }
}

/// Whether `start..end` is a range of whole characters inside the buffer.
pub open spec fn sliceable(bytes: Seq<u8>, start: int, end: int) -> bool {
    &&& 0 <= start <= end <= bytes.len()
    &&& is_char_boundary(bytes, start)
    &&& is_char_boundary(bytes, end)
}

/// A position just before or just after an ASCII byte never cuts a character.
pub proof fn lemma_ascii_is_boundary(bytes: Seq<u8>, i: int)
    requires
        valid_utf8(bytes),
        0 <= i < bytes.len(),
        bytes[i] < 0x80,
    ensures
        is_char_boundary(bytes, i),
        is_char_boundary(bytes, i + 1),
{
    is_char_boundary_iff_not_is_continuation_byte(bytes, i);
    if i + 1 == bytes.len() {
        is_char_boundary_start_end_of_seq(bytes);
    } else {
        valid_utf8_split(bytes, i);
        let suffix = bytes.subrange(i, bytes.len() as int);
        assert(suffix[0] == bytes[i]);
        assert(valid_utf8(suffix));
        assert(length_of_first_scalar(suffix) == 1);
        let rest = pop_first_scalar(suffix);
        assert(valid_utf8(rest));
        assert(rest.len() > 0);
        assert(rest[0] == bytes[i + 1]);
        assert(valid_first_scalar(rest));
        assert(!is_continuation_byte(bytes[i + 1]));
        is_char_boundary_iff_not_is_continuation_byte(bytes, i + 1);
    }
}

/// The part of `input` in the byte range `start..end`; empty where the range
/// is not one of whole characters inside `input`.
pub fn slice(input: &str, start: usize, end: usize) -> (part: &str)
    ensures
        part@ == text_between(input.spec_bytes(), start as int, end as int),
        sliceable(input.spec_bytes(), start as int, end as int) ==> part.spec_bytes()
            == input.spec_bytes().subrange(start as int, end as int),
{
    broadcast use encode_utf8_decode_utf8, encode_utf8_valid_utf8;
    reveal(text_between);
    let length = input.as_bytes().len();
    if start <= end && end <= length && input.is_char_boundary(start)
        && input.is_char_boundary(end) {
        let (head, _) = input.split_at(end);
        proof {
            let bytes = input.spec_bytes();
            let front = bytes.subrange(0, end as int);
            assert(head.spec_bytes() == front);
            if start < end {
                is_char_boundary_iff_not_is_continuation_byte(bytes, start as int);
                assert(front[start as int] == bytes[start as int]);
                is_char_boundary_iff_not_is_continuation_byte(front, start as int);
            } else {
                is_char_boundary_start_end_of_seq(front);
            }
        }
        let (_, part) = head.split_at(start);
        proof {
            let bytes = input.spec_bytes();
            assert(part.spec_bytes() =~= bytes.subrange(start as int, end as int));
        }
        part
    } else {
        let part = "";
        proof {
            reveal_strlit("");
            assert(part@ =~= Seq::<char>::empty());
            if sliceable(input.spec_bytes(), start as int, end as int) {
                assert(false);
            }
        }
        part
    }
}

/// Whether two texts hold the same characters.
pub fn same_text(left: &str, right: &str) -> (same: bool)
    ensures
        same == (left@ == right@),
{
    broadcast use encode_utf8_decode_utf8;
    let a = left.as_bytes();
    let b = right.as_bytes();
    if a.len() != b.len() {
        return false;
    }
    let mut index: usize = 0;
    while index < a.len()
        invariant
            index <= a.len(),
            a.len() == b.len(),
            a@ == left.spec_bytes(),
            b@ == right.spec_bytes(),
            forall|k: int| 0 <= k < index ==> a@[k] == b@[k],
        decreases a.len() - index,
    {
        if a[index] != b[index] {
            assert(left.spec_bytes()[index as int] != right.spec_bytes()[index as int]);
            return false;
        }
        index += 1;
    }
    assert(a@ =~= b@);
    proof {
        encode_utf8_decode_utf8(left@);
        encode_utf8_decode_utf8(right@);
    }
    true
}

/// Whether a byte is ASCII white space.
pub open spec fn is_blank(byte: u8) -> bool {
    byte == 0x20 || (0x09 <= byte <= 0x0d)
}

/// The first place at or after `from` and before `to` that holds no white space, or `to`.
pub open spec fn trim_start(s: Seq<u8>, from: int, to: int) -> int
    decreases to - from,
{
    if 0 <= from < to <= s.len() && is_blank(s[from]) {
        trim_start(s, from + 1, to)
    } else {
        from
    }
}

/// The place after the last byte before `to` and not before `from` that is no white space, or `from`.
pub open spec fn trim_end(s: Seq<u8>, from: int, to: int) -> int
    decreases to - from,
{
    if 0 <= from < to <= s.len() && is_blank(s[to - 1]) {
        trim_end(s, from, to - 1)
    } else {
        to
    }
}

/// The text from `from` to `to` without the ASCII white space at its ends.
pub open spec fn trimmed(s: Seq<u8>, from: int, to: int) -> Seq<char> {
    text_between(s, trim_start(s, from, to), trim_end(s, trim_start(s, from, to), to))
}

/// The part of `input` from `from` to `to` without the ASCII white space at its ends.
pub fn trim(input: &str, from: usize, to: usize) -> (part: &str)
    ensures
        part@ == trimmed(input.spec_bytes(), from as int, to as int),
{
    let bytes = input.as_bytes();
    if !(from <= to && to <= bytes.len()) {
        return slice(input, from, to);
    }
    let mut start = from;
    while start < to && (bytes[start] == 0x20 || (0x09 <= bytes[start] && bytes[start] <= 0x0d))
        invariant
            bytes@ == input.spec_bytes(),
            from <= start <= to <= bytes@.len(),
            trim_start(bytes@, from as int, to as int) == trim_start(
                bytes@,
                start as int,
                to as int,
            ),
        decreases to - start,
    {
        start += 1;
    }
    let mut end = to;
    while start < end && (bytes[end - 1] == 0x20 || (0x09 <= bytes[end - 1] && bytes[end - 1]
        <= 0x0d))
        invariant
            bytes@ == input.spec_bytes(),
            start <= end <= to <= bytes@.len(),
            trim_end(bytes@, start as int, to as int) == trim_end(bytes@, start as int, end as int),
        decreases end - start,
    {
        end -= 1;
    }
    slice(input, start, end)
}

/// Whether `---` stands at `pos`.
pub open spec fn dashes_at(s: Seq<u8>, pos: int) -> bool {
    0 <= pos && pos + 3 <= s.len() && s[pos] == 0x2d && s[pos + 1] == 0x2d && s[pos + 2] == 0x2d
}

/// The first place at or after `from` where `---` stands, or the length.
pub open spec fn next_dashes(s: Seq<u8>, from: int) -> int
    decreases s.len() - from,
{
    if from < 0 || from + 3 > s.len() {
        s.len() as int
    } else if dashes_at(s, from) {
        from
    } else {
        next_dashes(s, from + 1)
    }
}

/// Where the `---` that ends the front matter stands: the text begins with
/// `---`, and this is the next one.
pub open spec fn frontmatter_end(s: Seq<u8>) -> Option<int> {
    if dashes_at(s, 0) && next_dashes(s, 3) < s.len() {
        Some(next_dashes(s, 3))
    } else {
        None
    }
}

/// `next_dashes` gives a place where `---` stands, or the length.
pub proof fn lemma_next_dashes(s: Seq<u8>, from: int)
    requires
        0 <= from,
    ensures
        next_dashes(s, from) < s.len() ==> from <= next_dashes(s, from) && dashes_at(
            s,
            next_dashes(s, from),
        ),
    decreases s.len() - from,
{
    if from + 3 <= s.len() && !dashes_at(s, from) {
        lemma_next_dashes(s, from + 1);
    }
}

/// The place of the first `---` at or after `from`, or the length.
pub fn find_dashes(bytes: &[u8], from: usize) -> (place: usize)
    ensures
        place == next_dashes(bytes@, from as int),
        place <= bytes@.len(),
{
    let mut place = from;
    while place <= bytes.len() && bytes.len() - place >= 3
        invariant
            from <= place,
            next_dashes(bytes@, from as int) == next_dashes(bytes@, place as int),
        decreases bytes@.len() - place,
    {
        if bytes[place] == 0x2d && bytes[place + 1] == 0x2d && bytes[place + 2] == 0x2d {
            return place;
        }
        place += 1;
    }
    bytes.len()
}

/// The bytes of a document with front matter: `---`, a line feed, the
/// front matter, a line feed, `---`, and the rest.
pub open spec fn with_frontmatter(frontmatter: Seq<u8>, rest: Seq<u8>) -> Seq<u8> {
    seq![0x2du8, 0x2d, 0x2d, 0x0a] + frontmatter + seq![0x0au8, 0x2d, 0x2d, 0x2d] + rest
}

/// Where no `---` stands in `frontmatter`, none stands in the document before the one that ends it.
proof fn lemma_no_dashes_before(frontmatter: Seq<u8>, rest: Seq<u8>, from: int)
    requires
        forall|i: int| !dashes_at(frontmatter, i),
        3 <= from <= (frontmatter.len() as int + 5),
    ensures
        next_dashes(with_frontmatter(frontmatter, rest), from) == (frontmatter.len() as int + 5),
    decreases frontmatter.len() as int + 5 - from,
{
    let s = with_frontmatter(frontmatter, rest);
    let end = (frontmatter.len() as int + 5);
    assert(s[end] == 0x2d && s[end + 1] == 0x2d && s[end + 2] == 0x2d);
    assert(s[3] == 0x0a);
    assert(s[end - 1] == 0x0a);
    if from < end {
        if dashes_at(s, from) {
            assert(from >= 4 && from + 2 < end - 1);
            assert(s[from] == frontmatter[from - 4]);
            assert(s[from + 1] == frontmatter[from - 3]);
            assert(s[from + 2] == frontmatter[from - 2]);
            assert(dashes_at(frontmatter, from - 4));
        }
        lemma_no_dashes_before(frontmatter, rest, from + 1);
    }
}

/// Trimming the front matter and the line feeds around it gives what trimming the front matter gives.
proof fn lemma_trim_start_inside(s: Seq<u8>, part: Seq<u8>, shift: int, from: int, to: int)
    requires
        0 <= from <= to <= part.len(),
        shift >= 0,
        shift + part.len() as int <= s.len(),
        forall|i: int| 0 <= i < part.len() ==> s[shift + i] == part[i],
    ensures
        trim_start(s, shift + from, shift + to) == shift + trim_start(part, from, to),
    decreases to - from,
{
    if from < to && is_blank(part[from]) {
        lemma_trim_start_inside(s, part, shift, from + 1, to);
    }
}

/// The same for the end.
proof fn lemma_trim_end_inside(s: Seq<u8>, part: Seq<u8>, shift: int, from: int, to: int)
    requires
        0 <= from <= to <= part.len(),
        shift >= 0,
        shift + part.len() as int <= s.len(),
        forall|i: int| 0 <= i < part.len() ==> s[shift + i] == part[i],
    ensures
        trim_end(s, shift + from, shift + to) == shift + trim_end(part, from, to),
    decreases to - from,
{
    if from < to && is_blank(part[to - 1]) {
        lemma_trim_end_inside(s, part, shift, from, to - 1);
    }
}

/// What a part of a text is trimmed to is what the part alone is trimmed to.
proof fn lemma_trimmed_inside(s: Seq<u8>, part: Seq<u8>, shift: int)
    requires
        shift >= 0,
        shift + part.len() as int <= s.len(),
        forall|i: int| 0 <= i < part.len() ==> s[shift + i] == part[i],
    ensures
        trim_start(s, shift, shift + part.len() as int) == shift + trim_start(part, 0, part.len() as int),
        trim_end(s, trim_start(s, shift, shift + part.len() as int), shift + part.len() as int) == shift
            + trim_end(part, trim_start(part, 0, part.len() as int), part.len() as int),
        s.subrange(
            trim_start(s, shift, shift + part.len() as int),
            trim_end(s, trim_start(s, shift, shift + part.len() as int), shift + part.len() as int),
        ) == part.subrange(
            trim_start(part, 0, part.len() as int),
            trim_end(part, trim_start(part, 0, part.len() as int), part.len() as int),
        ),
{
    let count = part.len() as int;
    lemma_trim_start_inside(s, part, shift, 0, count);
    lemma_trim_range(part, 0, count);
    let first = trim_start(part, 0, count);
    lemma_trim_end_inside(s, part, shift, first, count);
    lemma_trim_range(part, first, count);
    assert(s.subrange(shift + first, shift + trim_end(part, first, count)) =~= part.subrange(
        first,
        trim_end(part, first, count),
    ));
}

/// What a text between two line feeds is trimmed to, with them, is what the text is trimmed to.
proof fn lemma_trimmed_between(part: Seq<u8>)
    ensures
        (seq![0x0au8] + part + seq![0x0au8]).subrange(
            trim_start(seq![0x0au8] + part + seq![0x0au8], 0, part.len() as int + 2),
            trim_end(
                seq![0x0au8] + part + seq![0x0au8],
                trim_start(seq![0x0au8] + part + seq![0x0au8], 0, part.len() as int + 2),
                part.len() as int + 2,
            ),
        ) == part.subrange(
            trim_start(part, 0, part.len() as int),
            trim_end(part, trim_start(part, 0, part.len() as int), part.len() as int),
        ),
{
    let between = seq![0x0au8] + part + seq![0x0au8];
    let count = part.len() as int;
    let inner = trim_start(part, 0, count);
    assert forall|i: int| 0 <= i < count implies between[1 + i] == part[i] by {}
    lemma_trim_start_inside(between, part, 1, 0, count);
    lemma_trim_range(part, 0, count);
    assert(is_blank(between[0]));
    assert(trim_start(between, 0, count + 2) == trim_start(between, 1, count + 2));
    assert(is_blank(between[count + 1]));
    if inner < count {
        lemma_trim_start_stops(between, 1, count + 1, count + 2);
        let first = 1 + inner;
        assert(trim_end(between, first, count + 2) == trim_end(between, first, count + 1));
        lemma_trim_end_inside(between, part, 1, inner, count);
        lemma_trim_range(part, inner, count);
        assert(between.subrange(first, 1 + trim_end(part, inner, count)) =~= part.subrange(
            inner,
            trim_end(part, inner, count),
        ));
    } else {
        lemma_trim_start_blank(between, 1, count + 1, count + 2);
        assert(trim_start(between, count + 2, count + 2) == count + 2);
        assert(trim_start(between, count + 1, count + 2) == count + 2);
        assert(trim_end(between, count + 2, count + 2) == count + 2);
        assert(trim_end(part, count, count) == count);
        assert(between.subrange(count + 2, count + 2) =~= part.subrange(count, count));
    }
}

/// Front matter that is put before a text comes out of it again. For a
/// document made of `---`, a line feed, front matter that holds no `---`, a
/// line feed, `---` and a rest: the front matter ends at the second `---`;
/// what stands between the two is the front matter with its line feeds, and
/// what it is trimmed to is what the front matter is trimmed to; what stands
/// after the second is the rest.
pub proof fn lemma_frontmatter_round_trip(frontmatter: Seq<u8>, rest: Seq<u8>)
    requires
        forall|i: int| !dashes_at(frontmatter, i),
    ensures
        frontmatter_end(with_frontmatter(frontmatter, rest)) == Some(
            (frontmatter.len() as int + 5),
        ),
        with_frontmatter(frontmatter, rest).subrange(3, (frontmatter.len() as int + 5)) == seq![
            0x0au8,
        ] + frontmatter + seq![0x0au8],
        with_frontmatter(frontmatter, rest).subrange(
            (frontmatter.len() as int + 8),
            with_frontmatter(frontmatter, rest).len() as int,
        ) == rest,
        with_frontmatter(frontmatter, rest).subrange(
            trim_start(with_frontmatter(frontmatter, rest), 3, (frontmatter.len() as int + 5)),
            trim_end(
                with_frontmatter(frontmatter, rest),
                trim_start(with_frontmatter(frontmatter, rest), 3, (frontmatter.len() as int + 5)),
                (frontmatter.len() as int + 5),
            ),
        ) == frontmatter.subrange(
            trim_start(frontmatter, 0, frontmatter.len() as int),
            trim_end(
                frontmatter,
                trim_start(frontmatter, 0, frontmatter.len() as int),
                frontmatter.len() as int,
            ),
        ),
{
    let s = with_frontmatter(frontmatter, rest);
    let end = frontmatter.len() as int + 5;
    lemma_no_dashes_before(frontmatter, rest, 3);
    assert(dashes_at(s, 0));
    let between = seq![0x0au8] + frontmatter + seq![0x0au8];
    assert(s.subrange(3, end) =~= between);
    assert(s.subrange(end + 3, s.len() as int) =~= rest);
    assert forall|i: int| 0 <= i < between.len() implies s[3 + i] == between[i] by {}
    lemma_trimmed_inside(s, between, 3);
    lemma_trimmed_between(frontmatter);
}

/// The trimmed range lies in the range that is trimmed.
proof fn lemma_trim_range(s: Seq<u8>, from: int, to: int)
    requires
        0 <= from <= to <= s.len(),
    ensures
        from <= trim_start(s, from, to) <= to,
        from <= trim_end(s, from, to) <= to,
        trim_start(s, from, to) < to ==> !is_blank(s[trim_start(s, from, to)]),
    decreases to - from,
{
    if from < to && is_blank(s[from]) {
        lemma_trim_start_bounds(s, from + 1, to);
    }
    if from < to && is_blank(s[to - 1]) {
        lemma_trim_range(s, from, to - 1);
    }
    lemma_trim_start_bounds(s, from, to);
}

/// Trimming at the start stays below the end and stops at what is no white space.
proof fn lemma_trim_start_bounds(s: Seq<u8>, from: int, to: int)
    requires
        0 <= from <= to <= s.len(),
    ensures
        from <= trim_start(s, from, to) <= to,
        trim_start(s, from, to) < to ==> !is_blank(s[trim_start(s, from, to)]),
    decreases to - from,
{
    if from < to && is_blank(s[from]) {
        lemma_trim_start_bounds(s, from + 1, to);
    }
}

/// Trimming at the start stops before `middle` where it stops there for the shorter range.
proof fn lemma_trim_start_stops(s: Seq<u8>, from: int, middle: int, to: int)
    requires
        0 <= from <= middle <= to <= s.len(),
        trim_start(s, from, middle) < middle,
    ensures
        trim_start(s, from, to) == trim_start(s, from, middle),
    decreases middle - from,
{
    if from < middle && is_blank(s[from]) {
        lemma_trim_start_stops(s, from + 1, middle, to);
    }
}

/// Trimming at the start goes on after `middle` where all is white space before it.
proof fn lemma_trim_start_blank(s: Seq<u8>, from: int, middle: int, to: int)
    requires
        0 <= from <= middle <= to <= s.len(),
        trim_start(s, from, middle) == middle,
    ensures
        trim_start(s, from, to) == trim_start(s, middle, to),
    decreases middle - from,
{
    if from < middle {
        lemma_trim_start_blank(s, from + 1, middle, to);
    }
}

} // verus!
