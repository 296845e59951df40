//! Splitting plain text into text and embedded tags.

use crate::scan::{scan_tag_end_at, tag_end_at};
use crate::text::{is_blank, slice, text_between};
use crate::tokenize::{events_model, Token, TokenModel, Events};
use std::ops::Range;
use vstd::prelude::*;
use vstd::string::*;

verus! {

/// The first tag at or after `from`: where it begins and where it ends.
pub open spec fn next_tag(s: Seq<u8>, from: int) -> Option<(int, int)>
    decreases s.len() - from,
{
    if from < 0 || from >= s.len() {
        None
    } else if tag_end_at(s, from) is Some {
        Some((from, tag_end_at(s, from).unwrap()))
    } else {
        next_tag(s, from + 1)
    }
}

/// The position of the last line feed before `pos`, or 0 where there is none.
pub open spec fn last_line_feed(s: Seq<u8>, pos: int) -> int
    decreases pos,
{
    if pos <= 0 || pos > s.len() {
        0
    } else if s[pos - 1] == 0x0a {
        pos - 1
    } else {
        last_line_feed(s, pos - 1)
    }
}

/// The position of the first line feed at or after `pos`, or the end where there is none.
pub open spec fn next_line_feed(s: Seq<u8>, pos: int) -> int
    decreases s.len() - pos,
{
    if pos < 0 || pos >= s.len() {
        s.len() as int
    } else if s[pos] == 0x0a {
        pos
    } else {
        next_line_feed(s, pos + 1)
    }
}

/// Whether the bytes from `from` to `to` are all white space.
pub open spec fn all_blank(s: Seq<u8>, from: int, to: int) -> bool {
    forall|k: int| from <= k < to && 0 <= k < s.len() ==> is_blank(#[trigger] s[k])
}

/// Whether the tag from `start` to `end` stands alone on its line: only
/// white space stands between it and the line feeds around it.
pub open spec fn alone_on_line(s: Seq<u8>, start: int, end: int) -> bool {
    all_blank(s, last_line_feed(s, start), start) && all_blank(s, end, next_line_feed(s, end))
}

/// Where the text before the tag from `start` to `end` ends, when the text
/// begins at `last`: at the tag, or, for a tag alone on its line, at the
/// line feed before it.
pub open spec fn text_end(s: Seq<u8>, last: int, start: int, end: int) -> int {
    if alone_on_line(s, start, end) && last_line_feed(s, start) >= last {
        last_line_feed(s, start)
    } else {
        start
    }
}

/// The events of the text from `last` on: for each tag, the text before it
/// and the tag, and at the end the text that is left. Every tag is marked inline.
pub open spec fn template_from(s: Seq<u8>, last: int) -> Seq<(TokenModel, Range<usize>)>
    decreases s.len() - last,
{
    match next_tag(s, last) {
        Some((start, end)) => {
            let stop = text_end(s, last, start, end);
            let head = seq![
                (
                    TokenModel::Text(text_between(s, last, stop)),
                    Range { start: last as usize, end: stop as usize },
                ),
                (
                    TokenModel::MarkdocTag(text_between(s, start, end), true),
                    Range { start: start as usize, end: end as usize },
                ),
            ];
            if last < end <= s.len() {
                head + template_from(s, end)
            } else {
                head
            }
        },
        None => seq![
            (
                TokenModel::Text(text_between(s, last, s.len() as int)),
                Range { start: last as usize, end: s.len() as usize },
            ),
        ],
    }
}

/// The first tag at or after `from`.
pub(crate) fn find_tag(bytes: &[u8], from: usize) -> (found: Option<(usize, usize)>)
    ensures
        match found {
            Some((start, end)) => next_tag(bytes@, from as int) == Some((start as int, end as int))
                && from <= start && start + 4 <= end <= bytes@.len(),
            None => next_tag(bytes@, from as int) is None,
        },
{
    let mut start = from;
    while start < bytes.len()
        invariant
            from <= start,
            next_tag(bytes@, from as int) == next_tag(bytes@, start as int),
        decreases bytes.len() - start,
    {
        match scan_tag_end_at(bytes, start) {
            Some(end) => {
                return Some((start, end));
            },
            None => {},
        }
        start += 1;
    }
    None
}

/// The position of the last line feed before `pos`, or 0.
fn line_start(bytes: &[u8], pos: usize) -> (start: usize)
    requires
        pos <= bytes@.len(),
    ensures
        start == last_line_feed(bytes@, pos as int),
        start <= pos,
{
    let mut start = pos;
    while start > 0
        invariant
            start <= pos <= bytes@.len(),
            last_line_feed(bytes@, pos as int) == last_line_feed(bytes@, start as int),
        decreases start,
    {
        if bytes[start - 1] == 0x0a {
            return start - 1;
        }
        start -= 1;
    }
    0
}

/// The position of the first line feed at or after `pos`, or the end.
pub(crate) fn line_end(bytes: &[u8], pos: usize) -> (end: usize)
    requires
        pos <= bytes@.len(),
    ensures
        end == next_line_feed(bytes@, pos as int),
        pos <= end <= bytes@.len(),
{
    let mut end = pos;
    while end < bytes.len()
        invariant
            pos <= end <= bytes@.len(),
            next_line_feed(bytes@, pos as int) == next_line_feed(bytes@, end as int),
        decreases bytes.len() - end,
    {
        if bytes[end] == 0x0a {
            return end;
        }
        end += 1;
    }
    end
}

/// Whether the bytes from `from` to `to` are all white space.
fn blank(bytes: &[u8], from: usize, to: usize) -> (found: bool)
    requires
        to <= bytes@.len(),
    ensures
        found == all_blank(bytes@, from as int, to as int),
{
    let mut index = from;
    while index < to
        invariant
            from <= index,
            to <= bytes@.len(),
            all_blank(bytes@, from as int, index as int),
        decreases to - index,
    {
        let byte = bytes[index];
        if !(byte == 0x20 || (0x09 <= byte && byte <= 0x0d)) {
            return false;
        }
        index += 1;
    }
    true
}

/// Splits text into text and embedded tags: for each tag, the text before it
/// and the tag, and at the end the text that is left. A tag that stands alone
/// on its line takes the white space before it on that line out of the text.
/// Every tag is marked inline. Ranges are byte ranges of `content`.
pub fn parse(content: &str) -> (events: Events)
    ensures
        events_model(events@) == template_from(content.spec_bytes(), 0),
{
    let bytes = content.as_bytes();
    let mut events: Events = Vec::new();
    let mut last: usize = 0;
    assert(events_model(events@) =~= Seq::empty());
    loop
        invariant
            bytes@ == content.spec_bytes(),
            last <= bytes@.len(),
            events_model(events@) + template_from(bytes@, last as int) == template_from(
                bytes@,
                0,
            ),
        decreases bytes@.len() - last,
    {
        let ghost before = events_model(events@);
        match find_tag(bytes, last) {
            Some((start, end)) => {
                let begin = line_start(bytes, start);
                let alone = blank(bytes, begin, start) && blank(bytes, end, line_end(bytes, end));
                let stop = if alone && begin >= last {
                    begin
                } else {
                    start
                };
                events.push(
                    (
                        Token::Text(String::from_str(slice(content, last, stop))),
                        Range { start: last, end: stop },
                    ),
                );
                events.push(
                    (
                        Token::MarkdocTag(String::from_str(slice(content, start, end)), true),
                        Range { start, end },
                    ),
                );
                assert(events_model(events@) =~= before + seq![
                    (
                        TokenModel::Text(text_between(bytes@, last as int, stop as int)),
                        Range { start: last, end: stop },
                    ),
                    (
                        TokenModel::MarkdocTag(
                            text_between(bytes@, start as int, end as int),
                            true,
                        ),
                        Range { start, end },
                    ),
                ]);
                last = end;
            },
            None => {
                events.push(
                    (
                        Token::Text(String::from_str(slice(content, last, bytes.len()))),
                        Range { start: last, end: bytes.len() },
                    ),
                );
                assert(events_model(events@) =~= before + template_from(bytes@, last as int));
                return events;
            },
        }
    }
}

} // verus!
