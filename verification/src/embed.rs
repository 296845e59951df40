//! Embedded tags among the events of a Markdown document.
//!
//! The Markdown tokenizer knows nothing of `{% ... %}`: it reports tags as
//! text. Here the tags are cut out of the text events, and the tags that
//! stand for blocks are moved out of the paragraphs that hold them.

use crate::tag::{tag_of, Tag, TagModel};
use crate::template::{find_tag, next_tag};
use crate::text::{slice, text_between};
use crate::tokenize::{
    events_model, CodeBlockKind, EventTag, EventTagModel, Events, Token, TokenModel,
};
use std::ops::Range;
use vstd::prelude::*;
use vstd::string::*;
use vstd::utf8::encode_utf8;

verus! {

/// The text event for the source from `from` to `to`.
pub open spec fn text_piece(s: Seq<u8>, from: int, to: int) -> (TokenModel, Range<usize>) {
    (TokenModel::Text(text_between(s, from, to)), Range { start: from as usize, end: to as usize })
}

/// The inline tag event for the source from `from` to `to`.
pub open spec fn tag_piece(s: Seq<u8>, from: int, to: int) -> (TokenModel, Range<usize>) {
    (
        TokenModel::MarkdocTag(text_between(s, from, to), true),
        Range { start: from as usize, end: to as usize },
    )
}

/// Whether a tag begins at or after `from` and before `to`.
pub open spec fn has_tag(s: Seq<u8>, from: int, to: int) -> bool {
    match next_tag(s, from) {
        Some((start, end)) => start < to && from < end <= s.len(),
        None => false,
    }
}

/// The source from `from` to `to` as events: the tags that begin in it, each
/// as an inline tag, and the text between them. A tag may end after `to`.
pub open spec fn pieces(s: Seq<u8>, from: int, to: int) -> Seq<(TokenModel, Range<usize>)>
    decreases to - from,
{
    if has_tag(s, from, to) {
        let start = next_tag(s, from).unwrap().0;
        let end = next_tag(s, from).unwrap().1;
        let before = if start > from {
            seq![text_piece(s, from, start)]
        } else {
            Seq::empty()
        };
        if end < to {
            before + seq![tag_piece(s, start, end)] + pieces(s, end, to)
        } else {
            before + seq![tag_piece(s, start, end)]
        }
    } else if from < to {
        seq![text_piece(s, from, to)]
    } else {
        Seq::empty()
    }
}

/// Where the last of the tags that begin between `from` and `to` ends; `from` where there is none.
pub open spec fn pieces_end(s: Seq<u8>, from: int, to: int) -> int
    decreases to - from,
{
    if has_tag(s, from, to) {
        let end = next_tag(s, from).unwrap().1;
        if end < to {
            pieces_end(s, end, to)
        } else {
            end
        }
    } else {
        from
    }
}

/// Whether a range lies in the source.
pub open spec fn in_source(s: Seq<u8>, range: Range<usize>) -> bool {
    range.start <= range.end <= s.len()
}

/// Whether an element is a fenced code block.
pub open spec fn is_code_block(tag: EventTagModel) -> bool {
    tag is Fenced
}

/// An element with indented code turned off: what the tokenizer takes for
/// an indented code block is a paragraph.
pub open spec fn without_indented(tag: EventTagModel) -> EventTagModel {
    match tag {
        EventTagModel::Indented => EventTagModel::Paragraph,
        _ => tag,
    }
}

/// A range held inside a source of `length` bytes: its end is no later
/// than the end of the source, and its start no later than its end.
pub open spec fn held_in(range: Range<usize>, length: int) -> Range<usize> {
    let end = if range.end <= length {
        range.end
    } else {
        length as usize
    };
    Range {
        start: if range.start <= end {
            range.start
        } else {
            end
        },
        end,
    }
}

/// An event as it is kept: with indented code turned off, and its range held inside the source.
pub open spec fn settled(s: Seq<u8>, event: (TokenModel, Range<usize>)) -> (
    TokenModel,
    Range<usize>,
) {
    (
        match event.0 {
            TokenModel::Start(tag) => TokenModel::Start(without_indented(tag)),
            TokenModel::End(tag) => TokenModel::End(without_indented(tag)),
            _ => event.0,
        },
        held_in(event.1, s.len() as int),
    )
}

/// The events from `index` on with the tags cut out of the text. `skip` is
/// where the last tag that was cut out ends: what begins before it stood
/// inside that tag and is left out, but for the rest of a text that goes on
/// after it. `kept` says of each element that is open whether its start was
/// kept: its end is kept with it. A text without a tag stays as it is, and so
/// does the text of a fenced code block, which `in_code` tells. Indented code
/// is turned off, and every range is held inside the source.
pub open spec fn carved_from(
    s: Seq<u8>,
    events: Seq<(TokenModel, Range<usize>)>,
    index: int,
    skip: int,
    kept: Seq<bool>,
    in_code: bool,
) -> Seq<(TokenModel, Range<usize>)>
    decreases events.len() - index,
{
    if index < 0 || index >= events.len() {
        Seq::empty()
    } else {
        let range = events[index].1;
        let from = if range.start < skip {
            skip
        } else {
            range.start as int
        };
        match events[index].0 {
            TokenModel::Text(_) => if !in_code && in_source(s, range) && from < range.end && (from
                > range.start || has_tag(s, from, range.end as int)) {
                let end = pieces_end(s, from, range.end as int);
                pieces(s, from, range.end as int) + carved_from(
                    s,
                    events,
                    index + 1,
                    if end > skip {
                        end
                    } else {
                        skip
                    },
                    kept,
                    in_code,
                )
            } else if range.start < skip {
                carved_from(s, events, index + 1, skip, kept, in_code)
            } else {
                seq![settled(s, events[index])] + carved_from(s, events, index + 1, skip, kept, in_code)
            },
            TokenModel::Start(tag) => if range.start < skip {
                carved_from(s, events, index + 1, skip, kept.push(false), in_code)
            } else {
                seq![settled(s, events[index])] + carved_from(
                    s,
                    events,
                    index + 1,
                    skip,
                    kept.push(true),
                    in_code || is_code_block(tag),
                )
            },
            TokenModel::End(tag) => if kept.len() > 0 && !kept.last() {
                carved_from(s, events, index + 1, skip, kept.drop_last(), in_code)
            } else {
                seq![settled(s, events[index])] + carved_from(
                    s,
                    events,
                    index + 1,
                    skip,
                    if kept.len() > 0 {
                        kept.drop_last()
                    } else {
                        kept
                    },
                    in_code && !is_code_block(tag),
                )
            },
            _ => if range.start < skip {
                carved_from(s, events, index + 1, skip, kept, in_code)
            } else {
                seq![settled(s, events[index])] + carved_from(s, events, index + 1, skip, kept, in_code)
            },
        }
    }
}

/// Adds the events of the source from `from` to `to`, and gives the end of the last tag among them.
fn push_pieces(input: &str, from: usize, to: usize, out: &mut Events) -> (end: usize)
    requires
        from <= to <= input.spec_bytes().len(),
    ensures
        events_model(final(out)@) == events_model(old(out)@) + pieces(
            input.spec_bytes(),
            from as int,
            to as int,
        ),
        end == pieces_end(input.spec_bytes(), from as int, to as int),
        from <= end <= input.spec_bytes().len(),
{
    let bytes = input.as_bytes();
    let mut position = from;
    let ghost given = events_model(out@);
    assert(given + pieces(bytes@, from as int, to as int) =~= events_model(out@) + pieces(
        bytes@,
        position as int,
        to as int,
    ));
    loop
        invariant
            bytes@ == input.spec_bytes(),
            from <= position <= to <= bytes@.len(),
            given == events_model(old(out)@),
            events_model(out@) + pieces(bytes@, position as int, to as int) == given + pieces(
                bytes@,
                from as int,
                to as int,
            ),
            pieces_end(bytes@, position as int, to as int) == pieces_end(
                bytes@,
                from as int,
                to as int,
            ),
        decreases to - position,
    {
        let ghost before = events_model(out@);
        match find_tag(bytes, position) {
            Some((start, end)) => {
                if start < to {
                    if start > position {
                        out.push(
                            (
                                Token::Text(String::from_str(slice(input, position, start))),
                                Range { start: position, end: start },
                            ),
                        );
                    }
                    out.push(
                        (
                            Token::MarkdocTag(String::from_str(slice(input, start, end)), true),
                            Range { start, end },
                        ),
                    );
                    proof {
                        let head = if start > position {
                            seq![text_piece(bytes@, position as int, start as int)]
                        } else {
                            Seq::empty()
                        };
                        assert(events_model(out@) =~= before + head + seq![
                            tag_piece(bytes@, start as int, end as int),
                        ]);
                    }
                    if end < to {
                        assert(before + pieces(bytes@, position as int, to as int) =~= events_model(
                            out@,
                        ) + pieces(bytes@, end as int, to as int));
                        position = end;
                        continue ;
                    }
                    assert(events_model(out@) =~= before + pieces(
                        bytes@,
                        position as int,
                        to as int,
                    ));
                    return end;
                }
            },
            None => {},
        }
        if position < to {
            out.push(
                (
                    Token::Text(String::from_str(slice(input, position, to))),
                    Range { start: position, end: to },
                ),
            );
        }
        assert(events_model(out@) =~= before + pieces(bytes@, position as int, to as int));
        return position;
    }
}

/// Whether a tag begins at or after `from` and before `to`.
fn tag_within(input: &str, from: usize, to: usize) -> (found: bool)
    ensures
        found == has_tag(input.spec_bytes(), from as int, to as int),
{
    match find_tag(input.as_bytes(), from) {
        Some((start, _)) => start < to,
        None => false,
    }
}

/// An event as it is kept.
fn kept_event(entry: &(Token, Range<usize>), length: usize) -> (kept: (Token, Range<usize>))
    ensures
        kept.0@ == match entry.0@ {
            TokenModel::Start(tag) => TokenModel::Start(without_indented(tag)),
            TokenModel::End(tag) => TokenModel::End(without_indented(tag)),
            _ => entry.0@,
        },
        kept.1 == held_in(entry.1, length as int),
{
    let end = if entry.1.end <= length {
        entry.1.end
    } else {
        length
    };
    let start = if entry.1.start <= end {
        entry.1.start
    } else {
        end
    };
    let token = match &entry.0 {
        Token::Start(EventTag::CodeBlock(CodeBlockKind::Indented)) => Token::Start(
            EventTag::Paragraph,
        ),
        Token::End(EventTag::CodeBlock(CodeBlockKind::Indented)) => Token::End(EventTag::Paragraph),
        other => other.clone(),
    };
    (token, Range { start, end })
}

/// Cuts the embedded tags out of the text events. Each tag becomes an inline
/// tag event; the text around it becomes text events of its own; whatever
/// the tokenizer made of the inside of a tag is left out.
pub fn carve(input: &str, events: &Events) -> (carved: Events)
    ensures
        events_model(carved@) == carved_from(
            input.spec_bytes(),
            events_model(events@),
            0,
            0,
            Seq::empty(),
            false,
        ),
{
    let bytes = input.as_bytes();
    let mut carved: Events = Vec::new();
    let mut skip: usize = 0;
    let mut kept: Vec<bool> = Vec::new();
    let mut in_code = false;
    let mut index: usize = 0;
    assert(events_model(carved@) =~= Seq::empty());
    assert(kept@ =~= Seq::empty());
    while index < events.len()
        invariant
            bytes@ == input.spec_bytes(),
            index <= events.len(),
            skip <= bytes@.len(),
            events_model(carved@) + carved_from(
                bytes@,
                events_model(events@),
                index as int,
                skip as int,
                kept@,
                in_code,
            ) == carved_from(bytes@, events_model(events@), 0, 0, Seq::empty(), false),
        decreases events.len() - index,
    {
        let ghost before = events_model(carved@);
        let ghost all = events_model(events@);
        let entry = &events[index];
        let start = entry.1.start;
        let end = entry.1.end;
        let from = if start < skip {
            skip
        } else {
            start
        };
        assert(all[index as int] == (entry.0@, entry.1));
        match &entry.0 {
            Token::Text(_) => {
                if !in_code && start <= end && end <= bytes.len() && from < end && (from > start
                    || tag_within(
                    input,
                    from,
                    end,
                )) {
                    let last = push_pieces(input, from, end, &mut carved);
                    if last > skip {
                        skip = last;
                    }
                } else if start < skip {
                } else {
                    carved.push(kept_event(entry, bytes.len()));
                    assert(events_model(carved@) =~= before + seq![settled(bytes@, all[index as int])]);
                }
            },
            Token::Start(tag) => {
                if start < skip {
                    kept.push(false);
                } else {
                    kept.push(true);
                    match tag {
                        EventTag::CodeBlock(CodeBlockKind::Fenced(_)) => {
                            in_code = true;
                        },
                        _ => {},
                    }
                    carved.push(kept_event(entry, bytes.len()));
                    assert(events_model(carved@) =~= before + seq![settled(bytes@, all[index as int])]);
                }
            },
            Token::End(tag) => {
                let keep = match kept.pop() {
                    Some(flag) => flag,
                    None => true,
                };
                if keep {
                    match tag {
                        EventTag::CodeBlock(CodeBlockKind::Fenced(_)) => {
                            in_code = false;
                        },
                        _ => {},
                    }
                    carved.push(kept_event(entry, bytes.len()));
                    assert(events_model(carved@) =~= before + seq![settled(bytes@, all[index as int])]);
                }
            },
            _ => {
                if start < skip {
                } else {
                    carved.push(kept_event(entry, bytes.len()));
                    assert(events_model(carved@) =~= before + seq![settled(bytes@, all[index as int])]);
                }
            },
        }
        index += 1;
    }
    assert(events_model(carved@) + Seq::empty() =~= events_model(carved@));
    carved
}

/// The first place at or after `from` where a paragraph ends, or the number of events.
pub open spec fn paragraph_end(events: Seq<(TokenModel, Range<usize>)>, from: int) -> int
    decreases events.len() - from,
{
    if from < 0 || from >= events.len() {
        events.len() as int
    } else if events[from].0 == TokenModel::End(EventTagModel::Paragraph) {
        from
    } else {
        paragraph_end(events, from + 1)
    }
}

/// The first place at or after `from` and before `end` where a line breaks, or `end`.
pub open spec fn line_stop(events: Seq<(TokenModel, Range<usize>)>, from: int, end: int) -> int
    decreases end - from,
{
    if from < 0 || from >= end || from >= events.len() {
        end
    } else if events[from].0 == TokenModel::SoftBreak {
        from
    } else {
        line_stop(events, from + 1, end)
    }
}

/// Whether the text of a tag opens a tag, closes one, or is a tag without content.
pub open spec fn block_form(text: Seq<char>) -> bool {
    let tag = tag_of(encode_utf8(text));
    tag is Open || tag is Standalone || tag is Close
}

/// Whether `first` opens a tag and `last` closes a tag of the same name.
pub open spec fn encloses(first: TokenModel, last: TokenModel) -> bool {
    match first {
        TokenModel::MarkdocTag(opening, _) => match last {
            TokenModel::MarkdocTag(closing, _) => match tag_of(encode_utf8(opening)) {
                TagModel::Open(name, _) => tag_of(encode_utf8(closing)) == TagModel::Close(name),
                _ => false,
            },
            _ => false,
        },
        _ => false,
    }
}

/// Whether the first event of the line from `a` to `b` is a tag that stands
/// for a block: a tag alone on its line that opens or closes a tag or has no
/// content, or a tag that opens what the last event of the line closes.
pub open spec fn leads(events: Seq<(TokenModel, Range<usize>)>, a: int, b: int) -> bool {
    0 <= a < b <= events.len() && match events[a].0 {
        TokenModel::MarkdocTag(text, _) => (b - a == 1 && block_form(text)) || (b - a >= 2
            && encloses(events[a].0, events[b - 1].0)),
        _ => false,
    }
}

/// Whether the last event of the line from `a` to `b` is a tag that stands
/// for a block: one that closes what the first event of the line opens.
pub open spec fn trails(events: Seq<(TokenModel, Range<usize>)>, a: int, b: int) -> bool {
    0 <= a && a + 2 <= b <= events.len() && encloses(events[a].0, events[b - 1].0)
}

/// A tag event as one that stands for a block.
pub open spec fn as_block(event: (TokenModel, Range<usize>)) -> (TokenModel, Range<usize>) {
    match event.0 {
        TokenModel::MarkdocTag(text, _) => (TokenModel::MarkdocTag(text, false), event.1),
        _ => event,
    }
}

/// The event that opens a paragraph at `range`.
pub open spec fn opening(range: Range<usize>) -> (TokenModel, Range<usize>) {
    (TokenModel::Start(EventTagModel::Paragraph), range)
}

/// The event that closes a paragraph at `range`.
pub open spec fn closing(range: Range<usize>) -> (TokenModel, Range<usize>) {
    (TokenModel::End(EventTagModel::Paragraph), range)
}

/// Whether a paragraph is open after the line from `a` to `b`, when `open` says whether one was before.
pub open spec fn open_after(events: Seq<(TokenModel, Range<usize>)>, a: int, b: int, open: bool)
    -> bool {
    let inner_start = if leads(events, a, b) {
        a + 1
    } else {
        a
    };
    let inner_end = if trails(events, a, b) {
        b - 1
    } else {
        b
    };
    ((open && !leads(events, a, b)) || inner_end > inner_start) && !trails(events, a, b)
}

/// The events of the line from `a` to `b` of the paragraph at `range`. A
/// tag that stands for a block closes the paragraph that is open and comes
/// after it, outside. The rest of the line goes on in the open paragraph,
/// after the line break at `broken`, or opens a paragraph.
#[verifier::opaque]
pub open spec fn line_events(
    events: Seq<(TokenModel, Range<usize>)>,
    range: Range<usize>,
    a: int,
    b: int,
    open: bool,
    broken: Option<int>,
) -> Seq<(TokenModel, Range<usize>)> {
    let lead = leads(events, a, b);
    let trail = trails(events, a, b);
    let inner_start = if lead {
        a + 1
    } else {
        a
    };
    let inner_end = if trail {
        b - 1
    } else {
        b
    };
    let first = if lead {
        (if open {
            seq![closing(range)]
        } else {
            Seq::empty()
        }) + seq![as_block(events[a])]
    } else {
        Seq::empty()
    };
    let middle = if inner_end > inner_start {
        (if open && !lead {
            match broken {
                Some(place) => seq![events[place]],
                None => Seq::empty(),
            }
        } else {
            seq![opening(range)]
        }) + events.subrange(inner_start, inner_end)
    } else {
        Seq::empty()
    };
    let last = if trail {
        (if (open && !lead) || inner_end > inner_start {
            seq![closing(range)]
        } else {
            Seq::empty()
        }) + seq![as_block(events[b - 1])]
    } else {
        Seq::empty()
    };
    first + middle + last
}

/// The events of the lines of a paragraph from `from` to `end`, and the
/// event that closes the paragraph that is left open.
pub open spec fn lines_from(
    events: Seq<(TokenModel, Range<usize>)>,
    range: Range<usize>,
    from: int,
    end: int,
    open: bool,
    broken: Option<int>,
) -> Seq<(TokenModel, Range<usize>)>
    decreases end - from,
{
    let stop = line_stop(events, from, end);
    let here = line_events(events, range, from, stop, open, broken);
    if 0 <= from <= stop < end <= events.len() {
        here + lines_from(
            events,
            range,
            stop + 1,
            end,
            open_after(events, from, stop, open),
            Some(stop),
        )
    } else if open_after(events, from, stop, open) {
        here + seq![closing(range)]
    } else {
        here
    }
}

/// The events from `index` on with the tags that stand for blocks moved out
/// of their paragraphs. A paragraph is split around such a tag, and a part
/// that would be empty is left out.
pub open spec fn restructured_from(events: Seq<(TokenModel, Range<usize>)>, index: int) -> Seq<
    (TokenModel, Range<usize>),
>
    decreases events.len() - index,
{
    if index < 0 || index >= events.len() {
        Seq::empty()
    } else if events[index].0 == TokenModel::Start(EventTagModel::Paragraph) {
        let end = paragraph_end(events, index + 1);
        let lines = lines_from(events, events[index].1, index + 1, end, false, None);
        if index < end < events.len() {
            lines + restructured_from(events, end + 1)
        } else {
            lines
        }
    } else {
        seq![events[index]] + restructured_from(events, index + 1)
    }
}

/// Whether the text of a tag opens a tag, closes one, or is a tag without content.
fn has_block_form(text: &str) -> (found: bool)
    ensures
        found == block_form(text@),
{
    match crate::tag::parse(text) {
        Tag::Open(_, _) => true,
        Tag::Standalone(_, _) => true,
        Tag::Close(_) => true,
        _ => false,
    }
}

/// Whether `first` opens a tag and `last` closes a tag of the same name.
fn is_enclosing(first: &Token, last: &Token) -> (found: bool)
    ensures
        found == encloses(first@, last@),
{
    match first {
        Token::MarkdocTag(opening, _) => match last {
            Token::MarkdocTag(closing, _) => match crate::tag::parse(opening.as_str()) {
                Tag::Open(name, _) => match crate::tag::parse(closing.as_str()) {
                    Tag::Close(other) => crate::text::same_text(name.as_str(), other.as_str()),
                    _ => false,
                },
                _ => false,
            },
            _ => false,
        },
        _ => false,
    }
}

/// Whether the first event of the line from `a` to `b` stands for a block.
fn is_leading(events: &Events, a: usize, b: usize) -> (found: bool)
    requires
        a <= b <= events@.len(),
    ensures
        found == leads(events_model(events@), a as int, b as int),
{
    if a >= b {
        return false;
    }
    match &events[a].0 {
        Token::MarkdocTag(text, _) => {
            if b - a == 1 {
                has_block_form(text.as_str())
            } else {
                is_enclosing(&events[a].0, &events[b - 1].0)
            }
        },
        _ => false,
    }
}

/// Whether the last event of the line from `a` to `b` stands for a block.
fn is_trailing(events: &Events, a: usize, b: usize) -> (found: bool)
    requires
        a <= b <= events@.len(),
    ensures
        found == trails(events_model(events@), a as int, b as int),
{
    b - a >= 2 && is_enclosing(&events[a].0, &events[b - 1].0)
}

/// A copy of a tag event as one that stands for a block.
fn block_copy(entry: &(Token, Range<usize>)) -> (copy: (Token, Range<usize>))
    ensures
        (copy.0@, copy.1) == as_block((entry.0@, entry.1)),
{
    let range = Range { start: entry.1.start, end: entry.1.end };
    match &entry.0 {
        Token::MarkdocTag(text, _) => (Token::MarkdocTag(text.clone(), false), range),
        other => (other.clone(), range),
    }
}

/// Adds the events of one line of a paragraph, and says whether a paragraph is open after it.
#[verifier::rlimit(60)]
fn push_line(
    events: &Events,
    range: &Range<usize>,
    a: usize,
    b: usize,
    open: bool,
    broken: Option<usize>,
    out: &mut Events,
) -> (left_open: bool)
    requires
        a <= b <= events@.len(),
        broken is Some ==> broken.unwrap() < events@.len(),
    ensures
        events_model(final(out)@) == events_model(old(out)@) + line_events(
            events_model(events@),
            *range,
            a as int,
            b as int,
            open,
            match broken {
                Some(place) => Some(place as int),
                None => None,
            },
        ),
        left_open == open_after(events_model(events@), a as int, b as int, open),
{
    reveal(line_events);
    let ghost given = events_model(out@);
    let ghost all = events_model(events@);
    let lead = is_leading(events, a, b);
    let trail = is_trailing(events, a, b);
    let inner_start = if lead {
        a + 1
    } else {
        a
    };
    let inner_end = if trail {
        b - 1
    } else {
        b
    };
    let mut is_open = open;
    if lead {
        if is_open {
            out.push((Token::End(EventTag::Paragraph), Range { start: range.start, end: range.end }));
            is_open = false;
        }
        out.push(block_copy(&events[a]));
    }
    let ghost first = if lead {
        (if open {
            seq![closing(*range)]
        } else {
            Seq::empty()
        }) + seq![as_block(all[a as int])]
    } else {
        Seq::empty()
    };
    assert(events_model(out@) =~= given + first);
    let ghost mut middle: Seq<(TokenModel, Range<usize>)> = Seq::empty();
    if inner_end > inner_start {
        if is_open {
            match broken {
                Some(place) => {
                    out.push(
                        (
                            events[place].0.clone(),
                            Range { start: events[place].1.start, end: events[place].1.end },
                        ),
                    );
                    proof {
                        middle = seq![all[place as int]];
                    }
                },
                None => {},
            }
        } else {
            out.push(
                (Token::Start(EventTag::Paragraph), Range { start: range.start, end: range.end }),
            );
            proof {
                middle = seq![opening(*range)];
            }
            is_open = true;
        }
        assert(events_model(out@) =~= given + first + middle);
        let ghost head = middle;
        let mut index = inner_start;
        while index < inner_end
            invariant
                inner_start <= index <= inner_end <= events@.len(),
                all == events_model(events@),
                events_model(out@) == given + first + (head + all.subrange(
                    inner_start as int,
                    index as int,
                )),
            decreases inner_end - index,
        {
            let ghost before = events_model(out@);
            out.push(
                (
                    events[index].0.clone(),
                    Range { start: events[index].1.start, end: events[index].1.end },
                ),
            );
            assert(events_model(out@) =~= before.push(all[index as int]));
            assert(all.subrange(inner_start as int, index + 1) =~= all.subrange(
                inner_start as int,
                index as int,
            ).push(all[index as int]));
            index += 1;
            assert(events_model(out@) =~= given + first + (head + all.subrange(
                inner_start as int,
                index as int,
            )));
        }
        proof {
            middle = head + all.subrange(inner_start as int, inner_end as int);
        }
    }
    assert(events_model(out@) =~= given + first + middle);
    assert(is_open == ((open && !lead) || inner_end > inner_start));
    let ghost so_far = events_model(out@);
    if trail {
        if is_open {
            out.push((Token::End(EventTag::Paragraph), Range { start: range.start, end: range.end }));
            is_open = false;
        }
        out.push(block_copy(&events[b - 1]));
    }
    let ghost last = if trail {
        (if (open && !lead) || inner_end > inner_start {
            seq![closing(*range)]
        } else {
            Seq::empty()
        }) + seq![as_block(all[b - 1])]
    } else {
        Seq::empty()
    };
    assert(events_model(out@) =~= so_far + last);
    assert(so_far + last =~= given + (first + middle + last));
    is_open
}

/// The first place at or after `from` and before `end` where a line breaks, or `end`.
fn stop_of(events: &Events, from: usize, end: usize) -> (stop: usize)
    requires
        from <= end <= events@.len(),
    ensures
        stop == line_stop(events_model(events@), from as int, end as int),
        from <= stop <= end,
{
    let mut stop = from;
    while stop < end
        invariant
            from <= stop <= end <= events@.len(),
            line_stop(events_model(events@), from as int, end as int) == line_stop(
                events_model(events@),
                stop as int,
                end as int,
            ),
        decreases end - stop,
    {
        match &events[stop].0 {
            Token::SoftBreak => {
                return stop;
            },
            _ => {},
        }
        stop += 1;
    }
    stop
}

/// The first place at or after `from` where a paragraph ends, or the number of events.
fn end_of(events: &Events, from: usize) -> (end: usize)
    requires
        from <= events@.len(),
    ensures
        end == paragraph_end(events_model(events@), from as int),
        from <= end <= events@.len(),
{
    let mut end = from;
    while end < events.len()
        invariant
            from <= end <= events@.len(),
            paragraph_end(events_model(events@), from as int) == paragraph_end(
                events_model(events@),
                end as int,
            ),
        decreases events@.len() - end,
    {
        match &events[end].0 {
            Token::End(EventTag::Paragraph) => {
                return end;
            },
            _ => {},
        }
        end += 1;
    }
    end
}

/// Adds the events of the paragraph whose content stands from `from` to `end`.
fn push_paragraph(events: &Events, range: &Range<usize>, from: usize, end: usize, out: &mut Events)
    requires
        from <= end <= events@.len(),
    ensures
        events_model(final(out)@) == events_model(old(out)@) + lines_from(
            events_model(events@),
            *range,
            from as int,
            end as int,
            false,
            None,
        ),
{
    let ghost given = events_model(out@);
    let ghost all = events_model(events@);
    let mut start = from;
    let mut open = false;
    let mut broken: Option<usize> = None;
    assert(events_model(out@) + lines_from(all, *range, from as int, end as int, false, None)
        =~= given + lines_from(all, *range, from as int, end as int, false, None));
    loop
        invariant
            from <= start <= end <= events@.len(),
            broken is Some ==> broken.unwrap() < events@.len(),
            all == events_model(events@),
            given == events_model(old(out)@),
            events_model(out@) + lines_from(
                all,
                *range,
                start as int,
                end as int,
                open,
                match broken {
                    Some(place) => Some(place as int),
                    None => None,
                },
            ) == given + lines_from(all, *range, from as int, end as int, false, None),
        decreases end - start,
    {
        let ghost before = events_model(out@);
        let ghost rest = lines_from(
            all,
            *range,
            start as int,
            end as int,
            open,
            match broken {
                Some(place) => Some(place as int),
                None => None,
            },
        );
        let stop = stop_of(events, start, end);
        let left_open = push_line(events, range, start, stop, open, broken, out);
        let ghost here = line_events(
            all,
            *range,
            start as int,
            stop as int,
            open,
            match broken {
                Some(place) => Some(place as int),
                None => None,
            },
        );
        assert(events_model(out@) == before + here);
        if stop < end {
            assert(before + rest =~= events_model(out@) + lines_from(
                all,
                *range,
                stop + 1,
                end as int,
                left_open,
                Some(stop as int),
            ));
            start = stop + 1;
            open = left_open;
            broken = Some(stop);
        } else {
            if left_open {
                out.push(
                    (Token::End(EventTag::Paragraph), Range { start: range.start, end: range.end }),
                );
                assert(events_model(out@) =~= (before + here).push(closing(*range)));
                assert(rest == here + seq![closing(*range)]);
                assert((before + here).push(closing(*range)) =~= before + (here + seq![
                    closing(*range),
                ]));
            } else {
                assert(rest == here);
            }
            assert(events_model(out@) =~= before + rest);
            return ;
        }
    }
}

/// Moves the tags that stand for blocks out of their paragraphs.
pub fn restructure(events: &Events) -> (moved: Events)
    ensures
        events_model(moved@) == restructured_from(events_model(events@), 0),
{
    let ghost all = events_model(events@);
    let mut moved: Events = Vec::new();
    let mut index: usize = 0;
    assert(events_model(moved@) =~= Seq::empty());
    while index < events.len()
        invariant
            index <= events.len(),
            all == events_model(events@),
            events_model(moved@) + restructured_from(all, index as int) == restructured_from(all, 0),
        decreases events.len() - index,
    {
        let ghost before = events_model(moved@);
        let ghost rest = restructured_from(all, index as int);
        let paragraph = match &events[index].0 {
            Token::Start(EventTag::Paragraph) => true,
            _ => false,
        };
        if paragraph {
            let end = end_of(events, index + 1);
            let range = Range { start: events[index].1.start, end: events[index].1.end };
            push_paragraph(events, &range, index + 1, end, &mut moved);
            if end < events.len() {
                assert(before + rest =~= events_model(moved@) + restructured_from(all, end + 1));
                index = end + 1;
            } else {
                assert(before + rest =~= events_model(moved@) + restructured_from(
                    all,
                    events.len() as int,
                ));
                index = events.len();
            }
        } else {
            moved.push(
                (
                    events[index].0.clone(),
                    Range { start: events[index].1.start, end: events[index].1.end },
                ),
            );
            assert(before + rest =~= events_model(moved@) + restructured_from(all, index + 1));
            index += 1;
        }
    }
    assert(events_model(moved@) + Seq::empty() =~= events_model(moved@));
    moved
}

/// Whether an event is in order for a source of `length` bytes: its range
/// lies in the source, and it is no start or end of an indented code block.
pub open spec fn tidy_event(event: (TokenModel, Range<usize>), length: int) -> bool {
    &&& event.1.start <= event.1.end <= length
    &&& event.0 != TokenModel::Start(EventTagModel::Indented)
    &&& event.0 != TokenModel::End(EventTagModel::Indented)
}

/// Whether every event is in order for a source of `length` bytes.
pub open spec fn tidy(events: Seq<(TokenModel, Range<usize>)>, length: int) -> bool {
    forall|i: int| 0 <= i < events.len() ==> tidy_event(#[trigger] events[i], length)
}

/// Events in order, one run after the other, are in order.
proof fn lemma_tidy_add(
    first: Seq<(TokenModel, Range<usize>)>,
    second: Seq<(TokenModel, Range<usize>)>,
    length: int,
)
    requires
        tidy(first, length),
        tidy(second, length),
    ensures
        tidy(first + second, length),
{
    assert forall|i: int| 0 <= i < (first + second).len() implies tidy_event(
        #[trigger] (first + second)[i],
        length,
    ) by {
        if i < first.len() {
            assert((first + second)[i] == first[i]);
        } else {
            assert((first + second)[i] == second[i - first.len()]);
        }
    }
}

/// A tag that is found begins where the search began or later, and ends after it begins, in the source.
proof fn lemma_next_tag_bounds(s: Seq<u8>, from: int)
    requires
        0 <= from,
    ensures
        next_tag(s, from) is Some ==> from <= next_tag(s, from).unwrap().0 && next_tag(
            s,
            from,
        ).unwrap().0 < next_tag(s, from).unwrap().1 <= s.len(),
    decreases s.len() - from,
{
    if from < s.len() {
        if crate::scan::tag_end_at(s, from) is Some {
            crate::scan::lemma_tag_end_bounds(s, from + 2, false);
        } else {
            lemma_next_tag_bounds(s, from + 1);
        }
    }
}

/// The events that a part of the source is cut into are in order.
proof fn lemma_pieces_tidy(s: Seq<u8>, from: int, to: int)
    requires
        0 <= from <= to <= s.len() <= usize::MAX,
    ensures
        tidy(pieces(s, from, to), s.len() as int),
    decreases to - from,
{
    lemma_next_tag_bounds(s, from);
    if has_tag(s, from, to) {
        let start = next_tag(s, from).unwrap().0;
        let end = next_tag(s, from).unwrap().1;
        let before = if start > from {
            seq![text_piece(s, from, start)]
        } else {
            Seq::empty()
        };
        let head = before + seq![tag_piece(s, start, end)];
        assert(tidy(before, s.len() as int));
        assert(tidy(seq![tag_piece(s, start, end)], s.len() as int));
        lemma_tidy_add(before, seq![tag_piece(s, start, end)], s.len() as int);
        if end < to {
            lemma_pieces_tidy(s, end, to);
            lemma_tidy_add(head, pieces(s, end, to), s.len() as int);
        }
    }
}

/// An event as it is kept is in order.
proof fn lemma_settled_tidy(s: Seq<u8>, event: (TokenModel, Range<usize>))
    requires
        s.len() <= usize::MAX,
    ensures
        tidy(seq![settled(s, event)], s.len() as int),
{
}

/// The events with the tags cut out are in order: every range lies in
/// the source, and no indented code block is among them.
pub proof fn lemma_carved_tidy(
    s: Seq<u8>,
    events: Seq<(TokenModel, Range<usize>)>,
    index: int,
    skip: int,
    kept: Seq<bool>,
    in_code: bool,
)
    requires
        s.len() <= usize::MAX,
        0 <= skip,
    ensures
        tidy(carved_from(s, events, index, skip, kept, in_code), s.len() as int),
    decreases events.len() - index,
{
    let length = s.len() as int;
    if 0 <= index < events.len() {
        let range = events[index].1;
        let from = if range.start < skip {
            skip
        } else {
            range.start as int
        };
        let one = seq![settled(s, events[index])];
        lemma_settled_tidy(s, events[index]);
        match events[index].0 {
            TokenModel::Text(_) => {
                if !in_code && in_source(s, range) && from < range.end && (from > range.start
                    || has_tag(s, from, range.end as int)) {
                    let end = pieces_end(s, from, range.end as int);
                    let next = if end > skip {
                        end
                    } else {
                        skip
                    };
                    lemma_pieces_tidy(s, from, range.end as int);
                    lemma_carved_tidy(s, events, index + 1, next, kept, in_code);
                    lemma_tidy_add(
                        pieces(s, from, range.end as int),
                        carved_from(s, events, index + 1, next, kept, in_code),
                        length,
                    );
                } else {
                    lemma_carved_tidy(s, events, index + 1, skip, kept, in_code);
                    lemma_tidy_add(
                        one,
                        carved_from(s, events, index + 1, skip, kept, in_code),
                        length,
                    );
                }
            },
            TokenModel::Start(tag) => {
                lemma_carved_tidy(s, events, index + 1, skip, kept.push(false), in_code);
                lemma_carved_tidy(
                    s,
                    events,
                    index + 1,
                    skip,
                    kept.push(true),
                    in_code || is_code_block(tag),
                );
                lemma_tidy_add(
                    one,
                    carved_from(
                        s,
                        events,
                        index + 1,
                        skip,
                        kept.push(true),
                        in_code || is_code_block(tag),
                    ),
                    length,
                );
            },
            TokenModel::End(tag) => {
                let rest = if kept.len() > 0 {
                    kept.drop_last()
                } else {
                    kept
                };
                lemma_carved_tidy(s, events, index + 1, skip, kept.drop_last(), in_code);
                lemma_carved_tidy(s, events, index + 1, skip, rest, in_code && !is_code_block(tag));
                lemma_tidy_add(
                    one,
                    carved_from(s, events, index + 1, skip, rest, in_code && !is_code_block(tag)),
                    length,
                );
            },
            _ => {
                lemma_carved_tidy(s, events, index + 1, skip, kept, in_code);
                lemma_tidy_add(one, carved_from(s, events, index + 1, skip, kept, in_code), length);
            },
        }
    }
}

/// The events of one line of a paragraph are in order where the events that they are made of are.
proof fn lemma_line_tidy(
    events: Seq<(TokenModel, Range<usize>)>,
    range: Range<usize>,
    a: int,
    b: int,
    open: bool,
    broken: Option<int>,
    length: int,
)
    requires
        tidy(events, length),
        range.start <= range.end <= length,
        0 <= a <= b <= events.len(),
        broken is Some ==> 0 <= broken.unwrap() < events.len(),
    ensures
        tidy(line_events(events, range, a, b, open, broken), length),
{
    reveal(line_events);
    let line = line_events(events, range, a, b, open, broken);
    let lead = leads(events, a, b);
    let trail = trails(events, a, b);
    let inner_start = if lead {
        a + 1
    } else {
        a
    };
    let inner_end = if trail {
        b - 1
    } else {
        b
    };
    let first = if lead {
        (if open {
            seq![closing(range)]
        } else {
            Seq::empty()
        }) + seq![as_block(events[a])]
    } else {
        Seq::empty()
    };
    let middle = if inner_end > inner_start {
        (if open && !lead {
            match broken {
                Some(place) => seq![events[place]],
                None => Seq::empty(),
            }
        } else {
            seq![opening(range)]
        }) + events.subrange(inner_start, inner_end)
    } else {
        Seq::empty()
    };
    let last = if trail {
        (if (open && !lead) || inner_end > inner_start {
            seq![closing(range)]
        } else {
            Seq::empty()
        }) + seq![as_block(events[b - 1])]
    } else {
        Seq::empty()
    };
    assert(tidy(first, length)) by {
        if lead {
            assert(tidy_event(events[a], length));
            assert forall|i: int| 0 <= i < first.len() implies tidy_event(
                #[trigger] first[i],
                length,
            ) by {}
        }
    }
    assert(tidy(middle, length)) by {
        if inner_end > inner_start {
            assert forall|i: int| 0 <= i < middle.len() implies tidy_event(
                #[trigger] middle[i],
                length,
            ) by {
                if broken is Some {
                    assert(tidy_event(events[broken.unwrap()], length));
                }
                let sub = events.subrange(inner_start, inner_end);
                let head_len = middle.len() - sub.len();
                if i >= head_len {
                    assert(middle[i] == sub[i - head_len]);
                    assert(sub[i - head_len] == events[inner_start + i - head_len]);
                    assert(tidy_event(events[inner_start + i - head_len], length));
                }
            }
        }
    }
    assert(tidy(last, length)) by {
        if trail {
            assert(tidy_event(events[b - 1], length));
            assert forall|i: int| 0 <= i < last.len() implies tidy_event(
                #[trigger] last[i],
                length,
            ) by {}
        }
    }
    lemma_tidy_add(first, middle, length);
    lemma_tidy_add(first + middle, last, length);
}

/// The first place where a line breaks lies between where the search began and its end.
proof fn lemma_line_stop_bounds(events: Seq<(TokenModel, Range<usize>)>, from: int, end: int)
    requires
        0 <= from <= end <= events.len(),
    ensures
        from <= line_stop(events, from, end) <= end,
    decreases end - from,
{
    if from < end && events[from].0 != TokenModel::SoftBreak {
        lemma_line_stop_bounds(events, from + 1, end);
    }
}

/// The events of the lines of a paragraph are in order where the events that they are made of are.
proof fn lemma_lines_tidy(
    events: Seq<(TokenModel, Range<usize>)>,
    range: Range<usize>,
    from: int,
    end: int,
    open: bool,
    broken: Option<int>,
    length: int,
)
    requires
        tidy(events, length),
        range.start <= range.end <= length,
        0 <= from <= end <= events.len(),
        broken is Some ==> 0 <= broken.unwrap() < events.len(),
    ensures
        tidy(lines_from(events, range, from, end, open, broken), length),
    decreases end - from,
{
    let stop = line_stop(events, from, end);
    lemma_line_stop_bounds(events, from, end);
    let here = line_events(events, range, from, stop, open, broken);
    lemma_line_tidy(events, range, from, stop, open, broken, length);
    if stop < end {
        lemma_lines_tidy(
            events,
            range,
            stop + 1,
            end,
            open_after(events, from, stop, open),
            Some(stop),
            length,
        );
        lemma_tidy_add(
            here,
            lines_from(
                events,
                range,
                stop + 1,
                end,
                open_after(events, from, stop, open),
                Some(stop),
            ),
            length,
        );
    } else if open_after(events, from, stop, open) {
        assert(tidy(seq![closing(range)], length));
        lemma_tidy_add(here, seq![closing(range)], length);
    }
}

/// The first place where a paragraph ends lies between where the search began and the end.
proof fn lemma_paragraph_end_bounds(events: Seq<(TokenModel, Range<usize>)>, from: int)
    requires
        0 <= from <= events.len(),
    ensures
        from <= paragraph_end(events, from) <= events.len(),
    decreases events.len() - from,
{
    if from < events.len() && events[from].0 != TokenModel::End(EventTagModel::Paragraph) {
        lemma_paragraph_end_bounds(events, from + 1);
    }
}

/// Moving the tags that stand for blocks out of their paragraphs keeps the events in order.
pub proof fn lemma_restructured_tidy(
    events: Seq<(TokenModel, Range<usize>)>,
    index: int,
    length: int,
)
    requires
        tidy(events, length),
        0 <= index,
    ensures
        tidy(restructured_from(events, index), length),
    decreases events.len() - index,
{
    if index < events.len() {
        assert(tidy_event(events[index], length));
        if events[index].0 == TokenModel::Start(EventTagModel::Paragraph) {
            let end = paragraph_end(events, index + 1);
            lemma_paragraph_end_bounds(events, index + 1);
            lemma_lines_tidy(events, events[index].1, index + 1, end, false, None, length);
            if end < events.len() {
                lemma_restructured_tidy(events, end + 1, length);
                lemma_tidy_add(
                    lines_from(events, events[index].1, index + 1, end, false, None),
                    restructured_from(events, end + 1),
                    length,
                );
            }
        } else {
            lemma_restructured_tidy(events, index + 1, length);
            assert(tidy(seq![events[index]], length));
            lemma_tidy_add(seq![events[index]], restructured_from(events, index + 1), length);
        }
    }
}

} // verus!
