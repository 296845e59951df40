//! How the start and end events of a document stand to each other.
//!
//! The events of the CommonMark tokenizer are nested: every end event
//! closes the element that was started last and is still open. Cutting the
//! tags out of the text keeps them nested. Moving a tag that stands for a
//! block out of its paragraph closes the paragraph before the tag and opens
//! one after it, whatever inline element is open in between, so that of the
//! events of a document less holds: they are balanced.

use crate::embed::{
    as_block, carved_from, closing, has_tag, in_source, is_code_block, leads, line_events,
    line_stop, lines_from, open_after, opening, paragraph_end, pieces, pieces_end,
    restructured_from, settled, trails, without_indented,
};
use crate::template::next_tag;
use crate::tokenize::{EventTagModel, TokenModel};
use std::ops::Range;
use vstd::prelude::*;

verus! {

/// The elements that are open after the events from `from` on, when those
/// in `open` are open before them, the innermost last. There is no answer
/// where an end event meets no open element, or another than its own.
pub open spec fn closes(
    events: Seq<(TokenModel, Range<usize>)>,
    from: int,
    open: Seq<EventTagModel>,
) -> Option<Seq<EventTagModel>>
    decreases events.len() - from,
{
    if from < 0 || from >= events.len() {
        Some(open)
    } else {
        match events[from].0 {
            TokenModel::Start(tag) => closes(events, from + 1, open.push(tag)),
            TokenModel::End(tag) => if open.len() > 0 && open.last() == tag {
                closes(events, from + 1, open.drop_last())
            } else {
                None
            },
            _ => closes(events, from + 1, open),
        }
    }
}

/// Whether the events are nested: every end event closes the element that
/// was started last and is still open, and in the end none is open.
pub open spec fn nested(events: Seq<(TokenModel, Range<usize>)>) -> bool {
    closes(events, 0, Seq::empty()) == Some(Seq::<EventTagModel>::empty())
}

/// The number of open elements after an event, when `depth` are open
/// before it. There is no answer where an end event meets no open element.
pub open spec fn step(event: TokenModel, depth: int) -> Option<int> {
    match event {
        TokenModel::Start(_) => Some(depth + 1),
        TokenModel::End(_) => if depth > 0 {
            Some(depth - 1)
        } else {
            None
        },
        _ => Some(depth),
    }
}

/// The number of open elements after the events from `from` on, when
/// `depth` are open before them.
pub open spec fn level(events: Seq<(TokenModel, Range<usize>)>, from: int, depth: int) -> Option<
    int,
>
    decreases events.len() - from,
{
    if from < 0 || from >= events.len() {
        Some(depth)
    } else {
        match step(events[from].0, depth) {
            Some(next) => level(events, from + 1, next),
            None => None,
        }
    }
}

/// Whether the events are balanced: at no place have more elements ended
/// than have started, and in the end as many.
pub open spec fn balanced(events: Seq<(TokenModel, Range<usize>)>) -> bool {
    level(events, 0, 0) == Some(0int)
}

/// By how much an event changes the number of open elements.
pub open spec fn change(event: TokenModel) -> int {
    match event {
        TokenModel::Start(_) => 1,
        TokenModel::End(_) => -1,
        _ => 0,
    }
}

/// By how much the events from `from` to `to` change the number of open elements.
pub open spec fn rise(events: Seq<(TokenModel, Range<usize>)>, from: int, to: int) -> int
    decreases to - from,
{
    if from < 0 || from >= to || from >= events.len() {
        0
    } else {
        change(events[from].0) + rise(events, from + 1, to)
    }
}

/// Whether no event starts or ends an element.
pub open spec fn flat(events: Seq<(TokenModel, Range<usize>)>) -> bool {
    forall|i: int| 0 <= i < events.len() ==> change(#[trigger] events[i].0) == 0
}

/// Events that follow other events are read as they are read alone.
proof fn lemma_closes_shift(
    first: Seq<(TokenModel, Range<usize>)>,
    second: Seq<(TokenModel, Range<usize>)>,
    from: int,
    open: Seq<EventTagModel>,
)
    requires
        0 <= from <= second.len(),
    ensures
        closes(first + second, first.len() + from, open) == closes(second, from, open),
    decreases second.len() - from,
{
    if from < second.len() {
        assert((first + second)[first.len() + from] == second[from]);
        match second[from].0 {
            TokenModel::Start(tag) => lemma_closes_shift(first, second, from + 1, open.push(tag)),
            TokenModel::End(tag) => if open.len() > 0 && open.last() == tag {
                lemma_closes_shift(first, second, from + 1, open.drop_last());
            },
            _ => lemma_closes_shift(first, second, from + 1, open),
        }
    }
}

/// Events, one run after the other, are read one run after the other.
proof fn lemma_closes_add(
    first: Seq<(TokenModel, Range<usize>)>,
    second: Seq<(TokenModel, Range<usize>)>,
    from: int,
    open: Seq<EventTagModel>,
)
    requires
        0 <= from <= first.len(),
    ensures
        closes(first + second, from, open) == match closes(first, from, open) {
            Some(between) => closes(second, 0, between),
            None => None,
        },
    decreases first.len() - from,
{
    if from < first.len() {
        assert((first + second)[from] == first[from]);
        match first[from].0 {
            TokenModel::Start(tag) => lemma_closes_add(first, second, from + 1, open.push(tag)),
            TokenModel::End(tag) => if open.len() > 0 && open.last() == tag {
                lemma_closes_add(first, second, from + 1, open.drop_last());
            },
            _ => lemma_closes_add(first, second, from + 1, open),
        }
    } else {
        lemma_closes_shift(first, second, 0, open);
    }
}

/// Events that start and end nothing leave open what is open.
proof fn lemma_closes_flat(
    events: Seq<(TokenModel, Range<usize>)>,
    from: int,
    open: Seq<EventTagModel>,
)
    requires
        flat(events),
        0 <= from <= events.len(),
    ensures
        closes(events, from, open) == Some(open),
    decreases events.len() - from,
{
    if from < events.len() {
        assert(change(events[from].0) == 0);
        lemma_closes_flat(events, from + 1, open);
    }
}

/// Events that follow other events are counted as they are counted alone.
proof fn lemma_level_shift(
    first: Seq<(TokenModel, Range<usize>)>,
    second: Seq<(TokenModel, Range<usize>)>,
    from: int,
    depth: int,
)
    requires
        0 <= from <= second.len(),
    ensures
        level(first + second, first.len() + from, depth) == level(second, from, depth),
    decreases second.len() - from,
{
    if from < second.len() {
        assert((first + second)[first.len() + from] == second[from]);
        match step(second[from].0, depth) {
            Some(next) => lemma_level_shift(first, second, from + 1, next),
            None => {},
        }
    }
}

/// Events, one run after the other, are counted one run after the other.
proof fn lemma_level_add(
    first: Seq<(TokenModel, Range<usize>)>,
    second: Seq<(TokenModel, Range<usize>)>,
    from: int,
    depth: int,
)
    requires
        0 <= from <= first.len(),
    ensures
        level(first + second, from, depth) == match level(first, from, depth) {
            Some(between) => level(second, 0, between),
            None => None,
        },
    decreases first.len() - from,
{
    if from < first.len() {
        assert((first + second)[from] == first[from]);
        match step(first[from].0, depth) {
            Some(next) => lemma_level_add(first, second, from + 1, next),
            None => {},
        }
    } else {
        lemma_level_shift(first, second, 0, depth);
    }
}

/// One event is counted by its step.
proof fn lemma_level_one(event: (TokenModel, Range<usize>), depth: int)
    ensures
        level(seq![event], 0, depth) == step(event.0, depth),
{
    reveal_with_fuel(level, 3);
    assert(seq![event][0] == event);
}

/// No event leaves the count as it is.
proof fn lemma_level_none(depth: int)
    ensures
        level(Seq::<(TokenModel, Range<usize>)>::empty(), 0, depth) == Some(depth),
{
}

/// The change over a run of events is the change over its parts.
proof fn lemma_rise_split(events: Seq<(TokenModel, Range<usize>)>, from: int, middle: int, to: int)
    requires
        0 <= from <= middle <= to <= events.len(),
    ensures
        rise(events, from, to) == rise(events, from, middle) + rise(events, middle, to),
    decreases middle - from,
{
    if from < middle {
        lemma_rise_split(events, from + 1, middle, to);
    }
}

/// A run of events in which no more elements end than are open is counted by its change.
proof fn lemma_level_run(events: Seq<(TokenModel, Range<usize>)>, from: int, to: int, depth: int)
    requires
        0 <= from <= to <= events.len(),
        forall|j: int| from <= j <= to ==> depth + #[trigger] rise(events, from, j) >= 0,
    ensures
        level(events.subrange(from, to), 0, depth) == Some(depth + rise(events, from, to)),
    decreases to - from,
{
    if from < to {
        let next = depth + change(events[from].0);
        assert(rise(events, from + 1, from + 1) == 0);
        assert(depth + rise(events, from, from + 1) >= 0);
        assert(step(events[from].0, depth) == Some(next));
        assert forall|j: int| from + 1 <= j <= to implies next + #[trigger] rise(
            events,
            from + 1,
            j,
        ) >= 0 by {
            assert(depth + rise(events, from, j) >= 0);
        }
        lemma_level_run(events, from + 1, to, next);
        assert(events.subrange(from, to) =~= seq![events[from]] + events.subrange(from + 1, to));
        lemma_level_one(events[from], depth);
        lemma_level_add(seq![events[from]], events.subrange(from + 1, to), 0, depth);
    } else {
        assert(events.subrange(from, to) =~= Seq::empty());
    }
}

/// The open elements whose start was kept, as `kept` says of each, with indented code turned off.
pub open spec fn chosen(open: Seq<EventTagModel>, kept: Seq<bool>) -> Seq<EventTagModel>
    decreases open.len(),
{
    if open.len() == 0 || kept.len() != open.len() {
        Seq::empty()
    } else if kept.last() {
        chosen(open.drop_last(), kept.drop_last()).push(without_indented(open.last()))
    } else {
        chosen(open.drop_last(), kept.drop_last())
    }
}

/// One more open element is chosen where its start was kept.
proof fn lemma_chosen_push(open: Seq<EventTagModel>, kept: Seq<bool>, tag: EventTagModel, keep: bool)
    requires
        kept.len() == open.len(),
    ensures
        chosen(open.push(tag), kept.push(keep)) == if keep {
            chosen(open, kept).push(without_indented(tag))
        } else {
            chosen(open, kept)
        },
{
    assert(open.push(tag).drop_last() =~= open);
    assert(kept.push(keep).drop_last() =~= kept);
}

/// The text and the tags that a source is cut into start and end nothing.
proof fn lemma_pieces_flat(s: Seq<u8>, from: int, to: int)
    ensures
        flat(pieces(s, from, to)),
    decreases to - from,
{
    if has_tag(s, from, to) {
        let end = next_tag(s, from).unwrap().1;
        if end < to {
            lemma_pieces_flat(s, end, to);
        }
    }
}

/// One event before others is read first.
proof fn lemma_closes_first(
    event: (TokenModel, Range<usize>),
    rest: Seq<(TokenModel, Range<usize>)>,
    open: Seq<EventTagModel>,
)
    ensures
        closes(seq![event] + rest, 0, open) == match event.0 {
            TokenModel::Start(tag) => closes(rest, 0, open.push(tag)),
            TokenModel::End(tag) => if open.len() > 0 && open.last() == tag {
                closes(rest, 0, open.drop_last())
            } else {
                None
            },
            _ => closes(rest, 0, open),
        },
{
    assert((seq![event] + rest)[0] == event);
    match event.0 {
        TokenModel::Start(tag) => lemma_closes_shift(seq![event], rest, 0, open.push(tag)),
        TokenModel::End(tag) => if open.len() > 0 && open.last() == tag {
            lemma_closes_shift(seq![event], rest, 0, open.drop_last());
        },
        _ => lemma_closes_shift(seq![event], rest, 0, open),
    }
}

/// Cutting the tags out of the text keeps the events nested: where the
/// events from `index` on close the elements in `open`, what is made of them
/// closes those of them whose start was kept.
pub proof fn lemma_carved_nested(
    s: Seq<u8>,
    events: Seq<(TokenModel, Range<usize>)>,
    index: int,
    skip: int,
    kept: Seq<bool>,
    in_code: bool,
    open: Seq<EventTagModel>,
)
    requires
        0 <= index <= events.len(),
        kept.len() == open.len(),
        closes(events, index, open) == Some(Seq::<EventTagModel>::empty()),
    ensures
        closes(carved_from(s, events, index, skip, kept, in_code), 0, chosen(open, kept)) == Some(
            Seq::<EventTagModel>::empty(),
        ),
    decreases events.len() - index,
{
    if index < events.len() {
        let range = events[index].1;
        let from = if range.start < skip {
            skip
        } else {
            range.start as int
        };
        let here = settled(s, events[index]);
        match events[index].0 {
            TokenModel::Text(_) => {
                if !in_code && in_source(s, range) && from < range.end && (from > range.start
                    || has_tag(s, from, range.end as int)) {
                    let end = pieces_end(s, from, range.end as int);
                    let next = if end > skip {
                        end
                    } else {
                        skip
                    };
                    let rest = carved_from(s, events, index + 1, next, kept, in_code);
                    lemma_carved_nested(s, events, index + 1, next, kept, in_code, open);
                    lemma_pieces_flat(s, from, range.end as int);
                    lemma_closes_flat(pieces(s, from, range.end as int), 0, chosen(open, kept));
                    lemma_closes_add(pieces(s, from, range.end as int), rest, 0, chosen(open, kept));
                } else {
                    lemma_carved_nested(s, events, index + 1, skip, kept, in_code, open);
                    if range.start >= skip {
                        lemma_closes_first(
                            here,
                            carved_from(s, events, index + 1, skip, kept, in_code),
                            chosen(open, kept),
                        );
                    }
                }
            },
            TokenModel::Start(tag) => {
                if range.start < skip {
                    lemma_carved_nested(
                        s,
                        events,
                        index + 1,
                        skip,
                        kept.push(false),
                        in_code,
                        open.push(tag),
                    );
                    lemma_chosen_push(open, kept, tag, false);
                } else {
                    lemma_carved_nested(
                        s,
                        events,
                        index + 1,
                        skip,
                        kept.push(true),
                        in_code || is_code_block(tag),
                        open.push(tag),
                    );
                    lemma_chosen_push(open, kept, tag, true);
                    lemma_closes_first(
                        here,
                        carved_from(
                            s,
                            events,
                            index + 1,
                            skip,
                            kept.push(true),
                            in_code || is_code_block(tag),
                        ),
                        chosen(open, kept),
                    );
                }
            },
            TokenModel::End(tag) => {
                assert(open.len() > 0 && open.last() == tag);
                if !kept.last() {
                    lemma_carved_nested(
                        s,
                        events,
                        index + 1,
                        skip,
                        kept.drop_last(),
                        in_code,
                        open.drop_last(),
                    );
                } else {
                    lemma_carved_nested(
                        s,
                        events,
                        index + 1,
                        skip,
                        kept.drop_last(),
                        in_code && !is_code_block(tag),
                        open.drop_last(),
                    );
                    let inner = chosen(open.drop_last(), kept.drop_last());
                    assert(chosen(open, kept) == inner.push(without_indented(tag)));
                    assert(inner.push(without_indented(tag)).drop_last() =~= inner);
                    lemma_closes_first(
                        here,
                        carved_from(
                            s,
                            events,
                            index + 1,
                            skip,
                            kept.drop_last(),
                            in_code && !is_code_block(tag),
                        ),
                        chosen(open, kept),
                    );
                }
            },
            _ => {
                lemma_carved_nested(s, events, index + 1, skip, kept, in_code, open);
                if range.start >= skip {
                    lemma_closes_first(
                        here,
                        carved_from(s, events, index + 1, skip, kept, in_code),
                        chosen(open, kept),
                    );
                }
            },
        }
    }
}

/// Where a line stops: at a line break, or at the end.
proof fn lemma_line_stop(events: Seq<(TokenModel, Range<usize>)>, from: int, end: int)
    requires
        0 <= from <= end <= events.len(),
    ensures
        from <= line_stop(events, from, end) <= end,
        line_stop(events, from, end) < end ==> events[line_stop(events, from, end)].0
            == TokenModel::SoftBreak,
    decreases end - from,
{
    if from < end && events[from].0 != TokenModel::SoftBreak {
        lemma_line_stop(events, from + 1, end);
    }
}

/// Where a paragraph ends: at the first event that ends a paragraph, or at the end.
proof fn lemma_paragraph_end(events: Seq<(TokenModel, Range<usize>)>, from: int)
    requires
        0 <= from <= events.len(),
    ensures
        from <= paragraph_end(events, from) <= events.len(),
        paragraph_end(events, from) < events.len() ==> events[paragraph_end(events, from)].0
            == TokenModel::End(EventTagModel::Paragraph),
        forall|k: int|
            from <= k < paragraph_end(events, from) ==> (#[trigger] events[k]).0
                != TokenModel::End(EventTagModel::Paragraph),
    decreases events.len() - from,
{
    if from < events.len() && events[from].0 != TokenModel::End(EventTagModel::Paragraph) {
        lemma_paragraph_end(events, from + 1);
    }
}

/// Inside a paragraph of nested events the paragraph stays open: from
/// `from`, where the elements in `open` are open and the one at `base` is a
/// paragraph, to `end`, before which no paragraph ends, at least `base + 1`
/// elements are open at every place. The result is what is open at `end`.
proof fn lemma_paragraph_open(
    events: Seq<(TokenModel, Range<usize>)>,
    from: int,
    end: int,
    open: Seq<EventTagModel>,
    base: int,
) -> (last: Seq<EventTagModel>)
    requires
        0 <= from <= end <= events.len(),
        0 <= base < open.len(),
        open[base] == EventTagModel::Paragraph,
        closes(events, from, open) == Some(Seq::<EventTagModel>::empty()),
        forall|k: int|
            from <= k < end ==> (#[trigger] events[k]).0 != TokenModel::End(
                EventTagModel::Paragraph,
            ),
    ensures
        closes(events, end, last) == Some(Seq::<EventTagModel>::empty()),
        last.len() == open.len() + rise(events, from, end),
        base < last.len(),
        forall|k: int| from <= k <= end ==> open.len() + #[trigger] rise(events, from, k) > base,
    decreases end - from,
{
    if from < end {
        assert(events[from].0 != TokenModel::End(EventTagModel::Paragraph));
        let next = match events[from].0 {
            TokenModel::Start(tag) => open.push(tag),
            TokenModel::End(tag) => open.drop_last(),
            _ => open,
        };
        assert(closes(events, from + 1, next) == Some(Seq::<EventTagModel>::empty()));
        assert(next.len() == open.len() + change(events[from].0));
        assert(base < next.len() && next[base] == EventTagModel::Paragraph);
        let last = lemma_paragraph_open(events, from + 1, end, next, base);
        assert forall|k: int| from <= k <= end implies open.len() + #[trigger] rise(
            events,
            from,
            k,
        ) > base by {
            if k > from {
                assert(next.len() + rise(events, from + 1, k) > base);
            }
        }
        last
    } else {
        open
    }
}

/// The events of a line are counted by the events that they are made of:
/// the line leaves a paragraph open or closed as `open_after` says.
proof fn lemma_line_level(
    events: Seq<(TokenModel, Range<usize>)>,
    range: Range<usize>,
    a: int,
    b: int,
    open: bool,
    broken: Option<int>,
    depth: int,
)
    requires
        0 <= a <= b <= events.len(),
        forall|j: int| a <= j <= b ==> depth + #[trigger] rise(events, a, j) >= 1,
        match broken {
            Some(place) => 0 <= place < events.len() && events[place].0 == TokenModel::SoftBreak,
            None => true,
        },
    ensures
        level(
            line_events(events, range, a, b, open, broken),
            0,
            if open {
                depth
            } else {
                depth - 1
            },
        ) == Some(
            if open_after(events, a, b, open) {
                depth + rise(events, a, b)
            } else {
                depth + rise(events, a, b) - 1
            },
        ),
{
    reveal(line_events);
    let lead = leads(events, a, b);
    let trail = trails(events, a, b);
    let inner_start = if lead {
        a + 1
    } else {
        a
    };
    let inner_end = if trail {
        b - 1
    } else {
        b
    };
    let first = if lead {
        (if open {
            seq![closing(range)]
        } else {
            Seq::empty()
        }) + seq![as_block(events[a])]
    } else {
        Seq::empty()
    };
    let middle = if inner_end > inner_start {
        (if open && !lead {
            match broken {
                Some(place) => seq![events[place]],
                None => Seq::empty(),
            }
        } else {
            seq![opening(range)]
        }) + events.subrange(inner_start, inner_end)
    } else {
        Seq::empty()
    };
    let last = if trail {
        (if (open && !lead) || inner_end > inner_start {
            seq![closing(range)]
        } else {
            Seq::empty()
        }) + seq![as_block(events[b - 1])]
    } else {
        Seq::empty()
    };
    assert(line_events(events, range, a, b, open, broken) == first + middle + last);
    assert(depth + rise(events, a, a) >= 1);
    assert(inner_start <= inner_end);
    // The tags at the ends of the line start and end nothing.
    lemma_rise_split(events, a, inner_start, b);
    lemma_rise_split(events, inner_start, inner_end, b);
    assert(rise(events, a, inner_start) == 0) by {
        if lead {
            assert(rise(events, a + 1, a + 1) == 0);
        }
    }
    assert(rise(events, inner_end, b) == 0) by {
        if trail {
            assert(rise(events, b, b) == 0);
        }
    }
    let before = if open {
        depth
    } else {
        depth - 1
    };
    let after_first = if lead {
        depth - 1
    } else {
        before
    };
    assert(level(first, 0, before) == Some(after_first)) by {
        if lead {
            let head = if open {
                seq![closing(range)]
            } else {
                Seq::empty()
            };
            lemma_level_one(closing(range), depth);
            lemma_level_one(as_block(events[a]), depth - 1);
            lemma_level_add(head, seq![as_block(events[a])], 0, before);
        }
    }
    let inside = depth + rise(events, inner_start, inner_end);
    let stays = open && !lead;
    let after_middle = if inner_end > inner_start {
        inside
    } else {
        after_first
    };
    assert(level(middle, 0, after_first) == Some(after_middle)) by {
        if inner_end > inner_start {
            let head = if stays {
                match broken {
                    Some(place) => seq![events[place]],
                    None => Seq::empty(),
                }
            } else {
                seq![opening(range)]
            };
            assert(level(head, 0, after_first) == Some(depth)) by {
                if stays {
                    match broken {
                        Some(place) => lemma_level_one(events[place], depth),
                        None => {},
                    }
                } else {
                    lemma_level_one(opening(range), depth - 1);
                }
            }
            assert forall|j: int| inner_start <= j <= inner_end implies depth + #[trigger] rise(
                events,
                inner_start,
                j,
            ) >= 0 by {
                lemma_rise_split(events, a, inner_start, j);
                assert(depth + rise(events, a, j) >= 1);
            }
            lemma_level_run(events, inner_start, inner_end, depth);
            lemma_level_add(head, events.subrange(inner_start, inner_end), 0, after_first);
        }
    }
    let held = stays || inner_end > inner_start;
    let after_last = if trail {
        inside - 1
    } else {
        after_middle
    };
    assert(level(last, 0, after_middle) == Some(after_last)) by {
        if trail {
            let head = if held {
                seq![closing(range)]
            } else {
                Seq::empty()
            };
            lemma_rise_split(events, a, inner_start, inner_end);
            assert(depth + rise(events, a, inner_end) >= 1);
            lemma_level_one(closing(range), inside);
            lemma_level_one(as_block(events[b - 1]), inside - 1);
            lemma_level_add(head, seq![as_block(events[b - 1])], 0, after_middle);
        }
    }
    lemma_level_add(first, middle, 0, before);
    lemma_level_add(first + middle, last, 0, before);
}

/// The events of the lines of a paragraph are counted by the events that
/// they are made of, and leave the paragraph closed.
proof fn lemma_lines_level(
    events: Seq<(TokenModel, Range<usize>)>,
    range: Range<usize>,
    from: int,
    end: int,
    open: bool,
    broken: Option<int>,
    depth: int,
)
    requires
        0 <= from <= end <= events.len(),
        forall|j: int| from <= j <= end ==> depth + #[trigger] rise(events, from, j) >= 1,
        match broken {
            Some(place) => 0 <= place < events.len() && events[place].0 == TokenModel::SoftBreak,
            None => true,
        },
    ensures
        level(
            lines_from(events, range, from, end, open, broken),
            0,
            if open {
                depth
            } else {
                depth - 1
            },
        ) == Some(depth + rise(events, from, end) - 1),
    decreases end - from,
{
    lemma_line_stop(events, from, end);
    let stop = line_stop(events, from, end);
    let here = line_events(events, range, from, stop, open, broken);
    let still = open_after(events, from, stop, open);
    let before = if open {
        depth
    } else {
        depth - 1
    };
    let reached = depth + rise(events, from, stop);
    let between = if still {
        reached
    } else {
        reached - 1
    };
    assert forall|j: int| from <= j <= stop implies depth + #[trigger] rise(events, from, j)
        >= 1 by {}
    lemma_line_level(events, range, from, stop, open, broken, depth);
    assert(reached >= 1);
    if stop < end {
        let rest = lines_from(events, range, stop + 1, end, still, Some(stop));
        lemma_rise_split(events, from, stop, end);
        lemma_rise_split(events, stop, stop + 1, end);
        assert(rise(events, stop, stop + 1) == 0) by {
            assert(rise(events, stop + 1, stop + 1) == 0);
        }
        assert forall|j: int| stop + 1 <= j <= end implies reached + #[trigger] rise(
            events,
            stop + 1,
            j,
        ) >= 1 by {
            lemma_rise_split(events, from, stop, j);
            lemma_rise_split(events, stop, stop + 1, j);
            assert(depth + rise(events, from, j) >= 1);
        }
        lemma_lines_level(events, range, stop + 1, end, still, Some(stop), reached);
        lemma_level_add(here, rest, 0, before);
    } else if still {
        lemma_level_one(closing(range), reached);
        lemma_level_add(here, seq![closing(range)], 0, before);
    }
}

/// Moving the tags that stand for blocks out of their paragraphs leaves
/// as many elements open as the events from `index` on close.
proof fn lemma_restructured_level(
    events: Seq<(TokenModel, Range<usize>)>,
    index: int,
    open: Seq<EventTagModel>,
)
    requires
        0 <= index <= events.len(),
        closes(events, index, open) == Some(Seq::<EventTagModel>::empty()),
    ensures
        level(restructured_from(events, index), 0, open.len() as int) == Some(0int),
    decreases events.len() - index,
{
    if index < events.len() {
        if events[index].0 == TokenModel::Start(EventTagModel::Paragraph) {
            let end = paragraph_end(events, index + 1);
            let inside = open.push(EventTagModel::Paragraph);
            let base = open.len() as int;
            let depth = base + 1;
            lemma_paragraph_end(events, index + 1);
            let last = lemma_paragraph_open(events, index + 1, end, inside, base);
            let lines = lines_from(events, events[index].1, index + 1, end, false, None);
            lemma_lines_level(events, events[index].1, index + 1, end, false, None, depth);
            assert(end < events.len());
            assert(last.len() > 0 && last.last() == EventTagModel::Paragraph);
            lemma_restructured_level(events, end + 1, last.drop_last());
            lemma_level_add(lines, restructured_from(events, end + 1), 0, base);
        } else {
            let next = match events[index].0 {
                TokenModel::Start(tag) => open.push(tag),
                TokenModel::End(tag) => open.drop_last(),
                _ => open,
            };
            lemma_restructured_level(events, index + 1, next);
            lemma_level_one(events[index], open.len() as int);
            lemma_level_add(
                seq![events[index]],
                restructured_from(events, index + 1),
                0,
                open.len() as int,
            );
        }
    }
}

/// The events of a document are balanced where those of the tokenizer are
/// nested: at no place have more elements ended than have started, and in
/// the end as many.
pub proof fn lemma_tokenized_balanced(s: Seq<u8>, raw: Seq<(TokenModel, Range<usize>)>)
    requires
        nested(raw),
    ensures
        nested(carved_from(s, raw, 0, 0, Seq::empty(), false)),
        balanced(crate::tokenize::tokenized(s, raw)),
{
    lemma_carved_nested(s, raw, 0, 0, Seq::empty(), false, Seq::empty());
    lemma_restructured_level(carved_from(s, raw, 0, 0, Seq::empty(), false), 0, Seq::empty());
}

} // verus!
