//! The capture list: which entries are shown, where a separator stands, and in
//! which color each span is drawn.
//!
//! Each entry is formatted into [`Line`](crate::render::format::Line)s (via the
//! shared `format` layer) and drawn as colored monospace spans.

use std::collections::{HashMap, HashSet, VecDeque};

use vstd::prelude::*;

use crate::render;
use crate::render::format::{should_separate, should_show, SpanRole};
use crate::session::model;
use crate::session::model::{Entry, EntryModel, Tag};

verus! {

/// Error / parse-failure color (red, green, blue) shared between the capture
/// view and header banner.
pub const ERROR_RED: (u8, u8, u8) = (0xf8, 0x51, 0x49);

/// The color of a tag: requests blue, responses green, orphans orange, parse
/// failures red.
pub open spec fn color_of_tag(tag: Tag) -> (u8, u8, u8) {
    match tag {
        Tag::Request => (0x4a, 0x9f, 0xf0),
        Tag::Response => (0x3f, 0xb9, 0x50),
        Tag::Orphan => (0xd2, 0x99, 0x22),
        Tag::Parse => ERROR_RED,
    }
}

/// The color of a span.
pub open spec fn color_of_role(role: SpanRole, tag: Tag) -> (u8, u8, u8) {
    match role {
        SpanRole::Tag => color_of_tag(tag),
        SpanRole::Error => ERROR_RED,
        SpanRole::Hex => (0xb1, 0xba, 0xca),
        SpanRole::Timestamp => (0x8b, 0x94, 0x9e),
        SpanRole::Address => (0xd2, 0xa8, 0xff),
        SpanRole::Value => (0x7e, 0xe7, 0x87),
        SpanRole::Label => (0xc9, 0xd1, 0xd9),
        SpanRole::Plain => (0xc9, 0xd1, 0xd9),
    }
}

fn tag_color(tag: Tag) -> (r: (u8, u8, u8))
    ensures
        r == color_of_tag(tag),
{
    match tag {
        Tag::Request => (0x4a, 0x9f, 0xf0),
        Tag::Response => (0x3f, 0xb9, 0x50),
        Tag::Orphan => (0xd2, 0x99, 0x22),
        Tag::Parse => ERROR_RED,
    }
}

/// The color (red, green, blue) of a span on a block with the given tag.
pub fn role_color(role: SpanRole, tag: Tag) -> (r: (u8, u8, u8))
    ensures
        r == color_of_role(role, tag),
{
    match role {
        SpanRole::Tag => tag_color(tag),
        SpanRole::Error => ERROR_RED,
        // light gray
        SpanRole::Hex => (0xb1, 0xba, 0xca),
        // dim gray
        SpanRole::Timestamp => (0x8b, 0x94, 0x9e),
        // purple
        SpanRole::Address => (0xd2, 0xa8, 0xff),
        // bright green
        SpanRole::Value => (0x7e, 0xe7, 0x87),
        // default text
        SpanRole::Label => (0xc9, 0xd1, 0xd9),
        SpanRole::Plain => (0xc9, 0xd1, 0xd9),
    }
}

/// A block of the list.
#[derive(Debug, Clone, Copy, PartialEq, Eq, Structural)]
pub struct Row {
    /// Which entry is shown.
    pub index: usize,
    /// Whether a separator stands before it.
    pub separated: bool,
}

/// The counter of the last block.
pub open spec fn last_counter(entries: Seq<EntryModel>, rows: Seq<Row>) -> Option<u64> {
    if rows.len() == 0 {
        None
    } else {
        Some(entries[rows.last().index as int].counter)
    }
}

/// The blocks of the list: the entries that pass the filter, in order, each set
/// apart from the block before it where the separator rules say so.
pub open spec fn rows_of(
    entries: Seq<EntryModel>,
    slaves: Map<u64, u8>,
    filter: Option<Set<u8>>,
) -> Seq<Row>
    decreases entries.len(),
{
    if entries.len() == 0 {
        Seq::empty()
    } else {
        let before = rows_of(entries.drop_last(), slaves, filter);
        let e = entries.last();
        if render::format::is_shown(e, slaves, filter) {
            before.push(
                Row {
                    index: (entries.len() - 1) as usize,
                    separated: render::format::is_separated(
                        last_counter(entries, before),
                        e.counter,
                        e.tag,
                    ),
                },
            )
        } else {
            before
        }
    }
}

/// Lay out the capture list. Only entries matching the `show_set` filter get a
/// row (`None` = show all).
///
/// `slave_map` is the pre-computed `counter → slave` map; rebuild it only
/// when entries change, not every frame.
pub fn visible_rows(
    entries: &VecDeque<Entry>,
    slave_map: &HashMap<u64, u8>,
    show_set: Option<&HashSet<u8>>,
) -> (r: Vec<Row>)
    ensures
        r@ == rows_of(
            model::entry_views(entries@),
            slave_map@,
            render::format::filter_set(show_set),
        ),
{
    let mut rows: Vec<Row> = Vec::new();
    let mut prev_counter: Option<u64> = None;
    let ghost all = model::entry_views(entries@);
    let ghost filter = render::format::filter_set(show_set);
    let mut i: usize = 0;
    while i < entries.len()
        invariant
            i <= entries.len(),
            all == model::entry_views(entries@),
            filter == render::format::filter_set(show_set),
            rows@ == rows_of(all.take(i as int), slave_map@, filter),
            prev_counter == last_counter(all.take(i as int), rows@),
            forall|k: int| 0 <= k < rows@.len() ==> (#[trigger] rows@[k]).index < i,
        decreases entries.len() - i,
    {
        let entry = &entries[i];
        proof {
            assert(all.take(i + 1).drop_last() =~= all.take(i as int));
            assert(all.take(i + 1).last() == entry@);
            if rows@.len() > 0 {
                assert(rows@[rows@.len() - 1].index < i);
            }
            assert(last_counter(all.take(i + 1), rows@) == last_counter(all.take(i as int), rows@));
        }
        if should_show(entry, slave_map, show_set) {
            let separated = should_separate(prev_counter, entry.counter, entry.tag);
            prev_counter = Some(entry.counter);
            rows.push(Row { index: i, separated });
        }
        i = i + 1;
    }
    assert(all.take(i as int) =~= all);
    rows
}

// --- laws --------------------------------------------------------------------

/// The rows are exactly the entries that pass the filter, in order.
pub proof fn rows_are_the_shown_entries(
    entries: Seq<EntryModel>,
    slaves: Map<u64, u8>,
    filter: Option<Set<u8>>,
)
    requires
        entries.len() <= usize::MAX,
    ensures
        ({
            let rows = rows_of(entries, slaves, filter);
            &&& forall|k: int, l: int|
                0 <= k < l < rows.len() ==> (#[trigger] rows[k]).index < (#[trigger] rows[l]).index
            &&& forall|k: int|
                0 <= k < rows.len() ==> (#[trigger] rows[k]).index < entries.len()
                    && render::format::is_shown(entries[rows[k].index as int], slaves, filter)
            &&& forall|i: int|
                0 <= i < entries.len() && render::format::is_shown(
                    #[trigger] entries[i],
                    slaves,
                    filter,
                ) ==> exists|k: int| 0 <= k < rows.len() && (#[trigger] rows[k]).index == i
        }),
    decreases entries.len(),
{
    if entries.len() > 0 {
        let front = entries.drop_last();
        let before = rows_of(front, slaves, filter);
        let rows = rows_of(entries, slaves, filter);
        rows_are_the_shown_entries(front, slaves, filter);
        assert forall|k: int| 0 <= k < rows.len() implies (#[trigger] rows[k]).index
            < entries.len() && render::format::is_shown(
            entries[rows[k].index as int],
            slaves,
            filter,
        ) by {
            if k < before.len() {
                assert(before[k].index < front.len());
                assert(front[before[k].index as int] == entries[before[k].index as int]);
            }
        }
        assert forall|k: int, l: int| 0 <= k < l < rows.len() implies (#[trigger] rows[k]).index < (
        #[trigger] rows[l]).index by {
            assert(before[k].index < front.len());
            if l < before.len() {
                assert(before[k].index < before[l].index);
            }
        }
        assert forall|i: int|
            0 <= i < entries.len() && render::format::is_shown(
                #[trigger] entries[i],
                slaves,
                filter,
            ) implies exists|k: int| 0 <= k < rows.len() && (#[trigger] rows[k]).index == i by {
            if i < front.len() {
                assert(render::format::is_shown(front[i], slaves, filter));
                let k = choose|k: int| 0 <= k < before.len() && (#[trigger] before[k]).index == i;
                assert(rows[k].index == i);
            } else {
                assert(rows[rows.len() - 1].index == i);
            }
        }
    }
}

/// Without a filter every entry has its row.
pub proof fn no_filter_shows_everything(entries: Seq<EntryModel>, slaves: Map<u64, u8>)
    requires
        entries.len() <= usize::MAX,
    ensures
        rows_of(entries, slaves, None).len() == entries.len(),
        forall|i: int|
            0 <= i < entries.len() ==> (#[trigger] rows_of(entries, slaves, None)[i]).index == i,
    decreases entries.len(),
{
    if entries.len() > 0 {
        no_filter_shows_everything(entries.drop_last(), slaves);
    }
}

/// A separator stands before a row exactly if the row shown before it belongs to
/// another transaction, or if the row can belong to none.
pub proof fn separators_stand_between_sessions(
    entries: Seq<EntryModel>,
    slaves: Map<u64, u8>,
    filter: Option<Set<u8>>,
    k: int,
)
    requires
        entries.len() <= usize::MAX,
        0 <= k < rows_of(entries, slaves, filter).len(),
    ensures
        ({
            let rows = rows_of(entries, slaves, filter);
            let e = entries[rows[k].index as int];
            rows[k].separated <==> e.tag == Tag::Orphan || e.tag == Tag::Parse || (k > 0
                && entries[rows[k - 1].index as int].counter != e.counter)
        }),
    decreases entries.len(),
{
    if entries.len() > 0 {
        let front = entries.drop_last();
        let before = rows_of(front, slaves, filter);
        rows_are_the_shown_entries(front, slaves, filter);
        rows_are_the_shown_entries(entries, slaves, filter);
        assert(forall|j: int|
            0 <= j < before.len() ==> front[(#[trigger] before[j]).index as int]
                == entries[before[j].index as int]);
        if k < before.len() {
            separators_stand_between_sessions(front, slaves, filter, k);
            assert(rows_of(entries, slaves, filter)[k] == before[k]);
            assert(before[k].index < front.len());
            if k > 0 {
                assert(rows_of(entries, slaves, filter)[k - 1] == before[k - 1]);
                assert(before[k - 1].index < front.len());
            }
        } else if before.len() > 0 {
            assert(before[before.len() - 1].index < front.len());
        }
    }
}

/// Requests are blue, responses green, orphans orange, and what went wrong is red,
/// whatever block it stands on; everything else has the same color on every block.
pub proof fn colors_tell_the_roles(role: SpanRole, tag: Tag, other: Tag)
    ensures
        ({
            let c = color_of_role(SpanRole::Tag, Tag::Request);
            c.2 > c.1 > c.0
        }),
        ({
            let c = color_of_role(SpanRole::Tag, Tag::Response);
            c.1 > c.0 && c.1 > c.2
        }),
        ({
            let c = color_of_role(SpanRole::Tag, Tag::Orphan);
            c.0 > c.1 > c.2
        }),
        color_of_role(SpanRole::Tag, Tag::Parse) == color_of_role(SpanRole::Error, tag),
        ({
            let c = color_of_role(SpanRole::Error, tag);
            c.0 > 2 * c.1 && c.0 > 2 * c.2
        }),
        role != SpanRole::Tag ==> color_of_role(role, tag) == color_of_role(role, other),
        tag != other ==> color_of_tag(tag) != color_of_tag(other),
        color_of_role(SpanRole::Tag, tag) == color_of_tag(tag),
{
}

} // verus!
