//! Plain-text export of captured entries.

use std::collections::{HashSet, VecDeque};

use vstd::prelude::*;

use crate::render;
use crate::render::format::{counter_slave_map, format_entry, lines_to_plain};
use crate::render::ui_view;
use crate::render::ui_view::{visible_rows, Row};
use crate::session::model;
use crate::session::model::{Entry, EntryModel};
use crate::time;
use crate::time::Timestamp;

verus! {

broadcast use vstd::string::group_string_axioms;

/// The text of blocks: a separator line where one is due, then the lines of the
/// entry, each ended by a newline.
pub open spec fn blocks_text(entries: Seq<EntryModel>, rows: Seq<Row>) -> Seq<char>
    decreases rows.len(),
{
    if rows.len() == 0 {
        Seq::empty()
    } else {
        let row = rows.last();
        let before = blocks_text(entries, rows.drop_last());
        let mark = if row.separated {
            before + "---\n"@
        } else {
            before
        };
        let block = render::format::entry_lines(entries[row.index as int]);
        mark + render::format::plain_text(block) + "\n"@
    }
}

/// The exported text.
pub open spec fn exported(entries: Seq<EntryModel>, filter: Option<Set<u8>>) -> Seq<char> {
    blocks_text(entries, ui_view::rows_of(entries, render::format::slave_map(entries), filter))
}

/// Render all `entries` as plain text (no color), one block per entry.
/// Only entries matching `show_set` are included (`None` = include all).
pub fn entries_to_text(entries: &VecDeque<Entry>, show_set: Option<&HashSet<u8>>) -> (r: String)
    ensures
        r@ == exported(model::entry_views(entries@), render::format::filter_set(show_set)),
{
    let map = counter_slave_map(entries);
    let rows = visible_rows(entries, &map, show_set);
    let ghost all = model::entry_views(entries@);
    let len: usize = entries.len();
    proof {
        ui_view::rows_are_the_shown_entries(all, map@, render::format::filter_set(show_set));
    }
    let mut text = String::new();
    let mut i: usize = 0;
    assert(rows@.take(0) =~= Seq::<Row>::empty());
    while i < rows.len()
        invariant
            i <= rows.len(),
            all == model::entry_views(entries@),
            forall|k: int| 0 <= k < rows@.len() ==> (#[trigger] rows@[k]).index < entries@.len(),
            text@ == blocks_text(all, rows@.take(i as int)),
        decreases rows.len() - i,
    {
        let row = rows[i];
        proof {
            assert(rows@.take(i + 1).drop_last() =~= rows@.take(i as int));
            assert(rows@.take(i + 1).last() == row);
        }
        if row.separated {
            text.append("---\n");
        }
        let lines = format_entry(&entries[row.index]);
        text.append(lines_to_plain(lines.as_slice()).as_str());
        text.append("\n");
        i = i + 1;
    }
    assert(rows@.take(i as int) =~= rows@);
    text
}

/// The name that is offered for an exported file.
pub fn default_file_name(now: &Timestamp) -> (r: String)
    ensures
        r@ == "mbshark_"@ + time::strftime_text(
            now.secs(),
            now.nanos(),
            now.offset(),
            time::FILE_PATTERN@,
        ) + ".txt"@,
{
    default_name_with(now.file_stamp().as_str())
}

/// The name of an exported file with the given date and time in it.
pub fn default_name_with(stamp: &str) -> (r: String)
    ensures
        r@ == "mbshark_"@ + stamp@ + ".txt"@,
{
    String::from_str("mbshark_").concat(stamp).concat(".txt")
}

/// A list that grows keeps what was exported of it: entries that come later
/// only add to the unfiltered text.
pub proof fn export_only_grows(entries: Seq<EntryModel>, e: EntryModel)
    requires
        entries.len() < usize::MAX,
    ensures
        exported(entries, None).is_prefix_of(exported(entries.push(e), None)),
{
    let more = entries.push(e);
    let slaves = render::format::slave_map(entries);
    let grown = render::format::slave_map(more);
    let rows = ui_view::rows_of(entries, slaves, None);
    lemma_rows_ignore_the_map(entries, slaves, grown);
    assert(more.drop_last() =~= entries);
    let all = ui_view::rows_of(more, grown, None);
    assert(all.drop_last() =~= rows);
    ui_view::no_filter_shows_everything(entries, slaves);
    lemma_blocks_of_a_part(entries, e, rows);
    let before = blocks_text(more, rows);
    assert(exported(more, None).take(before.len() as int) =~= before);
}

/// Without a filter the map does not matter.
proof fn lemma_rows_ignore_the_map(
    entries: Seq<EntryModel>,
    slaves: Map<u64, u8>,
    other: Map<u64, u8>,
)
    ensures
        ui_view::rows_of(entries, slaves, None) == ui_view::rows_of(entries, other, None),
    decreases entries.len(),
{
    if entries.len() > 0 {
        lemma_rows_ignore_the_map(entries.drop_last(), slaves, other);
    }
}

proof fn lemma_blocks_of_a_part(entries: Seq<EntryModel>, e: EntryModel, rows: Seq<Row>)
    requires
        forall|k: int| 0 <= k < rows.len() ==> (#[trigger] rows[k]).index < entries.len(),
    ensures
        blocks_text(entries.push(e), rows) == blocks_text(entries, rows),
    decreases rows.len(),
{
    if rows.len() > 0 {
        let front = rows.drop_last();
        assert forall|k: int| 0 <= k < front.len() implies (#[trigger] front[k]).index
            < entries.len() by {
            assert(rows[k].index < entries.len());
        }
        lemma_blocks_of_a_part(entries, e, front);
        assert(rows[rows.len() - 1].index < entries.len());
        assert(entries.push(e)[rows.last().index as int] == entries[rows.last().index as int]);
    }
}

/// What an entry adds to the exported text: nothing where the filter hides it; else
/// its block and a line end, behind a line of dashes where its row is set apart.
pub proof fn each_row_adds_its_block(entries: Seq<EntryModel>, rows: Seq<Row>, row: Row)
    ensures
        blocks_text(entries, Seq::<Row>::empty()) == Seq::<char>::empty(),
        row.separated ==> blocks_text(entries, rows.push(row)) == blocks_text(entries, rows)
            + "---\n"@ + render::format::plain_text(
            render::format::entry_lines(entries[row.index as int]),
        ) + "\n"@,
        !row.separated ==> blocks_text(entries, rows.push(row)) == blocks_text(entries, rows)
            + render::format::plain_text(
            render::format::entry_lines(entries[row.index as int]),
        ) + "\n"@,
{
    assert(rows.push(row).drop_last() =~= rows);
}

/// An export holds the block of every entry that its filter lets through; without a
/// filter, of every entry.
pub proof fn export_holds_what_is_shown(entries: Seq<EntryModel>, filter: Option<Set<u8>>, i: int)
    requires
        entries.len() <= usize::MAX,
        0 <= i < entries.len(),
        filter is None || render::format::is_shown(
            entries[i],
            render::format::slave_map(entries),
            filter,
        ),
    ensures
        holds_block(exported(entries, filter), entries[i]),
{
    let slaves = render::format::slave_map(entries);
    let rows = ui_view::rows_of(entries, slaves, filter);
    assert(exists|k: int| 0 <= k < rows.len() && (#[trigger] rows[k]).index == i) by {
        ui_view::rows_are_the_shown_entries(entries, slaves, filter);
        assert(render::format::is_shown(entries[i], slaves, filter));
    }
    let k = choose|k: int| 0 <= k < rows.len() && (#[trigger] rows[k]).index == i;
    lemma_block_is_held(entries, rows, k);
}

/// Whether a text holds the block of an entry.
#[verifier::opaque]
pub open spec fn holds_block(whole: Seq<char>, e: EntryModel) -> bool {
    exists|at: int| #[trigger]
        stands_at(render::format::plain_text(render::format::entry_lines(e)), whole, at)
}

/// Whether a text stands in another at a place, ended by a line end.
pub open spec fn stands_at(part: Seq<char>, whole: Seq<char>, at: int) -> bool {
    &&& 0 <= at
    &&& at + part.len() < whole.len()
    &&& whole.subrange(at, at + part.len()) == part
    &&& whole[at + part.len()] == '\n'
}

proof fn lemma_block_is_held(entries: Seq<EntryModel>, rows: Seq<Row>, k: int)
    requires
        0 <= k < rows.len(),
    ensures
        holds_block(blocks_text(entries, rows), entries[rows[k].index as int]),
    decreases rows.len(),
{
    reveal(holds_block);
    let whole = blocks_text(entries, rows);
    let front = rows.drop_last();
    let before = blocks_text(entries, front);
    let part = render::format::plain_text(
        render::format::entry_lines(entries[rows[k].index as int]),
    );
    reveal_strlit("\n");
    if k < front.len() {
        lemma_block_is_held(entries, front, k);
        let at = choose|at: int| #[trigger] stands_at(part, before, at);
        assert(whole.subrange(at, at + part.len()) =~= before.subrange(at, at + part.len()));
        assert(stands_at(part, whole, at));
    } else {
        let at = whole.len() - part.len() - 1;
        assert(whole.subrange(at, at + part.len()) =~= part);
        assert(stands_at(part, whole, at));
    }
}

/// The entries that a filter lets through, in order.
pub open spec fn picked(
    entries: Seq<EntryModel>,
    slaves: Map<u64, u8>,
    filter: Option<Set<u8>>,
) -> Seq<EntryModel>
    decreases entries.len(),
{
    if entries.len() == 0 {
        Seq::empty()
    } else {
        let before = picked(entries.drop_last(), slaves, filter);
        if render::format::is_shown(entries.last(), slaves, filter) {
            before.push(entries.last())
        } else {
            before
        }
    }
}

/// Hidden entries leave no trace: an export with a filter is the export, without
/// one, of the entries that the filter lets through.
pub proof fn hidden_entries_leave_no_trace(entries: Seq<EntryModel>, filter: Option<Set<u8>>)
    requires
        entries.len() <= usize::MAX,
    ensures
        ({
            let slaves = render::format::slave_map(entries);
            exported(entries, filter) == exported(picked(entries, slaves, filter), None)
        }),
{
    let slaves = render::format::slave_map(entries);
    let few = picked(entries, slaves, filter);
    let some = ui_view::rows_of(entries, slaves, filter);
    let all = ui_view::rows_of(few, render::format::slave_map(few), None);
    lemma_rows_are_picked(entries, slaves, filter);
    ui_view::no_filter_shows_everything(few, render::format::slave_map(few));
    assert forall|k: int| 0 <= k < some.len() implies (#[trigger] some[k]).separated
        == all[k].separated && entries[some[k].index as int] == few[all[k].index as int] by {
        ui_view::separators_stand_between_sessions(entries, slaves, filter, k);
        ui_view::separators_stand_between_sessions(few, render::format::slave_map(few), None, k);
        assert(all[k].index == k);
        assert(entries[some[k].index as int] == few[k]);
        if k > 0 {
            assert(all[k - 1].index == k - 1);
            assert(entries[some[k - 1].index as int] == few[k - 1]);
        }
    }
    lemma_same_blocks(entries, some, few, all);
}

proof fn lemma_rows_are_picked(
    entries: Seq<EntryModel>,
    slaves: Map<u64, u8>,
    filter: Option<Set<u8>>,
)
    requires
        entries.len() <= usize::MAX,
    ensures
        ({
            let rows = ui_view::rows_of(entries, slaves, filter);
            let few = picked(entries, slaves, filter);
            &&& rows.len() == few.len()
            &&& few.len() <= entries.len()
            &&& forall|k: int|
                0 <= k < rows.len() ==> (#[trigger] rows[k]).index < entries.len()
                    && entries[rows[k].index as int] == few[k]
        }),
    decreases entries.len(),
{
    if entries.len() > 0 {
        let front = entries.drop_last();
        let before = ui_view::rows_of(front, slaves, filter);
        let rows = ui_view::rows_of(entries, slaves, filter);
        lemma_rows_are_picked(front, slaves, filter);
        assert forall|k: int| 0 <= k < rows.len() implies (#[trigger] rows[k]).index
            < entries.len() && entries[rows[k].index as int] == picked(
            entries,
            slaves,
            filter,
        )[k] by {
            if k < before.len() {
                assert(before[k].index < front.len());
                assert(front[before[k].index as int] == entries[before[k].index as int]);
            }
        }
    }
}

proof fn lemma_same_blocks(
    entries: Seq<EntryModel>,
    rows: Seq<Row>,
    others: Seq<EntryModel>,
    other_rows: Seq<Row>,
)
    requires
        rows.len() == other_rows.len(),
        forall|k: int|
            0 <= k < rows.len() ==> (#[trigger] rows[k]).separated == other_rows[k].separated
                && entries[rows[k].index as int] == others[other_rows[k].index as int],
    ensures
        blocks_text(entries, rows) == blocks_text(others, other_rows),
    decreases rows.len(),
{
    if rows.len() > 0 {
        let front = rows.drop_last();
        let other_front = other_rows.drop_last();
        assert forall|k: int| 0 <= k < front.len() implies (#[trigger] front[k]).separated
            == other_front[k].separated && entries[front[k].index as int]
            == others[other_front[k].index as int] by {
            assert(rows[k].separated == other_rows[k].separated);
        }
        lemma_same_blocks(entries, front, others, other_front);
        let k = rows.len() - 1;
        assert(rows[k].separated == other_rows[k].separated);
    }
}

} // verus!
