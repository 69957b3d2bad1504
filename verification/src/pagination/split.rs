//! Splitting a table over columns and pages.

use vstd::prelude::*;
use crate::model::{CaptionDirection, Control, MeasuredSection, MeasuredTable, Paragraph};
use crate::units::spec_hwpunit_to_px;
use crate::units::{len_ok, clamp_len, max_int, clamp_len_exec, len_room, len_add, len_sub, len_max, hwpunit_to_px, LEN_LIMIT};
use super::types::{PageItem, page_footnotes};
use super::state::{PaginationState, column_position};
use super::engine::{Paginator, stepped, new_items, lemma_step_same, lemma_step_push, lemma_stepped_trans, lemma_stepped_refl};
use super::controls::any_table_in;

verus! {

/// Least content (10 px) worth leaving on a page when a row is split inside.
pub const MIN_SPLIT_CONTENT_PX: i64 = 72_000;

/// What remains to be placed of the split loop: the rows left, and how much
/// of the current row's content is left once part of it is placed.
pub open spec fn split_measure(mt: &MeasuredTable, cursor_row: int, content_offset: int) -> int {
    if content_offset <= 0 {
        3 * LEN_LIMIT
    } else {
        let rem = mt.spec_row_content(cursor_row) - content_offset;
        if rem > 0 { rem + 1 } else { 1 }
    }
}

/// The items are parts of table `c` of paragraph `pi` that place its rows
/// from row 0 on, each part starting at the row where the one before it
/// ended, or at that part's last row when the part cut that row inside;
/// `next` is where a following part may start.
pub open spec fn rows_chain(items: Seq<PageItem>, pi: usize, c: usize, next: int) -> bool
    decreases items.len(),
{
    if items.len() == 0 {
        next == 0
    } else {
        match items.last() {
            PageItem::PartialTable { para_index, control_index, start_row, end_row, split_end_content_limit, .. } => {
                &&& para_index == pi
                &&& control_index == c
                &&& start_row < end_row
                &&& (next == end_row || (split_end_content_limit > 0 && next == end_row - 1))
                &&& rows_chain(items.drop_last(), pi, c, start_row as int)
            },
            _ => false,
        }
    }
}

/// The rows `0..rows` of table `c` of paragraph `pi` are placed: the table
/// whole in one item, or in parts chained from row 0 whose last part ends
/// at the last row.
pub open spec fn table_rows_placed(items: Seq<PageItem>, pi: usize, c: usize, rows: int) -> bool {
    ||| items == seq![PageItem::Table { para_index: pi, control_index: c }]
    ||| (items.len() > 0 && rows_chain(items, pi, c, rows)
        && (items.last() matches PageItem::PartialTable { end_row, .. } && end_row == rows))
}

/// The first part of a split table is marked as the start of the table,
/// every later part as a continuation.
pub open spec fn continuation_marked(items: Seq<PageItem>) -> bool {
    forall|k: int| 0 <= k < items.len() ==> (#[trigger] items[k] matches PageItem::PartialTable { is_continuation, .. }
        ==> is_continuation == (k > 0))
}

/// Where in its row the part after `p` goes on: past the content of the
/// cut row placed so far, where `p` cut its last row inside; at the row's
/// start otherwise.
pub open spec fn offset_after(p: PageItem) -> int {
    match p {
        PageItem::PartialTable { start_row, end_row, split_start_content_offset, split_end_content_limit, .. } =>
            if split_end_content_limit > 0 {
                if start_row + 1 == end_row {
                    clamp_len(split_start_content_offset + split_end_content_limit)
                } else {
                    split_end_content_limit as int
                }
            } else {
                0
            },
        _ => 0,
    }
}

/// A part that goes on with a row the part before it cut inside starts
/// where the cut was made; every other part starts at the top of its first
/// row.
pub open spec fn offsets_chained(items: Seq<PageItem>) -> bool {
    forall|k: int| 0 <= k < items.len() ==> (#[trigger] items[k] matches PageItem::PartialTable { start_row, split_start_content_offset, .. }
        ==> split_start_content_offset == (if k > 0 && (items[k - 1] matches PageItem::PartialTable { end_row, split_end_content_limit, .. }
            && split_end_content_limit > 0 && start_row + 1 == end_row) { offset_after(items[k - 1]) } else { 0 }))
}

/// The marks of the parts placed so far of a split table: which is the
/// first, and where each part starts in its first row.
pub open spec fn parts_marked(ni: Seq<PageItem>) -> bool {
    continuation_marked(ni) && offsets_chained(ni)
}

/// The parts placed so far of a table being split: chained from row 0,
/// the last ending within the table's `rows`; the next part starts at row
/// `cursor`, at `offset` into it (past what a cut placed of that row), and
/// is a continuation exactly when parts were placed before.
#[verifier::opaque]
pub open spec fn split_progress(ni: Seq<PageItem>, pi: usize, c: usize, cursor: int, offset: int, is_cont: bool, rows: int) -> bool {
    &&& rows_chain(ni, pi, c, cursor)
    &&& !is_cont ==> ni.len() == 0 && cursor == 0 && offset == 0
    &&& is_cont ==> ni.len() > 0
    &&& offset > 0 ==> ni.len() > 0 && (ni.last() matches PageItem::PartialTable { end_row, split_end_content_limit, .. }
        && end_row == cursor + 1 && split_end_content_limit > 0)
    &&& ni.len() > 0 ==> (ni.last() matches PageItem::PartialTable { end_row, .. } && end_row <= rows)
    &&& ni.len() > 0 ==> offset == (if (ni.last() matches PageItem::PartialTable { end_row, split_end_content_limit, .. }
        && split_end_content_limit > 0 && cursor + 1 == end_row) { offset_after(ni.last()) } else { 0 })
}

proof fn lemma_split_start(pi: usize, c: usize, rows: int)
    ensures
        split_progress(Seq::empty(), pi, c, 0, 0, false, rows),
        parts_marked(Seq::<PageItem>::empty()),
{
    reveal(split_progress);
}

/// Skipping a row whose content a cut placed in full.
proof fn lemma_split_skip(ni: Seq<PageItem>, pi: usize, c: usize, cursor: int, offset: int, rows: int)
    requires
        split_progress(ni, pi, c, cursor, offset, true, rows),
        offset > 0,
    ensures
        split_progress(ni, pi, c, cursor + 1, 0, true, rows),
{
    reveal(split_progress);
}

/// A part placed after the parts before it keeps the parts marked.
proof fn lemma_parts_marked_push(ni: Seq<PageItem>, x: PageItem, is_cont: bool, offset: int)
    requires
        parts_marked(ni),
        is_cont == (ni.len() > 0),
        x matches PageItem::PartialTable { is_continuation, start_row, split_start_content_offset, .. }
            && is_continuation == is_cont && split_start_content_offset == offset
            && offset == (if ni.len() > 0 && (ni.last() matches PageItem::PartialTable { end_row, split_end_content_limit, .. }
                && split_end_content_limit > 0 && start_row + 1 == end_row) { offset_after(ni.last()) } else { 0 }),
    ensures
        parts_marked(ni.push(x)),
{
    let n2 = ni.push(x);
    assert forall|k: int| 0 <= k < n2.len() implies (#[trigger] n2[k] matches PageItem::PartialTable { is_continuation, .. }
        ==> is_continuation == (k > 0)) by {
        if k < ni.len() {
            assert(n2[k] == ni[k]);
        }
    }
    assert forall|k: int| 0 <= k < n2.len() implies (#[trigger] n2[k] matches PageItem::PartialTable { start_row, split_start_content_offset, .. }
        ==> split_start_content_offset == (if k > 0 && (n2[k - 1] matches PageItem::PartialTable { end_row, split_end_content_limit, .. }
            && split_end_content_limit > 0 && start_row + 1 == end_row) { offset_after(n2[k - 1]) } else { 0 })) by {
        if k < ni.len() {
            assert(n2[k] == ni[k]);
            if k > 0 {
                assert(n2[k - 1] == ni[k - 1]);
            }
        } else if k > 0 {
            assert(n2[k - 1] == ni.last());
        }
    }
}

/// Placing a part that does not end the table.
proof fn lemma_split_part(
    ni: Seq<PageItem>,
    x: PageItem,
    pi: usize,
    c: usize,
    cursor: int,
    offset: int,
    is_cont: bool,
    rows: int,
    end: int,
    limit: int,
    cursor2: int,
    offset2: int,
)
    requires
        split_progress(ni, pi, c, cursor, offset, is_cont, rows),
        parts_marked(ni),
        x == (PageItem::PartialTable {
            para_index: pi,
            control_index: c,
            start_row: cursor as usize,
            end_row: end as usize,
            is_continuation: is_cont,
            split_start_content_offset: offset as i64,
            split_end_content_limit: limit as i64,
        }),
        0 <= cursor < end <= rows,
        rows <= usize::MAX,
        len_ok(offset),
        len_ok(limit),
        limit >= 0,
        cursor2 == (if limit > 0 { end - 1 } else { end }),
        offset2 == (if limit > 0 { if end - 1 == cursor { clamp_len(offset + limit) } else { limit } } else { 0 }),
    ensures
        split_progress(ni.push(x), pi, c, cursor2, offset2, true, rows),
        parts_marked(ni.push(x)),
{
    reveal(split_progress);
    lemma_rows_chain_push(ni, x, pi, c, cursor, cursor2);
    lemma_parts_marked_push(ni, x, is_cont, offset);
    assert(ni.push(x).last() == x);
}

/// Placing the last part, which ends the table.
proof fn lemma_split_last_part(
    ni: Seq<PageItem>,
    x: PageItem,
    pi: usize,
    c: usize,
    cursor: int,
    offset: int,
    is_cont: bool,
    rows: int,
)
    requires
        split_progress(ni, pi, c, cursor, offset, is_cont, rows),
        parts_marked(ni),
        x == (PageItem::PartialTable {
            para_index: pi,
            control_index: c,
            start_row: cursor as usize,
            end_row: rows as usize,
            is_continuation: is_cont,
            split_start_content_offset: offset as i64,
            split_end_content_limit: 0,
        }),
        0 <= cursor < rows <= usize::MAX,
        len_ok(offset),
    ensures
        table_rows_placed(ni.push(x), pi, c, rows),
        parts_marked(ni.push(x)),
{
    lemma_split_part(ni, x, pi, c, cursor, offset, is_cont, rows, rows, 0, rows, 0);
    reveal(split_progress);
}

/// Placing the whole table as the first and only item.
proof fn lemma_split_whole(ni: Seq<PageItem>, pi: usize, c: usize, cursor: int, offset: int, rows: int)
    requires
        split_progress(ni, pi, c, cursor, offset, false, rows),
    ensures
        ni.push(PageItem::Table { para_index: pi, control_index: c }) == seq![PageItem::Table { para_index: pi, control_index: c }],
        table_rows_placed(ni.push(PageItem::Table { para_index: pi, control_index: c }), pi, c, rows),
        parts_marked(ni.push(PageItem::Table { para_index: pi, control_index: c })),
{
    reveal(split_progress);
    assert(ni.push(PageItem::Table { para_index: pi, control_index: c }) =~= seq![PageItem::Table { para_index: pi, control_index: c }]);
}

/// Running out of rows by skipping.
proof fn lemma_split_done(ni: Seq<PageItem>, pi: usize, c: usize, cursor: int, offset: int, is_cont: bool, rows: int)
    requires
        split_progress(ni, pi, c, cursor, offset, is_cont, rows),
        cursor >= rows,
        rows > 0 || !is_cont,
    ensures
        rows > 0 ==> table_rows_placed(ni, pi, c, rows),
        rows == 0 ==> ni.len() == 0,
{
    reveal(split_progress);
}

/// A later part pushed after the parts before it keeps the first item and
/// every later part as they were.
proof fn lemma_later_part_push(ni: Seq<PageItem>, x: PageItem, para: &Paragraph, ci: usize, mt: MeasuredTable, dpi: i64, base: int)
    requires
        forall|k: int| 1 <= k < ni.len() ==> #[trigger] later_table_part_ok(ni[k], para, ci, mt, dpi, base),
        ni.len() > 0,
        later_table_part_ok(x, para, ci, mt, dpi, base),
    ensures
        forall|k: int| 1 <= k < ni.push(x).len() ==> #[trigger] later_table_part_ok(ni.push(x)[k], para, ci, mt, dpi, base),
        ni.push(x)[0] == ni[0],
{
    assert forall|k: int| 1 <= k < ni.push(x).len() implies #[trigger] later_table_part_ok(ni.push(x)[k], para, ci, mt, dpi, base) by {
        if k < ni.len() {
            assert(ni.push(x)[k] == ni[k]);
        }
    }
}

proof fn lemma_new_items_push(s0: &PaginationState, s1: &PaginationState, s2: &PaginationState, x: PageItem)
    requires
        s0.all_items().is_prefix_of(s1.all_items()),
        s2.all_items() == s1.all_items().push(x),
    ensures
        new_items(s0, s2) == new_items(s0, s1).push(x),
        new_items(s0, s2).drop_last() == new_items(s0, s1),
{
    assert(new_items(s0, s2) =~= new_items(s0, s1).push(x));
    assert(new_items(s0, s2).drop_last() =~= new_items(s0, s1));
}

/// One more part, starting where the chain allows, extends it.
proof fn lemma_rows_chain_push(items: Seq<PageItem>, x: PageItem, pi: usize, c: usize, next: int, next2: int)
    requires
        rows_chain(items, pi, c, next),
        x matches PageItem::PartialTable { para_index, control_index, start_row, end_row, split_end_content_limit, .. }
            && para_index == pi && control_index == c && start_row == next && start_row < end_row
            && (next2 == end_row || (split_end_content_limit > 0 && next2 == end_row - 1)),
    ensures
        rows_chain(items.push(x), pi, c, next2),
{
    assert(items.push(x).drop_last() =~= items);
    assert(items.push(x).last() == x);
}

/// Where a part of a table that starts at row `cursor` (at `offset` into
/// its content) ends when `avail` is the height for its rows and the first
/// row counts `first_h`: after the rows that fit whole (`find_break_row`).
/// Where not even the first row fits, after that row, cut inside it (at the
/// content that fits, less its padding) where it may be split and enough
/// content (10 px, and its first line) goes on each side, or where it is
/// taller than the room; otherwise the row that does not fit is cut inside
/// in the same way where it may be split, or where it is taller than a
/// whole body height (`base`). The second value is the content the part
/// takes of the row it cuts (zero where it cuts none). A part holds at
/// least one row.
#[verifier::opaque]
pub open spec fn spec_part_end(mt: MeasuredTable, cursor: int, offset: int, avail: int, first_h: int, can_split: bool, base: int) -> (int, int) {
    let rows = mt.row_heights@.len() as int;
    let cs = mt.spec_cell_spacing();
    let approx = mt.spec_find_break_row(avail, cursor, first_h, cursor, 0);
    let el: (int, int) = if approx <= cursor {
        let r = cursor;
        if can_split && mt.spec_row_splittable(r) {
            let ac = clamp_len(max_int(avail - mt.spec_row_padding(r), 0));
            let rem = mt.spec_remaining_content(r, offset) - ac;
            (r + 1, if ac >= MIN_SPLIT_CONTENT_PX && ac >= mt.spec_row_first_line(r) && rem >= MIN_SPLIT_CONTENT_PX { ac } else { 0 })
        } else if can_split && first_h > avail {
            let ac = clamp_len(max_int(avail - mt.spec_row_padding(r), 0));
            (r + 1, if ac >= MIN_SPLIT_CONTENT_PX { ac } else { 0 })
        } else {
            (r + 1, 0)
        }
    } else if approx < rows {
        let r = approx;
        let delta = if offset > 0 && can_split { clamp_len(mt.spec_row_height(cursor) - first_h) } else { 0 };
        let range_h = clamp_len(mt.spec_range_height(cursor, approx) - delta);
        let rem_avail = clamp_len(avail - range_h);
        let ac = clamp_len(max_int(rem_avail - cs - mt.spec_row_padding(r), 0));
        if can_split && mt.spec_row_splittable(r) {
            let rem = mt.spec_remaining_content(r, 0) - ac;
            if ac >= MIN_SPLIT_CONTENT_PX && ac >= mt.spec_row_first_line(r) && rem >= MIN_SPLIT_CONTENT_PX { (r + 1, ac) } else { (approx, 0) }
        } else if can_split && mt.spec_row_height(r) > base {
            if ac >= MIN_SPLIT_CONTENT_PX { (r + 1, ac) } else { (approx, 0) }
        } else {
            (approx, 0)
        }
    } else {
        (rows, 0)
    };
    (if el.0 <= cursor { cursor + 1 } else { el.0 }, el.1)
}

/// `spec_part_end`, then one row shorter (at least one row) where the rest
/// of the table fits but its caption below does not (`cap_avail` is the
/// room the caption is held against).
pub open spec fn adjusted_part_end(
    mt: MeasuredTable,
    cursor: int,
    offset: int,
    avail: int,
    first_h: int,
    can_split: bool,
    base: int,
    header: int,
    cap_top: bool,
    cap_over: int,
    cap_avail: int,
) -> (int, int) {
    let el = spec_part_end(mt, cursor, offset, avail, first_h, can_split, base);
    let ph = spec_part_height(mt, cursor, el.0, offset, el.1, first_h, can_split, header);
    if el.0 >= mt.row_heights@.len() && el.1 == 0 && !cap_top && cap_over > 0 && ph + cap_over > cap_avail {
        (if el.0 - 1 <= cursor { cursor + 1 } else { el.0 - 1 }, 0)
    } else {
        el
    }
}

/// How tall the first row of a part counts: what is left of it past
/// `offset` where an earlier part cut it, its whole height otherwise.
pub open spec fn part_first_h(mt: MeasuredTable, cursor: int, offset: int, can_split: bool) -> int {
    if offset > 0 && can_split { mt.spec_effective_row_height(cursor, offset) } else { mt.spec_row_height(cursor) }
}

/// The repeated header row on the later parts of a table, with its cell
/// spacing, where the table repeats a header row of header cells.
pub open spec fn repeated_header_height(mt: MeasuredTable) -> int {
    if mt.repeat_header && mt.has_header_cells && mt.row_heights@.len() > 1 {
        clamp_len(mt.spec_row_height(0) + mt.spec_cell_spacing())
    } else {
        0
    }
}

/// Whether control `c` is a table with its caption on top.
pub open spec fn caption_on_top(c: Control) -> bool {
    match c {
        Control::Table(t) => match t.caption { Some(cp) => cp.direction == CaptionDirection::Top, None => false },
        _ => false,
    }
}

/// The room the caption of table `ci` of a paragraph takes: its measured
/// height and spacing, and, below the table, the host's line spacing.
#[verifier::opaque]
pub open spec fn table_caption_overhead(para: &Paragraph, ci: int, mt: MeasuredTable, dpi: i64) -> int {
    let spacing = match para.controls@[ci] {
        Control::Table(t) => match t.caption { Some(c) => spec_hwpunit_to_px(c.spacing as int, dpi as int), None => 0 },
        _ => 0,
    };
    let ch = clamp_len(mt.caption_height as int);
    let cap = if ch > 0 { clamp_len(ch + spacing) } else { 0 };
    let hls = if para.line_segs@.len() > 0 { spec_hwpunit_to_px(para.line_segs@[0].line_spacing as int, dpi as int) } else { 0 };
    if cap > 0 && !caption_on_top(para.controls@[ci]) { clamp_len(cap + hls) } else { cap }
}

/// The vertical offset of table `ci` (HWP units), zero for another control.
pub open spec fn table_vertical_offset(c: Control) -> u32 {
    match c { Control::Table(t) => t.common.vertical_offset, _ => 0 }
}

/// The height of the host paragraph's text above table `ci` pushed down by
/// its vertical offset: all its measured lines, where it is the paragraph's
/// first table and the paragraph has text.
#[verifier::opaque]
pub open spec fn host_text_above(para: &Paragraph, ci: int, measured: &MeasuredSection, pi: int) -> int {
    if table_vertical_offset(para.controls@[ci]) > 0 && para.text@.len() > 0
        && !(exists|i: int| 0 <= i < ci && (#[trigger] para.controls@[i]) is Table) && 0 <= pi < measured.paragraphs@.len() {
        let mp = measured.paragraphs@[pi];
        mp.spec_line_advances_sum(0, mp.line_heights@.len() as int)
    } else {
        0
    }
}

/// The vertical offset of table `ci` in sub-pixels.
#[verifier::opaque]
pub open spec fn vertical_offset_px(para: &Paragraph, ci: int, dpi: i64) -> int {
    let vo = table_vertical_offset(para.controls@[ci]);
    if vo > 0 { spec_hwpunit_to_px((vo as i32) as int, dpi as int) } else { 0 }
}

/// Whether a table split from state `s` moves on before its first part:
/// not even its first row fits (nor the first line of a row that may be
/// split) in what is left of the room `tah` below the column, the host text
/// above and the vertical offset, and the column already holds items.
pub open spec fn table_moves_first(
    s: &PaginationState, para: &Paragraph, ci: int, mt: MeasuredTable, measured: &MeasuredSection, pi: int, dpi: i64, tah: int,
) -> bool {
    let remaining = tah - s.current_height - host_text_above(para, ci, measured, pi) - vertical_offset_px(para, ci, dpi);
    let first_row_h = if mt.row_heights@.len() > 0 { mt.spec_row_height(0) } else { 0 };
    let splittable0 = mt.has_cells && mt.spec_row_splittable(0);
    let min_content = if splittable0 { clamp_len(mt.spec_row_first_line(0) + mt.spec_row_padding(0)) } else { LEN_LIMIT as int };
    remaining < first_row_h && s.current_items@.len() > 0 && (!splittable0 || remaining < min_content)
}

/// The last part of a table cuts inside its last row.
pub open spec fn cut_inside_last(ni: Seq<PageItem>) -> bool {
    &&& ni.len() > 0
    &&& ni.last() matches PageItem::PartialTable { split_end_content_limit, .. } && split_end_content_limit > 0
}

/// The moves to the next column or page while a table is split from state
/// `s0` to state `s1` (items `ni`): the move of `table_moves_first`, exactly
/// one between each part and the next, and one more after the last part
/// only where that part cut inside its last row and nothing of that row
/// was left to place.
pub open spec fn table_moves_ok(
    s0: &PaginationState, s1: &PaginationState, ni: Seq<PageItem>, para: &Paragraph, ci: int, mt: MeasuredTable,
    measured: &MeasuredSection, pi: int, dpi: i64, tah: int,
) -> bool {
    let m = if table_moves_first(s0, para, ci, mt, measured, pi, dpi, tah) { 1int } else { 0int };
    if ni.len() == 0 {
        column_position(s1) == column_position(s0) + m
    } else {
        column_position(s1) == column_position(s0) + m + ni.len() - 1
            || (column_position(s1) == column_position(s0) + m + ni.len() && cut_inside_last(ni))
    }
}

/// The room for the rows of the first part of a table split from state
/// `s` (`tah` is the room the table had): the room less the column height,
/// a caption on top, the host text above and the vertical offset. The
/// column height is zero where the table first moves on: when not even its
/// first row fits (nor the first line of a row that may be split) and the
/// column already holds items.
#[verifier::opaque]
pub open spec fn table_start_room(
    s: &PaginationState, para: &Paragraph, ci: int, mt: MeasuredTable, measured: &MeasuredSection, pi: int, dpi: i64, tah: int,
) -> int {
    let host = host_text_above(para, ci, measured, pi);
    let v = vertical_offset_px(para, ci, dpi);
    let h1 = if table_moves_first(s, para, ci, mt, measured, pi, dpi, tah) { 0 } else { s.current_height as int };
    let cap_top = caption_on_top(para.controls@[ci]);
    let cap_extra = if cap_top { table_caption_overhead(para, ci, mt, dpi) } else { 0 };
    clamp_len(max_int(tah - h1 - cap_extra - host - v, 0))
}

/// The first item placed for a table split from state `s`: the whole
/// table where all its rows fit in the start room (and its caption below),
/// else its first part, ending where `adjusted_part_end` puts it.
#[verifier::opaque]
pub open spec fn first_table_item_ok(
    item: PageItem, s: &PaginationState, para: &Paragraph, pi: usize, ci: usize, mt: MeasuredTable, measured: &MeasuredSection,
    dpi: i64, tah: int, base: int,
) -> bool {
    let a = table_start_room(s, para, ci as int, mt, measured, pi as int, dpi, tah);
    let el = adjusted_part_end(mt, 0, 0, a, mt.spec_row_height(0), mt.has_cells, base, 0,
        caption_on_top(para.controls@[ci as int]), table_caption_overhead(para, ci as int, mt, dpi), a);
    if el.0 >= mt.row_heights@.len() && el.1 == 0 {
        item == (PageItem::Table { para_index: pi, control_index: ci })
    } else {
        item == (PageItem::PartialTable {
            para_index: pi, control_index: ci, start_row: 0, end_row: el.0 as usize, is_continuation: false,
            split_start_content_offset: 0, split_end_content_limit: el.1 as i64,
        })
    }
}

/// A later part of a split table ends where `adjusted_part_end` puts it
/// with a whole body height (less a repeated header row) for its rows.
#[verifier::opaque]
pub open spec fn later_table_part_ok(item: PageItem, para: &Paragraph, ci: usize, mt: MeasuredTable, dpi: i64, base: int) -> bool {
    match item {
        PageItem::PartialTable { start_row, end_row, split_start_content_offset, split_end_content_limit, .. } => {
            let hdr = repeated_header_height(mt);
            let avail = clamp_len(max_int(base - hdr, 0));
            let can = mt.has_cells;
            (end_row as int, split_end_content_limit as int) == adjusted_part_end(mt, start_row as int, split_start_content_offset as int,
                avail, part_first_h(mt, start_row as int, split_start_content_offset as int, can), can, base, hdr,
                caption_on_top(para.controls@[ci as int]), table_caption_overhead(para, ci as int, mt, dpi), max_int(base - hdr, 0))
        },
        _ => false,
    }
}

/// The height of a part of a table placed from row `cursor` up to row
/// `end` (exclusive): the rows it holds whole, less what an earlier part
/// placed of the first one (`offset` of a row that may be cut inside), with
/// the cell spacing; where it cuts inside its last row (`limit` > 0), that
/// row counts `limit` and the row's padding instead of its height; and the
/// repeated header rows.
#[verifier::opaque]
pub open spec fn spec_part_height(
    mt: MeasuredTable,
    cursor: int,
    end: int,
    offset: int,
    limit: int,
    first_row_h: int,
    can_intra_split: bool,
    header: int,
) -> int {
    let delta = if offset > 0 && can_intra_split { clamp_len(mt.spec_row_height(cursor) - first_row_h) } else { 0 };
    if limit > 0 {
        let complete = if end > cursor + 1 { clamp_len(mt.spec_range_height(cursor, end - 1) - delta) } else { 0 };
        let split_row_h = clamp_len(limit + mt.spec_row_padding(end - 1));
        let split_row_cs = if end - 1 > cursor { mt.spec_cell_spacing() } else { 0 };
        clamp_len(clamp_len(clamp_len(complete + split_row_cs) + split_row_h) + header)
    } else {
        clamp_len(clamp_len(mt.spec_range_height(cursor, end) - delta) + header)
    }
}

impl Paginator {
    /// Where the part of a table that starts at row `cursor_row` (at
    /// `content_offset` into it) ends when `avail_for_rows` is left for its
    /// rows: the row after its last row, and how much content of that last
    /// row it takes where it cuts the row inside (zero where it takes the
    /// whole row). It takes at least one row.
    fn part_end(
        mt: &MeasuredTable,
        cursor_row: usize,
        content_offset: i64,
        avail_for_rows: i64,
        effective_first_row_h: i64,
        can_intra_split: bool,
        base_available_height: i64,
    ) -> (r: (usize, i64))
        requires
            cursor_row < mt.row_heights@.len(),
            len_ok(content_offset as int),
            content_offset >= 0,
            len_ok(avail_for_rows as int),
            len_ok(effective_first_row_h as int),
            len_ok(base_available_height as int),
        ensures
            cursor_row < r.0 <= mt.row_heights@.len(),
            len_ok(r.1 as int),
            r.1 >= 0,
            r.1 > 0 ==> can_intra_split,
            (r.0 as int, r.1 as int) == spec_part_end(*mt, cursor_row as int, content_offset as int, avail_for_rows as int,
                effective_first_row_h as int, can_intra_split, base_available_height as int),
    {
        reveal(spec_part_end);
        let row_count = mt.row_heights.len();
        let cs = mt.cell_spacing();
        let mut end_row: usize = cursor_row;
        let mut split_end_limit: i64 = 0;
        let approx_end = mt.find_break_row(avail_for_rows, cursor_row, effective_first_row_h);
        if approx_end <= cursor_row {
            let r = cursor_row;
            let splittable = can_intra_split && mt.is_row_splittable(r);
            if splittable {
                let padding = mt.max_padding_for_row(r);
                let avail_content = len_room(avail_for_rows as i128 - padding as i128);
                let total_content = mt.remaining_content_for_row(r, content_offset);
                let remaining_content: i128 = total_content as i128 - avail_content as i128;
                let min_first_line = mt.min_first_line_height_for_row(r, content_offset);
                end_row = r + 1;
                if avail_content >= MIN_SPLIT_CONTENT_PX
                    && avail_content >= min_first_line
                    && remaining_content >= MIN_SPLIT_CONTENT_PX as i128
                {
                    split_end_limit = avail_content;
                }
            } else if can_intra_split && effective_first_row_h > avail_for_rows {
                // Too tall for any page: cut it at the available height.
                let padding = mt.max_padding_for_row(r);
                let avail_content = len_room(avail_for_rows as i128 - padding as i128);
                end_row = r + 1;
                if avail_content >= MIN_SPLIT_CONTENT_PX {
                    split_end_limit = avail_content;
                }
            } else {
                end_row = r + 1;
            }
        } else if approx_end < row_count {
            end_row = approx_end;
            let r = approx_end;
            let delta: i64 = if content_offset > 0 && can_intra_split {
                len_sub(mt.row_height(cursor_row), effective_first_row_h)
            } else {
                0
            };
            let range_h = len_sub(mt.range_height(cursor_row, approx_end), delta);
            let remaining_avail = len_sub(avail_for_rows, range_h);
            if can_intra_split && mt.is_row_splittable(r) {
                let padding = mt.max_padding_for_row(r);
                let avail_content_for_r = len_room(remaining_avail as i128 - cs as i128 - padding as i128);
                let total_content = mt.remaining_content_for_row(r, 0);
                let remaining_content: i128 = total_content as i128 - avail_content_for_r as i128;
                let min_first_line = mt.min_first_line_height_for_row(r, 0);
                if avail_content_for_r >= MIN_SPLIT_CONTENT_PX
                    && avail_content_for_r >= min_first_line
                    && remaining_content >= MIN_SPLIT_CONTENT_PX as i128
                {
                    end_row = r + 1;
                    split_end_limit = avail_content_for_r;
                }
            } else if can_intra_split && mt.row_height(r) > base_available_height {
                // Taller than a whole page: cut it here.
                let padding = mt.max_padding_for_row(r);
                let avail_content_for_r = len_room(remaining_avail as i128 - cs as i128 - padding as i128);
                if avail_content_for_r >= MIN_SPLIT_CONTENT_PX {
                    end_row = r + 1;
                    split_end_limit = avail_content_for_r;
                }
            }
        } else {
            end_row = row_count;
        }
        if end_row <= cursor_row {
            end_row = cursor_row + 1;
        }

        (end_row, split_end_limit)
    }

    /// The height of a part of a table: its complete rows from
    /// `cursor_row` (less what an earlier part placed of the first one), the
    /// content it takes of a row it cuts inside with that row's padding, and
    /// the repeated header rows.
    fn part_height(
        mt: &MeasuredTable,
        cursor_row: usize,
        end_row: usize,
        content_offset: i64,
        split_end_limit: i64,
        effective_first_row_h: i64,
        can_intra_split: bool,
        header_overhead: i64,
    ) -> (r: i64)
        requires
            cursor_row < end_row <= mt.row_heights@.len(),
            len_ok(content_offset as int),
            len_ok(split_end_limit as int),
            len_ok(effective_first_row_h as int),
            len_ok(header_overhead as int),
        ensures
            len_ok(r as int),
            r == spec_part_height(*mt, cursor_row as int, end_row as int, content_offset as int, split_end_limit as int,
                effective_first_row_h as int, can_intra_split, header_overhead as int),
    {
        reveal(spec_part_height);
        let cs = mt.cell_spacing();
        let delta: i64 = if content_offset > 0 && can_intra_split {
            len_sub(mt.row_height(cursor_row), effective_first_row_h)
        } else {
            0
        };
        let partial_height: i64 = if split_end_limit > 0 {
            let complete_range: i64 = if end_row > cursor_row + 1 {
                len_sub(mt.range_height(cursor_row, end_row - 1), delta)
            } else {
                0
            };
            let split_row = end_row - 1;
            let split_row_h = len_add(split_end_limit, mt.max_padding_for_row(split_row));
            let split_row_cs: i64 = if split_row > cursor_row { cs } else { 0 };
            len_add(len_add(len_add(complete_range, split_row_cs), split_row_h), header_overhead)
        } else {
            len_add(len_sub(mt.range_height(cursor_row, end_row), delta), header_overhead)
        };
        partial_height
    }

    /// Places a table that is not treated as a character and does not fit
    /// whole: row by row over as many columns and pages as it needs,
    /// splitting a row inside where its cells allow, repeating header rows
    /// where the table asks for it, and keeping room for a caption.
    #[verifier::rlimit(100)]
    pub fn split_table_rows(
        &self,
        st: &mut PaginationState,
        paragraphs: &[Paragraph],
        para_idx: usize,
        ctrl_idx: usize,
        measured: &MeasuredSection,
        mt: &MeasuredTable,
        table_available_height: i64,
        base_available_height: i64,
        host_spacing: i64,
    )
        requires
            old(st).wf(),
            para_idx < paragraphs@.len(),
            ctrl_idx < paragraphs@[para_idx as int].controls@.len(),
            paragraphs@[para_idx as int].controls@[ctrl_idx as int] is Table,
            len_ok(table_available_height as int),
            len_ok(base_available_height as int),
            len_ok(host_spacing as int),
        ensures
            page_footnotes(final(st).pages@) == page_footnotes(old(st).pages@),
            stepped(&*old(st), &*final(st), para_idx as int, paragraphs@),
            mt.row_heights@.len() == 0 ==> new_items(&*old(st), &*final(st)).len() == 0,
            mt.row_heights@.len() > 0 ==> table_rows_placed(new_items(&*old(st), &*final(st)), para_idx, ctrl_idx, mt.row_heights@.len() as int),
            continuation_marked(new_items(&*old(st), &*final(st))),
            offsets_chained(new_items(&*old(st), &*final(st))),
            mt.row_heights@.len() > 0 ==> first_table_item_ok(new_items(&*old(st), &*final(st))[0], &*old(st),
                &paragraphs@[para_idx as int], para_idx, ctrl_idx, *mt, measured, self.dpi, table_available_height as int,
                base_available_height as int),
            forall|k: int| 1 <= k < new_items(&*old(st), &*final(st)).len() ==> #[trigger] later_table_part_ok(
                new_items(&*old(st), &*final(st))[k], &paragraphs@[para_idx as int], ctrl_idx, *mt, self.dpi, base_available_height as int),
            old(st).current_column < old(st).col_count ==> table_moves_ok(&*old(st), &*final(st), new_items(&*old(st), &*final(st)),
                &paragraphs@[para_idx as int], ctrl_idx as int, *mt, measured, para_idx as int, self.dpi, table_available_height as int),
    {
        let ghost s0 = *st;
        let ghost paras = paragraphs@;
        let para = &paragraphs[para_idx];
        proof { lemma_stepped_refl(&s0, para_idx as int, paras); }
        let (vertical_offset, caption_is_top, caption_spacing): (u32, bool, i64) = match &para.controls[ctrl_idx] {
            Control::Table(t) => (
                Self::get_table_vertical_offset(t),
                match &t.caption { Some(c) => c.direction == CaptionDirection::Top, None => false },
                match &t.caption { Some(c) => hwpunit_to_px(c.spacing as i64, self.dpi), None => 0 },
            ),
            _ => (0, false, 0),
        };
        let row_count = mt.row_heights.len();
        let cs = mt.cell_spacing();
        let header_row_height: i64 = if row_count > 0 { mt.row_height(0) } else { 0 };

        // Text of the host paragraph above a table pushed down by its
        // vertical offset.
        let host_text_height: i64 = if vertical_offset > 0 && para.text.len() > 0 {
            let is_first_table = !any_table_in(&para.controls, 0, ctrl_idx);
            if is_first_table && para_idx < measured.paragraphs.len() {
                let mp = &measured.paragraphs[para_idx];
                mp.line_advances_sum(0, mp.line_heights.len())
            } else {
                0
            }
        } else {
            0
        };
        let v_offset_px: i64 = if vertical_offset > 0 {
            hwpunit_to_px((vertical_offset as i32) as i64, self.dpi)
        } else {
            0
        };
        let remaining_on_page: i128 = table_available_height as i128 - st.current_height as i128
            - host_text_height as i128 - v_offset_px as i128;

        let first_row_h: i64 = if row_count > 0 { mt.row_height(0) } else { 0 };
        let can_intra_split = mt.has_cells;
        let ghost mut moved = false;
        if remaining_on_page < first_row_h as i128 && st.current_items.len() > 0 {
            // Split the first row here only if its first lines fit.
            let first_row_splittable = can_intra_split && mt.is_row_splittable(0);
            let min_content: i64 = if first_row_splittable {
                len_add(mt.min_first_line_height_for_row(0, 0), mt.max_padding_for_row(0))
            } else {
                LEN_LIMIT
            };
            if !first_row_splittable || remaining_on_page < min_content as i128 {
                st.advance_column_or_new_page();
                proof {
                    lemma_step_same(&s0, st, para_idx as int, paras);
                    moved = true;
                }
            }
        }
        proof {
            if s0.current_column < s0.col_count {
                assert(st.current_column < st.col_count);
                assert(column_position(st) == column_position(&s0) + (if moved { 1int } else { 0int }));
            }
        }

        // Caption.
        let host_line_spacing_for_caption: i64 = if para.line_segs.len() > 0 {
            hwpunit_to_px(para.line_segs[0].line_spacing as i64, self.dpi)
        } else {
            0
        };
        let caption_base_overhead: i64 = {
            let ch = mt.caption_height();
            if ch > 0 { len_add(ch, caption_spacing) } else { 0 }
        };
        let caption_overhead: i64 = if caption_base_overhead > 0 && !caption_is_top {
            len_add(caption_base_overhead, host_line_spacing_for_caption)
        } else {
            caption_base_overhead
        };

        let ghost cap_top_g = caption_on_top(para.controls@[ctrl_idx as int]);
        let ghost cap_over_g = table_caption_overhead(para, ctrl_idx as int, *mt, self.dpi);
        let ghost host_g = host_text_above(para, ctrl_idx as int, measured, para_idx as int);
        let ghost v_g = vertical_offset_px(para, ctrl_idx as int, self.dpi);
        let ghost room_g = table_start_room(&s0, para, ctrl_idx as int, *mt, measured, para_idx as int, self.dpi, table_available_height as int);
        proof {
            reveal(table_start_room);
            reveal(table_caption_overhead);
            reveal(host_text_above);
            reveal(vertical_offset_px);
            assert(caption_is_top == cap_top_g);
            assert(caption_overhead == cap_over_g);
            assert(host_text_height == host_g);
            assert(v_offset_px == v_g);
            assert(clamp_len(max_int(table_available_height - st.current_height - (if cap_top_g { cap_over_g } else { 0 }) - host_g - v_g, 0)) == room_g);
            assert(moved == table_moves_first(&s0, para, ctrl_idx as int, *mt, measured, para_idx as int, self.dpi, table_available_height as int));
        }
        let mut cursor_row: usize = 0;
        let mut is_continuation = false;
        let mut content_offset: i64 = 0;
        proof {
            assert(st.all_items() == s0.all_items());
            assert(new_items(&s0, st) =~= Seq::<PageItem>::empty());
            lemma_split_start(para_idx, ctrl_idx, row_count as int);
            if row_count == 0 {
                lemma_split_done(new_items(&s0, st), para_idx, ctrl_idx, 0, 0, false, 0);
            }
        }
        while cursor_row < row_count
            invariant_except_break
                split_progress(new_items(&s0, st), para_idx, ctrl_idx, cursor_row as int, content_offset as int, is_continuation, row_count as int),
                cursor_row >= row_count ==> (row_count > 0 ==> table_rows_placed(new_items(&s0, st), para_idx, ctrl_idx, row_count as int))
                    && (row_count == 0 ==> new_items(&s0, st).len() == 0),
                is_continuation ==> new_items(&s0, st).len() > 0 && first_table_item_ok(new_items(&s0, st)[0], &s0, para, para_idx,
                    ctrl_idx, *mt, measured, self.dpi, table_available_height as int, base_available_height as int),
                !is_continuation ==> new_items(&s0, st).len() == 0
                    && clamp_len(max_int(table_available_height - st.current_height - (if cap_top_g { cap_over_g } else { 0 }) - host_g - v_g, 0)) == room_g,
                cursor_row > 0 ==> is_continuation,
                !is_continuation ==> content_offset == 0,
                s0.current_column < s0.col_count ==> st.current_column < st.col_count
                    && column_position(st) == column_position(&s0) + (if moved { 1int } else { 0int }) + new_items(&s0, st).len(),
                cursor_row >= row_count && row_count > 0 ==> cut_inside_last(new_items(&s0, st)),
                content_offset > 0 ==> cut_inside_last(new_items(&s0, st)),
            invariant
                moved == table_moves_first(&s0, para, ctrl_idx as int, *mt, measured, para_idx as int, self.dpi, table_available_height as int),
                forall|k: int| 1 <= k < new_items(&s0, st).len() ==> #[trigger] later_table_part_ok(
                    new_items(&s0, st)[k], para, ctrl_idx, *mt, self.dpi, base_available_height as int),
                caption_is_top == cap_top_g,
                caption_overhead == cap_over_g,
                host_text_height == host_g,
                v_offset_px == v_g,
                cap_top_g == caption_on_top(para.controls@[ctrl_idx as int]),
                cap_over_g == table_caption_overhead(para, ctrl_idx as int, *mt, self.dpi),
                room_g == table_start_room(&s0, para, ctrl_idx as int, *mt, measured, para_idx as int, self.dpi, table_available_height as int),
                can_intra_split == mt.has_cells,
                header_row_height == (if row_count > 0 { mt.spec_row_height(0) } else { 0 }),
                cs == mt.spec_cell_spacing(),
                row_count > 0 || !is_continuation,
                parts_marked(new_items(&s0, st)),
                st.wf(),
                stepped(&s0, st, para_idx as int, paras),
                page_footnotes(st.pages@) == page_footnotes(s0.pages@),
                paras == paragraphs@,
                para == &paragraphs@[para_idx as int],
                para_idx < paras.len(),
                ctrl_idx < para.controls@.len(),
                para.controls@[ctrl_idx as int] is Table,
                row_count == mt.row_heights@.len(),
                0 <= cursor_row <= row_count,
                len_ok(content_offset as int),
                content_offset >= 0,
                content_offset > 0 ==> can_intra_split,
                len_ok(table_available_height as int),
                len_ok(base_available_height as int),
                len_ok(host_spacing as int),
                len_ok(cs as int),
                len_ok(header_row_height as int),
                len_ok(host_text_height as int),
                len_ok(v_offset_px as int),
                len_ok(caption_overhead as int),
            ensures
                row_count > 0 ==> table_rows_placed(new_items(&s0, st), para_idx, ctrl_idx, row_count as int),
                row_count == 0 ==> new_items(&s0, st).len() == 0,
                row_count > 0 ==> first_table_item_ok(new_items(&s0, st)[0], &s0, para, para_idx,
                    ctrl_idx, *mt, measured, self.dpi, table_available_height as int, base_available_height as int),
                s0.current_column < s0.col_count ==> table_moves_ok(&s0, st, new_items(&s0, st), para, ctrl_idx as int, *mt,
                    measured, para_idx as int, self.dpi, table_available_height as int),
            decreases row_count - cursor_row, split_measure(mt, cursor_row as int, content_offset as int),
        {
            // Skip a row whose content an earlier split placed in full.
            if content_offset > 0 && can_intra_split {
                let rem = mt.remaining_content_for_row(cursor_row, content_offset);
                if rem <= 0 {
                    proof {
                        reveal(split_progress);
                        lemma_split_skip(new_items(&s0, st), para_idx, ctrl_idx, cursor_row as int, content_offset as int, row_count as int);
                        if cursor_row + 1 >= row_count {
                            lemma_split_done(new_items(&s0, st), para_idx, ctrl_idx, cursor_row + 1, 0, true, row_count as int);
                        }
                    }
                    cursor_row += 1;
                    content_offset = 0;
                    continue;
                }
            }

            let at_table_start = !is_continuation && cursor_row == 0 && content_offset == 0;
            let caption_extra: i64 = if at_table_start && caption_is_top { caption_overhead } else { 0 };
            let host_extra: i64 = if at_table_start { host_text_height } else { 0 };
            let v_extra: i64 = if at_table_start { v_offset_px } else { 0 };
            let page_avail: i64 = if is_continuation {
                base_available_height
            } else {
                len_room(table_available_height as i128 - st.current_height as i128 - caption_extra as i128
                    - host_extra as i128 - v_extra as i128)
            };
            let header_overhead: i64 = if is_continuation && mt.repeat_header && mt.has_header_cells && row_count > 1 {
                len_add(header_row_height, cs)
            } else {
                0
            };
            let avail_for_rows = len_room(page_avail as i128 - header_overhead as i128);
            let effective_first_row_h: i64 = if content_offset > 0 && can_intra_split {
                mt.effective_row_height(cursor_row, content_offset)
            } else {
                mt.row_height(cursor_row)
            };

            // The rows that fit on this page, where a row is cut, and the
            // height of this part.
            let (end_row0, split_end_limit) = Self::part_end(
                mt, cursor_row, content_offset, avail_for_rows, effective_first_row_h, can_intra_split, base_available_height,
            );
            let mut end_row = end_row0;
            let partial_height = Self::part_height(
                mt, cursor_row, end_row, content_offset, split_end_limit, effective_first_row_h, can_intra_split, header_overhead,
            );
            let actual_split_start = content_offset;
            let actual_split_end = split_end_limit;
            let ghost cap_avail: int = if is_continuation { max_int(page_avail - header_overhead, 0) } else { page_avail as int };
            let ghost el0 = (end_row0 as int, split_end_limit as int);

            // Keep room for a caption below the last part.
            if end_row >= row_count && split_end_limit == 0 && !caption_is_top && caption_overhead > 0 {
                let total_with_caption: i128 = partial_height as i128 + caption_overhead as i128;
                let avail: i128 = if is_continuation {
                    let d: i128 = page_avail as i128 - header_overhead as i128;
                    if d >= 0 { d } else { 0 }
                } else {
                    page_avail as i128
                };
                if total_with_caption > avail {
                    end_row = end_row - 1;
                    if end_row <= cursor_row {
                        end_row = cursor_row + 1;
                    }
                }
            }

            proof {
                assert((end_row as int, split_end_limit as int) == adjusted_part_end(*mt, cursor_row as int, content_offset as int,
                    avail_for_rows as int, effective_first_row_h as int, can_intra_split, base_available_height as int,
                    header_overhead as int, caption_is_top, caption_overhead as int, cap_avail));
                if !is_continuation {
                    assert(cursor_row == 0 && content_offset == 0);
                    assert(avail_for_rows as int == room_g);
                    assert(cap_avail == room_g);
                    assert(header_overhead == 0);
                } else {
                    assert(header_overhead as int == repeated_header_height(*mt));
                    assert(avail_for_rows as int == clamp_len(max_int(base_available_height - header_overhead, 0)));
                    assert(effective_first_row_h as int == part_first_h(*mt, cursor_row as int, content_offset as int, can_intra_split));
                }
            }
            if end_row >= row_count && split_end_limit == 0 {
                // The rest fits here.
                let bottom_caption_extra: i64 = if !caption_is_top { caption_overhead } else { 0 };
                let ghost s2 = *st;
                if cursor_row == 0 && !is_continuation && content_offset == 0 {
                    let item = PageItem::Table { para_index: para_idx, control_index: ctrl_idx };
                    st.push_item(item);
                    proof {
                        lemma_step_push(&s2, st, item, para_idx as int, paras);
                        lemma_stepped_trans(&s0, &s2, st, para_idx as int, paras);
                        lemma_new_items_push(&s0, &s2, st, item);
                        lemma_split_whole(new_items(&s0, &s2), para_idx, ctrl_idx, cursor_row as int, content_offset as int, row_count as int);
                        assert(!is_continuation);
                        assert(new_items(&s0, st)[0] == item);
                        assert(first_table_item_ok(item, &s0, para, para_idx, ctrl_idx, *mt, measured, self.dpi,
                            table_available_height as int, base_available_height as int)) by {
                            reveal(first_table_item_ok);
                        }
                    }
                    let ghost s3 = *st;
                    st.add_height(len_add(partial_height, host_spacing));
                    proof {
                        lemma_step_same(&s3, st, para_idx as int, paras);
                        lemma_stepped_trans(&s2, &s3, st, para_idx as int, paras);
                        assert(new_items(&s0, st) == new_items(&s0, &s3));
                    }
                } else {
                    let item = PageItem::PartialTable {
                        para_index: para_idx,
                        control_index: ctrl_idx,
                        start_row: cursor_row,
                        end_row,
                        is_continuation,
                        split_start_content_offset: actual_split_start,
                        split_end_content_limit: 0,
                    };
                    st.push_item(item);
                    proof {
                        lemma_step_push(&s2, st, item, para_idx as int, paras);
                        lemma_stepped_trans(&s0, &s2, st, para_idx as int, paras);
                        lemma_new_items_push(&s0, &s2, st, item);
                        assert(end_row == row_count);
                        lemma_split_last_part(new_items(&s0, &s2), item, para_idx, ctrl_idx, cursor_row as int, content_offset as int,
                            is_continuation, row_count as int);
                        assert(is_continuation);
                        assert(later_table_part_ok(item, para, ctrl_idx, *mt, self.dpi, base_available_height as int)) by {
                            reveal(later_table_part_ok);
                        }
                        lemma_later_part_push(new_items(&s0, &s2), item, para, ctrl_idx, *mt, self.dpi, base_available_height as int);
                    }
                    let sa: i64 = if para_idx < measured.paragraphs.len() { measured.paragraphs[para_idx].spacing_after() } else { 0 };
                    let ghost s3 = *st;
                    st.add_height(len_add(len_add(partial_height, bottom_caption_extra), sa));
                    proof {
                        lemma_step_same(&s3, st, para_idx as int, paras);
                        lemma_stepped_trans(&s2, &s3, st, para_idx as int, paras);
                        assert(new_items(&s0, st) == new_items(&s0, &s3));
                    }
                }
                proof { lemma_stepped_trans(&s0, &s2, st, para_idx as int, paras); }
                break;
            }

            // Place this part and go on on the next column or page.
            let ghost s4 = *st;
            let item = PageItem::PartialTable {
                para_index: para_idx,
                control_index: ctrl_idx,
                start_row: cursor_row,
                end_row,
                is_continuation,
                split_start_content_offset: actual_split_start,
                split_end_content_limit: actual_split_end,
            };
            st.push_item(item);
            proof {
                lemma_step_push(&s4, st, item, para_idx as int, paras);
                lemma_stepped_trans(&s0, &s4, st, para_idx as int, paras);
                lemma_new_items_push(&s0, &s4, st, item);
                if is_continuation {
                    assert(later_table_part_ok(item, para, ctrl_idx, *mt, self.dpi, base_available_height as int)) by {
                        reveal(later_table_part_ok);
                    }
                    lemma_later_part_push(new_items(&s0, &s4), item, para, ctrl_idx, *mt, self.dpi, base_available_height as int);
                } else {
                    assert(new_items(&s0, st)[0] == item);
                    assert(first_table_item_ok(item, &s0, para, para_idx, ctrl_idx, *mt, measured, self.dpi,
                        table_available_height as int, base_available_height as int)) by {
                        reveal(first_table_item_ok);
                    }
                    assert(new_items(&s0, st).len() == 1);
                }
            }
            let ghost s5 = *st;
            st.advance_column_or_new_page();
            proof {
                lemma_step_same(&s5, st, para_idx as int, paras);
                lemma_stepped_trans(&s4, &s5, st, para_idx as int, paras);
                lemma_stepped_trans(&s0, &s4, st, para_idx as int, paras);
                assert(new_items(&s0, st) == new_items(&s0, &s5));
            }

            let ghost old_cursor = cursor_row as int;
            let ghost old_offset = content_offset as int;
            let ghost old_cont = is_continuation;
            let ghost ni0 = new_items(&s0, &s4);
            if split_end_limit > 0 {
                let split_row = end_row - 1;
                if split_row == cursor_row {
                    content_offset = len_add(content_offset, split_end_limit);
                } else {
                    content_offset = split_end_limit;
                }
                cursor_row = split_row;
            } else {
                cursor_row = end_row;
                content_offset = 0;
            }
            is_continuation = true;
            proof {
                lemma_split_part(ni0, item, para_idx, ctrl_idx, old_cursor, old_offset, old_cont, row_count as int,
                    end_row as int, split_end_limit as int, cursor_row as int, content_offset as int);
            }
        }
    }
}

} // verus!
