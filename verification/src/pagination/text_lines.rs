//! Placing the lines of a paragraph without tables.

use vstd::prelude::*;
use crate::model::{LineSeg, MeasuredParagraph, MeasuredSection, Paragraph};
use crate::units::{len_ok, clamp_len, max_int, spec_hwpunit_to_px, clamp_len_exec, len_room, len_add, len_max, hwpunit_to_px, SUBPX_PER_PX};
use super::types::{PageItem, page_footnotes};
use super::state::{PaginationState, column_position};
use super::engine::{Paginator, stepped, new_items, lemma_step_same, lemma_step_push, lemma_stepped_trans, lemma_stepped_refl};

verus! {

/// The lines at which a paragraph moves on to the next column: line 0, and
/// every line that stands higher on the page than the line before it.
pub open spec fn column_breaks(segs: Seq<LineSeg>) -> Seq<usize>
    decreases segs.len(),
{
    if segs.len() <= 1 {
        seq![0usize]
    } else {
        let n = segs.len();
        column_breaks(segs.drop_last()) + if segs[n - 1].vertical_pos < segs[n - 2].vertical_pos {
            seq![(n - 1) as usize]
        } else {
            Seq::empty()
        }
    }
}

/// Column breaks start at line 0, increase, and stay below the line count.
pub open spec fn breaks_ok(b: Seq<usize>, line_count: int) -> bool {
    &&& b.len() >= 1
    &&& b[0] == 0
    &&& forall|i: int, j: int| 0 <= i < j < b.len() ==> b[i] < b[j]
    &&& forall|i: int| 0 <= i < b.len() ==> (#[trigger] b[i]) < line_count || (b[i] == 0 && line_count == 0)
}

proof fn lemma_column_breaks_ok(segs: Seq<LineSeg>)
    requires
        segs.len() <= usize::MAX,
    ensures
        breaks_ok(column_breaks(segs), segs.len() as int),
        column_breaks(segs).len() > 1 ==> segs.len() >= 2,
    decreases segs.len(),
{
    if segs.len() > 1 {
        lemma_column_breaks_ok(segs.drop_last());
        let b0 = column_breaks(segs.drop_last());
        let b = column_breaks(segs);
        let n = segs.len();
        if segs[n - 1].vertical_pos < segs[n - 2].vertical_pos {
            assert(b =~= b0.push((n - 1) as usize));
        } else {
            assert(b =~= b0);
        }
        assert forall|i: int| 0 <= i < b.len() implies (#[trigger] b[i]) < segs.len() by {
            if i < b0.len() {
                assert(b[i] == b0[i]);
            }
        }
        assert forall|i: int, j: int| 0 <= i < j < b.len() implies b[i] < b[j] by {
            assert(b[i] == b0[i]);
            assert(b0[i] < segs.len() - 1);
            if j < b0.len() {
                assert(b[j] == b0[j]);
                assert(b0[i] < b0[j]);
            } else {
                assert(b[j] == segs.len() - 1);
            }
        }
        assert(b[0] == b0[0]);
    }
}

/// Where a part of a split paragraph that starts at line `start` ends
/// when `avail` is the height for its lines: it takes line after line while
/// the height of the next line, on top of the advances of the lines taken
/// so far (`acc`, from line `li` on), still fits, and at least one line.
pub open spec fn fit_end(mp: MeasuredParagraph, start: int, avail: int, li: int, acc: int) -> int
    decreases mp.line_heights@.len() - li,
{
    if li >= mp.line_heights@.len() {
        mp.line_heights@.len() as int
    } else if acc + mp.spec_line_height(li) > avail && li > start {
        li
    } else {
        fit_end(mp, start, avail, li + 1, clamp_len(acc + mp.spec_line_advance(li)))
    }
}

/// The cursor of a state that the first part of a paragraph depends on:
/// its column, footnote area height, zone offset and column height.
pub open spec fn cursor_of(s: &PaginationState) -> (int, int, int, int) {
    (s.current_column as int, s.current_footnote_height as int, s.current_zone_y_offset as int, s.current_height as int)
}

/// The cursor after moving on from cursor `c`: the next column of the
/// same page (same footnote area and zone, empty column), or the first
/// column of a new page (nothing on it).
pub open spec fn next_cursor(c: (int, int, int, int), col_count: int) -> (int, int, int, int) {
    if c.0 + 1 < col_count { (c.0 + 1, c.1, c.2, 0) } else { (0, 0, 0, 0) }
}

/// The room for the lines of the first part of a paragraph at cursor `c`:
/// the body height less the footnote area (and the safety margin where it
/// is not empty), the column height and the zone offset, then less the
/// space before the paragraph; never below zero.
pub open spec fn first_part_room(c: (int, int, int, int), base: int, margin: int, sp_before: int) -> int {
    let m = if c.1 > 0 { margin } else { 0 };
    let page_avail = clamp_len(max_int(base - c.1 - m - c.3 - c.2, 0));
    clamp_len(max_int(page_avail - sp_before, 0))
}

/// Whether a paragraph moves on before its first part: the column is full,
/// or not even its first line fits, and the column already holds items.
pub open spec fn moves_first(s: &PaginationState, mp: MeasuredParagraph) -> bool {
    let avail = s.spec_available_height();
    (s.current_height >= avail || max_int(avail - s.current_height, 0) < mp.spec_line_height(0))
        && s.current_items@.len() > 0
}

/// The cursor at which the first part of a paragraph is placed (after the
/// move of `moves_first`).
pub open spec fn first_cursor(s: &PaginationState, mp: MeasuredParagraph) -> (int, int, int, int) {
    if moves_first(s, mp) { next_cursor(cursor_of(s), s.col_count as int) } else { cursor_of(s) }
}

/// The first item of a paragraph that does not fit whole, placed line by
/// line from state `s`: the lines that fit at the first cursor, in part
/// `0..e0`; where all of them fit, the whole paragraph, unless it then
/// overflows after a table, when it moves on once more and is placed whole
/// or in part `0..e1` as the lines fit there.
pub open spec fn first_part_ok(item: PageItem, pi: usize, mp: MeasuredParagraph, s: &PaginationState, base: int) -> bool {
    let n = mp.line_heights@.len() as int;
    let sp_b = clamp_len(mp.spacing_before as int);
    let c1 = first_cursor(s, mp);
    let c2 = next_cursor(c1, s.col_count as int);
    let e0 = fit_end(mp, 0, first_part_room(c1, base, s.footnote_safety_margin as int, sp_b), 0, 0);
    let e1 = fit_end(mp, 0, first_part_room(c2, base, s.footnote_safety_margin as int, sp_b), 0, 0);
    if e0 < n {
        item == (PageItem::PartialParagraph { para_index: pi, start_line: 0, end_line: e0 as usize })
    } else {
        item == (PageItem::FullParagraph { para_index: pi })
            || (e1 < n && item == (PageItem::PartialParagraph { para_index: pi, start_line: 0, end_line: e1 as usize }))
    }
}

/// The moves to the next column or page while a paragraph that does not
/// fit whole is placed line by line from state `s0` to state `s1` (items
/// `ni`): the move of `moves_first`, at most one more before the first
/// part (only where all lines fit at the first cursor and the column
/// already held items; without it all lines stand whole there), and
/// exactly one between each part and the next.
pub open spec fn moves_between_parts(s0: &PaginationState, s1: &PaginationState, ni: Seq<PageItem>, pi: usize, mp: MeasuredParagraph, base: int) -> bool {
    let n = mp.line_heights@.len() as int;
    let mf = if moves_first(s0, mp) { 1int } else { 0int };
    let c1 = first_cursor(s0, mp);
    let e0 = fit_end(mp, 0, first_part_room(c1, base, s0.footnote_safety_margin as int, clamp_len(mp.spacing_before as int)), 0, 0);
    let r = column_position(s1) - column_position(s0) - mf - (ni.len() - 1);
    &&& r == 0 || r == 1
    &&& r == 1 ==> !moves_first(s0, mp) && e0 >= n && s0.current_items@.len() > 0
    &&& r == 0 && e0 >= n ==> ni == seq![PageItem::FullParagraph { para_index: pi }]
}

/// After its first part, every part of a paragraph split line by line
/// takes the lines that fit in a whole body height (`base`).
pub open spec fn later_parts_fill(items: Seq<PageItem>, mp: MeasuredParagraph, base: int) -> bool {
    forall|k: int| 1 <= k < items.len() ==> (#[trigger] items[k] matches PageItem::PartialParagraph { start_line, end_line, .. }
        && end_line == fit_end(mp, start_line as int, if base > 0 { base } else { 0 }, start_line as int, 0))
}

/// The parts of a paragraph placed column by column: one per column break,
/// from each break to the next (the last to the end of its lines).
pub open spec fn column_parts(items: Seq<PageItem>, pi: usize, breaks: Seq<usize>, n: int) -> bool {
    &&& items.len() == breaks.len()
    &&& forall|k: int| 0 <= k < items.len() ==> #[trigger] items[k] == (PageItem::PartialParagraph {
        para_index: pi,
        start_line: breaks[k],
        end_line: if k + 1 < breaks.len() { breaks[k + 1] } else { n as usize },
    })
}

/// The items hold lines `0..to` of paragraph `pi` in parts, each part
/// starting where the one before it ended.
pub open spec fn parts_reach(items: Seq<PageItem>, pi: usize, to: int) -> bool
    decreases items.len(),
{
    if items.len() == 0 {
        to == 0
    } else {
        match items.last() {
            PageItem::PartialParagraph { para_index, start_line, end_line } =>
                para_index == pi && end_line == to && parts_reach(items.drop_last(), pi, start_line as int),
            _ => false,
        }
    }
}

/// The lines of paragraph `pi` are placed whole, in one item, or in parts
/// that cover lines `0..n` in order.
pub open spec fn lines_placed(items: Seq<PageItem>, pi: usize, n: int) -> bool {
    items == seq![PageItem::FullParagraph { para_index: pi }] || parts_reach(items, pi, n)
}

/// The number of measured lines of paragraph `pi` (none where it was not
/// measured).
pub open spec fn measured_line_count(measured: &MeasuredSection, pi: int) -> int {
    if 0 <= pi < measured.paragraphs@.len() { measured.paragraphs@[pi].line_heights@.len() as int } else { 0 }
}

/// The items place the lines of paragraph `pi` whole, or in parts that
/// cover all its laid-out lines or all its measured lines.
pub open spec fn text_lines_ok(items: Seq<PageItem>, pi: usize, para: &Paragraph, measured: &MeasuredSection) -> bool {
    lines_placed(items, pi, para.line_segs@.len() as int) || lines_placed(items, pi, measured_line_count(measured, pi as int))
}

/// The number of lines the paragraph is split by: its laid-out lines when
/// it is placed column by column, else its measured lines.
pub open spec fn split_line_count(st: &PaginationState, para: &Paragraph, measured: &MeasuredSection, pi: int) -> int {
    if laid_out_in_columns(st, para) {
        para.line_segs@.len() as int
    } else if pi < measured.paragraphs@.len() {
        measured.paragraphs@[pi].line_heights@.len() as int
    } else {
        0
    }
}

proof fn lemma_new_items_push(s0: &PaginationState, s1: &PaginationState, s2: &PaginationState, x: PageItem)
    requires
        s0.all_items().is_prefix_of(s1.all_items()),
        s2.all_items() == s1.all_items().push(x),
    ensures
        new_items(s0, s2) == new_items(s0, s1).push(x),
{
    assert(new_items(s0, s2) =~= new_items(s0, s1).push(x));
}

proof fn lemma_new_items_same(s0: &PaginationState, s1: &PaginationState, s2: &PaginationState)
    requires
        s2.all_items() == s1.all_items(),
    ensures
        new_items(s0, s2) == new_items(s0, s1),
{
}

proof fn lemma_new_items_empty(s0: &PaginationState, s1: &PaginationState)
    requires
        s1.all_items() == s0.all_items(),
    ensures
        new_items(s0, s1).len() == 0,
{
}

/// Whether the paragraph is placed column by column: on the first page of
/// a multi-column zone, in its first column, when its lines run over
/// several columns.
pub open spec fn laid_out_in_columns(st: &PaginationState, para: &Paragraph) -> bool {
    st.col_count > 1 && st.current_column == 0 && st.on_first_multicolumn_page
        && column_breaks(para.line_segs@).len() > 1
}

/// Whether a paragraph of `height` fits whole in the current column: its
/// height less its trailing line spacing fits into the available height,
/// with half a pixel of tolerance. The trailing line spacing is not taken
/// off when the paragraph overflows and less than half of it would fit.
pub open spec fn text_fits(st: &PaginationState, para: &Paragraph, height: int, dpi: i64) -> bool {
    let avail = st.spec_available_height();
    let segs = para.line_segs@;
    let trailing = if segs.len() > 0 { spec_hwpunit_to_px(segs.last().line_spacing as int, dpi as int) } else { 0 };
    let effective = if st.current_height + height > avail {
        if 2 * (avail - st.current_height) < height { 0 } else { trailing }
    } else {
        trailing
    };
    st.current_height + (height - effective) <= avail + SUBPX_PER_PX / 2
}

impl Paginator {
    /// The lines at which the paragraph moves on to the next column: line 0,
    /// and each line whose vertical position is above that of the line
    /// before it (`column_breaks`). This rule is the library's own reading of
    /// the laid-out lines: the line layout that places them is not part of
    /// this library and records no column breaks of its own.
    pub fn detect_column_breaks_in_paragraph(para: &Paragraph) -> (r: Vec<usize>)
        ensures
            r@ == column_breaks(para.line_segs@),
    {
        let segs = &para.line_segs;
        let mut r: Vec<usize> = Vec::new();
        r.push(0);
        proof {
            assert(r@ =~= seq![0usize]);
        }
        if segs.len() == 0 {
            return r;
        }
        proof {
            assert(column_breaks(segs@.take(1)) == seq![0usize]);
        }
        let mut i: usize = 1;
        while i < segs.len()
            invariant
                1 <= i <= segs@.len(),
                r@ == column_breaks(segs@.take(i as int)),
                segs == &para.line_segs,
            decreases segs@.len() - i,
        {
            proof {
                assert(segs@.take(i + 1).drop_last() =~= segs@.take(i as int));
            }
            if segs[i].vertical_pos < segs[i - 1].vertical_pos {
                r.push(i);
            }
            i += 1;
            proof {
                assert(r@ =~= column_breaks(segs@.take(i as int)));
            }
        }
        proof {
            assert(segs@.take(segs@.len() as int) =~= segs@);
        }
        r
    }

    /// Places a paragraph without tables: whole where it fits (up to its
    /// trailing line spacing and half a pixel), else line by line over as
    /// many columns and pages as it needs. On the first page of a
    /// multi-column zone a paragraph already laid out over several columns
    /// is placed column by column.
    #[verifier::rlimit(40)]
    pub fn paginate_text_lines(
        &self,
        st: &mut PaginationState,
        paragraphs: &[Paragraph],
        para_idx: usize,
        measured: &MeasuredSection,
        para_height: i64,
        base_available_height: i64,
    )
        requires
            old(st).wf(),
            para_idx < paragraphs@.len(),
            len_ok(para_height as int),
            len_ok(base_available_height as int),
        ensures
            page_footnotes(final(st).pages@) == page_footnotes(old(st).pages@),
            stepped(&*old(st), &*final(st), para_idx as int, paragraphs@),
            final(st).all_items().len() > old(st).all_items().len(),
            lines_placed(new_items(&*old(st), &*final(st)), para_idx,
                split_line_count(&*old(st), &paragraphs@[para_idx as int], measured, para_idx as int)),
            !laid_out_in_columns(&*old(st), &paragraphs@[para_idx as int]) && (para_idx as int) < measured.paragraphs@.len()
                ==> later_parts_fill(new_items(&*old(st), &*final(st)), measured.paragraphs@[para_idx as int], base_available_height as int),
            !laid_out_in_columns(&*old(st), &paragraphs@[para_idx as int])
                && !text_fits(&*old(st), &paragraphs@[para_idx as int], para_height as int, self.dpi)
                && (para_idx as int) < measured.paragraphs@.len()
                && measured.paragraphs@[para_idx as int].line_heights@.len() > 0
                ==> first_part_ok(new_items(&*old(st), &*final(st))[0], para_idx, measured.paragraphs@[para_idx as int],
                    &*old(st), base_available_height as int),
            !laid_out_in_columns(&*old(st), &paragraphs@[para_idx as int])
                && !text_fits(&*old(st), &paragraphs@[para_idx as int], para_height as int, self.dpi)
                && (para_idx as int) < measured.paragraphs@.len()
                && measured.paragraphs@[para_idx as int].line_heights@.len() > 0
                && old(st).current_column < old(st).col_count
                ==> moves_between_parts(&*old(st), &*final(st), new_items(&*old(st), &*final(st)), para_idx,
                    measured.paragraphs@[para_idx as int], base_available_height as int),
            !laid_out_in_columns(&*old(st), &paragraphs@[para_idx as int])
                && text_fits(&*old(st), &paragraphs@[para_idx as int], para_height as int, self.dpi) ==> {
                &&& final(st).current_items@ == old(st).current_items@.push(PageItem::FullParagraph { para_index: para_idx })
                &&& final(st).current_height == clamp_len(old(st).current_height + para_height)
                &&& final(st).pages@ == old(st).pages@
            },
    {
        let ghost s0 = *st;
        let ghost paras = paragraphs@;
        let para = &paragraphs[para_idx];
        let available_now = st.available_height();

        let multi = st.col_count > 1 && st.current_column == 0 && st.on_first_multicolumn_page;
        let col_breaks = if multi {
            Self::detect_column_breaks_in_paragraph(para)
        } else {
            let mut v: Vec<usize> = Vec::new();
            v.push(0);
            v
        };
        let nsegs = para.line_segs.len();
        if col_breaks.len() > 1 {
            proof {
                assert(nsegs == para.line_segs@.len());
                lemma_column_breaks_ok(para.line_segs@);
            }
            self.paginate_multicolumn_paragraph(st, paragraphs, para_idx, measured, para_height, &col_breaks);
            return;
        }
        assert(!laid_out_in_columns(&s0, para));

        let trailing_ls: i64 = if para.line_segs.len() > 0 {
            hwpunit_to_px(para.line_segs[para.line_segs.len() - 1].line_spacing as i64, self.dpi)
        } else {
            0
        };
        let half_px: i64 = SUBPX_PER_PX / 2;
        let effective_trailing: i64 = if (st.current_height as i128) + (para_height as i128) > (available_now as i128) {
            let margin: i128 = (available_now as i128) - (st.current_height as i128);
            if 2 * margin < (para_height as i128) { 0 } else { trailing_ls }
        } else {
            trailing_ls
        };
        if (st.current_height as i128) + ((para_height as i128) - (effective_trailing as i128)) <= (available_now as i128) + (half_px as i128) {
            let item = PageItem::FullParagraph { para_index: para_idx };
            st.push_item(item);
            proof {
                lemma_step_push(&s0, st, item, para_idx as int, paras);
                assert(new_items(&s0, st) =~= seq![item]);
            }
            let ghost s1 = *st;
            st.add_height(para_height);
            proof {
                lemma_step_same(&s1, st, para_idx as int, paras);
                lemma_stepped_trans(&s0, &s1, st, para_idx as int, paras);
                lemma_new_items_same(&s0, &s1, st);
            }
            return;
        }
        if para_idx >= measured.paragraphs.len() {
            let item = PageItem::FullParagraph { para_index: para_idx };
            st.push_item(item);
            proof {
                lemma_step_push(&s0, st, item, para_idx as int, paras);
                assert(new_items(&s0, st) =~= seq![item]);
            }
            let ghost s1 = *st;
            st.add_height(para_height);
            proof {
                lemma_step_same(&s1, st, para_idx as int, paras);
                lemma_stepped_trans(&s0, &s1, st, para_idx as int, paras);
                lemma_new_items_same(&s0, &s1, st);
            }
            return;
        }
        let mp = &measured.paragraphs[para_idx];
        let line_count = mp.line_heights.len();
        let sp_before = mp.spacing_before();
        let sp_after = mp.spacing_after();
        if line_count == 0 {
            let item = PageItem::FullParagraph { para_index: para_idx };
            st.push_item(item);
            proof {
                lemma_step_push(&s0, st, item, para_idx as int, paras);
                assert(new_items(&s0, st) =~= seq![item]);
            }
            let ghost s1 = *st;
            st.add_height(para_height);
            proof {
                lemma_step_same(&s1, st, para_idx as int, paras);
                lemma_stepped_trans(&s0, &s1, st, para_idx as int, paras);
                lemma_new_items_same(&s0, &s1, st);
            }
            return;
        }

        // Move on first when not even the first line fits.
        let first_line_h = mp.line_height(0);
        let left: i128 = available_now as i128 - st.current_height as i128;
        let remaining_for_lines: i128 = if left >= 0 { left } else { 0 };
        if (st.current_height >= available_now || remaining_for_lines < first_line_h as i128) && st.current_items.len() > 0 {
            let ghost s1 = *st;
            st.advance_column_or_new_page();
            proof {
                lemma_step_same(&s1, st, para_idx as int, paras);
                lemma_stepped_trans(&s0, &s1, st, para_idx as int, paras);
            }
        } else {
            proof { lemma_stepped_refl(&s0, para_idx as int, paras); }
        }
        proof {
            lemma_new_items_empty(&s0, st);
            assert(new_items(&s0, st) =~= Seq::<PageItem>::empty());
            assert(cursor_of(st) == first_cursor(&s0, *mp));
        }
        let ghost m = *st;
        let ghost c1 = first_cursor(&s0, *mp);
        let ghost c2 = next_cursor(c1, s0.col_count as int);
        let ghost sp_b0 = clamp_len(mp.spacing_before as int);
        let ghost e0 = fit_end(*mp, 0, first_part_room(c1, base_available_height as int, s0.footnote_safety_margin as int, sp_b0), 0, 0);
        let ghost mut retried = false;

        let mut cursor_line: usize = 0;
        let mut placed_any = false;
        while cursor_line < line_count
            invariant_except_break
                cursor_line == 0 ==> new_items(&s0, st).len() == 0,
                parts_reach(new_items(&s0, st), para_idx, cursor_line as int),
                later_parts_fill(new_items(&s0, st), *mp, base_available_height as int),
                cursor_line == 0 ==> cursor_of(st) == (if retried { c2 } else { c1 }),
                cursor_line == 0 && !retried ==> st.current_items@ == m.current_items@,
                cursor_line == 0 && retried ==> st.current_items@.len() == 0,
                retried ==> e0 >= line_count && !moves_first(&s0, *mp) && s0.current_items@.len() > 0,
                cursor_line > 0 ==> first_part_ok(new_items(&s0, st)[0], para_idx, *mp, &s0, base_available_height as int),
                cursor_line > 0 && !retried ==> e0 < line_count,
                cursor_line < line_count,
                s0.current_column < s0.col_count ==> st.current_column < st.col_count
                    && column_position(st) == column_position(&s0) + (if moves_first(&s0, *mp) { 1int } else { 0int })
                        + (if retried { 1int } else { 0int }) + new_items(&s0, st).len(),
            invariant
                !moves_first(&s0, *mp) ==> m.current_items@ == s0.current_items@,
                moves_first(&s0, *mp) ==> m.current_items@.len() == 0,
                st.col_count == s0.col_count,
                st.footnote_safety_margin == s0.footnote_safety_margin,
                c1 == first_cursor(&s0, *mp),
                c2 == next_cursor(c1, s0.col_count as int),
                sp_b0 == clamp_len(mp.spacing_before as int),
                sp_before == sp_b0,
                e0 == fit_end(*mp, 0, first_part_room(c1, base_available_height as int, s0.footnote_safety_margin as int, sp_b0), 0, 0),
                st.wf(),
                stepped(&s0, st, para_idx as int, paras),
                page_footnotes(st.pages@) == page_footnotes(s0.pages@),
                paras == paragraphs@,
                para == &paragraphs@[para_idx as int],
                para_idx < paras.len(),
                mp == &measured.paragraphs@[para_idx as int],
                line_count == mp.line_heights@.len(),
                line_count > 0,
                0 <= cursor_line <= line_count,
                len_ok(base_available_height as int),
                len_ok(sp_before as int),
                len_ok(sp_after as int),
                cursor_line > 0 ==> placed_any,
                placed_any ==> st.all_items().len() > s0.all_items().len(),
            ensures
                st.all_items().len() > s0.all_items().len(),
                lines_placed(new_items(&s0, st), para_idx, line_count as int),
                later_parts_fill(new_items(&s0, st), *mp, base_available_height as int),
                first_part_ok(new_items(&s0, st)[0], para_idx, *mp, &s0, base_available_height as int),
                retried ==> e0 >= line_count && !moves_first(&s0, *mp) && s0.current_items@.len() > 0,
                !retried && e0 >= line_count ==> new_items(&s0, st) == seq![PageItem::FullParagraph { para_index: para_idx }],
                s0.current_column < s0.col_count ==>
                    column_position(st) == column_position(&s0) + (if moves_first(&s0, *mp) { 1int } else { 0int })
                        + (if retried { 1int } else { 0int }) + new_items(&s0, st).len() - 1,
            decreases (line_count - cursor_line) * 2 + if st.current_items@.len() > 0 { 1int } else { 0int },
        {
            let fn_margin = if st.current_footnote_height > 0 { st.footnote_safety_margin } else { 0 };
            let page_avail: i64 = if cursor_line == 0 {
                len_room(base_available_height as i128 - st.current_footnote_height as i128 - fn_margin as i128
                    - st.current_height as i128 - st.current_zone_y_offset as i128)
            } else {
                base_available_height
            };
            let sp_b: i64 = if cursor_line == 0 { sp_before } else { 0 };
            let avail_for_lines = len_room(page_avail as i128 - sp_b as i128);

            // The lines that fit on this page.
            let mut cumulative: i64 = 0;
            let mut end_line: usize = cursor_line;
            let mut li: usize = cursor_line;
            while li < line_count
                invariant
                    cursor_line <= li <= line_count == mp.line_heights@.len(),
                    cursor_line < line_count,
                    len_ok(cumulative as int),
                    end_line == li,
                    li == cursor_line ==> cumulative == 0,
                    fit_end(*mp, cursor_line as int, avail_for_lines as int, cursor_line as int, 0)
                        == fit_end(*mp, cursor_line as int, avail_for_lines as int, li as int, cumulative as int),
                ensures
                    cursor_line < end_line <= line_count,
                    len_ok(cumulative as int),
                    end_line == fit_end(*mp, cursor_line as int, avail_for_lines as int, cursor_line as int, 0),
                decreases line_count - li,
            {
                let content_h = mp.line_height(li);
                if (cumulative as i128) + (content_h as i128) > (avail_for_lines as i128) && li > cursor_line {
                    break;
                }
                cumulative = len_add(cumulative, mp.line_advance(li));
                end_line = li + 1;
                li += 1;
            }

            let part_line_height = mp.line_advances_sum(cursor_line, end_line);
            let part_sp_after: i64 = if end_line >= line_count { sp_after } else { 0 };
            let part_height = len_add(len_add(sp_b, part_line_height), part_sp_after);

            if cursor_line == 0 && end_line >= line_count {
                // Everything fits, unless it overflows after all.
                let n_items = st.current_items.len();
                let prev_is_table = n_items > 0 && match &st.current_items[n_items - 1] {
                    PageItem::Table { .. } => true,
                    PageItem::PartialTable { .. } => true,
                    _ => false,
                };
                let overflow_threshold: i128 = if prev_is_table {
                    let trailing = mp.line_spacing(end_line - 1);
                    cumulative as i128 - trailing as i128
                } else {
                    cumulative as i128
                };
                if overflow_threshold > avail_for_lines as i128 && st.current_items.len() > 0 {
                    let ghost s1 = *st;
                    st.advance_column_or_new_page();
                    proof {
                        lemma_step_same(&s1, st, para_idx as int, paras);
                        lemma_stepped_trans(&s0, &s1, st, para_idx as int, paras);
                        lemma_new_items_same(&s0, &s1, st);
                        assert(!retried);
                        assert(cursor_of(st) == next_cursor(cursor_of(&s1), s1.col_count as int));
                        retried = true;
                    }
                    continue;
                }
                let item = PageItem::FullParagraph { para_index: para_idx };
                let ghost s1 = *st;
                st.push_item(item);
                proof {
                    lemma_step_push(&s1, st, item, para_idx as int, paras);
                    lemma_stepped_trans(&s0, &s1, st, para_idx as int, paras);
                    lemma_new_items_push(&s0, &s1, st, item);
                    assert(new_items(&s0, st) =~= seq![item]);
                }
                if st.page_vpos_base.is_none() && para.line_segs.len() > 0 {
                    st.page_vpos_base = Some(para.line_segs[0].vertical_pos);
                }
            } else {
                let item = PageItem::PartialParagraph { para_index: para_idx, start_line: cursor_line, end_line };
                let ghost s1 = *st;
                st.push_item(item);
                proof {
                    lemma_step_push(&s1, st, item, para_idx as int, paras);
                    lemma_stepped_trans(&s0, &s1, st, para_idx as int, paras);
                    lemma_new_items_push(&s0, &s1, st, item);
                    assert(new_items(&s0, st).drop_last() =~= new_items(&s0, &s1));
                    let ni = new_items(&s0, st);
                    if cursor_line > 0 {
                        assert(new_items(&s0, &s1).len() > 0);
                        assert(avail_for_lines == (if base_available_height > 0 { base_available_height } else { 0 }));
                    }
                    assert forall|k: int| 1 <= k < ni.len() implies (#[trigger] ni[k] matches PageItem::PartialParagraph { start_line, end_line, .. }
                        && end_line == fit_end(*mp, start_line as int, if base_available_height > 0 { base_available_height as int } else { 0 }, start_line as int, 0)) by {
                        if k < ni.len() - 1 {
                            assert(ni[k] == new_items(&s0, &s1)[k]);
                        }
                    }
                }
                if st.page_vpos_base.is_none() && cursor_line < para.line_segs.len() {
                    st.page_vpos_base = Some(para.line_segs[cursor_line].vertical_pos);
                }
            }
            placed_any = true;
            let ghost s2 = *st;
            st.add_height(part_height);
            proof {
                lemma_step_same(&s2, st, para_idx as int, paras);
                lemma_stepped_trans(&s0, &s2, st, para_idx as int, paras);
                lemma_new_items_same(&s0, &s2, st);
            }

            if end_line >= line_count {
                break;
            }

            // The rest goes to the next column or page.
            let ghost s3 = *st;
            st.advance_column_or_new_page();
            proof {
                lemma_step_same(&s3, st, para_idx as int, paras);
                lemma_stepped_trans(&s0, &s3, st, para_idx as int, paras);
                lemma_new_items_same(&s0, &s3, st);
            }
            cursor_line = end_line;
            if st.page_vpos_base.is_none() && end_line < para.line_segs.len() {
                st.page_vpos_base = Some(para.line_segs[end_line].vertical_pos);
            }
        }
    }

    /// Places a paragraph laid out over several columns, one part per
    /// column.
    pub fn paginate_multicolumn_paragraph(
        &self,
        st: &mut PaginationState,
        paragraphs: &[Paragraph],
        para_idx: usize,
        measured: &MeasuredSection,
        para_height: i64,
        col_breaks: &Vec<usize>,
    )
        requires
            old(st).wf(),
            para_idx < paragraphs@.len(),
            len_ok(para_height as int),
            col_breaks@.len() > 1,
            super::text_lines::breaks_ok(col_breaks@, paragraphs@[para_idx as int].line_segs@.len() as int),
        ensures
            page_footnotes(final(st).pages@) == page_footnotes(old(st).pages@),
            stepped(&*old(st), &*final(st), para_idx as int, paragraphs@),
            final(st).all_items().len() > old(st).all_items().len(),
            parts_reach(new_items(&*old(st), &*final(st)), para_idx, paragraphs@[para_idx as int].line_segs@.len() as int),
            column_parts(new_items(&*old(st), &*final(st)), para_idx, col_breaks@, paragraphs@[para_idx as int].line_segs@.len() as int),
    {
        let ghost s0 = *st;
        let ghost paras = paragraphs@;
        let para = &paragraphs[para_idx];
        let line_count = para.line_segs.len();
        let measured_line_count = if para_idx < measured.paragraphs.len() {
            measured.paragraphs[para_idx].line_heights.len()
        } else {
            line_count
        };
        let n_breaks = col_breaks.len();
        // The paragraph height shared evenly among the columns (rounded
        // toward zero).
        let share: i64 = if para_height >= 0 {
            ((para_height as u64) / (n_breaks as u64)) as i64
        } else {
            -((((-para_height) as u64) / (n_breaks as u64)) as i64)
        };
        proof {
            lemma_stepped_refl(&s0, para_idx as int, paras);
            lemma_new_items_empty(&s0, st);
            assert(new_items(&s0, st) =~= Seq::<PageItem>::empty());
        }
        let mut bi: usize = 0;
        while bi < n_breaks
            invariant
                st.wf(),
                stepped(&s0, st, para_idx as int, paras),
                page_footnotes(st.pages@) == page_footnotes(s0.pages@),
                paras == paragraphs@,
                para == &paragraphs@[para_idx as int],
                para_idx < paras.len(),
                line_count == para.line_segs@.len(),
                n_breaks == col_breaks@.len(),
                n_breaks > 1,
                super::text_lines::breaks_ok(col_breaks@, line_count as int),
                0 <= bi <= n_breaks,
                len_ok(share as int),
                para_idx < measured.paragraphs@.len() ==> measured_line_count == measured.paragraphs@[para_idx as int].line_heights@.len(),
                bi > 0 ==> st.all_items().len() > s0.all_items().len(),
                parts_reach(new_items(&s0, st), para_idx, if bi < n_breaks { col_breaks@[bi as int] as int } else { line_count as int }),
                column_parts(new_items(&s0, st), para_idx, col_breaks@.take(bi as int), if bi < n_breaks { col_breaks@[bi as int] as int } else { line_count as int }),
            decreases n_breaks - bi,
        {
            let break_start = col_breaks[bi];
            let break_end = if bi + 1 < n_breaks { col_breaks[bi + 1] } else { line_count };
            proof {
                if bi + 1 < n_breaks {
                    assert(col_breaks@[bi as int] < col_breaks@[bi + 1]);
                }
                assert(col_breaks@[bi as int] < line_count);
            }
            let safe_start = if break_start < measured_line_count { break_start } else { measured_line_count };
            let safe_end = if break_end < measured_line_count { break_end } else { measured_line_count };
            let part_height: i64 = if safe_start < safe_end && para_idx < measured.paragraphs.len() {
                measured.paragraphs[para_idx].line_advances_sum(safe_start, safe_end)
            } else {
                share
            };
            let item = if break_start == 0 && break_end == line_count {
                PageItem::FullParagraph { para_index: para_idx }
            } else {
                PageItem::PartialParagraph { para_index: para_idx, start_line: break_start, end_line: break_end }
            };
            let ghost s1 = *st;
            st.push_item(item);
            proof {
                lemma_step_push(&s1, st, item, para_idx as int, paras);
                lemma_stepped_trans(&s0, &s1, st, para_idx as int, paras);
                if bi == 0 {
                    assert(break_end < line_count);
                } else {
                    assert(col_breaks@[0] < col_breaks@[bi as int]);
                }
                lemma_new_items_push(&s0, &s1, st, item);
                let ni = new_items(&s0, st);
                assert(ni.drop_last() =~= new_items(&s0, &s1));
                let b1 = col_breaks@.take(bi + 1);
                assert(b1 =~= col_breaks@.take(bi as int).push(col_breaks@[bi as int]));
                assert forall|k: int| 0 <= k < ni.len() implies #[trigger] ni[k] == (PageItem::PartialParagraph {
                    para_index: para_idx,
                    start_line: b1[k],
                    end_line: if k + 1 < b1.len() { b1[k + 1] } else { (if bi + 1 < n_breaks { col_breaks@[bi + 1] as int } else { line_count as int }) as usize },
                }) by {
                    if k < bi {
                        assert(ni[k] == new_items(&s0, &s1)[k]);
                    }
                }
            }
            let ghost s2 = *st;
            st.add_height(part_height);
            proof {
                lemma_step_same(&s2, st, para_idx as int, paras);
                lemma_stepped_trans(&s0, &s2, st, para_idx as int, paras);
                lemma_new_items_same(&s0, &s2, st);
            }
            if bi + 1 < n_breaks {
                let ghost s3 = *st;
                st.advance_column_or_new_page();
                proof {
                    lemma_step_same(&s3, st, para_idx as int, paras);
                    lemma_stepped_trans(&s0, &s3, st, para_idx as int, paras);
                    lemma_new_items_same(&s0, &s3, st);
                }
            }
            bi += 1;
        }
    }
}

} // verus!
