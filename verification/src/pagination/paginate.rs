//! Walking the paragraphs of a section.

use vstd::prelude::*;
use std::collections::HashSet;
use crate::model::{
    ColumnBreakType, ColumnDef, Control, LineSeg, LineSpacingType, MeasuredSection, PageDef, PageLayoutInfo,
    Paragraph, ResolvedParaStyle, TextWrap,
};
use crate::units::{len_ok, clamp_len, spec_hwpunit_to_px, clamp_len_exec, len_add, len_sub, len_max, len_min, min_int, max_int, hwpunit_to_px, SUBPX_PER_PX};
use crate::text::{is_blank, is_all_whitespace, spec_is_blank, spec_is_all_whitespace};
use super::types::{PageItem, PageContent, ColumnContent, WrapAroundPara, PaginationResult, page_items, page_wraps, page_footnotes, column_items, column_wraps, same_column_items, lemma_same_page_items, lemma_page_items_push, lemma_column_items_push};
use super::finalize::{HfEntry, hf_of_paragraphs, pnp_of_paragraphs, hides_of_paragraphs, new_numbers_of_paragraphs, page_finalized, page_number_of, active_hf, first_hide, page_last_para, hf_in_force};
use super::state::{PaginationState, page_columns_ok};
use super::engine::{
    Paginator, stepped, items_ok, wraps_ok, lemma_step_same, lemma_stepped_trans, lemma_stepped_refl,
    lemma_placed_items_ok, lemma_wraps_prefix,
};
use super::controls::{
    footnotes_in_order, footnotes_before, lemma_footnotes_before_later, footnotes_valid,
    table_body_height, positive_line_spacing, spec_table_body_height, spec_positive_line_spacing, tac_count, is_tac_table, is_shape_like, shape_placed, lemma_shape_placed_prefix, no_table_controls, shapes_from,
    is_flow_table, measured_without_rows, table_placed, places_table, lemma_table_placed_prefix,
    footnote_recorded, body_footnote_ref, lemma_footnote_recorded_kept, lemma_footnote_recorded_from,
    para_footnotes_recorded, lemma_para_footnotes_kept,
};
use super::text_lines::{text_lines_ok, split_line_count, lines_placed, measured_line_count, later_parts_fill};

verus! {

broadcast use vstd::std_specs::hash::group_hash_axioms;

/// No paragraph holds a table that text wraps around.
pub open spec fn no_wrap_around_tables(paras: Seq<Paragraph>) -> bool {
    forall|p: int, c: int| 0 <= p < paras.len() && 0 <= c < paras[p].controls@.len() ==>
        !(#[trigger] paras[p].controls@[c] matches Control::Table(t) && t.common.text_wrap == TextWrap::Square)
}

/// No paragraph starts a multi-column zone.
pub open spec fn no_multicolumn(paras: Seq<Paragraph>) -> bool {
    forall|i: int| 0 <= i < paras.len() ==> (#[trigger] paras[i]).column_type != ColumnBreakType::MultiColumn
}

/// Some item comes from paragraph `q`.
pub open spec fn appears(items: Seq<PageItem>, q: int) -> bool {
    exists|k: int| 0 <= k < items.len() && (#[trigger] items[k]).spec_para_index() == q
}

/// Some wrap-around paragraph is paragraph `q`.
pub open spec fn wrapped(ws: Seq<WrapAroundPara>, q: int) -> bool {
    exists|k: int| 0 <= k < ws.len() && (#[trigger] ws[k]).para_index == q
}

/// Every item comes from a paragraph before `q`.
pub open spec fn trails(items: Seq<PageItem>, q: int) -> bool {
    forall|k: int| 0 <= k < items.len() ==> (#[trigger] items[k]).spec_para_index() < q
}

/// The paragraphs without tables (by their measurement) after paragraph
/// `t` up to paragraph `q` have no items: they stood beside `t`'s table.
pub open spec fn beside_run(t: int, q: int, items: Seq<PageItem>, measured: &MeasuredSection) -> bool {
    forall|j: int| t < j <= q && !measured.spec_paragraph_has_table(j) ==> !#[trigger] appears(items, j)
}

/// Paragraph `q` was left out with the last column of the section, which
/// stayed empty beside a wrap-around table: it has no table, every item
/// comes from a paragraph before it, and it follows a paragraph `t` that
/// holds a table text wraps around (and no table treated as a character),
/// with no paragraph without tables from `t` up to `q` placed.
pub open spec fn dropped_beside(items: Seq<PageItem>, paras: Seq<Paragraph>, measured: &MeasuredSection, q: int) -> bool {
    &&& trails(items, q)
    &&& !measured.spec_paragraph_has_table(q)
    &&& exists|t: int| 0 <= t < q && has_square_table(paras[t].controls@) && tac_count(paras[t].controls@) == 0
        && #[trigger] beside_run(t, q, items, measured)
}

/// The items of paragraph `q` are exactly those at `a..b`.
pub open spec fn run_of(items: Seq<PageItem>, q: int, a: int, b: int) -> bool {
    &&& 0 <= a <= b <= items.len()
    &&& forall|k: int| a <= k < b ==> (#[trigger] items[k]).spec_para_index() == q
    &&& forall|k: int| 0 <= k < items.len() && !(a <= k < b) ==> (#[trigger] items[k]).spec_para_index() != q
}

/// The items of paragraph `q` are those at `a..b`: its lines at `a..m`,
/// whole or in parts that cover them in order, then shape items. Where no
/// paragraph starts a multi-column zone the parts cover its measured lines,
/// and each part after the first takes the lines that fit in a whole body
/// height (`base`).
pub open spec fn text_run(items: Seq<PageItem>, q: usize, paras: Seq<Paragraph>, measured: &MeasuredSection, base: int, a: int, m: int, b: int) -> bool {
    &&& run_of(items, q as int, a, b)
    &&& a <= m <= b
    &&& text_lines_ok(items.subrange(a, m), q, &paras[q as int], measured)
    &&& no_multicolumn(paras) ==> lines_placed(items.subrange(a, m), q, measured_line_count(measured, q as int))
    &&& no_multicolumn(paras) && (q as int) < measured.paragraphs@.len()
        ==> later_parts_fill(items.subrange(a, m), measured.paragraphs@[q as int], base)
    &&& forall|k: int| m <= k < b ==> (#[trigger] items[k]) is Shape
}

/// The items of paragraph `q` (one without tables) place its lines whole
/// or in parts that cover them in order, followed by the shape items of
/// its controls.
pub open spec fn text_para_placed(items: Seq<PageItem>, q: usize, paras: Seq<Paragraph>, measured: &MeasuredSection, base: int) -> bool {
    exists|a: int, m: int, b: int| #[trigger] text_run(items, q, paras, measured, base, a, m, b)
}

/// A paragraph without tables, by its measurement and by its controls.
pub open spec fn table_free(paras: Seq<Paragraph>, measured: &MeasuredSection, q: int) -> bool {
    !measured.spec_paragraph_has_table(q) && no_table_controls(paras[q].controls@)
}

/// Whether some table among the controls has text wrapped around it.
pub open spec fn has_square_table(ctrls: Seq<Control>) -> bool {
    exists|c: int| 0 <= c < ctrls.len() && (#[trigger] ctrls[c] matches Control::Table(t) && t.common.text_wrap == TextWrap::Square)
}

/// Each wrap-around paragraph is a paragraph without tables beside one
/// that holds a table text wraps around (and no table treated as a
/// character); each is recorded once, in paragraph order, has no item of
/// its own, and has text exactly when it is not empty.
pub open spec fn wraps_sound(ws: Seq<WrapAroundPara>, items: Seq<PageItem>, paras: Seq<Paragraph>, measured: &MeasuredSection) -> bool {
    &&& forall|k: int| 0 <= k < ws.len() ==> {
        &&& !measured.spec_paragraph_has_table((#[trigger] ws[k]).para_index as int)
        &&& has_square_table(paras[ws[k].table_para_index as int].controls@)
        &&& !appears(items, ws[k].para_index as int)
    }
    &&& forall|i: int, j: int| 0 <= i < j < ws.len() ==> (#[trigger] ws[i]).para_index < (#[trigger] ws[j]).para_index
    &&& forall|k: int| 0 <= k < ws.len() ==> #[trigger] wrap_entry_ok(ws[k], paras)
    &&& forall|k: int| 0 <= k < ws.len() ==> beside_run((#[trigger] ws[k]).table_para_index as int, ws[k].para_index as int, items, measured)
}

/// A wrap-around paragraph has text exactly when it is not empty, and the
/// paragraph of its table holds no table treated as a character.
pub open spec fn wrap_entry_ok(w: WrapAroundPara, paras: Seq<Paragraph>) -> bool {
    &&& w.has_text == !para_is_empty(&paras[w.para_index as int])
    &&& tac_count(paras[w.table_para_index as int].controls@) == 0
}

/// Page `i` is numbered, with its header, footer, page-number position and
/// hiding as the section's controls and the page's content give them.
pub open spec fn page_decorated(
    pages: Seq<PageContent>,
    i: int,
    hf: Seq<HfEntry>,
    pnp: Option<crate::model::PageNumberPos>,
    hides: Seq<(usize, crate::model::PageHide)>,
    news: Seq<(usize, u16)>,
) -> bool {
    let p = pages[i];
    &&& p.page_index == i as u32
    &&& p.page_number == page_number_of(pages, news, i) as u32
    &&& p.active_header == active_hf(pages, hf, news, i, true)
    &&& p.active_footer == active_hf(pages, hf, news, i, false)
    &&& p.page_number_pos == pnp
    &&& p.page_hide == first_hide(hides, column_items(p.column_contents@), 0)
}

/// What splitting a section into pages gives: at least one page (exactly
/// one, blank, for a section without paragraphs: no columns, no
/// footnotes), each of the section, numbered and decorated; items valid
/// (a table item names a table, a shape item a drawing object, picture,
/// equation or table) and in paragraph order.
///
/// Nothing is lost: every paragraph without tables, every shape, every
/// table in the flow (but a measured one without rows) and every footnote
/// is placed or recorded, unless its paragraph stands beside a wrap-around
/// table (and is collected as such) or was left out with the section's
/// last column, which stayed empty beside such a table (`dropped_beside`).
/// A paragraph without tables gets its lines whole or in parts that cover
/// them in order, then the shapes of its controls; where no paragraph
/// starts a multi-column zone, the parts cover its measured lines and each
/// part after the first holds the lines that fit in the body height of the
/// page layout (`body_height`). Each footnote reference
/// names a footnote control of the section, with its number; they come in
/// the order of their sources, so none is recorded twice.
///
/// The paragraphs beside wrap-around tables are collected once each, in
/// order, after their tables, have no item of their own, have text exactly
/// when they are not empty, and no longer sit on the columns. Only empty
/// paragraphs are hidden, only when asked to, and at most two for each
/// page. Where no paragraph starts a multi-column zone, the columns of each
/// page come in increasing order, each below the section's column count.
pub open spec fn paginated(
    paras: Seq<Paragraph>,
    measured: &MeasuredSection,
    section_index: usize,
    column_count: u16,
    body_height: int,
    hide_empty_line: bool,
    r: PaginationResult,
) -> bool {
    let pages = r.pages@;
    let items = page_items(pages);
    let hf = hf_of_paragraphs(paras, section_index);
    let pnp = pnp_of_paragraphs(paras);
    let hides = hides_of_paragraphs(paras);
    let news = new_numbers_of_paragraphs(paras);
    &&& pages.len() >= 1
    &&& paras.len() == 0 ==> pages.len() == 1 && items.len() == 0
        && pages[0].column_contents@.len() == 0 && pages[0].footnotes@.len() == 0
    &&& forall|i: int| 0 <= i < pages.len() ==> (#[trigger] pages[i]).section_index == section_index
    &&& forall|i: int| 0 <= i < pages.len() ==> #[trigger] page_decorated(pages, i, hf, pnp, hides, news)
    &&& items_ok(items, paras, paras.len() as int)
    &&& forall|q: int| 0 <= q < paras.len() && !measured.spec_paragraph_has_table(q)
        ==> appears(items, q) || wrapped(r.wrap_around_paras@, q) || dropped_beside(items, paras, measured, q)
    &&& forall|p: usize, c: usize| p < paras.len() && c < paras[p as int].controls@.len()
        && is_shape_like(#[trigger] paras[p as int].controls@[c as int])
        ==> shape_placed(items, 0, p, c) || wrapped(r.wrap_around_paras@, p as int) || dropped_beside(items, paras, measured, p as int)
    &&& forall|p: usize, c: usize| p < paras.len() && c < paras[p as int].controls@.len()
        && is_flow_table(#[trigger] paras[p as int].controls@[c as int]) && !measured_without_rows(measured, p as int, c as int)
        ==> table_placed(items, 0, p, c) || wrapped(r.wrap_around_paras@, p as int) || dropped_beside(items, paras, measured, p as int)
    &&& forall|p: usize| p < paras.len()
        ==> para_footnotes_recorded(pages, 0, &#[trigger] paras[p as int], p)
            || wrapped(r.wrap_around_paras@, p as int) || dropped_beside(items, paras, measured, p as int)
    &&& forall|q: usize| q < paras.len() && table_free(paras, measured, q as int) && #[trigger] appears(items, q as int)
        ==> text_para_placed(items, q, paras, measured, body_height)
    &&& wraps_ok(r.wrap_around_paras@, paras.len() as int)
    &&& wraps_sound(r.wrap_around_paras@, items, paras, measured)
    &&& no_wrap_around_tables(paras) ==> r.wrap_around_paras@.len() == 0
    &&& forall|i: int, j: int| 0 <= i < pages.len() && 0 <= j < pages[i].column_contents@.len()
        ==> (#[trigger] pages[i].column_contents@[j]).wrap_around_paras@.len() == 0
    &&& forall|h: usize| #[trigger] r.hidden_empty_paras@.contains(h) ==>
        hide_empty_line && h < paras.len() && spec_is_blank(paras[h as int].text@) && paras[h as int].controls@.len() == 0
    &&& r.hidden_empty_paras@.finite() && r.hidden_empty_paras@.len() <= 2 * pages.len()
    &&& footnotes_in_order(page_footnotes(pages))
    &&& footnotes_valid(page_footnotes(pages), paras)
    &&& no_multicolumn(paras) ==> forall|i: int| 0 <= i < pages.len()
        ==> page_columns_ok((#[trigger] pages[i]).column_contents@, if column_count > 1 { column_count as int } else { 1 })
}

/// Columns emptied of their wrap-around paragraphs, all else kept.
pub open spec fn wraps_taken(a: Seq<ColumnContent>, b: Seq<ColumnContent>) -> bool {
    &&& same_column_items(a, b)
    &&& forall|j: int| 0 <= j < b.len() ==> (#[trigger] b[j]).column_index == a[j].column_index
    &&& forall|j: int| 0 <= j < b.len() ==> (#[trigger] b[j]).wrap_around_paras@.len() == 0
}

proof fn lemma_pages_same_numbers(a: Seq<PageContent>, b: Seq<PageContent>, news: Seq<(usize, u16)>, i: int)
    requires
        a.len() == b.len(),
        0 <= i < a.len(),
        forall|k: int| 0 <= k < a.len() ==> (#[trigger] a[k]).column_contents@ == b[k].column_contents@,
    ensures
        page_number_of(a, news, i) == page_number_of(b, news, i),
    decreases i,
{
    assert(page_last_para(a[i]) == page_last_para(b[i]));
    if i > 0 {
        assert(a[i - 1].column_contents@ == b[i - 1].column_contents@);
        lemma_pages_same_numbers(a, b, news, i - 1);
    }
}

proof fn lemma_pages_same_hf(a: Seq<PageContent>, b: Seq<PageContent>, hf: Seq<HfEntry>, i: int, h: bool, ap: crate::model::HeaderFooterApply)
    requires
        a.len() == b.len(),
        0 <= i < a.len(),
        forall|k: int| 0 <= k < a.len() ==> (#[trigger] a[k]).column_contents@ == b[k].column_contents@,
    ensures
        hf_in_force(a, hf, i, h, ap) == hf_in_force(b, hf, i, h, ap),
    decreases i,
{
    assert(page_last_para(a[i]) == page_last_para(b[i]));
    if i > 0 {
        lemma_pages_same_hf(a, b, hf, i - 1, h, ap);
    }
}

/// Finalized pages, which had no hiding before, are decorated.
proof fn lemma_finalized_decorated(
    old: Seq<PageContent>,
    new: Seq<PageContent>,
    hf: Seq<HfEntry>,
    pnp: Option<crate::model::PageNumberPos>,
    hides: Seq<(usize, crate::model::PageHide)>,
    news: Seq<(usize, u16)>,
)
    requires
        old.len() == new.len(),
        forall|i: int| 0 <= i < old.len() ==> page_finalized(old, #[trigger] new[i], i, hf, pnp, hides, news),
        forall|i: int| 0 <= i < old.len() ==> (#[trigger] old[i]).page_hide is None,
    ensures
        forall|i: int| 0 <= i < new.len() ==> #[trigger] page_decorated(new, i, hf, pnp, hides, news),
{
    assert forall|k: int| 0 <= k < old.len() implies (#[trigger] old[k]).column_contents@ == new[k].column_contents@ by {
        assert(page_finalized(old, new[k], k, hf, pnp, hides, news));
    }
    assert forall|i: int| 0 <= i < new.len() implies #[trigger] page_decorated(new, i, hf, pnp, hides, news) by {
        assert(page_finalized(old, new[i], i, hf, pnp, hides, news));
        assert(old[i].page_hide is None);
        lemma_pages_same_numbers(old, new, news, i);
        lemma_pages_same_hf(old, new, hf, i, true, crate::model::HeaderFooterApply::Both);
        lemma_pages_same_hf(old, new, hf, i, true, crate::model::HeaderFooterApply::Odd);
        lemma_pages_same_hf(old, new, hf, i, true, crate::model::HeaderFooterApply::Even);
        lemma_pages_same_hf(old, new, hf, i, false, crate::model::HeaderFooterApply::Both);
        lemma_pages_same_hf(old, new, hf, i, false, crate::model::HeaderFooterApply::Odd);
        lemma_pages_same_hf(old, new, hf, i, false, crate::model::HeaderFooterApply::Even);
    }
}

/// What the walk over a section's paragraphs carries from one paragraph to
/// the next.
pub struct Flow {
    /// Line position (column start, segment width) of the active
    /// wrap-around table; negative when there is none.
    pub wrap_around_cs: i64,
    pub wrap_around_sw: i64,
    pub wrap_around_table_para: usize,
    pub prev_pagination_para: Option<usize>,
    pub fix_table_visual_h: i64,
    pub fix_vpos_tmp: i64,
    pub fix_overlay_active: bool,
    pub hidden_empty_lines: u8,
    pub hidden_empty_page: usize,
    pub hidden_empty_paras: HashSet<usize>,
}

impl Flow {
    /// The flow once its wrap-around table has ended.
    pub open spec fn wrap_ended(self) -> Flow {
        Flow { wrap_around_cs: -1i64, wrap_around_sw: -1i64, ..self }
    }

    /// Same wrap-around and overlay fields.
    pub open spec fn same_carry(&self, old: &Flow) -> bool {
        &&& self.wrap_around_cs == old.wrap_around_cs
        &&& self.wrap_around_sw == old.wrap_around_sw
        &&& self.wrap_around_table_para == old.wrap_around_table_para
        &&& self.prev_pagination_para == old.prev_pagination_para
        &&& self.fix_table_visual_h == old.fix_table_visual_h
        &&& self.fix_vpos_tmp == old.fix_vpos_tmp
        &&& self.fix_overlay_active == old.fix_overlay_active
    }
}

/// Spacing before and after measured paragraph `pi` (zero where it was not
/// measured).
pub open spec fn measured_spacing(measured: &MeasuredSection, pi: int) -> (int, int) {
    if 0 <= pi < measured.paragraphs@.len() {
        (clamp_len(measured.paragraphs@[pi].spacing_before as int), clamp_len(measured.paragraphs@[pi].spacing_after as int))
    } else {
        (0, 0)
    }
}

/// The line spacing of the line holding the `k`-th table treated as a
/// character, where it is positive and the paragraph has that line.
pub open spec fn tac_line_spacing(segs: Seq<LineSeg>, k: int, dpi: i64) -> int {
    if 0 <= k < segs.len() { spec_positive_line_spacing(segs[k].line_spacing, dpi) } else { 0 }
}

/// What the tables treated as characters among the first `n` controls of
/// paragraph `pi` need to fit: each its measured body, its outer top margin
/// and the line spacing of its line.
pub open spec fn tac_tables_fit_height(para: &Paragraph, pi: int, measured: &MeasuredSection, dpi: i64, n: int) -> int
    decreases n,
{
    if n <= 0 || n > para.controls@.len() {
        0
    } else {
        let prev = tac_tables_fit_height(para, pi, measured, dpi, n - 1);
        match para.controls@[n - 1] {
            Control::Table(t) => if t.common.treat_as_char {
                let mt_h = match measured.spec_table_of(pi, n - 1) {
                    Some(m) => spec_table_body_height(&m, &t, dpi),
                    None => 0,
                };
                let outer = spec_hwpunit_to_px(t.outer_margin_top as int, dpi as int);
                let ls = tac_line_spacing(para.line_segs@, tac_count(para.controls@.take(n - 1)), dpi);
                clamp_len(prev + clamp_len(clamp_len(mt_h + outer) + ls))
            } else {
                prev
            },
            _ => prev,
        }
    }
}

/// Whether a line is a short text line: its text is less than a third of
/// its height (a table treated as a character takes the rest).
pub open spec fn is_short_text_line(seg: LineSeg) -> bool {
    seg.text_height > 0 && 3 * (seg.text_height as int) + 3 <= seg.line_height as int
}

/// The text height and line spacing of the short text lines among the
/// first `n` lines.
pub open spec fn short_lines_height(segs: Seq<LineSeg>, dpi: i64, n: int) -> int
    decreases n,
{
    if n <= 0 || n > segs.len() {
        0
    } else {
        let prev = short_lines_height(segs, dpi, n - 1);
        let seg = segs[n - 1];
        if is_short_text_line(seg) {
            clamp_len(prev + spec_hwpunit_to_px(seg.text_height as int + seg.line_spacing as int, dpi as int))
        } else {
            prev
        }
    }
}

/// The height a paragraph holding tables treated as characters needs to
/// fit: its tables, its short text lines, and its spacing before and after.
pub open spec fn spec_tac_fit_height(para: &Paragraph, pi: int, measured: &MeasuredSection, dpi: i64) -> int {
    let tac_h = tac_tables_fit_height(para, pi, measured, dpi, para.controls@.len() as int);
    let text_h = short_lines_height(para.line_segs@, dpi, para.line_segs@.len() as int);
    let sp = measured_spacing(measured, pi);
    clamp_len(clamp_len(clamp_len(tac_h + text_h) + sp.0) + sp.1)
}

/// The height the tables treated as characters among the first `n`
/// controls of paragraph `pi` take at most: each at least as tall as its
/// line, with that line's spacing (only tables that have a line count).
pub open spec fn tac_tables_cap_height(para: &Paragraph, pi: int, measured: &MeasuredSection, dpi: i64, n: int) -> int
    decreases n,
{
    if n <= 0 || n > para.controls@.len() {
        0
    } else {
        let prev = tac_tables_cap_height(para, pi, measured, dpi, n - 1);
        let k = tac_count(para.controls@.take(n - 1));
        let segs = para.line_segs@;
        if is_tac_table(para.controls@[n - 1]) && k < segs.len() {
            let seg = segs[k];
            let seg_lh = spec_hwpunit_to_px(seg.line_height as int, dpi as int);
            let mt_h = match measured.spec_table_of(pi, n - 1) {
                Some(m) => clamp_len(m.total_height as int),
                None => 0,
            };
            clamp_len(prev + clamp_len(max_int(seg_lh, mt_h) + spec_positive_line_spacing(seg.line_spacing, dpi)))
        } else {
            prev
        }
    }
}

/// The outer top margins of the tables treated as characters among the
/// first `n` controls.
pub open spec fn tac_outer_tops(ctrls: Seq<Control>, dpi: i64, n: int) -> int
    decreases n,
{
    if n <= 0 || n > ctrls.len() {
        0
    } else {
        let prev = tac_outer_tops(ctrls, dpi, n - 1);
        match ctrls[n - 1] {
            Control::Table(t) => if t.common.treat_as_char {
                clamp_len(prev + spec_hwpunit_to_px(t.outer_margin_top as int, dpi as int))
            } else {
                prev
            },
            _ => prev,
        }
    }
}

/// The height a paragraph with tables treated as characters takes at most:
/// its space before (not at the top of a column, where the height before
/// its controls is under a pixel), the tables' outer top margins, its
/// tables, the line after the tables and its space after; never more than
/// `para_height`, which is also the height where its tables take nothing.
pub open spec fn spec_tac_height_cap(para: &Paragraph, pi: int, measured: &MeasuredSection, dpi: i64, para_height: int, before: int) -> int {
    let count = tac_count(para.controls@);
    let segs = para.line_segs@;
    let total = if count > 0 && segs.len() > 0 { tac_tables_cap_height(para, pi, measured, dpi, para.controls@.len() as int) } else { 0 };
    if total > 0 {
        let sp = measured_spacing(measured, pi);
        let sb = if before < SUBPX_PER_PX { 0 } else { sp.0 };
        let outer = tac_outer_tops(para.controls@, dpi, para.controls@.len() as int);
        let post = if segs.len() > count {
            spec_hwpunit_to_px(segs.last().line_height as int + segs.last().line_spacing as int, dpi as int)
        } else {
            0
        };
        min_int(clamp_len(clamp_len(clamp_len(clamp_len(sb + outer) + total) + post) + sp.1), para_height)
    } else {
        para_height
    }
}

/// The state with its column height set to `h`.
pub open spec fn with_current_height(s: PaginationState, h: i64) -> PaginationState {
    PaginationState { current_height: h, ..s }
}

/// The last of the first `k` line segments that spans the column: its
/// width is positive and within 3000 HWP units of the column width `cw`.
pub open spec fn last_full_width_seg(segs: Seq<LineSeg>, cw: int, k: int) -> Option<int>
    decreases k,
{
    if k <= 0 || k > segs.len() {
        None
    } else {
        let sw = segs[k - 1].segment_width as int;
        if sw > 0 && (if sw >= cw { sw - cw } else { cw - sw }) < 3000 {
            Some(k - 1)
        } else {
            last_full_width_seg(segs, cw, k - 1)
        }
    }
}

/// The column height that the vertical positions of the document give on
/// a page holding a block table: where the last full-width line of the
/// previous paragraph (one without inline objects) ends, measured from the
/// page's first vertical position; `None` where that does not apply, is not
/// above the current height, or does not fit.
#[verifier::opaque]
pub open spec fn followed_height(st: &PaginationState, f: &Flow, paragraphs: Seq<Paragraph>, para_idx: usize, dpi: i64) -> Option<int> {
    match f.prev_pagination_para {
        Some(prev_pi) => {
            if para_idx != prev_pi && st.page_has_block_table && prev_pi < paragraphs.len() {
                let prev = paragraphs[prev_pi as int];
                let segs = prev.line_segs@;
                if exists|c: int| 0 <= c < prev.controls@.len() && is_inline_object(#[trigger] prev.controls@[c]) {
                    None
                } else {
                    match st.page_vpos_base {
                        Some(base) => match last_full_width_seg(segs, st.layout.column_width_hu as int, segs.len() as int) {
                            Some(j) => {
                                let seg = segs[j];
                                if seg.vertical_pos == 0 && prev_pi > 0 {
                                    None
                                } else {
                                    let vpos_end = seg.vertical_pos as int + seg.line_height as int + seg.line_spacing as int;
                                    let h = spec_hwpunit_to_px(vpos_end - base as int, dpi as int);
                                    if h > st.current_height && h > 0 && h <= st.spec_available_height() { Some(h) } else { None }
                                }
                            },
                            None => None,
                        },
                        None => None,
                    }
                }
            } else {
                None
            }
        },
        None => None,
    }
}

/// Whether a line segment lies on the line position of the active
/// wrap-around table.
pub open spec fn seg_on_wrap_line(f: &Flow, seg: LineSeg) -> bool {
    seg.column_start as i64 == f.wrap_around_cs && seg.segment_width as i64 == f.wrap_around_sw
}

/// A paragraph of white space only, without controls.
pub open spec fn para_is_empty(para: &Paragraph) -> bool {
    spec_is_all_whitespace(para.text@) && para.controls@.len() == 0
}

/// Whether a paragraph stands beside the active wrap-around table: it has
/// no tables and its first line lies on the table's line position; or it is
/// empty and one of its lines does; or the table spans the whole width and
/// it is an empty paragraph narrower than half the body width.
pub open spec fn beside_wrap_table(f: &Flow, para: &Paragraph, has_table: bool, page_def: &PageDef) -> bool {
    let segs = para.line_segs@;
    let cs: i64 = if segs.len() > 0 { segs[0].column_start as i64 } else { 0 };
    let sw: i64 = if segs.len() > 0 { segs[0].segment_width as i64 } else { 0 };
    let empty = para_is_empty(para);
    let any_seg = exists|j: int| 0 <= j < segs.len() && seg_on_wrap_line(f, #[trigger] segs[j]);
    let body_w = (page_def.width as i32) as int - (page_def.margin_left as i32) as int - (page_def.margin_right as i32) as int;
    &&& f.wrap_around_cs >= 0
    &&& !has_table
    &&& ((cs == f.wrap_around_cs && sw == f.wrap_around_sw) || (any_seg && empty)
        || (f.wrap_around_sw == 0 && empty && sw > 0 && 2 * sw + 2 <= body_w))
}

/// The index of the page the current column is on.
pub open spec fn current_page_index(st: &PaginationState) -> int {
    if st.pages@.len() == 0 { 0 } else { st.pages@.len() - 1 }
}

/// Empty paragraphs are hidden at most twice per page: the count kept for
/// the page being hidden on is at most two, on a page not after the current
/// one, and at most two were hidden on each page before it.
pub open spec fn hide_count_ok(f: &Flow, st: &PaginationState) -> bool {
    &&& f.hidden_empty_paras@.finite()
    &&& f.hidden_empty_lines <= 2
    &&& f.hidden_empty_page <= current_page_index(st)
    &&& f.hidden_empty_paras@.len() <= 2 * f.hidden_empty_page + f.hidden_empty_lines
}

/// The body height the later parts of split paragraphs fill: the page
/// layout's, which stays as it is where no paragraph starts a multi-column
/// zone.
pub open spec fn flow_base(st: &PaginationState, paras: Seq<Paragraph>) -> int {
    if no_multicolumn(paras) { st.layout.available_body_height as int } else { 0 }
}

/// What holds after the first `done` paragraphs of a section.
pub open spec fn flow_ok(
    st: &PaginationState,
    f: &Flow,
    paras: Seq<Paragraph>,
    measured: &MeasuredSection,
    section_index: usize,
    hide_empty_line: bool,
    done: int,
) -> bool {
    &&& st.wf()
    &&& st.section_index == section_index
    &&& st.pages_ok()
    &&& items_ok(st.all_items(), paras, done)
    &&& wraps_ok(st.all_wraps(), done)
    &&& wraps_sound(st.all_wraps(), st.all_items(), paras, measured)
    &&& no_wrap_around_tables(paras) ==> f.wrap_around_cs < 0 && st.all_wraps().len() == 0
    &&& forall|q: int| 0 <= q < done && !measured.spec_paragraph_has_table(q)
        ==> appears(st.all_items(), q) || wrapped(st.all_wraps(), q)
    &&& forall|k: int| 0 <= k < st.current_column_wrap_around_paras@.len()
        ==> trails(page_items(st.pages@), (#[trigger] st.current_column_wrap_around_paras@[k]).para_index as int)
    &&& forall|q: usize| q < done && table_free(paras, measured, q as int) && #[trigger] appears(st.all_items(), q as int)
        ==> text_para_placed(st.all_items(), q, paras, measured, flow_base(st, paras))
    &&& f.wrap_around_cs >= 0 ==> f.wrap_around_table_para < done
        && has_square_table(paras[f.wrap_around_table_para as int].controls@)
        && tac_count(paras[f.wrap_around_table_para as int].controls@) == 0
        && beside_run(f.wrap_around_table_para as int, done - 1, st.all_items(), measured)
    &&& f.prev_pagination_para matches Some(p) ==> p < done
    &&& no_multicolumn(paras) ==> st.columns_ok()
    &&& hide_count_ok(f, st)
    &&& footnotes_in_order(page_footnotes(st.pages@))
    &&& footnotes_before(page_footnotes(st.pages@), (done, 0, 0, 0, 0))
    &&& footnotes_valid(page_footnotes(st.pages@), paras)
    &&& len_ok(f.fix_table_visual_h as int)
    &&& len_ok(f.fix_vpos_tmp as int)
    &&& forall|h: usize| #[trigger] f.hidden_empty_paras@.contains(h) ==>
        h < done && hide_empty_line && spec_is_blank(paras[h as int].text@) && paras[h as int].controls@.len() == 0
    &&& done == 0 ==> st.pages@.len() == 0 && st.all_items().len() == 0
    &&& forall|p: usize, c: usize| p < done && c < paras[p as int].controls@.len()
        && is_shape_like(#[trigger] paras[p as int].controls@[c as int])
        ==> shape_placed(st.all_items(), 0, p, c) || wrapped(st.all_wraps(), p as int)
    &&& forall|p: usize, c: usize| p < done && c < paras[p as int].controls@.len()
        && is_flow_table(#[trigger] paras[p as int].controls@[c as int]) && !measured_without_rows(measured, p as int, c as int)
        ==> table_placed(st.all_items(), 0, p, c) || wrapped(st.all_wraps(), p as int)
    &&& forall|p: usize| p < done
        ==> para_footnotes_recorded(st.pages@, 0, &#[trigger] paras[p as int], p) || wrapped(st.all_wraps(), p as int)
}

/// Placing a paragraph's lines does not depend on the body height named
/// for its later parts where a multi-column zone makes that clause void.
proof fn lemma_text_para_base(items: Seq<PageItem>, q: usize, paras: Seq<Paragraph>, measured: &MeasuredSection, b1: int, b2: int)
    requires
        text_para_placed(items, q, paras, measured, b1),
        no_multicolumn(paras) ==> b1 == b2,
    ensures
        text_para_placed(items, q, paras, measured, b2),
{
    let (a, m, b) = choose|a: int, m: int, b: int| #[trigger] text_run(items, q, paras, measured, b1, a, m, b);
    assert(text_run(items, q, paras, measured, b2, a, m, b));
}

proof fn lemma_wraps_ok_weaken(ws: Seq<WrapAroundPara>, b: int)
    requires
        wraps_ok(ws, b),
    ensures
        wraps_ok(ws, b + 1),
{
}

proof fn lemma_items_ok_weaken(s: Seq<PageItem>, paras: Seq<Paragraph>, b: int)
    requires
        items_ok(s, paras, b),
    ensures
        items_ok(s, paras, b + 1),
{
}

proof fn lemma_wrapped_push(ws: Seq<WrapAroundPara>, w: WrapAroundPara, q: int)
    requires
        wrapped(ws, q) || w.para_index == q,
    ensures
        wrapped(ws.push(w), q),
{
    if wrapped(ws, q) {
        let k = choose|k: int| 0 <= k < ws.len() && (#[trigger] ws[k]).para_index == q;
        assert(ws.push(w)[k] == ws[k]);
    } else {
        assert(ws.push(w)[ws.len() as int] == w);
    }
}

/// Items placed for paragraph `pi` add no item of any other paragraph.
proof fn lemma_appears_placed(a: Seq<PageItem>, b: Seq<PageItem>, pi: int, paras: Seq<Paragraph>, q: int)
    requires
        super::engine::placed_for(a, b, pi, paras),
        appears(b, q),
        q != pi,
    ensures
        appears(a, q),
{
    let k = choose|k: int| 0 <= k < b.len() && (#[trigger] b[k]).spec_para_index() == q;
    if k >= a.len() {
        assert(b[k].spec_para_index() == pi);
    } else {
        assert(a[k] == b[k]);
    }
}

/// Items placed for another paragraph keep a paragraph's run of items.
proof fn lemma_text_run_extend(
    old: Seq<PageItem>,
    new: Seq<PageItem>,
    pi: int,
    paras: Seq<Paragraph>,
    measured: &MeasuredSection,
    q: usize,
    base: int,
    a: int,
    m: int,
    b: int,
)
    requires
        super::engine::placed_for(old, new, pi, paras),
        q != pi,
        text_run(old, q, paras, measured, base, a, m, b),
    ensures
        text_run(new, q, paras, measured, base, a, m, b),
{
    assert(new.subrange(a, m) =~= old.subrange(a, m));
    assert forall|k: int| a <= k < b implies (#[trigger] new[k]).spec_para_index() == q by {
        assert(new[k] == old[k]);
    }
    assert forall|k: int| 0 <= k < new.len() && !(a <= k < b) implies (#[trigger] new[k]).spec_para_index() != q by {
        if k < old.len() {
            assert(new[k] == old[k]);
        }
    }
    assert forall|k: int| m <= k < b implies (#[trigger] new[k]) is Shape by {
        assert(new[k] == old[k]);
    }
}

/// A wrap-around paragraph left out with an empty last column, after every
/// placed item, was dropped beside its table.
proof fn lemma_dropped_beside(
    aw: Seq<WrapAroundPara>,
    k: int,
    items: Seq<PageItem>,
    paras: Seq<Paragraph>,
    measured: &MeasuredSection,
)
    requires
        wraps_sound(aw, items, paras, measured),
        wraps_ok(aw, paras.len() as int),
        0 <= k < aw.len(),
        trails(items, aw[k].para_index as int),
    ensures
        dropped_beside(items, paras, measured, aw[k].para_index as int),
{
    let w = aw[k];
    assert(wrap_entry_ok(w, paras));
    assert(beside_run(w.table_para_index as int, w.para_index as int, items, measured));
}

proof fn lemma_appears_prefix(a: Seq<PageItem>, b: Seq<PageItem>, q: int)
    requires
        appears(a, q),
        a.is_prefix_of(b),
    ensures
        appears(b, q),
{
    let k = choose|k: int| 0 <= k < a.len() && (#[trigger] a[k]).spec_para_index() == q;
    assert(b[k] == a[k]);
}

/// Whether some table among the controls has text wrapped around it.
fn has_wrap_around_table(ctrls: &Vec<Control>) -> (r: bool)
    ensures
        r == exists|c: int| 0 <= c < ctrls@.len()
            && (#[trigger] ctrls@[c] matches Control::Table(t) && t.common.text_wrap == TextWrap::Square),
{
    let mut i: usize = 0;
    while i < ctrls.len()
        invariant
            0 <= i <= ctrls@.len(),
            forall|c: int| 0 <= c < i ==> !(#[trigger] ctrls@[c] matches Control::Table(t) && t.common.text_wrap == TextWrap::Square),
        decreases ctrls@.len() - i,
    {
        if let Control::Table(t) = &ctrls[i] {
            if t.common.text_wrap == TextWrap::Square {
                assert(ctrls@[i as int] matches Control::Table(t) && t.common.text_wrap == TextWrap::Square);
                return true;
            }
        }
        i += 1;
    }
    false
}

/// Whether a control is an equation, or a picture or shape treated as a
/// character.
pub open spec fn is_inline_object(c: Control) -> bool {
    match c {
        Control::Equation => true,
        Control::Picture(p) => p.common.treat_as_char,
        Control::Shape(s) => s.common.treat_as_char,
        _ => false,
    }
}

/// Whether some control is an equation, or a picture or shape treated as a
/// character.
fn has_inline_object(ctrls: &Vec<Control>) -> (r: bool)
    ensures
        r == exists|c: int| 0 <= c < ctrls@.len() && is_inline_object(#[trigger] ctrls@[c]),
{
    let mut i: usize = 0;
    while i < ctrls.len()
        invariant
            0 <= i <= ctrls@.len(),
            forall|c: int| 0 <= c < i ==> !is_inline_object(#[trigger] ctrls@[c]),
        decreases ctrls@.len() - i,
    {
        match &ctrls[i] {
            Control::Equation => { assert(is_inline_object(ctrls@[i as int])); return true; },
            Control::Picture(p) => { if p.common.treat_as_char { assert(is_inline_object(ctrls@[i as int])); return true; } },
            Control::Shape(s) => { if s.common.treat_as_char { assert(is_inline_object(ctrls@[i as int])); return true; } },
            _ => {},
        }
        i += 1;
    }
    false
}

/// A column layout with its body height saturated into the range of lengths.
pub open spec fn spec_checked_layout(l: PageLayoutInfo) -> PageLayoutInfo {
    PageLayoutInfo { available_body_height: clamp_len(l.available_body_height as int) as i64, column_width_hu: l.column_width_hu }
}

/// Where the last line of the nearest paragraph before `i` that has lines
/// ends (HWP units: its vertical position, height and spacing); zero where
/// no paragraph before `i` has lines.
pub open spec fn prev_vpos_end(paras: Seq<Paragraph>, i: int) -> int
    decreases i,
{
    if i <= 0 || i > paras.len() {
        0
    } else if paras[i - 1].line_segs@.len() > 0 {
        let seg = paras[i - 1].line_segs@.last();
        seg.vertical_pos + seg.line_height + seg.line_spacing
    } else {
        prev_vpos_end(paras, i - 1)
    }
}

/// The first column definition among the controls from index `i` on.
pub open spec fn first_column_def(ctrls: Seq<Control>, i: int) -> Option<ColumnDef>
    decreases ctrls.len() - i,
{
    if i < 0 || i >= ctrls.len() {
        None
    } else {
        match ctrls[i] {
            Control::ColumnDef(cd) => Some(cd),
            _ => first_column_def(ctrls, i + 1),
        }
    }
}

fn checked_layout(l: PageLayoutInfo) -> (r: PageLayoutInfo)
    ensures
        len_ok(r.available_body_height as int),
        r == spec_checked_layout(l),
{
    PageLayoutInfo { available_body_height: clamp_len_exec(l.available_body_height), column_width_hu: l.column_width_hu }
}

impl Paginator {
    /// At a multi-column break: flushes the current column, starts a new
    /// column zone below the content so far (at the end of the last laid-out
    /// line of the paragraphs before, else at the current height), and takes
    /// the column count and layout of the paragraph's column definition.
    pub fn process_multicolumn_break(
        &self,
        st: &mut PaginationState,
        para_idx: usize,
        paragraphs: &[Paragraph],
        page_def: &PageDef,
    )
        requires
            old(st).wf(),
            para_idx < paragraphs@.len(),
        ensures
            page_footnotes(final(st).pages@) == page_footnotes(old(st).pages@),
            super::engine::step_kept(&*old(st), &*final(st), para_idx as int, paragraphs@),
            paragraphs@[para_idx as int].column_type == ColumnBreakType::MultiColumn ==> stepped(&*old(st), &*final(st), para_idx as int, paragraphs@),
            final(st).all_items() == old(st).all_items(),
            final(st).current_items@.len() == 0,
            old(st).current_items@.len() > 0 ==> final(st).pages@.len() == (if old(st).pages@.len() == 0 { 1 } else { old(st).pages@.len() as int }),
            old(st).current_items@.len() == 0 ==> final(st).pages@ == old(st).pages@,
            final(st).current_column == 0,
            final(st).current_height == 0,
            final(st).on_first_multicolumn_page,
            ({
                let v = prev_vpos_end(paragraphs@, para_idx as int);
                final(st).current_zone_y_offset == clamp_len(old(st).current_zone_y_offset
                    + if v > 0 { spec_hwpunit_to_px(v, self.dpi as int) } else { old(st).current_height as int })
            }),
            match first_column_def(paragraphs@[para_idx as int].controls@, 0) {
                Some(cd) => {
                    &&& final(st).col_count == (if cd.column_count > 1 { cd.column_count } else { 1 })
                    &&& final(st).layout == spec_checked_layout(cd.layout)
                    &&& final(st).current_zone_layout == Some(spec_checked_layout(cd.layout))
                },
                None => {
                    &&& final(st).col_count == old(st).col_count
                    &&& final(st).layout == old(st).layout
                    &&& final(st).current_zone_layout == old(st).current_zone_layout
                },
            },
            final(st).col_count >= 1 || final(st).col_count == old(st).col_count,
    {
        let ghost s0 = *st;
        st.flush_column();
        let vpos_zone_height: i64 = if para_idx > 0 {
            let mut max_vpos_end: i64 = 0;
            let mut prev_idx: usize = para_idx;
            while prev_idx > 0
                invariant_except_break
                    max_vpos_end == 0,
                    prev_vpos_end(paragraphs@, para_idx as int) == prev_vpos_end(paragraphs@, prev_idx as int),
                invariant
                    0 <= prev_idx <= para_idx < paragraphs@.len(),
                    -0x4_0000_0000 <= max_vpos_end <= 0x4_0000_0000,
                ensures
                    max_vpos_end == (if prev_vpos_end(paragraphs@, para_idx as int) > 0 { prev_vpos_end(paragraphs@, para_idx as int) } else { 0 }),
                decreases prev_idx,
            {
                prev_idx -= 1;
                let segs = &paragraphs[prev_idx].line_segs;
                if segs.len() > 0 {
                    let last_seg = &segs[segs.len() - 1];
                    let vpos_end = last_seg.vertical_pos as i64 + last_seg.line_height as i64 + last_seg.line_spacing as i64;
                    if vpos_end > max_vpos_end {
                        max_vpos_end = vpos_end;
                    }
                    break;
                }
            }
            if max_vpos_end > 0 { hwpunit_to_px(max_vpos_end, self.dpi) } else { st.current_height }
        } else {
            st.current_height
        };
        st.current_zone_y_offset = len_add(st.current_zone_y_offset, vpos_zone_height);
        st.current_column = 0;
        st.current_height = 0;
        st.on_first_multicolumn_page = true;
        let ctrls = &paragraphs[para_idx].controls;
        let ghost s1 = *st;
        let mut i: usize = 0;
        while i < ctrls.len()
            invariant_except_break
                first_column_def(ctrls@, 0) == first_column_def(ctrls@, i as int),
                st.col_count == s1.col_count && st.layout == s1.layout && st.current_zone_layout == s1.current_zone_layout,
            invariant
                st.wf(),
                st.pages@ == s1.pages@,
                st.current_items@ == s1.current_items@,
                st.current_zone_y_offset == s1.current_zone_y_offset,
                0 <= i <= ctrls@.len(),
                st.current_column == 0,
                st.current_height == 0,
                st.on_first_multicolumn_page,
                st.all_items() == s0.all_items(),
                st.all_wraps() == s0.all_wraps(),
                super::state::wraps_kept(&s0, st),
                super::state::footnotes_kept(&s0, st),
                s0.pages@.len() <= st.pages@.len(),
                s0.pages_ok() ==> st.pages_ok(),
                st.section_index == s0.section_index,
                st.col_count >= 1 || st.col_count == s0.col_count,
            ensures
                match first_column_def(ctrls@, 0) {
                    Some(cd) => {
                        &&& st.col_count == (if cd.column_count > 1 { cd.column_count } else { 1 })
                        &&& st.layout == spec_checked_layout(cd.layout)
                        &&& st.current_zone_layout == Some(spec_checked_layout(cd.layout))
                    },
                    None => {
                        &&& st.col_count == s1.col_count
                        &&& st.layout == s1.layout
                        &&& st.current_zone_layout == s1.current_zone_layout
                    },
                },
            decreases ctrls@.len() - i,
        {
            if let Control::ColumnDef(cd) = &ctrls[i] {
                st.col_count = if cd.column_count > 1 { cd.column_count } else { 1 };
                let new_layout = checked_layout(cd.layout);
                st.current_zone_layout = Some(new_layout);
                st.layout = new_layout;
                break;
            }
            i += 1;
        }
        proof { super::engine::lemma_step_same_multicolumn(&s0, st, para_idx as int, paragraphs@); }
    }

    /// Takes the wrap-around paragraphs off all columns, in page and column
    /// order.
    fn take_wrap_around_paras(pages: &mut Vec<PageContent>) -> (r: Vec<WrapAroundPara>)
        ensures
            r@ == page_wraps(old(pages)@),
            final(pages)@.len() == old(pages)@.len(),
            forall|i: int| 0 <= i < old(pages)@.len() ==> {
                let p = #[trigger] final(pages)@[i];
                let q = old(pages)@[i];
                &&& wraps_taken(q.column_contents@, p.column_contents@)
                &&& p.page_index == q.page_index
                &&& p.page_number == q.page_number
                &&& p.section_index == q.section_index
                &&& p.layout == q.layout
                &&& p.active_header == q.active_header
                &&& p.active_footer == q.active_footer
                &&& p.page_number_pos == q.page_number_pos
                &&& p.page_hide == q.page_hide
                &&& p.footnotes@ == q.footnotes@
            },
    {
        let ghost old_pages = pages@;
        let mut all: Vec<WrapAroundPara> = Vec::new();
        let n = pages.len();
        let mut i: usize = 0;
        while i < n
            invariant
                n == old_pages.len() == pages@.len(),
                0 <= i <= n,
                all@ == page_wraps(old_pages.take(i as int)),
                forall|k: int| i <= k < n ==> #[trigger] pages@[k] == old_pages[k],
                forall|k: int| 0 <= k < i ==> {
                    let p = #[trigger] pages@[k];
                    let q = old_pages[k];
                    &&& wraps_taken(q.column_contents@, p.column_contents@)
                    &&& p.page_index == q.page_index
                    &&& p.page_number == q.page_number
                    &&& p.section_index == q.section_index
                    &&& p.layout == q.layout
                    &&& p.active_header == q.active_header
                    &&& p.active_footer == q.active_footer
                    &&& p.page_number_pos == q.page_number_pos
                    &&& p.page_hide == q.page_hide
                    &&& p.footnotes@ == q.footnotes@
                },
            decreases n - i,
        {
            let ghost q = old_pages[i as int];
            let ghost all0 = all@;
            let ghost before = pages@;
            let m = pages[i].column_contents.len();
            let mut j: usize = 0;
            while j < m
                invariant
                    n == old_pages.len() == pages@.len(),
                    i < n,
                    q == old_pages[i as int],
                    m == q.column_contents@.len() == pages@[i as int].column_contents@.len(),
                    0 <= j <= m,
                    all@ == all0 + column_wraps(q.column_contents@.take(j as int)),
                    before.len() == n,
                    forall|k: int| 0 <= k < n && k != i ==> #[trigger] pages@[k] == before[k],
                    forall|c: int| 0 <= c < m ==> (#[trigger] pages@[i as int].column_contents@[c]).items@ == q.column_contents@[c].items@,
                    forall|c: int| 0 <= c < m ==> (#[trigger] pages@[i as int].column_contents@[c]).column_index == q.column_contents@[c].column_index,
                    forall|c: int| 0 <= c < j ==> (#[trigger] pages@[i as int].column_contents@[c]).wrap_around_paras@.len() == 0,
                    forall|c: int| j <= c < m ==> #[trigger] pages@[i as int].column_contents@[c] == q.column_contents@[c],
                    pages@[i as int].page_index == q.page_index,
                    pages@[i as int].page_number == q.page_number,
                    pages@[i as int].section_index == q.section_index,
                    pages@[i as int].layout == q.layout,
                    pages@[i as int].active_header == q.active_header,
                    pages@[i as int].active_footer == q.active_footer,
                    pages@[i as int].page_number_pos == q.page_number_pos,
                    pages@[i as int].page_hide == q.page_hide,
                    pages@[i as int].footnotes@ == q.footnotes@,
                decreases m - j,
            {
                let mut w: Vec<WrapAroundPara> = Vec::new();
                std::mem::swap(&mut w, &mut pages[i].column_contents[j].wrap_around_paras);
                proof {
                    assert(q.column_contents@.take(j + 1) =~= q.column_contents@.take(j as int).push(q.column_contents@[j as int]));
                    lemma_column_items_push(q.column_contents@.take(j as int), q.column_contents@[j as int]);
                }
                all.append(&mut w);
                j += 1;
            }
            proof {
                assert(q.column_contents@.take(m as int) =~= q.column_contents@);
                assert(old_pages.take(i + 1) =~= old_pages.take(i as int).push(q));
                lemma_page_items_push(old_pages.take(i as int), q);
                assert(all@ =~= page_wraps(old_pages.take(i + 1)));
            }
            i += 1;
        }
        proof {
            assert(old_pages.take(n as int) =~= old_pages);
        }
        all
    }

    /// Height a paragraph holding tables treated as characters needs to fit:
    /// its tables (body, outer top margin and line spacing), its short text
    /// lines, and its spacing before and after.
    fn tac_fit_height(&self, para: &Paragraph, para_idx: usize, measured: &MeasuredSection) -> (r: i64)
        ensures
            len_ok(r as int),
            r == spec_tac_fit_height(para, para_idx as int, measured, self.dpi),
    {
        let mut tac_h: i64 = 0;
        let mut tac_ci: usize = 0;
        let mut ci: usize = 0;
        while ci < para.controls.len()
            invariant
                0 <= ci <= para.controls@.len(),
                len_ok(tac_h as int),
                tac_h == tac_tables_fit_height(para, para_idx as int, measured, self.dpi, ci as int),
                tac_ci == tac_count(para.controls@.take(ci as int)),
                tac_ci <= ci,
            decreases para.controls@.len() - ci,
        {
            proof {
                assert(para.controls@.take(ci + 1).drop_last() =~= para.controls@.take(ci as int));
            }
            if let Control::Table(t) = &para.controls[ci] {
                if t.common.treat_as_char {
                    let mt_h: i64 = match measured.get_measured_table(para_idx, ci) {
                        Some(m) => table_body_height(m, t, self.dpi),
                        None => 0,
                    };
                    let outer_top = hwpunit_to_px(t.outer_margin_top as i64, self.dpi);
                    let ls: i64 = if tac_ci < para.line_segs.len() {
                        positive_line_spacing(para.line_segs[tac_ci].line_spacing, self.dpi)
                    } else {
                        0
                    };
                    if tac_ci < usize::MAX {
                        tac_ci += 1;
                    }
                    tac_h = len_add(tac_h, len_add(len_add(mt_h, outer_top), ls));
                }
            }
            ci += 1;
        }
        let mut text_h: i64 = 0;
        let mut k: usize = 0;
        while k < para.line_segs.len()
            invariant
                0 <= k <= para.line_segs@.len(),
                len_ok(text_h as int),
                text_h == short_lines_height(para.line_segs@, self.dpi, k as int),
            decreases para.line_segs@.len() - k,
        {
            let seg = &para.line_segs[k];
            // Text lines shorter than a third of their line (the table
            // takes the rest).
            if seg.text_height > 0 && 3 * (seg.text_height as i64) + 3 <= seg.line_height as i64 {
                text_h = len_add(text_h, hwpunit_to_px(seg.text_height as i64 + seg.line_spacing as i64, self.dpi));
            }
            k += 1;
        }
        let (sb, sa): (i64, i64) = if para_idx < measured.paragraphs.len() {
            (measured.paragraphs[para_idx].spacing_before(), measured.paragraphs[para_idx].spacing_after())
        } else {
            (0, 0)
        };
        len_add(len_add(len_add(tac_h, text_h), sb), sa)
    }

    /// The height a paragraph with tables treated as characters takes at
    /// most: its space before (not at the top of a column), the tables'
    /// outer top margins, each table at least as tall as its line, the line
    /// after the tables and the space after; never more than the measured
    /// paragraph height. `None` where there are no such tables to measure.
    fn tac_height_cap(&self, para: &Paragraph, para_idx: usize, measured: &MeasuredSection, para_height: i64, height_before_controls: i64) -> (r: i64)
        requires
            len_ok(para_height as int),
            len_ok(height_before_controls as int),
        ensures
            len_ok(r as int),
            r == spec_tac_height_cap(para, para_idx as int, measured, self.dpi, para_height as int, height_before_controls as int),
    {
        let tac_count = super::controls::count_tac_tables(&para.controls, para.controls.len());
        proof {
            assert(para.controls@.take(para.controls@.len() as int) =~= para.controls@);
        }
        let mut total: i64 = 0;
        if tac_count > 0 && para.line_segs.len() > 0 {
            let mut tac_idx: usize = 0;
            let mut ci: usize = 0;
            while ci < para.controls.len()
                invariant
                    0 <= ci <= para.controls@.len(),
                    len_ok(total as int),
                    total == tac_tables_cap_height(para, para_idx as int, measured, self.dpi, ci as int),
                    tac_idx == super::controls::tac_count(para.controls@.take(ci as int)),
                    tac_idx <= ci,
                decreases para.controls@.len() - ci,
            {
                proof {
                    assert(para.controls@.take(ci + 1).drop_last() =~= para.controls@.take(ci as int));
                }
                if let Control::Table(t) = &para.controls[ci] {
                    if t.common.treat_as_char {
                        if tac_idx < para.line_segs.len() {
                            let seg = &para.line_segs[tac_idx];
                            let seg_lh = hwpunit_to_px(seg.line_height as i64, self.dpi);
                            let mt_h: i64 = match measured.get_table_height(para_idx, ci) { Some(h) => h, None => 0 };
                            let effective_h = len_max(seg_lh, mt_h);
                            let ls = positive_line_spacing(seg.line_spacing, self.dpi);
                            total = len_add(total, len_add(effective_h, ls));
                        }
                        if tac_idx < usize::MAX {
                            tac_idx += 1;
                        }
                    }
                }
                ci += 1;
            }
        }
        if total > 0 {
            let (sb, sa): (i64, i64) = if para_idx < measured.paragraphs.len() {
                (measured.paragraphs[para_idx].spacing_before(), measured.paragraphs[para_idx].spacing_after())
            } else {
                (0, 0)
            };
            let mut outer_top: i64 = 0;
            let mut ci: usize = 0;
            while ci < para.controls.len()
                invariant
                    0 <= ci <= para.controls@.len(),
                    len_ok(outer_top as int),
                    outer_top == tac_outer_tops(para.controls@, self.dpi, ci as int),
                decreases para.controls@.len() - ci,
            {
                if let Control::Table(t) = &para.controls[ci] {
                    if t.common.treat_as_char {
                        outer_top = len_add(outer_top, hwpunit_to_px(t.outer_margin_top as i64, self.dpi));
                    }
                }
                ci += 1;
            }
            let is_col_top = height_before_controls < SUBPX_PER_PX;
            let effective_sb: i64 = if is_col_top { 0 } else { sb };
            let post_text_h: i64 = if para.line_segs.len() > tac_count {
                let seg = &para.line_segs[para.line_segs.len() - 1];
                hwpunit_to_px(seg.line_height as i64 + seg.line_spacing as i64, self.dpi)
            } else {
                0
            };
            len_min(len_add(len_add(len_add(len_add(effective_sb, outer_top), total), post_text_h), sa), para_height)
        } else {
            para_height
        }
    }


    /// With `hide_empty_line`: an empty paragraph that would overflow a page
    /// that already has content gets no height, at most twice per page.
    fn hide_empty_overflow(
        st: &PaginationState,
        f: &mut Flow,
        paragraphs: &[Paragraph],
        para_idx: usize,
        para_height: i64,
        hide_empty_line: bool,
    ) -> (r: i64)
        requires
            st.wf(),
            para_idx < paragraphs@.len(),
            len_ok(para_height as int),
        ensures
            len_ok(r as int),
            final(f).same_carry(&*old(f)),
            forall|h: usize| #[trigger] final(f).hidden_empty_paras@.contains(h) ==> old(f).hidden_empty_paras@.contains(h)
                || (h == para_idx && hide_empty_line && spec_is_blank(paragraphs@[h as int].text@)
                    && paragraphs@[h as int].controls@.len() == 0),
            ({
                let para = paragraphs@[para_idx as int];
                let lines0 = if current_page_index(st) != old(f).hidden_empty_page { 0 } else { old(f).hidden_empty_lines as int };
                let hides = hide_empty_line && spec_is_blank(para.text@) && para.controls@.len() == 0
                    && st.current_items@.len() > 0 && st.current_height + para_height > st.spec_available_height()
                    && lines0 < 2;
                &&& r == (if hides { 0 } else { para_height })
                &&& hide_empty_line ==> final(f).hidden_empty_page == current_page_index(st)
                    && final(f).hidden_empty_lines == (if hides { lines0 + 1 } else { lines0 })
                &&& !hide_empty_line ==> final(f).hidden_empty_page == old(f).hidden_empty_page
                    && final(f).hidden_empty_lines == old(f).hidden_empty_lines
                &&& final(f).hidden_empty_paras@ == (if hides { old(f).hidden_empty_paras@.insert(para_idx) } else { old(f).hidden_empty_paras@ })
            }),
            hide_count_ok(&*old(f), st) && !old(f).hidden_empty_paras@.contains(para_idx) ==> hide_count_ok(&*final(f), st),
    {
        if !hide_empty_line {
            return para_height;
        }
        let para = &paragraphs[para_idx];
        let current_page = if st.pages.len() == 0 { 0 } else { st.pages.len() - 1 };
        if current_page != f.hidden_empty_page {
            f.hidden_empty_lines = 0;
            f.hidden_empty_page = current_page;
        }
        let is_empty_para = is_blank(&para.text) && para.controls.len() == 0;
        if is_empty_para
            && st.current_items.len() > 0
            && (st.current_height as i128) + (para_height as i128) > (st.available_height() as i128)
            && f.hidden_empty_lines < 2
        {
            f.hidden_empty_lines = f.hidden_empty_lines + 1;
            proof {
                assert(vstd::std_specs::hash::obeys_key_model::<usize>());
                assert(vstd::std_specs::hash::builds_valid_hashers::<std::collections::hash_map::RandomState>());
            }
            f.hidden_empty_paras.insert(para_idx);
            return 0;
        }
        para_height
    }

    /// On a page holding a block table: the column is at least as tall as
    /// the document's vertical positions say the previous paragraph's last
    /// full-width line ends (unless that paragraph holds inline objects),
    /// where that still fits.
    fn follow_vertical_positions(&self, st: &mut PaginationState, f: &Flow, paragraphs: &[Paragraph], para_idx: usize)
        requires
            old(st).wf(),
            para_idx < paragraphs@.len(),
            f.prev_pagination_para matches Some(p) ==> p < para_idx,
        ensures
            page_footnotes(final(st).pages@) == page_footnotes(old(st).pages@),
            stepped(&*old(st), &*final(st), para_idx as int, paragraphs@),
            final(st).pages@ == old(st).pages@,
            final(st).current_items@ == old(st).current_items@,
            *final(st) == (match followed_height(&*old(st), f, paragraphs@, para_idx, self.dpi) {
                Some(h) => with_current_height(*old(st), h as i64),
                None => *old(st),
            }),
    {
        reveal(followed_height);
        let ghost s0 = *st;
        if let Some(prev_pi) = f.prev_pagination_para {
            if para_idx != prev_pi && st.page_has_block_table {
                let prev_para = &paragraphs[prev_pi];
                if !has_inline_object(&prev_para.controls) {
                    if let Some(base) = st.page_vpos_base {
                        let col_width_hu = st.layout.column_width_hu as i64;
                        let segs = &prev_para.line_segs;
                        let mut k: usize = segs.len();
                        let mut found: Option<usize> = None;
                        while k > 0
                            invariant_except_break
                                found is None,
                                last_full_width_seg(segs@, col_width_hu as int, segs@.len() as int)
                                    == last_full_width_seg(segs@, col_width_hu as int, k as int),
                            invariant
                                0 <= k <= segs@.len(),
                                -0x8000_0000 <= col_width_hu < 0x8000_0000,
                                found matches Some(j) ==> j < segs@.len(),
                            ensures
                                (match found {
                                    Some(j) => last_full_width_seg(segs@, col_width_hu as int, segs@.len() as int) == Some(j as int),
                                    None => last_full_width_seg(segs@, col_width_hu as int, segs@.len() as int) is None,
                                }),
                            decreases k,
                        {
                            k -= 1;
                            let sw = segs[k].segment_width as i64;
                            let d = if sw >= col_width_hu { sw - col_width_hu } else { col_width_hu - sw };
                            if sw > 0 && d < 3000 {
                                found = Some(k);
                                break;
                            }
                        }
                        if let Some(j) = found {
                            let seg = &segs[j];
                            if !(seg.vertical_pos == 0 && prev_pi > 0) {
                                let vpos_end = seg.vertical_pos as i64 + seg.line_height as i64 + seg.line_spacing as i64;
                                let vpos_h = hwpunit_to_px(vpos_end - base as i64, self.dpi);
                                if vpos_h > st.current_height && vpos_h > 0 {
                                    let avail = st.available_height();
                                    if vpos_h <= avail {
                                        st.current_height = vpos_h;
                                    }
                                }
                            }
                        }
                    }
                }
            }
        }
        proof { lemma_step_same(&s0, st, para_idx as int, paragraphs@); }
    }

    /// Everything before a paragraph is placed: hiding empty lines, ending a
    /// fixed-spacing overlay, column, page and multi-column breaks, moving on
    /// when a paragraph with a table does not fit, the first page, and the
    /// vertical positions. Returns the paragraph's height, the height that
    /// must fit, and the page body height.
    #[verifier::rlimit(40)]
    fn prepare_paragraph(
        &self,
        st: &mut PaginationState,
        f: &mut Flow,
        paragraphs: &[Paragraph],
        para_idx: usize,
        measured: &MeasuredSection,
        page_def: &PageDef,
        para_styles: &[ResolvedParaStyle],
        hide_empty_line: bool,
    ) -> (r: (i64, i64, i64))
        requires
            old(st).wf(),
            para_idx < paragraphs@.len(),
            old(f).prev_pagination_para matches Some(p) ==> p < para_idx,
            len_ok(old(f).fix_table_visual_h as int),
            len_ok(old(f).fix_vpos_tmp as int),
            hide_count_ok(&*old(f), &*old(st)),
            !old(f).hidden_empty_paras@.contains(para_idx),
        ensures
            page_footnotes(final(st).pages@) == page_footnotes(old(st).pages@),
            stepped(&*old(st), &*final(st), para_idx as int, paragraphs@),
            final(st).all_items() == old(st).all_items(),
            final(st).pages@.len() >= 1,
            hide_count_ok(&*final(f), &*final(st)),
            len_ok(r.0 as int),
            len_ok(r.1 as int),
            len_ok(r.2 as int),
            r.2 == final(st).layout.available_body_height,
            final(f).wrap_around_cs == old(f).wrap_around_cs,
            final(f).wrap_around_sw == old(f).wrap_around_sw,
            final(f).wrap_around_table_para == old(f).wrap_around_table_para,
            final(f).prev_pagination_para == Some(para_idx),
            final(f).fix_table_visual_h == old(f).fix_table_visual_h,
            final(f).fix_vpos_tmp == old(f).fix_vpos_tmp,
            forall|h: usize| #[trigger] final(f).hidden_empty_paras@.contains(h) ==> old(f).hidden_empty_paras@.contains(h)
                || (h == para_idx && hide_empty_line && spec_is_blank(paragraphs@[h as int].text@)
                    && paragraphs@[h as int].controls@.len() == 0),
    {
        let ghost s0 = *st;
        let ghost paras = paragraphs@;
        let para = &paragraphs[para_idx];
        let has_table = measured.paragraph_has_table(para_idx);
        let mut para_height: i64 = match measured.get_paragraph_height(para_idx) { Some(h) => h, None => 0 };
        para_height = Self::hide_empty_overflow(st, f, paragraphs, para_idx, para_height, hide_empty_line);

        // Leaving a fixed-spacing overlay: add what the table is taller.
        if f.fix_overlay_active && !has_table {
            let is_fixed = (para.para_shape_id as usize) < para_styles.len()
                && para_styles[para.para_shape_id as usize].line_spacing_type == LineSpacingType::Fixed;
            if !is_fixed {
                if f.fix_table_visual_h > f.fix_vpos_tmp {
                    st.current_height = len_add(st.current_height, len_sub(f.fix_table_visual_h, f.fix_vpos_tmp));
                }
                f.fix_overlay_active = false;
            }
        }
        proof { lemma_step_same(&s0, st, para_idx as int, paras); }

        if para.column_type == ColumnBreakType::MultiColumn {
            let ghost s1 = *st;
            self.process_multicolumn_break(st, para_idx, paragraphs, page_def);
            proof { lemma_stepped_trans(&s0, &s1, st, para_idx as int, paras); }
        }
        if para.column_type == ColumnBreakType::Column && st.current_items.len() > 0 {
            let ghost s1 = *st;
            st.advance_column_or_new_page();
            proof {
                lemma_step_same(&s1, st, para_idx as int, paras);
                lemma_stepped_trans(&s0, &s1, st, para_idx as int, paras);
            }
        }

        let base_available_height = st.base_available_height();
        let available_height = st.available_height();

        let force_page_break = para.column_type == ColumnBreakType::Page || para.column_type == ColumnBreakType::Section;
        let para_style_break = (para.para_shape_id as usize) < para_styles.len()
            && para_styles[para.para_shape_id as usize].page_break_before;
        if (force_page_break || para_style_break) && st.current_items.len() > 0 {
            let ghost s1 = *st;
            st.force_new_page();
            proof {
                lemma_step_same(&s1, st, para_idx as int, paras);
                lemma_stepped_trans(&s0, &s1, st, para_idx as int, paras);
            }
        }

        let tac_table_count = super::controls::count_tac_tables(&para.controls, para.controls.len());
        let has_tac = tac_table_count > 0;
        let para_height_for_fit: i64 = if has_table && has_tac {
            self.tac_fit_height(para, para_idx, measured)
        } else {
            para_height
        };
        let trailing_tac_ls: i64 = if has_tac && para.line_segs.len() > 0 {
            positive_line_spacing(para.line_segs[para.line_segs.len() - 1].line_spacing, self.dpi)
        } else {
            0
        };
        let half_px: i64 = SUBPX_PER_PX / 2;
        let fit_without_trail = (st.current_height as i128) + (para_height_for_fit as i128) - (trailing_tac_ls as i128)
            <= (available_height as i128) + (half_px as i128);
        let fit_with_trail = (st.current_height as i128) + (para_height_for_fit as i128) <= (available_height as i128) + (half_px as i128);
        if !fit_with_trail && !fit_without_trail && st.current_items.len() > 0 && has_table && tac_table_count <= 1 {
            let ghost s1 = *st;
            st.advance_column_or_new_page();
            proof {
                lemma_step_same(&s1, st, para_idx as int, paras);
                lemma_stepped_trans(&s0, &s1, st, para_idx as int, paras);
            }
        }

        let ghost s2 = *st;
        st.ensure_page();
        proof {
            lemma_step_same(&s2, st, para_idx as int, paras);
            lemma_stepped_trans(&s0, &s2, st, para_idx as int, paras);
        }
        if st.page_vpos_base.is_none() && para.line_segs.len() > 0 {
            st.page_vpos_base = Some(para.line_segs[0].vertical_pos);
        }
        let ghost s3 = *st;
        self.follow_vertical_positions(st, f, paragraphs, para_idx);
        proof { lemma_stepped_trans(&s0, &s3, st, para_idx as int, paras); }
        f.prev_pagination_para = Some(para_idx);
        (para_height, para_height_for_fit, base_available_height)
    }

    /// While a wrap-around table is active: a paragraph without tables on
    /// the table's line position (or an empty one that matches some line, or
    /// narrow empty one beside a full-width table) is recorded beside the
    /// table, and `true` returned; any other paragraph ends the wrap-around.
    fn place_beside_wrap_table(
        &self,
        st: &mut PaginationState,
        f: &mut Flow,
        paragraphs: &[Paragraph],
        para_idx: usize,
        has_table: bool,
        page_def: &PageDef,
    ) -> (placed: bool)
        requires
            old(st).wf(),
            para_idx < paragraphs@.len(),
        ensures
            final(st).wf(),
            super::state::cols_kept(&*old(st), &*final(st)),
            final(st).all_items() == old(st).all_items(),
            placed ==> old(f).wrap_around_cs >= 0 && !has_table,
            final(st).pages@ == old(st).pages@,
            final(st).current_items@ == old(st).current_items@,
            placed ==> final(st).current_column_wrap_around_paras@
                == old(st).current_column_wrap_around_paras@.push(final(st).all_wraps().last()),
            !placed ==> final(st).current_column_wrap_around_paras@ == old(st).current_column_wrap_around_paras@,
            placed ==> final(st).all_wraps() == old(st).all_wraps().push(WrapAroundPara {
                para_index: para_idx,
                table_para_index: old(f).wrap_around_table_para,
                has_text: final(st).all_wraps().last().has_text,
            }),
            !placed ==> final(st).all_wraps() == old(st).all_wraps(),
            old(st).pages_ok() ==> final(st).pages_ok(),
            final(st).section_index == old(st).section_index,
            final(st).pages@.len() == old(st).pages@.len(),
            final(f).wrap_around_cs >= 0 ==> final(f).wrap_around_cs == old(f).wrap_around_cs,
            final(f).wrap_around_table_para == old(f).wrap_around_table_para,
            final(f).fix_table_visual_h == old(f).fix_table_visual_h,
            final(f).fix_vpos_tmp == old(f).fix_vpos_tmp,
            final(f).hidden_empty_paras@ == old(f).hidden_empty_paras@,
            final(f).prev_pagination_para == old(f).prev_pagination_para,
            placed == beside_wrap_table(&*old(f), &paragraphs@[para_idx as int], has_table, page_def),
            placed ==> final(st).all_wraps().last().has_text == !para_is_empty(&paragraphs@[para_idx as int]),
            *final(f) == (if placed || !(old(f).wrap_around_cs >= 0 && !has_table) { *old(f) } else { old(f).wrap_ended() }),
    {
        if !(f.wrap_around_cs >= 0 && !has_table) {
            return false;
        }
        let para = &paragraphs[para_idx];
        let para_cs: i64 = if para.line_segs.len() > 0 { para.line_segs[0].column_start as i64 } else { 0 };
        let para_sw: i64 = if para.line_segs.len() > 0 { para.line_segs[0].segment_width as i64 } else { 0 };
        let is_empty_para = is_all_whitespace(&para.text) && para.controls.len() == 0;
        let mut any_seg_matches = false;
        let mut k: usize = 0;
        while k < para.line_segs.len()
            invariant
                0 <= k <= para.line_segs@.len(),
                any_seg_matches == exists|j: int| 0 <= j < k && seg_on_wrap_line(&*f, #[trigger] para.line_segs@[j]),
            decreases para.line_segs@.len() - k,
        {
            proof {
                if seg_on_wrap_line(&*f, para.line_segs@[k as int]) {
                    assert(exists|j: int| 0 <= j < k + 1 && seg_on_wrap_line(&*f, #[trigger] para.line_segs@[j]));
                }
            }
            if para.line_segs[k].column_start as i64 == f.wrap_around_cs && para.line_segs[k].segment_width as i64 == f.wrap_around_sw {
                any_seg_matches = true;
            }
            k += 1;
        }
        let body_w = (page_def.width as i32) as i64 - (page_def.margin_left as i32) as i64 - (page_def.margin_right as i32) as i64;
        // Beside a table spanning the whole width: empty paragraphs narrower
        // than half the body width.
        let sw0_match = f.wrap_around_sw == 0 && is_empty_para && para_sw > 0 && 2 * para_sw + 2 <= body_w;
        if (para_cs == f.wrap_around_cs && para_sw == f.wrap_around_sw) || (any_seg_matches && is_empty_para) || sw0_match {
            let w = WrapAroundPara { para_index: para_idx, table_para_index: f.wrap_around_table_para, has_text: !is_empty_para };
            st.current_column_wrap_around_paras.push(w);
            proof {
                assert(st.all_items() == old(st).all_items());
                assert(st.all_wraps() =~= old(st).all_wraps().push(w));
                assert(st.current_column_wrap_around_paras@ == old(st).current_column_wrap_around_paras@.push(w));
            }
            true
        } else {
            f.wrap_around_cs = -1;
            f.wrap_around_sw = -1;
            false
        }
    }

    /// Places a paragraph not standing beside a wrap-around table: its text
    /// (when it has no tables), then its controls; then caps the height of a
    /// paragraph of tables treated as characters, and starts or feeds a
    /// fixed-spacing overlay and a wrap-around table.
    fn place_paragraph(
        &self,
        st: &mut PaginationState,
        f: &mut Flow,
        paragraphs: &[Paragraph],
        para_idx: usize,
        measured: &MeasuredSection,
        para_height: i64,
        para_height_for_fit: i64,
        base_available_height: i64,
    )
        requires
            old(st).wf(),
            para_idx < paragraphs@.len(),
            len_ok(para_height as int),
            len_ok(para_height_for_fit as int),
            len_ok(base_available_height as int),
            len_ok(old(f).fix_table_visual_h as int),
            len_ok(old(f).fix_vpos_tmp as int),
        ensures
            stepped(&*old(st), &*final(st), para_idx as int, paragraphs@),
            !measured.spec_paragraph_has_table(para_idx as int) ==> final(st).all_items().len() > old(st).all_items().len(),
            len_ok(final(f).fix_table_visual_h as int),
            len_ok(final(f).fix_vpos_tmp as int),
            (final(f).wrap_around_cs == old(f).wrap_around_cs && final(f).wrap_around_table_para == old(f).wrap_around_table_para) || (
                final(f).wrap_around_table_para == para_idx
                && tac_count(paragraphs@[para_idx as int].controls@) == 0
                && exists|c: int| 0 <= c < paragraphs@[para_idx as int].controls@.len()
                    && (#[trigger] paragraphs@[para_idx as int].controls@[c] matches Control::Table(t) && t.common.text_wrap == TextWrap::Square)),
            footnotes_in_order(page_footnotes(old(st).pages@))
                && footnotes_before(page_footnotes(old(st).pages@), (para_idx as int, 0, 0, 0, 0))
                ==> footnotes_in_order(page_footnotes(final(st).pages@))
                    && footnotes_before(page_footnotes(final(st).pages@), (para_idx + 1, 0, 0, 0, 0)),
            footnotes_valid(page_footnotes(old(st).pages@), paragraphs@) ==> footnotes_valid(page_footnotes(final(st).pages@), paragraphs@),
            final(f).hidden_empty_paras@ == old(f).hidden_empty_paras@,
            final(f).hidden_empty_lines == old(f).hidden_empty_lines,
            final(f).hidden_empty_page == old(f).hidden_empty_page,
            final(f).prev_pagination_para == old(f).prev_pagination_para,
            forall|c: usize| c < paragraphs@[para_idx as int].controls@.len()
                && is_shape_like(#[trigger] paragraphs@[para_idx as int].controls@[c as int])
                ==> shape_placed(final(st).all_items(), old(st).all_items().len() as int, para_idx, c),
            forall|c: usize| c < paragraphs@[para_idx as int].controls@.len()
                && is_flow_table(#[trigger] paragraphs@[para_idx as int].controls@[c as int])
                && !measured_without_rows(measured, para_idx as int, c as int)
                ==> table_placed(final(st).all_items(), old(st).all_items().len() as int, para_idx, c),
            old(st).pages@.len() > 0 ==> para_footnotes_recorded(final(st).pages@, 0, &paragraphs@[para_idx as int], para_idx),
            !measured.spec_paragraph_has_table(para_idx as int) && no_table_controls(paragraphs@[para_idx as int].controls@) ==>
                exists|m: int| old(st).all_items().len() <= m <= final(st).all_items().len()
                    && text_lines_ok(final(st).all_items().subrange(old(st).all_items().len() as int, m), para_idx, &paragraphs@[para_idx as int], measured)
                    && (!old(st).on_first_multicolumn_page ==> lines_placed(final(st).all_items().subrange(old(st).all_items().len() as int, m),
                        para_idx, measured_line_count(measured, para_idx as int)))
                    && (!old(st).on_first_multicolumn_page && (para_idx as int) < measured.paragraphs@.len()
                        ==> later_parts_fill(final(st).all_items().subrange(old(st).all_items().len() as int, m),
                            measured.paragraphs@[para_idx as int], base_available_height as int))
                    && shapes_from(final(st).all_items(), m),
    {
        let ghost s0 = *st;
        let ghost paras = paragraphs@;
        let para = &paragraphs[para_idx];
        let has_table = measured.paragraph_has_table(para_idx);
        proof { lemma_stepped_refl(&s0, para_idx as int, paras); }
        if !has_table {
            self.paginate_text_lines(st, paragraphs, para_idx, measured, para_height, base_available_height);
            proof {
                let n = split_line_count(&s0, para, measured, para_idx as int);
                assert(super::text_lines::lines_placed(super::engine::new_items(&s0, st), para_idx, n));
                assert(text_lines_ok(super::engine::new_items(&s0, st), para_idx, para, measured));
            }
        }
        let ghost s1 = *st;
        let height_before_controls = st.current_height;
        let page_count_before_controls = st.pages.len();
        self.process_controls(st, paragraphs, para_idx, measured, para_height, para_height_for_fit, base_available_height);
        proof {
            lemma_stepped_trans(&s0, &s1, st, para_idx as int, paras);
            assert forall|c: usize| c < para.controls@.len() && is_shape_like(#[trigger] para.controls@[c as int])
                implies shape_placed(st.all_items(), s0.all_items().len() as int, para_idx, c) by {
                let lo = s1.all_items().len() as int;
                let j = choose|j: int| lo <= j < st.all_items().len()
                    && #[trigger] st.all_items()[j] == (PageItem::Shape { para_index: para_idx, control_index: c });
            }
            if s0.pages@.len() > 0 {
                lemma_para_footnotes_kept(st, st, page_footnotes(s1.pages@).len() as int, 0, para, para_idx);
            }
            assert forall|c: usize| c < para.controls@.len() && is_flow_table(#[trigger] para.controls@[c as int])
                && !measured_without_rows(measured, para_idx as int, c as int)
                implies table_placed(st.all_items(), s0.all_items().len() as int, para_idx, c) by {
                let lo = s1.all_items().len() as int;
                let j = choose|j: int| lo <= j < st.all_items().len() && places_table(#[trigger] st.all_items()[j], para_idx, c);
            }
        }
        let ghost s_ctrl = *st;
        let page_changed = st.pages.len() != page_count_before_controls;

        let has_tac_block_table = super::controls::count_tac_tables(&para.controls, para.controls.len()) > 0;
        proof {
            assert(para.controls@.take(para.controls@.len() as int) =~= para.controls@);
        }
        let has_non_tac_table = has_table && !has_tac_block_table;
        if has_table && !page_changed {
            st.page_has_block_table = true;
        }
        if has_non_tac_table {
            if has_wrap_around_table(&para.controls) {
                f.wrap_around_cs = if para.line_segs.len() > 0 { para.line_segs[0].column_start as i64 } else { 0 };
                f.wrap_around_sw = if para.line_segs.len() > 0 { para.line_segs[0].segment_width as i64 } else { 0 };
                f.wrap_around_table_para = para_idx;
            }
        }

        if has_tac_block_table && para_height > 0 && !page_changed {
            let height_added: i128 = st.current_height as i128 - height_before_controls as i128;
            let cap = self.tac_height_cap(para, para_idx, measured, para_height, height_before_controls);
            if height_added > cap as i128 {
                st.current_height = len_add(height_before_controls, cap);
            }
            if para.line_segs.len() > 0 && para.line_segs[0].line_spacing < 0 {
                f.fix_table_visual_h = hwpunit_to_px(para.line_segs[0].line_height as i64, self.dpi);
                f.fix_vpos_tmp = 0;
                f.fix_overlay_active = true;
            }
        }
        if f.fix_overlay_active && !has_table {
            f.fix_vpos_tmp = len_add(f.fix_vpos_tmp, para_height);
        }
        proof {
            let s2 = *st;
            lemma_step_same(&s2, st, para_idx as int, paras);
            assert(st.all_items() == s_ctrl.all_items());
            if s0.pages@.len() > 0 {
                lemma_para_footnotes_kept(&s_ctrl, st, 0, 0, para, para_idx);
            }
            if !measured.spec_paragraph_has_table(para_idx as int) && no_table_controls(para.controls@) {
                let m = s1.all_items().len() as int;
                assert(st.all_items().subrange(s0.all_items().len() as int, m) =~= super::engine::new_items(&s0, &s1));
                assert(shapes_from(st.all_items(), m));
            }
        }
    }

    /// Handles one paragraph of the section.
    fn paginate_paragraph(
        &self,
        st: &mut PaginationState,
        f: &mut Flow,
        paragraphs: &[Paragraph],
        para_idx: usize,
        measured: &MeasuredSection,
        page_def: &PageDef,
        para_styles: &[ResolvedParaStyle],
        section_index: usize,
        hide_empty_line: bool,
    )
        requires
            para_idx < paragraphs@.len(),
            flow_ok(&*old(st), &*old(f), paragraphs@, measured, section_index, hide_empty_line, para_idx as int),
        ensures
            flow_ok(&*final(st), &*final(f), paragraphs@, measured, section_index, hide_empty_line, para_idx + 1),
            paragraphs@[para_idx as int].column_type != ColumnBreakType::MultiColumn ==> final(st).col_count == old(st).col_count
                && final(st).layout == old(st).layout,
    {
        let ghost s0 = *st;
        let ghost f0 = *f;
        let ghost paras = paragraphs@;
        proof { lemma_items_ok_weaken(st.all_items(), paras, para_idx as int); }
        let (para_height, para_height_for_fit, base_available_height) =
            self.prepare_paragraph(st, f, paragraphs, para_idx, measured, page_def, para_styles, hide_empty_line);
        let ghost s1 = *st;
        let has_table = measured.paragraph_has_table(para_idx);
        if self.place_beside_wrap_table(st, f, paragraphs, para_idx, has_table, page_def) {
            proof {
                let ws0 = s0.all_wraps();
                let w = st.all_wraps().last();
                assert(st.all_wraps() == ws0.push(w));
                assert(st.all_items() == s0.all_items());
                assert forall|k: int| 0 <= k < st.all_wraps().len() implies
                    (#[trigger] st.all_wraps()[k]).table_para_index < st.all_wraps()[k].para_index && st.all_wraps()[k].para_index < para_idx + 1 by {
                    if k < ws0.len() {
                        assert(st.all_wraps()[k] == ws0[k]);
                    }
                }
                assert(!appears(s0.all_items(), para_idx as int));
                assert forall|k: int| 0 <= k < st.all_wraps().len() implies {
                    &&& !measured.spec_paragraph_has_table((#[trigger] st.all_wraps()[k]).para_index as int)
                    &&& has_square_table(paras[st.all_wraps()[k].table_para_index as int].controls@)
                    &&& !appears(st.all_items(), st.all_wraps()[k].para_index as int)
                } by {
                    if k < ws0.len() {
                        assert(st.all_wraps()[k] == ws0[k]);
                    }
                }
                assert forall|i: int, j: int| 0 <= i < j < st.all_wraps().len() implies
                    (#[trigger] st.all_wraps()[i]).para_index < (#[trigger] st.all_wraps()[j]).para_index by {
                    assert(st.all_wraps()[i] == ws0[i]);
                    if j < ws0.len() {
                        assert(st.all_wraps()[j] == ws0[j]);
                    }
                }
                assert forall|q: int| 0 <= q < para_idx + 1 && !measured.spec_paragraph_has_table(q)
                    implies appears(st.all_items(), q) || wrapped(st.all_wraps(), q) by {
                    if q < para_idx && !appears(s0.all_items(), q) {
                        lemma_wrapped_push(ws0, w, q);
                    } else if q == para_idx {
                        lemma_wrapped_push(ws0, w, q);
                    }
                }
                assert forall|p: usize, c: usize| p < para_idx + 1 && c < paras[p as int].controls@.len()
                    && is_shape_like(#[trigger] paras[p as int].controls@[c as int])
                    implies shape_placed(st.all_items(), 0, p, c) || wrapped(st.all_wraps(), p as int) by {
                    if !shape_placed(st.all_items(), 0, p, c) {
                        lemma_wrapped_push(ws0, w, p as int);
                    }
                }
                assert forall|p: usize, c: usize| p < para_idx + 1 && c < paras[p as int].controls@.len()
                    && is_flow_table(#[trigger] paras[p as int].controls@[c as int]) && !measured_without_rows(measured, p as int, c as int)
                    implies table_placed(st.all_items(), 0, p, c) || wrapped(st.all_wraps(), p as int) by {
                    if !table_placed(st.all_items(), 0, p, c) {
                        lemma_wrapped_push(ws0, w, p as int);
                    }
                }
                assert forall|p: usize| p < para_idx + 1
                    implies para_footnotes_recorded(st.pages@, 0, &#[trigger] paras[p as int], p) || wrapped(st.all_wraps(), p as int) by {
                    if p < para_idx && para_footnotes_recorded(s0.pages@, 0, &paras[p as int], p) {
                        lemma_para_footnotes_kept(&s0, &s1, 0, 0, &paras[p as int], p);
                    } else {
                        lemma_wrapped_push(ws0, w, p as int);
                    }
                }
                assert forall|q: usize| q < para_idx + 1 && table_free(paras, measured, q as int) && #[trigger] appears(st.all_items(), q as int)
                    implies text_para_placed(st.all_items(), q, paras, measured, flow_base(st, paras)) by {
                    if q == para_idx {
                        let k = choose|k: int| 0 <= k < st.all_items().len() && (#[trigger] st.all_items()[k]).spec_para_index() == q as int;
                        assert(s0.all_items()[k].spec_para_index() < para_idx);
                    }
                    if no_multicolumn(paras) {
                        assert(st.layout == s0.layout);
                    }
                }
                let pi = page_items(st.pages@);
                assert forall|j: int| 0 <= j < pi.len() implies (#[trigger] pi[j]).spec_para_index() < para_idx by {
                    assert(pi[j] == st.all_items()[j]);
                }
                let cw = st.current_column_wrap_around_paras@;
                let cw1 = s1.current_column_wrap_around_paras@;
                assert forall|k: int| 0 <= k < cw.len() implies trails(pi, (#[trigger] cw[k]).para_index as int) by {
                    if k < cw1.len() {
                        assert(cw[k] == cw1[k]);
                        assert(cw1 == s0.current_column_wrap_around_paras@);
                        assert(pi == page_items(s0.pages@));
                    } else {
                        assert(cw[k] == w);
                    }
                }
            }
            return;
        }
        let ghost s2 = *st;
        let ghost f2 = *f;
        self.place_paragraph(st, f, paragraphs, para_idx, measured, para_height, para_height_for_fit, base_available_height);
        proof {
            lemma_step_same(&s1, &s2, para_idx as int, paras);
            lemma_stepped_trans(&s0, &s1, &s2, para_idx as int, paras);
            lemma_stepped_trans(&s0, &s2, st, para_idx as int, paras);
            lemma_placed_items_ok(s0.all_items(), st.all_items(), para_idx as int, paras);
            lemma_wraps_ok_weaken(st.all_wraps(), para_idx as int);
            let ws = st.all_wraps();
            assert(ws == s0.all_wraps());
            assert forall|k: int| 0 <= k < ws.len() implies {
                &&& !measured.spec_paragraph_has_table((#[trigger] ws[k]).para_index as int)
                &&& has_square_table(paras[ws[k].table_para_index as int].controls@)
                &&& !appears(st.all_items(), ws[k].para_index as int)
            } by {
                if appears(st.all_items(), ws[k].para_index as int) {
                    lemma_appears_placed(s0.all_items(), st.all_items(), para_idx as int, paras, ws[k].para_index as int);
                }
            }
            assert forall|q: int| 0 <= q < para_idx + 1 && !measured.spec_paragraph_has_table(q)
                implies appears(st.all_items(), q) || wrapped(st.all_wraps(), q) by {
                if q < para_idx {
                    if appears(s0.all_items(), q) {
                        lemma_appears_prefix(s0.all_items(), st.all_items(), q);
                    }
                } else {
                    let k = s2.all_items().len() as int;
                    assert(st.all_items()[k].spec_para_index() == para_idx);
                }
            }
            assert forall|p: usize, c: usize| p < para_idx + 1 && c < paras[p as int].controls@.len()
                && is_shape_like(#[trigger] paras[p as int].controls@[c as int])
                implies shape_placed(st.all_items(), 0, p, c) || wrapped(st.all_wraps(), p as int) by {
                if p < para_idx {
                    if shape_placed(s0.all_items(), 0, p, c) {
                        lemma_shape_placed_prefix(s0.all_items(), st.all_items(), 0, p, c);
                    }
                } else {
                    let lo = s2.all_items().len() as int;
                    assert(shape_placed(st.all_items(), lo, p, c));
                    let j = choose|j: int| lo <= j < st.all_items().len()
                        && #[trigger] st.all_items()[j] == (PageItem::Shape { para_index: p, control_index: c });
                }
            }
            assert forall|p: usize, c: usize| p < para_idx + 1 && c < paras[p as int].controls@.len()
                && is_flow_table(#[trigger] paras[p as int].controls@[c as int]) && !measured_without_rows(measured, p as int, c as int)
                implies table_placed(st.all_items(), 0, p, c) || wrapped(st.all_wraps(), p as int) by {
                if p < para_idx {
                    if table_placed(s0.all_items(), 0, p, c) {
                        lemma_table_placed_prefix(s0.all_items(), st.all_items(), 0, p, c);
                    }
                } else {
                    let lo = s2.all_items().len() as int;
                    let j = choose|j: int| lo <= j < st.all_items().len() && places_table(#[trigger] st.all_items()[j], p, c);
                }
            }
            assert forall|p: usize| p < para_idx + 1
                implies para_footnotes_recorded(st.pages@, 0, &#[trigger] paras[p as int], p) || wrapped(st.all_wraps(), p as int) by {
                if p < para_idx && para_footnotes_recorded(s0.pages@, 0, &paras[p as int], p) {
                    lemma_para_footnotes_kept(&s0, st, 0, 0, &paras[p as int], p);
                }
            }
            assert forall|q: usize| q < para_idx + 1 && table_free(paras, measured, q as int) && #[trigger] appears(st.all_items(), q as int)
                implies text_para_placed(st.all_items(), q, paras, measured, flow_base(st, paras)) by {
                if q < para_idx {
                    lemma_appears_placed(s0.all_items(), st.all_items(), para_idx as int, paras, q as int);
                    let base = flow_base(&s0, paras);
                    if no_multicolumn(paras) {
                        assert(st.layout == s0.layout);
                    }
                    assert(text_para_placed(s0.all_items(), q, paras, measured, base));
                    let (a, m, b) = choose|a: int, m: int, b: int| #[trigger] text_run(s0.all_items(), q, paras, measured, base, a, m, b);
                    lemma_text_run_extend(s0.all_items(), st.all_items(), para_idx as int, paras, measured, q, base, a, m, b);
                    assert(text_run(st.all_items(), q, paras, measured, base, a, m, b));
                } else {
                    let a = s2.all_items().len() as int;
                    let b = st.all_items().len() as int;
                    if no_multicolumn(paras) {
                        assert(paras[para_idx as int].column_type != ColumnBreakType::MultiColumn);
                        assert(s2.columns_ok());
                    }
                    let m = choose|m: int| a <= m <= b
                        && text_lines_ok(st.all_items().subrange(a, m), para_idx, &paras[para_idx as int], measured)
                        && (!s2.on_first_multicolumn_page ==> lines_placed(st.all_items().subrange(a, m),
                            para_idx, measured_line_count(measured, para_idx as int)))
                        && (!s2.on_first_multicolumn_page && (para_idx as int) < measured.paragraphs@.len()
                            ==> later_parts_fill(st.all_items().subrange(a, m), measured.paragraphs@[para_idx as int], base_available_height as int))
                        && shapes_from(st.all_items(), m);
                    assert forall|k: int| 0 <= k < st.all_items().len() && !(a <= k < b)
                        implies (#[trigger] st.all_items()[k]).spec_para_index() != q as int by {
                        assert(st.all_items()[k] == s0.all_items()[k]);
                    }
                    if no_multicolumn(paras) {
                        assert(st.layout == s1.layout);
                    }
                    assert(text_run(st.all_items(), q, paras, measured, flow_base(st, paras), a, m, b));
                }
            }
            if !(f.wrap_around_cs == f2.wrap_around_cs && f.wrap_around_table_para == f2.wrap_around_table_para) {
                let c = choose|c: int| 0 <= c < paragraphs@[para_idx as int].controls@.len()
                    && (#[trigger] paragraphs@[para_idx as int].controls@[c] matches Control::Table(t) && t.common.text_wrap == TextWrap::Square);
                if no_wrap_around_tables(paras) {
                    assert(!(paras[para_idx as int].controls@[c] matches Control::Table(t) && t.common.text_wrap == TextWrap::Square));
                }
            }
        }
    }

    /// Splits the paragraphs of a section into pages.
    pub fn paginate_with_measured(
        &self,
        paragraphs: &[Paragraph],
        measured: &MeasuredSection,
        page_def: &PageDef,
        column_def: &ColumnDef,
        section_index: usize,
        para_styles: &[ResolvedParaStyle],
    ) -> (r: PaginationResult)
        ensures
            paginated(paragraphs@, measured, section_index, column_def.column_count,
                spec_checked_layout(column_def.layout).available_body_height as int, false, r),
    {
        self.paginate_with_measured_opts(paragraphs, measured, page_def, column_def, section_index, para_styles, false)
    }

    /// Splits the paragraphs of a section into pages. With
    /// `hide_empty_line`, up to two empty paragraphs per page that would
    /// overflow it are given no height.
    #[verifier::rlimit(60)]
    pub fn paginate_with_measured_opts(
        &self,
        paragraphs: &[Paragraph],
        measured: &MeasuredSection,
        page_def: &PageDef,
        column_def: &ColumnDef,
        section_index: usize,
        para_styles: &[ResolvedParaStyle],
        hide_empty_line: bool,
    ) -> (r: PaginationResult)
        ensures
            paginated(paragraphs@, measured, section_index, column_def.column_count,
                spec_checked_layout(column_def.layout).available_body_height as int, hide_empty_line, r),
    {
        let ghost paras = paragraphs@;
        let n = paragraphs.len();
        let layout = checked_layout(column_def.layout);
        let (hf_entries, page_number_pos, page_hides, new_page_numbers) =
            Self::collect_header_footer_controls(paragraphs, section_index);
        let col_count: u16 = if column_def.column_count > 1 { column_def.column_count } else { 1 };
        let footnote_separator_overhead = hwpunit_to_px(400, self.dpi);
        let footnote_safety_margin = hwpunit_to_px(3000, self.dpi);
        let mut st = PaginationState::new(layout, col_count, section_index, footnote_separator_overhead, footnote_safety_margin);
        let mut f = Flow {
            wrap_around_cs: -1,
            wrap_around_sw: -1,
            wrap_around_table_para: 0,
            prev_pagination_para: None,
            fix_table_visual_h: 0,
            fix_vpos_tmp: 0,
            fix_overlay_active: false,
            hidden_empty_lines: 0,
            hidden_empty_page: 0,
            hidden_empty_paras: HashSet::new(),
        };
        proof {
            assert(st.all_items() =~= Seq::<PageItem>::empty());
            assert(st.all_wraps() =~= Seq::<WrapAroundPara>::empty());
        }
        let mut para_idx: usize = 0;
        while para_idx < n
            invariant
                n == paras.len(),
                paras == paragraphs@,
                0 <= para_idx <= n,
                flow_ok(&st, &f, paras, measured, section_index, hide_empty_line, para_idx as int),
                no_multicolumn(paras) ==> st.col_count == col_count && st.layout == layout,
            decreases n - para_idx,
        {
            self.paginate_paragraph(&mut st, &mut f, paragraphs, para_idx, measured, page_def, para_styles, section_index, hide_empty_line);
            para_idx += 1;
        }

        // The last column, and one page for an empty section.
        let ghost s_end = st;
        if st.current_items.len() > 0 {
            st.flush_column_always();
            proof {
                if no_multicolumn(paras) {
                    super::state::lemma_flush_columns(&s_end, &st);
                }
            }
        }
        let ghost s_flushed = st;
        st.ensure_page();
        proof {
            if no_multicolumn(paras) {
                assert forall|i: int| 0 <= i < st.pages@.len()
                    implies page_columns_ok((#[trigger] st.pages@[i]).column_contents@, col_count as int) by {
                    if s_flushed.pages@.len() > 0 {
                        assert(st.pages@ == s_flushed.pages@);
                    } else {
                        assert(st.pages@[0].column_contents@.len() == 0);
                    }
                }
            }
        }
        proof {
            assert(st.current_items@.len() == 0);
            assert(st.all_items() == s_end.all_items());
            assert(page_items(st.pages@) =~= st.all_items());
            // What is left in an empty last column is dropped; it comes
            // after every placed item.
            let pw = page_wraps(st.pages@);
            let aw = s_end.all_wraps();
            if s_end.current_items@.len() > 0 {
                assert(st.all_wraps() == aw);
                assert(pw =~= aw);
            } else {
                assert(st.all_wraps() == aw);
                assert(st.current_column_wrap_around_paras@ == s_end.current_column_wrap_around_paras@);
                assert(aw == pw + s_end.current_column_wrap_around_paras@);
                assert(page_items(s_end.pages@) =~= s_end.all_items());
            }
            assert(pw.is_prefix_of(aw));
            assert forall|k: int| pw.len() <= k < aw.len() implies trails(st.all_items(), (#[trigger] aw[k]).para_index as int) by {
                assert(s_end.current_items@.len() == 0);
                assert(aw[k] == s_end.current_column_wrap_around_paras@[k - pw.len()]);
            }
            lemma_wraps_prefix(aw, pw, n as int);
            assert forall|q: int| 0 <= q < n && !measured.spec_paragraph_has_table(q)
                implies appears(st.all_items(), q) || wrapped(pw, q) || dropped_beside(st.all_items(), paras, measured, q) by {
                if !appears(st.all_items(), q) {
                    let k = choose|k: int| 0 <= k < aw.len() && (#[trigger] aw[k]).para_index == q;
                    if k < pw.len() {
                        assert(pw[k] == aw[k]);
                    } else {
                        lemma_dropped_beside(aw, k, st.all_items(), paras, measured);
                    }
                }
            }
            assert forall|p: usize, c: usize| p < n && c < paras[p as int].controls@.len()
                && is_shape_like(#[trigger] paras[p as int].controls@[c as int])
                implies shape_placed(st.all_items(), 0, p, c) || wrapped(pw, p as int) || dropped_beside(st.all_items(), paras, measured, p as int) by {
                if !shape_placed(st.all_items(), 0, p, c) {
                    let k = choose|k: int| 0 <= k < aw.len() && (#[trigger] aw[k]).para_index == p as int;
                    if k < pw.len() {
                        assert(pw[k] == aw[k]);
                    } else {
                        lemma_dropped_beside(aw, k, st.all_items(), paras, measured);
                    }
                }
            }
            assert forall|p: usize| p < n
                implies para_footnotes_recorded(st.pages@, 0, &#[trigger] paras[p as int], p)
                    || wrapped(pw, p as int) || dropped_beside(st.all_items(), paras, measured, p as int) by {
                assert(para_footnotes_recorded(s_end.pages@, 0, &paras[p as int], p) || wrapped(aw, p as int));
                if para_footnotes_recorded(s_end.pages@, 0, &paras[p as int], p) {
                    lemma_para_footnotes_kept(&s_end, &st, 0, 0, &paras[p as int], p);
                } else {
                    let k = choose|k: int| 0 <= k < aw.len() && (#[trigger] aw[k]).para_index == p as int;
                    if k < pw.len() {
                        assert(pw[k] == aw[k]);
                    } else {
                        lemma_dropped_beside(aw, k, st.all_items(), paras, measured);
                    }
                }
            }
            assert forall|p: usize, c: usize| p < n && c < paras[p as int].controls@.len()
                && is_flow_table(#[trigger] paras[p as int].controls@[c as int]) && !measured_without_rows(measured, p as int, c as int)
                implies table_placed(st.all_items(), 0, p, c) || wrapped(pw, p as int) || dropped_beside(st.all_items(), paras, measured, p as int) by {
                if !table_placed(st.all_items(), 0, p, c) {
                    let k = choose|k: int| 0 <= k < aw.len() && (#[trigger] aw[k]).para_index == p as int;
                    if k < pw.len() {
                        assert(pw[k] == aw[k]);
                    } else {
                        lemma_dropped_beside(aw, k, st.all_items(), paras, measured);
                    }
                }
            }
            assert forall|k: int| 0 <= k < pw.len() implies {
                &&& !measured.spec_paragraph_has_table((#[trigger] pw[k]).para_index as int)
                &&& has_square_table(paras[pw[k].table_para_index as int].controls@)
                &&& !appears(st.all_items(), pw[k].para_index as int)
            } by {
                assert(pw[k] == aw[k]);
            }
            assert forall|i: int, j: int| 0 <= i < j < pw.len() implies
                (#[trigger] pw[i]).para_index < (#[trigger] pw[j]).para_index by {
                assert(pw[i] == aw[i]);
                assert(pw[j] == aw[j]);
            }
            assert forall|k: int| 0 <= k < pw.len() implies #[trigger] wrap_entry_ok(pw[k], paras)
                && beside_run(pw[k].table_para_index as int, pw[k].para_index as int, st.all_items(), measured) by {
                assert(pw[k] == aw[k]);
            }
        }

        let ghost before_take = st.pages@;
        let mut pages = st.pages;
        let all_wrap_around_paras = Self::take_wrap_around_paras(&mut pages);
        let ghost pre_pages = pages@;
        Self::finalize_pages(&mut pages, &hf_entries, &page_number_pos, &page_hides, &new_page_numbers, section_index);
        proof {
            assert forall|k: int| 0 <= k < before_take.len() implies same_column_items((#[trigger] before_take[k]).column_contents@, pre_pages[k].column_contents@) by {
                assert(wraps_taken(before_take[k].column_contents@, pre_pages[k].column_contents@));
            }
            lemma_same_page_items(before_take, pre_pages);
            assert forall|k: int| 0 <= k < pre_pages.len() implies (#[trigger] pre_pages[k]).page_hide is None by {
                assert(before_take[k].page_hide is None);
            }
            lemma_finalized_decorated(pre_pages, pages@, hf_entries@, page_number_pos, page_hides@, new_page_numbers@);
            assert forall|k: int| 0 <= k < pre_pages.len() implies (#[trigger] pre_pages[k]).column_contents@ == pages@[k].column_contents@ by {
                assert(page_finalized(pre_pages, pages@[k], k, hf_entries@, page_number_pos, page_hides@, new_page_numbers@));
            }
            super::types::lemma_same_columns(pre_pages, pages@);
            if no_multicolumn(paras) {
                assert forall|i: int| 0 <= i < pages@.len()
                    implies page_columns_ok((#[trigger] pages@[i]).column_contents@, col_count as int) by {
                    assert(wraps_taken(before_take[i].column_contents@, pre_pages[i].column_contents@));
                    assert(pre_pages[i].column_contents@ == pages@[i].column_contents@);
                    assert(page_columns_ok(before_take[i].column_contents@, col_count as int));
                    let a = before_take[i].column_contents@;
                    let b = pages@[i].column_contents@;
                    assert forall|j: int, k: int| 0 <= j < k < b.len() implies (#[trigger] b[j]).column_index < (#[trigger] b[k]).column_index by {
                        assert(a[j].column_index < a[k].column_index);
                    }
                    assert forall|j: int| 0 <= j < b.len() implies (#[trigger] b[j]).column_index < col_count by {
                        assert(a[j].column_index < col_count);
                    }
                }
            }
            assert(page_items(pages@) == page_items(before_take));
            assert forall|k: int| 0 <= k < pre_pages.len() implies (#[trigger] pre_pages[k]).footnotes@ == pages@[k].footnotes@ by {
                assert(page_finalized(pre_pages, pages@[k], k, hf_entries@, page_number_pos, page_hides@, new_page_numbers@));
            }
            super::types::lemma_same_footnotes(before_take, pre_pages);
            super::types::lemma_same_footnotes(pre_pages, pages@);
            assert(page_footnotes(pages@) == page_footnotes(before_take));
            assert forall|i: int| 0 <= i < pages@.len() implies (#[trigger] pages@[i]).section_index == section_index by {
                assert(page_finalized(pre_pages, pages@[i], i, hf_entries@, page_number_pos, page_hides@, new_page_numbers@));
                assert(before_take[i].section_index == section_index);
            }
            assert forall|i: int, j: int| 0 <= i < pages@.len() && 0 <= j < pages@[i].column_contents@.len()
                implies (#[trigger] pages@[i].column_contents@[j]).wrap_around_paras@.len() == 0 by {
                assert(page_finalized(pre_pages, pages@[i], i, hf_entries@, page_number_pos, page_hides@, new_page_numbers@));
                assert(wraps_taken(before_take[i].column_contents@, pre_pages[i].column_contents@));
                assert(pages@[i].column_contents@[j] == pre_pages[i].column_contents@[j]);
            }
            if n == 0 {
                assert(s_end.pages@.len() == 0);
                assert(st.pages@.len() == 1);
            }
            let body = spec_checked_layout(column_def.layout).available_body_height as int;
            assert forall|q: usize| q < n && table_free(paras, measured, q as int) && #[trigger] appears(page_items(pages@), q as int)
                implies text_para_placed(page_items(pages@), q, paras, measured, body) by {
                assert(page_items(pages@) == s_end.all_items());
                lemma_text_para_base(s_end.all_items(), q, paras, measured, flow_base(&s_end, paras), body);
            }
        }
        PaginationResult { pages, wrap_around_paras: all_wrap_around_paras, hidden_empty_paras: f.hidden_empty_paras }
    }
}

} // verus!
