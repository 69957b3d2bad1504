//! Placing the tables, shapes, pictures, equations and footnotes of a
//! paragraph.

use vstd::prelude::*;
use crate::model::{
    CaptionDirection, Cell, Control, LineSeg, InnerControl, MeasuredSection, MeasuredTable, Paragraph, Table, TextWrap,
    VertAlign, VertRelTo,
};
use crate::units::{len_ok, clamp_len, max_int, spec_hwpunit_to_px, clamp_len_exec, clamp_wide, len_add, len_max, hwpunit_to_px, SUBPX_PER_PX};
use crate::text::spec_count_newlines;
use super::types::{FootnoteRef, FootnoteSource, PageItem, PageContent, page_footnotes};
use super::state::{PaginationState, footnotes_kept, column_position};
use super::engine::{Paginator, stepped, new_items, lemma_step_same, lemma_step_push, lemma_stepped_trans, lemma_stepped_refl};

verus! {

/// Whether a control is a table treated as a character.
pub open spec fn is_tac_table(c: Control) -> bool {
    match c {
        Control::Table(t) => t.common.treat_as_char,
        _ => false,
    }
}

pub fn is_tac_table_exec(c: &Control) -> (r: bool)
    ensures
        r == is_tac_table(*c),
{
    match c {
        Control::Table(t) => t.common.treat_as_char,
        _ => false,
    }
}

/// Number of tables treated as characters among `ctrls`.
pub open spec fn tac_count(ctrls: Seq<Control>) -> int
    decreases ctrls.len(),
{
    if ctrls.len() == 0 { 0 } else { tac_count(ctrls.drop_last()) + if is_tac_table(ctrls.last()) { 1int } else { 0 } }
}

/// Number of tables treated as characters among the first `end` controls.
pub fn count_tac_tables(ctrls: &Vec<Control>, end: usize) -> (r: usize)
    requires
        end <= ctrls@.len(),
    ensures
        r == tac_count(ctrls@.take(end as int)),
        r <= end,
{
    let mut n: usize = 0;
    let mut i: usize = 0;
    while i < end
        invariant
            0 <= i <= end <= ctrls@.len(),
            n == tac_count(ctrls@.take(i as int)),
            n <= i,
        decreases end - i,
    {
        proof {
            assert(ctrls@.take(i + 1).drop_last() =~= ctrls@.take(i as int));
        }
        if is_tac_table_exec(&ctrls[i]) {
            n += 1;
        }
        i += 1;
    }
    n
}

/// Whether any of the controls `start..end` is a table.
pub fn any_table_in(ctrls: &Vec<Control>, start: usize, end: usize) -> (r: bool)
    requires
        end <= ctrls@.len(),
    ensures
        r == exists|i: int| start <= i < end && (#[trigger] ctrls@[i]) is Table,
{
    if end <= start {
        return false;
    }
    let mut i: usize = start;
    while i < end
        invariant
            start <= i <= end <= ctrls@.len(),
            forall|j: int| start <= j < i ==> !(#[trigger] ctrls@[j] is Table),
        decreases end - i,
    {
        if let Control::Table(_) = &ctrls[i] {
            assert(ctrls@[i as int] is Table);
            return true;
        }
        i += 1;
    }
    false
}

/// A line segment's line spacing in sub-pixels, where it is positive; zero
/// otherwise.
pub open spec fn spec_positive_line_spacing(ls: i32, dpi: i64) -> int {
    if ls > 0 { spec_hwpunit_to_px(ls as int, dpi as int) } else { 0 }
}

/// A line segment's line spacing in sub-pixels, where it is positive.
pub fn positive_line_spacing(ls: i32, dpi: i64) -> (r: i64)
    ensures
        r == spec_positive_line_spacing(ls, dpi),
        len_ok(r as int),
{
    if ls > 0 { hwpunit_to_px(ls as i64, dpi) } else { 0 }
}

/// The height of a table's body as measured: its total height less its
/// caption and, where there is a caption, the caption's spacing.
pub open spec fn spec_table_body_height(mt: &MeasuredTable, table: &Table, dpi: i64) -> int {
    let cap_h = clamp_len(mt.caption_height as int);
    let cap_s = if cap_h > 0 {
        match table.caption { Some(c) => spec_hwpunit_to_px(c.spacing as int, dpi as int), None => 0 }
    } else {
        0
    };
    clamp_len(clamp_len(mt.total_height as int) - cap_h - cap_s)
}

/// The height of a table's body as measured, without its caption and the
/// caption's spacing.
pub fn table_body_height(mt: &MeasuredTable, table: &Table, dpi: i64) -> (r: i64)
    ensures
        r == spec_table_body_height(mt, table, dpi),
        len_ok(r as int),
{
    let cap_h = mt.caption_height();
    let cap_s: i64 = if cap_h > 0 {
        match &table.caption {
            Some(c) => hwpunit_to_px(c.spacing as i64, dpi),
            None => 0,
        }
    } else {
        0
    };
    clamp_wide(mt.total_height() as i128 - cap_h as i128 - cap_s as i128)
}

/// Controls placed as a shape item: drawing objects, pictures, equations,
/// and tables in front of or behind the text.
pub open spec fn is_shape_like(c: Control) -> bool {
    match c {
        Control::Shape(_) => true,
        Control::Picture(_) => true,
        Control::Equation => true,
        Control::Table(t) => t.common.text_wrap == TextWrap::InFrontOfText || t.common.text_wrap == TextWrap::BehindText,
        _ => false,
    }
}

/// Some item from index `lo` on is the shape item of control `c` of
/// paragraph `pi`.
pub open spec fn shape_placed(items: Seq<PageItem>, lo: int, pi: usize, c: usize) -> bool {
    exists|k: int| lo <= k < items.len() && #[trigger] items[k] == (PageItem::Shape { para_index: pi, control_index: c })
}

pub proof fn lemma_shape_placed_prefix(a: Seq<PageItem>, b: Seq<PageItem>, lo: int, pi: usize, c: usize)
    requires
        0 <= lo,
        shape_placed(a, lo, pi, c),
        a.is_prefix_of(b),
    ensures
        shape_placed(b, lo, pi, c),
{
    let k = choose|k: int| lo <= k < a.len() && #[trigger] a[k] == (PageItem::Shape { para_index: pi, control_index: c });
    assert(b[k] == a[k]);
}

/// Item `x` places table `c` of paragraph `pi`, whole or a part of it.
pub open spec fn places_table(x: PageItem, pi: usize, c: usize) -> bool {
    ||| x == (PageItem::Table { para_index: pi, control_index: c })
    ||| (x matches PageItem::PartialTable { para_index, control_index, .. } && para_index == pi && control_index == c)
}

/// Some item from index `lo` on places table `c` of paragraph `pi`.
pub open spec fn table_placed(items: Seq<PageItem>, lo: int, pi: usize, c: usize) -> bool {
    exists|k: int| lo <= k < items.len() && places_table(#[trigger] items[k], pi, c)
}

pub proof fn lemma_table_placed_prefix(a: Seq<PageItem>, b: Seq<PageItem>, lo: int, pi: usize, c: usize)
    requires
        0 <= lo,
        table_placed(a, lo, pi, c),
        a.is_prefix_of(b),
    ensures
        table_placed(b, lo, pi, c),
{
    let k = choose|k: int| lo <= k < a.len() && places_table(#[trigger] a[k], pi, c);
    assert(b[k] == a[k]);
}

/// The measurement of table `c` of paragraph `pi` (the first one recorded
/// for it) has no rows.
pub open spec fn measured_without_rows(measured: &MeasuredSection, pi: int, c: int) -> bool {
    exists|k: int| 0 <= k < measured.tables@.len()
        && (#[trigger] measured.tables@[k]).para_index == pi && measured.tables@[k].control_index == c
        && (forall|j: int| 0 <= j < k ==> !(#[trigger] measured.tables@[j].para_index == pi && measured.tables@[j].control_index == c))
        && measured.tables@[k].row_heights@.len() == 0
}

/// A table control that takes its place among the items: neither in front
/// of nor behind the text, nor sitting inline in a line of text.
pub open spec fn is_flow_table(c: Control) -> bool {
    c matches Control::Table(t)
        && t.common.text_wrap != TextWrap::InFrontOfText && t.common.text_wrap != TextWrap::BehindText
        && !(t.common.treat_as_char && t.is_inline)
}

/// Footnote `r` is recorded on the pages, at position `lo` of their
/// footnotes or later.
pub open spec fn footnote_recorded(pages: Seq<PageContent>, lo: int, r: FootnoteRef) -> bool {
    exists|k: int| lo <= k < page_footnotes(pages).len() && #[trigger] page_footnotes(pages)[k] == r
}

pub proof fn lemma_footnote_recorded_kept(a: &PaginationState, b: &PaginationState, lo: int, r: FootnoteRef)
    requires
        0 <= lo,
        footnotes_kept(a, b),
        footnote_recorded(a.pages@, lo, r),
    ensures
        footnote_recorded(b.pages@, lo, r),
{
    let k = choose|k: int| lo <= k < page_footnotes(a.pages@).len() && #[trigger] page_footnotes(a.pages@)[k] == r;
    assert(page_footnotes(b.pages@)[k] == page_footnotes(a.pages@)[k]);
}

pub proof fn lemma_footnote_recorded_from(pages: Seq<PageContent>, lo: int, lo2: int, r: FootnoteRef)
    requires
        lo2 <= lo,
        footnote_recorded(pages, lo, r),
    ensures
        footnote_recorded(pages, lo2, r),
{
    let k = choose|k: int| lo <= k < page_footnotes(pages).len() && #[trigger] page_footnotes(pages)[k] == r;
}

/// The reference a footnote control `c` of paragraph `pi` is recorded by.
pub open spec fn body_footnote_ref(ctrl: Control, pi: usize, c: usize) -> FootnoteRef {
    FootnoteRef {
        number: match ctrl { Control::Footnote(f) => f.number, _ => 0 },
        source: FootnoteSource::Body { para_index: pi, control_index: c },
    }
}

/// Whether some control before `ci` is a table.
pub open spec fn table_before(ctrls: Seq<Control>, ci: int) -> bool {
    exists|i: int| 0 <= i < ci && (#[trigger] ctrls[i]) is Table
}

/// Whether some control after `ci` is a table.
pub open spec fn table_after(ctrls: Seq<Control>, ci: int) -> bool {
    exists|i: int| ci < i < ctrls.len() && (#[trigger] ctrls[i]) is Table
}

/// The line of the host paragraph before which its table stands: all
/// lines when the table is pushed down by a vertical offset below text, the
/// lines before the last forced line break for a table treated as a
/// character that follows such breaks, else none.
pub open spec fn pre_table_end(para: &Paragraph, table: Table, total_lines: int, is_tac: bool) -> int {
    let newlines = spec_count_newlines(para.text@);
    if table.common.vertical_offset > 0 && para.text@.len() > 0 {
        total_lines
    } else if is_tac && newlines > 0 && total_lines > 1 {
        if newlines < total_lines - 1 { newlines } else { total_lines - 1 }
    } else {
        0
    }
}

/// The line of the host paragraph from which text follows its table.
pub open spec fn post_table_start(para: &Paragraph, table: Table, ci: int, total_lines: int, is_tac: bool) -> int {
    let pre = pre_table_end(para, table, total_lines, is_tac);
    if is_tac && spec_count_newlines(para.text@) > 0 && pre > 0 {
        total_lines
    } else if table.common.treat_as_char {
        if pre > 1 { pre } else { 1 }
    } else if !table_after(para.controls@, ci) && table_before(para.controls@, ci) {
        0
    } else {
        pre
    }
}

/// Whether the text of its paragraph before a fitting table is placed with
/// it: for the paragraph's first table, unless text wraps around the table,
/// where there are such lines.
pub open spec fn pre_text_placed(para: &Paragraph, table: Table, ci: int, total: int, is_tac: bool) -> bool {
    let wrap = !table.common.treat_as_char && table.common.text_wrap == TextWrap::Square;
    pre_table_end(para, table, total, is_tac) > 0 && !table_before(para.controls@, ci) && !wrap
}

/// Whether the text of its paragraph after a fitting table is placed with
/// it: for the paragraph's last table, when it is the only table treated
/// as a character, the paragraph has text and lines after the table, text
/// does not wrap around the table, and the text from line 0 was not placed
/// before in the column (`current`).
pub open spec fn post_text_placed(current: Seq<PageItem>, para: &Paragraph, pi: usize, table: Table, ci: int, total: int, is_tac: bool) -> bool {
    let wrap = !table.common.treat_as_char && table.common.text_wrap == TextWrap::Square;
    let post_start = post_table_start(para, table, ci, total, is_tac);
    let pre_text_exists = post_start == 0 && exists|k: int| 0 <= k < current.len()
        && (#[trigger] current[k] matches PageItem::PartialParagraph { para_index, start_line, .. }
            && para_index == pi && start_line == 0);
    !table_after(para.controls@, ci) && tac_count(para.controls@) <= 1
        && para.text@.len() > 0 && total > post_start && !wrap && !pre_text_exists
}

/// The items a table that fits gets, after `current` in its column: the
/// text of its paragraph before it, the table, and the text after it (see
/// `pre_text_placed` and `post_text_placed`); the table alone where its
/// paragraph was not measured.
pub open spec fn fits_items(current: Seq<PageItem>, para: &Paragraph, pi: usize, ci: usize, measured: &MeasuredSection, is_tac: bool) -> Seq<PageItem> {
    let table_item = PageItem::Table { para_index: pi, control_index: ci };
    match para.controls@[ci as int] {
        Control::Table(table) => {
            if pi >= measured.paragraphs@.len() {
                seq![table_item]
            } else {
                let total = measured.paragraphs@[pi as int].line_heights@.len() as int;
                let pre = if pre_text_placed(para, table, ci as int, total, is_tac) {
                    seq![PageItem::PartialParagraph { para_index: pi, start_line: 0, end_line: pre_table_end(para, table, total, is_tac) as usize }]
                } else {
                    Seq::empty()
                };
                let post = if post_text_placed(current, para, pi, table, ci as int, total, is_tac) {
                    seq![PageItem::PartialParagraph {
                        para_index: pi,
                        start_line: post_table_start(para, table, ci as int, total, is_tac) as usize,
                        end_line: total as usize,
                    }]
                } else {
                    Seq::empty()
                };
                pre + seq![table_item] + post
            }
        },
        _ => Seq::empty(),
    }
}

/// The height of the first `k` line segments counted as text lines: the
/// height of their text and their line spacing.
pub open spec fn text_segs_height(segs: Seq<LineSeg>, k: int, dpi: i64) -> int
    decreases k,
{
    if k <= 0 || k > segs.len() {
        0
    } else {
        clamp_len(text_segs_height(segs, k - 1, dpi) + clamp_len(
            spec_hwpunit_to_px(segs[k - 1].text_height as int, dpi as int) + spec_hwpunit_to_px(segs[k - 1].line_spacing as int, dpi as int)))
    }
}

/// The height of the column after a fitting table and its text are placed
/// on top of `cur`: the text before it (its text lines after forced line
/// breaks, else its measured lines), the table's `total` height, and the
/// measured lines of the text after it.
pub open spec fn fits_height(
    current: Seq<PageItem>,
    cur: int,
    para: &Paragraph,
    pi: usize,
    ci: usize,
    measured: &MeasuredSection,
    is_tac: bool,
    table_total: int,
    dpi: i64,
) -> int {
    match para.controls@[ci as int] {
        Control::Table(table) => {
            if pi >= measured.paragraphs@.len() {
                clamp_len(cur + table_total)
            } else {
                let mp = measured.paragraphs@[pi as int];
                let total = mp.line_heights@.len() as int;
                let pre_end = pre_table_end(para, table, total, is_tac);
                let forced = is_tac && spec_count_newlines(para.text@) > 0;
                let pre_h = if forced {
                    text_segs_height(para.line_segs@, if pre_end < para.line_segs@.len() { pre_end } else { para.line_segs@.len() as int }, dpi)
                } else {
                    mp.spec_line_advances_sum(0, pre_end)
                };
                let h1 = if pre_text_placed(para, table, ci as int, total, is_tac) { clamp_len(cur + pre_h) } else { cur };
                let h2 = clamp_len(h1 + table_total);
                if post_text_placed(current, para, pi, table, ci as int, total, is_tac) {
                    clamp_len(h2 + mp.spec_line_advances_sum(post_table_start(para, table, ci as int, total, is_tac), total))
                } else {
                    h2
                }
            }
        },
        _ => cur,
    }
}

/// The reference by which the footnote at control `cc` of paragraph `cp`
/// of cell `ci` of table `t` (control `c` of paragraph `pi`) is recorded;
/// `None` where there is no footnote there.
pub open spec fn cell_footnote_ref(t: Table, pi: usize, c: usize, ci: int, cp: int, cc: int) -> Option<FootnoteRef> {
    if 0 <= ci < t.cells@.len() && 0 <= cp < t.cells@[ci].paragraphs@.len() && 0 <= cc < t.cells@[ci].paragraphs@[cp]@.len() {
        match t.cells@[ci].paragraphs@[cp]@[cc] {
            InnerControl::Footnote(f) => Some(FootnoteRef {
                number: f.number,
                source: FootnoteSource::TableCell {
                    para_index: pi,
                    table_control_index: c,
                    cell_index: ci as usize,
                    cell_para_index: cp as usize,
                    cell_control_index: cc as usize,
                },
            }),
            _ => None,
        }
    } else {
        None
    }
}

/// Every footnote in the cells of table `t` is recorded on the pages, at
/// position `lo` of their footnotes or later.
pub open spec fn cell_footnotes_recorded(pages: Seq<PageContent>, lo: int, t: Table, pi: usize, c: usize) -> bool {
    forall|ci: int, cp: int, cc: int| (#[trigger] cell_footnote_ref(t, pi, c, ci, cp, cc)) is Some
        ==> footnote_recorded(pages, lo, cell_footnote_ref(t, pi, c, ci, cp, cc)->0)
}

/// The reference by which the footnote at control `tc` of paragraph `tp`
/// of the text box of drawing object `ctrl` (control `c` of paragraph `pi`)
/// is recorded; `None` where there is no footnote there.
pub open spec fn text_box_footnote_ref(ctrl: Control, pi: usize, c: usize, tp: int, tc: int) -> Option<FootnoteRef> {
    match ctrl {
        Control::Shape(sh) => match sh.text_box {
            Some(tb) => if 0 <= tp < tb@.len() && 0 <= tc < tb@[tp]@.len() {
                match tb@[tp]@[tc] {
                    InnerControl::Footnote(f) => Some(FootnoteRef {
                        number: f.number,
                        source: FootnoteSource::ShapeTextBox {
                            para_index: pi,
                            shape_control_index: c,
                            tb_para_index: tp as usize,
                            tb_control_index: tc as usize,
                        },
                    }),
                    _ => None,
                }
            } else {
                None
            },
            None => None,
        },
        _ => None,
    }
}

/// Every footnote in the text box of drawing object `ctrl` is recorded on
/// the pages, at position `lo` of their footnotes or later.
pub open spec fn text_box_footnotes_recorded(pages: Seq<PageContent>, lo: int, ctrl: Control, pi: usize, c: usize) -> bool {
    forall|tp: int, tc: int| (#[trigger] text_box_footnote_ref(ctrl, pi, c, tp, tc)) is Some
        ==> footnote_recorded(pages, lo, text_box_footnote_ref(ctrl, pi, c, tp, tc)->0)
}

pub proof fn lemma_cell_footnotes_kept(a: &PaginationState, b: &PaginationState, lo: int, lo2: int, t: Table, pi: usize, c: usize)
    requires
        0 <= lo2 <= lo,
        footnotes_kept(a, b),
        cell_footnotes_recorded(a.pages@, lo, t, pi, c),
    ensures
        cell_footnotes_recorded(b.pages@, lo2, t, pi, c),
{
    assert forall|ci: int, cp: int, cc: int| (#[trigger] cell_footnote_ref(t, pi, c, ci, cp, cc)) is Some
        implies footnote_recorded(b.pages@, lo2, cell_footnote_ref(t, pi, c, ci, cp, cc)->0) by {
        let r = cell_footnote_ref(t, pi, c, ci, cp, cc)->0;
        lemma_footnote_recorded_kept(a, b, lo, r);
        lemma_footnote_recorded_from(b.pages@, lo, lo2, r);
    }
}

pub proof fn lemma_text_box_footnotes_kept(a: &PaginationState, b: &PaginationState, lo: int, lo2: int, ctrl: Control, pi: usize, c: usize)
    requires
        0 <= lo2 <= lo,
        footnotes_kept(a, b),
        text_box_footnotes_recorded(a.pages@, lo, ctrl, pi, c),
    ensures
        text_box_footnotes_recorded(b.pages@, lo2, ctrl, pi, c),
{
    assert forall|tp: int, tc: int| (#[trigger] text_box_footnote_ref(ctrl, pi, c, tp, tc)) is Some
        implies footnote_recorded(b.pages@, lo2, text_box_footnote_ref(ctrl, pi, c, tp, tc)->0) by {
        let r = text_box_footnote_ref(ctrl, pi, c, tp, tc)->0;
        lemma_footnote_recorded_kept(a, b, lo, r);
        lemma_footnote_recorded_from(b.pages@, lo, lo2, r);
    }
}

/// Every footnote of paragraph `p` is recorded on the pages, at position
/// `lo` of their footnotes or later: those among its controls, those in the
/// text boxes of its drawing objects, and those in the cells of its tables
/// placed through the flow.
pub open spec fn para_footnotes_recorded(pages: Seq<PageContent>, lo: int, para: &Paragraph, p: usize) -> bool {
    &&& forall|c: usize| c < para.controls@.len() && (#[trigger] para.controls@[c as int]) is Footnote
        ==> footnote_recorded(pages, lo, body_footnote_ref(para.controls@[c as int], p, c))
    &&& forall|c: usize| c < para.controls@.len()
        ==> text_box_footnotes_recorded(pages, lo, #[trigger] para.controls@[c as int], p, c)
    &&& forall|c: usize| c < para.controls@.len() && is_paged_table(#[trigger] para.controls@[c as int])
        ==> cell_footnotes_recorded(pages, lo, para.controls@[c as int]->Table_0, p, c)
}

pub proof fn lemma_para_footnotes_kept(a: &PaginationState, b: &PaginationState, lo: int, lo2: int, para: &Paragraph, p: usize)
    requires
        0 <= lo2 <= lo,
        footnotes_kept(a, b),
        para_footnotes_recorded(a.pages@, lo, para, p),
    ensures
        para_footnotes_recorded(b.pages@, lo2, para, p),
{
    assert forall|c: usize| c < para.controls@.len() && (#[trigger] para.controls@[c as int]) is Footnote
        implies footnote_recorded(b.pages@, lo2, body_footnote_ref(para.controls@[c as int], p, c)) by {
        lemma_footnote_recorded_kept(a, b, lo, body_footnote_ref(para.controls@[c as int], p, c));
        lemma_footnote_recorded_from(b.pages@, lo, lo2, body_footnote_ref(para.controls@[c as int], p, c));
    }
    assert forall|c: usize| c < para.controls@.len()
        implies text_box_footnotes_recorded(b.pages@, lo2, #[trigger] para.controls@[c as int], p, c) by {
        lemma_text_box_footnotes_kept(a, b, lo, lo2, para.controls@[c as int], p, c);
    }
    assert forall|c: usize| c < para.controls@.len() && is_paged_table(#[trigger] para.controls@[c as int])
        implies cell_footnotes_recorded(b.pages@, lo2, para.controls@[c as int]->Table_0, p, c) by {
        lemma_cell_footnotes_kept(a, b, lo, lo2, para.controls@[c as int]->Table_0, p, c);
    }
}

/// A table placed through `paginate_table_control`: one in the flow of
/// items that is not anchored to the bottom or middle of the page.
pub open spec fn is_paged_table(c: Control) -> bool {
    is_flow_table(c) && match c {
        Control::Table(t) => !(!t.common.treat_as_char && t.common.text_wrap == TextWrap::TopAndBottom
            && (t.common.vert_rel_to == VertRelTo::Page || t.common.vert_rel_to == VertRelTo::Paper)
            && (t.common.vert_align == VertAlign::Bottom || t.common.vert_align == VertAlign::Center)),
        _ => false,
    }
}

/// No control is a table.
pub open spec fn no_table_controls(ctrls: Seq<Control>) -> bool {
    forall|c: int| 0 <= c < ctrls.len() ==> !(#[trigger] ctrls[c] is Table)
}

/// Every item from index `lo` on is a shape item.
pub open spec fn shapes_from(items: Seq<PageItem>, lo: int) -> bool {
    forall|k: int| lo <= k < items.len() ==> (#[trigger] items[k]) is Shape
}

// ---------------------------------------------------------------------
// The height a table takes

/// The height of row `r` of a table that was not measured, from its first
/// `n` cells: the tallest of the cells that sit in that row alone (zero
/// where there is none).
pub open spec fn unmeasured_row_height(cells: Seq<Cell>, r: int, dpi: i64, n: int) -> int
    decreases n,
{
    if n <= 0 || n > cells.len() {
        0
    } else {
        let prev = unmeasured_row_height(cells, r, dpi, n - 1);
        let c = cells[n - 1];
        let h = spec_hwpunit_to_px((c.height as i32) as int, dpi as int);
        if c.row_span == 1 && c.row as int == r && h > prev { h } else { prev }
    }
}

/// The sum of the heights of the first `k` rows of a table that was not
/// measured.
pub open spec fn unmeasured_rows_sum(t: Table, dpi: i64, k: int) -> int
    decreases k,
{
    if k <= 0 {
        0
    } else {
        clamp_len(unmeasured_rows_sum(t, dpi, k - 1) + unmeasured_row_height(t.cells@, k - 1, dpi, t.cells@.len() as int))
    }
}

/// The height of the body of a table: as measured (without its caption),
/// else the sum of its rows, and 1000 HWP units where that is not positive.
pub open spec fn table_effective_height(measured: &MeasuredSection, pi: int, ci: int, t: Table, dpi: i64) -> int {
    match measured.spec_table_of(pi, ci) {
        Some(mt) => spec_table_body_height(&mt, &t, dpi),
        None => {
            let s = unmeasured_rows_sum(t, dpi, t.row_count as int);
            if s > 0 { s } else { spec_hwpunit_to_px(1000, dpi as int) }
        },
    }
}

/// The controls of the paragraphs of a cell, in order.
pub open spec fn controls_of_paras(ps: Seq<Vec<InnerControl>>) -> Seq<InnerControl>
    decreases ps.len(),
{
    if ps.len() == 0 { Seq::empty() } else { controls_of_paras(ps.drop_last()) + ps.last()@ }
}

/// The controls of the cells of a table, cell by cell, in order.
pub open spec fn controls_of_cells(cells: Seq<Cell>) -> Seq<InnerControl>
    decreases cells.len(),
{
    if cells.len() == 0 { Seq::empty() } else { controls_of_cells(cells.drop_last()) + controls_of_paras(cells.last().paragraphs@) }
}

/// The height the footnotes among `s` add to the page, and whether there
/// is one: each footnote's height, and the separator line before the first
/// one when the page has no footnote yet.
pub open spec fn cell_footnotes_height(s: Seq<InnerControl>, first_on_page: bool, sep: int) -> (int, bool)
    decreases s.len(),
{
    if s.len() == 0 {
        (0, false)
    } else {
        let (h, any) = cell_footnotes_height(s.drop_last(), first_on_page, sep);
        match s.last() {
            InnerControl::Footnote(f) => {
                let h1 = if !any && first_on_page { clamp_len(h + sep) } else { h };
                (clamp_len(h1 + clamp_len(f.estimated_height as int)), true)
            },
            _ => (h, any),
        }
    }
}

/// The space a table has in the current column: the body height less the
/// footnotes (those so far and those of the table's cells), the footnote
/// margin where there are footnotes, and the zone offset; never below zero.
pub open spec fn table_available(st: &PaginationState, base: i64, fn_h: int) -> int {
    let total_fn = clamp_len(st.current_footnote_height + fn_h);
    let margin = if total_fn > 0 { st.footnote_safety_margin as int } else { 0 };
    clamp_len(max_int(base - total_fn - margin - st.current_zone_y_offset, 0))
}

/// The line spacing of the host paragraph kept below its table: that of the
/// table's line for a table treated as a character, else that of the last
/// line (where positive).
pub open spec fn host_line_spacing(para: &Paragraph, ci: int, t: Table, dpi: i64) -> int {
    let segs = para.line_segs@;
    if t.common.treat_as_char {
        if ci < segs.len() { spec_positive_line_spacing(segs[ci].line_spacing, dpi) } else { 0 }
    } else {
        if segs.len() > 0 { spec_positive_line_spacing(segs.last().line_spacing, dpi) } else { 0 }
    }
}

/// The spacing of the host paragraph around its table: space before (not
/// at the top of a column, and not for a table placed by the page),
/// the outer top margin of a table treated as a character, space after, and
/// the line spacing below.
pub open spec fn host_spacing(st: &PaginationState, para: &Paragraph, measured: &MeasuredSection, pi: int, ci: int, t: Table, dpi: i64) -> int {
    let tac = t.common.treat_as_char;
    let sb = if 0 <= pi < measured.paragraphs@.len() { clamp_len(measured.paragraphs@[pi].spacing_before as int) } else { 0 };
    let sa = if 0 <= pi < measured.paragraphs@.len() { clamp_len(measured.paragraphs@[pi].spacing_after as int) } else { 0 };
    let outer_top = if tac { spec_hwpunit_to_px(t.outer_margin_top as int, dpi as int) } else { 0 };
    let sb_here = if !(st.current_height < SUBPX_PER_PX) { sb } else { 0 };
    let before = if !tac && t.common.text_wrap == TextWrap::TopAndBottom {
        if t.common.vert_rel_to == VertRelTo::Para { clamp_len(sb_here + outer_top) } else { outer_top }
    } else {
        clamp_len(sb_here + outer_top)
    };
    clamp_len(clamp_len(before + sa) + host_line_spacing(para, ci, t, dpi))
}

/// The height a table takes in the flow: its body and the host spacing
/// (without the trailing line spacing where only that lets a lone table
/// treated as a character fit); for one of several tables treated as
/// characters, the height of its line (and its line spacing, but for the
/// last one).
pub open spec fn table_total_height(
    st: &PaginationState,
    para: &Paragraph,
    measured: &MeasuredSection,
    pi: int,
    ci: int,
    t: Table,
    dpi: i64,
    para_height: i64,
) -> int {
    let tac = t.common.treat_as_char;
    let eff = table_effective_height(measured, pi, ci, t, dpi);
    let hs = host_spacing(st, para, measured, pi, ci, t, dpi);
    let n_tac = tac_count(para.controls@);
    let segs = para.line_segs@;
    if tac && para_height > 0 && n_tac <= 1 {
        let full_h = clamp_len(eff + hs);
        let without_trail = clamp_len(full_h - host_line_spacing(para, ci, t, dpi));
        let remaining = max_int(st.spec_available_height() - st.current_height, 0);
        if without_trail <= remaining + SUBPX_PER_PX / 2 && full_h > remaining + SUBPX_PER_PX / 2 { without_trail } else { full_h }
    } else if tac && n_tac > 1 {
        let tac_idx = tac_count(para.controls@.take(ci));
        if tac_idx < segs.len() {
            let line_h = spec_hwpunit_to_px(segs[tac_idx].line_height as int, dpi as int);
            if tac_idx + 1 == n_tac { line_h } else { clamp_len(line_h + spec_positive_line_spacing(segs[tac_idx].line_spacing, dpi)) }
        } else {
            clamp_len(eff + hs)
        }
    } else {
        clamp_len(eff + hs)
    }
}

/// Whether table control `ci` of paragraph `pi` fits whole in the current
/// column (with half a pixel of tolerance).
pub open spec fn table_fits(
    st: &PaginationState,
    para: &Paragraph,
    measured: &MeasuredSection,
    pi: int,
    ci: int,
    t: Table,
    dpi: i64,
    para_height: i64,
    base: i64,
) -> bool {
    let fn_h = cell_footnotes_height(controls_of_cells(t.cells@), st.is_first_footnote_on_page, st.footnote_separator_overhead as int).0;
    st.current_height + table_total_height(st, para, measured, pi, ci, t, dpi, para_height)
        <= table_available(st, base, fn_h) + SUBPX_PER_PX / 2
}

/// The shape items of the first `n` controls of paragraph `pi`, in control
/// order: one for each drawing object, picture and equation.
pub open spec fn shape_items(ctrls: Seq<Control>, pi: usize, n: int) -> Seq<PageItem>
    decreases n,
{
    if n <= 0 || n > ctrls.len() {
        Seq::empty()
    } else {
        let prev = shape_items(ctrls, pi, n - 1);
        if ctrls[n - 1] is Shape || ctrls[n - 1] is Picture || ctrls[n - 1] is Equation {
            prev.push(PageItem::Shape { para_index: pi, control_index: (n - 1) as usize })
        } else {
            prev
        }
    }
}

/// Whether a control is a picture that text flows around (above and
/// below, or on its sides): it takes its height in the column.
pub open spec fn is_flowed_picture(c: Control) -> bool {
    c matches Control::Picture(p) && !p.common.treat_as_char
        && (p.common.text_wrap == TextWrap::Square || p.common.text_wrap == TextWrap::TopAndBottom)
}

/// The column height `h` after the first `n` controls: each picture that
/// text flows around adds its height and its top and bottom margins.
pub open spec fn flowed_height(ctrls: Seq<Control>, dpi: i64, h: int, n: int) -> int
    decreases n,
{
    if n <= 0 || n > ctrls.len() {
        h
    } else {
        let prev = flowed_height(ctrls, dpi, h, n - 1);
        match ctrls[n - 1] {
            Control::Picture(p) => if is_flowed_picture(ctrls[n - 1]) {
                let pic_h = spec_hwpunit_to_px((p.common.height as i32) as int, dpi as int);
                let mt = spec_hwpunit_to_px(p.common.margin_top as int, dpi as int);
                let mb = spec_hwpunit_to_px(p.common.margin_bottom as int, dpi as int);
                clamp_len(prev + clamp_len(clamp_len(pic_h + mt) + mb))
            } else {
                prev
            },
            _ => prev,
        }
    }
}

/// Where a footnote comes from, as a key that orders footnotes by
/// paragraph, then control, then place inside the control (cell, cell
/// paragraph and control, or text-box paragraph and control).
pub open spec fn footnote_key(r: FootnoteRef) -> (int, int, int, int, int) {
    match r.source {
        FootnoteSource::Body { para_index, control_index } => (para_index as int, control_index as int, 0, 0, 0),
        FootnoteSource::TableCell { para_index, table_control_index, cell_index, cell_para_index, cell_control_index } =>
            (para_index as int, table_control_index as int, cell_index as int, cell_para_index as int, cell_control_index as int),
        FootnoteSource::ShapeTextBox { para_index, shape_control_index, tb_para_index, tb_control_index } =>
            (para_index as int, shape_control_index as int, tb_para_index as int, tb_control_index as int, 0),
    }
}

/// Key `a` comes before key `b`.
pub open spec fn key_lt(a: (int, int, int, int, int), b: (int, int, int, int, int)) -> bool {
    ||| a.0 < b.0
    ||| a.0 == b.0 && a.1 < b.1
    ||| a.0 == b.0 && a.1 == b.1 && a.2 < b.2
    ||| a.0 == b.0 && a.1 == b.1 && a.2 == b.2 && a.3 < b.3
    ||| a.0 == b.0 && a.1 == b.1 && a.2 == b.2 && a.3 == b.3 && a.4 < b.4
}

/// The footnotes come in the order of their sources, so no source occurs
/// twice.
pub open spec fn footnotes_in_order(s: Seq<FootnoteRef>) -> bool {
    forall|i: int, j: int| 0 <= i < j < s.len() ==> key_lt(footnote_key(#[trigger] s[i]), footnote_key(#[trigger] s[j]))
}

/// Every footnote comes from a source before key `k`.
pub open spec fn footnotes_before(s: Seq<FootnoteRef>, k: (int, int, int, int, int)) -> bool {
    forall|i: int| 0 <= i < s.len() ==> key_lt(footnote_key(#[trigger] s[i]), k)
}

/// Footnotes in order, all before `k`, stay so with one more footnote of
/// key `k`; they are then all before any key after `k`.
pub proof fn lemma_footnote_push(s: Seq<FootnoteRef>, r: FootnoteRef, k2: (int, int, int, int, int))
    requires
        footnotes_in_order(s),
        footnotes_before(s, footnote_key(r)),
        key_lt(footnote_key(r), k2),
    ensures
        footnotes_in_order(s.push(r)),
        footnotes_before(s.push(r), k2),
{
    assert forall|i: int, j: int| 0 <= i < j < s.push(r).len() implies key_lt(footnote_key(#[trigger] s.push(r)[i]), footnote_key(#[trigger] s.push(r)[j])) by {
        assert(s.push(r)[i] == s[i]);
        if j < s.len() {
            assert(s.push(r)[j] == s[j]);
        }
    }
    assert forall|i: int| 0 <= i < s.push(r).len() implies key_lt(footnote_key(#[trigger] s.push(r)[i]), k2) by {
        if i < s.len() {
            assert(s.push(r)[i] == s[i]);
        }
    }
}

/// Footnotes before a key are before every later key.
pub proof fn lemma_footnotes_before_later(s: Seq<FootnoteRef>, k1: (int, int, int, int, int), k2: (int, int, int, int, int))
    requires
        footnotes_before(s, k1),
        key_lt(k1, k2) || k1 == k2,
    ensures
        footnotes_before(s, k2),
{
}

/// A footnote reference names a footnote control of the section with the
/// footnote's number: a footnote of a paragraph, of a cell of one of its
/// tables, or of the text box of one of its drawing objects.
pub open spec fn footnote_ref_valid(r: FootnoteRef, paras: Seq<Paragraph>) -> bool {
    match r.source {
        FootnoteSource::Body { para_index, control_index } =>
            para_index < paras.len() && control_index < paras[para_index as int].controls@.len()
            && paras[para_index as int].controls@[control_index as int] is Footnote
            && r == body_footnote_ref(paras[para_index as int].controls@[control_index as int], para_index, control_index),
        FootnoteSource::TableCell { para_index, table_control_index, cell_index, cell_para_index, cell_control_index } =>
            para_index < paras.len() && table_control_index < paras[para_index as int].controls@.len()
            && paras[para_index as int].controls@[table_control_index as int] is Table
            && cell_footnote_ref(paras[para_index as int].controls@[table_control_index as int]->Table_0, para_index,
                table_control_index, cell_index as int, cell_para_index as int, cell_control_index as int) == Some(r),
        FootnoteSource::ShapeTextBox { para_index, shape_control_index, tb_para_index, tb_control_index } =>
            para_index < paras.len() && shape_control_index < paras[para_index as int].controls@.len()
            && text_box_footnote_ref(paras[para_index as int].controls@[shape_control_index as int], para_index,
                shape_control_index, tb_para_index as int, tb_control_index as int) == Some(r),
    }
}

/// Every footnote reference names a footnote control of the section.
pub open spec fn footnotes_valid(s: Seq<FootnoteRef>, paras: Seq<Paragraph>) -> bool {
    forall|i: int| 0 <= i < s.len() ==> footnote_ref_valid(#[trigger] s[i], paras)
}

pub proof fn lemma_footnotes_valid_push(s: Seq<FootnoteRef>, r: FootnoteRef, paras: Seq<Paragraph>)
    requires
        footnotes_valid(s, paras),
        footnote_ref_valid(r, paras),
    ensures
        footnotes_valid(s.push(r), paras),
{
    assert forall|i: int| 0 <= i < s.push(r).len() implies footnote_ref_valid(#[trigger] s.push(r)[i], paras) by {
        if i < s.len() {
            assert(s.push(r)[i] == s[i]);
        }
    }
}

/// The references of the footnotes among the first `n` controls of
/// paragraph `cp` of cell `ci` of table `t`, in control order.
pub open spec fn cell_para_footnote_refs(t: Table, pi: usize, c: usize, ci: int, cp: int, n: int) -> Seq<FootnoteRef>
    decreases n,
{
    if n <= 0 {
        Seq::empty()
    } else {
        let prev = cell_para_footnote_refs(t, pi, c, ci, cp, n - 1);
        match cell_footnote_ref(t, pi, c, ci, cp, n - 1) {
            Some(r) => prev.push(r),
            None => prev,
        }
    }
}

/// The references of the footnotes in the first `n` paragraphs of cell
/// `ci` of table `t`, in order.
pub open spec fn cell_footnote_refs(t: Table, pi: usize, c: usize, ci: int, n: int) -> Seq<FootnoteRef>
    decreases n,
{
    if n <= 0 || ci < 0 || ci >= t.cells@.len() || n > t.cells@[ci].paragraphs@.len() {
        Seq::empty()
    } else {
        cell_footnote_refs(t, pi, c, ci, n - 1)
            + cell_para_footnote_refs(t, pi, c, ci, n - 1, t.cells@[ci].paragraphs@[n - 1]@.len() as int)
    }
}

/// The references of the footnotes in the first `n` cells of table `t`
/// (control `c` of paragraph `pi`), in cell, paragraph and control order.
pub open spec fn table_footnote_refs(t: Table, pi: usize, c: usize, n: int) -> Seq<FootnoteRef>
    decreases n,
{
    if n <= 0 || n > t.cells@.len() {
        Seq::empty()
    } else {
        table_footnote_refs(t, pi, c, n - 1) + cell_footnote_refs(t, pi, c, n - 1, t.cells@[n - 1].paragraphs@.len() as int)
    }
}

/// The references of the footnotes among the first `n` controls of
/// paragraph `tp` of the text box of drawing object `ctrl`, in order.
pub open spec fn text_box_para_footnote_refs(ctrl: Control, pi: usize, c: usize, tp: int, n: int) -> Seq<FootnoteRef>
    decreases n,
{
    if n <= 0 {
        Seq::empty()
    } else {
        let prev = text_box_para_footnote_refs(ctrl, pi, c, tp, n - 1);
        match text_box_footnote_ref(ctrl, pi, c, tp, n - 1) {
            Some(r) => prev.push(r),
            None => prev,
        }
    }
}

/// The references of the footnotes in the first `n` paragraphs of the text
/// box of drawing object `ctrl`, in order.
pub open spec fn text_box_footnote_refs(ctrl: Control, pi: usize, c: usize, n: int) -> Seq<FootnoteRef>
    decreases n,
{
    match ctrl {
        Control::Shape(sh) => match sh.text_box {
            Some(tb) => if n <= 0 || n > tb@.len() {
                Seq::empty()
            } else {
                text_box_footnote_refs(ctrl, pi, c, n - 1) + text_box_para_footnote_refs(ctrl, pi, c, n - 1, tb@[n - 1]@.len() as int)
            },
            None => Seq::empty(),
        },
        _ => Seq::empty(),
    }
}

/// The footnote references the first `n` controls of paragraph `pi` (one
/// without tables) give, in order: a footnote's own, and those of a
/// drawing object's text box.
pub open spec fn control_footnote_refs(ctrls: Seq<Control>, pi: usize, n: int) -> Seq<FootnoteRef>
    decreases n,
{
    if n <= 0 || n > ctrls.len() {
        Seq::empty()
    } else {
        let c = ctrls[n - 1];
        let own = if c is Footnote {
            seq![body_footnote_ref(c, pi, (n - 1) as usize)]
        } else {
            match c {
                Control::Shape(sh) => match sh.text_box {
                    Some(tb) => text_box_footnote_refs(c, pi, (n - 1) as usize, tb@.len() as int),
                    None => Seq::empty(),
                },
                _ => Seq::empty(),
            }
        };
        control_footnote_refs(ctrls, pi, n - 1) + own
    }
}

impl Paginator {
    /// Places the controls of a paragraph: shapes, pictures and equations
    /// as shape items (pictures that text flows around also take their
    /// height), tables as table items (see `paginate_table_control`) unless
    /// they sit inline, and footnotes, also those in text boxes, on the
    /// current page.
    #[verifier::rlimit(60)]
    pub fn process_controls(
        &self,
        st: &mut PaginationState,
        paragraphs: &[Paragraph],
        para_idx: usize,
        measured: &MeasuredSection,
        para_height: i64,
        para_height_for_fit: i64,
        base_available_height: i64,
    )
        requires
            old(st).wf(),
            para_idx < paragraphs@.len(),
            len_ok(para_height as int),
            len_ok(para_height_for_fit as int),
            len_ok(base_available_height as int),
        ensures
            stepped(&*old(st), &*final(st), para_idx as int, paragraphs@),
            forall|c: usize| c < paragraphs@[para_idx as int].controls@.len()
                && is_shape_like(#[trigger] paragraphs@[para_idx as int].controls@[c as int])
                ==> shape_placed(final(st).all_items(), old(st).all_items().len() as int, para_idx, c),
            no_table_controls(paragraphs@[para_idx as int].controls@)
                ==> shapes_from(final(st).all_items(), old(st).all_items().len() as int),
            forall|c: usize| c < paragraphs@[para_idx as int].controls@.len()
                && is_flow_table(#[trigger] paragraphs@[para_idx as int].controls@[c as int])
                && !measured_without_rows(measured, para_idx as int, c as int)
                ==> table_placed(final(st).all_items(), old(st).all_items().len() as int, para_idx, c),
            old(st).pages@.len() > 0 ==> forall|c: usize| c < paragraphs@[para_idx as int].controls@.len()
                && (#[trigger] paragraphs@[para_idx as int].controls@[c as int]) is Footnote
                ==> footnote_recorded(final(st).pages@, page_footnotes(old(st).pages@).len() as int,
                    body_footnote_ref(paragraphs@[para_idx as int].controls@[c as int], para_idx, c)),
            old(st).pages@.len() > 0 ==> forall|c: usize| c < paragraphs@[para_idx as int].controls@.len()
                ==> text_box_footnotes_recorded(final(st).pages@, page_footnotes(old(st).pages@).len() as int,
                    #[trigger] paragraphs@[para_idx as int].controls@[c as int], para_idx, c),
            old(st).pages@.len() > 0 ==> forall|c: usize| c < paragraphs@[para_idx as int].controls@.len()
                && is_paged_table(#[trigger] paragraphs@[para_idx as int].controls@[c as int])
                ==> cell_footnotes_recorded(final(st).pages@, page_footnotes(old(st).pages@).len() as int,
                    paragraphs@[para_idx as int].controls@[c as int]->Table_0, para_idx, c),
            old(st).pages@.len() > 0 ==> para_footnotes_recorded(final(st).pages@, page_footnotes(old(st).pages@).len() as int,
                &paragraphs@[para_idx as int], para_idx),
            footnotes_in_order(page_footnotes(old(st).pages@))
                && footnotes_before(page_footnotes(old(st).pages@), (para_idx as int, 0, 0, 0, 0))
                ==> footnotes_in_order(page_footnotes(final(st).pages@))
                    && footnotes_before(page_footnotes(final(st).pages@), (para_idx + 1, 0, 0, 0, 0)),
            footnotes_valid(page_footnotes(old(st).pages@), paragraphs@) ==> footnotes_valid(page_footnotes(final(st).pages@), paragraphs@),
            no_table_controls(paragraphs@[para_idx as int].controls@) ==> {
                let ctrls = paragraphs@[para_idx as int].controls@;
                &&& new_items(&*old(st), &*final(st)) == shape_items(ctrls, para_idx, ctrls.len() as int)
                &&& final(st).pages@.len() == old(st).pages@.len()
                &&& final(st).current_height == flowed_height(ctrls, self.dpi, old(st).current_height as int, ctrls.len() as int)
                &&& old(st).pages@.len() > 0 ==> {
                    let refs = control_footnote_refs(ctrls, para_idx, ctrls.len() as int);
                    &&& page_footnotes(final(st).pages@) == page_footnotes(old(st).pages@) + refs
                    &&& final(st).pages@.last().footnotes@ == old(st).pages@.last().footnotes@ + refs
                }
            },
    {
        let ghost s0 = *st;
        let ghost paras = paragraphs@;
        let ghost ord0 = footnotes_in_order(page_footnotes(s0.pages@))
            && footnotes_before(page_footnotes(s0.pages@), (para_idx as int, 0, 0, 0, 0));
        let para = &paragraphs[para_idx];
        proof { lemma_stepped_refl(&s0, para_idx as int, paras); }
        let mut ctrl_idx: usize = 0;
        while ctrl_idx < para.controls.len()
            invariant
                st.wf(),
                stepped(&s0, st, para_idx as int, paras),
                paras == paragraphs@,
                para == &paragraphs@[para_idx as int],
                para_idx < paras.len(),
                0 <= ctrl_idx <= para.controls@.len(),
                ord0 == (footnotes_in_order(page_footnotes(s0.pages@))
                    && footnotes_before(page_footnotes(s0.pages@), (para_idx as int, 0, 0, 0, 0))),
                ord0 ==> footnotes_in_order(page_footnotes(st.pages@))
                    && footnotes_before(page_footnotes(st.pages@), (para_idx as int, ctrl_idx as int, 0, 0, 0)),
                footnotes_valid(page_footnotes(s0.pages@), paras) ==> footnotes_valid(page_footnotes(st.pages@), paras),
                len_ok(para_height as int),
                len_ok(para_height_for_fit as int),
                len_ok(base_available_height as int),
                forall|c: usize| c < ctrl_idx && is_shape_like(#[trigger] para.controls@[c as int])
                    ==> shape_placed(st.all_items(), s0.all_items().len() as int, para_idx, c),
                no_table_controls(para.controls@) ==> shapes_from(st.all_items(), s0.all_items().len() as int),
                no_table_controls(para.controls@) && s0.pages@.len() > 0 ==>
                    page_footnotes(st.pages@) == page_footnotes(s0.pages@) + control_footnote_refs(para.controls@, para_idx, ctrl_idx as int)
                    && st.pages@.last().footnotes@ == s0.pages@.last().footnotes@ + control_footnote_refs(para.controls@, para_idx, ctrl_idx as int),
                no_table_controls(para.controls@) ==> new_items(&s0, st) == shape_items(para.controls@, para_idx, ctrl_idx as int)
                    && st.pages@.len() == s0.pages@.len()
                    && st.current_height == flowed_height(para.controls@, self.dpi, s0.current_height as int, ctrl_idx as int),
                forall|c: usize| c < ctrl_idx && is_flow_table(#[trigger] para.controls@[c as int])
                    && !measured_without_rows(measured, para_idx as int, c as int)
                    ==> table_placed(st.all_items(), s0.all_items().len() as int, para_idx, c),
                s0.pages@.len() > 0 ==> forall|c: usize| c < ctrl_idx && (#[trigger] para.controls@[c as int]) is Footnote
                    ==> footnote_recorded(st.pages@, page_footnotes(s0.pages@).len() as int, body_footnote_ref(para.controls@[c as int], para_idx, c)),
                s0.pages@.len() > 0 ==> forall|c: usize| c < ctrl_idx
                    ==> text_box_footnotes_recorded(st.pages@, page_footnotes(s0.pages@).len() as int, #[trigger] para.controls@[c as int], para_idx, c),
                s0.pages@.len() > 0 ==> forall|c: usize| c < ctrl_idx && is_paged_table(#[trigger] para.controls@[c as int])
                    ==> cell_footnotes_recorded(st.pages@, page_footnotes(s0.pages@).len() as int, para.controls@[c as int]->Table_0, para_idx, c),
            decreases para.controls@.len() - ctrl_idx,
        {
            let ghost s1 = *st;
            match &para.controls[ctrl_idx] {
                Control::Table(table) => {
                    let wrap = table.common.text_wrap;
                    if wrap == TextWrap::InFrontOfText || wrap == TextWrap::BehindText {
                        let item = PageItem::Shape { para_index: para_idx, control_index: ctrl_idx };
                        st.push_item(item);
                        proof {
                            lemma_step_push(&s1, st, item, para_idx as int, paras);
                            assert(st.all_items()[s1.all_items().len() as int] == item);
                        }
                    } else if !table.common.treat_as_char
                        && wrap == TextWrap::TopAndBottom
                        && (table.common.vert_rel_to == VertRelTo::Page || table.common.vert_rel_to == VertRelTo::Paper)
                        && (table.common.vert_align == VertAlign::Bottom || table.common.vert_align == VertAlign::Center)
                    {
                        // Anchored to the page bottom or middle: outside the
                        // text flow, takes no height.
                        let item = PageItem::Table { para_index: para_idx, control_index: ctrl_idx };
                        st.push_item(item);
                        proof {
                            lemma_step_push(&s1, st, item, para_idx as int, paras);
                            assert(st.all_items()[s1.all_items().len() as int] == item);
                        }
                    } else if table.common.treat_as_char && table.is_inline {
                        proof { lemma_stepped_refl(&s1, para_idx as int, paras); }
                    } else {
                        self.paginate_table_control(
                            st, paragraphs, para_idx, ctrl_idx, measured,
                            para_height, para_height_for_fit, base_available_height,
                        );
                        proof {
                            if s0.pages@.len() > 0 {
                                let lo1 = page_footnotes(s1.pages@).len() as int;
                                lemma_cell_footnotes_kept(st, st, lo1, page_footnotes(s0.pages@).len() as int, *table, para_idx, ctrl_idx);
                            }
                        }
                    }
                },
                Control::Shape(shape) => {
                    let item = PageItem::Shape { para_index: para_idx, control_index: ctrl_idx };
                    st.push_item(item);
                    proof {
                        lemma_step_push(&s1, st, item, para_idx as int, paras);
                        assert(st.all_items()[s1.all_items().len() as int] == item);
                    }
                    match &shape.text_box {
                        Some(tb) => {
                            let ghost s2 = *st;
                            let ghost ctrl = para.controls@[ctrl_idx as int];
                            let ghost lo = page_footnotes(s0.pages@).len() as int;
                            let mut tp_idx: usize = 0;
                            while tp_idx < tb.len()
                                invariant
                                    st.wf(),
                                    stepped(&s2, st, para_idx as int, paras),
                                    st.all_items() == s2.all_items(),
                                    st.pages@.len() == s2.pages@.len(),
                                    st.current_height == s2.current_height,
                                    0 <= tp_idx <= tb@.len(),
                                    ctrl == para.controls@[ctrl_idx as int],
                                    ctrl matches Control::Shape(sh) && sh.text_box == Some(*tb),
                                    lo == page_footnotes(s0.pages@).len(),
                                    s2.pages@.len() > 0 ==> page_footnotes(st.pages@) == page_footnotes(s2.pages@)
                                            + text_box_footnote_refs(ctrl, para_idx, ctrl_idx, tp_idx as int)
                                        && st.pages@.last().footnotes@ == s2.pages@.last().footnotes@
                                            + text_box_footnote_refs(ctrl, para_idx, ctrl_idx, tp_idx as int),
                                    footnotes_valid(page_footnotes(s0.pages@), paras) ==> footnotes_valid(page_footnotes(st.pages@), paras),
                                    ctrl == paras[para_idx as int].controls@[ctrl_idx as int],
                                    para_idx < paras.len(),
                                    ctrl_idx < paras[para_idx as int].controls@.len(),
                                    ord0 ==> footnotes_in_order(page_footnotes(st.pages@))
                                        && footnotes_before(page_footnotes(st.pages@), (para_idx as int, ctrl_idx as int, tp_idx as int, 0, 0)),
                                    lo <= page_footnotes(s2.pages@).len(),
                                    s0.pages@.len() > 0 ==> s2.pages@.len() > 0,
                                    s0.pages@.len() > 0 ==> forall|tpi: int, tc: int| tpi < tp_idx
                                        && (#[trigger] text_box_footnote_ref(ctrl, para_idx, ctrl_idx, tpi, tc)) is Some
                                        ==> footnote_recorded(st.pages@, lo, text_box_footnote_ref(ctrl, para_idx, ctrl_idx, tpi, tc)->0),
                                decreases tb@.len() - tp_idx,
                            {
                                let tp = &tb[tp_idx];
                                let mut tc_idx: usize = 0;
                                let ghost pre_tp = text_box_footnote_refs(ctrl, para_idx, ctrl_idx, tp_idx as int);
                                while tc_idx < tp.len()
                                    invariant
                                        pre_tp == text_box_footnote_refs(ctrl, para_idx, ctrl_idx, tp_idx as int),
                                        s2.pages@.len() > 0 ==> page_footnotes(st.pages@) == page_footnotes(s2.pages@) + pre_tp
                                                + text_box_para_footnote_refs(ctrl, para_idx, ctrl_idx, tp_idx as int, tc_idx as int)
                                            && st.pages@.last().footnotes@ == s2.pages@.last().footnotes@ + pre_tp
                                                + text_box_para_footnote_refs(ctrl, para_idx, ctrl_idx, tp_idx as int, tc_idx as int),
                                        st.wf(),
                                        stepped(&s2, st, para_idx as int, paras),
                                        st.all_items() == s2.all_items(),
                                        st.pages@.len() == s2.pages@.len(),
                                        st.current_height == s2.current_height,
                                        0 <= tc_idx <= tp@.len(),
                                        tp_idx < tb@.len(),
                                        *tp == tb@[tp_idx as int],
                                        ctrl matches Control::Shape(sh) && sh.text_box == Some(*tb),
                                        lo == page_footnotes(s0.pages@).len(),
                                        footnotes_valid(page_footnotes(s0.pages@), paras) ==> footnotes_valid(page_footnotes(st.pages@), paras),
                                        ctrl == paras[para_idx as int].controls@[ctrl_idx as int],
                                        para_idx < paras.len(),
                                        ctrl_idx < paras[para_idx as int].controls@.len(),
                                        ord0 ==> footnotes_in_order(page_footnotes(st.pages@))
                                            && footnotes_before(page_footnotes(st.pages@), (para_idx as int, ctrl_idx as int, tp_idx as int, tc_idx as int, 0)),
                                        lo <= page_footnotes(s2.pages@).len(),
                                        s0.pages@.len() > 0 ==> s2.pages@.len() > 0,
                                        s0.pages@.len() > 0 ==> forall|tpi: int, tc: int| (tpi < tp_idx || (tpi == tp_idx && tc < tc_idx))
                                            && (#[trigger] text_box_footnote_ref(ctrl, para_idx, ctrl_idx, tpi, tc)) is Some
                                            ==> footnote_recorded(st.pages@, lo, text_box_footnote_ref(ctrl, para_idx, ctrl_idx, tpi, tc)->0),
                                    decreases tp@.len() - tc_idx,
                                {
                                    let ghost s6 = *st;
                                    if let InnerControl::Footnote(f) = &tp[tc_idx] {
                                        let r = FootnoteRef {
                                            number: f.number,
                                            source: FootnoteSource::ShapeTextBox {
                                                para_index: para_idx,
                                                shape_control_index: ctrl_idx,
                                                tb_para_index: tp_idx,
                                                tb_control_index: tc_idx,
                                            },
                                        };
                                        let ghost s3 = *st;
                                        st.note_footnote(r, f.estimated_height);
                                        proof {
                                            if footnotes_valid(page_footnotes(s0.pages@), paras) && s3.pages@.len() > 0 {
                                                assert(text_box_footnote_ref(ctrl, para_idx, ctrl_idx, tp_idx as int, tc_idx as int) == Some(r));
                                                lemma_footnotes_valid_push(page_footnotes(s3.pages@), r, paras);
                                            }
                                            if ord0 && s3.pages@.len() > 0 {
                                                lemma_footnote_push(page_footnotes(s3.pages@), r,
                                                    (para_idx as int, ctrl_idx as int, tp_idx as int, tc_idx + 1, 0));
                                            }
                                            lemma_step_same(&s3, st, para_idx as int, paras);
                                            lemma_stepped_trans(&s2, &s3, st, para_idx as int, paras);
                                            if s0.pages@.len() > 0 {
                                                let k = page_footnotes(s3.pages@).len() as int;
                                                assert(page_footnotes(st.pages@)[k] == r);
                                                assert(text_box_footnote_ref(ctrl, para_idx, ctrl_idx, tp_idx as int, tc_idx as int) == Some(r));
                                                assert(footnote_recorded(st.pages@, lo, r));
                                            }
                                        }
                                    }
                                    proof {
                                        if s0.pages@.len() > 0 {
                                            assert forall|tpi: int, tc: int| (tpi < tp_idx || (tpi == tp_idx && tc < tc_idx + 1))
                                                && (#[trigger] text_box_footnote_ref(ctrl, para_idx, ctrl_idx, tpi, tc)) is Some
                                                implies footnote_recorded(st.pages@, lo, text_box_footnote_ref(ctrl, para_idx, ctrl_idx, tpi, tc)->0) by {
                                                if !(tpi == tp_idx && tc == tc_idx) {
                                                    lemma_footnote_recorded_kept(&s6, st, lo, text_box_footnote_ref(ctrl, para_idx, ctrl_idx, tpi, tc)->0);
                                                }
                                            }
                                        }
                                    }
                                    proof {
                                        if ord0 && !(tp[tc_idx as int] matches InnerControl::Footnote(_)) {
                                            lemma_footnotes_before_later(page_footnotes(st.pages@),
                                                (para_idx as int, ctrl_idx as int, tp_idx as int, tc_idx as int, 0),
                                                (para_idx as int, ctrl_idx as int, tp_idx as int, tc_idx + 1, 0));
                                        }
                                    }
                                    tc_idx += 1;
                                }
                                proof {
                                    if ord0 {
                                        lemma_footnotes_before_later(page_footnotes(st.pages@),
                                            (para_idx as int, ctrl_idx as int, tp_idx as int, tp@.len() as int, 0),
                                            (para_idx as int, ctrl_idx as int, tp_idx + 1, 0, 0));
                                    }
                                }
                                tp_idx += 1;
                            }
                            proof {
                                if ord0 {
                                    lemma_footnotes_before_later(page_footnotes(st.pages@),
                                        (para_idx as int, ctrl_idx as int, tb@.len() as int, 0, 0),
                                        (para_idx as int, ctrl_idx + 1, 0, 0, 0));
                                }
                            }
                            proof {
                                lemma_stepped_trans(&s1, &s2, st, para_idx as int, paras);
                                lemma_shape_placed_prefix(s2.all_items(), st.all_items(), s1.all_items().len() as int, para_idx, ctrl_idx);
                            }
                        },
                        None => {},
                    }
                },
                Control::Picture(pic) => {
                    let item = PageItem::Shape { para_index: para_idx, control_index: ctrl_idx };
                    st.push_item(item);
                    proof {
                        lemma_step_push(&s1, st, item, para_idx as int, paras);
                        assert(st.all_items()[s1.all_items().len() as int] == item);
                    }
                    if !pic.common.treat_as_char
                        && (pic.common.text_wrap == TextWrap::Square || pic.common.text_wrap == TextWrap::TopAndBottom)
                    {
                        let pic_h = hwpunit_to_px((pic.common.height as i32) as i64, self.dpi);
                        let margin_top = hwpunit_to_px(pic.common.margin_top as i64, self.dpi);
                        let margin_bottom = hwpunit_to_px(pic.common.margin_bottom as i64, self.dpi);
                        let ghost s2 = *st;
                        st.add_height(len_add(len_add(pic_h, margin_top), margin_bottom));
                        proof {
                            lemma_step_same(&s2, st, para_idx as int, paras);
                            lemma_stepped_trans(&s1, &s2, st, para_idx as int, paras);
                            assert(st.all_items() == s2.all_items());
                        }
                    }
                },
                Control::Equation => {
                    let item = PageItem::Shape { para_index: para_idx, control_index: ctrl_idx };
                    st.push_item(item);
                    proof {
                        lemma_step_push(&s1, st, item, para_idx as int, paras);
                        assert(st.all_items()[s1.all_items().len() as int] == item);
                    }
                },
                Control::Footnote(f) => {
                    let r = FootnoteRef {
                        number: f.number,
                        source: FootnoteSource::Body { para_index: para_idx, control_index: ctrl_idx },
                    };
                    st.note_footnote(r, f.estimated_height);
                    proof {
                        if ord0 && s1.pages@.len() > 0 {
                            lemma_footnote_push(page_footnotes(s1.pages@), r, (para_idx as int, ctrl_idx + 1, 0, 0, 0));
                        }
                        if footnotes_valid(page_footnotes(s0.pages@), paras) && s1.pages@.len() > 0 {
                            assert(r == body_footnote_ref(para.controls@[ctrl_idx as int], para_idx, ctrl_idx));
                            lemma_footnotes_valid_push(page_footnotes(s1.pages@), r, paras);
                        }
                        lemma_step_same(&s1, st, para_idx as int, paras);
                        if s0.pages@.len() > 0 {
                            let k = page_footnotes(s1.pages@).len() as int;
                            assert(page_footnotes(st.pages@)[k] == r);
                            assert(r == body_footnote_ref(para.controls@[ctrl_idx as int], para_idx, ctrl_idx));
                        }
                    }
                },
                _ => {
                    proof { lemma_stepped_refl(&s1, para_idx as int, paras); }
                },
            }
            proof {
                lemma_stepped_trans(&s0, &s1, st, para_idx as int, paras);
                if ord0 && page_footnotes(st.pages@) == page_footnotes(s1.pages@) {
                    lemma_footnotes_before_later(page_footnotes(st.pages@), (para_idx as int, ctrl_idx as int, 0, 0, 0),
                        (para_idx as int, ctrl_idx + 1, 0, 0, 0));
                }
                if s0.pages@.len() > 0 {
                    let lo = page_footnotes(s0.pages@).len() as int;
                    assert forall|c: usize| c < ctrl_idx + 1
                        implies text_box_footnotes_recorded(st.pages@, lo, #[trigger] para.controls@[c as int], para_idx, c) by {
                        if c < ctrl_idx {
                            lemma_text_box_footnotes_kept(&s1, st, lo, lo, para.controls@[c as int], para_idx, c);
                        } else if !(para.controls@[c as int] matches Control::Shape(sh) && sh.text_box is Some) {
                            assert forall|tp: int, tc: int| (#[trigger] text_box_footnote_ref(para.controls@[c as int], para_idx, c, tp, tc)) is Some
                                implies footnote_recorded(st.pages@, lo, text_box_footnote_ref(para.controls@[c as int], para_idx, c, tp, tc)->0) by {
                            }
                        }
                    }
                    assert forall|c: usize| c < ctrl_idx + 1 && is_paged_table(#[trigger] para.controls@[c as int])
                        implies cell_footnotes_recorded(st.pages@, lo, para.controls@[c as int]->Table_0, para_idx, c) by {
                        if c < ctrl_idx {
                            lemma_cell_footnotes_kept(&s1, st, lo, lo, para.controls@[c as int]->Table_0, para_idx, c);
                        }
                    }
                    assert forall|c: usize| c < ctrl_idx + 1 && (#[trigger] para.controls@[c as int]) is Footnote
                        implies footnote_recorded(st.pages@, page_footnotes(s0.pages@).len() as int, body_footnote_ref(para.controls@[c as int], para_idx, c)) by {
                        if c < ctrl_idx {
                            lemma_footnote_recorded_kept(&s1, st, page_footnotes(s0.pages@).len() as int, body_footnote_ref(para.controls@[c as int], para_idx, c));
                        }
                    }
                }
                if no_table_controls(para.controls@) {
                    assert(!(para.controls@[ctrl_idx as int] is Table));
                    assert(st.pages@.len() == s1.pages@.len());
                    if para.controls@[ctrl_idx as int] is Shape || para.controls@[ctrl_idx as int] is Picture || para.controls@[ctrl_idx as int] is Equation {
                        assert(st.all_items() == s1.all_items().push(PageItem::Shape { para_index: para_idx, control_index: ctrl_idx }));
                        assert(new_items(&s0, st) =~= new_items(&s0, &s1).push(PageItem::Shape { para_index: para_idx, control_index: ctrl_idx }));
                    } else {
                        assert(st.all_items() == s1.all_items());
                        assert(new_items(&s0, st) =~= new_items(&s0, &s1));
                    }
                    assert(st.all_items() == s1.all_items() || st.all_items() == s1.all_items().push(
                        PageItem::Shape { para_index: para_idx, control_index: ctrl_idx }));
                    assert forall|k: int| s0.all_items().len() <= k < st.all_items().len() implies (#[trigger] st.all_items()[k]) is Shape by {
                        if k < s1.all_items().len() {
                            assert(st.all_items()[k] == s1.all_items()[k]);
                        }
                    }
                }
                assert forall|c: usize| c < ctrl_idx + 1 && is_flow_table(#[trigger] para.controls@[c as int])
                    && !measured_without_rows(measured, para_idx as int, c as int)
                    implies table_placed(st.all_items(), s0.all_items().len() as int, para_idx, c) by {
                    if c < ctrl_idx {
                        lemma_table_placed_prefix(s1.all_items(), st.all_items(), s0.all_items().len() as int, para_idx, c);
                    } else {
                        let lo = s1.all_items().len() as int;
                        assert(table_placed(st.all_items(), lo, para_idx, c));
                        let j = choose|j: int| lo <= j < st.all_items().len() && places_table(#[trigger] st.all_items()[j], para_idx, c);
                        assert(s0.all_items().len() <= lo);
                    }
                }
                assert forall|c: usize| c < ctrl_idx + 1 && is_shape_like(#[trigger] para.controls@[c as int])
                    implies shape_placed(st.all_items(), s0.all_items().len() as int, para_idx, c) by {
                    if c < ctrl_idx {
                        lemma_shape_placed_prefix(s1.all_items(), st.all_items(), s0.all_items().len() as int, para_idx, c);
                    } else {
                        let k = s1.all_items().len() as int;
                        assert(shape_placed(st.all_items(), k, para_idx, c));
                        let j = choose|j: int| k <= j < st.all_items().len()
                            && #[trigger] st.all_items()[j] == (PageItem::Shape { para_index: para_idx, control_index: c });
                        assert(s0.all_items().len() <= k);
                    }
                }
            }
            ctrl_idx += 1;
        }
    }

    /// Places table control `ctrl_idx` of a paragraph: whole where it fits,
    /// a table treated as a character whole on the next column or page
    /// otherwise, and any other table split by rows (see
    /// `split_table_rows`); then records the footnotes of its cells.
    #[verifier::rlimit(50)]
    pub fn paginate_table_control(
        &self,
        st: &mut PaginationState,
        paragraphs: &[Paragraph],
        para_idx: usize,
        ctrl_idx: usize,
        measured: &MeasuredSection,
        para_height: i64,
        para_height_for_fit: i64,
        base_available_height: i64,
    )
        requires
            old(st).wf(),
            para_idx < paragraphs@.len(),
            ctrl_idx < paragraphs@[para_idx as int].controls@.len(),
            len_ok(para_height as int),
            len_ok(para_height_for_fit as int),
            len_ok(base_available_height as int),
        ensures
            stepped(&*old(st), &*final(st), para_idx as int, paragraphs@),
            footnotes_in_order(page_footnotes(old(st).pages@))
                && footnotes_before(page_footnotes(old(st).pages@), (para_idx as int, ctrl_idx as int, 0, 0, 0))
                ==> footnotes_in_order(page_footnotes(final(st).pages@))
                    && footnotes_before(page_footnotes(final(st).pages@), (para_idx as int, ctrl_idx + 1, 0, 0, 0)),
            footnotes_valid(page_footnotes(old(st).pages@), paragraphs@) ==> footnotes_valid(page_footnotes(final(st).pages@), paragraphs@),
            // The footnotes of the table's cells are added, in index order,
            // at the end of the last page's footnotes.
            match paragraphs@[para_idx as int].controls@[ctrl_idx as int] {
                Control::Table(t) => final(st).pages@.len() > 0 ==> {
                    let refs = table_footnote_refs(t, para_idx, ctrl_idx, t.cells@.len() as int);
                    &&& page_footnotes(final(st).pages@) == page_footnotes(old(st).pages@) + refs
                    &&& final(st).pages@.last().footnotes@.len() >= refs.len()
                    &&& final(st).pages@.last().footnotes@.skip(final(st).pages@.last().footnotes@.len() - refs.len()) == refs
                },
                _ => true,
            },
            paragraphs@[para_idx as int].controls@[ctrl_idx as int] is Table
                && !measured_without_rows(measured, para_idx as int, ctrl_idx as int)
                ==> table_placed(final(st).all_items(), old(st).all_items().len() as int, para_idx, ctrl_idx),
            old(st).pages@.len() > 0 ==> match paragraphs@[para_idx as int].controls@[ctrl_idx as int] {
                Control::Table(t) => cell_footnotes_recorded(final(st).pages@, page_footnotes(old(st).pages@).len() as int, t, para_idx, ctrl_idx),
                _ => true,
            },
            match paragraphs@[para_idx as int].controls@[ctrl_idx as int] {
                Control::Table(t) => {
                    let ni = new_items(&*old(st), &*final(st));
                    let para = &paragraphs@[para_idx as int];
                    let tac = t.common.treat_as_char;
                    let fits = table_fits(&*old(st), para, measured, para_idx as int, ctrl_idx as int, t, self.dpi, para_height, base_available_height);
                    let total = table_total_height(&*old(st), para, measured, para_idx as int, ctrl_idx as int, t, self.dpi, para_height);
                    let h0 = if old(st).current_items@.len() > 0 { 0 } else { old(st).current_height as int };
                    let moves = !fits && tac && old(st).current_items@.len() > 0;
                    &&& (fits || tac) && old(st).current_column < old(st).col_count
                        ==> column_position(&*final(st)) == column_position(&*old(st)) + (if moves { 1int } else { 0 })
                    &&& fits ==> ni == fits_items(old(st).current_items@, para, para_idx, ctrl_idx, measured, tac)
                        && final(st).current_height == fits_height(old(st).current_items@, old(st).current_height as int,
                            para, para_idx, ctrl_idx, measured, tac, total, self.dpi)
                    &&& !fits && tac ==> ni == fits_items(Seq::empty(), para, para_idx, ctrl_idx, measured, tac)
                        && final(st).current_height == fits_height(Seq::empty(), h0, para, para_idx, ctrl_idx, measured, tac, total, self.dpi)
                    &&& !fits && !tac ==> match measured.spec_table_of(para_idx as int, ctrl_idx as int) {
                        Some(mt) => {
                            let fn_h = cell_footnotes_height(controls_of_cells(t.cells@), old(st).is_first_footnote_on_page,
                                old(st).footnote_separator_overhead as int).0;
                            let tah = table_available(&*old(st), base_available_height, fn_h);
                            &&& mt.row_heights@.len() > 0 ==> super::split::table_rows_placed(ni, para_idx, ctrl_idx, mt.row_heights@.len() as int)
                            &&& mt.row_heights@.len() == 0 ==> ni.len() == 0
                            &&& mt.row_heights@.len() > 0 ==> super::split::first_table_item_ok(ni[0], &*old(st), para, para_idx, ctrl_idx,
                                mt, measured, self.dpi, tah, base_available_height as int)
                            &&& forall|k: int| 1 <= k < ni.len() ==> #[trigger] super::split::later_table_part_ok(ni[k], para, ctrl_idx,
                                mt, self.dpi, base_available_height as int)
                            &&& old(st).current_column < old(st).col_count ==> super::split::table_moves_ok(&*old(st), &*final(st), ni,
                                para, ctrl_idx as int, mt, measured, para_idx as int, self.dpi, tah)
                        },
                        None => ni == seq![PageItem::Table { para_index: para_idx, control_index: ctrl_idx }]
                            && final(st).current_height == clamp_len(h0 + table_effective_height(measured, para_idx as int, ctrl_idx as int, t, self.dpi)),
                    }
                },
                _ => true,
            },
    {
        let ghost s0 = *st;
        let ghost paras = paragraphs@;
        let ghost ord0 = footnotes_in_order(page_footnotes(s0.pages@))
            && footnotes_before(page_footnotes(s0.pages@), (para_idx as int, ctrl_idx as int, 0, 0, 0));
        let para = &paragraphs[para_idx];
        let table = match &para.controls[ctrl_idx] {
            Control::Table(t) => t,
            _ => {
                proof {
                    lemma_stepped_refl(&s0, para_idx as int, paras);
                    if ord0 {
                        lemma_footnotes_before_later(page_footnotes(s0.pages@), (para_idx as int, ctrl_idx as int, 0, 0, 0),
                            (para_idx as int, ctrl_idx + 1, 0, 0, 0));
                    }
                }
                return;
            },
        };
        let measured_table = measured.get_measured_table(para_idx, ctrl_idx);
        let ghost t = *table;
        let (effective_height, table_available_height, table_total_height, host_spacing) =
            self.table_heights(st, paragraphs, para_idx, ctrl_idx, measured, para_height, base_available_height);
        let is_tac_table = table.common.treat_as_char;
        let half_px: i64 = SUBPX_PER_PX / 2;
        proof {
            assert((st.current_height + table_total_height <= table_available_height + half_px)
                == table_fits(&s0, para, measured, para_idx as int, ctrl_idx as int, t, self.dpi, para_height, base_available_height));
            lemma_stepped_refl(&s0, para_idx as int, paras);
        }
        let ghost items_lo = s0.all_items().len() as int;
        if (st.current_height as i128) + (table_total_height as i128) <= (table_available_height as i128) + (half_px as i128) {
            self.place_table_fits(st, paragraphs, para_idx, ctrl_idx, measured, table_total_height, is_tac_table);
        } else if is_tac_table {
            // A table treated as a character is never split: it moves on whole.
            if st.current_items.len() > 0 {
                st.advance_column_or_new_page();
                proof { lemma_step_same(&s0, st, para_idx as int, paras); }
            }
            let ghost s1 = *st;
            self.place_table_fits(st, paragraphs, para_idx, ctrl_idx, measured, table_total_height, is_tac_table);
            proof {
                lemma_stepped_trans(&s0, &s1, st, para_idx as int, paras);
                assert(s1.all_items() == s0.all_items());
                assert(s1.current_items@ =~= Seq::<PageItem>::empty());
                assert(new_items(&s0, st) == new_items(&s1, st));
            }
        } else if let Some(mt) = measured_table {
            self.split_table_rows(
                st, paragraphs, para_idx, ctrl_idx, measured, mt,
                table_available_height, base_available_height, host_spacing,
            );
            proof {
                let ni = new_items(&s0, st);
                if mt.row_heights@.len() > 0 {
                    let x = ni.last();
                    assert(ni.len() > 0);
                    assert(places_table(x, para_idx, ctrl_idx));
                    assert(st.all_items()[st.all_items().len() - 1] == x);
                } else {
                    let k = choose|k: int| 0 <= k < measured.tables@.len() && measured.tables@[k] == *mt
                        && mt.para_index == para_idx && mt.control_index == ctrl_idx
                        && forall|j: int| 0 <= j < k ==> !(#[trigger] measured.tables@[j].para_index == para_idx && measured.tables@[j].control_index == ctrl_idx);
                    assert(measured_without_rows(measured, para_idx as int, ctrl_idx as int));
                }
            }
        } else {
            if st.current_items.len() > 0 {
                st.advance_column_or_new_page();
                proof { lemma_step_same(&s0, st, para_idx as int, paras); }
            }
            let ghost s1 = *st;
            let item = PageItem::Table { para_index: para_idx, control_index: ctrl_idx };
            st.push_item(item);
            proof {
                lemma_step_push(&s1, st, item, para_idx as int, paras);
                assert(st.all_items()[s1.all_items().len() as int] == item);
                assert(s1.all_items().len() == items_lo);
                assert(new_items(&s0, st) =~= seq![item]);
            }
            let ghost s2 = *st;
            st.add_height(effective_height);
            proof {
                lemma_step_same(&s2, st, para_idx as int, paras);
                lemma_stepped_trans(&s1, &s2, st, para_idx as int, paras);
                lemma_stepped_trans(&s0, &s1, st, para_idx as int, paras);
            }
        }

        // Footnotes in the table's cells.
        let ghost s4 = *st;
        proof {
            assert(page_footnotes(s4.pages@) == page_footnotes(s0.pages@));
            assert(measured_table matches Some(mt) ==> measured.spec_table_of(para_idx as int, ctrl_idx as int) == Some(*mt));
        }
        let ghost lo = page_footnotes(s0.pages@).len() as int;
        let ghost last0: Seq<FootnoteRef> = if s4.pages@.len() > 0 { s4.pages@.last().footnotes@ } else { Seq::empty() };
        let mut cell_idx: usize = 0;
        while cell_idx < table.cells.len()
            invariant
                s4.pages@.len() > 0 ==> page_footnotes(st.pages@) == page_footnotes(s4.pages@) + table_footnote_refs(t, para_idx, ctrl_idx, cell_idx as int)
                    && st.pages@.last().footnotes@ == last0 + table_footnote_refs(t, para_idx, ctrl_idx, cell_idx as int),
                last0 == (if s4.pages@.len() > 0 { s4.pages@.last().footnotes@ } else { Seq::<FootnoteRef>::empty() }),
                st.wf(),
                stepped(&s0, st, para_idx as int, paras),
                st.all_items() == s4.all_items(),
                st.current_height == s4.current_height,
                st.pages@.len() == s4.pages@.len(),
                st.current_column == s4.current_column,
                st.col_count == s4.col_count,
                0 <= cell_idx <= table.cells@.len(),
                t == *table,
                lo == page_footnotes(s0.pages@).len(),
                paras[para_idx as int].controls@[ctrl_idx as int] == Control::Table(t),
                para_idx < paras.len(),
                ctrl_idx < paras[para_idx as int].controls@.len(),
                footnotes_valid(page_footnotes(s0.pages@), paras) ==> footnotes_valid(page_footnotes(st.pages@), paras),
                ord0 == (footnotes_in_order(page_footnotes(s0.pages@))
                    && footnotes_before(page_footnotes(s0.pages@), (para_idx as int, ctrl_idx as int, 0, 0, 0))),
                ord0 ==> footnotes_in_order(page_footnotes(st.pages@))
                    && footnotes_before(page_footnotes(st.pages@), (para_idx as int, ctrl_idx as int, cell_idx as int, 0, 0)),
                s0.pages@.len() > 0 ==> forall|ci: int, cp: int, cc: int| ci < cell_idx
                    && (#[trigger] cell_footnote_ref(t, para_idx, ctrl_idx, ci, cp, cc)) is Some
                    ==> footnote_recorded(st.pages@, lo, cell_footnote_ref(t, para_idx, ctrl_idx, ci, cp, cc)->0),
            decreases table.cells@.len() - cell_idx,
        {
            let cell = &table.cells[cell_idx];
            let mut cp_idx: usize = 0;
            let ghost pre_cell = table_footnote_refs(t, para_idx, ctrl_idx, cell_idx as int);
            while cp_idx < cell.paragraphs.len()
                invariant
                    pre_cell == table_footnote_refs(t, para_idx, ctrl_idx, cell_idx as int),
                    s4.pages@.len() > 0 ==> page_footnotes(st.pages@) == page_footnotes(s4.pages@) + pre_cell
                            + cell_footnote_refs(t, para_idx, ctrl_idx, cell_idx as int, cp_idx as int)
                        && st.pages@.last().footnotes@ == last0 + pre_cell + cell_footnote_refs(t, para_idx, ctrl_idx, cell_idx as int, cp_idx as int),
                    last0 == (if s4.pages@.len() > 0 { s4.pages@.last().footnotes@ } else { Seq::<FootnoteRef>::empty() }),
                    st.wf(),
                    stepped(&s0, st, para_idx as int, paras),
                    st.all_items() == s4.all_items(),
                    st.current_height == s4.current_height,
                    st.pages@.len() == s4.pages@.len(),
                    st.current_column == s4.current_column,
                    st.col_count == s4.col_count,
                    0 <= cp_idx <= cell.paragraphs@.len(),
                    cell_idx < t.cells@.len(),
                    *cell == t.cells@[cell_idx as int],
                    lo == page_footnotes(s0.pages@).len(),
                    paras[para_idx as int].controls@[ctrl_idx as int] == Control::Table(t),
                    para_idx < paras.len(),
                    ctrl_idx < paras[para_idx as int].controls@.len(),
                    footnotes_valid(page_footnotes(s0.pages@), paras) ==> footnotes_valid(page_footnotes(st.pages@), paras),
                    ord0 ==> footnotes_in_order(page_footnotes(st.pages@))
                        && footnotes_before(page_footnotes(st.pages@), (para_idx as int, ctrl_idx as int, cell_idx as int, cp_idx as int, 0)),
                    s0.pages@.len() > 0 ==> forall|ci: int, cp: int, cc: int| (ci < cell_idx || (ci == cell_idx && cp < cp_idx))
                        && (#[trigger] cell_footnote_ref(t, para_idx, ctrl_idx, ci, cp, cc)) is Some
                        ==> footnote_recorded(st.pages@, lo, cell_footnote_ref(t, para_idx, ctrl_idx, ci, cp, cc)->0),
                decreases cell.paragraphs@.len() - cp_idx,
            {
                let cp = &cell.paragraphs[cp_idx];
                let mut cc_idx: usize = 0;
                let ghost pre_para = pre_cell + cell_footnote_refs(t, para_idx, ctrl_idx, cell_idx as int, cp_idx as int);
                while cc_idx < cp.len()
                    invariant
                        pre_para == pre_cell + cell_footnote_refs(t, para_idx, ctrl_idx, cell_idx as int, cp_idx as int),
                        pre_cell == table_footnote_refs(t, para_idx, ctrl_idx, cell_idx as int),
                        s4.pages@.len() > 0 ==> page_footnotes(st.pages@) == page_footnotes(s4.pages@) + pre_para
                                + cell_para_footnote_refs(t, para_idx, ctrl_idx, cell_idx as int, cp_idx as int, cc_idx as int)
                            && st.pages@.last().footnotes@ == last0 + pre_para
                                + cell_para_footnote_refs(t, para_idx, ctrl_idx, cell_idx as int, cp_idx as int, cc_idx as int),
                        last0 == (if s4.pages@.len() > 0 { s4.pages@.last().footnotes@ } else { Seq::<FootnoteRef>::empty() }),
                        st.wf(),
                        stepped(&s0, st, para_idx as int, paras),
                        st.all_items() == s4.all_items(),
                        st.current_height == s4.current_height,
                        st.pages@.len() == s4.pages@.len(),
                        st.current_column == s4.current_column,
                        st.col_count == s4.col_count,
                        0 <= cc_idx <= cp@.len(),
                        cell_idx < t.cells@.len(),
                        cp_idx < t.cells@[cell_idx as int].paragraphs@.len(),
                        *cp == t.cells@[cell_idx as int].paragraphs@[cp_idx as int],
                        lo == page_footnotes(s0.pages@).len(),
                        paras[para_idx as int].controls@[ctrl_idx as int] == Control::Table(t),
                        para_idx < paras.len(),
                        ctrl_idx < paras[para_idx as int].controls@.len(),
                        footnotes_valid(page_footnotes(s0.pages@), paras) ==> footnotes_valid(page_footnotes(st.pages@), paras),
                        ord0 ==> footnotes_in_order(page_footnotes(st.pages@))
                            && footnotes_before(page_footnotes(st.pages@), (para_idx as int, ctrl_idx as int, cell_idx as int, cp_idx as int, cc_idx as int)),
                        s0.pages@.len() > 0 ==> forall|ci: int, cpi: int, cc: int| (ci < cell_idx || (ci == cell_idx && cpi < cp_idx)
                            || (ci == cell_idx && cpi == cp_idx && cc < cc_idx))
                            && (#[trigger] cell_footnote_ref(t, para_idx, ctrl_idx, ci, cpi, cc)) is Some
                            ==> footnote_recorded(st.pages@, lo, cell_footnote_ref(t, para_idx, ctrl_idx, ci, cpi, cc)->0),
                    decreases cp@.len() - cc_idx,
                {
                    let ghost s6 = *st;
                    if let InnerControl::Footnote(f) = &cp[cc_idx] {
                        let r = FootnoteRef {
                            number: f.number,
                            source: FootnoteSource::TableCell {
                                para_index: para_idx,
                                table_control_index: ctrl_idx,
                                cell_index: cell_idx,
                                cell_para_index: cp_idx,
                                cell_control_index: cc_idx,
                            },
                        };
                        let ghost s5 = *st;
                        st.note_footnote(r, f.estimated_height);
                        proof {
                            if footnotes_valid(page_footnotes(s0.pages@), paras) && s5.pages@.len() > 0 {
                                assert(cell_footnote_ref(t, para_idx, ctrl_idx, cell_idx as int, cp_idx as int, cc_idx as int) == Some(r));
                                lemma_footnotes_valid_push(page_footnotes(s5.pages@), r, paras);
                            }
                            if ord0 && s5.pages@.len() > 0 {
                                lemma_footnote_push(page_footnotes(s5.pages@), r,
                                    (para_idx as int, ctrl_idx as int, cell_idx as int, cp_idx as int, cc_idx + 1));
                            }
                            lemma_step_same(&s5, st, para_idx as int, paras);
                            lemma_stepped_trans(&s0, &s5, st, para_idx as int, paras);
                            if s0.pages@.len() > 0 {
                                let k = page_footnotes(s5.pages@).len() as int;
                                assert(page_footnotes(st.pages@)[k] == r);
                                assert(cell_footnote_ref(t, para_idx, ctrl_idx, cell_idx as int, cp_idx as int, cc_idx as int) == Some(r));
                                assert(footnote_recorded(st.pages@, lo, r));
                            }
                        }
                    }
                    proof {
                        if s0.pages@.len() > 0 {
                            assert forall|ci: int, cpi: int, cc: int| (ci < cell_idx || (ci == cell_idx && cpi < cp_idx)
                                || (ci == cell_idx && cpi == cp_idx && cc < cc_idx + 1))
                                && (#[trigger] cell_footnote_ref(t, para_idx, ctrl_idx, ci, cpi, cc)) is Some
                                implies footnote_recorded(st.pages@, lo, cell_footnote_ref(t, para_idx, ctrl_idx, ci, cpi, cc)->0) by {
                                if !(ci == cell_idx && cpi == cp_idx && cc == cc_idx) {
                                    lemma_footnote_recorded_kept(&s6, st, lo, cell_footnote_ref(t, para_idx, ctrl_idx, ci, cpi, cc)->0);
                                }
                            }
                        }
                    }
                    proof {
                        if ord0 && !(cp[cc_idx as int] matches InnerControl::Footnote(_)) {
                            lemma_footnotes_before_later(page_footnotes(st.pages@),
                                (para_idx as int, ctrl_idx as int, cell_idx as int, cp_idx as int, cc_idx as int),
                                (para_idx as int, ctrl_idx as int, cell_idx as int, cp_idx as int, cc_idx + 1));
                        }
                    }
                    cc_idx += 1;
                }
                proof {
                    if ord0 {
                        lemma_footnotes_before_later(page_footnotes(st.pages@),
                            (para_idx as int, ctrl_idx as int, cell_idx as int, cp_idx as int, cp@.len() as int),
                            (para_idx as int, ctrl_idx as int, cell_idx as int, cp_idx + 1, 0));
                    }
                }
                cp_idx += 1;
            }
            proof {
                if ord0 {
                    lemma_footnotes_before_later(page_footnotes(st.pages@),
                        (para_idx as int, ctrl_idx as int, cell_idx as int, cell.paragraphs@.len() as int, 0),
                        (para_idx as int, ctrl_idx as int, cell_idx + 1, 0, 0));
                }
            }
            cell_idx += 1;
        }
        proof {
            if ord0 {
                lemma_footnotes_before_later(page_footnotes(st.pages@),
                    (para_idx as int, ctrl_idx as int, table.cells@.len() as int, 0, 0),
                    (para_idx as int, ctrl_idx + 1, 0, 0, 0));
            }
        }
    }

    /// The heights that decide how table control `ctrl_idx` of a paragraph
    /// is placed: the height of its body, the space it has in the current
    /// column, the height it takes in the flow, and the spacing of its host
    /// paragraph around it.
    fn table_heights(
        &self,
        st: &PaginationState,
        paragraphs: &[Paragraph],
        para_idx: usize,
        ctrl_idx: usize,
        measured: &MeasuredSection,
        para_height: i64,
        base_available_height: i64,
    ) -> (r: (i64, i64, i64, i64))
        requires
            st.wf(),
            para_idx < paragraphs@.len(),
            ctrl_idx < paragraphs@[para_idx as int].controls@.len(),
            paragraphs@[para_idx as int].controls@[ctrl_idx as int] is Table,
            len_ok(para_height as int),
            len_ok(base_available_height as int),
        ensures
            ({
                let para = &paragraphs@[para_idx as int];
                let t = para.controls@[ctrl_idx as int]->Table_0;
                let fn_h = cell_footnotes_height(controls_of_cells(t.cells@), st.is_first_footnote_on_page, st.footnote_separator_overhead as int).0;
                &&& r.0 == table_effective_height(measured, para_idx as int, ctrl_idx as int, t, self.dpi)
                &&& r.1 == table_available(st, base_available_height, fn_h)
                &&& r.2 == table_total_height(st, para, measured, para_idx as int, ctrl_idx as int, t, self.dpi, para_height)
                &&& r.3 == host_spacing(st, para, measured, para_idx as int, ctrl_idx as int, t, self.dpi)
            }),
            len_ok(r.0 as int),
            len_ok(r.1 as int),
            len_ok(r.2 as int),
            len_ok(r.3 as int),
    {
        let para = &paragraphs[para_idx];
        let table = match &para.controls[ctrl_idx] {
            Control::Table(t) => t,
            _ => { return (0, 0, 0, 0); },
        };
        let measured_table = measured.get_measured_table(para_idx, ctrl_idx);
        let ghost t = *table;
        // Height of the table body, without its caption.
        let effective_height: i64 = match measured_table {
            Some(mt) => table_body_height(mt, table, self.dpi),
            None => {
                let row_count = table.row_count as usize;
                let mut row_heights: Vec<i64> = Vec::new();
                let mut r: usize = 0;
                while r < row_count
                    invariant
                        0 <= r <= row_count,
                        row_heights@.len() == r,
                        forall|k: int| 0 <= k < r ==> #[trigger] row_heights@[k] == 0,
                    decreases row_count - r,
                {
                    row_heights.push(0);
                    r += 1;
                }
                let mut c: usize = 0;
                while c < table.cells.len()
                    invariant
                        0 <= c <= table.cells@.len(),
                        row_heights@.len() == row_count,
                        row_count == t.row_count,
                        t == *table,
                        forall|k: int| 0 <= k < row_count ==> #[trigger] row_heights@[k] == unmeasured_row_height(t.cells@, k, self.dpi, c as int),
                        forall|k: int| 0 <= k < row_count ==> len_ok(#[trigger] row_heights@[k] as int),
                    decreases table.cells@.len() - c,
                {
                    let cell = &table.cells[c];
                    if cell.row_span == 1 && (cell.row as usize) < row_count {
                        let h = hwpunit_to_px((cell.height as i32) as i64, self.dpi);
                        let row = cell.row as usize;
                        if h > row_heights[row] {
                            row_heights.set(row, h);
                        }
                    }
                    c += 1;
                }
                let mut table_height: i64 = 0;
                let mut k: usize = 0;
                while k < row_count
                    invariant
                        0 <= k <= row_count,
                        row_heights@.len() == row_count,
                        row_count == t.row_count,
                        forall|j: int| 0 <= j < row_count ==> #[trigger] row_heights@[j] == unmeasured_row_height(t.cells@, j, self.dpi, t.cells@.len() as int),
                        forall|j: int| 0 <= j < row_count ==> len_ok(#[trigger] row_heights@[j] as int),
                        len_ok(table_height as int),
                        table_height == unmeasured_rows_sum(t, self.dpi, k as int),
                    decreases row_count - k,
                {
                    table_height = len_add(table_height, row_heights[k]);
                    k += 1;
                }
                if table_height > 0 { table_height } else { hwpunit_to_px(1000, self.dpi) }
            },
        };
        proof {
            assert(effective_height == table_effective_height(measured, para_idx as int, ctrl_idx as int, t, self.dpi));
        }

        // Height of the footnotes in the table's cells.
        let mut table_footnote_height: i64 = 0;
        let mut table_has_footnotes = false;
        let ghost first = st.is_first_footnote_on_page;
        let ghost sep = st.footnote_separator_overhead as int;
        let mut c: usize = 0;
        while c < table.cells.len()
            invariant
                st.wf(),
                t == *table,
                first == st.is_first_footnote_on_page,
                sep == st.footnote_separator_overhead,
                0 <= c <= table.cells@.len(),
                len_ok(table_footnote_height as int),
                (table_footnote_height as int, table_has_footnotes) == cell_footnotes_height(controls_of_cells(t.cells@.take(c as int)), first, sep),
            decreases table.cells@.len() - c,
        {
            let cell = &table.cells[c];
            let ghost before_cell = controls_of_cells(t.cells@.take(c as int));
            let mut p: usize = 0;
            while p < cell.paragraphs.len()
                invariant
                    st.wf(),
                    first == st.is_first_footnote_on_page,
                    sep == st.footnote_separator_overhead,
                    0 <= p <= cell.paragraphs@.len(),
                    len_ok(table_footnote_height as int),
                    (table_footnote_height as int, table_has_footnotes)
                        == cell_footnotes_height(before_cell + controls_of_paras(cell.paragraphs@.take(p as int)), first, sep),
                decreases cell.paragraphs@.len() - p,
            {
                let cp = &cell.paragraphs[p];
                let ghost before_para = before_cell + controls_of_paras(cell.paragraphs@.take(p as int));
                let mut k: usize = 0;
                while k < cp.len()
                    invariant
                        st.wf(),
                        first == st.is_first_footnote_on_page,
                        sep == st.footnote_separator_overhead,
                        0 <= k <= cp@.len(),
                        len_ok(table_footnote_height as int),
                        (table_footnote_height as int, table_has_footnotes) == cell_footnotes_height(before_para + cp@.take(k as int), first, sep),
                    decreases cp@.len() - k,
                {
                    proof {
                        assert((before_para + cp@.take(k + 1)).drop_last() =~= before_para + cp@.take(k as int));
                        assert((before_para + cp@.take(k + 1)).last() == cp@[k as int]);
                    }
                    if let InnerControl::Footnote(f) = &cp[k] {
                        let fn_height = clamp_len_exec(f.estimated_height);
                        if !table_has_footnotes && st.is_first_footnote_on_page {
                            table_footnote_height = len_add(table_footnote_height, st.footnote_separator_overhead);
                        }
                        table_footnote_height = len_add(table_footnote_height, fn_height);
                        table_has_footnotes = true;
                    }
                    k += 1;
                }
                proof {
                    assert(cp@.take(cp@.len() as int) =~= cp@);
                    assert(cell.paragraphs@.take(p + 1).drop_last() =~= cell.paragraphs@.take(p as int));
                    assert(before_cell + controls_of_paras(cell.paragraphs@.take(p + 1)) =~= before_para + cp@);
                }
                p += 1;
            }
            proof {
                assert(cell.paragraphs@.take(cell.paragraphs@.len() as int) =~= cell.paragraphs@);
                assert(t.cells@.take(c + 1).drop_last() =~= t.cells@.take(c as int));
                assert(controls_of_cells(t.cells@.take(c + 1)) =~= before_cell + controls_of_paras(cell.paragraphs@));
            }
            c += 1;
        }
        proof {
            assert(t.cells@.take(t.cells@.len() as int) =~= t.cells@);
        }

        // Height available for the table.
        let total_footnote = len_add(st.current_footnote_height, table_footnote_height);
        let table_margin: i64 = if total_footnote > 0 { st.footnote_safety_margin } else { 0 };
        let room: i128 = base_available_height as i128 - total_footnote as i128 - table_margin as i128
            - st.current_zone_y_offset as i128;
        let table_available_height = clamp_wide(if room >= 0 { room } else { 0 });
        proof {
            assert(table_available_height == table_available(st, base_available_height, table_footnote_height as int));
        }

        // Spacing of the host paragraph around the table.
        let is_tac_table = table.common.treat_as_char;
        let table_text_wrap = table.common.text_wrap;
        let (sb, sa): (i64, i64) = if para_idx < measured.paragraphs.len() {
            (measured.paragraphs[para_idx].spacing_before(), measured.paragraphs[para_idx].spacing_after())
        } else {
            (0, 0)
        };
        let outer_top: i64 = if is_tac_table { hwpunit_to_px(table.outer_margin_top as i64, self.dpi) } else { 0 };
        let host_line_spacing: i64 = if is_tac_table {
            if ctrl_idx < para.line_segs.len() { positive_line_spacing(para.line_segs[ctrl_idx].line_spacing, self.dpi) } else { 0 }
        } else {
            if para.line_segs.len() > 0 {
                positive_line_spacing(para.line_segs[para.line_segs.len() - 1].line_spacing, self.dpi)
            } else {
                0
            }
        };
        let is_column_top = st.current_height < SUBPX_PER_PX;
        let sb_here: i64 = if !is_column_top { sb } else { 0 };
        let before: i64 = if !is_tac_table && table_text_wrap == TextWrap::TopAndBottom {
            if table.common.vert_rel_to == VertRelTo::Para { len_add(sb_here, outer_top) } else { outer_top }
        } else {
            len_add(sb_here, outer_top)
        };
        let host_spacing = len_add(len_add(before, sa), host_line_spacing);
        proof {
            assert(host_line_spacing == self::host_line_spacing(para, ctrl_idx as int, t, self.dpi));
            assert(host_spacing == self::host_spacing(st, para, measured, para_idx as int, ctrl_idx as int, t, self.dpi));
        }

        // Height the table takes in the flow.
        let tac_table_count = count_tac_tables(&para.controls, para.controls.len());
        proof {
            assert(para.controls@.take(para.controls@.len() as int) =~= para.controls@);
        }
        let half_px: i64 = SUBPX_PER_PX / 2;
        let table_total_height: i64 = if is_tac_table && para_height > 0 && tac_table_count <= 1 {
            let full_h = len_add(effective_height, host_spacing);
            let without_trail = clamp_wide(full_h as i128 - host_line_spacing as i128);
            let left: i128 = st.available_height() as i128 - st.current_height as i128;
            let remaining: i128 = if left >= 0 { left } else { 0 };
            if (without_trail as i128) <= remaining + (half_px as i128) && (full_h as i128) > remaining + (half_px as i128) {
                without_trail
            } else {
                full_h
            }
        } else if is_tac_table && tac_table_count > 1 {
            let tac_idx = count_tac_tables(&para.controls, ctrl_idx);
            let is_last_tac = tac_idx + 1 == tac_table_count;
            if tac_idx < para.line_segs.len() {
                let seg = &para.line_segs[tac_idx];
                let line_h = hwpunit_to_px(seg.line_height as i64, self.dpi);
                if is_last_tac { line_h } else { len_add(line_h, positive_line_spacing(seg.line_spacing, self.dpi)) }
            } else {
                len_add(effective_height, host_spacing)
            }
        } else {
            len_add(effective_height, host_spacing)
        };
        proof {
            assert(table_total_height == self::table_total_height(st, para, measured, para_idx as int, ctrl_idx as int, t, self.dpi, para_height));
        }
        (effective_height, table_available_height, table_total_height, host_spacing)
    }

    /// Places a table that fits: the text before it (when the table is
    /// pushed down by a vertical offset, or follows forced line breaks),
    /// the table, and the text after it.
    pub fn place_table_fits(
        &self,
        st: &mut PaginationState,
        paragraphs: &[Paragraph],
        para_idx: usize,
        ctrl_idx: usize,
        measured: &MeasuredSection,
        table_total_height: i64,
        is_tac_table: bool,
    )
        requires
            old(st).wf(),
            para_idx < paragraphs@.len(),
            ctrl_idx < paragraphs@[para_idx as int].controls@.len(),
            paragraphs@[para_idx as int].controls@[ctrl_idx as int] is Table,
            len_ok(table_total_height as int),
        ensures
            page_footnotes(final(st).pages@) == page_footnotes(old(st).pages@),
            stepped(&*old(st), &*final(st), para_idx as int, paragraphs@),
            table_placed(final(st).all_items(), old(st).all_items().len() as int, para_idx, ctrl_idx),
            new_items(&*old(st), &*final(st))
                == fits_items(old(st).current_items@, &paragraphs@[para_idx as int], para_idx, ctrl_idx, measured, is_tac_table),
            final(st).current_items@ == old(st).current_items@ + new_items(&*old(st), &*final(st)),
            final(st).pages@ == old(st).pages@,
            final(st).current_column == old(st).current_column,
            final(st).col_count == old(st).col_count,
            final(st).current_height == fits_height(old(st).current_items@, old(st).current_height as int,
                &paragraphs@[para_idx as int], para_idx, ctrl_idx, measured, is_tac_table, table_total_height as int, self.dpi),
    {
        let ghost s0 = *st;
        let ghost paras = paragraphs@;
        let para = &paragraphs[para_idx];
        let table = match &para.controls[ctrl_idx] {
            Control::Table(t) => t,
            _ => {
                proof { lemma_stepped_refl(&s0, para_idx as int, paras); }
                return;
            },
        };
        let vertical_offset = Self::get_table_vertical_offset(table);
        let is_wrap_around_table = !table.common.treat_as_char && table.common.text_wrap == TextWrap::Square;
        let table_item = PageItem::Table { para_index: para_idx, control_index: ctrl_idx };

        if para_idx >= measured.paragraphs.len() {
            st.push_item(table_item);
            proof {
                lemma_step_push(&s0, st, table_item, para_idx as int, paras);
                assert(st.all_items()[s0.all_items().len() as int] == table_item);
                assert(new_items(&s0, st) =~= seq![table_item]);
            }
            let ghost s1 = *st;
            st.add_height(table_total_height);
            proof {
                lemma_step_same(&s1, st, para_idx as int, paras);
                lemma_stepped_trans(&s0, &s1, st, para_idx as int, paras);
                assert(new_items(&s0, st) == new_items(&s0, &s1));
            }
            return;
        }
        let mp = &measured.paragraphs[para_idx];
        let total_lines = mp.line_heights.len();

        // Text before the table.
        let has_forced_linebreak = is_tac_table && crate::text::count_newlines(&para.text) > 0;
        let pre_table_end_line: usize = if vertical_offset > 0 && para.text.len() > 0 {
            total_lines
        } else if has_forced_linebreak && total_lines > 1 {
            let newline_count = crate::text::count_newlines(&para.text);
            if newline_count < total_lines - 1 { newline_count } else { total_lines - 1 }
        } else {
            0
        };
        let is_first_table = !any_table_in(&para.controls, 0, ctrl_idx);
        proof {
            lemma_stepped_refl(&s0, para_idx as int, paras);
            assert(pre_table_end_line == pre_table_end(para, *table, total_lines as int, is_tac_table));
            assert(is_first_table == !table_before(para.controls@, ctrl_idx as int));
            assert(new_items(&s0, st) =~= Seq::<PageItem>::empty());
        }
        let ghost pre_items: Seq<PageItem> = Seq::empty();
        if pre_table_end_line > 0 && is_first_table && !is_wrap_around_table {
            let pre_height: i64 = if has_forced_linebreak {
                let mut h: i64 = 0;
                let mut k: usize = 0;
                while k < pre_table_end_line && k < para.line_segs.len()
                    invariant
                        len_ok(h as int),
                        k <= para.line_segs@.len(),
                        k <= pre_table_end_line,
                        h == text_segs_height(para.line_segs@, k as int, self.dpi),
                    decreases pre_table_end_line - k,
                {
                    let seg = &para.line_segs[k];
                    let th = hwpunit_to_px(seg.text_height as i64, self.dpi);
                    let ls = hwpunit_to_px(seg.line_spacing as i64, self.dpi);
                    h = len_add(h, len_add(th, ls));
                    k += 1;
                }
                h
            } else {
                mp.line_advances_sum(0, pre_table_end_line)
            };
            let item = PageItem::PartialParagraph { para_index: para_idx, start_line: 0, end_line: pre_table_end_line };
            st.push_item(item);
            proof {
                lemma_step_push(&s0, st, item, para_idx as int, paras);
                pre_items = seq![item];
                assert(new_items(&s0, st) =~= pre_items);
                assert(st.current_items@ =~= s0.current_items@ + pre_items);
            }
            let ghost s1 = *st;
            st.add_height(pre_height);
            proof {
                lemma_step_same(&s1, st, para_idx as int, paras);
                lemma_stepped_trans(&s0, &s1, st, para_idx as int, paras);
                assert(new_items(&s0, st) == new_items(&s0, &s1));
            }
        }

        // The table.
        let ghost s2 = *st;
        st.push_item(table_item);
        proof {
            lemma_step_push(&s2, st, table_item, para_idx as int, paras);
            assert(st.all_items()[s2.all_items().len() as int] == table_item);
            assert(table_placed(st.all_items(), s0.all_items().len() as int, para_idx, ctrl_idx));
            assert(new_items(&s0, st) =~= pre_items + seq![table_item]);
            assert(st.current_items@ =~= s0.current_items@ + (pre_items + seq![table_item]));
        }
        let ghost s3 = *st;
        st.add_height(table_total_height);
        proof {
            lemma_step_same(&s3, st, para_idx as int, paras);
            lemma_stepped_trans(&s2, &s3, st, para_idx as int, paras);
            lemma_stepped_trans(&s0, &s2, st, para_idx as int, paras);
            assert(new_items(&s0, st) == new_items(&s0, &s3));
        }

        // Text after the table.
        let tac_table_count = count_tac_tables(&para.controls, para.controls.len());
        let is_last_table = !any_table_in(&para.controls, ctrl_idx + 1, para.controls.len());
        let post_table_start: usize = if has_forced_linebreak && pre_table_end_line > 0 {
            total_lines
        } else if table.common.treat_as_char {
            if pre_table_end_line > 1 { pre_table_end_line } else { 1 }
        } else if is_last_table && !is_first_table {
            0
        } else {
            pre_table_end_line
        };
        proof {
            assert(para.controls@.take(para.controls@.len() as int) =~= para.controls@);
            assert(is_last_table == !table_after(para.controls@, ctrl_idx as int));
            assert(post_table_start == self::post_table_start(para, *table, ctrl_idx as int, total_lines as int, is_tac_table));
            if post_table_start == 0 {
                assert(pre_items.len() == 0);
            }
        }
        // Do not repeat text that an earlier table of the paragraph placed.
        let ghost cur = st.current_items@;
        let mut pre_text_exists = false;
        if post_table_start == 0 {
            let mut k: usize = 0;
            while k < st.current_items.len()
                invariant
                    0 <= k <= st.current_items@.len(),
                    st.current_items@ == cur,
                    pre_text_exists == exists|j: int| 0 <= j < k
                        && (#[trigger] cur[j] matches PageItem::PartialParagraph { para_index, start_line, .. }
                            && para_index == para_idx && start_line == 0),
                decreases st.current_items@.len() - k,
            {
                if let PageItem::PartialParagraph { para_index, start_line, .. } = &st.current_items[k] {
                    if *para_index == para_idx && *start_line == 0 {
                        pre_text_exists = true;
                    }
                }
                k += 1;
            }
            proof {
                let c0 = s0.current_items@;
                assert(cur == c0 + seq![table_item]);
                if pre_text_exists {
                    let j = choose|j: int| 0 <= j < cur.len()
                        && (#[trigger] cur[j] matches PageItem::PartialParagraph { para_index, start_line, .. }
                            && para_index == para_idx && start_line == 0);
                    assert(j < c0.len());
                    assert(c0[j] == cur[j]);
                } else {
                    assert forall|j: int| 0 <= j < c0.len() implies !(#[trigger] c0[j] matches PageItem::PartialParagraph { para_index, start_line, .. }
                        && para_index == para_idx && start_line == 0) by {
                        assert(cur[j] == c0[j]);
                    }
                }
            }
        }
        let ghost s_mid = *st;
        if is_last_table && tac_table_count <= 1 && para.text.len() > 0 && total_lines > post_table_start
            && !is_wrap_around_table && !pre_text_exists
        {
            let post_height = mp.line_advances_sum(post_table_start, total_lines);
            let ghost s4 = *st;
            let item = PageItem::PartialParagraph { para_index: para_idx, start_line: post_table_start, end_line: total_lines };
            st.push_item(item);
            proof {
                lemma_step_push(&s4, st, item, para_idx as int, paras);
                assert(new_items(&s0, st) =~= pre_items + seq![table_item] + seq![item]);
                assert(st.current_items@ =~= s0.current_items@ + (pre_items + seq![table_item] + seq![item]));
            }
            let ghost s5 = *st;
            st.add_height(post_height);
            proof {
                lemma_step_same(&s5, st, para_idx as int, paras);
                lemma_stepped_trans(&s4, &s5, st, para_idx as int, paras);
                lemma_stepped_trans(&s0, &s4, st, para_idx as int, paras);
                lemma_table_placed_prefix(s4.all_items(), st.all_items(), s0.all_items().len() as int, para_idx, ctrl_idx);
                assert(new_items(&s0, st) == new_items(&s0, &s5));
                assert(new_items(&s0, st) =~= fits_items(s0.current_items@, para, para_idx, ctrl_idx, measured, is_tac_table));
            }
        } else {
            proof {
                assert(new_items(&s0, st) =~= pre_items + seq![table_item] + Seq::<PageItem>::empty());
                assert(new_items(&s0, st) =~= fits_items(s0.current_items@, para, para_idx, ctrl_idx, measured, is_tac_table));
            }
        }
    }

    /// The vertical offset of a table from its anchor (HWP units).
    pub fn get_table_vertical_offset(table: &Table) -> (r: u32)
        ensures
            r == table.common.vertical_offset,
    {
        table.common.vertical_offset
    }
}

} // verus!
