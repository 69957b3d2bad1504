//! The page splitter: what it promises of the items it places, and the walk
//! over a section's paragraphs.

use vstd::prelude::*;
use crate::model::{ColumnBreakType, Control, Paragraph};
use super::types::{PageItem, WrapAroundPara};
use super::state::{PaginationState, wraps_kept, footnotes_kept, cols_kept};

verus! {

/// Splits the paragraphs of a section into pages at a given resolution
/// (pixels per inch).
pub struct Paginator {
    pub dpi: i64,
}

/// An item refers to an existing paragraph; a table item to a table of
/// it, a shape item to one of its drawing objects, pictures, equations or
/// tables; and a line or row range is not empty.
pub open spec fn item_valid(item: PageItem, paras: Seq<Paragraph>) -> bool {
    &&& item.spec_para_index() < paras.len()
    &&& match item {
        PageItem::FullParagraph { .. } => true,
        PageItem::PartialParagraph { start_line, end_line, .. } => start_line < end_line,
        PageItem::Table { para_index, control_index } => control_index < paras[para_index as int].controls@.len()
            && paras[para_index as int].controls@[control_index as int] is Table,
        PageItem::PartialTable { para_index, control_index, start_row, end_row, .. } =>
            control_index < paras[para_index as int].controls@.len() && start_row < end_row
            && paras[para_index as int].controls@[control_index as int] is Table,
        PageItem::Shape { para_index, control_index } => control_index < paras[para_index as int].controls@.len()
            && is_object_control(paras[para_index as int].controls@[control_index as int]),
    }
}

/// A control that a shape item may stand for: a drawing object, a picture,
/// an equation or a table.
pub open spec fn is_object_control(c: Control) -> bool {
    c is Shape || c is Picture || c is Equation || c is Table
}

/// Items come in paragraph order.
pub open spec fn items_ordered(s: Seq<PageItem>) -> bool {
    forall|i: int, j: int| 0 <= i < j < s.len() ==> (#[trigger] s[i]).spec_para_index() <= (#[trigger] s[j]).spec_para_index()
}

/// Items are valid, in paragraph order, and come from paragraphs before
/// `bound`.
pub open spec fn items_ok(s: Seq<PageItem>, paras: Seq<Paragraph>, bound: int) -> bool {
    &&& items_ordered(s)
    &&& forall|k: int| 0 <= k < s.len() ==> item_valid(#[trigger] s[k], paras) && s[k].spec_para_index() < bound
}

/// `new` is `old` followed by valid items of paragraph `pi`.
pub open spec fn placed_for(old: Seq<PageItem>, new: Seq<PageItem>, pi: int, paras: Seq<Paragraph>) -> bool {
    &&& old.is_prefix_of(new)
    &&& forall|k: int| old.len() <= k < new.len() ==> (#[trigger] new[k]).spec_para_index() == pi && item_valid(new[k], paras)
}

/// The items placed between two states of the splitter.
pub open spec fn new_items(old: &PaginationState, new: &PaginationState) -> Seq<PageItem> {
    new.all_items().subrange(old.all_items().len() as int, new.all_items().len() as int)
}

/// A wrap-around paragraph comes after the paragraph of its table, and
/// before `bound`.
pub open spec fn wraps_ok(ws: Seq<WrapAroundPara>, bound: int) -> bool {
    forall|k: int| 0 <= k < ws.len() ==> (#[trigger] ws[k]).table_para_index < ws[k].para_index && ws[k].para_index < bound
}

/// What one step of the splitter for paragraph `pi` does to the state: it
/// places items of that paragraph after those placed before, keeps the
/// wrap-around paragraphs, and keeps the pages of the section; unless the
/// paragraph starts a multi-column zone, it also keeps the number of
/// columns and the order of the columns.
pub open spec fn stepped(old: &PaginationState, new: &PaginationState, pi: int, paras: Seq<Paragraph>) -> bool {
    &&& step_kept(old, new, pi, paras)
    &&& (0 <= pi < paras.len() && paras[pi].column_type != ColumnBreakType::MultiColumn ==> cols_kept(old, new))
}

/// What every step of the splitter for paragraph `pi` keeps, a step that
/// starts a multi-column zone too.
pub open spec fn step_kept(old: &PaginationState, new: &PaginationState, pi: int, paras: Seq<Paragraph>) -> bool {
    &&& new.wf()
    &&& placed_for(old.all_items(), new.all_items(), pi, paras)
    &&& new.all_wraps() == old.all_wraps()
    &&& wraps_kept(old, new)
    &&& footnotes_kept(old, new)
    &&& old.pages@.len() <= new.pages@.len()
    &&& (old.pages_ok() ==> new.pages_ok())
    &&& new.section_index == old.section_index
}

pub proof fn lemma_placed_refl(s: Seq<PageItem>, pi: int, paras: Seq<Paragraph>)
    ensures
        placed_for(s, s, pi, paras),
{
    assert(s.is_prefix_of(s));
}

pub proof fn lemma_placed_push(old: Seq<PageItem>, mid: Seq<PageItem>, x: PageItem, pi: int, paras: Seq<Paragraph>)
    requires
        placed_for(old, mid, pi, paras),
        x.spec_para_index() == pi,
        item_valid(x, paras),
    ensures
        placed_for(old, mid.push(x), pi, paras),
{
    assert forall|k: int| old.len() <= k < mid.push(x).len() implies (#[trigger] mid.push(x)[k]).spec_para_index() == pi && item_valid(mid.push(x)[k], paras) by {
        if k < mid.len() {
            assert(mid.push(x)[k] == mid[k]);
        }
    }
    assert forall|k: int| 0 <= k < old.len() implies old[k] == #[trigger] mid.push(x)[k] by {
        assert(old[k] == mid[k]);
    }
}

pub proof fn lemma_placed_trans(a: Seq<PageItem>, b: Seq<PageItem>, c: Seq<PageItem>, pi: int, paras: Seq<Paragraph>)
    requires
        placed_for(a, b, pi, paras),
        placed_for(b, c, pi, paras),
    ensures
        placed_for(a, c, pi, paras),
{
    assert forall|k: int| a.len() <= k < c.len() implies (#[trigger] c[k]).spec_para_index() == pi && item_valid(c[k], paras) by {
        if k < b.len() {
            assert(c[k] == b[k]);
        }
    }
    assert forall|k: int| 0 <= k < a.len() implies a[k] == #[trigger] c[k] by {
        assert(a[k] == b[k]);
    }
}

pub proof fn lemma_stepped_refl(s: &PaginationState, pi: int, paras: Seq<Paragraph>)
    requires
        s.wf(),
    ensures
        stepped(s, s, pi, paras),
{
    lemma_placed_refl(s.all_items(), pi, paras);
}

pub proof fn lemma_stepped_trans(a: &PaginationState, b: &PaginationState, c: &PaginationState, pi: int, paras: Seq<Paragraph>)
    requires
        stepped(a, b, pi, paras),
        stepped(b, c, pi, paras),
    ensures
        stepped(a, c, pi, paras),
{
    lemma_placed_trans(a.all_items(), b.all_items(), c.all_items(), pi, paras);
}

/// Items placed for paragraph `pi` after items that all come before it keep
/// the items in order.
pub proof fn lemma_placed_items_ok(old: Seq<PageItem>, new: Seq<PageItem>, pi: int, paras: Seq<Paragraph>)
    requires
        items_ok(old, paras, pi + 1),
        placed_for(old, new, pi, paras),
    ensures
        items_ok(new, paras, pi + 1),
{
    assert forall|k: int| 0 <= k < new.len() implies item_valid(#[trigger] new[k], paras) && new[k].spec_para_index() < pi + 1 by {
        if k < old.len() {
            assert(new[k] == old[k]);
        }
    }
    assert forall|i: int, j: int| 0 <= i < j < new.len() implies (#[trigger] new[i]).spec_para_index() <= (#[trigger] new[j]).spec_para_index() by {
        if j < old.len() {
            assert(new[i] == old[i]);
            assert(new[j] == old[j]);
        } else if i < old.len() {
            assert(new[i] == old[i]);
        }
    }
}

pub proof fn lemma_wraps_prefix(a: Seq<WrapAroundPara>, b: Seq<WrapAroundPara>, bound: int)
    requires
        wraps_ok(a, bound),
        b.is_prefix_of(a),
    ensures
        wraps_ok(b, bound),
{
    assert forall|k: int| 0 <= k < b.len() implies (#[trigger] b[k]).table_para_index < b[k].para_index && b[k].para_index < bound by {
        assert(b[k] == a[k]);
    }
}

/// A step that keeps the placed items.
pub proof fn lemma_step_same(old: &PaginationState, new: &PaginationState, pi: int, paras: Seq<Paragraph>)
    requires
        new.wf(),
        new.all_items() == old.all_items(),
        new.all_wraps() == old.all_wraps(),
        wraps_kept(old, new),
        footnotes_kept(old, new),
        old.pages@.len() <= new.pages@.len(),
        old.pages_ok() ==> new.pages_ok(),
        new.section_index == old.section_index,
        cols_kept(old, new),
    ensures
        stepped(old, new, pi, paras),
{
    lemma_placed_refl(old.all_items(), pi, paras);
}

/// A step that keeps the placed items, for a paragraph that starts a
/// multi-column zone.
pub proof fn lemma_step_same_multicolumn(old: &PaginationState, new: &PaginationState, pi: int, paras: Seq<Paragraph>)
    requires
        new.wf(),
        new.all_items() == old.all_items(),
        new.all_wraps() == old.all_wraps(),
        wraps_kept(old, new),
        footnotes_kept(old, new),
        old.pages@.len() <= new.pages@.len(),
        old.pages_ok() ==> new.pages_ok(),
        new.section_index == old.section_index,
    ensures
        step_kept(old, new, pi, paras),
        0 <= pi < paras.len() && paras[pi].column_type == ColumnBreakType::MultiColumn ==> stepped(old, new, pi, paras),
{
    lemma_placed_refl(old.all_items(), pi, paras);
}

/// A step that places one valid item of paragraph `pi`.
pub proof fn lemma_step_push(old: &PaginationState, new: &PaginationState, x: PageItem, pi: int, paras: Seq<Paragraph>)
    requires
        new.wf(),
        new.all_items() == old.all_items().push(x),
        x.spec_para_index() == pi,
        item_valid(x, paras),
        new.all_wraps() == old.all_wraps(),
        wraps_kept(old, new),
        footnotes_kept(old, new),
        old.pages@.len() <= new.pages@.len(),
        old.pages_ok() ==> new.pages_ok(),
        new.section_index == old.section_index,
        cols_kept(old, new),
    ensures
        stepped(old, new, pi, paras),
{
    lemma_placed_refl(old.all_items(), pi, paras);
    lemma_placed_push(old.all_items(), old.all_items(), x, pi, paras);
}

} // verus!
