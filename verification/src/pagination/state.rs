//! The mutable state of the page splitter while it walks a section.

use vstd::prelude::*;
use std::collections::HashMap;
use crate::model::PageLayoutInfo;
use crate::units::{len_ok, clamp_len, clamp_len_exec, len_room, len_add, len_max, max_int, SUBPX_PER_PX};
use super::types::{FootnoteRef, page_footnotes, lemma_same_footnotes, lemma_page_footnotes_push, lemma_same_columns, PageItem, PageContent, ColumnContent, WrapAroundPara, page_items, column_items, page_wraps, column_wraps, is_blank_page, lemma_column_items_push, lemma_page_items_push};

verus! {

broadcast use vstd::std_specs::hash::group_hash_axioms;

/// How often per page the overflow check may hold back the last line item
/// before it gives up (a guard against endless looping).
pub const DEFENSE_MAX_PER_PAGE: u32 = 100;

/// Everything the page splitter changes while it walks the paragraphs of a
/// section. Lengths are sub-pixels.
pub struct PaginationState {
    pub pages: Vec<PageContent>,
    pub current_items: Vec<PageItem>,
    pub current_height: i64,
    pub current_column: u16,
    pub current_footnote_height: i64,
    pub is_first_footnote_on_page: bool,
    pub col_count: u16,
    pub layout: PageLayoutInfo,
    pub current_zone_y_offset: i64,
    pub current_zone_layout: Option<PageLayoutInfo>,
    pub on_first_multicolumn_page: bool,
    pub section_index: usize,
    pub footnote_separator_overhead: i64,
    pub footnote_safety_margin: i64,
    /// Paragraphs placed beside a wrap-around table in the current column.
    pub current_column_wrap_around_paras: Vec<WrapAroundPara>,
    /// Vertical position (HWP units) of the first line on the current page.
    pub page_vpos_base: Option<i32>,
    /// Whether the current page holds a table placed as a block.
    pub page_has_block_table: bool,
    /// How often the overflow check fired, by page index.
    pub defense_counts: HashMap<usize, u32>,
    /// An item taken off the end of a full column, to be put back at the
    /// start of the next one.
    pub overflow_carry: Option<PageItem>,
    /// Set while the splitter itself moves to the next column, so that the
    /// overflow check does not move an item as well.
    pub layer1_advancing: bool,
}

/// The columns of a page come in increasing column order, each below
/// `n`, the number of columns.
pub open spec fn page_columns_ok(cols: Seq<ColumnContent>, n: int) -> bool {
    &&& forall|j: int| 0 <= j < cols.len() ==> (#[trigger] cols[j]).column_index < n
    &&& forall|j: int, k: int| 0 <= j < k < cols.len() ==> (#[trigger] cols[j]).column_index < (#[trigger] cols[k]).column_index
}

/// The place of the current column in the section: its number among all
/// the columns of the pages so far, each page counted with the state's
/// number of columns (the current page, the last one, not counted yet).
pub open spec fn column_position(s: &PaginationState) -> int {
    (if s.pages@.len() == 0 { 0 } else { s.pages@.len() - 1 }) * (s.col_count as int) + s.current_column
}

proof fn lemma_next_page_position(n: int, c: int)
    requires
        n >= 1,
        c >= 1,
    ensures
        n * c == (n - 1) * c + (c - 1) + 1,
{
    assert(n * c == (n - 1) * c + c) by (nonlinear_arith);
}

/// A step keeps the number of columns and the page layout, and keeps the
/// columns in order.
pub open spec fn cols_kept(old: &PaginationState, new: &PaginationState) -> bool {
    &&& new.col_count == old.col_count
    &&& new.layout == old.layout
    &&& old.columns_ok() ==> new.columns_ok()
}

/// Column `c` holds the current column of `s`: its index, items, zone and
/// wrap-around paragraphs.
pub open spec fn holds_current_column(c: ColumnContent, s: &PaginationState) -> bool {
    &&& c.column_index == s.current_column
    &&& c.items@ == s.current_items@
    &&& c.zone_layout == s.current_zone_layout
    &&& c.zone_y_offset == s.current_zone_y_offset
    &&& c.wrap_around_paras@ == s.current_column_wrap_around_paras@
}

/// `new` as `old` with the current column flushed to the last page: the
/// state changes that `flush_column` makes when there is something to flush.
pub open spec fn column_flushed(old: &PaginationState, new: &PaginationState) -> bool {
    let col_ok = |c: ColumnContent|
        c.column_index == old.current_column
        && c.items@ == old.current_items@
        && c.zone_layout == old.current_zone_layout
        && c.zone_y_offset == old.current_zone_y_offset
        && c.wrap_around_paras@ == old.current_column_wrap_around_paras@;
    &&& new.current_items@.len() == 0
    &&& new.current_column_wrap_around_paras@.len() == 0
    &&& if old.pages@.len() > 0 {
        let last = new.pages@.last();
        let old_last = old.pages@.last();
        &&& new.pages@.len() == old.pages@.len()
        &&& new.pages@.drop_last() == old.pages@.drop_last()
        &&& last.column_contents@.len() == old_last.column_contents@.len() + 1
        &&& last.column_contents@.drop_last() == old_last.column_contents@
        &&& col_ok(last.column_contents@.last())
        &&& last.page_index == old_last.page_index
        &&& last.page_number == old_last.page_number
        &&& last.section_index == old_last.section_index
        &&& last.layout == old_last.layout
        &&& last.active_header == old_last.active_header
        &&& last.active_footer == old_last.active_footer
        &&& last.page_number_pos == old_last.page_number_pos
        &&& last.page_hide == old_last.page_hide
        &&& last.footnotes@ == old_last.footnotes@
    } else {
        &&& new.pages@.len() == 1
        &&& is_blank_page(new.pages@[0], 0, old.section_index, old.layout)
        &&& new.pages@[0].column_contents@.len() == 1
        &&& col_ok(new.pages@[0].column_contents@[0])
    }
    &&& new.same_cursor(old)
}

/// `new` as `old` with a blank page appended and the page cursor reset:
/// the state changes that starting a new page makes.
pub open spec fn page_started(old: &PaginationState, new: &PaginationState) -> bool {
    &&& new.pages@.len() == old.pages@.len() + 1
    &&& new.pages@.drop_last() == old.pages@
    &&& is_blank_page(new.pages@.last(), old.pages@.len() as int, old.section_index, old.layout)
    &&& new.pages@.last().column_contents@.len() == 0
    &&& new.current_items@ == old.current_items@
    &&& new.current_column == 0
    &&& new.current_height == 0
    &&& new.current_footnote_height == 0
    &&& new.is_first_footnote_on_page
    &&& new.page_vpos_base is None
    &&& !new.page_has_block_table
    &&& new.current_zone_y_offset == 0
    &&& new.current_zone_layout is None
    &&& !new.on_first_multicolumn_page
    &&& new.current_column_wrap_around_paras@.len() == 0
    &&& new.same_settings(old)
}

/// The current column's wrap-around paragraphs are gone (moved onto a page
/// with their column, or dropped with an empty one), or kept along with the
/// items on the pages.
pub open spec fn wraps_kept(old: &PaginationState, new: &PaginationState) -> bool {
    new.current_column_wrap_around_paras@.len() == 0 || (
        new.current_column_wrap_around_paras@ == old.current_column_wrap_around_paras@
        && page_items(new.pages@) == page_items(old.pages@))
}

/// The footnotes recorded on the pages are kept, in order; new ones may
/// follow them.
pub open spec fn footnotes_kept(old: &PaginationState, new: &PaginationState) -> bool {
    let a = page_footnotes(old.pages@);
    let b = page_footnotes(new.pages@);
    &&& a.len() <= b.len()
    &&& forall|i: int| 0 <= i < a.len() ==> #[trigger] b[i] == a[i]
}

/// The state changes of `check_last_item_overflow`: when no item is carried
/// yet and the last current item is a paragraph item that makes the column
/// taller than the available height (with half a pixel of tolerance), the
/// check is counted for the current page, and, unless it has now fired more
/// than `DEFENSE_MAX_PER_PAGE` times there, the item is taken off into the
/// carry. Otherwise nothing changes.
pub open spec fn overflow_checked(old: &PaginationState, new: &PaginationState) -> bool {
    let fires = old.overflow_carry is None
        && old.current_items@.len() > 0
        && old.current_items@.last().is_paragraph_item()
        && old.current_height > old.spec_available_height() + SUBPX_PER_PX / 2;
    let page = old.pages@.len() as usize;
    let count = if old.defense_counts@.contains_key(page) { old.defense_counts@[page] + 1 } else { 1int };
    if fires {
        &&& new.defense_counts@ == old.defense_counts@.insert(page, count as u32)
        &&& if count > DEFENSE_MAX_PER_PAGE {
            &&& new.current_items@ == old.current_items@
            &&& new.overflow_carry == old.overflow_carry
        } else {
            &&& new.current_items@ == old.current_items@.drop_last()
            &&& new.overflow_carry == Some(old.current_items@.last())
        }
        &&& new.pages@ == old.pages@
        &&& new.same_cursor_but_height(old)
        &&& new.current_height == old.current_height
        &&& new.current_column_wrap_around_paras@ == old.current_column_wrap_around_paras@
    } else {
        new.unchanged(old)
    }
}

/// The state changes of `add_footnote_height`: the footnote area grows by
/// `height`, and first by the separator line when this is the page's first
/// footnote.
pub open spec fn footnote_added(old: &PaginationState, new: &PaginationState, height: i64) -> bool {
    &&& new.current_footnote_height == (if old.is_first_footnote_on_page {
        clamp_len(clamp_len(old.current_footnote_height + old.footnote_separator_overhead) + height)
    } else {
        clamp_len(old.current_footnote_height + height)
    })
    &&& !new.is_first_footnote_on_page
    &&& new.pages@ == old.pages@
    &&& new.current_items@ == old.current_items@
    &&& new.current_column_wrap_around_paras@ == old.current_column_wrap_around_paras@
    &&& new.current_height == old.current_height
    &&& new.current_column == old.current_column
    &&& new.current_zone_y_offset == old.current_zone_y_offset
    &&& new.current_zone_layout == old.current_zone_layout
    &&& new.on_first_multicolumn_page == old.on_first_multicolumn_page
    &&& new.page_vpos_base == old.page_vpos_base
    &&& new.page_has_block_table == old.page_has_block_table
    &&& new.same_settings(old)
}

/// The state changes of `reinsert_carry_with_height`: a carried item is put
/// back at the end of the current items and the column grows by `height`.
pub open spec fn carry_reinserted(old: &PaginationState, new: &PaginationState, height: i64) -> bool {
    match old.overflow_carry {
        Some(item) => {
            &&& new.current_items@ == old.current_items@.push(item)
            &&& new.overflow_carry is None
            &&& new.current_height == clamp_len(old.current_height + height)
            &&& new.pages@ == old.pages@
            &&& new.current_column_wrap_around_paras@ == old.current_column_wrap_around_paras@
            &&& new.defense_counts@ == old.defense_counts@
            &&& new.same_cursor_but_height(old)
        },
        None => new.unchanged(old),
    }
}

/// After the current column is flushed, every page's columns are still in
/// order, and those of the last page reach at most the current column.
pub proof fn lemma_flush_columns(s0: &PaginationState, s1: &PaginationState)
    requires
        s0.columns_ok(),
        column_flushed(s0, s1),
        s1.col_count == s0.col_count,
    ensures
        forall|i: int| 0 <= i < s1.pages@.len() ==> page_columns_ok((#[trigger] s1.pages@[i]).column_contents@, s1.col_count as int),
        s1.pages@.len() > 0,
        forall|j: int| 0 <= j < s1.pages@.last().column_contents@.len()
            ==> (#[trigger] s1.pages@.last().column_contents@[j]).column_index <= s0.current_column,
{
    let n = s1.col_count as int;
    if s0.pages@.len() > 0 {
        let last = s1.pages@.last();
        let cols = last.column_contents@;
        let oc = s0.pages@.last().column_contents@;
        assert(page_columns_ok(oc, n));
        assert forall|j: int| 0 <= j < cols.len() implies (#[trigger] cols[j]).column_index < n && cols[j].column_index <= s0.current_column by {
            if j < oc.len() {
                assert(cols[j] == oc[j]);
            }
        }
        assert forall|j: int, k: int| 0 <= j < k < cols.len() implies (#[trigger] cols[j]).column_index < (#[trigger] cols[k]).column_index by {
            assert(cols[j] == oc[j]);
            if k < oc.len() {
                assert(cols[k] == oc[k]);
            }
        }
        assert forall|i: int| 0 <= i < s1.pages@.len() implies page_columns_ok((#[trigger] s1.pages@[i]).column_contents@, n) by {
            if i < s1.pages@.len() - 1 {
                assert(s1.pages@[i] == s1.pages@.drop_last()[i]);
                assert(s0.pages@[i] == s0.pages@.drop_last()[i]);
            }
        }
    }
}

/// Starting a new page after the columns are in order keeps them in
/// order: the new page has no columns yet.
proof fn lemma_new_page_columns(s1: &PaginationState, s2: &PaginationState, cur_bound: int)
    requires
        forall|i: int| 0 <= i < s1.pages@.len() ==> page_columns_ok((#[trigger] s1.pages@[i]).column_contents@, s1.col_count as int),
        page_started(s1, s2),
        cur_bound < s1.col_count,
        0 <= cur_bound,
    ensures
        s2.columns_ok(),
{
    assert forall|i: int| 0 <= i < s2.pages@.len() implies page_columns_ok((#[trigger] s2.pages@[i]).column_contents@, s2.col_count as int) by {
        if i < s1.pages@.len() {
            assert(s2.pages@[i] == s2.pages@.drop_last()[i]);
        }
    }
}

impl PaginationState {
    /// The lengths the state holds are within range, and the column index
    /// can be advanced.
    pub open spec fn wf(&self) -> bool {
        &&& len_ok(self.current_height as int)
        &&& len_ok(self.current_footnote_height as int)
        &&& len_ok(self.current_zone_y_offset as int)
        &&& len_ok(self.footnote_separator_overhead as int)
        &&& len_ok(self.footnote_safety_margin as int)
        &&& len_ok(self.layout.available_body_height as int)
        &&& self.current_column < u16::MAX
    }

    /// The current column is one of the state's columns, outside the first
    /// page of a multi-column zone; the columns of every page come in
    /// increasing order, and those of the last page before the current one.
    pub open spec fn columns_ok(&self) -> bool {
        &&& self.current_column < self.col_count
        &&& !self.on_first_multicolumn_page
        &&& forall|i: int| 0 <= i < self.pages@.len() ==> page_columns_ok((#[trigger] self.pages@[i]).column_contents@, self.col_count as int)
        &&& self.pages@.len() > 0 ==> forall|j: int| 0 <= j < self.pages@.last().column_contents@.len()
            ==> (#[trigger] self.pages@.last().column_contents@[j]).column_index < self.current_column
    }

    /// All items placed so far, in order: those on the pages, then those of
    /// the current column.
    pub open spec fn all_items(&self) -> Seq<PageItem> {
        page_items(self.pages@) + self.current_items@
    }

    /// All wrap-around paragraphs recorded so far, in order.
    pub open spec fn all_wraps(&self) -> Seq<WrapAroundPara> {
        page_wraps(self.pages@) + self.current_column_wrap_around_paras@
    }

    /// Every page belongs to the state's section and hides nothing yet.
    pub open spec fn pages_ok(&self) -> bool {
        forall|i: int| 0 <= i < self.pages@.len() ==> {
            &&& (#[trigger] self.pages@[i]).section_index == self.section_index
            &&& self.pages@[i].page_hide is None
        }
    }

    /// The fields that only the caller's settings change.
    pub open spec fn same_settings(&self, old: &PaginationState) -> bool {
        &&& self.col_count == old.col_count
        &&& self.layout == old.layout
        &&& self.section_index == old.section_index
        &&& self.footnote_separator_overhead == old.footnote_separator_overhead
        &&& self.footnote_safety_margin == old.footnote_safety_margin
        &&& self.defense_counts@ == old.defense_counts@
        &&& self.overflow_carry == old.overflow_carry
        &&& self.layer1_advancing == old.layer1_advancing
    }

    /// Same position on the page, apart from the current height.
    pub open spec fn same_cursor_but_height(&self, old: &PaginationState) -> bool {
        &&& self.current_column == old.current_column
        &&& self.current_footnote_height == old.current_footnote_height
        &&& self.is_first_footnote_on_page == old.is_first_footnote_on_page
        &&& self.current_zone_y_offset == old.current_zone_y_offset
        &&& self.current_zone_layout == old.current_zone_layout
        &&& self.on_first_multicolumn_page == old.on_first_multicolumn_page
        &&& self.page_vpos_base == old.page_vpos_base
        &&& self.page_has_block_table == old.page_has_block_table
        &&& self.col_count == old.col_count
        &&& self.layout == old.layout
        &&& self.section_index == old.section_index
        &&& self.footnote_separator_overhead == old.footnote_separator_overhead
        &&& self.footnote_safety_margin == old.footnote_safety_margin
        &&& self.layer1_advancing == old.layer1_advancing
    }

    /// Same position on the page and same settings.
    pub open spec fn same_cursor(&self, old: &PaginationState) -> bool {
        &&& self.same_cursor_but_height(old)
        &&& self.current_height == old.current_height
        &&& self.defense_counts@ == old.defense_counts@
        &&& self.overflow_carry == old.overflow_carry
    }

    /// Nothing observable changed.
    pub open spec fn unchanged(&self, old: &PaginationState) -> bool {
        &&& self.pages@ == old.pages@
        &&& self.current_items@ == old.current_items@
        &&& self.current_column_wrap_around_paras@ == old.current_column_wrap_around_paras@
        &&& self.same_cursor(old)
    }

    /// Height left for the body: the page body height less the footnote area,
    /// the footnote safety margin (when there are footnotes) and the offset
    /// of the current column zone, and never below zero.
    pub open spec fn spec_available_height(&self) -> int {
        let fn_margin = if self.current_footnote_height > 0 { self.footnote_safety_margin as int } else { 0 };
        clamp_len(max_int(
            0,
            self.layout.available_body_height - self.current_footnote_height - fn_margin
                - self.current_zone_y_offset,
        ))
    }

    /// A state at the start of a section: no pages, nothing placed, first
    /// column.
    pub fn new(
        layout: PageLayoutInfo,
        col_count: u16,
        section_index: usize,
        footnote_separator_overhead: i64,
        footnote_safety_margin: i64,
    ) -> (s: Self)
        requires
            len_ok(layout.available_body_height as int),
            len_ok(footnote_separator_overhead as int),
            len_ok(footnote_safety_margin as int),
        ensures
            s.wf(),
            s.pages@.len() == 0,
            s.current_items@.len() == 0,
            s.current_height == 0,
            s.current_column == 0,
            s.current_footnote_height == 0,
            s.is_first_footnote_on_page,
            s.col_count == col_count,
            s.layout == layout,
            s.current_zone_y_offset == 0,
            s.current_zone_layout is None,
            !s.on_first_multicolumn_page,
            s.section_index == section_index,
            s.footnote_separator_overhead == footnote_separator_overhead,
            s.footnote_safety_margin == footnote_safety_margin,
            s.current_column_wrap_around_paras@.len() == 0,
            s.page_vpos_base is None,
            !s.page_has_block_table,
            s.defense_counts@ == Map::<usize, u32>::empty(),
            s.overflow_carry is None,
            !s.layer1_advancing,
    {
        PaginationState {
            pages: Vec::new(),
            current_items: Vec::new(),
            current_height: 0,
            current_column: 0,
            current_footnote_height: 0,
            is_first_footnote_on_page: true,
            col_count,
            layout,
            current_zone_y_offset: 0,
            current_zone_layout: None,
            on_first_multicolumn_page: false,
            section_index,
            footnote_separator_overhead,
            footnote_safety_margin,
            current_column_wrap_around_paras: Vec::new(),
            page_vpos_base: None,
            page_has_block_table: false,
            defense_counts: HashMap::new(),
            overflow_carry: None,
            layer1_advancing: false,
        }
    }

    /// A blank page with the given columns, numbered after the existing pages.
    fn new_page_content(&self, column_contents: Vec<ColumnContent>) -> (p: PageContent)
        ensures
            is_blank_page(p, self.pages@.len() as int, self.section_index, self.layout),
            p.column_contents@ == column_contents@,
    {
        PageContent {
            page_index: self.pages.len() as u32,
            page_number: 0,
            section_index: self.section_index,
            layout: self.layout,
            column_contents,
            active_header: None,
            active_footer: None,
            page_number_pos: None,
            page_hide: None,
            footnotes: Vec::new(),
        }
    }

    /// Takes the current items and wrap-around paragraphs into a column of
    /// the last page (a new first page where there is none), even if the
    /// column is empty.
    pub fn flush_column_always(&mut self)
        requires
            old(self).wf(),
        ensures
            page_footnotes(final(self).pages@) == page_footnotes(old(self).pages@),
            footnotes_kept(&*old(self), &*final(self)),
            wraps_kept(&*old(self), &*final(self)),
            final(self).wf(),
            column_flushed(&*old(self), &*final(self)),
            final(self).all_items() == old(self).all_items(),
            final(self).all_wraps() == old(self).all_wraps(),
            old(self).pages_ok() ==> final(self).pages_ok(),
            final(self).current_zone_layout == old(self).current_zone_layout,
    {
        let mut items: Vec<PageItem> = Vec::new();
        std::mem::swap(&mut items, &mut self.current_items);
        let mut wraps: Vec<WrapAroundPara> = Vec::new();
        std::mem::swap(&mut wraps, &mut self.current_column_wrap_around_paras);
        let col_content = ColumnContent {
            column_index: self.current_column,
            items,
            zone_layout: self.current_zone_layout,
            zone_y_offset: self.current_zone_y_offset,
            wrap_around_paras: wraps,
        };
        let ghost col_items_seq = col_content.items@;
        let n = self.pages.len();
        if n > 0 {
            let ghost old_pages = self.pages@;
            let mut page = self.pages.pop().unwrap();
            let ghost old_cols = page.column_contents@;
            page.column_contents.push(col_content);
            proof {
                lemma_column_items_push(old_cols, col_content);
            }
            self.pages.push(page);
            proof {
                assert(old_pages == self.pages@.drop_last().push(old_pages.last()));
                lemma_page_items_push(self.pages@.drop_last(), old_pages.last());
                lemma_page_items_push(self.pages@.drop_last(), page);
                assert(self.pages@.drop_last().push(page) =~= self.pages@);
                assert(self.pages@.drop_last() =~= old_pages.drop_last());
                assert(page.column_contents@.drop_last() =~= old_cols);
                assert(page.column_contents@.last() == col_content);
                assert(col_content.items@ == old(self).current_items@);
                assert forall|i: int| 0 <= i < old_pages.len() implies (#[trigger] old_pages[i]).footnotes@ == self.pages@[i].footnotes@ by {
                    if i < old_pages.len() - 1 {
                        assert(old_pages[i] == old_pages.drop_last()[i]);
                        assert(self.pages@[i] == self.pages@.drop_last()[i]);
                    }
                }
                super::types::lemma_same_footnotes(old_pages, self.pages@);
            }
        } else {
            let mut cols: Vec<ColumnContent> = Vec::new();
            cols.push(col_content);
            let page = self.new_page_content(cols);
            self.pages.push(page);
            proof {
                lemma_column_items_push(Seq::empty(), col_content);
                assert(Seq::<ColumnContent>::empty().push(col_content) =~= page.column_contents@);
                lemma_page_items_push(Seq::empty(), page);
                assert(Seq::<PageContent>::empty().push(page) =~= self.pages@);
                super::types::lemma_page_footnotes_push(Seq::empty(), page);
                assert(page_footnotes(self.pages@) =~= page_footnotes(old(self).pages@));
            }
        }
        proof {
            assert(self.all_items() =~= old(self).all_items());
            assert(self.all_wraps() =~= old(self).all_wraps());
            if old(self).pages_ok() {
                assert forall|i: int| 0 <= i < self.pages@.len() implies {
                    &&& (#[trigger] self.pages@[i]).section_index == self.section_index
                    &&& self.pages@[i].page_hide is None
                } by {
                    if i < self.pages@.len() - 1 {
                        assert(self.pages@[i] == self.pages@.drop_last()[i]);
                        assert(old(self).pages@[i] == old(self).pages@.drop_last()[i]);
                    }
                }
            }
        }
    }

    /// Like `flush_column_always`, but does nothing when there are no
    /// current items.
    pub fn flush_column(&mut self)
        requires
            old(self).wf(),
        ensures
            page_footnotes(final(self).pages@) == page_footnotes(old(self).pages@),
            footnotes_kept(&*old(self), &*final(self)),
            wraps_kept(&*old(self), &*final(self)),
            final(self).wf(),
            old(self).current_items@.len() == 0 ==> final(self).unchanged(&*old(self)),
            old(self).current_items@.len() > 0 ==> column_flushed(&*old(self), &*final(self)),
            final(self).all_items() == old(self).all_items(),
            final(self).all_wraps() == old(self).all_wraps(),
            old(self).pages_ok() ==> final(self).pages_ok(),
            final(self).current_items@.len() == 0,
            final(self).current_zone_layout == old(self).current_zone_layout,
    {
        if self.current_items.is_empty() {
            return;
        }
        self.flush_column_always();
    }

    /// Resets the page cursor for a new page.
    fn reset_for_new_page(&mut self)
        requires
            old(self).wf(),
        ensures
            page_footnotes(final(self).pages@) == page_footnotes(old(self).pages@),
            final(self).wf(),
            final(self).pages@ == old(self).pages@,
            final(self).current_items@ == old(self).current_items@,
            final(self).current_column == 0,
            final(self).current_height == 0,
            final(self).current_footnote_height == 0,
            final(self).is_first_footnote_on_page,
            final(self).page_vpos_base is None,
            !final(self).page_has_block_table,
            final(self).current_zone_y_offset == 0,
            final(self).current_zone_layout is None,
            !final(self).on_first_multicolumn_page,
            final(self).current_column_wrap_around_paras@.len() == 0,
            final(self).same_settings(&*old(self)),
    {
        self.current_column = 0;
        self.current_height = 0;
        self.current_footnote_height = 0;
        self.is_first_footnote_on_page = true;
        self.page_vpos_base = None;
        self.page_has_block_table = false;
        self.current_zone_y_offset = 0;
        self.current_zone_layout = None;
        self.on_first_multicolumn_page = false;
        self.current_column_wrap_around_paras.clear();
    }

    /// Appends a blank page and resets the cursor.
    fn push_new_page(&mut self)
        requires
            old(self).wf(),
        ensures
            page_footnotes(final(self).pages@) == page_footnotes(old(self).pages@),
            footnotes_kept(&*old(self), &*final(self)),
            wraps_kept(&*old(self), &*final(self)),
            final(self).wf(),
            page_started(&*old(self), &*final(self)),
            final(self).all_items() == old(self).all_items(),
            final(self).all_wraps().is_prefix_of(old(self).all_wraps()),
            old(self).current_column_wrap_around_paras@.len() == 0 ==> final(self).all_wraps() == old(self).all_wraps(),
            old(self).pages_ok() ==> final(self).pages_ok(),
    {
        let page = self.new_page_content(Vec::new());
        let ghost old_pages = self.pages@;
        self.pages.push(page);
        self.reset_for_new_page();
        proof {
            lemma_page_items_push(old_pages, page);
            assert(column_items(page.column_contents@) =~= Seq::empty());
            assert(self.all_items() =~= old(self).all_items());
            assert(self.pages@.drop_last() =~= old_pages);
            assert(column_wraps(page.column_contents@) =~= Seq::empty());
            assert(self.all_wraps() =~= page_wraps(old_pages));
            if old(self).pages_ok() {
                assert forall|i: int| 0 <= i < self.pages@.len() implies {
                    &&& (#[trigger] self.pages@[i]).section_index == self.section_index
                    &&& self.pages@[i].page_hide is None
                } by {
                    if i < old_pages.len() {
                        assert(self.pages@[i] == old_pages[i]);
                    }
                }
            }
        }
    }

    /// Flushes the current column, then moves to the next column, or to a
    /// new page after the last column.
    pub fn advance_column_or_new_page(&mut self)
        requires
            old(self).wf(),
        ensures
            page_footnotes(final(self).pages@) == page_footnotes(old(self).pages@),
            cols_kept(&*old(self), &*final(self)),
            footnotes_kept(&*old(self), &*final(self)),
            wraps_kept(&*old(self), &*final(self)),
            final(self).wf(),
            final(self).all_items() == old(self).all_items(),
            final(self).current_items@.len() == 0,
            final(self).current_height == 0,
            ({
                let mid_pages = if old(self).current_items@.len() == 0 { old(self).pages@.len() }
                    else if old(self).pages@.len() == 0 { 1 } else { old(self).pages@.len() };
                if old(self).current_column + 1 < old(self).col_count {
                    &&& final(self).current_column == old(self).current_column + 1
                    &&& final(self).pages@.len() == mid_pages
                    &&& final(self).current_footnote_height == old(self).current_footnote_height
                    &&& final(self).current_zone_y_offset == old(self).current_zone_y_offset
                    &&& final(self).current_zone_layout == old(self).current_zone_layout
                    &&& final(self).page_vpos_base == old(self).page_vpos_base
                } else {
                    &&& final(self).current_column == 0
                    &&& final(self).pages@.len() == mid_pages + 1
                    &&& final(self).current_footnote_height == 0
                    &&& final(self).current_zone_y_offset == 0
                    &&& final(self).current_zone_layout is None
                    &&& final(self).page_vpos_base is None
                }
            }),
            final(self).same_settings(&*old(self)),
            final(self).all_wraps().is_prefix_of(old(self).all_wraps()),
            old(self).current_items@.len() > 0 ==> final(self).all_wraps() == old(self).all_wraps(),
            old(self).pages_ok() ==> final(self).pages_ok(),
            // The current column, when it holds items, is flushed as the
            // last column of the last page (a new first page where there was
            // none); the pages before are kept.
            old(self).current_items@.len() == 0 ==> final(self).pages@.take(old(self).pages@.len() as int) == old(self).pages@,
            old(self).current_items@.len() > 0 && old(self).pages@.len() > 0 ==> {
                let n = old(self).pages@.len() as int;
                let last = final(self).pages@[n - 1];
                &&& final(self).pages@.take(n - 1) == old(self).pages@.drop_last()
                &&& last.column_contents@.len() == old(self).pages@.last().column_contents@.len() + 1
                &&& last.column_contents@.drop_last() == old(self).pages@.last().column_contents@
                &&& holds_current_column(last.column_contents@.last(), &*old(self))
                &&& last.footnotes@ == old(self).pages@.last().footnotes@
                &&& last.page_index == old(self).pages@.last().page_index
            },
            old(self).current_items@.len() > 0 && old(self).pages@.len() == 0 ==> {
                &&& is_blank_page(final(self).pages@[0], 0, old(self).section_index, old(self).layout)
                &&& final(self).pages@[0].column_contents@.len() == 1
                &&& holds_current_column(final(self).pages@[0].column_contents@[0], &*old(self))
            },
            // Next column: the page's footnote state stays. New page: a blank
            // page whose index is the page count less one.
            old(self).current_column + 1 < old(self).col_count
                ==> final(self).is_first_footnote_on_page == old(self).is_first_footnote_on_page,
            // Moving on from a column that holds items, or once there is a
            // page, goes to the next column position.
            old(self).current_column < old(self).col_count && (old(self).current_items@.len() > 0 || old(self).pages@.len() > 0)
                ==> column_position(&*final(self)) == column_position(&*old(self)) + 1,
            !(old(self).current_column + 1 < old(self).col_count) ==> {
                &&& is_blank_page(final(self).pages@.last(), final(self).pages@.len() - 1, old(self).section_index, old(self).layout)
                &&& final(self).pages@.last().column_contents@.len() == 0
                &&& final(self).is_first_footnote_on_page
            },
    {
        let ghost s0 = *self;
        self.flush_column();
        let ghost s1 = *self;
        proof {
            if s0.current_items@.len() > 0 {
                assert(column_flushed(&s0, &s1));
                if s0.columns_ok() {
                    lemma_flush_columns(&s0, &s1);
                }
                if s0.pages@.len() > 0 {
                    assert(s1.pages@.take(s0.pages@.len() - 1) =~= s1.pages@.drop_last());
                }
            } else {
                assert(s1.pages@.take(s0.pages@.len() as int) =~= s0.pages@);
            }
        }
        proof {
            if s0.columns_ok() && s0.current_items@.len() == 0 {
                assert(s1.pages@ == s0.pages@);
            }
        }
        if self.current_column + 1 < self.col_count {
            self.current_column += 1;
            self.current_height = 0;
            proof {
                if s0.columns_ok() {
                    assert(self.pages@ == s1.pages@);
                    assert(self.columns_ok());
                }
            }
        } else {
            self.push_new_page();
            proof {
                if s0.columns_ok() {
                    lemma_new_page_columns(&s1, self, s0.current_column as int);
                }
                if s0.current_column < s0.col_count && (s0.current_items@.len() > 0 || s0.pages@.len() > 0) {
                    assert(s1.pages@.len() >= 1);
                    lemma_next_page_position(s1.pages@.len() as int, s0.col_count as int);
                    assert(s1.pages@.len() == (if s0.pages@.len() == 0 { 1 } else { s0.pages@.len() as int }));
                }
                assert(self.pages@.drop_last() == s1.pages@);
                assert(self.pages@.take(s1.pages@.len() as int) =~= s1.pages@);
                assert(self.pages@.take(s0.pages@.len() as int) =~= s1.pages@.take(s0.pages@.len() as int));
                if s0.current_items@.len() > 0 && s0.pages@.len() > 0 {
                    assert(self.pages@.take(s0.pages@.len() - 1) =~= s1.pages@.take(s0.pages@.len() - 1));
                    assert(self.pages@[s0.pages@.len() - 1] == s1.pages@[s0.pages@.len() - 1]);
                }
                if s0.current_items@.len() > 0 && s0.pages@.len() == 0 {
                    assert(self.pages@[0] == s1.pages@[0]);
                }
            }
        }
    }

    /// Flushes the current column and starts a new page (a page break).
    pub fn force_new_page(&mut self)
        requires
            old(self).wf(),
        ensures
            page_footnotes(final(self).pages@) == page_footnotes(old(self).pages@),
            cols_kept(&*old(self), &*final(self)),
            footnotes_kept(&*old(self), &*final(self)),
            wraps_kept(&*old(self), &*final(self)),
            final(self).wf(),
            final(self).all_items() == old(self).all_items(),
            final(self).current_items@.len() == 0,
            final(self).current_height == 0,
            final(self).current_column == 0,
            final(self).pages@.len() == 1 + (if old(self).current_items@.len() > 0 && old(self).pages@.len() == 0 { 1 } else { old(self).pages@.len() as int }),
            final(self).pages@.last().column_contents@.len() == 0,
            final(self).same_settings(&*old(self)),
            final(self).all_wraps().is_prefix_of(old(self).all_wraps()),
            old(self).current_items@.len() > 0 ==> final(self).all_wraps() == old(self).all_wraps(),
            old(self).pages_ok() ==> final(self).pages_ok(),
            // The new page starts empty: no footnote area yet, the first
            // footnote still to come, no vertical position base, no zone.
            is_blank_page(final(self).pages@.last(), final(self).pages@.len() - 1, old(self).section_index, old(self).layout),
            final(self).current_footnote_height == 0,
            final(self).is_first_footnote_on_page,
            final(self).page_vpos_base is None,
            !final(self).page_has_block_table,
            final(self).current_zone_y_offset == 0,
            final(self).current_zone_layout is None,
            !final(self).on_first_multicolumn_page,
            final(self).current_column_wrap_around_paras@.len() == 0,
    {
        let ghost s0 = *self;
        self.flush_column();
        let ghost s1 = *self;
        proof {
            if s0.columns_ok() && s0.current_items@.len() > 0 {
                lemma_flush_columns(&s0, &s1);
            }
        }
        self.push_new_page();
        proof {
            if s0.columns_ok() {
                lemma_new_page_columns(&s1, self, s0.current_column as int);
            }
        }
    }

    /// Creates the first page if there is none.
    pub fn ensure_page(&mut self)
        requires
            old(self).wf(),
        ensures
            page_footnotes(final(self).pages@) == page_footnotes(old(self).pages@),
            cols_kept(&*old(self), &*final(self)),
            footnotes_kept(&*old(self), &*final(self)),
            wraps_kept(&*old(self), &*final(self)),
            final(self).wf(),
            final(self).all_items() == old(self).all_items(),
            final(self).all_wraps() == old(self).all_wraps(),
            old(self).pages_ok() ==> final(self).pages_ok(),
            final(self).pages@.len() >= 1,
            old(self).pages@.len() > 0 ==> final(self).unchanged(&*old(self)),
            old(self).pages@.len() == 0 ==> {
                &&& final(self).pages@.len() == 1
                &&& is_blank_page(final(self).pages@[0], 0, old(self).section_index, old(self).layout)
                &&& final(self).pages@[0].column_contents@.len() == 0
                &&& final(self).current_items@ == old(self).current_items@
                &&& final(self).current_column_wrap_around_paras@ == old(self).current_column_wrap_around_paras@
                &&& final(self).same_cursor(&*old(self))
            },
    {
        if self.pages.is_empty() {
            let page = self.new_page_content(Vec::new());
            self.pages.push(page);
            proof {
                lemma_page_items_push(Seq::empty(), page);
                assert(column_items(page.column_contents@) =~= Seq::empty());
                assert(Seq::<PageContent>::empty().push(page) =~= self.pages@);
                assert(self.all_items() =~= old(self).all_items());
                assert(column_wraps(page.column_contents@) =~= Seq::empty());
                assert(self.all_wraps() =~= old(self).all_wraps());
                super::types::lemma_page_footnotes_push(Seq::empty(), page);
                assert(page_footnotes(self.pages@) =~= page_footnotes(old(self).pages@));
            }
        }
    }

    /// Height left for the body text on the current page.
    pub fn available_height(&self) -> (r: i64)
        requires
            self.wf(),
        ensures
            r == self.spec_available_height(),
            0 <= r,
            len_ok(r as int),
    {
        let base = self.layout.available_body_height;
        let fn_margin = if self.current_footnote_height > 0 { self.footnote_safety_margin } else { 0 };
        len_room(base as i128 - self.current_footnote_height as i128 - fn_margin as i128 - self.current_zone_y_offset as i128)
    }

    /// Body height of the page layout, before footnotes and zone offsets.
    pub fn base_available_height(&self) -> (r: i64)
        ensures
            r == self.layout.available_body_height,
    {
        self.layout.available_body_height
    }

    /// Adds a footnote of `height` to the current page; the first footnote on
    /// a page also adds the separator line above the footnote area.
    pub fn add_footnote_height(&mut self, height: i64)
        requires
            old(self).wf(),
            len_ok(height as int),
        ensures
            page_footnotes(final(self).pages@) == page_footnotes(old(self).pages@),
            cols_kept(&*old(self), &*final(self)),
            footnotes_kept(&*old(self), &*final(self)),
            wraps_kept(&*old(self), &*final(self)),
            final(self).wf(),
            footnote_added(&*old(self), &*final(self), height),
    {
        if self.is_first_footnote_on_page {
            self.current_footnote_height = len_add(self.current_footnote_height, self.footnote_separator_overhead);
            self.is_first_footnote_on_page = false;
        }
        self.current_footnote_height = len_add(self.current_footnote_height, height);
    }

    /// Places `item` at the end of the current column.
    pub fn push_item(&mut self, item: PageItem)
        requires
            old(self).wf(),
        ensures
            page_footnotes(final(self).pages@) == page_footnotes(old(self).pages@),
            cols_kept(&*old(self), &*final(self)),
            footnotes_kept(&*old(self), &*final(self)),
            wraps_kept(&*old(self), &*final(self)),
            final(self).wf(),
            final(self).current_items@ == old(self).current_items@.push(item),
            final(self).all_items() == old(self).all_items().push(item),
            final(self).pages@ == old(self).pages@,
            final(self).current_column_wrap_around_paras@ == old(self).current_column_wrap_around_paras@,
            final(self).all_wraps() == old(self).all_wraps(),
            final(self).same_cursor(&*old(self)),
    {
        self.current_items.push(item);
        proof {
            assert(self.all_items() =~= old(self).all_items().push(item));
        }
    }

    /// Grows the current column by `h`.
    pub fn add_height(&mut self, h: i64)
        requires
            old(self).wf(),
            len_ok(h as int),
        ensures
            page_footnotes(final(self).pages@) == page_footnotes(old(self).pages@),
            cols_kept(&*old(self), &*final(self)),
            footnotes_kept(&*old(self), &*final(self)),
            wraps_kept(&*old(self), &*final(self)),
            final(self).wf(),
            final(self).current_height == clamp_len(old(self).current_height + h),
            final(self).current_items@ == old(self).current_items@,
            final(self).all_items() == old(self).all_items(),
            final(self).pages@ == old(self).pages@,
            final(self).current_column_wrap_around_paras@ == old(self).current_column_wrap_around_paras@,
            final(self).all_wraps() == old(self).all_wraps(),
            final(self).same_cursor_but_height(&*old(self)),
            final(self).defense_counts@ == old(self).defense_counts@,
            final(self).overflow_carry == old(self).overflow_carry,
    {
        self.current_height = len_add(self.current_height, h);
    }

    /// Records a footnote on the last page, if there is one.
    pub fn push_footnote(&mut self, r: FootnoteRef)
        requires
            old(self).wf(),
        ensures
            cols_kept(&*old(self), &*final(self)),
            footnotes_kept(&*old(self), &*final(self)),
            wraps_kept(&*old(self), &*final(self)),
            final(self).wf(),
            final(self).pages@.len() == old(self).pages@.len(),
            forall|i: int| 0 <= i < old(self).pages@.len() ==>
                (#[trigger] final(self).pages@[i]).column_contents@ == old(self).pages@[i].column_contents@
                && final(self).pages@[i].section_index == old(self).pages@[i].section_index
                && final(self).pages@[i].page_hide == old(self).pages@[i].page_hide,
            old(self).pages@.len() > 0 ==> final(self).pages@.last().footnotes@ == old(self).pages@.last().footnotes@.push(r),
            old(self).pages@.len() > 0 ==> page_footnotes(final(self).pages@) == page_footnotes(old(self).pages@).push(r),
            old(self).pages@.len() == 0 ==> final(self).pages@ == old(self).pages@,
            final(self).all_items() == old(self).all_items(),
            final(self).all_wraps() == old(self).all_wraps(),
            old(self).pages_ok() ==> final(self).pages_ok(),
            final(self).current_items@ == old(self).current_items@,
            final(self).current_column_wrap_around_paras@ == old(self).current_column_wrap_around_paras@,
            final(self).same_cursor(&*old(self)),
    {
        let n = self.pages.len();
        if n > 0 {
            self.pages[n - 1].footnotes.push(r);
            proof {
                lemma_same_columns(old(self).pages@, self.pages@);
                assert(self.all_items() =~= old(self).all_items());
                assert(self.all_wraps() =~= old(self).all_wraps());
                let op = old(self).pages@;
                assert(self.pages@.drop_last() =~= op.drop_last());
                assert(page_footnotes(self.pages@) =~= page_footnotes(op).push(r));
            }
        }
    }

    /// Records a footnote of `height` on the last page, if there is one.
    pub fn note_footnote(&mut self, r: FootnoteRef, height: i64)
        requires
            old(self).wf(),
        ensures
            cols_kept(&*old(self), &*final(self)),
            footnotes_kept(&*old(self), &*final(self)),
            wraps_kept(&*old(self), &*final(self)),
            final(self).wf(),
            final(self).all_items() == old(self).all_items(),
            final(self).all_wraps() == old(self).all_wraps(),
            old(self).pages_ok() ==> final(self).pages_ok(),
            final(self).section_index == old(self).section_index,
            final(self).current_items@ == old(self).current_items@,
            final(self).pages@.len() == old(self).pages@.len(),
            final(self).current_height == old(self).current_height,
            final(self).current_column == old(self).current_column,
            old(self).pages@.len() > 0 ==> page_footnotes(final(self).pages@) == page_footnotes(old(self).pages@).push(r),
            old(self).pages@.len() > 0 ==> final(self).pages@.last().footnotes@ == old(self).pages@.last().footnotes@.push(r),
            old(self).pages@.len() > 0 ==> final(self).current_footnote_height == (if old(self).is_first_footnote_on_page {
                clamp_len(clamp_len(old(self).current_footnote_height + old(self).footnote_separator_overhead) + clamp_len(height as int))
            } else {
                clamp_len(old(self).current_footnote_height + clamp_len(height as int))
            }) && !final(self).is_first_footnote_on_page,
            old(self).pages@.len() == 0 ==> final(self).unchanged(&*old(self)),
            final(self).same_settings(&*old(self)),
    {
        if self.pages.len() > 0 {
            self.push_footnote(r);
            self.add_footnote_height(clamp_len_exec(height));
        }
    }

    /// At a column change: if the last current item is a paragraph item that
    /// overflows the column, takes it off into the carry (see
    /// `overflow_checked`).
    pub fn check_last_item_overflow(&mut self)
        requires
            old(self).wf(),
            old(self).defense_counts@.contains_key(old(self).pages@.len() as usize)
                ==> old(self).defense_counts@[old(self).pages@.len() as usize] < u32::MAX,
        ensures
            page_footnotes(final(self).pages@) == page_footnotes(old(self).pages@),
            cols_kept(&*old(self), &*final(self)),
            footnotes_kept(&*old(self), &*final(self)),
            wraps_kept(&*old(self), &*final(self)),
            final(self).wf(),
            overflow_checked(&*old(self), &*final(self)),
    {
        if self.overflow_carry.is_some() {
            return;
        }
        let n = self.current_items.len();
        if n == 0 {
            return;
        }
        let is_para_item = match &self.current_items[n - 1] {
            PageItem::FullParagraph { .. } => true,
            PageItem::PartialParagraph { .. } => true,
            _ => false,
        };
        if !is_para_item {
            return;
        }
        let available = self.available_height();
        if self.current_height as i128 <= available as i128 + (SUBPX_PER_PX / 2) as i128 {
            return;
        }
        let page_idx = self.pages.len();
        proof {
            assert(vstd::std_specs::hash::obeys_key_model::<usize>());
            assert(vstd::std_specs::hash::builds_valid_hashers::<std::collections::hash_map::RandomState>());
        }
        let count: u32 = match self.defense_counts.get(&page_idx) {
            Some(c) => *c + 1,
            None => 1,
        };
        self.defense_counts.insert(page_idx, count);
        if count > DEFENSE_MAX_PER_PAGE {
            return;
        }
        self.overflow_carry = self.current_items.pop();
    }

    /// Puts a carried item back at the end of the current items and adds its
    /// height to the column.
    pub fn reinsert_carry_with_height(&mut self, carry_height: i64)
        requires
            old(self).wf(),
            len_ok(carry_height as int),
        ensures
            page_footnotes(final(self).pages@) == page_footnotes(old(self).pages@),
            cols_kept(&*old(self), &*final(self)),
            footnotes_kept(&*old(self), &*final(self)),
            wraps_kept(&*old(self), &*final(self)),
            final(self).wf(),
            carry_reinserted(&*old(self), &*final(self), carry_height),
    {
        let mut carry: Option<PageItem> = None;
        std::mem::swap(&mut carry, &mut self.overflow_carry);
        match carry {
            Some(item) => {
                self.current_items.push(item);
                self.current_height = len_add(self.current_height, carry_height);
            },
            None => {},
        }
    }
}

/// Only the first footnote of a page brings the separator line: two
/// footnotes on a fresh page take the separator once and both heights.
pub proof fn law_footnote_separator_once(s0: &PaginationState, s1: &PaginationState, s2: &PaginationState, h1: i64, h2: i64)
    requires
        s0.is_first_footnote_on_page,
        footnote_added(s0, s1, h1),
        footnote_added(s1, s2, h2),
    ensures
        s2.current_footnote_height == clamp_len(clamp_len(clamp_len(s0.current_footnote_height + s0.footnote_separator_overhead) + h1) + h2),
{
}

/// Taking the last item off into the carry and putting it back afterwards
/// gives back the items placed before.
pub proof fn law_carry_roundtrip(s0: &PaginationState, s1: &PaginationState, s2: &PaginationState, height: i64)
    requires
        overflow_checked(s0, s1),
        carry_reinserted(s1, s2, height),
        s0.overflow_carry is None,
    ensures
        s2.all_items() == s0.all_items(),
{
    if s1.overflow_carry is Some {
        assert(s0.current_items@.drop_last().push(s0.current_items@.last()) =~= s0.current_items@);
    }
    assert(s2.all_items() =~= s0.all_items());
}

} // verus!
