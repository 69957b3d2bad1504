//! What the page splitter produces.

use vstd::prelude::*;
use std::collections::HashSet;
use crate::model::{PageHide, PageLayoutInfo, PageNumberPos};

verus! {

/// One piece of content placed in a column.
#[derive(Clone, Copy, Debug)]
pub enum PageItem {
    /// A whole paragraph.
    FullParagraph { para_index: usize },
    /// Lines `start_line..end_line` of a paragraph.
    PartialParagraph { para_index: usize, start_line: usize, end_line: usize },
    /// A whole table.
    Table { para_index: usize, control_index: usize },
    /// Rows `start_row..end_row` of a table, possibly cut inside a row.
    PartialTable {
        para_index: usize,
        control_index: usize,
        start_row: usize,
        end_row: usize,
        is_continuation: bool,
        split_start_content_offset: i64,
        split_end_content_limit: i64,
    },
    /// A drawing object, picture or equation.
    Shape { para_index: usize, control_index: usize },
}

impl PageItem {
    /// The paragraph the item comes from.
    pub open spec fn spec_para_index(self) -> usize {
        match self {
            PageItem::FullParagraph { para_index } => para_index,
            PageItem::PartialParagraph { para_index, .. } => para_index,
            PageItem::Table { para_index, .. } => para_index,
            PageItem::PartialTable { para_index, .. } => para_index,
            PageItem::Shape { para_index, .. } => para_index,
        }
    }

    /// The paragraph the item comes from.
    pub fn para_index(&self) -> (r: usize)
        ensures
            r == self.spec_para_index(),
    {
        match self {
            PageItem::FullParagraph { para_index } => *para_index,
            PageItem::PartialParagraph { para_index, .. } => *para_index,
            PageItem::Table { para_index, .. } => *para_index,
            PageItem::PartialTable { para_index, .. } => *para_index,
            PageItem::Shape { para_index, .. } => *para_index,
        }
    }

    /// Whether the item holds text of its paragraph (whole or in part).
    pub open spec fn is_paragraph_item(self) -> bool {
        self is FullParagraph || self is PartialParagraph
    }
}

/// A paragraph placed beside a table that text wraps around.
#[derive(Clone, Copy, Debug)]
pub struct WrapAroundPara {
    pub para_index: usize,
    pub table_para_index: usize,
    pub has_text: bool,
}

/// The content of one column of a page.
#[derive(Clone, Debug)]
pub struct ColumnContent {
    pub column_index: u16,
    pub items: Vec<PageItem>,
    pub zone_layout: Option<PageLayoutInfo>,
    pub zone_y_offset: i64,
    pub wrap_around_paras: Vec<WrapAroundPara>,
}

/// Where a header or footer control is defined.
#[derive(Clone, Copy, Debug, PartialEq, Eq, Structural)]
pub struct HeaderFooterRef {
    pub para_index: usize,
    pub control_index: usize,
    pub source_section_index: usize,
}

/// Where a footnote's control stands.
#[derive(Clone, Copy, Debug)]
pub enum FootnoteSource {
    Body { para_index: usize, control_index: usize },
    TableCell {
        para_index: usize,
        table_control_index: usize,
        cell_index: usize,
        cell_para_index: usize,
        cell_control_index: usize,
    },
    ShapeTextBox {
        para_index: usize,
        shape_control_index: usize,
        tb_para_index: usize,
        tb_control_index: usize,
    },
}

/// A footnote shown at the bottom of a page.
#[derive(Clone, Copy, Debug)]
pub struct FootnoteRef {
    pub number: u16,
    pub source: FootnoteSource,
}

/// One page.
#[derive(Clone, Debug)]
pub struct PageContent {
    pub page_index: u32,
    pub page_number: u32,
    pub section_index: usize,
    pub layout: PageLayoutInfo,
    pub column_contents: Vec<ColumnContent>,
    pub active_header: Option<HeaderFooterRef>,
    pub active_footer: Option<HeaderFooterRef>,
    pub page_number_pos: Option<PageNumberPos>,
    pub page_hide: Option<PageHide>,
    pub footnotes: Vec<FootnoteRef>,
}

/// The pages of a section, the paragraphs placed beside wrap-around tables,
/// and the empty paragraphs hidden at page ends.
#[derive(Debug)]
pub struct PaginationResult {
    pub pages: Vec<PageContent>,
    pub wrap_around_paras: Vec<WrapAroundPara>,
    pub hidden_empty_paras: HashSet<usize>,
}

/// The items of a run of columns, in order.
pub open spec fn column_items(cols: Seq<ColumnContent>) -> Seq<PageItem>
    decreases cols.len(),
{
    if cols.len() == 0 {
        Seq::empty()
    } else {
        column_items(cols.drop_last()) + cols.last().items@
    }
}

/// The items of a run of pages, in order.
pub open spec fn page_items(pages: Seq<PageContent>) -> Seq<PageItem>
    decreases pages.len(),
{
    if pages.len() == 0 {
        Seq::empty()
    } else {
        page_items(pages.drop_last()) + column_items(pages.last().column_contents@)
    }
}

/// The wrap-around paragraphs of a run of columns, in order.
pub open spec fn column_wraps(cols: Seq<ColumnContent>) -> Seq<WrapAroundPara>
    decreases cols.len(),
{
    if cols.len() == 0 {
        Seq::empty()
    } else {
        column_wraps(cols.drop_last()) + cols.last().wrap_around_paras@
    }
}

/// The wrap-around paragraphs of a run of pages, in order.
pub open spec fn page_wraps(pages: Seq<PageContent>) -> Seq<WrapAroundPara>
    decreases pages.len(),
{
    if pages.len() == 0 {
        Seq::empty()
    } else {
        page_wraps(pages.drop_last()) + column_wraps(pages.last().column_contents@)
    }
}

/// The footnotes recorded on a run of pages, page after page.
pub open spec fn page_footnotes(pages: Seq<PageContent>) -> Seq<FootnoteRef>
    decreases pages.len(),
{
    if pages.len() == 0 {
        Seq::empty()
    } else {
        page_footnotes(pages.drop_last()) + pages.last().footnotes@
    }
}

/// Pages with the same footnotes, page by page, record the same footnotes.
pub proof fn lemma_same_footnotes(a: Seq<PageContent>, b: Seq<PageContent>)
    requires
        a.len() == b.len(),
        forall|i: int| 0 <= i < a.len() ==> (#[trigger] a[i]).footnotes@ == b[i].footnotes@,
    ensures
        page_footnotes(a) == page_footnotes(b),
    decreases a.len(),
{
    if a.len() > 0 {
        assert forall|i: int| 0 <= i < a.drop_last().len() implies (#[trigger] a.drop_last()[i]).footnotes@ == b.drop_last()[i].footnotes@ by {
            assert(a.drop_last()[i] == a[i]);
            assert(b.drop_last()[i] == b[i]);
        }
        lemma_same_footnotes(a.drop_last(), b.drop_last());
        assert(a.last().footnotes@ == b.last().footnotes@);
    }
}

pub proof fn lemma_page_footnotes_push(pages: Seq<PageContent>, p: PageContent)
    ensures
        page_footnotes(pages.push(p)) == page_footnotes(pages) + p.footnotes@,
{
    assert(pages.push(p).drop_last() =~= pages);
}

/// A fresh page: `index` as its page index, no columns, no decorations.
pub open spec fn is_blank_page(p: PageContent, index: int, section_index: usize, layout: PageLayoutInfo) -> bool {
    &&& p.page_index == index as u32
    &&& p.page_number == 0
    &&& p.section_index == section_index
    &&& p.layout == layout
    &&& p.active_header is None
    &&& p.active_footer is None
    &&& p.page_number_pos is None
    &&& p.page_hide is None
    &&& p.footnotes@.len() == 0
}

pub proof fn lemma_column_items_push(cols: Seq<ColumnContent>, c: ColumnContent)
    ensures
        column_items(cols.push(c)) == column_items(cols) + c.items@,
        column_wraps(cols.push(c)) == column_wraps(cols) + c.wrap_around_paras@,
{
    assert(cols.push(c).drop_last() =~= cols);
}

pub proof fn lemma_page_items_push(pages: Seq<PageContent>, p: PageContent)
    ensures
        page_items(pages.push(p)) == page_items(pages) + column_items(p.column_contents@),
        page_wraps(pages.push(p)) == page_wraps(pages) + column_wraps(p.column_contents@),
{
    assert(pages.push(p).drop_last() =~= pages);
}

/// Pages with the same columns hold the same items and wrap-around
/// paragraphs.
pub proof fn lemma_same_columns(a: Seq<PageContent>, b: Seq<PageContent>)
    requires
        a.len() == b.len(),
        forall|i: int| 0 <= i < a.len() ==> (#[trigger] a[i]).column_contents@ == b[i].column_contents@,
    ensures
        page_items(a) == page_items(b),
        page_wraps(a) == page_wraps(b),
    decreases a.len(),
{
    if a.len() > 0 {
        assert forall|i: int| 0 <= i < a.drop_last().len() implies (#[trigger] a.drop_last()[i]).column_contents@ == b.drop_last()[i].column_contents@ by {
            assert(a.drop_last()[i] == a[i]);
            assert(b.drop_last()[i] == b[i]);
        }
        lemma_same_columns(a.drop_last(), b.drop_last());
        assert(a.last().column_contents@ == b.last().column_contents@);
    }
}

/// Two runs of columns with the same items column by column.
pub open spec fn same_column_items(a: Seq<ColumnContent>, b: Seq<ColumnContent>) -> bool {
    &&& a.len() == b.len()
    &&& forall|j: int| 0 <= j < a.len() ==> (#[trigger] a[j]).items@ == b[j].items@
}

pub proof fn lemma_same_column_items(a: Seq<ColumnContent>, b: Seq<ColumnContent>)
    requires
        same_column_items(a, b),
    ensures
        column_items(a) == column_items(b),
    decreases a.len(),
{
    if a.len() > 0 {
        assert(same_column_items(a.drop_last(), b.drop_last())) by {
            assert forall|j: int| 0 <= j < a.drop_last().len() implies (#[trigger] a.drop_last()[j]).items@ == b.drop_last()[j].items@ by {
                assert(a.drop_last()[j] == a[j]);
                assert(b.drop_last()[j] == b[j]);
            }
        }
        lemma_same_column_items(a.drop_last(), b.drop_last());
        assert(a.last().items@ == b.last().items@);
    }
}

pub proof fn lemma_same_page_items(a: Seq<PageContent>, b: Seq<PageContent>)
    requires
        a.len() == b.len(),
        forall|i: int| 0 <= i < a.len() ==> same_column_items((#[trigger] a[i]).column_contents@, b[i].column_contents@),
    ensures
        page_items(a) == page_items(b),
    decreases a.len(),
{
    if a.len() > 0 {
        assert forall|i: int| 0 <= i < a.drop_last().len() implies same_column_items((#[trigger] a.drop_last()[i]).column_contents@, b.drop_last()[i].column_contents@) by {
            assert(a.drop_last()[i] == a[i]);
            assert(b.drop_last()[i] == b[i]);
        }
        lemma_same_page_items(a.drop_last(), b.drop_last());
        lemma_same_column_items(a.last().column_contents@, b.last().column_contents@);
    }
}

} // verus!
