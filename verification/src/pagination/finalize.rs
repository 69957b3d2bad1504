//! Page numbers, headers, footers and hidden decorations of the finished
//! pages.

use vstd::prelude::*;
use crate::model::{Control, HeaderFooterApply, NewNumber, AutoNumberType, PageHide, PageNumberPos, Paragraph};
use crate::units::max_int;
use super::types::{PageItem, PageContent, ColumnContent, HeaderFooterRef, column_items, lemma_column_items_push};

verus! {

/// A header (`.2` true) or footer control defined in paragraph `.0`,
/// applying to the pages `.3`.
pub type HfEntry = (usize, HeaderFooterRef, bool, HeaderFooterApply);

// ---------------------------------------------------------------------
// Collecting the controls

/// The header and footer controls among `ctrls` of paragraph `pi`, in order.
pub open spec fn hf_of_controls(pi: usize, ctrls: Seq<Control>, section_index: usize) -> Seq<HfEntry>
    decreases ctrls.len(),
{
    if ctrls.len() == 0 {
        Seq::empty()
    } else {
        let ci = (ctrls.len() - 1) as usize;
        let r = HeaderFooterRef { para_index: pi, control_index: ci, source_section_index: section_index };
        hf_of_controls(pi, ctrls.drop_last(), section_index) + match ctrls.last() {
            Control::Header(h) => seq![(pi, r, true, h.apply_to)],
            Control::Footer(f) => seq![(pi, r, false, f.apply_to)],
            _ => Seq::empty(),
        }
    }
}

/// The header and footer controls of the paragraphs, in document order.
pub open spec fn hf_of_paragraphs(paras: Seq<Paragraph>, section_index: usize) -> Seq<HfEntry>
    decreases paras.len(),
{
    if paras.len() == 0 {
        Seq::empty()
    } else {
        hf_of_paragraphs(paras.drop_last(), section_index)
            + hf_of_controls((paras.len() - 1) as usize, paras.last().controls@, section_index)
    }
}

/// The page-hiding controls among `ctrls` of paragraph `pi`, in order.
pub open spec fn hides_of_controls(pi: usize, ctrls: Seq<Control>) -> Seq<(usize, PageHide)>
    decreases ctrls.len(),
{
    if ctrls.len() == 0 {
        Seq::empty()
    } else {
        hides_of_controls(pi, ctrls.drop_last()) + match ctrls.last() {
            Control::PageHide(ph) => seq![(pi, ph)],
            _ => Seq::empty(),
        }
    }
}

pub open spec fn hides_of_paragraphs(paras: Seq<Paragraph>) -> Seq<(usize, PageHide)>
    decreases paras.len(),
{
    if paras.len() == 0 {
        Seq::empty()
    } else {
        hides_of_paragraphs(paras.drop_last()) + hides_of_controls((paras.len() - 1) as usize, paras.last().controls@)
    }
}

/// The page-number restarts among `ctrls` of paragraph `pi`, in order.
pub open spec fn new_numbers_of_controls(pi: usize, ctrls: Seq<Control>) -> Seq<(usize, u16)>
    decreases ctrls.len(),
{
    if ctrls.len() == 0 {
        Seq::empty()
    } else {
        new_numbers_of_controls(pi, ctrls.drop_last()) + match ctrls.last() {
            Control::NewNumber(nn) => if nn.number_type == AutoNumberType::Page { seq![(pi, nn.number)] } else { Seq::empty() },
            _ => Seq::empty(),
        }
    }
}

pub open spec fn new_numbers_of_paragraphs(paras: Seq<Paragraph>) -> Seq<(usize, u16)>
    decreases paras.len(),
{
    if paras.len() == 0 {
        Seq::empty()
    } else {
        new_numbers_of_paragraphs(paras.drop_last()) + new_numbers_of_controls((paras.len() - 1) as usize, paras.last().controls@)
    }
}

/// The last page-number position control among `ctrls`, or `prev`.
pub open spec fn pnp_of_controls(ctrls: Seq<Control>, prev: Option<PageNumberPos>) -> Option<PageNumberPos>
    decreases ctrls.len(),
{
    if ctrls.len() == 0 {
        prev
    } else {
        match ctrls.last() {
            Control::PageNumberPos(p) => Some(p),
            _ => pnp_of_controls(ctrls.drop_last(), prev),
        }
    }
}

/// The last page-number position control of the paragraphs.
pub open spec fn pnp_of_paragraphs(paras: Seq<Paragraph>) -> Option<PageNumberPos>
    decreases paras.len(),
{
    if paras.len() == 0 {
        None
    } else {
        pnp_of_controls(paras.last().controls@, pnp_of_paragraphs(paras.drop_last()))
    }
}

// ---------------------------------------------------------------------
// Page numbers and headers

/// Largest paragraph index among `items`, zero when there is none.
pub open spec fn max_para(items: Seq<PageItem>) -> usize
    decreases items.len(),
{
    if items.len() == 0 {
        0
    } else {
        max_int(max_para(items.drop_last()) as int, items.last().spec_para_index() as int) as usize
    }
}

/// The last paragraph on a page: the largest paragraph index of its items.
pub open spec fn page_last_para(p: PageContent) -> usize {
    max_para(column_items(p.column_contents@))
}

/// The last paragraph on the page before page `i` (zero for the first page).
pub open spec fn prev_last_para(pages: Seq<PageContent>, i: int) -> usize {
    if i <= 0 { 0 } else { page_last_para(pages[i - 1]) }
}

/// Number of header/footer entries the scan for a page with last paragraph
/// `last` goes through: it stops at the first entry of a later paragraph.
pub open spec fn hf_scan_len(hf: Seq<HfEntry>, last: usize, k: int) -> int
    decreases hf.len() - k,
{
    if k >= hf.len() || hf[k].0 > last { k } else { hf_scan_len(hf, last, k + 1) }
}

/// The last entry before index `n` that is a header (or footer) for
/// `apply` pages.
pub open spec fn last_hf_match(hf: Seq<HfEntry>, n: int, is_header: bool, apply: HeaderFooterApply) -> Option<HeaderFooterRef>
    decreases n,
{
    if n <= 0 {
        None
    } else if hf[n - 1].2 == is_header && hf[n - 1].3 == apply {
        Some(hf[n - 1].1)
    } else {
        last_hf_match(hf, n - 1, is_header, apply)
    }
}

/// The header (or footer) for `apply` pages in force on page `i`: the last
/// one defined up to that page's last paragraph, kept from earlier pages.
pub open spec fn hf_in_force(pages: Seq<PageContent>, hf: Seq<HfEntry>, i: int, is_header: bool, apply: HeaderFooterApply) -> Option<HeaderFooterRef>
    decreases i,
{
    if i < 0 {
        None
    } else {
        let m = last_hf_match(hf, hf_scan_len(hf, page_last_para(pages[i]), 0), is_header, apply);
        match m { Some(x) => Some(x), None => if i == 0 { None } else { hf_in_force(pages, hf, i - 1, is_header, apply) } }
    }
}

/// The last page-number restart defined on page `i`: in a paragraph after
/// the previous page's last paragraph (any, on the first page) and up to
/// this page's last paragraph.
pub open spec fn restart_on_page(news: Seq<(usize, u16)>, n: int, lo: usize, hi: usize, first: bool) -> Option<u16>
    decreases n,
{
    if n <= 0 {
        None
    } else if (news[n - 1].0 > lo || first) && news[n - 1].0 <= hi {
        Some(news[n - 1].1)
    } else {
        restart_on_page(news, n - 1, lo, hi, first)
    }
}

/// The number printed on page `i`: one more than the previous page's, one
/// on the first page, unless a restart on the page sets it.
pub open spec fn page_number_of(pages: Seq<PageContent>, news: Seq<(usize, u16)>, i: int) -> int
    decreases i,
{
    if i < 0 {
        0
    } else {
        let counted = if i == 0 { 1 } else { page_number_of(pages, news, i - 1) + 1 };
        match restart_on_page(news, news.len() as int, prev_last_para(pages, i), page_last_para(pages[i]), i == 0) {
            Some(n) => n as int,
            None => counted,
        }
    }
}

/// The header or footer shown on page `i`: the one for odd or even pages
/// by the page's number, else the one for both.
pub open spec fn active_hf(pages: Seq<PageContent>, hf: Seq<HfEntry>, news: Seq<(usize, u16)>, i: int, is_header: bool) -> Option<HeaderFooterRef> {
    let side = if page_number_of(pages, news, i) % 2 == 1 { HeaderFooterApply::Odd } else { HeaderFooterApply::Even };
    let own = hf_in_force(pages, hf, i, is_header, side);
    match own { Some(x) => Some(x), None => hf_in_force(pages, hf, i, is_header, HeaderFooterApply::Both) }
}

/// Whether paragraph `pi` starts on a page with these items: it has its
/// whole text or its first lines there.
pub open spec fn starts_in(items: Seq<PageItem>, pi: usize) -> bool {
    exists|k: int| 0 <= k < items.len() && #[trigger] item_starts(items[k], pi)
}

pub open spec fn item_starts(item: PageItem, pi: usize) -> bool {
    match item {
        PageItem::FullParagraph { para_index } => para_index == pi,
        PageItem::PartialParagraph { para_index, start_line, .. } => para_index == pi && start_line == 0,
        _ => false,
    }
}

/// The page-hiding control for a page: the first one whose paragraph
/// starts on the page.
pub open spec fn first_hide(hides: Seq<(usize, PageHide)>, items: Seq<PageItem>, k: int) -> Option<PageHide>
    decreases hides.len() - k,
{
    if k >= hides.len() {
        None
    } else if starts_in(items, hides[k].0) {
        Some(hides[k].1)
    } else {
        first_hide(hides, items, k + 1)
    }
}

/// What `finalize_pages` makes of `old` at page `i`: the same content,
/// numbered, with its header, footer, page-number position and hiding.
pub open spec fn page_finalized(
    old: Seq<PageContent>,
    p: PageContent,
    i: int,
    hf: Seq<HfEntry>,
    pnp: Option<PageNumberPos>,
    hides: Seq<(usize, PageHide)>,
    news: Seq<(usize, u16)>,
) -> bool {
    let first = first_hide(hides, column_items(old[i].column_contents@), 0);
    &&& p.page_index == i as u32
    &&& p.page_number == page_number_of(old, news, i) as u32
    &&& p.active_header == active_hf(old, hf, news, i, true)
    &&& p.active_footer == active_hf(old, hf, news, i, false)
    &&& p.page_number_pos == pnp
    &&& p.page_hide == (match first { Some(h) => Some(h), None => old[i].page_hide })
    &&& p.column_contents@ == old[i].column_contents@
    &&& p.section_index == old[i].section_index
    &&& p.layout == old[i].layout
    &&& p.footnotes@ == old[i].footnotes@
}

/// Without page-number restarts, pages are numbered 1, 2, 3, ... in order.
pub proof fn law_consecutive_page_numbers(pages: Seq<PageContent>, news: Seq<(usize, u16)>, i: int)
    requires
        news.len() == 0,
        0 <= i < pages.len(),
    ensures
        page_number_of(pages, news, i) == i + 1,
    decreases i,
{
    if i > 0 {
        law_consecutive_page_numbers(pages, news, i - 1);
    }
}

/// On a page whose number is odd (even), a header or footer for odd (even)
/// pages in force is the one shown, whatever header or footer for both
/// kinds of pages is in force; the one for both is shown only where none
/// for odd (even) pages is in force.
pub proof fn law_odd_even_header_footer(
    pages: Seq<PageContent>,
    hf: Seq<HfEntry>,
    news: Seq<(usize, u16)>,
    i: int,
    is_header: bool,
)
    requires
        0 <= i < pages.len(),
    ensures
        page_number_of(pages, news, i) % 2 == 1 && hf_in_force(pages, hf, i, is_header, HeaderFooterApply::Odd) is Some
            ==> active_hf(pages, hf, news, i, is_header) == hf_in_force(pages, hf, i, is_header, HeaderFooterApply::Odd),
        page_number_of(pages, news, i) % 2 == 1 && hf_in_force(pages, hf, i, is_header, HeaderFooterApply::Odd) is None
            ==> active_hf(pages, hf, news, i, is_header) == hf_in_force(pages, hf, i, is_header, HeaderFooterApply::Both),
        page_number_of(pages, news, i) % 2 != 1 && hf_in_force(pages, hf, i, is_header, HeaderFooterApply::Even) is Some
            ==> active_hf(pages, hf, news, i, is_header) == hf_in_force(pages, hf, i, is_header, HeaderFooterApply::Even),
        page_number_of(pages, news, i) % 2 != 1 && hf_in_force(pages, hf, i, is_header, HeaderFooterApply::Even) is None
            ==> active_hf(pages, hf, news, i, is_header) == hf_in_force(pages, hf, i, is_header, HeaderFooterApply::Both),
{
}

/// Whether restart entry `e` falls on a page whose paragraphs run after
/// `lo` up to `hi` (from the start, on the first page).
pub open spec fn restart_in_range(e: (usize, u16), lo: usize, hi: usize, first: bool) -> bool {
    (first || e.0 > lo) && e.0 <= hi
}

proof fn lemma_restart_last(news: Seq<(usize, u16)>, n: int, lo: usize, hi: usize, first: bool, k: int)
    requires
        0 <= k < n <= news.len(),
        restart_in_range(news[k], lo, hi, first),
        forall|j: int| k < j < n ==> !restart_in_range(#[trigger] news[j], lo, hi, first),
    ensures
        restart_on_page(news, n, lo, hi, first) == Some(news[k].1),
    decreases n,
{
    if n - 1 > k {
        assert(!restart_in_range(news[n - 1], lo, hi, first));
        lemma_restart_last(news, n - 1, lo, hi, first, k);
    }
}

proof fn lemma_restart_none(news: Seq<(usize, u16)>, n: int, lo: usize, hi: usize, first: bool)
    requires
        0 <= n <= news.len(),
        forall|j: int| 0 <= j < n ==> !restart_in_range(#[trigger] news[j], lo, hi, first),
    ensures
        restart_on_page(news, n, lo, hi, first) is None,
    decreases n,
{
    if n > 0 {
        assert(!restart_in_range(news[n - 1], lo, hi, first));
        lemma_restart_none(news, n - 1, lo, hi, first);
    }
}

/// A page-number restart in a paragraph that starts on page `i` (any
/// paragraph up to the page's last, paragraph 0 included, on the first
/// page; one after the previous page's last paragraph on a later page)
/// sets the page's number, the last such restart winning.
pub proof fn law_page_number_restart(pages: Seq<PageContent>, news: Seq<(usize, u16)>, i: int, k: int)
    requires
        0 <= i < pages.len(),
        0 <= k < news.len(),
        restart_in_range(news[k], prev_last_para(pages, i), page_last_para(pages[i]), i == 0),
        forall|j: int| k < j < news.len()
            ==> !restart_in_range(#[trigger] news[j], prev_last_para(pages, i), page_last_para(pages[i]), i == 0),
    ensures
        page_number_of(pages, news, i) == news[k].1 as int,
{
    lemma_restart_last(news, news.len() as int, prev_last_para(pages, i), page_last_para(pages[i]), i == 0, k);
}

/// Without a page-number restart on it, the first page is numbered 1 and
/// every later page one more than the page before.
pub proof fn law_page_number_counts(pages: Seq<PageContent>, news: Seq<(usize, u16)>, i: int)
    requires
        0 <= i < pages.len(),
        forall|j: int| 0 <= j < news.len()
            ==> !restart_in_range(#[trigger] news[j], prev_last_para(pages, i), page_last_para(pages[i]), i == 0),
    ensures
        page_number_of(pages, news, i) == if i == 0 { 1 } else { page_number_of(pages, news, i - 1) + 1 },
{
    lemma_restart_none(news, news.len() as int, prev_last_para(pages, i), page_last_para(pages[i]), i == 0);
}

/// A header or footer, once in force on a page, stays in force on every
/// later page (a later definition may replace it, never remove it).
pub proof fn law_header_footer_persists(
    pages: Seq<PageContent>,
    hf: Seq<HfEntry>,
    i: int,
    j: int,
    is_header: bool,
    apply: HeaderFooterApply,
)
    requires
        0 <= i <= j < pages.len(),
        hf_in_force(pages, hf, i, is_header, apply) is Some,
    ensures
        hf_in_force(pages, hf, j, is_header, apply) is Some,
    decreases j - i,
{
    if j > i {
        law_header_footer_persists(pages, hf, i, j - 1, is_header, apply);
    }
}

proof fn lemma_max_para_push(items: Seq<PageItem>, x: PageItem)
    ensures
        max_para(items.push(x)) == max_int(max_para(items) as int, x.spec_para_index() as int),
{
    assert(items.push(x).drop_last() =~= items);
}

proof fn lemma_last_hf_match_step(hf: Seq<HfEntry>, n: int, is_header: bool, apply: HeaderFooterApply)
    requires
        0 <= n,
    ensures
        last_hf_match(hf, n + 1, is_header, apply) == (if hf[n].2 == is_header && hf[n].3 == apply { Some(hf[n].1) } else { last_hf_match(hf, n, is_header, apply) }),
{
}

proof fn lemma_hf_scan_len(hf: Seq<HfEntry>, last: usize, k: int)
    requires
        0 <= k <= hf.len(),
        forall|j: int| 0 <= j < k ==> hf[j].0 <= last,
    ensures
        k <= hf_scan_len(hf, last, k) <= hf.len(),
        hf_scan_len(hf, last, k) == hf_scan_len(hf, last, 0),
        hf_scan_len(hf, last, k) < hf.len() ==> hf[hf_scan_len(hf, last, k)].0 > last,
    decreases k,
{
    lemma_hf_scan_len_up(hf, last, k);
    if k > 0 {
        lemma_hf_scan_len(hf, last, k - 1);
    }
}

proof fn lemma_hf_scan_len_up(hf: Seq<HfEntry>, last: usize, k: int)
    requires
        0 <= k <= hf.len(),
    ensures
        k <= hf_scan_len(hf, last, k) <= hf.len(),
        hf_scan_len(hf, last, k) < hf.len() ==> hf[hf_scan_len(hf, last, k)].0 > last,
    decreases hf.len() - k,
{
    if k < hf.len() && hf[k].0 <= last {
        lemma_hf_scan_len_up(hf, last, k + 1);
    }
}


proof fn lemma_page_number_bound(pages: Seq<PageContent>, news: Seq<(usize, u16)>, i: int)
    requires
        0 <= i < pages.len(),
    ensures
        1 <= page_number_of(pages, news, i) <= 0x1_0000 + i || page_number_of(pages, news, i) <= 0xFFFF,
        0 <= page_number_of(pages, news, i) <= 0x1_0000 + i,
    decreases i,
{
    lemma_restart_bound(news, news.len() as int, prev_last_para(pages, i), page_last_para(pages[i]), i == 0);
    if i > 0 {
        lemma_page_number_bound(pages, news, i - 1);
    }
}

proof fn lemma_restart_bound(news: Seq<(usize, u16)>, n: int, lo: usize, hi: usize, first: bool)
    ensures
        restart_on_page(news, n, lo, hi, first) matches Some(v) ==> v <= 0xFFFF,
    decreases n,
{
    if n > 0 {
        lemma_restart_bound(news, n - 1, lo, hi, first);
    }
}

/// Largest paragraph index among the items of a column run, or `init` when
/// that is larger.
fn items_max_para(items: &Vec<PageItem>, init: usize) -> (r: usize)
    ensures
        r == max_int(init as int, max_para(items@) as int),
{
    let mut m = init;
    let mut j: usize = 0;
    while j < items.len()
        invariant
            0 <= j <= items@.len(),
            m == max_int(init as int, max_para(items@.take(j as int)) as int),
        decreases items@.len() - j,
    {
        proof {
            assert(items@.take(j + 1) =~= items@.take(j as int).push(items@[j as int]));
            lemma_max_para_push(items@.take(j as int), items@[j as int]);
        }
        let p = items[j].para_index();
        if p > m {
            m = p;
        }
        j += 1;
    }
    proof {
        assert(items@.take(items@.len() as int) =~= items@);
    }
    m
}

proof fn lemma_max_para_append(a: Seq<PageItem>, b: Seq<PageItem>)
    ensures
        max_para(a + b) == max_int(max_para(a) as int, max_para(b) as int),
    decreases b.len(),
{
    if b.len() == 0 {
        assert(a + b =~= a);
    } else {
        assert((a + b).drop_last() =~= a + b.drop_last());
        lemma_max_para_append(a, b.drop_last());
    }
}

/// Largest paragraph index on a page, zero when the page is empty.
fn page_last_para_exec(page: &PageContent) -> (r: usize)
    ensures
        r == page_last_para(*page),
{
    let mut m: usize = 0;
    let mut c: usize = 0;
    while c < page.column_contents.len()
        invariant
            0 <= c <= page.column_contents@.len(),
            m == max_para(column_items(page.column_contents@.take(c as int))),
        decreases page.column_contents@.len() - c,
    {
        let ghost cols = page.column_contents@.take(c as int);
        let ghost col = page.column_contents@[c as int];
        proof {
            assert(page.column_contents@.take(c + 1) =~= cols.push(col));
            lemma_column_items_push(cols, col);
            lemma_max_para_append(column_items(cols), col.items@);
        }
        m = items_max_para(&page.column_contents[c].items, m);
        c += 1;
    }
    proof {
        assert(page.column_contents@.take(page.column_contents@.len() as int) =~= page.column_contents@);
    }
    m
}

fn item_starts_exec(item: &PageItem, pi: usize) -> (r: bool)
    ensures
        r == item_starts(*item, pi),
{
    match item {
        PageItem::FullParagraph { para_index } => *para_index == pi,
        PageItem::PartialParagraph { para_index, start_line, .. } => *para_index == pi && *start_line == 0,
        _ => false,
    }
}

impl super::engine::Paginator {
    /// Whether paragraph `para_idx` starts on `page`: the page holds the whole
    /// paragraph or its first lines.
    pub fn para_starts_in_page(page: &PageContent, para_idx: usize) -> (r: bool)
        ensures
            r == starts_in(column_items(page.column_contents@), para_idx),
    {
        let mut c: usize = 0;
        while c < page.column_contents.len()
            invariant
                0 <= c <= page.column_contents@.len(),
                !starts_in(column_items(page.column_contents@.take(c as int)), para_idx),
            decreases page.column_contents@.len() - c,
        {
            let ghost cols = page.column_contents@.take(c as int);
            let ghost col = page.column_contents@[c as int];
            proof {
                assert(page.column_contents@.take(c + 1) =~= cols.push(col));
                lemma_column_items_push(cols, col);
            }
            let items = &page.column_contents[c].items;
            let mut j: usize = 0;
            while j < items.len()
                invariant
                    0 <= j <= items@.len(),
                    items@ == col.items@,
                    c < page.column_contents@.len(),
                    cols == page.column_contents@.take(c as int),
                    col == page.column_contents@[c as int],
                    page.column_contents@.take(c + 1) == cols.push(col),
                    column_items(cols.push(col)) == column_items(cols) + col.items@,
                    forall|k: int| 0 <= k < j ==> !item_starts(#[trigger] items@[k], para_idx),
                decreases items@.len() - j,
            {
                if item_starts_exec(&items[j], para_idx) {
                    proof {
                        let all = column_items(cols) + col.items@;
                        assert(all[column_items(cols).len() + j] == items@[j as int]);
                        assert(item_starts(all[column_items(cols).len() + j], para_idx));
                        assert(column_items(page.column_contents@.take(c + 1)) == all);
                        lemma_starts_in_prefix(page.column_contents@, c + 1, para_idx);
                    }
                    return true;
                }
                j += 1;
            }
            proof {
                let all = column_items(cols) + col.items@;
                assert forall|k: int| 0 <= k < all.len() implies !item_starts(#[trigger] all[k], para_idx) by {
                    if k < column_items(cols).len() {
                        assert(all[k] == column_items(cols)[k]);
                    } else {
                        assert(all[k] == items@[k - column_items(cols).len()]);
                    }
                }
            }
            c += 1;
        }
        proof {
            assert(page.column_contents@.take(page.column_contents@.len() as int) =~= page.column_contents@);
        }
        false
    }

    /// Whether any item of `page` comes from paragraph `para_idx`.
    pub fn para_in_page(page: &PageContent, para_idx: usize) -> (r: bool)
        ensures
            r == exists|k: int| 0 <= k < column_items(page.column_contents@).len()
                && (#[trigger] column_items(page.column_contents@)[k]).spec_para_index() == para_idx,
    {
        let mut c: usize = 0;
        while c < page.column_contents.len()
            invariant
                0 <= c <= page.column_contents@.len(),
                forall|k: int| 0 <= k < column_items(page.column_contents@.take(c as int)).len()
                    ==> (#[trigger] column_items(page.column_contents@.take(c as int))[k]).spec_para_index() != para_idx,
            decreases page.column_contents@.len() - c,
        {
            let ghost cols = page.column_contents@.take(c as int);
            let ghost col = page.column_contents@[c as int];
            proof {
                assert(page.column_contents@.take(c + 1) =~= cols.push(col));
                lemma_column_items_push(cols, col);
            }
            let items = &page.column_contents[c].items;
            let mut j: usize = 0;
            while j < items.len()
                invariant
                    0 <= j <= items@.len(),
                    items@ == col.items@,
                    c < page.column_contents@.len(),
                    cols == page.column_contents@.take(c as int),
                    col == page.column_contents@[c as int],
                    page.column_contents@.take(c + 1) == cols.push(col),
                    column_items(cols.push(col)) == column_items(cols) + col.items@,
                    forall|k: int| 0 <= k < j ==> (#[trigger] items@[k]).spec_para_index() != para_idx,
                decreases items@.len() - j,
            {
                if items[j].para_index() == para_idx {
                    proof {
                        let all = column_items(cols) + col.items@;
                        assert(all[column_items(cols).len() + j] == items@[j as int]);
                        lemma_column_items_prefix(page.column_contents@, c + 1);
                        assert(column_items(page.column_contents@)[column_items(cols).len() + j] == items@[j as int]);
                    }
                    return true;
                }
                j += 1;
            }
            proof {
                let all = column_items(cols) + col.items@;
                assert forall|k: int| 0 <= k < all.len() implies (#[trigger] all[k]).spec_para_index() != para_idx by {
                    if k < column_items(cols).len() {
                        assert(all[k] == column_items(cols)[k]);
                    } else {
                        assert(all[k] == items@[k - column_items(cols).len()]);
                    }
                }
            }
            c += 1;
        }
        proof {
            assert(page.column_contents@.take(page.column_contents@.len() as int) =~= page.column_contents@);
        }
        false
    }
}

/// The items of the first `c` columns start the items of all columns.
pub proof fn lemma_column_items_prefix(cols: Seq<ColumnContent>, c: int)
    requires
        0 <= c <= cols.len(),
    ensures
        column_items(cols.take(c)).is_prefix_of(column_items(cols)),
    decreases cols.len() - c,
{
    if c == cols.len() {
        assert(cols.take(c) =~= cols);
    } else {
        lemma_column_items_prefix(cols, c + 1);
        assert(cols.take(c + 1) =~= cols.take(c).push(cols[c]));
        lemma_column_items_push(cols.take(c), cols[c]);
    }
}

proof fn lemma_starts_in_prefix(cols: Seq<ColumnContent>, c: int, pi: usize)
    requires
        0 <= c <= cols.len(),
        starts_in(column_items(cols.take(c)), pi),
    ensures
        starts_in(column_items(cols), pi),
{
    lemma_column_items_prefix(cols, c);
    let k = choose|k: int| 0 <= k < column_items(cols.take(c)).len() && #[trigger] item_starts(column_items(cols.take(c))[k], pi);
    assert(column_items(cols)[k] == column_items(cols.take(c))[k]);
}

impl super::engine::Paginator {
    /// Numbers the pages and assigns each its header, footer, page-number
    /// position and page hiding (see `page_finalized`).
    pub fn finalize_pages(
        pages: &mut Vec<PageContent>,
        hf_entries: &Vec<HfEntry>,
        page_number_pos: &Option<PageNumberPos>,
        page_hides: &Vec<(usize, PageHide)>,
        new_page_numbers: &Vec<(usize, u16)>,
        _section_index: usize,
    )
        ensures
            final(pages)@.len() == old(pages)@.len(),
            forall|i: int| 0 <= i < old(pages)@.len() ==> page_finalized(
                old(pages)@, #[trigger] final(pages)@[i], i, hf_entries@, *page_number_pos, page_hides@, new_page_numbers@),
    {
        let ghost old_pages = pages@;
        let ghost hf = hf_entries@;
        let ghost news = new_page_numbers@;
        let ghost hides = page_hides@;
        let mut page_num_counter: u128 = 1;
        let mut prev_page_last_para: usize = 0;
        let mut header_both: Option<HeaderFooterRef> = None;
        let mut header_even: Option<HeaderFooterRef> = None;
        let mut header_odd: Option<HeaderFooterRef> = None;
        let mut footer_both: Option<HeaderFooterRef> = None;
        let mut footer_even: Option<HeaderFooterRef> = None;
        let mut footer_odd: Option<HeaderFooterRef> = None;
        let n = pages.len();
        let mut i: usize = 0;
        while i < n
            invariant
                n == old_pages.len() == pages@.len(),
                0 <= i <= n,
                hf == hf_entries@,
                news == new_page_numbers@,
                hides == page_hides@,
                forall|j: int| 0 <= j < i ==> page_finalized(old_pages, #[trigger] pages@[j], j, hf, *page_number_pos, hides, news),
                forall|j: int| i <= j < n ==> #[trigger] pages@[j] == old_pages[j],
                header_both == hf_in_force(old_pages, hf, i - 1, true, HeaderFooterApply::Both),
                header_even == hf_in_force(old_pages, hf, i - 1, true, HeaderFooterApply::Even),
                header_odd == hf_in_force(old_pages, hf, i - 1, true, HeaderFooterApply::Odd),
                footer_both == hf_in_force(old_pages, hf, i - 1, false, HeaderFooterApply::Both),
                footer_even == hf_in_force(old_pages, hf, i - 1, false, HeaderFooterApply::Even),
                footer_odd == hf_in_force(old_pages, hf, i - 1, false, HeaderFooterApply::Odd),
                page_num_counter == page_number_of(old_pages, news, i - 1) + 1,
                prev_page_last_para == prev_last_para(old_pages, i as int),
            decreases n - i,
        {
            let last_para = page_last_para_exec(&pages[i]);
            let ghost hb0 = header_both;
            let ghost he0 = header_even;
            let ghost ho0 = header_odd;
            let ghost fb0 = footer_both;
            let ghost fe0 = footer_even;
            let ghost fo0 = footer_odd;

            // Headers and footers defined up to the page's last paragraph.
            let mut k: usize = 0;
            while k < hf_entries.len()
                invariant
                    0 <= k <= hf.len(),
                    hf == hf_entries@,
                    forall|j: int| 0 <= j < k ==> (#[trigger] hf[j]).0 <= last_para,
                    k == hf.len() ==> k == hf_scan_len(hf, last_para, 0),
                    header_both == (match last_hf_match(hf, k as int, true, HeaderFooterApply::Both) { Some(x) => Some(x), None => hb0 }),
                    header_even == (match last_hf_match(hf, k as int, true, HeaderFooterApply::Even) { Some(x) => Some(x), None => he0 }),
                    header_odd == (match last_hf_match(hf, k as int, true, HeaderFooterApply::Odd) { Some(x) => Some(x), None => ho0 }),
                    footer_both == (match last_hf_match(hf, k as int, false, HeaderFooterApply::Both) { Some(x) => Some(x), None => fb0 }),
                    footer_even == (match last_hf_match(hf, k as int, false, HeaderFooterApply::Even) { Some(x) => Some(x), None => fe0 }),
                    footer_odd == (match last_hf_match(hf, k as int, false, HeaderFooterApply::Odd) { Some(x) => Some(x), None => fo0 }),
                ensures
                    k == hf_scan_len(hf, last_para, 0),
                    header_both == (match last_hf_match(hf, k as int, true, HeaderFooterApply::Both) { Some(x) => Some(x), None => hb0 }),
                    header_even == (match last_hf_match(hf, k as int, true, HeaderFooterApply::Even) { Some(x) => Some(x), None => he0 }),
                    header_odd == (match last_hf_match(hf, k as int, true, HeaderFooterApply::Odd) { Some(x) => Some(x), None => ho0 }),
                    footer_both == (match last_hf_match(hf, k as int, false, HeaderFooterApply::Both) { Some(x) => Some(x), None => fb0 }),
                    footer_even == (match last_hf_match(hf, k as int, false, HeaderFooterApply::Even) { Some(x) => Some(x), None => fe0 }),
                    footer_odd == (match last_hf_match(hf, k as int, false, HeaderFooterApply::Odd) { Some(x) => Some(x), None => fo0 }),
                decreases hf.len() - k,
            {
                let (para_idx, hf_ref, is_header, apply_to) = hf_entries[k];
                if para_idx > last_para {
                    proof {
                        lemma_hf_scan_len(hf, last_para, k as int);
                        assert(hf_scan_len(hf, last_para, k as int) == k);
                    }
                    break;
                }
                proof {
                    lemma_last_hf_match_step(hf, k as int, true, HeaderFooterApply::Both);
                    lemma_last_hf_match_step(hf, k as int, true, HeaderFooterApply::Even);
                    lemma_last_hf_match_step(hf, k as int, true, HeaderFooterApply::Odd);
                    lemma_last_hf_match_step(hf, k as int, false, HeaderFooterApply::Both);
                    lemma_last_hf_match_step(hf, k as int, false, HeaderFooterApply::Even);
                    lemma_last_hf_match_step(hf, k as int, false, HeaderFooterApply::Odd);
                }
                if is_header {
                    match apply_to {
                        HeaderFooterApply::Both => header_both = Some(hf_ref),
                        HeaderFooterApply::Even => header_even = Some(hf_ref),
                        HeaderFooterApply::Odd => header_odd = Some(hf_ref),
                    }
                } else {
                    match apply_to {
                        HeaderFooterApply::Both => footer_both = Some(hf_ref),
                        HeaderFooterApply::Even => footer_even = Some(hf_ref),
                        HeaderFooterApply::Odd => footer_odd = Some(hf_ref),
                    }
                }
                k += 1;
                proof {
                    if k == hf.len() {
                        lemma_hf_scan_len(hf, last_para, k as int);
                    }
                }
            }
            proof {
                if hf.len() == 0 {
                    assert(hf_scan_len(hf, last_para, 0) == 0);
                }
                assert(last_para == page_last_para(old_pages[i as int]));
            }

            // Page-number restarts on this page.
            let ghost counted = page_num_counter as int;
            let mut m: usize = 0;
            while m < new_page_numbers.len()
                invariant
                    0 <= m <= news.len(),
                    news == new_page_numbers@,
                    page_num_counter == (match restart_on_page(news, m as int, prev_page_last_para, last_para, i == 0) {
                        Some(v) => v as int,
                        None => counted,
                    }),
                decreases news.len() - m,
            {
                let (para_idx, new_num) = new_page_numbers[m];
                if para_idx > prev_page_last_para || i == 0 {
                    if para_idx <= last_para {
                        page_num_counter = new_num as u128;
                    }
                }
                m += 1;
            }
            proof {
                lemma_page_number_bound(old_pages, news, i as int);
                assert(page_num_counter == page_number_of(old_pages, news, i as int));
            }

            let is_odd = page_num_counter % 2 == 1;
            let active_header = if is_odd {
                if header_odd.is_some() { header_odd } else { header_both }
            } else {
                if header_even.is_some() { header_even } else { header_both }
            };
            let active_footer = if is_odd {
                if footer_odd.is_some() { footer_odd } else { footer_both }
            } else {
                if footer_even.is_some() { footer_even } else { footer_both }
            };

            // The first page hiding whose paragraph starts on this page.
            let mut found: Option<PageHide> = None;
            let mut h: usize = 0;
            while h < page_hides.len()
                invariant_except_break
                    found is None,
                invariant
                    0 <= h <= hides.len(),
                    hides == page_hides@,
                    i < n == pages@.len(),
                    first_hide(hides, column_items(pages@[i as int].column_contents@), 0)
                        == first_hide(hides, column_items(pages@[i as int].column_contents@), h as int),
                ensures
                    found == first_hide(hides, column_items(pages@[i as int].column_contents@), 0),
                decreases hides.len() - h,
            {
                let (ph_para, ph) = page_hides[h];
                if Self::para_starts_in_page(&pages[i], ph_para) {
                    found = Some(ph);
                    break;
                }
                h += 1;
            }

            let ghost before = pages@[i as int];
            pages[i].page_index = i as u32;
            pages[i].page_number = page_num_counter as u32;
            pages[i].active_header = active_header;
            pages[i].active_footer = active_footer;
            pages[i].page_number_pos = *page_number_pos;
            if found.is_some() {
                pages[i].page_hide = found;
            }
            proof {
                assert(pages@[i as int].column_contents@ == before.column_contents@);
                assert(page_finalized(old_pages, pages@[i as int], i as int, hf, *page_number_pos, hides, news));
            }

            prev_page_last_para = last_para;
            page_num_counter = page_num_counter + 1;
            i += 1;
        }
    }

    /// The header, footer, page-hiding, page-number-position and page-number
    /// restart controls of the paragraphs, in document order.
    pub fn collect_header_footer_controls(
        paragraphs: &[Paragraph],
        section_index: usize,
    ) -> (r: (Vec<HfEntry>, Option<PageNumberPos>, Vec<(usize, PageHide)>, Vec<(usize, u16)>))
        ensures
            r.0@ == hf_of_paragraphs(paragraphs@, section_index),
            r.1 == pnp_of_paragraphs(paragraphs@),
            r.2@ == hides_of_paragraphs(paragraphs@),
            r.3@ == new_numbers_of_paragraphs(paragraphs@),
    {
        let mut hf_entries: Vec<HfEntry> = Vec::new();
        let mut page_number_pos: Option<PageNumberPos> = None;
        let mut page_hides: Vec<(usize, PageHide)> = Vec::new();
        let mut new_page_numbers: Vec<(usize, u16)> = Vec::new();
        let mut pi: usize = 0;
        while pi < paragraphs.len()
            invariant
                0 <= pi <= paragraphs@.len(),
                hf_entries@ == hf_of_paragraphs(paragraphs@.take(pi as int), section_index),
                page_number_pos == pnp_of_paragraphs(paragraphs@.take(pi as int)),
                page_hides@ == hides_of_paragraphs(paragraphs@.take(pi as int)),
                new_page_numbers@ == new_numbers_of_paragraphs(paragraphs@.take(pi as int)),
            decreases paragraphs@.len() - pi,
        {
            let para = &paragraphs[pi];
            let ghost hf0 = hf_entries@;
            let ghost pnp0 = page_number_pos;
            let ghost hides0 = page_hides@;
            let ghost news0 = new_page_numbers@;
            let mut ci: usize = 0;
            while ci < para.controls.len()
                invariant
                    0 <= ci <= para.controls@.len(),
                    para == &paragraphs@[pi as int],
                    hf_entries@ == hf0 + hf_of_controls(pi, para.controls@.take(ci as int), section_index),
                    page_number_pos == pnp_of_controls(para.controls@.take(ci as int), pnp0),
                    page_hides@ == hides0 + hides_of_controls(pi, para.controls@.take(ci as int)),
                    new_page_numbers@ == news0 + new_numbers_of_controls(pi, para.controls@.take(ci as int)),
                decreases para.controls@.len() - ci,
            {
                let ghost prefix = para.controls@.take(ci as int);
                let ghost next = para.controls@.take(ci + 1);
                proof {
                    assert(next.drop_last() =~= prefix);
                    assert(next.last() == para.controls@[ci as int]);
                }
                match &para.controls[ci] {
                    Control::Header(h) => {
                        let r = HeaderFooterRef { para_index: pi, control_index: ci, source_section_index: section_index };
                        hf_entries.push((pi, r, true, h.apply_to));
                    },
                    Control::Footer(f) => {
                        let r = HeaderFooterRef { para_index: pi, control_index: ci, source_section_index: section_index };
                        hf_entries.push((pi, r, false, f.apply_to));
                    },
                    Control::PageHide(ph) => {
                        page_hides.push((pi, *ph));
                    },
                    Control::PageNumberPos(pnp) => {
                        page_number_pos = Some(*pnp);
                    },
                    Control::NewNumber(nn) => {
                        if nn.number_type == AutoNumberType::Page {
                            new_page_numbers.push((pi, nn.number));
                        }
                    },
                    _ => {},
                }
                ci += 1;
                proof {
                    assert(hf_entries@ =~= hf0 + hf_of_controls(pi, next, section_index));
                    assert(page_hides@ =~= hides0 + hides_of_controls(pi, next));
                    assert(new_page_numbers@ =~= news0 + new_numbers_of_controls(pi, next));
                }
            }
            proof {
                let prefix = paragraphs@.take(pi as int);
                let next = paragraphs@.take(pi + 1);
                assert(next.drop_last() =~= prefix);
                assert(para.controls@.take(para.controls@.len() as int) =~= para.controls@);
                assert(hf_entries@ =~= hf_of_paragraphs(next, section_index));
                assert(page_hides@ =~= hides_of_paragraphs(next));
                assert(new_page_numbers@ =~= new_numbers_of_paragraphs(next));
            }
            pi += 1;
        }
        proof {
            assert(paragraphs@.take(paragraphs@.len() as int) =~= paragraphs@);
        }
        (hf_entries, page_number_pos, page_hides, new_page_numbers)
    }
}

} // verus!
