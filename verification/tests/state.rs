use lib::model::PageLayoutInfo;
use lib::pagination::state::PaginationState;
use lib::pagination::types::{FootnoteRef, FootnoteSource, PageItem, WrapAroundPara};

const PX: i64 = 7200;

fn fresh(cols: u16) -> PaginationState {
    let layout = PageLayoutInfo { available_body_height: 1000 * PX, column_width_hu: 30000 };
    PaginationState::new(layout, cols, 3, 4 * PX, 30 * PX)
}

fn all_items(st: &PaginationState) -> Vec<usize> {
    let mut v: Vec<usize> = st
        .pages
        .iter()
        .flat_map(|p| p.column_contents.iter().flat_map(|c| c.items.iter().map(|i| i.para_index())))
        .collect();
    v.extend(st.current_items.iter().map(|i| i.para_index()));
    v
}

#[test]
fn new_state_is_empty() {
    let st = fresh(2);
    assert!(st.pages.is_empty());
    assert!(st.current_items.is_empty());
    assert_eq!(st.current_height, 0);
    assert_eq!(st.current_column, 0);
    assert!(st.is_first_footnote_on_page);
    assert_eq!(st.col_count, 2);
    assert_eq!(st.section_index, 3);
    assert!(st.overflow_carry.is_none());
}

#[test]
fn flush_column_keeps_items_in_order() {
    let mut st = fresh(1);
    st.push_item(PageItem::FullParagraph { para_index: 0 });
    st.push_item(PageItem::FullParagraph { para_index: 1 });
    st.current_column_wrap_around_paras.push(WrapAroundPara { para_index: 1, table_para_index: 0, has_text: false });
    st.flush_column();
    assert!(st.current_items.is_empty());
    assert_eq!(st.pages.len(), 1);
    assert_eq!(st.pages[0].page_index, 0);
    assert_eq!(st.pages[0].section_index, 3);
    assert_eq!(st.pages[0].column_contents.len(), 1);
    assert_eq!(st.pages[0].column_contents[0].wrap_around_paras.len(), 1);
    assert_eq!(all_items(&st), vec![0, 1]);
    // Nothing to flush: nothing changes.
    st.flush_column();
    assert_eq!(st.pages[0].column_contents.len(), 1);
}

#[test]
fn flush_column_always_adds_empty_column() {
    let mut st = fresh(1);
    st.flush_column_always();
    assert_eq!(st.pages.len(), 1);
    assert_eq!(st.pages[0].column_contents.len(), 1);
    assert!(st.pages[0].column_contents[0].items.is_empty());
}

#[test]
fn advance_goes_to_next_column_then_page() {
    let mut st = fresh(2);
    st.push_item(PageItem::FullParagraph { para_index: 0 });
    st.add_height(100 * PX);
    st.advance_column_or_new_page();
    assert_eq!(st.current_column, 1);
    assert_eq!(st.current_height, 0);
    assert_eq!(st.pages.len(), 1);
    st.push_item(PageItem::FullParagraph { para_index: 1 });
    st.advance_column_or_new_page();
    assert_eq!(st.current_column, 0);
    assert_eq!(st.pages.len(), 2);
    assert_eq!(st.pages[1].page_index, 1);
    assert!(st.pages[1].column_contents.is_empty());
    assert_eq!(all_items(&st), vec![0, 1]);
}

#[test]
fn force_new_page_resets_the_page() {
    let mut st = fresh(2);
    st.push_item(PageItem::FullParagraph { para_index: 0 });
    st.add_footnote_height(10 * PX);
    st.force_new_page();
    assert_eq!(st.pages.len(), 2);
    assert_eq!(st.current_footnote_height, 0);
    assert!(st.is_first_footnote_on_page);
    assert_eq!(st.current_column, 0);
}

#[test]
fn ensure_page_is_idempotent() {
    let mut st = fresh(1);
    st.ensure_page();
    assert_eq!(st.pages.len(), 1);
    st.ensure_page();
    assert_eq!(st.pages.len(), 1);
}

#[test]
fn available_height_subtracts_footnotes_margin_and_zone() {
    let mut st = fresh(1);
    assert_eq!(st.available_height(), 1000 * PX);
    assert_eq!(st.base_available_height(), 1000 * PX);
    st.add_footnote_height(50 * PX);
    // 1000 - (4 + 50) - 30
    assert_eq!(st.available_height(), 916 * PX);
    st.current_zone_y_offset = 2000 * PX;
    assert_eq!(st.available_height(), 0);
}

#[test]
fn footnote_separator_is_added_once() {
    let mut st = fresh(1);
    st.add_footnote_height(10 * PX);
    st.add_footnote_height(20 * PX);
    assert_eq!(st.current_footnote_height, 34 * PX);
    assert!(!st.is_first_footnote_on_page);
}

#[test]
fn carry_roundtrip_restores_items() {
    let mut st = fresh(1);
    st.push_item(PageItem::FullParagraph { para_index: 0 });
    st.push_item(PageItem::PartialParagraph { para_index: 1, start_line: 0, end_line: 2 });
    st.add_height(1100 * PX);
    st.check_last_item_overflow();
    assert_eq!(st.current_items.len(), 1);
    assert!(matches!(st.overflow_carry, Some(PageItem::PartialParagraph { para_index: 1, .. })));
    assert_eq!(st.defense_counts.get(&0), Some(&1));
    st.reinsert_carry_with_height(40 * PX);
    assert!(st.overflow_carry.is_none());
    assert_eq!(all_items(&st), vec![0, 1]);
    assert_eq!(st.current_height, 1140 * PX);
}

#[test]
fn overflow_check_ignores_tables_and_fitting_columns() {
    let mut st = fresh(1);
    st.push_item(PageItem::Table { para_index: 0, control_index: 0 });
    st.add_height(2000 * PX);
    st.check_last_item_overflow();
    assert!(st.overflow_carry.is_none());
    let mut st2 = fresh(1);
    st2.push_item(PageItem::FullParagraph { para_index: 0 });
    st2.add_height(1000 * PX + PX / 2);
    st2.check_last_item_overflow();
    assert!(st2.overflow_carry.is_none());
    assert!(st2.defense_counts.is_empty());
}

#[test]
fn overflow_check_gives_up_after_the_limit() {
    let mut st = fresh(1);
    st.push_item(PageItem::FullParagraph { para_index: 0 });
    st.add_height(2000 * PX);
    st.defense_counts.insert(0, 100);
    st.check_last_item_overflow();
    assert!(st.overflow_carry.is_none());
    assert_eq!(st.current_items.len(), 1);
    assert_eq!(st.defense_counts.get(&0), Some(&101));
}

#[test]
fn reinsert_without_carry_changes_nothing() {
    let mut st = fresh(1);
    st.reinsert_carry_with_height(40 * PX);
    assert!(st.current_items.is_empty());
    assert_eq!(st.current_height, 0);
}

#[test]
fn footnote_goes_to_last_page() {
    let mut st = fresh(1);
    let r = FootnoteRef { number: 7, source: FootnoteSource::Body { para_index: 0, control_index: 1 } };
    st.note_footnote(r, 5 * PX);
    assert_eq!(st.current_footnote_height, 0);
    st.ensure_page();
    st.note_footnote(r, 5 * PX);
    assert_eq!(st.pages[0].footnotes.len(), 1);
    assert_eq!(st.current_footnote_height, 9 * PX);
}

const E18: i64 = 1_000_000_000_000_000_000;

#[test]
fn large_lengths_add_exactly() {
    let layout = PageLayoutInfo { available_body_height: E18, column_width_hu: 30000 };
    let mut st = PaginationState::new(layout, 1, 0, 0, 0);
    st.current_footnote_height = -E18;
    assert_eq!(st.available_height(), 2 * E18);
    st.current_footnote_height = E18;
    st.is_first_footnote_on_page = false;
    st.add_footnote_height(E18);
    assert_eq!(st.current_footnote_height, 2 * E18);
    let mut st2 = PaginationState::new(layout, 1, 0, 0, 0);
    st2.add_height(E18 - 1);
    st2.add_height(2);
    assert_eq!(st2.current_height, E18 + 1);
}

#[test]
fn lengths_saturate_only_past_i64() {
    let layout = PageLayoutInfo { available_body_height: i64::MAX, column_width_hu: 30000 };
    let mut st = PaginationState::new(layout, 1, 0, 0, 0);
    st.add_height(i64::MAX);
    st.add_height(1);
    assert_eq!(st.current_height, i64::MAX);
}

#[test]
fn carry_reinserted_at_large_height_adds_exactly() {
    let layout = PageLayoutInfo { available_body_height: PX, column_width_hu: 30000 };
    let mut st = PaginationState::new(layout, 1, 0, 0, 0);
    st.push_item(PageItem::FullParagraph { para_index: 0 });
    st.push_item(PageItem::FullParagraph { para_index: 1 });
    st.add_height(E18);
    st.check_last_item_overflow();
    assert!(st.overflow_carry.is_some());
    st.reinsert_carry_with_height(E18);
    assert_eq!(all_items(&st), vec![0, 1]);
    assert_eq!(st.current_height, 2 * E18);
}
