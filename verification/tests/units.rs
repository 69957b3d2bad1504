use lib::model::{MeasuredParagraph, MeasuredSection, MeasuredTable, LineSeg, ColumnBreakType, Paragraph};
use lib::pagination::engine::Paginator;
use lib::text::{count_newlines, is_all_whitespace, is_blank, is_control, is_whitespace};
use lib::units::{clamp_len_exec, hwpunit_to_px, len_add, len_sub, LEN_LIMIT};

const PX: i64 = 7200;

#[test]
fn hwp_units_to_sub_pixels() {
    // One inch at 96 pixels per inch is 96 pixels.
    assert_eq!(hwpunit_to_px(7200, 96), 96 * PX);
    assert_eq!(hwpunit_to_px(400, 96), 38400);
    assert_eq!(hwpunit_to_px(-7200, 72), -72 * PX);
    assert_eq!(hwpunit_to_px(1 << 34, i64::MAX), LEN_LIMIT);
}

#[test]
fn lengths_saturate() {
    assert_eq!(len_add(LEN_LIMIT, 5), LEN_LIMIT);
    assert_eq!(len_sub(-LEN_LIMIT, 5), -LEN_LIMIT);
    assert_eq!(len_add(3, 4), 7);
    assert_eq!(clamp_len_exec(i64::MIN), -LEN_LIMIT);
}

#[test]
fn character_classes() {
    assert!(is_whitespace(' ') && is_whitespace('\n') && is_whitespace('\u{3000}') && is_whitespace('\u{A0}'));
    assert!(!is_whitespace('a') && !is_whitespace('\u{0}'));
    assert!(is_control('\u{0}') && is_control('\u{1F}') && is_control('\u{85}'));
    assert!(!is_control(' ') && !is_control('\u{A0}'));
    assert!(is_blank(&"\u{2} \t".chars().collect()));
    assert!(!is_blank(&"a".chars().collect()));
    assert!(is_all_whitespace(&" \r\n".chars().collect()));
    assert!(!is_all_whitespace(&"\u{2}".chars().collect()));
    assert_eq!(count_newlines(&"a\nb\n".chars().collect()), 2);
}

fn mp() -> MeasuredParagraph {
    MeasuredParagraph {
        has_table: false,
        total_height: 60,
        spacing_before: 1,
        spacing_after: 2,
        line_heights: vec![10, 20, 30],
        line_spacings: vec![1, 2],
    }
}

#[test]
fn line_advances() {
    let m = mp();
    assert_eq!(m.line_advance(0), 11);
    assert_eq!(m.line_advance(2), 30);
    assert_eq!(m.line_advances_sum(0, 3), 63);
    assert_eq!(m.line_advances_sum(1, 3), 52);
    assert_eq!(m.line_advances_sum(2, 1), 0);
}

fn mt() -> MeasuredTable {
    MeasuredTable {
        para_index: 4,
        control_index: 1,
        total_height: 100,
        caption_height: 0,
        cell_spacing: 5,
        row_heights: vec![10, 20, 30],
        row_content: vec![8, 18],
        row_padding: vec![1, 1, 1],
        row_first_line: vec![4, 4, 4],
        row_splittable: vec![true],
        has_cells: true,
        repeat_header: false,
        has_header_cells: false,
    }
}

#[test]
fn table_rows() {
    let t = mt();
    assert_eq!(t.range_height(0, 3), 10 + 5 + 20 + 5 + 30);
    assert_eq!(t.range_height(1, 2), 20);
    assert_eq!(t.find_break_row(40, 0, 10), 2);
    assert_eq!(t.find_break_row(5, 0, 10), 0);
    assert_eq!(t.find_break_row(1000, 1, 20), 3);
    assert_eq!(t.remaining_content_for_row(1, 10), 8);
    assert_eq!(t.remaining_content_for_row(2, 0), 0);
    assert!(t.is_row_splittable(0) && !t.is_row_splittable(1));
    assert_eq!(t.effective_row_height(2, 40), 0);
    assert_eq!(t.effective_row_height(2, 10), 20);
    assert_eq!(t.max_padding_for_row(7), 0);
}

#[test]
fn measured_lookups() {
    let s = MeasuredSection { paragraphs: vec![mp()], tables: vec![mt()] };
    assert!(!s.paragraph_has_table(0) && !s.paragraph_has_table(5));
    assert_eq!(s.get_paragraph_height(0), Some(60));
    assert_eq!(s.get_paragraph_height(1), None);
    assert!(s.get_measured_table(4, 1).is_some());
    assert!(s.get_measured_table(4, 0).is_none());
    assert_eq!(s.get_table_height(4, 1), Some(100));
}

fn seg(vpos: i32) -> LineSeg {
    LineSeg { text_start: 0, vertical_pos: vpos, line_height: 10, text_height: 10, baseline_distance: 8, line_spacing: 0, column_start: 0, segment_width: 0 }
}

#[test]
fn column_breaks_of_a_paragraph() {
    let p = Paragraph {
        text: Vec::new(),
        controls: Vec::new(),
        line_segs: vec![seg(0), seg(100), seg(0), seg(100), seg(50)],
        column_type: ColumnBreakType::Normal,
        para_shape_id: 0,
    };
    assert_eq!(Paginator::detect_column_breaks_in_paragraph(&p), vec![0, 2, 4]);
}
