use lib::model::{
    AutoNumberType, Caption, CaptionDirection, Cell, ColumnBreakType, ColumnDef, CommonObjAttr, Control, Footnote,
    HeaderFooter, HeaderFooterApply, HeadType, InnerControl, LineSeg, LineSpacingType, MeasuredParagraph,
    MeasuredSection, MeasuredTable, NewNumber, PageDef, PageHide, PageLayoutInfo, Paragraph, ResolvedParaStyle,
    Table, TextWrap, VertAlign, VertRelTo,
};
use lib::pagination::engine::Paginator;
use lib::pagination::types::{ColumnContent, FootnoteSource, HeaderFooterRef, PageContent, PageItem, PaginationResult};

const PX: i64 = 7200;

fn layout(body_px: i64) -> PageLayoutInfo {
    PageLayoutInfo { available_body_height: body_px * PX, column_width_hu: 30000 }
}

fn column_def(cols: u16, body_px: i64) -> ColumnDef {
    ColumnDef { column_count: cols, layout: layout(body_px) }
}

fn page_def() -> PageDef {
    PageDef { width: 59528, height: 84188, margin_left: 8504, margin_right: 8504 }
}

fn para(text: &str, controls: Vec<Control>, column_type: ColumnBreakType) -> Paragraph {
    Paragraph { text: text.chars().collect(), controls, line_segs: Vec::new(), column_type, para_shape_id: 0 }
}

fn seg(vpos: i32, cs: i32, sw: i32) -> LineSeg {
    LineSeg {
        text_start: 0,
        vertical_pos: vpos,
        line_height: 1000,
        text_height: 1000,
        baseline_distance: 850,
        line_spacing: 0,
        column_start: cs,
        segment_width: sw,
    }
}

fn measured_para(lines_px: &[i64], has_table: bool) -> MeasuredParagraph {
    MeasuredParagraph {
        has_table,
        total_height: lines_px.iter().sum::<i64>() * PX,
        spacing_before: 0,
        spacing_after: 0,
        line_heights: lines_px.iter().map(|h| h * PX).collect(),
        line_spacings: lines_px.iter().map(|_| 0).collect(),
    }
}

fn common(treat_as_char: bool, text_wrap: TextWrap) -> CommonObjAttr {
    CommonObjAttr {
        treat_as_char,
        text_wrap,
        vert_rel_to: VertRelTo::Para,
        vert_align: VertAlign::Top,
        vertical_offset: 0,
        width: 10000,
        height: 10000,
        margin_top: 0,
        margin_bottom: 0,
    }
}

fn table(text_wrap: TextWrap) -> Table {
    Table {
        common: common(false, text_wrap),
        outer_margin_top: 0,
        caption: None,
        row_count: 3,
        cells: Vec::new(),
        is_inline: false,
    }
}

fn measured_table(para_index: usize, rows_px: &[i64]) -> MeasuredTable {
    MeasuredTable {
        para_index,
        control_index: 0,
        total_height: rows_px.iter().sum::<i64>() * PX,
        caption_height: 0,
        cell_spacing: 0,
        row_heights: rows_px.iter().map(|h| h * PX).collect(),
        row_content: rows_px.iter().map(|h| h * PX).collect(),
        row_padding: rows_px.iter().map(|_| 0).collect(),
        row_first_line: rows_px.iter().map(|h| h * PX).collect(),
        row_splittable: rows_px.iter().map(|_| false).collect(),
        has_cells: false,
        repeat_header: false,
        has_header_cells: false,
    }
}

fn style() -> ResolvedParaStyle {
    ResolvedParaStyle {
        line_spacing_type: LineSpacingType::Percent,
        page_break_before: false,
        head_type: HeadType::Plain,
        numbering_id: 0,
        para_level: 0,
    }
}

fn run(paras: &[Paragraph], measured: &MeasuredSection, cols: u16, body_px: i64, hide: bool) -> PaginationResult {
    let p = Paginator { dpi: 96 };
    p.paginate_with_measured_opts(paras, measured, &page_def(), &column_def(cols, body_px), 0, &[style()], hide)
}

fn items(page: &PageContent) -> Vec<PageItem> {
    page.column_contents.iter().flat_map(|c| c.items.iter().copied()).collect()
}

fn is_full(item: &PageItem, pi: usize) -> bool {
    matches!(item, PageItem::FullParagraph { para_index } if *para_index == pi)
}

fn is_partial(item: &PageItem, pi: usize, s: usize, e: usize) -> bool {
    matches!(item, PageItem::PartialParagraph { para_index, start_line, end_line }
        if *para_index == pi && *start_line == s && *end_line == e)
}

#[test]
fn empty_section_has_one_empty_page() {
    let measured = MeasuredSection { paragraphs: Vec::new(), tables: Vec::new() };
    let r = run(&[], &measured, 1, 1000, false);
    assert_eq!(r.pages.len(), 1);
    assert_eq!(r.pages[0].page_index, 0);
    assert_eq!(r.pages[0].page_number, 1);
    assert!(items(&r.pages[0]).is_empty());
    assert!(r.wrap_around_paras.is_empty());
    assert!(r.hidden_empty_paras.is_empty());
}

#[test]
fn paragraphs_that_fit_share_one_page() {
    let paras = vec![
        para("a", vec![], ColumnBreakType::Normal),
        para("b", vec![], ColumnBreakType::Normal),
        para("c", vec![], ColumnBreakType::Normal),
    ];
    let measured = MeasuredSection { paragraphs: (0..3).map(|_| measured_para(&[100], false)).collect(), tables: Vec::new() };
    let r = run(&paras, &measured, 1, 1000, false);
    assert_eq!(r.pages.len(), 1);
    let it = items(&r.pages[0]);
    assert_eq!(it.len(), 3);
    for (i, item) in it.iter().enumerate() {
        assert!(is_full(item, i));
    }
    assert_eq!(r.pages[0].section_index, 0);
}

#[test]
fn overflowing_paragraph_moves_to_next_page() {
    let paras = vec![
        para("a", vec![], ColumnBreakType::Normal),
        para("b", vec![], ColumnBreakType::Normal),
        para("c", vec![], ColumnBreakType::Normal),
    ];
    let measured = MeasuredSection { paragraphs: (0..3).map(|_| measured_para(&[100], false)).collect(), tables: Vec::new() };
    let r = run(&paras, &measured, 1, 250, false);
    assert_eq!(r.pages.len(), 2);
    let p0 = items(&r.pages[0]);
    let p1 = items(&r.pages[1]);
    assert_eq!(p0.len(), 2);
    assert!(is_full(&p0[0], 0) && is_full(&p0[1], 1));
    assert_eq!(p1.len(), 1);
    assert!(is_full(&p1[0], 2));
    assert_eq!(r.pages[0].page_number, 1);
    assert_eq!(r.pages[1].page_number, 2);
    assert_eq!(r.pages[1].page_index, 1);
}

#[test]
fn long_paragraph_splits_by_lines() {
    let paras = vec![para("long", vec![], ColumnBreakType::Normal)];
    let measured = MeasuredSection { paragraphs: vec![measured_para(&[100, 100, 100, 100, 100], false)], tables: Vec::new() };
    let r = run(&paras, &measured, 1, 250, false);
    assert_eq!(r.pages.len(), 3);
    let p0 = items(&r.pages[0]);
    let p1 = items(&r.pages[1]);
    let p2 = items(&r.pages[2]);
    assert!(p0.len() == 1 && is_partial(&p0[0], 0, 0, 2));
    assert!(p1.len() == 1 && is_partial(&p1[0], 0, 2, 4));
    assert!(p2.len() == 1 && is_partial(&p2[0], 0, 4, 5));
}

#[test]
fn page_break_starts_a_new_page() {
    let paras = vec![para("a", vec![], ColumnBreakType::Normal), para("b", vec![], ColumnBreakType::Page)];
    let measured = MeasuredSection { paragraphs: (0..2).map(|_| measured_para(&[100], false)).collect(), tables: Vec::new() };
    let r = run(&paras, &measured, 1, 1000, false);
    assert_eq!(r.pages.len(), 2);
    assert!(is_full(&items(&r.pages[0])[0], 0));
    assert!(is_full(&items(&r.pages[1])[0], 1));
}

#[test]
fn page_break_before_style_starts_a_new_page() {
    let mut paras = vec![para("a", vec![], ColumnBreakType::Normal), para("b", vec![], ColumnBreakType::Normal)];
    paras[1].para_shape_id = 1;
    let mut breaking = style();
    breaking.page_break_before = true;
    let measured = MeasuredSection { paragraphs: (0..2).map(|_| measured_para(&[100], false)).collect(), tables: Vec::new() };
    let p = Paginator { dpi: 96 };
    let r = p.paginate_with_measured(&paras, &measured, &page_def(), &column_def(1, 1000), 0, &[style(), breaking]);
    assert_eq!(r.pages.len(), 2);
}

#[test]
fn column_break_moves_to_next_column() {
    let paras = vec![para("a", vec![], ColumnBreakType::Normal), para("b", vec![], ColumnBreakType::Column)];
    let measured = MeasuredSection { paragraphs: (0..2).map(|_| measured_para(&[100], false)).collect(), tables: Vec::new() };
    let r = run(&paras, &measured, 2, 1000, false);
    assert_eq!(r.pages.len(), 1);
    let cols = &r.pages[0].column_contents;
    assert_eq!(cols.len(), 2);
    assert_eq!(cols[0].column_index, 0);
    assert_eq!(cols[1].column_index, 1);
    assert!(is_full(&cols[0].items[0], 0));
    assert!(is_full(&cols[1].items[0], 1));
}

#[test]
fn headers_and_footers_follow_page_parity() {
    let paras = vec![
        para("a", vec![Control::Header(HeaderFooter { apply_to: HeaderFooterApply::Both })], ColumnBreakType::Normal),
        para("b", vec![Control::Footer(HeaderFooter { apply_to: HeaderFooterApply::Odd })], ColumnBreakType::Page),
        para("c", vec![], ColumnBreakType::Page),
    ];
    let measured = MeasuredSection { paragraphs: (0..3).map(|_| measured_para(&[100], false)).collect(), tables: Vec::new() };
    let r = run(&paras, &measured, 1, 1000, false);
    assert_eq!(r.pages.len(), 3);
    let header = Some(HeaderFooterRef { para_index: 0, control_index: 0, source_section_index: 0 });
    let footer = Some(HeaderFooterRef { para_index: 1, control_index: 0, source_section_index: 0 });
    for p in &r.pages {
        assert_eq!(p.active_header, header);
    }
    assert_eq!(r.pages[0].active_footer, None);
    assert_eq!(r.pages[1].active_footer, None);
    assert_eq!(r.pages[2].active_footer, footer);
}

#[test]
fn new_page_number_restarts_counting() {
    let paras = vec![
        para("a", vec![], ColumnBreakType::Normal),
        para("b", vec![Control::NewNumber(NewNumber { number_type: AutoNumberType::Page, number: 10 })], ColumnBreakType::Page),
        para("c", vec![], ColumnBreakType::Page),
    ];
    let measured = MeasuredSection { paragraphs: (0..3).map(|_| measured_para(&[100], false)).collect(), tables: Vec::new() };
    let r = run(&paras, &measured, 1, 1000, false);
    let numbers: Vec<u32> = r.pages.iter().map(|p| p.page_number).collect();
    assert_eq!(numbers, vec![1, 10, 11]);
}

#[test]
fn page_hide_applies_where_its_paragraph_starts() {
    let hide = PageHide {
        hide_header: true,
        hide_footer: false,
        hide_master_page: false,
        hide_border: false,
        hide_fill: false,
        hide_page_num: true,
    };
    let paras = vec![
        para("a", vec![], ColumnBreakType::Normal),
        para("b", vec![Control::PageHide(hide)], ColumnBreakType::Page),
    ];
    let measured = MeasuredSection { paragraphs: (0..2).map(|_| measured_para(&[100], false)).collect(), tables: Vec::new() };
    let r = run(&paras, &measured, 1, 1000, false);
    assert_eq!(r.pages[0].page_hide, None);
    assert_eq!(r.pages[1].page_hide, Some(hide));
}

#[test]
fn empty_line_at_page_end_is_hidden() {
    let paras = vec![
        para("a", vec![], ColumnBreakType::Normal),
        para("b", vec![], ColumnBreakType::Normal),
        para("", vec![], ColumnBreakType::Normal),
    ];
    let measured = MeasuredSection { paragraphs: (0..3).map(|_| measured_para(&[100], false)).collect(), tables: Vec::new() };
    let hidden = run(&paras, &measured, 1, 250, true);
    assert_eq!(hidden.pages.len(), 1);
    assert_eq!(items(&hidden.pages[0]).len(), 3);
    assert!(hidden.hidden_empty_paras.contains(&2));
    assert_eq!(hidden.hidden_empty_paras.len(), 1);
    let shown = run(&paras, &measured, 1, 250, false);
    assert_eq!(shown.pages.len(), 2);
    assert!(shown.hidden_empty_paras.is_empty());
}

#[test]
fn table_that_fits_is_placed_whole() {
    let paras = vec![para("", vec![Control::Table(table(TextWrap::TopAndBottom))], ColumnBreakType::Normal)];
    let measured = MeasuredSection {
        paragraphs: vec![measured_para(&[200], true)],
        tables: vec![measured_table(0, &[100, 100])],
    };
    let r = run(&paras, &measured, 1, 1000, false);
    assert_eq!(r.pages.len(), 1);
    let it = items(&r.pages[0]);
    assert_eq!(it.len(), 1);
    assert!(matches!(it[0], PageItem::Table { para_index: 0, control_index: 0 }));
}

#[test]
fn tall_table_splits_by_rows() {
    let paras = vec![para("", vec![Control::Table(table(TextWrap::TopAndBottom))], ColumnBreakType::Normal)];
    let measured = MeasuredSection {
        paragraphs: vec![measured_para(&[300], true)],
        tables: vec![measured_table(0, &[100, 100, 100])],
    };
    let r = run(&paras, &measured, 1, 250, false);
    assert_eq!(r.pages.len(), 2);
    let p0 = items(&r.pages[0]);
    let p1 = items(&r.pages[1]);
    assert!(matches!(p0[0], PageItem::PartialTable { para_index: 0, control_index: 0, start_row: 0, end_row: 2, is_continuation: false, .. }));
    assert!(matches!(p1[0], PageItem::PartialTable { para_index: 0, control_index: 0, start_row: 2, end_row: 3, is_continuation: true, .. }));
}

#[test]
fn footnote_is_recorded_on_its_page() {
    let paras = vec![para("a", vec![Control::Footnote(Footnote { number: 1, estimated_height: 50 * PX })], ColumnBreakType::Normal)];
    let measured = MeasuredSection { paragraphs: vec![measured_para(&[100], false)], tables: Vec::new() };
    let r = run(&paras, &measured, 1, 1000, false);
    assert_eq!(r.pages[0].footnotes.len(), 1);
    assert_eq!(r.pages[0].footnotes[0].number, 1);
    assert!(matches!(r.pages[0].footnotes[0].source, FootnoteSource::Body { para_index: 0, control_index: 0 }));
}

#[test]
fn paragraph_beside_wrap_around_table_takes_no_item() {
    let mut p0 = para("", vec![Control::Table(table(TextWrap::Square))], ColumnBreakType::Normal);
    p0.line_segs = vec![seg(0, 100, 2000)];
    let mut p1 = para("x", vec![], ColumnBreakType::Normal);
    p1.line_segs = vec![seg(1000, 100, 2000)];
    let paras = vec![p0, p1];
    let measured = MeasuredSection {
        paragraphs: vec![measured_para(&[100], true), measured_para(&[100], false)],
        tables: vec![measured_table(0, &[100])],
    };
    let r = run(&paras, &measured, 1, 1000, false);
    assert_eq!(r.wrap_around_paras.len(), 1);
    assert_eq!(r.wrap_around_paras[0].para_index, 1);
    assert_eq!(r.wrap_around_paras[0].table_para_index, 0);
    assert!(r.wrap_around_paras[0].has_text);
    let it = items(&r.pages[0]);
    assert!(it.iter().all(|i| i.para_index() == 0));
    assert!(r.pages[0].column_contents.iter().all(|c| c.wrap_around_paras.is_empty()));
}

#[test]
fn items_come_in_paragraph_order() {
    let paras: Vec<Paragraph> = (0..6).map(|i| para("t", vec![], if i % 2 == 1 { ColumnBreakType::Page } else { ColumnBreakType::Normal })).collect();
    let measured = MeasuredSection { paragraphs: (0..6).map(|_| measured_para(&[90, 90], false)).collect(), tables: Vec::new() };
    let r = run(&paras, &measured, 1, 250, false);
    let all: Vec<usize> = r.pages.iter().flat_map(|p| items(p)).map(|i| i.para_index()).collect();
    assert!(all.windows(2).all(|w| w[0] <= w[1]));
    for q in 0..6 {
        assert!(all.contains(&q));
    }
    for (i, p) in r.pages.iter().enumerate() {
        assert_eq!(p.page_index as usize, i);
    }
}

#[test]
fn table_caption_and_cells_are_read() {
    let mut t = table(TextWrap::TopAndBottom);
    t.caption = Some(Caption { direction: CaptionDirection::Bottom, spacing: 0 });
    t.cells = vec![Cell {
        row: 0,
        row_span: 1,
        height: 7200,
        paragraphs: vec![vec![InnerControl::Footnote(Footnote { number: 3, estimated_height: 10 * PX })]],
    }];
    let paras = vec![para("", vec![Control::Table(t)], ColumnBreakType::Normal)];
    let measured = MeasuredSection { paragraphs: vec![measured_para(&[100], true)], tables: vec![measured_table(0, &[100])] };
    let r = run(&paras, &measured, 1, 1000, false);
    assert_eq!(r.pages[0].footnotes.len(), 1);
    assert!(matches!(r.pages[0].footnotes[0].source, FootnoteSource::TableCell { para_index: 0, table_control_index: 0, cell_index: 0, cell_para_index: 0, cell_control_index: 0 }));
}

/// The items of paragraph `q`, in order.
fn items_of(r: &PaginationResult, q: usize) -> Vec<PageItem> {
    r.pages.iter().flat_map(|p| items(p)).filter(|i| i.para_index() == q).collect()
}

/// Whether the items place the lines of paragraph `q` whole, or in parts
/// that cover lines `0..n` in order.
fn lines_covered(parts: &[PageItem], q: usize, n: usize) -> bool {
    if parts.len() == 1 && is_full(&parts[0], q) {
        return true;
    }
    let mut next = 0;
    for p in parts {
        match p {
            PageItem::PartialParagraph { para_index, start_line, end_line } if *para_index == q && *start_line == next && start_line < end_line => {
                next = *end_line;
            }
            _ => return false,
        }
    }
    !parts.is_empty() && next == n
}

#[test]
fn split_paragraph_lines_are_covered_in_order() {
    for body in [120, 150, 250, 320, 450, 1000] {
        let paras = vec![
            para("a", vec![], ColumnBreakType::Normal),
            para("long", vec![], ColumnBreakType::Normal),
        ];
        let measured = MeasuredSection {
            paragraphs: vec![measured_para(&[60], false), measured_para(&[100, 100, 100, 100, 100, 100, 100], false)],
            tables: Vec::new(),
        };
        let r = run(&paras, &measured, 1, body, false);
        assert!(lines_covered(&items_of(&r, 1), 1, 7), "body {}", body);
        assert!(lines_covered(&items_of(&r, 0), 0, 1), "body {}", body);
    }
}

#[test]
fn multicolumn_paragraph_is_placed_column_by_column() {
    let zone = ColumnDef { column_count: 2, layout: layout(1000) };
    let mut p0 = para("", vec![Control::ColumnDef(zone)], ColumnBreakType::MultiColumn);
    p0.line_segs = vec![seg(0, 0, 15000)];
    let mut p1 = para("two columns", vec![], ColumnBreakType::Normal);
    p1.line_segs = vec![seg(1000, 0, 15000), seg(2000, 0, 15000), seg(1000, 15000, 15000), seg(2000, 15000, 15000)];
    let paras = vec![p0, p1];
    let measured = MeasuredSection {
        paragraphs: vec![measured_para(&[20], false), measured_para(&[20, 20, 20, 20], false)],
        tables: Vec::new(),
    };
    let r = run(&paras, &measured, 1, 1000, false);
    let parts = items_of(&r, 1);
    assert_eq!(parts.len(), 2);
    assert!(is_partial(&parts[0], 1, 0, 2));
    assert!(is_partial(&parts[1], 1, 2, 4));
    assert!(lines_covered(&parts, 1, 4));
    let cols = &r.pages[0].column_contents;
    let last = cols.last().unwrap();
    assert_eq!(last.column_index, 1);
}

#[test]
fn multicolumn_break_starts_zone_below_previous_text() {
    let zone = ColumnDef { column_count: 2, layout: layout(1000) };
    let mut p0 = para("a", vec![], ColumnBreakType::Normal);
    p0.line_segs = vec![seg(0, 0, 30000), seg(1000, 0, 30000)];
    let p1 = para("b", vec![Control::ColumnDef(zone)], ColumnBreakType::MultiColumn);
    let paras = vec![p0, p1];
    let measured = MeasuredSection { paragraphs: vec![measured_para(&[20, 20], false), measured_para(&[20], false)], tables: Vec::new() };
    let r = run(&paras, &measured, 1, 1000, false);
    let cols = &r.pages[0].column_contents;
    assert_eq!(cols.len(), 2);
    // The second zone starts where the last line before it ends:
    // vertical position 1000 + line height 1000 = 2000 HWP units, at 96 dpi.
    assert_eq!(cols[1].zone_y_offset, 2000 * 96);
    assert_eq!(cols[1].zone_layout, Some(layout(1000)));
}

/// Whether the items place rows `0..n` of table `c` of paragraph `q`: the
/// table whole, or parts from row 0, each starting where the one before
/// ended (or at its last row when that one cut the row), the last ending at
/// row `n`.
fn rows_covered(parts: &[PageItem], q: usize, c: usize, n: usize) -> bool {
    if parts.len() == 1 && matches!(parts[0], PageItem::Table { para_index, control_index } if para_index == q && control_index == c) {
        return true;
    }
    let mut next: Vec<usize> = vec![0];
    let mut last_end = 0;
    for p in parts {
        match p {
            PageItem::PartialTable { para_index, control_index, start_row, end_row, split_end_content_limit, .. }
                if *para_index == q && *control_index == c && next.contains(start_row) && start_row < end_row =>
            {
                next = if *split_end_content_limit > 0 { vec![*end_row - 1, *end_row] } else { vec![*end_row] };
                last_end = *end_row;
            }
            _ => return false,
        }
    }
    !parts.is_empty() && last_end == n
}

#[test]
fn split_table_rows_cover_the_table_in_order() {
    for body in [120, 180, 250, 330, 1000] {
        let paras = vec![
            para("a", vec![], ColumnBreakType::Normal),
            para("", vec![Control::Table(table(TextWrap::TopAndBottom))], ColumnBreakType::Normal),
        ];
        let mut mt = measured_table(1, &[100, 100, 100, 100]);
        mt.control_index = 0;
        let measured = MeasuredSection {
            paragraphs: vec![measured_para(&[50], false), measured_para(&[400], true)],
            tables: vec![mt],
        };
        let r = run(&paras, &measured, 1, body, false);
        assert!(rows_covered(&items_of(&r, 1), 1, 0, 4), "body {}", body);
    }
}

#[test]
fn row_cut_inside_continues_on_the_next_page() {
    let paras = vec![para("", vec![Control::Table(table(TextWrap::TopAndBottom))], ColumnBreakType::Normal)];
    let mut mt = measured_table(0, &[100, 400]);
    mt.has_cells = true;
    mt.row_splittable = vec![true, true];
    mt.row_first_line = vec![10 * PX, 10 * PX];
    let measured = MeasuredSection { paragraphs: vec![measured_para(&[500], true)], tables: vec![mt] };
    let r = run(&paras, &measured, 1, 300, false);
    let parts = items_of(&r, 0);
    assert!(parts.len() >= 2);
    assert!(matches!(parts[0], PageItem::PartialTable { start_row: 0, end_row: 2, .. }));
    assert!(matches!(parts[1], PageItem::PartialTable { start_row: 1, is_continuation: true, .. }));
    assert!(rows_covered(&parts, 0, 0, 2));
}

#[test]
fn table_treated_as_character_is_followed_by_its_text() {
    let mut t = table(TextWrap::TopAndBottom);
    t.common.treat_as_char = true;
    let paras = vec![para("text", vec![Control::Table(t)], ColumnBreakType::Normal)];
    let measured = MeasuredSection {
        paragraphs: vec![measured_para(&[100, 20], true)],
        tables: vec![measured_table(0, &[100])],
    };
    let r = run(&paras, &measured, 1, 1000, false);
    let it = items(&r.pages[0]);
    assert_eq!(it.len(), 2);
    assert!(matches!(it[0], PageItem::Table { para_index: 0, control_index: 0 }));
    assert!(is_partial(&it[1], 0, 1, 2));
}

#[test]
fn text_above_an_offset_table_comes_first() {
    let mut t = table(TextWrap::TopAndBottom);
    t.common.vertical_offset = 500;
    let paras = vec![para("caption text", vec![Control::Table(t)], ColumnBreakType::Normal)];
    let measured = MeasuredSection {
        paragraphs: vec![measured_para(&[20, 20], true)],
        tables: vec![measured_table(0, &[100])],
    };
    let r = run(&paras, &measured, 1, 1000, false);
    let it = items(&r.pages[0]);
    assert_eq!(it.len(), 2);
    assert!(is_partial(&it[0], 0, 0, 2));
    assert!(matches!(it[1], PageItem::Table { para_index: 0, control_index: 0 }));
}

#[test]
fn every_footnote_is_recorded_once() {
    let paras: Vec<Paragraph> = (0..5)
        .map(|i| para("t", vec![Control::Footnote(Footnote { number: i as u16 + 1, estimated_height: 10 * PX })], ColumnBreakType::Normal))
        .collect();
    let measured = MeasuredSection { paragraphs: (0..5).map(|_| measured_para(&[100], false)).collect(), tables: Vec::new() };
    let r = run(&paras, &measured, 1, 300, false);
    assert!(r.pages.len() >= 2);
    let all: Vec<_> = r.pages.iter().flat_map(|p| p.footnotes.iter().copied()).collect();
    assert_eq!(all.len(), 5);
    for (i, f) in all.iter().enumerate() {
        assert_eq!(f.number as usize, i + 1);
        assert!(matches!(f.source, FootnoteSource::Body { para_index, control_index: 0 } if para_index == i));
    }
}

#[test]
fn at_most_two_empty_lines_are_hidden_per_page() {
    let mut paras = vec![para("a", vec![], ColumnBreakType::Normal)];
    for _ in 0..4 {
        paras.push(para(" ", vec![], ColumnBreakType::Normal));
    }
    let measured = MeasuredSection { paragraphs: (0..5).map(|_| measured_para(&[100], false)).collect(), tables: Vec::new() };
    let r = run(&paras, &measured, 1, 150, true);
    // Paragraphs 1 and 2 overflow the first page and are hidden there; the
    // third empty paragraph on that page is not, and moves to the second
    // page, where paragraph 4 overflows again and is hidden.
    assert!(r.hidden_empty_paras.contains(&1));
    assert!(r.hidden_empty_paras.contains(&2));
    assert!(!r.hidden_empty_paras.contains(&3));
    assert!(r.hidden_empty_paras.contains(&4));
    assert_eq!(r.hidden_empty_paras.len(), 3);
    assert_eq!(r.pages.len(), 2);
    assert!(items(&r.pages[1]).iter().any(|i| is_full(i, 3)));
}

#[test]
fn paragraph_beside_table_in_an_empty_last_column_is_dropped() {
    let mut p0 = para("", vec![Control::Table(table(TextWrap::Square))], ColumnBreakType::Normal);
    p0.line_segs = vec![seg(0, 100, 2000)];
    let mut p1 = para("x", vec![], ColumnBreakType::Column);
    p1.line_segs = vec![seg(1000, 100, 2000)];
    let paras = vec![p0, p1];
    let measured = MeasuredSection {
        paragraphs: vec![measured_para(&[100], true), measured_para(&[100], false)],
        tables: vec![measured_table(0, &[100])],
    };
    let r = run(&paras, &measured, 2, 1000, false);
    // Paragraph 1 moved to the second column, which stays empty: it gets no
    // item and is not among the wrap-around paragraphs either.
    assert!(items_of(&r, 1).is_empty());
    assert!(r.wrap_around_paras.is_empty());
    let all: Vec<usize> = r.pages.iter().flat_map(|p| items(p)).map(|i| i.para_index()).collect();
    assert!(all.iter().all(|&q| q < 1));
}

#[test]
fn footnotes_in_text_boxes_are_recorded() {
    let shape = lib::model::ShapeObject {
        common: common(false, TextWrap::InFrontOfText),
        text_box: Some(vec![
            vec![],
            vec![InnerControl::Footnote(Footnote { number: 7, estimated_height: 10 * PX }), InnerControl::Footnote(Footnote { number: 8, estimated_height: 10 * PX })],
        ]),
    };
    let paras = vec![para("a", vec![Control::Shape(shape)], ColumnBreakType::Normal)];
    let measured = MeasuredSection { paragraphs: vec![measured_para(&[100], false)], tables: Vec::new() };
    let r = run(&paras, &measured, 1, 1000, false);
    let it = items(&r.pages[0]);
    assert!(it.iter().any(|i| matches!(i, PageItem::Shape { para_index: 0, control_index: 0 })));
    let f = &r.pages[0].footnotes;
    assert_eq!(f.len(), 2);
    assert_eq!(f[0].number, 7);
    assert!(matches!(f[0].source, FootnoteSource::ShapeTextBox { para_index: 0, shape_control_index: 0, tb_para_index: 1, tb_control_index: 0 }));
    assert_eq!(f[1].number, 8);
    assert!(matches!(f[1].source, FootnoteSource::ShapeTextBox { para_index: 0, shape_control_index: 0, tb_para_index: 1, tb_control_index: 1 }));
}

fn page_holding(items: Vec<PageItem>) -> PageContent {
    PageContent {
        page_index: 0,
        page_number: 1,
        section_index: 0,
        layout: layout(100),
        column_contents: vec![ColumnContent {
            column_index: 0,
            items,
            zone_layout: None,
            zone_y_offset: 0,
            wrap_around_paras: Vec::new(),
        }],
        active_header: None,
        active_footer: None,
        page_number_pos: None,
        page_hide: None,
        footnotes: Vec::new(),
    }
}

#[test]
fn only_whole_text_or_first_lines_start_a_paragraph() {
    let table_only = page_holding(vec![PageItem::Table { para_index: 0, control_index: 0 }]);
    assert!(!Paginator::para_starts_in_page(&table_only, 0));
    let shape_and_later_lines = page_holding(vec![
        PageItem::Shape { para_index: 0, control_index: 1 },
        PageItem::PartialParagraph { para_index: 0, start_line: 2, end_line: 3 },
    ]);
    assert!(!Paginator::para_starts_in_page(&shape_and_later_lines, 0));
    let first_lines = page_holding(vec![PageItem::PartialParagraph { para_index: 0, start_line: 0, end_line: 2 }]);
    assert!(Paginator::para_starts_in_page(&first_lines, 0));
    let whole = page_holding(vec![PageItem::FullParagraph { para_index: 0 }]);
    assert!(Paginator::para_starts_in_page(&whole, 0));
    assert!(!Paginator::para_starts_in_page(&whole, 1));
}

#[test]
fn page_hide_is_not_applied_where_only_a_table_of_its_paragraph_is() {
    let hide = PageHide {
        hide_header: true,
        hide_footer: false,
        hide_master_page: false,
        hide_border: false,
        hide_fill: false,
        hide_page_num: true,
    };
    let paras = vec![
        para("a", vec![], ColumnBreakType::Normal),
        para("", vec![Control::Table(table(TextWrap::TopAndBottom)), Control::PageHide(hide)], ColumnBreakType::Normal),
    ];
    let measured = MeasuredSection {
        paragraphs: vec![measured_para(&[100], false), measured_para(&[100], true)],
        tables: vec![measured_table(1, &[100])],
    };
    let r = run(&paras, &measured, 1, 150, false);
    assert_eq!(r.pages.len(), 2);
    assert!(items(&r.pages[1]).iter().any(|it| matches!(it, PageItem::Table { para_index: 1, .. })));
    assert_eq!(r.pages[0].page_hide, None);
    assert_eq!(r.pages[1].page_hide, None);
}

#[test]
fn empty_section_page_is_blank() {
    let measured = MeasuredSection { paragraphs: Vec::new(), tables: Vec::new() };
    let r = run(&[], &measured, 2, 1000, false);
    assert_eq!(r.pages.len(), 1);
    assert!(r.pages[0].column_contents.is_empty());
    assert!(r.pages[0].footnotes.is_empty());
}

#[test]
fn columns_of_each_page_come_in_order() {
    let paras: Vec<Paragraph> = (0..6).map(|_| para("a", vec![], ColumnBreakType::Normal)).collect();
    let measured = MeasuredSection { paragraphs: (0..6).map(|_| measured_para(&[200], false)).collect(), tables: Vec::new() };
    let r = run(&paras, &measured, 2, 250, false);
    assert_eq!(r.pages.len(), 3);
    for page in &r.pages {
        let idx: Vec<u16> = page.column_contents.iter().map(|c| c.column_index).collect();
        assert_eq!(idx, vec![0, 1]);
    }
}

#[test]
fn two_columns_on_the_first_page_hide_at_most_two_empty_lines() {
    let paras = vec![
        para("a", vec![], ColumnBreakType::Normal),
        para("", vec![], ColumnBreakType::Normal),
        para("", vec![], ColumnBreakType::Normal),
        para("", vec![], ColumnBreakType::Normal),
        para("b", vec![], ColumnBreakType::Normal),
        para("", vec![], ColumnBreakType::Normal),
    ];
    let heights = [200, 100, 100, 100, 100, 100];
    let measured = MeasuredSection { paragraphs: heights.iter().map(|h| measured_para(&[*h], false)).collect(), tables: Vec::new() };
    let r = run(&paras, &measured, 2, 250, true);
    let mut hidden: Vec<usize> = r.hidden_empty_paras.iter().copied().collect();
    hidden.sort();
    assert_eq!(hidden, vec![1, 2]);
    assert!(r.hidden_empty_paras.len() <= 2 * r.pages.len());
}

#[test]
fn paragraph_that_does_not_fit_starts_with_the_lines_that_fit() {
    // 60 px left after the first paragraph: the second one's first part
    // takes the lines that fit there (two of 25 px), the rest goes on.
    let paras = vec![para("a", vec![], ColumnBreakType::Normal), para("b", vec![], ColumnBreakType::Normal)];
    let measured = MeasuredSection {
        paragraphs: vec![measured_para(&[40], false), measured_para(&[25, 25, 25, 25], false)],
        tables: Vec::new(),
    };
    let r = run(&paras, &measured, 1, 100, false);
    let parts = items_of(&r, 1);
    assert!(is_partial(&parts[0], 1, 0, 2));
    assert!(is_partial(&parts[1], 1, 2, 4));
}
