//! The document model that the page splitter reads: paragraphs with their
//! line segments and controls, the page and column definitions, and the
//! heights that the height measurer found for each paragraph and table.
//!
//! Heights are sub-pixel lengths (see `units`); positions and sizes stored
//! in the document itself are HWP units.

use vstd::prelude::*;

verus! {

/// How a paragraph breaks the flow before it.
#[derive(Clone, Copy, Debug, PartialEq, Eq, Structural)]
pub enum ColumnBreakType {
    Normal,
    Section,
    MultiColumn,
    Page,
    Column,
}

/// One laid-out line of a paragraph, as stored in the document (HWP units).
#[derive(Clone, Copy, Debug)]
pub struct LineSeg {
    pub text_start: u32,
    pub vertical_pos: i32,
    pub line_height: i32,
    pub text_height: i32,
    pub baseline_distance: i32,
    pub line_spacing: i32,
    pub column_start: i32,
    pub segment_width: i32,
}

/// How text flows around an object.
#[derive(Clone, Copy, Debug, PartialEq, Eq, Structural)]
pub enum TextWrap {
    Square,
    TopAndBottom,
    BehindText,
    InFrontOfText,
}

/// What an object's vertical position is relative to.
#[derive(Clone, Copy, Debug, PartialEq, Eq, Structural)]
pub enum VertRelTo {
    Paper,
    Page,
    Para,
}

/// Vertical alignment of an object.
#[derive(Clone, Copy, Debug, PartialEq, Eq, Structural)]
pub enum VertAlign {
    Top,
    Center,
    Bottom,
    Inside,
    Outside,
}

/// Placement attributes shared by tables, pictures and shapes (HWP units).
#[derive(Clone, Copy, Debug)]
pub struct CommonObjAttr {
    pub treat_as_char: bool,
    pub text_wrap: TextWrap,
    pub vert_rel_to: VertRelTo,
    pub vert_align: VertAlign,
    pub vertical_offset: u32,
    pub width: u32,
    pub height: u32,
    pub margin_top: i16,
    pub margin_bottom: i16,
}

/// A footnote control. `estimated_height` is the height (sub-pixels) the
/// height measurer estimates for the footnote's text.
#[derive(Clone, Copy, Debug)]
pub struct Footnote {
    pub number: u16,
    pub estimated_height: i64,
}

/// A control inside a paragraph of a table cell or of a text box.
#[derive(Clone, Copy, Debug)]
pub enum InnerControl {
    Footnote(Footnote),
    Other,
}

#[derive(Clone, Copy, Debug, PartialEq, Eq, Structural)]
pub enum CaptionDirection {
    Left,
    Right,
    Top,
    Bottom,
}

#[derive(Clone, Copy, Debug)]
pub struct Caption {
    pub direction: CaptionDirection,
    pub spacing: i16,
}

/// A table cell: its grid position, height (HWP units) and, for each of its
/// paragraphs, that paragraph's controls.
#[derive(Clone, Debug)]
pub struct Cell {
    pub row: u16,
    pub row_span: u16,
    pub height: u32,
    pub paragraphs: Vec<Vec<InnerControl>>,
}

/// A table control. `is_inline` says whether the height measurer found this
/// treat-as-character table to sit inside a text line rather than on a line
/// of its own.
#[derive(Clone, Debug)]
pub struct Table {
    pub common: CommonObjAttr,
    pub outer_margin_top: i16,
    pub caption: Option<Caption>,
    pub row_count: u16,
    pub cells: Vec<Cell>,
    pub is_inline: bool,
}

/// A drawing object; `text_box` holds, for each paragraph of its text box,
/// that paragraph's controls.
#[derive(Clone, Debug)]
pub struct ShapeObject {
    pub common: CommonObjAttr,
    pub text_box: Option<Vec<Vec<InnerControl>>>,
}

#[derive(Clone, Copy, Debug)]
pub struct Picture {
    pub common: CommonObjAttr,
}

/// Pages that a header or footer applies to.
#[derive(Clone, Copy, Debug, PartialEq, Eq, Structural)]
pub enum HeaderFooterApply {
    Both,
    Even,
    Odd,
}

#[derive(Clone, Copy, Debug)]
pub struct HeaderFooter {
    pub apply_to: HeaderFooterApply,
}

/// Which page decorations to hide on the page where its paragraph starts.
#[derive(Clone, Copy, Debug, PartialEq, Eq, Structural)]
pub struct PageHide {
    pub hide_header: bool,
    pub hide_footer: bool,
    pub hide_master_page: bool,
    pub hide_border: bool,
    pub hide_fill: bool,
    pub hide_page_num: bool,
}

/// Where and how page numbers are printed.
#[derive(Clone, Copy, Debug, PartialEq, Eq, Structural)]
pub struct PageNumberPos {
    pub format: u8,
    pub position: u8,
    pub user_symbol: char,
    pub prefix_char: char,
    pub suffix_char: char,
}

#[derive(Clone, Copy, Debug, PartialEq, Eq, Structural)]
pub enum AutoNumberType {
    Page,
    Footnote,
    Endnote,
    Picture,
    Table,
    Equation,
}

/// Restarts a numbering sequence at `number`.
#[derive(Clone, Copy, Debug)]
pub struct NewNumber {
    pub number_type: AutoNumberType,
    pub number: u16,
}

/// Geometry of one page zone (sub-pixels and HWP units): the height of the
/// body area available for text and the width of one column.
#[derive(Clone, Copy, Debug, PartialEq, Eq, Structural)]
pub struct PageLayoutInfo {
    pub available_body_height: i64,
    pub column_width_hu: i32,
}

/// A column definition together with the page layout it gives on the
/// section's page.
#[derive(Clone, Copy, Debug)]
pub struct ColumnDef {
    pub column_count: u16,
    pub layout: PageLayoutInfo,
}

/// An automatic number already assigned when the document was read;
/// `number_text` is that number written in the control's number format.
#[derive(Clone, Debug)]
pub struct AutoNumber {
    pub number_type: AutoNumberType,
    pub assigned_number: u16,
    pub number_text: Vec<char>,
    pub prefix_char: char,
    pub suffix_char: char,
}

/// A control embedded in a paragraph.
#[derive(Clone, Debug)]
pub enum Control {
    Table(Table),
    Shape(ShapeObject),
    Picture(Picture),
    Equation,
    Footnote(Footnote),
    Header(HeaderFooter),
    Footer(HeaderFooter),
    PageHide(PageHide),
    PageNumberPos(PageNumberPos),
    NewNumber(NewNumber),
    ColumnDef(ColumnDef),
    AutoNumber(AutoNumber),
    Other,
}

/// A paragraph of a section.
#[derive(Clone, Debug)]
pub struct Paragraph {
    pub text: Vec<char>,
    pub controls: Vec<Control>,
    pub line_segs: Vec<LineSeg>,
    pub column_type: ColumnBreakType,
    pub para_shape_id: u16,
}

/// Size of the paper and its side margins (HWP units).
#[derive(Clone, Copy, Debug)]
pub struct PageDef {
    pub width: u32,
    pub height: u32,
    pub margin_left: u32,
    pub margin_right: u32,
}

#[derive(Clone, Copy, Debug, PartialEq, Eq, Structural)]
pub enum LineSpacingType {
    Percent,
    Fixed,
    SpaceOnly,
    Minimum,
}

#[derive(Clone, Copy, Debug, PartialEq, Eq, Structural)]
pub enum HeadType {
    Plain,
    Outline,
    Number,
    Bullet,
}

/// The resolved paragraph shape properties that pagination and numbering read.
#[derive(Clone, Copy, Debug)]
pub struct ResolvedParaStyle {
    pub line_spacing_type: LineSpacingType,
    pub page_break_before: bool,
    pub head_type: HeadType,
    pub numbering_id: u16,
    pub para_level: u8,
}

/// Heights the measurer found for one paragraph (sub-pixels).
#[derive(Clone, Debug)]
pub struct MeasuredParagraph {
    pub has_table: bool,
    pub total_height: i64,
    pub spacing_before: i64,
    pub spacing_after: i64,
    pub line_heights: Vec<i64>,
    pub line_spacings: Vec<i64>,
}

/// Heights the measurer found for one table (sub-pixels). Row `r` is
/// `row_heights[r]` high including cell padding; its tallest cell content is
/// `row_content[r]`, its largest vertical cell padding `row_padding[r]`, the
/// first text line of its cells `row_first_line[r]`, and `row_splittable[r]`
/// says whether the row may be split inside. A row without an entry in one
/// of the per-row vectors counts as zero there (not splittable).
#[derive(Clone, Debug)]
pub struct MeasuredTable {
    pub para_index: usize,
    pub control_index: usize,
    pub total_height: i64,
    pub caption_height: i64,
    pub cell_spacing: i64,
    pub row_heights: Vec<i64>,
    pub row_content: Vec<i64>,
    pub row_padding: Vec<i64>,
    pub row_first_line: Vec<i64>,
    pub row_splittable: Vec<bool>,
    pub has_cells: bool,
    pub repeat_header: bool,
    pub has_header_cells: bool,
}

/// Measured heights of a section: `paragraphs[i]` belongs to paragraph `i`.
#[derive(Clone, Debug)]
pub struct MeasuredSection {
    pub paragraphs: Vec<MeasuredParagraph>,
    pub tables: Vec<MeasuredTable>,
}

} // verus!
