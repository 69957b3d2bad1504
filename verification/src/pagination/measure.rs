//! Lookups into the measured heights of a section. Every height read is
//! saturated into the range of lengths.

use vstd::prelude::*;
use crate::model::{MeasuredParagraph, MeasuredSection, MeasuredTable};
use crate::units::{len_ok, clamp_len, clamp_len_exec, clamp_wide, len_add, max_int};

verus! {

impl MeasuredParagraph {
    /// Height of line `i` (without its line spacing).
    pub open spec fn spec_line_height(&self, i: int) -> int {
        clamp_len(self.line_heights@[i] as int)
    }

    /// Line spacing after line `i`, zero where none is recorded.
    pub open spec fn spec_line_spacing(&self, i: int) -> int {
        if 0 <= i < self.line_spacings@.len() { clamp_len(self.line_spacings@[i] as int) } else { 0 }
    }

    /// Vertical advance of line `i`: its height and the spacing after it.
    pub open spec fn spec_line_advance(&self, i: int) -> int {
        clamp_len(self.spec_line_height(i) + self.spec_line_spacing(i))
    }

    /// Sum of the advances of lines `start..end`.
    pub open spec fn spec_line_advances_sum(&self, start: int, end: int) -> int
        decreases end - start,
    {
        if end <= start { 0 } else { clamp_len(self.spec_line_advances_sum(start, end - 1) + self.spec_line_advance(end - 1)) }
    }

    pub fn height(&self) -> (r: i64)
        ensures
            r == clamp_len(self.total_height as int),
            len_ok(r as int),
    {
        clamp_len_exec(self.total_height)
    }

    pub fn spacing_before(&self) -> (r: i64)
        ensures
            r == clamp_len(self.spacing_before as int),
            len_ok(r as int),
    {
        clamp_len_exec(self.spacing_before)
    }

    pub fn spacing_after(&self) -> (r: i64)
        ensures
            r == clamp_len(self.spacing_after as int),
            len_ok(r as int),
    {
        clamp_len_exec(self.spacing_after)
    }

    pub fn line_height(&self, i: usize) -> (r: i64)
        requires
            i < self.line_heights@.len(),
        ensures
            r == self.spec_line_height(i as int),
            len_ok(r as int),
    {
        clamp_len_exec(self.line_heights[i])
    }

    pub fn line_spacing(&self, i: usize) -> (r: i64)
        ensures
            r == self.spec_line_spacing(i as int),
            len_ok(r as int),
    {
        if i < self.line_spacings.len() { clamp_len_exec(self.line_spacings[i]) } else { 0 }
    }

    pub fn line_advance(&self, i: usize) -> (r: i64)
        requires
            i < self.line_heights@.len(),
        ensures
            r == self.spec_line_advance(i as int),
            len_ok(r as int),
    {
        len_add(self.line_height(i), self.line_spacing(i))
    }

    /// Sum of the advances of lines `start..end`.
    pub fn line_advances_sum(&self, start: usize, end: usize) -> (r: i64)
        requires
            end <= self.line_heights@.len(),
        ensures
            r == self.spec_line_advances_sum(start as int, end as int),
            len_ok(r as int),
    {
        if end <= start {
            return 0;
        }
        let mut sum: i64 = 0;
        let mut i = start;
        while i < end
            invariant
                start <= i <= end <= self.line_heights@.len(),
                sum == self.spec_line_advances_sum(start as int, i as int),
                len_ok(sum as int),
            decreases end - i,
        {
            sum = len_add(sum, self.line_advance(i));
            i += 1;
        }
        sum
    }
}

impl MeasuredTable {
    pub open spec fn row_count(&self) -> int {
        self.row_heights@.len() as int
    }

    /// Largest vertical cell padding of row `r` (zero where not recorded).
    pub open spec fn spec_row_padding(&self, r: int) -> int {
        if 0 <= r < self.row_padding@.len() { clamp_len(self.row_padding@[r] as int) } else { 0 }
    }

    /// Height of the first text line in the cells of row `r` (zero where
    /// not recorded).
    pub open spec fn spec_row_first_line(&self, r: int) -> int {
        if 0 <= r < self.row_first_line@.len() { clamp_len(self.row_first_line@[r] as int) } else { 0 }
    }

    /// Whether row `r` may be split inside (no where not recorded).
    pub open spec fn spec_row_splittable(&self, r: int) -> bool {
        0 <= r < self.row_splittable@.len() && self.row_splittable@[r]
    }

    /// Tallest cell content of row `r` (zero where not recorded).
    pub open spec fn spec_row_content(&self, r: int) -> int {
        if 0 <= r < self.row_content@.len() { clamp_len(self.row_content@[r] as int) } else { 0 }
    }

    pub open spec fn spec_row_height(&self, r: int) -> int {
        clamp_len(self.row_heights@[r] as int)
    }

    pub open spec fn spec_cell_spacing(&self) -> int {
        clamp_len(self.cell_spacing as int)
    }

    /// Height of rows `start..end` with the cell spacing between them.
    pub open spec fn spec_range_height(&self, start: int, end: int) -> int
        decreases end - start,
    {
        if end <= start {
            0
        } else if end == start + 1 {
            self.spec_row_height(start)
        } else {
            clamp_len(clamp_len(self.spec_range_height(start, end - 1) + self.spec_cell_spacing()) + self.spec_row_height(end - 1))
        }
    }

    /// Content of row `r` still to be placed after `offset` of it is placed.
    pub open spec fn spec_remaining_content(&self, r: int, offset: int) -> int {
        clamp_len(self.spec_row_content(r) - offset)
    }

    /// Height of row `r` once `offset` of its content is placed elsewhere.
    pub open spec fn spec_effective_row_height(&self, r: int, offset: int) -> int {
        max_int(0, clamp_len(self.spec_row_height(r) - offset))
    }

    pub fn total_height(&self) -> (r: i64)
        ensures
            r == clamp_len(self.total_height as int),
            len_ok(r as int),
    {
        clamp_len_exec(self.total_height)
    }

    pub fn caption_height(&self) -> (r: i64)
        ensures
            r == clamp_len(self.caption_height as int),
            len_ok(r as int),
    {
        clamp_len_exec(self.caption_height)
    }

    pub fn cell_spacing(&self) -> (r: i64)
        ensures
            r == self.spec_cell_spacing(),
            len_ok(r as int),
    {
        clamp_len_exec(self.cell_spacing)
    }

    pub fn row_height(&self, r: usize) -> (h: i64)
        requires
            r < self.row_heights@.len(),
        ensures
            h == self.spec_row_height(r as int),
            len_ok(h as int),
    {
        clamp_len_exec(self.row_heights[r])
    }

    /// Largest vertical cell padding in row `r`.
    pub fn max_padding_for_row(&self, r: usize) -> (h: i64)
        ensures
            h == self.spec_row_padding(r as int),
            len_ok(h as int),
    {
        if r < self.row_padding.len() { clamp_len_exec(self.row_padding[r]) } else { 0 }
    }

    /// Whether row `r` may be split inside.
    pub fn is_row_splittable(&self, r: usize) -> (b: bool)
        ensures
            b == self.spec_row_splittable(r as int),
    {
        r < self.row_splittable.len() && self.row_splittable[r]
    }

    /// Content of row `r` left after `offset` of it is placed.
    pub fn remaining_content_for_row(&self, r: usize, offset: i64) -> (h: i64)
        requires
            len_ok(offset as int),
        ensures
            h == self.spec_remaining_content(r as int, offset as int),
            len_ok(h as int),
    {
        let c = if r < self.row_content.len() { clamp_len_exec(self.row_content[r]) } else { 0 };
        clamp_wide(c as i128 - offset as i128)
    }

    /// Height of the first text line of the cells of row `r`.
    pub fn min_first_line_height_for_row(&self, r: usize, _offset: i64) -> (h: i64)
        ensures
            h == self.spec_row_first_line(r as int),
            len_ok(h as int),
    {
        if r < self.row_first_line.len() { clamp_len_exec(self.row_first_line[r]) } else { 0 }
    }

    /// Height of row `r` once `offset` of its content is placed elsewhere.
    pub fn effective_row_height(&self, r: usize, offset: i64) -> (h: i64)
        requires
            r < self.row_heights@.len(),
            len_ok(offset as int),
        ensures
            h == self.spec_effective_row_height(r as int, offset as int),
            len_ok(h as int),
    {
        let d = clamp_wide(self.row_height(r) as i128 - offset as i128);
        if d > 0 { d } else { 0 }
    }

    /// Height of rows `start..end` with the cell spacing between them.
    pub fn range_height(&self, start: usize, end: usize) -> (h: i64)
        requires
            end <= self.row_heights@.len(),
        ensures
            h == self.spec_range_height(start as int, end as int),
            len_ok(h as int),
    {
        if end <= start {
            return 0;
        }
        let mut h = self.row_height(start);
        let mut i = start + 1;
        while i < end
            invariant
                start < i <= end <= self.row_heights@.len(),
                h == self.spec_range_height(start as int, i as int),
                len_ok(h as int),
            decreases end - i,
        {
            h = len_add(len_add(h, self.cell_spacing()), self.row_height(i));
            i += 1;
        }
        h
    }

    /// The end of the longest run of rows from `start` that fits into
    /// `avail`, taking the first row as `first_row_h` high; `start` when not
    /// even the first row fits.
    pub open spec fn spec_find_break_row(&self, avail: int, start: int, first_row_h: int, end: int, acc: int) -> int
        decreases self.row_count() - end,
    {
        if end >= self.row_count() {
            end
        } else {
            let h = if end == start { first_row_h } else { clamp_len(clamp_len(acc + self.spec_cell_spacing()) + self.spec_row_height(end)) };
            if h > avail { end } else { self.spec_find_break_row(avail, start, first_row_h, end + 1, h) }
        }
    }

    pub fn find_break_row(&self, avail: i64, start: usize, first_row_h: i64) -> (end: usize)
        requires
            start <= self.row_heights@.len(),
            len_ok(first_row_h as int),
        ensures
            end == self.spec_find_break_row(avail as int, start as int, first_row_h as int, start as int, 0),
            start <= end <= self.row_heights@.len(),
    {
        let n = self.row_heights.len();
        let mut end = start;
        let mut acc: i64 = 0;
        while end < n
            invariant
                start <= end <= n == self.row_heights@.len(),
                len_ok(acc as int),
                len_ok(first_row_h as int),
                self.spec_find_break_row(avail as int, start as int, first_row_h as int, start as int, 0)
                    == self.spec_find_break_row(avail as int, start as int, first_row_h as int, end as int, acc as int),
            decreases n - end,
        {
            let h = if end == start { first_row_h } else { len_add(len_add(acc, self.cell_spacing()), self.row_height(end)) };
            if h > avail {
                return end;
            }
            acc = h;
            end += 1;
        }
        end
    }
}

/// The first of `tables` from entry `k` on recorded for control `ci` of
/// paragraph `pi`.
pub open spec fn table_of_from(tables: Seq<MeasuredTable>, pi: int, ci: int, k: int) -> Option<MeasuredTable>
    decreases tables.len() - k,
{
    if k < 0 || k >= tables.len() {
        None
    } else if tables[k].para_index == pi && tables[k].control_index == ci {
        Some(tables[k])
    } else {
        table_of_from(tables, pi, ci, k + 1)
    }
}

impl MeasuredSection {
    /// Whether the measurer found a table in paragraph `pi`.
    pub open spec fn spec_paragraph_has_table(&self, pi: int) -> bool {
        0 <= pi < self.paragraphs@.len() && self.paragraphs@[pi].has_table
    }

    pub fn paragraph_has_table(&self, pi: usize) -> (b: bool)
        ensures
            b == self.spec_paragraph_has_table(pi as int),
    {
        pi < self.paragraphs.len() && self.paragraphs[pi].has_table
    }

    pub fn get_measured_paragraph(&self, pi: usize) -> (r: Option<&MeasuredParagraph>)
        ensures
            r == (if pi < self.paragraphs@.len() { Some(&self.paragraphs@[pi as int]) } else { None }),
    {
        if pi < self.paragraphs.len() { Some(&self.paragraphs[pi]) } else { None }
    }

    /// Measured height of paragraph `pi`.
    pub fn get_paragraph_height(&self, pi: usize) -> (r: Option<i64>)
        ensures
            r == (if pi < self.paragraphs@.len() { Some(clamp_len(self.paragraphs@[pi as int].total_height as int) as i64) } else { None }),
            r matches Some(h) ==> len_ok(h as int),
    {
        if pi < self.paragraphs.len() { Some(self.paragraphs[pi].height()) } else { None }
    }

    /// The first measured table recorded for control `ci` of paragraph `pi`.
    pub open spec fn spec_table_of(&self, pi: int, ci: int) -> Option<MeasuredTable> {
        table_of_from(self.tables@, pi, ci, 0)
    }

    /// The measured table of control `ci` in paragraph `pi`.
    pub fn get_measured_table(&self, pi: usize, ci: usize) -> (r: Option<&MeasuredTable>)
        ensures
            match r {
                Some(t) => exists|k: int| 0 <= k < self.tables@.len() && self.tables@[k] == *t
                    && t.para_index == pi && t.control_index == ci
                    && forall|j: int| 0 <= j < k ==> !(#[trigger] self.tables@[j].para_index == pi && self.tables@[j].control_index == ci),
                None => forall|k: int| 0 <= k < self.tables@.len() ==> !(#[trigger] self.tables@[k].para_index == pi && self.tables@[k].control_index == ci),
            },
            match r {
                Some(t) => self.spec_table_of(pi as int, ci as int) == Some(*t),
                None => self.spec_table_of(pi as int, ci as int) is None,
            },
    {
        let mut k: usize = 0;
        while k < self.tables.len()
            invariant
                0 <= k <= self.tables@.len(),
                forall|j: int| 0 <= j < k ==> !(#[trigger] self.tables@[j].para_index == pi && self.tables@[j].control_index == ci),
                table_of_from(self.tables@, pi as int, ci as int, 0) == table_of_from(self.tables@, pi as int, ci as int, k as int),
            decreases self.tables@.len() - k,
        {
            if self.tables[k].para_index == pi && self.tables[k].control_index == ci {
                return Some(&self.tables[k]);
            }
            k += 1;
        }
        None
    }

    /// Measured total height of the table of control `ci` in paragraph `pi`.
    pub fn get_table_height(&self, pi: usize, ci: usize) -> (r: Option<i64>)
        ensures
            r matches Some(h) ==> len_ok(h as int),
            match r {
                Some(h) => exists|k: int| 0 <= k < self.tables@.len()
                    && self.tables@[k].para_index == pi && self.tables@[k].control_index == ci
                    && h == clamp_len(self.tables@[k].total_height as int)
                    && forall|j: int| 0 <= j < k ==> !(#[trigger] self.tables@[j].para_index == pi && self.tables@[j].control_index == ci),
                None => forall|k: int| 0 <= k < self.tables@.len() ==> !(#[trigger] self.tables@[k].para_index == pi && self.tables@[k].control_index == ci),
            },
            r == (match self.spec_table_of(pi as int, ci as int) {
                Some(t) => Some(clamp_len(t.total_height as int) as i64),
                None => None,
            }),
    {
        match self.get_measured_table(pi, ci) {
            Some(t) => Some(t.total_height()),
            None => None,
        }
    }
}

} // verus!
