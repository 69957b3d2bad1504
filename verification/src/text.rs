//! Character classes used on paragraph text.

use vstd::prelude::*;

verus! {

/// Unicode White_Space, as `char::is_whitespace` defines it.
pub open spec fn spec_is_whitespace(c: char) -> bool {
    let u = c as u32;
    (0x9 <= u <= 0xD) || u == 0x20 || u == 0x85 || u == 0xA0 || u == 0x1680
        || (0x2000 <= u <= 0x200A) || u == 0x2028 || u == 0x2029 || u == 0x202F
        || u == 0x205F || u == 0x3000
}

/// Unicode general category Cc, as `char::is_control` defines it.
pub open spec fn spec_is_control(c: char) -> bool {
    let u = c as u32;
    u <= 0x1F || (0x7F <= u <= 0x9F)
}

pub fn is_whitespace(c: char) -> (r: bool)
    ensures
        r == spec_is_whitespace(c),
{
    let u = c as u32;
    (0x9 <= u && u <= 0xD) || u == 0x20 || u == 0x85 || u == 0xA0 || u == 0x1680
        || (0x2000 <= u && u <= 0x200A) || u == 0x2028 || u == 0x2029 || u == 0x202F
        || u == 0x205F || u == 0x3000
}

pub fn is_control(c: char) -> (r: bool)
    ensures
        r == spec_is_control(c),
{
    let u = c as u32;
    u <= 0x1F || (0x7F <= u && u <= 0x9F)
}

/// Whether the text is empty once control characters are removed and
/// white space is trimmed.
pub open spec fn spec_is_blank(text: Seq<char>) -> bool {
    forall|i: int| 0 <= i < text.len() ==> spec_is_control(#[trigger] text[i]) || spec_is_whitespace(text[i])
}

/// Whether the text holds white space only.
pub open spec fn spec_is_all_whitespace(text: Seq<char>) -> bool {
    forall|i: int| 0 <= i < text.len() ==> spec_is_whitespace(#[trigger] text[i])
}

pub fn is_blank(text: &Vec<char>) -> (r: bool)
    ensures
        r == spec_is_blank(text@),
{
    let mut i: usize = 0;
    while i < text.len()
        invariant
            0 <= i <= text@.len(),
            forall|j: int| 0 <= j < i ==> spec_is_control(#[trigger] text@[j]) || spec_is_whitespace(text@[j]),
        decreases text@.len() - i,
    {
        if !(is_control(text[i]) || is_whitespace(text[i])) {
            return false;
        }
        i += 1;
    }
    true
}

pub fn is_all_whitespace(text: &Vec<char>) -> (r: bool)
    ensures
        r == spec_is_all_whitespace(text@),
{
    let mut i: usize = 0;
    while i < text.len()
        invariant
            0 <= i <= text@.len(),
            forall|j: int| 0 <= j < i ==> spec_is_whitespace(#[trigger] text@[j]),
        decreases text@.len() - i,
    {
        if !is_whitespace(text[i]) {
            return false;
        }
        i += 1;
    }
    true
}

/// Number of line feeds in the text.
pub open spec fn spec_count_newlines(text: Seq<char>) -> int
    decreases text.len(),
{
    if text.len() == 0 { 0 } else { spec_count_newlines(text.drop_last()) + if text.last() == '\n' { 1int } else { 0 } }
}

pub fn count_newlines(text: &Vec<char>) -> (r: usize)
    ensures
        r == spec_count_newlines(text@),
{
    let mut n: usize = 0;
    let mut i: usize = 0;
    while i < text.len()
        invariant
            0 <= i <= text@.len(),
            n == spec_count_newlines(text@.take(i as int)),
            n <= i,
        decreases text@.len() - i,
    {
        proof {
            assert(text@.take(i + 1).drop_last() =~= text@.take(i as int));
        }
        if text[i] == '\n' {
            n += 1;
        }
        i += 1;
    }
    proof {
        assert(text@.take(text@.len() as int) =~= text@);
    }
    n
}

} // verus!
