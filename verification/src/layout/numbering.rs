//! Paragraph heads and automatic numbers.

use vstd::prelude::*;
use crate::model::{Control, Paragraph};
use crate::units::{len_ok, max_int};
use super::bullet::{map_pua_bullet_char, spec_map_pua_bullet_char};
use super::color::string_push;

verus! {

/// A bullet definition: the bullet character and the distance between it
/// and the text.
#[derive(Clone, Copy, Debug)]
pub struct Bullet {
    pub bullet_char: char,
    pub text_distance: i16,
}

/// A run of text of a composed line.
#[derive(Clone, Debug)]
pub struct ComposedRun {
    pub text: Vec<char>,
}

/// A composed line: its runs of text.
#[derive(Clone, Debug)]
pub struct ComposedLine {
    pub runs: Vec<ComposedRun>,
}

/// A paragraph broken into lines and runs, with the head text (number or
/// bullet) shown before it.
#[derive(Clone, Debug)]
pub struct ComposedParagraph {
    pub lines: Vec<ComposedLine>,
    pub numbering_text: Option<String>,
}

/// Lays out paragraphs.
pub struct LayoutEngine {
    pub dpi: i64,
}

/// The head text of a bullet paragraph: the bullet (private-use Wingdings
/// codes mapped to Unicode), followed by a space when the bullet stands
/// apart from the text. None for bullet number 0, an unknown bullet, or an
/// image bullet (U+FFFF).
pub open spec fn spec_bullet_head_text(bullets: Seq<Bullet>, bullet_id: u16) -> Option<Seq<char>> {
    if bullet_id == 0 || bullet_id > bullets.len() {
        None
    } else {
        let b = bullets[bullet_id - 1];
        if b.bullet_char == '\u{FFFF}' {
            None
        } else {
            let ch = spec_map_pua_bullet_char(b.bullet_char);
            Some(if b.text_distance > 0 { seq![ch, ' '] } else { seq![ch] })
        }
    }
}

/// The head text of a paragraph with bullet number `bullet_id` (1-based).
pub fn bullet_head_text(bullets: &[Bullet], bullet_id: u16) -> (r: Option<String>)
    ensures
        match r {
            Some(s) => spec_bullet_head_text(bullets@, bullet_id) == Some(s@),
            None => spec_bullet_head_text(bullets@, bullet_id) is None,
        },
{
    if bullet_id == 0 || (bullet_id as usize) > bullets.len() {
        return None;
    }
    let b = bullets[(bullet_id - 1) as usize];
    if b.bullet_char == '\u{FFFF}' {
        return None;
    }
    let ch = map_pua_bullet_char(b.bullet_char);
    let mut s = String::new();
    string_push(&mut s, ch);
    if b.text_distance > 0 {
        string_push(&mut s, ' ');
    }
    proof {
        if b.text_distance > 0 {
            assert(s@ =~= seq![ch, ' ']);
        } else {
            assert(s@ =~= seq![ch]);
        }
    }
    Some(s)
}

/// The number text of an automatic number with its decorations: the prefix
/// and suffix characters where they are not NUL.
pub open spec fn decorated_number(an: crate::model::AutoNumber) -> Seq<char> {
    (if an.prefix_char != '\0' { seq![an.prefix_char] } else { Seq::empty() })
        + an.number_text@
        + (if an.suffix_char != '\0' { seq![an.suffix_char] } else { Seq::empty() })
}

/// The decorated number is the prefix (where it is not NUL), then the
/// number text, then the suffix (where it is not NUL), each decoration
/// independently of the other.
pub proof fn law_decorated_number(an: crate::model::AutoNumber)
    ensures
        decorated_number(an).len() == an.number_text@.len()
            + (if an.prefix_char != '\0' { 1int } else { 0int }) + (if an.suffix_char != '\0' { 1int } else { 0int }),
        an.prefix_char != '\0' ==> decorated_number(an)[0] == an.prefix_char,
        an.suffix_char != '\0' ==> decorated_number(an).last() == an.suffix_char,
        decorated_number(an).subrange(if an.prefix_char != '\0' { 1int } else { 0int },
            (if an.prefix_char != '\0' { 1int } else { 0int }) + an.number_text@.len()) == an.number_text@,
{
    let p: Seq<char> = if an.prefix_char != '\0' { seq![an.prefix_char] } else { Seq::empty() };
    let q: Seq<char> = if an.suffix_char != '\0' { seq![an.suffix_char] } else { Seq::empty() };
    let d = decorated_number(an);
    assert(d == p + an.number_text@ + q);
    assert(d.subrange(p.len() as int, (p.len() + an.number_text@.len()) as int) =~= an.number_text@);
}

/// Index of the first automatic-number control among `ctrls`.
pub open spec fn first_auto_number(ctrls: Seq<Control>) -> Option<int> {
    if exists|i: int| 0 <= i < ctrls.len() && (#[trigger] ctrls[i]) is AutoNumber {
        Some(choose|i: int| 0 <= i < ctrls.len() && (#[trigger] ctrls[i]) is AutoNumber
            && forall|j: int| 0 <= j < i ==> !(#[trigger] ctrls[j] is AutoNumber))
    } else {
        None
    }
}

/// Whether `t` holds two spaces in a row starting at `p`.
pub open spec fn double_space_at(t: Seq<char>, p: int) -> bool {
    0 <= p && p + 1 < t.len() && t[p] == ' ' && t[p + 1] == ' '
}

/// The first run (by line, then by run) that holds two spaces in a row,
/// with the position of the first such pair in it.
pub open spec fn is_first_double_space(lines: Seq<ComposedLine>, l: int, r: int, p: int) -> bool {
    &&& 0 <= l < lines.len()
    &&& 0 <= r < lines[l].runs@.len()
    &&& double_space_at(lines[l].runs@[r].text@, p)
    &&& forall|q: int| 0 <= q < p ==> !double_space_at(lines[l].runs@[r].text@, q)
    &&& forall|l2: int, r2: int, q: int| 0 <= l2 < lines.len() && 0 <= r2 < lines[l2].runs@.len()
        && (l2 < l || (l2 == l && r2 < r)) ==> !#[trigger] double_space_at(lines[l2].runs@[r2].text@, q)
}

/// No run holds two spaces in a row.
pub open spec fn no_double_space(lines: Seq<ComposedLine>) -> bool {
    forall|l: int, r: int, q: int| 0 <= l < lines.len() && 0 <= r < lines[l].runs@.len()
        ==> !#[trigger] double_space_at(lines[l].runs@[r].text@, q)
}

/// The run texts of `new` are those of `old`, except that run `r` of line
/// `l` is `text`.
pub open spec fn runs_replaced(old: Seq<ComposedLine>, new: Seq<ComposedLine>, l: int, r: int, text: Seq<char>) -> bool {
    &&& new.len() == old.len()
    &&& forall|i: int| 0 <= i < old.len() ==> (#[trigger] new[i]).runs@.len() == old[i].runs@.len()
    &&& forall|i: int, j: int| 0 <= i < old.len() && 0 <= j < old[i].runs@.len() ==>
        (#[trigger] new[i].runs@[j]).text@ == (if i == l && j == r { text } else { old[i].runs@[j].text@ })
}

/// The first double space of `t`, searched from `from`.
fn find_double_space(t: &Vec<char>) -> (r: Option<usize>)
    ensures
        match r {
            Some(p) => double_space_at(t@, p as int) && forall|q: int| 0 <= q < p ==> !double_space_at(t@, q),
            None => forall|q: int| !double_space_at(t@, q),
        },
{
    let n = t.len();
    if n < 2 {
        return None;
    }
    let mut p: usize = 0;
    while p < n - 1
        invariant
            n == t@.len(),
            n >= 2,
            p <= n - 1,
            forall|q: int| 0 <= q < p ==> !double_space_at(t@, q),
        decreases n - p,
    {
        if t[p] == ' ' && t[p + 1] == ' ' {
            return Some(p);
        }
        p += 1;
    }
    None
}

impl LayoutEngine {
    /// Writes the first automatic number of the paragraph into its composed
    /// text: where a run holds two spaces in a row (the place holder the
    /// document keeps for the number), the decorated number goes between
    /// them. Only the first such run, and only the first automatic number,
    /// are used.
    pub fn apply_auto_numbers_to_composed(&self, composed: &mut ComposedParagraph, para: &Paragraph)
        ensures
            final(composed).numbering_text == old(composed).numbering_text,
            match first_auto_number(para.controls@) {
                Some(a) => match para.controls@[a] {
                    Control::AutoNumber(an) => {
                        ||| (no_double_space(old(composed).lines@) && final(composed).lines@ == old(composed).lines@)
                        ||| exists|l: int, r: int, p: int| is_first_double_space(old(composed).lines@, l, r, p)
                            && runs_replaced(old(composed).lines@, final(composed).lines@, l, r, {
                                let t = old(composed).lines@[l].runs@[r].text@;
                                t.take(p + 1) + decorated_number(an) + t.skip(p + 1)
                            })
                    },
                    _ => false,
                },
                None => final(composed).lines@ == old(composed).lines@,
            },
    {
        let mut ci: usize = 0;
        while ci < para.controls.len()
            invariant
                0 <= ci <= para.controls@.len(),
                *composed == *old(composed),
                forall|j: int| 0 <= j < ci ==> !(#[trigger] para.controls@[j] is AutoNumber),
            decreases para.controls@.len() - ci,
        {
            if let Control::AutoNumber(an) = &para.controls[ci] {
                proof {
                    assert(para.controls@[ci as int] is AutoNumber);
                    assert(first_auto_number(para.controls@) == Some(ci as int));
                }
                // The decorated number.
                let mut num: Vec<char> = Vec::new();
                if an.prefix_char != '\0' {
                    num.push(an.prefix_char);
                }
                let mut k: usize = 0;
                while k < an.number_text.len()
                    invariant
                        0 <= k <= an.number_text@.len(),
                        num@ == (if an.prefix_char != '\0' { seq![an.prefix_char] } else { Seq::empty() }) + an.number_text@.take(k as int),
                    decreases an.number_text@.len() - k,
                {
                    num.push(an.number_text[k]);
                    k += 1;
                    proof {
                        assert(an.number_text@.take(k as int) =~= an.number_text@.take(k - 1).push(an.number_text@[k - 1]));
                    }
                }
                if an.suffix_char != '\0' {
                    num.push(an.suffix_char);
                }
                proof {
                    assert(an.number_text@.take(an.number_text@.len() as int) =~= an.number_text@);
                    assert(num@ =~= decorated_number(*an));
                }

                // The first run holding the place holder.
                let mut li: usize = 0;
                while li < composed.lines.len()
                    invariant
                        0 <= li <= composed.lines@.len(),
                        *composed == *old(composed),
                        num@ == decorated_number(*an),
                        first_auto_number(para.controls@) == Some(ci as int),
                        para.controls@[ci as int] == Control::AutoNumber(*an),
                        forall|l2: int, r2: int, q: int| 0 <= l2 < li && 0 <= r2 < composed.lines@[l2].runs@.len()
                            ==> !#[trigger] double_space_at(composed.lines@[l2].runs@[r2].text@, q),
                    decreases composed.lines@.len() - li,
                {
                    let mut ri: usize = 0;
                    while ri < composed.lines[li].runs.len()
                        invariant
                            0 <= li < composed.lines@.len(),
                            0 <= ri <= composed.lines@[li as int].runs@.len(),
                            *composed == *old(composed),
                            num@ == decorated_number(*an),
                            first_auto_number(para.controls@) == Some(ci as int),
                            para.controls@[ci as int] == Control::AutoNumber(*an),
                            forall|l2: int, r2: int, q: int| 0 <= l2 < composed.lines@.len() && 0 <= r2 < composed.lines@[l2].runs@.len()
                                && (l2 < li || (l2 == li && r2 < ri)) ==> !#[trigger] double_space_at(composed.lines@[l2].runs@[r2].text@, q),
                        decreases composed.lines@[li as int].runs@.len() - ri,
                    {
                        match find_double_space(&composed.lines[li].runs[ri].text) {
                            Some(pos) => {
                                let ghost old_lines = composed.lines@;
                                let t = &composed.lines[li].runs[ri].text;
                                let tlen = t.len();
                                let mut nt: Vec<char> = Vec::new();
                                let mut k: usize = 0;
                                while k <= pos
                                    invariant
                                        0 <= k <= pos + 1,
                                        pos + 1 < t@.len(),
                                        tlen == t@.len(),
                                        nt@ == t@.take(k as int),
                                    decreases pos + 1 - k,
                                {
                                    nt.push(t[k]);
                                    k += 1;
                                    proof { assert(t@.take(k as int) =~= t@.take(k - 1).push(t@[k - 1])); }
                                }
                                let mut k: usize = 0;
                                while k < num.len()
                                    invariant
                                        0 <= k <= num@.len(),
                                        nt@ == t@.take(pos + 1) + num@.take(k as int),
                                    decreases num@.len() - k,
                                {
                                    nt.push(num[k]);
                                    k += 1;
                                    proof { assert(num@.take(k as int) =~= num@.take(k - 1).push(num@[k - 1])); }
                                }
                                let mut k: usize = pos + 1;
                                while k < t.len()
                                    invariant
                                        pos + 1 <= k <= t@.len(),
                                        nt@ == t@.take(pos + 1) + num@ + t@.subrange(pos + 1, k as int),
                                    decreases t@.len() - k,
                                {
                                    nt.push(t[k]);
                                    k += 1;
                                    proof { assert(t@.subrange(pos + 1, k as int) =~= t@.subrange(pos + 1, k - 1).push(t@[k - 1])); }
                                }
                                proof {
                                    assert(num@.take(num@.len() as int) =~= num@);
                                    assert(t@.subrange(pos + 1, t@.len() as int) =~= t@.skip(pos + 1));
                                }
                                composed.lines[li].runs[ri].text = nt;
                                proof {
                                    assert(is_first_double_space(old_lines, li as int, ri as int, pos as int));
                                    assert(runs_replaced(old_lines, composed.lines@, li as int, ri as int,
                                        old_lines[li as int].runs@[ri as int].text@.take(pos + 1) + decorated_number(*an)
                                            + old_lines[li as int].runs@[ri as int].text@.skip(pos + 1)));
                                    assert(old_lines == old(composed).lines@);
                                    assert(exists|l: int, r: int, p: int| is_first_double_space(old(composed).lines@, l, r, p)
                                        && runs_replaced(old(composed).lines@, composed.lines@, l, r, {
                                            let t = old(composed).lines@[l].runs@[r].text@;
                                            t.take(p + 1) + decorated_number(*an) + t.skip(p + 1)
                                        }));
                                }
                                return;
                            },
                            None => {},
                        }
                        ri += 1;
                    }
                    li += 1;
                }
                proof {
                    assert(no_double_space(composed.lines@));
                }
                return;
            }
            ci += 1;
        }
        proof {
            assert(first_auto_number(para.controls@) is None);
        }
    }

    /// The body height below a baseline is kept to at least four fifths of
    /// the largest font size on the line (rounded down to a whole
    /// sub-pixel), so that glyphs do not rise above the line box; a
    /// non-positive font size leaves the baseline as it is.
    pub fn ensure_min_baseline(raw_baseline: i64, max_font_size: i64) -> (r: i64)
        requires
            len_ok(max_font_size as int),
        ensures
            r == (if max_font_size <= 0 { raw_baseline as int } else { max_int(raw_baseline as int, max_font_size * 4 / 5) }),
    {
        if max_font_size <= 0 {
            return raw_baseline;
        }
        let min_baseline = ((max_font_size as i128) * 4 / 5) as i64;
        if raw_baseline >= min_baseline { raw_baseline } else { min_baseline }
    }
}

} // verus!
