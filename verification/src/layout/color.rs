//! Colours.

use vstd::prelude::*;

verus! {

/// Lower-case hexadecimal digit of `d` (0..16).
pub open spec fn hex_digit(d: int) -> char {
    if d == 0 { '0' } else if d == 1 { '1' } else if d == 2 { '2' } else if d == 3 { '3' }
    else if d == 4 { '4' } else if d == 5 { '5' } else if d == 6 { '6' } else if d == 7 { '7' }
    else if d == 8 { '8' } else if d == 9 { '9' } else if d == 10 { 'a' } else if d == 11 { 'b' }
    else if d == 12 { 'c' } else if d == 13 { 'd' } else if d == 14 { 'e' } else { 'f' }
}

/// The CSS colour `#rrggbb` (lower-case hexadecimal) of an HWP colour
/// reference, which holds red in its lowest byte, then green, then blue.
pub open spec fn css_color(color: u32) -> Seq<char> {
    let r = (color as int) % 256;
    let g = ((color as int) / 256) % 256;
    let b = ((color as int) / 65536) % 256;
    seq!['#', hex_digit(r / 16), hex_digit(r % 16), hex_digit(g / 16), hex_digit(g % 16), hex_digit(b / 16), hex_digit(b % 16)]
}

/// The value of a lower-case hexadecimal digit character.
pub open spec fn hex_value(c: char) -> int {
    if '0' <= c && c <= '9' { c as int - '0' as int } else { c as int - 'a' as int + 10 }
}

/// Whether `c` is a lower-case hexadecimal digit.
pub open spec fn is_lower_hex(c: char) -> bool {
    ('0' <= c && c <= '9') || ('a' <= c && c <= 'f')
}

/// The hexadecimal digit of `d` is the character whose code is `d` past
/// '0' for 0..9 and `d - 10` past 'a' for 10..15: digits are lower-case,
/// in order, and each gives back its value.
pub proof fn law_hex_digit(d: int)
    requires
        0 <= d < 16,
    ensures
        d < 10 ==> hex_digit(d) as int == '0' as int + d,
        d >= 10 ==> hex_digit(d) as int == 'a' as int + (d - 10),
        is_lower_hex(hex_digit(d)),
        hex_value(hex_digit(d)) == d,
{
}

/// The CSS colour of a colour reference is '#' followed by two lower-case
/// hexadecimal digits for each of red (lowest byte), green and blue, whose
/// values give back the bytes.
pub proof fn law_css_color(color: u32)
    ensures
        css_color(color).len() == 7,
        css_color(color)[0] == '#',
        forall|k: int| 1 <= k < 7 ==> is_lower_hex(#[trigger] css_color(color)[k]),
        hex_value(css_color(color)[1]) * 16 + hex_value(css_color(color)[2]) == (color as int) % 256,
        hex_value(css_color(color)[3]) * 16 + hex_value(css_color(color)[4]) == ((color as int) / 256) % 256,
        hex_value(css_color(color)[5]) * 16 + hex_value(css_color(color)[6]) == ((color as int) / 65536) % 256,
{
    let r = (color as int) % 256;
    let g = ((color as int) / 256) % 256;
    let b = ((color as int) / 65536) % 256;
    law_hex_digit(r / 16);
    law_hex_digit(r % 16);
    law_hex_digit(g / 16);
    law_hex_digit(g % 16);
    law_hex_digit(b / 16);
    law_hex_digit(b % 16);
    let s = css_color(color);
    assert forall|k: int| 1 <= k < 7 implies is_lower_hex(#[trigger] s[k]) by {
        if k == 1 {} else if k == 2 {} else if k == 3 {} else if k == 4 {} else if k == 5 {} else {}
    }
}

fn hex_digit_exec(d: u32) -> (c: char)
    requires
        d < 16,
    ensures
        c == hex_digit(d as int),
{
    if d == 0 { '0' } else if d == 1 { '1' } else if d == 2 { '2' } else if d == 3 { '3' }
    else if d == 4 { '4' } else if d == 5 { '5' } else if d == 6 { '6' } else if d == 7 { '7' }
    else if d == 8 { '8' } else if d == 9 { '9' } else if d == 10 { 'a' } else if d == 11 { 'b' }
    else if d == 12 { 'c' } else if d == 13 { 'd' } else if d == 14 { 'e' } else { 'f' }
}

/// Appends a character to a string.
///
/// Trusted: calls `String::push`, which appends `c` to the end of the
/// string; the contract claims exactly that of the string's characters.
#[verifier::external_body]
pub(crate) fn string_push(s: &mut String, c: char)
    ensures
        final(s)@ == old(s)@.push(c),
{
    s.push(c);
}

/// Converts an HWP colour reference (0x00BBGGRR) to a CSS colour string.
pub fn form_color_to_css(color: u32) -> (r: String)
    ensures
        r@ == css_color(color),
{
    let b = (color / 65536) % 256;
    let g = (color / 256) % 256;
    let red = color % 256;
    let mut s = String::new();
    string_push(&mut s, '#');
    string_push(&mut s, hex_digit_exec(red / 16));
    string_push(&mut s, hex_digit_exec(red % 16));
    string_push(&mut s, hex_digit_exec(g / 16));
    string_push(&mut s, hex_digit_exec(g % 16));
    string_push(&mut s, hex_digit_exec(b / 16));
    string_push(&mut s, hex_digit_exec(b % 16));
    proof {
        assert(s@ =~= css_color(color));
    }
    s
}

} // verus!
