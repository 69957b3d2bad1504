use vstd::prelude::*;

verus! {

/// The Unicode character drawn for a Wingdings symbol code that is used as a
/// bullet, where the renderer knows one.
pub open spec fn wingdings_symbol(w: int) -> Option<char> {
    if w == 0x6C || w == 0x6D { Some('\u{25CF}') }
    else if w == 0x6E { Some('\u{25A0}') }
    else if 0x6F <= w <= 0x72 { Some('\u{25A1}') }
    else if w == 0x73 { Some('\u{2B27}') }
    else if w == 0x74 { Some('\u{29EB}') }
    else if w == 0x75 { Some('\u{25C6}') }
    else if w == 0x76 { Some('\u{2756}') }
    else if w == 0x77 { Some('\u{2B25}') }
    else if w == 0x9E { Some('\u{00B7}') }
    else if w == 0x9F { Some('\u{2022}') }
    else if w == 0xA0 || w == 0xA7 { Some('\u{25AA}') }
    else if w == 0xA1 { Some('\u{26AA}') }
    else if w == 0xA2 || w == 0xA3 { Some('\u{25CB}') }
    else if w == 0xA4 { Some('\u{25C9}') }
    else if w == 0xA5 { Some('\u{25CE}') }
    else if w == 0xA8 { Some('\u{25FB}') }
    else if w == 0xAA { Some('\u{2726}') }
    else if w == 0xAB { Some('\u{2605}') }
    else if w == 0xAC { Some('\u{2736}') }
    else if w == 0xAD { Some('\u{2734}') }
    else if w == 0xAE { Some('\u{2739}') }
    else if w == 0x45 { Some('\u{261C}') }
    else if w == 0x46 { Some('\u{261E}') }
    else if w == 0x47 { Some('\u{261D}') }
    else if w == 0x48 { Some('\u{261F}') }
    else if w == 0xFB { Some('\u{2717}') }
    else if w == 0xFC { Some('\u{2714}') }
    else if w == 0xFD { Some('\u{2612}') }
    else if w == 0xFE { Some('\u{2611}') }
    else if w == 0xEF { Some('\u{21E6}') }
    else if w == 0xF0 { Some('\u{21E8}') }
    else if w == 0xF1 { Some('\u{21E7}') }
    else if w == 0xF2 { Some('\u{21E9}') }
    else if w == 0x22 { Some('\u{2702}') }
    else if w == 0x36 { Some('\u{231B}') }
    else if w == 0x4A { Some('\u{263A}') }
    else if w == 0x4E { Some('\u{2620}') }
    else if w == 0x52 { Some('\u{263C}') }
    else if w == 0x54 { Some('\u{2744}') }
    else if w == 0x58 { Some('\u{2720}') }
    else if w == 0x59 { Some('\u{2721}') }
    else { None }
}

/// What a bullet character becomes once private-use Wingdings codes
/// (U+F020..=U+F0FF) are replaced by their standard Unicode symbols.
pub open spec fn spec_map_pua_bullet_char(ch: char) -> char {
    let code = ch as int;
    if 0xF020 <= code <= 0xF0FF {
        match wingdings_symbol(code - 0xF000) {
            Some(c) => c,
            None => ch,
        }
    } else {
        ch
    }
}

fn wingdings_symbol_exec(w: u8) -> (r: Option<char>)
    ensures
        r == wingdings_symbol(w as int),
{
    match w {
        0x6C => Some('\u{25CF}'),
        0x6D => Some('\u{25CF}'),
        0x6E => Some('\u{25A0}'),
        0x6F => Some('\u{25A1}'),
        0x70 => Some('\u{25A1}'),
        0x71 => Some('\u{25A1}'),
        0x72 => Some('\u{25A1}'),
        0x73 => Some('\u{2B27}'),
        0x74 => Some('\u{29EB}'),
        0x75 => Some('\u{25C6}'),
        0x76 => Some('\u{2756}'),
        0x77 => Some('\u{2B25}'),
        0x9E => Some('\u{00B7}'),
        0x9F => Some('\u{2022}'),
        0xA0 => Some('\u{25AA}'),
        0xA1 => Some('\u{26AA}'),
        0xA2 => Some('\u{25CB}'),
        0xA3 => Some('\u{25CB}'),
        0xA4 => Some('\u{25C9}'),
        0xA5 => Some('\u{25CE}'),
        0xA7 => Some('\u{25AA}'),
        0xA8 => Some('\u{25FB}'),
        0xAA => Some('\u{2726}'),
        0xAB => Some('\u{2605}'),
        0xAC => Some('\u{2736}'),
        0xAD => Some('\u{2734}'),
        0xAE => Some('\u{2739}'),
        0x45 => Some('\u{261C}'),
        0x46 => Some('\u{261E}'),
        0x47 => Some('\u{261D}'),
        0x48 => Some('\u{261F}'),
        0xFB => Some('\u{2717}'),
        0xFC => Some('\u{2714}'),
        0xFD => Some('\u{2612}'),
        0xFE => Some('\u{2611}'),
        0xEF => Some('\u{21E6}'),
        0xF0 => Some('\u{21E8}'),
        0xF1 => Some('\u{21E7}'),
        0xF2 => Some('\u{21E9}'),
        0x22 => Some('\u{2702}'),
        0x36 => Some('\u{231B}'),
        0x4A => Some('\u{263A}'),
        0x4E => Some('\u{2620}'),
        0x52 => Some('\u{263C}'),
        0x54 => Some('\u{2744}'),
        0x58 => Some('\u{2720}'),
        0x59 => Some('\u{2721}'),
        _ => None,
    }
}

/// Maps a bullet stored as a private-use Wingdings code to the standard
/// Unicode symbol; any other character, and private-use codes without a
/// known symbol, are returned unchanged.
pub fn map_pua_bullet_char(ch: char) -> (r: char)
    ensures
        r == spec_map_pua_bullet_char(ch),
{
    let code = ch as u32;
    if !(0xF020 <= code && code <= 0xF0FF) {
        return ch;
    }
    let w = (code - 0xF000) as u8;
    match wingdings_symbol_exec(w) {
        Some(c) => c,
        None => ch,
    }
}

/// The Wingdings private-use bullets and the Unicode symbols drawn for them:
/// filled circle, black square, white squares, diamonds, stars, hands,
/// check boxes, arrows and the other symbols, each code to its own symbol;
/// the black square and the white square stay apart.
pub proof fn law_wingdings_bullet_table()
    ensures
        spec_map_pua_bullet_char('\u{F06C}') == '\u{25CF}',
        spec_map_pua_bullet_char('\u{F06D}') == '\u{25CF}',
        spec_map_pua_bullet_char('\u{F06E}') == '\u{25A0}',
        spec_map_pua_bullet_char('\u{F06F}') == '\u{25A1}',
        spec_map_pua_bullet_char('\u{F070}') == '\u{25A1}',
        spec_map_pua_bullet_char('\u{F071}') == '\u{25A1}',
        spec_map_pua_bullet_char('\u{F072}') == '\u{25A1}',
        spec_map_pua_bullet_char('\u{F073}') == '\u{2B27}',
        spec_map_pua_bullet_char('\u{F074}') == '\u{29EB}',
        spec_map_pua_bullet_char('\u{F075}') == '\u{25C6}',
        spec_map_pua_bullet_char('\u{F076}') == '\u{2756}',
        spec_map_pua_bullet_char('\u{F077}') == '\u{2B25}',
        spec_map_pua_bullet_char('\u{F09E}') == '\u{00B7}',
        spec_map_pua_bullet_char('\u{F09F}') == '\u{2022}',
        spec_map_pua_bullet_char('\u{F0A0}') == '\u{25AA}',
        spec_map_pua_bullet_char('\u{F0A1}') == '\u{26AA}',
        spec_map_pua_bullet_char('\u{F0A2}') == '\u{25CB}',
        spec_map_pua_bullet_char('\u{F0A3}') == '\u{25CB}',
        spec_map_pua_bullet_char('\u{F0A4}') == '\u{25C9}',
        spec_map_pua_bullet_char('\u{F0A5}') == '\u{25CE}',
        spec_map_pua_bullet_char('\u{F0A7}') == '\u{25AA}',
        spec_map_pua_bullet_char('\u{F0A8}') == '\u{25FB}',
        spec_map_pua_bullet_char('\u{F0AA}') == '\u{2726}',
        spec_map_pua_bullet_char('\u{F0AB}') == '\u{2605}',
        spec_map_pua_bullet_char('\u{F0AC}') == '\u{2736}',
        spec_map_pua_bullet_char('\u{F0AD}') == '\u{2734}',
        spec_map_pua_bullet_char('\u{F0AE}') == '\u{2739}',
        spec_map_pua_bullet_char('\u{F045}') == '\u{261C}',
        spec_map_pua_bullet_char('\u{F046}') == '\u{261E}',
        spec_map_pua_bullet_char('\u{F047}') == '\u{261D}',
        spec_map_pua_bullet_char('\u{F048}') == '\u{261F}',
        spec_map_pua_bullet_char('\u{F0FB}') == '\u{2717}',
        spec_map_pua_bullet_char('\u{F0FC}') == '\u{2714}',
        spec_map_pua_bullet_char('\u{F0FD}') == '\u{2612}',
        spec_map_pua_bullet_char('\u{F0FE}') == '\u{2611}',
        spec_map_pua_bullet_char('\u{F0EF}') == '\u{21E6}',
        spec_map_pua_bullet_char('\u{F0F0}') == '\u{21E8}',
        spec_map_pua_bullet_char('\u{F0F1}') == '\u{21E7}',
        spec_map_pua_bullet_char('\u{F0F2}') == '\u{21E9}',
        spec_map_pua_bullet_char('\u{F022}') == '\u{2702}',
        spec_map_pua_bullet_char('\u{F036}') == '\u{231B}',
        spec_map_pua_bullet_char('\u{F04A}') == '\u{263A}',
        spec_map_pua_bullet_char('\u{F04E}') == '\u{2620}',
        spec_map_pua_bullet_char('\u{F052}') == '\u{263C}',
        spec_map_pua_bullet_char('\u{F054}') == '\u{2744}',
        spec_map_pua_bullet_char('\u{F058}') == '\u{2720}',
        spec_map_pua_bullet_char('\u{F059}') == '\u{2721}',
        spec_map_pua_bullet_char('\u{F06E}') != spec_map_pua_bullet_char('\u{F06F}'),
{
}

/// A character outside the Wingdings private-use range is kept, and so is
/// a private-use code without a known symbol; a known symbol is never a
/// private-use code itself.
pub proof fn law_map_pua_bullet_char_range(ch: char)
    ensures
        !(0xF020 <= ch as int <= 0xF0FF) ==> spec_map_pua_bullet_char(ch) == ch,
        spec_map_pua_bullet_char(ch) != ch ==> !(0xF020 <= spec_map_pua_bullet_char(ch) as int <= 0xF0FF),
{
}

/// The Wingdings codes that have a symbol of their own.
pub open spec fn known_wingdings_codes() -> Set<int> {
    set![0x6Cint, 0x6Dint, 0x6Eint, 0x6Fint, 0x70int, 0x71int, 0x72int, 0x73int, 0x74int, 0x75int, 0x76int, 0x77int, 0x9Eint, 0x9Fint, 0xA0int, 0xA1int, 0xA2int, 0xA3int, 0xA4int, 0xA5int, 0xA7int, 0xA8int, 0xAAint, 0xABint, 0xACint, 0xADint, 0xAEint, 0x45int, 0x46int, 0x47int, 0x48int, 0xFBint, 0xFCint, 0xFDint, 0xFEint, 0xEFint, 0xF0int, 0xF1int, 0xF2int, 0x22int, 0x36int, 0x4Aint, 0x4Eint, 0x52int, 0x54int, 0x58int, 0x59int]
}

/// A private-use Wingdings code outside the known ones is kept as it is;
/// each known one is replaced.
pub proof fn law_unknown_wingdings_kept(ch: char)
    requires
        0xF020 <= ch as int <= 0xF0FF,
    ensures
        !known_wingdings_codes().contains(ch as int - 0xF000) ==> spec_map_pua_bullet_char(ch) == ch,
        known_wingdings_codes().contains(ch as int - 0xF000) ==> spec_map_pua_bullet_char(ch) != ch,
{
}

/// Mapping a bullet twice gives what mapping it once gives.
pub proof fn law_map_pua_bullet_char_idempotent(ch: char)
    ensures
        spec_map_pua_bullet_char(spec_map_pua_bullet_char(ch)) == spec_map_pua_bullet_char(ch),
{
}

} // verus!
