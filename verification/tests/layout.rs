use lib::layout::bullet::map_pua_bullet_char;
use lib::layout::color::form_color_to_css;
use lib::layout::numbering::{bullet_head_text, Bullet, ComposedLine, ComposedParagraph, ComposedRun, LayoutEngine};
use lib::model::{AutoNumber, AutoNumberType, ColumnBreakType, Control, Paragraph};

#[test]
fn pua_bullets_map_to_unicode() {
    assert_eq!(map_pua_bullet_char('\u{F06C}'), '\u{25CF}');
    assert_eq!(map_pua_bullet_char('\u{F0A7}'), '\u{25AA}');
    assert_eq!(map_pua_bullet_char('\u{F0FC}'), '\u{2714}');
    assert_eq!(map_pua_bullet_char('\u{F022}'), '\u{2702}');
}

#[test]
fn other_characters_stay() {
    assert_eq!(map_pua_bullet_char('A'), 'A');
    assert_eq!(map_pua_bullet_char('\u{F01F}'), '\u{F01F}');
    assert_eq!(map_pua_bullet_char('\u{F100}'), '\u{F100}');
    // In the private-use range but without a known symbol.
    assert_eq!(map_pua_bullet_char('\u{F030}'), '\u{F030}');
}

#[test]
fn mapping_twice_is_mapping_once() {
    for c in ['\u{F06C}', '\u{F09F}', 'x', '\u{F030}'] {
        assert_eq!(map_pua_bullet_char(map_pua_bullet_char(c)), map_pua_bullet_char(c));
    }
}

#[test]
fn colour_reference_to_css() {
    assert_eq!(form_color_to_css(0x00FF8000), "#0080ff");
    assert_eq!(form_color_to_css(0x00000000), "#000000");
    assert_eq!(form_color_to_css(0x00123456), "#563412");
    assert_eq!(form_color_to_css(0xFFFFFFFF), "#ffffff");
}

#[test]
fn bullet_head_texts() {
    let bullets = vec![
        Bullet { bullet_char: '\u{F06C}', text_distance: 50 },
        Bullet { bullet_char: '-', text_distance: 0 },
        Bullet { bullet_char: '\u{FFFF}', text_distance: 10 },
    ];
    assert_eq!(bullet_head_text(&bullets, 1), Some("\u{25CF} ".to_string()));
    assert_eq!(bullet_head_text(&bullets, 2), Some("-".to_string()));
    assert_eq!(bullet_head_text(&bullets, 3), None);
    assert_eq!(bullet_head_text(&bullets, 0), None);
    assert_eq!(bullet_head_text(&bullets, 4), None);
}

fn composed(runs: &[&[&str]]) -> ComposedParagraph {
    ComposedParagraph {
        lines: runs
            .iter()
            .map(|l| ComposedLine { runs: l.iter().map(|t| ComposedRun { text: t.chars().collect() }).collect() })
            .collect(),
        numbering_text: None,
    }
}

fn texts(c: &ComposedParagraph) -> Vec<String> {
    c.lines.iter().flat_map(|l| l.runs.iter().map(|r| r.text.iter().collect::<String>())).collect()
}

fn auto(number: &str, prefix: char, suffix: char) -> Control {
    Control::AutoNumber(AutoNumber {
        number_type: AutoNumberType::Table,
        assigned_number: 3,
        number_text: number.chars().collect(),
        prefix_char: prefix,
        suffix_char: suffix,
    })
}

fn para(controls: Vec<Control>) -> Paragraph {
    Paragraph { text: Vec::new(), controls, line_segs: Vec::new(), column_type: ColumnBreakType::Normal, para_shape_id: 0 }
}

#[test]
fn auto_number_fills_first_placeholder() {
    let engine = LayoutEngine { dpi: 96 };
    let mut c = composed(&[&["Table", "See  below  x"]]);
    engine.apply_auto_numbers_to_composed(&mut c, &para(vec![Control::Equation, auto("3", '(', ')'), auto("9", '\0', '\0')]));
    assert_eq!(texts(&c), vec!["Table".to_string(), "See (3) below  x".to_string()]);
}

#[test]
fn auto_number_without_decoration_or_placeholder() {
    let engine = LayoutEngine { dpi: 96 };
    let mut c = composed(&[&["a  b"], &["c  d"]]);
    engine.apply_auto_numbers_to_composed(&mut c, &para(vec![auto("IV", '\0', '\0')]));
    assert_eq!(texts(&c), vec!["a IV b".to_string(), "c  d".to_string()]);
    let mut d = composed(&[&["no place holder"]]);
    engine.apply_auto_numbers_to_composed(&mut d, &para(vec![auto("1", '\0', '\0')]));
    assert_eq!(texts(&d), vec!["no place holder".to_string()]);
    let mut e = composed(&[&["a  b"]]);
    engine.apply_auto_numbers_to_composed(&mut e, &para(vec![]));
    assert_eq!(texts(&e), vec!["a  b".to_string()]);
}

#[test]
fn min_baseline() {
    assert_eq!(LayoutEngine::ensure_min_baseline(5, 0), 5);
    assert_eq!(LayoutEngine::ensure_min_baseline(5, 100), 80);
    assert_eq!(LayoutEngine::ensure_min_baseline(90, 100), 90);
    assert_eq!(LayoutEngine::ensure_min_baseline(-3, -100), -3);
}
