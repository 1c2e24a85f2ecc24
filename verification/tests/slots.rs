//! Word picks a font per character by slot: ascii, high ANSI, east Asian,
//! complex script, with `w:hint` for ambiguous characters.

use rsword_layout_core::{FontHint, FontSlots, FontSpec, SlotKind};

fn slots() -> FontSlots {
    FontSlots {
        ascii: Some("Times New Roman".into()),
        h_ansi: Some("Times New Roman".into()),
        east_asia: Some("SimSun".into()),
        cs: Some("Arial".into()),
        hint: FontHint::Default,
    }
}

#[test]
fn ascii_goes_to_ascii_slot() {
    assert_eq!(slots().slot_for('A'), SlotKind::Ascii);
    assert_eq!(slots().slot_for('0'), SlotKind::Ascii);
}

#[test]
fn cjk_goes_to_east_asia_slot() {
    for ch in ['中', '日', '本', 'あ', 'ア', '가'] {
        assert_eq!(slots().slot_for(ch), SlotKind::EastAsia, "{ch:?} 应走 eastAsia");
    }
}

#[test]
fn complex_scripts_go_to_cs_slot() {
    for ch in ['م', 'א', 'अ', 'ก'] {
        assert_eq!(slots().slot_for(ch), SlotKind::Cs, "{ch:?} 应走 cs");
    }
}

#[test]
fn high_latin_goes_to_hansi_slot() {
    for ch in ['é', 'ü', 'ñ', 'Ω'] {
        assert_eq!(slots().slot_for(ch), SlotKind::HAnsi, "{ch:?} 应走 hAnsi");
    }
}

#[test]
fn hint_east_asia_overrides_ambiguous_chars() {
    let mut s = slots();
    s.hint = FontHint::EastAsia;
    assert_eq!(s.slot_for('é'), SlotKind::EastAsia, "hint 应改变歧义区归属");
    assert_eq!(s.slot_for('中'), SlotKind::EastAsia);
}

#[test]
fn slot_selection_differs_from_single_family() {
    let font = FontSpec {
        slots: slots(),
        family: "Times New Roman".into(),
        size_half_points: 24,
        bold: false,
        italic: false,
        letter_spacing: 0,
        scale_pct: 100,
        kerning: false,
    };
    assert_eq!(font.family_for('A'), "Times New Roman");
    assert_eq!(font.family_for('中'), "SimSun");
    assert_eq!(font.family_for('م'), "Arial");
    assert_ne!(
        font.family_for('A'),
        font.family_for('中'),
        "中英文必须选出不同字体，否则槽规则没生效"
    );
}

#[test]
fn missing_slot_falls_back_to_family() {
    let font = FontSpec {
        slots: FontSlots { ascii: Some("Calibri".into()), ..FontSlots::default() },
        family: "Calibri".into(),
        size_half_points: 24,
        bold: false,
        italic: false,
        letter_spacing: 0,
        scale_pct: 100,
        kerning: false,
    };
    assert_eq!(font.family_for('中'), "Calibri", "eastAsia 未指定时退到 family");
}

#[test]
fn inherit_fills_only_missing_slots() {
    let mut child = FontSlots { east_asia: Some("MS Mincho".into()), ..FontSlots::default() };
    child.inherit(&slots());
    assert_eq!(child.east_asia.as_deref(), Some("MS Mincho"), "自己写了就不继承");
    assert_eq!(child.ascii.as_deref(), Some("Times New Roman"), "没写的才继承");
}
