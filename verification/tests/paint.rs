//! Paint output is resolution independent: every coordinate is in twips.

use rsword_layout_core::{
    paint_document, Color, DrawCmd, Engine, FontSpec, Page, PageSetup, Para, Run, SimpleMetrics,
};

fn doc() -> Vec<Page> {
    let metrics = SimpleMetrics;
    let engine = Engine::new(&metrics, PageSetup::a4());
    let para = Para {
        runs: vec![Run {
            text: "Hello 世界".to_string(),
            font: FontSpec::new("Test", 24),
            color: Color::black(),
            placeholders: Vec::new(),
            rise: 0,
        }],
        ..Para::default()
    };
    engine.layout(&[para])
}

#[test]
fn paint_output_carries_no_pixels() {
    let list = paint_document(&doc(), None, &[]);
    let page = &list.pages[0];
    assert_eq!(page.width, 11906, "A4 width is 11906 twips");
    assert_eq!(page.height, 16838, "A4 height is 16838 twips");
}

#[test]
fn text_survives_without_shaper() {
    let list = paint_document(&doc(), None, &[]);
    let texts: Vec<&str> = list.pages[0]
        .cmds
        .iter()
        .filter_map(|c| match c {
            DrawCmd::DrawGlyphs { text, .. } => Some(text.as_str()),
            _ => None,
        })
        .collect();
    assert!(!texts.is_empty(), "there are text commands");
    assert!(texts.iter().any(|t| t.contains("Hello")), "the text is kept");
}

#[test]
fn geometry_is_stable_across_invocations() {
    let d = doc();
    let a = paint_document(&d, None, &[]);
    let b = paint_document(&d, None, &[]);
    assert_eq!(a, b, "draw commands are deterministic");
}

#[test]
fn content_area_excludes_margins() {
    let list = paint_document(&doc(), None, &[]);
    let area = list.pages[0].content_area;
    assert_eq!(area.x, 1440);
    assert_eq!(area.y, 1440);
    assert_eq!(area.width, 11906 - 2880);
}

#[test]
fn one_paint_page_per_layout_page() {
    let d = doc();
    let list = paint_document(&d, None, &[]);
    assert_eq!(list.page_count(), d.len());
}
