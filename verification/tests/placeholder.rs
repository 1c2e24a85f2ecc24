//! The object replacement character is a control character: one source
//! unit, no glyph, no width.

use rsword_layout_core::{
    Color, DrawCmd, Engine, FontSpec, LayoutRecord, OBJECT_PLACEHOLDER, PageSetup, Para, Run,
    SimpleMetrics, paint_document,
};

fn para(text: &str) -> Para {
    Para {
        runs: vec![Run {
            text: text.to_string(),
            font: FontSpec::new("Test", 24),
            color: Color::black(),
            placeholders: Vec::new(),
            rise: 0,
        }],
        ..Para::default()
    }
}

fn paint(paras: &[Para]) -> rsword_layout_core::PaintList {
    let metrics = SimpleMetrics;
    let engine = Engine::new(&metrics, PageSetup::a4());
    paint_document(&engine.layout(paras), None, &[])
}

fn drawn_text(list: &rsword_layout_core::PaintList) -> String {
    let mut out = String::new();
    for page in &list.pages {
        for cmd in &page.cmds {
            if let DrawCmd::DrawGlyphs { text, .. } = cmd {
                out.push_str(text);
            }
        }
    }
    out
}

#[test]
fn placeholder_takes_no_width() {
    let with = paint(&[para("abc\u{FFFC}def")]);
    let without = paint(&[para("abcdef")]);

    let width = |list: &rsword_layout_core::PaintList| -> Vec<(i32, i32)> {
        LayoutRecord::from_paint(list)
            .pages
            .iter()
            .flat_map(|p| p.lines.iter())
            .flat_map(|l| l.glyphs.iter())
            .map(|g| (g.origin_x, g.origin_y))
            .collect()
    };
    let origins = |list: &rsword_layout_core::PaintList| -> Vec<i32> {
        let mut out = Vec::new();
        for page in &list.pages {
            for cmd in &page.cmds {
                if let DrawCmd::DrawGlyphs { origin_x, .. } = cmd {
                    out.push(*origin_x);
                }
            }
        }
        out
    };
    let _ = width(&with);
    assert_eq!(
        origins(&with).first(),
        origins(&without).first(),
        "占位符影响了起始位置"
    );
    assert_eq!(drawn_text(&with), drawn_text(&without));
}

#[test]
fn placeholder_never_reaches_the_backend() {
    let drawn = drawn_text(&paint(&[para("\u{524d}\u{FFFC}\u{540e}")]));
    assert!(!drawn.contains(OBJECT_PLACEHOLDER), "{drawn:?}");
    // The paragraph mark draws its own space (see line_records.rs).
    assert_eq!(drawn, "\u{524d}\u{540e} ");
}
