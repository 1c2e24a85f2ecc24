//! The comparator's input: records that keep page geometry in twips, are
//! reproducible bit for bit, and count terminator glyphs as Word draws them.

use rsword_layout_core::{
    Align, Color, Engine, FontSpec, LayoutRecord, LineTerminator, PageBreakPosition as P, PageSetup,
    Para, Run, SimpleMetrics, SourceRange, paint_document,
};

fn record() -> LayoutRecord {
    let metrics = SimpleMetrics;
    let engine = Engine::new(&metrics, PageSetup::a4());
    let para = Para {
        runs: vec![Run {
            text: "Hello 世界".to_string(),
            font: FontSpec::new("Test", 24),
            color: Color::black(),
            placeholders: Vec::new(),
        rise: 0,
        }],
        align: Align::Left,
        ..Para::default()
    };
    let pages = engine.layout(&[para]);
    LayoutRecord::from_paint(&paint_document(&pages, None, &[]))
}

#[test]
fn record_preserves_page_geometry_in_twips() {
    let r = record();
    assert_eq!(r.page_count(), 1);
    assert_eq!(r.pages[0].width, 11906, "A4 宽应为 11906 twips，不是任何像素数");
    assert_eq!(r.pages[0].height, 16838);
}

#[test]
fn repeatability_is_bit_identical() {
    assert!(record().is_bit_identical(&record()));
}

#[test]
fn counting_conventions_match_measured_values() {

    assert_eq!(LineTerminator::ParagraphMark.expected_glyphs(), 1, "段落标记画 1 个空格");
    assert_eq!(LineTerminator::LineBreak.expected_glyphs(), 1, "软回车画 1 个");
    assert_eq!(LineTerminator::SectionBreak.expected_glyphs(), 0, "分节符画 0 个");
    assert_eq!(LineTerminator::PageBreak(P::OwnLine).expected_glyphs(), 0);
    assert_eq!(LineTerminator::PageBreak(P::MidParagraph).expected_glyphs(), 0);
    assert_eq!(
        LineTerminator::PageBreak(P::BeforeMark).expected_glyphs(),
        1,
        "紧跟段落标记时画 1 个空格"
    );
}




#[test]
fn source_ranges_cover_the_line_in_reading_order() {
    let metrics = SimpleMetrics;
    let engine = Engine::new(&metrics, PageSetup::a4());
    let para = Para {
        runs: vec![Run {
            text: "abcdef".to_string(),
            font: FontSpec::new("Test", 24),
            color: Color::black(),
            placeholders: Vec::new(),
        rise: 0,
        }],
        ..Para::default()
    };
    let pages = engine.layout(&[para]);
    let frags: Vec<_> = pages[0]
        .fragments
        .iter()
        .filter_map(|f| match f {
            rsword_layout_core::Fragment::Text(t) => t.source,
            _ => None,
        })
        .collect();
    assert!(!frags.is_empty(), "应当记下源区间");
    assert_eq!(frags[0].0, 0, "首片段从第 0 个字符起");
    for w in frags.windows(2) {
        assert!(w[1].0 >= w[0].1, "源区间不得回退：{:?} 之后是 {:?}", w[0], w[1]);
    }
    let total: u32 = frags.iter().map(|(a, b)| b - a).sum();
    assert_eq!(total, 7, "应当覆盖 6 个字母加段落标记那一个字符");
}


#[test]
fn source_range_length() {
    let r = SourceRange::new(5, 9);
    assert_eq!(r.len(), 4);
    assert!(!r.is_empty());
    assert_eq!(SourceRange::new(9, 5).len(), 0);
    assert!(SourceRange::new(9, 5).is_empty());
}
