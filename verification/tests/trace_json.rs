//! The trace written for the measuring tool: points not twips, null not 0
//! for what is unknown, the counting table's terminator names, ASCII only.

use rsword_layout_core::{
    GlyphRecord, LayoutRecord, LineRecord, LineTerminator, PageBreakPosition, PageRecord,
    SourceRange, TraceMeta, to_trace_json,
};

fn meta() -> TraceMeta {
    TraceMeta {
        engine: "test".into(),
        metrics: "test".into(),
        glyph_origin_method: "test".into(),
        source: "test.docx".into(),
        font_fingerprint: Some("abc123".into()),
    }
}

fn glyph(x: i32, y: i32) -> GlyphRecord {
    GlyphRecord {
        origin_x: x,
        origin_y: y,
        origin_y_fine: i64::from(y) * rsword_layout_core::font::FINE_PER_TWIP,
        advance_x: 120,
        advance_y: 0,
        face: "face".into(),
        glyph_id: 7,
        size_half_points: 24,
        source: Some(SourceRange::new(3, 4)),
    }
}

fn record_with(line: LineRecord) -> LayoutRecord {
    LayoutRecord {
        pages: vec![PageRecord {
            index: 0,
            width: 11906,
            height: 16838,
            lines: vec![line],
        }],
        unassigned_glyphs: 0,
    }
}

#[test]
fn twips_become_points() {
    let json = to_trace_json(&record_with(LineRecord {
        glyphs: vec![glyph(1440, 1660)],
        source: Some(SourceRange::new(0, 5)),
        terminator: LineTerminator::ParagraphMark,
        box_top: 0,
        box_height: 0,
    }), &meta());

    assert!(json.contains("\"unit\": \"pt\""));
    assert!(json.contains("\"origin\": [72.0, 83.0]"), "{json}");
    assert!(json.contains("\"advance\": [6.0, 0.0]"), "{json}");
    assert!(json.contains("\"width\": 595.300000"), "{json}");
}

#[test]
fn missing_source_stays_null_not_zero() {
    let json = to_trace_json(&record_with(LineRecord {
        glyphs: vec![GlyphRecord { source: None, ..glyph(0, 0) }],
        source: None,
        terminator: LineTerminator::Wrapped,
        box_top: 0,
        box_height: 0,
    }), &meta());

    assert!(json.contains("\"sourceStart\": null"), "{json}");
    assert!(json.contains("\"sourceEnd\": null"), "{json}");
    assert!(json.contains("\"sourceChar\": null"), "{json}");
    assert!(!json.contains("\"sourceChar\": 0"), "缺失被写成了 0：{json}");
}

#[test]
fn terminator_names_match_the_counting_table() {
    let cases = [
        (LineTerminator::ParagraphMark, "PARAGRAPH_MARK", 1),
        (LineTerminator::LineBreak, "SOFT_RETURN", 1),
        (LineTerminator::SectionBreak, "SECTION_BREAK", 0),
        (LineTerminator::PageBreak(PageBreakPosition::OwnLine), "PAGE_BREAK_OWN_LINE", 0),
        (LineTerminator::PageBreak(PageBreakPosition::BeforeMark), "PAGE_BREAK_BEFORE_MARK", 1),
        (LineTerminator::PageBreak(PageBreakPosition::MidParagraph), "PAGE_BREAK_MID_PARAGRAPH", 0),
        (LineTerminator::Wrapped, "WRAP", 0),
    ];
    for (terminator, name, expected) in cases {
        let json = to_trace_json(&record_with(LineRecord {
            glyphs: vec![glyph(0, 0)],
            source: None,
            terminator,
            box_top: 0,
            box_height: 0,
        }), &meta());
        assert!(json.contains(&format!("\"terminator\": \"{name}\"")), "{terminator:?}: {json}");
        assert!(
            json.contains(&format!("\"terminatorExpectedGlyphs\": {expected}")),
            "{terminator:?} 应产出 {expected} 个：{json}"
        );
    }
}

#[test]
fn line_box_is_labelled_diagnostic() {
    let json = to_trace_json(&record_with(LineRecord {
        glyphs: vec![glyph(0, 0)],
        source: None,
        terminator: LineTerminator::Wrapped,
        box_top: 100,
        box_height: 200,
    }), &meta());
    assert!(json.contains("\"boxTopDiagnostic\""), "{json}");
    assert!(json.contains("\"boxHeightDiagnostic\""), "{json}");
    assert!(!json.contains("\"baseline\""), "不该出现像验收量的 baseline 字段：{json}");
}

#[test]
fn empty_glyph_line_is_still_well_formed() {
    let json = to_trace_json(&record_with(LineRecord {
        glyphs: Vec::new(),
        source: Some(SourceRange::new(0, 1)),
        terminator: LineTerminator::ParagraphMark,
        box_top: 0,
        box_height: 0,
    }), &meta());
    assert!(json.contains("\"glyphs\": []"), "{json}");
    assert!(json.trim_end().ends_with('}'));
}

#[test]
fn output_is_ascii_and_stable() {
    let mut m = meta();
    m.metrics = "近似桩".into();
    let record = record_with(LineRecord {
        glyphs: vec![glyph(0, 0)],
        source: None,
        terminator: LineTerminator::Wrapped,
        box_top: 0,
        box_height: 0,
    });
    let a = to_trace_json(&record, &m);
    assert!(a.is_ascii(), "输出含非 ASCII，逐字节 diff 会受终端编码影响");
    assert_eq!(a, to_trace_json(&record, &m), "同一输入两次输出不同");
}

#[test]
fn unassigned_glyph_count_survives() {
    let json = to_trace_json(
        &LayoutRecord { pages: Vec::new(), unassigned_glyphs: 2988 },
        &meta(),
    );
    assert!(json.contains("\"unassignedGlyphs\": 2988"), "{json}");
}
