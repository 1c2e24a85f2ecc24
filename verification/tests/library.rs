//! Concrete values for the library's formulas, edges and laws.

use rsword_layout_core::anchor::{AnchorGeom, Dist, Drawing, Extent, Position, Wrap};
use rsword_layout_core::bridge::{half_points_to_twips_signed, pick_terminator, scaled_size, style_defaults};
use rsword_layout_core::jsontext::{push_frac, push_hex, push_idec};
use rsword_layout_core::linebreak::break_opportunities;
use rsword_layout_core::oracle_json::json_string;
use rsword_layout_core::shape::runs_from_font_units;
use rsword_layout_core::trace::sha256_hex;
use rsword_layout_core::{
    emu_to_twips, half_points_to_twips, paint_document, AnchorScan, Color, Engine, FontSlots,
    FontSpec, LayoutRecord, LineTerminator, Margins, PageBreakPosition, PageSetup, Para, Path,
    Rect, Run, RustybuzzShaper, SimpleMetrics, SlotKind, SourceRange, Span, WrapContext,
    WrapRegion, WrapSide,
};

use rsword_layout_core::fontenv::LoadReport;
use rsword_layout_core::FontMetrics;
use rsword_layout_core::fontenv::VerticalGrid;
use rsword_layout_core::raster::FaceData;
use rsword_layout_core::raster::apply_gamma_table;
use rsword_layout_core::vertical::apply_spacing;
use rsword_layout_core::vertical::face_vertical;
use rsword_layout_core::vertical::{vertical_for, FaceVertical};

fn run(text: &str) -> Run {
    Run {
        text: text.to_string(),
        font: FontSpec::new("Test", 24),
        color: Color::black(),
        placeholders: Vec::new(),
        rise: 0,
    }
}

#[test]
fn unit_conversions() {
    assert_eq!(emu_to_twips(914_400), 1440);
    assert_eq!(emu_to_twips(-635), -1);
    assert_eq!(half_points_to_twips(24), 240);
    assert_eq!(half_points_to_twips_signed(-6), -60);
    assert_eq!(half_points_to_twips_signed(8), 80);
}

#[test]
fn superscript_size_is_two_thirds_rounded_and_never_zero() {
    assert_eq!(scaled_size(24), 16);
    assert_eq!(scaled_size(20), 13);
    assert_eq!(scaled_size(0), 1);
    assert_eq!(scaled_size(1), 1);
}

#[test]
fn heading_styles_have_their_defaults() {
    assert_eq!(style_defaults(Some("Heading1"), None), (32, true, 240, 120, true));
    assert_eq!(style_defaults(None, Some(2)), (28, true, 200, 100, true));
    assert_eq!(style_defaults(Some("Normal"), None).1, false);
}

#[test]
fn terminator_follows_the_counting_convention() {
    let text = vec![run("a")];
    let blank = vec![run(" ")];
    assert_eq!(pick_terminator(true, Some("page".into()), &text), LineTerminator::SectionBreak);
    assert_eq!(
        pick_terminator(false, Some("page".into()), &text),
        LineTerminator::PageBreak(PageBreakPosition::MidParagraph)
    );
    assert_eq!(
        pick_terminator(false, Some("page".into()), &blank),
        LineTerminator::PageBreak(PageBreakPosition::OwnLine)
    );
    assert_eq!(pick_terminator(false, Some("column".into()), &text), LineTerminator::LineBreak);
    assert_eq!(pick_terminator(false, None, &text), LineTerminator::ParagraphMark);
}

#[test]
fn expected_glyphs_per_terminator() {
    assert_eq!(LineTerminator::ParagraphMark.expected_glyphs(), 1);
    assert_eq!(LineTerminator::LineBreak.expected_glyphs(), 1);
    assert_eq!(LineTerminator::PageBreak(PageBreakPosition::BeforeMark).expected_glyphs(), 1);
    assert_eq!(LineTerminator::PageBreak(PageBreakPosition::OwnLine).expected_glyphs(), 0);
    assert_eq!(LineTerminator::SectionBreak.expected_glyphs(), 0);
    assert_eq!(LineTerminator::Wrapped.expected_glyphs(), 0);
}

#[test]
fn source_range_length_saturates() {
    assert_eq!(SourceRange::new(3, 7).len(), 4);
    assert_eq!(SourceRange::new(7, 3).len(), 0);
    assert!(SourceRange::new(5, 5).is_empty());
    assert!(!SourceRange::new(5, 6).is_empty());
}

#[test]
fn points_are_written_with_one_or_six_decimals() {
    let mut s = String::new();
    push_frac(&mut s, 1440, 20);
    assert_eq!(s, "72.0");
    let mut s = String::new();
    push_frac(&mut s, 11906, 20);
    assert_eq!(s, "595.300000");
    let mut s = String::new();
    push_frac(&mut s, -25, 100);
    assert_eq!(s, "-0.250000");
    let mut s = String::new();
    push_idec(&mut s, -42);
    assert_eq!(s, "-42");
    let mut s = String::new();
    push_hex(&mut s, 0xe9, 4);
    assert_eq!(s, "00e9");
}

#[test]
fn json_strings_are_ascii_with_escapes() {
    assert_eq!(json_string("a\"b\\c"), "\"a\\\"b\\\\c\"");
    assert_eq!(json_string("line\nnext\t"), "\"line\\nnext\\t\"");
    assert_eq!(json_string("\u{e9}"), "\"\\u00e9\"");
    assert_eq!(json_string("\u{1F600}"), "\"\\ud83d\\ude00\"");
    assert_eq!(json_string("\u{1}"), "\"\\u0001\"");
    assert!(json_string("\u{4e2d}\u{6587}").bytes().all(|b| (0x20..=0x7e).contains(&b)));
}

#[test]
fn document_fingerprint_is_fnv1a() {
    assert_eq!(sha256_hex(b""), "fnv1a64:cbf29ce484222325");
    assert_eq!(sha256_hex(b"a"), "fnv1a64:af63dc4c8601ec8c");
    assert_eq!(sha256_hex(b"foobar"), "fnv1a64:85944171f73967e8");
}

#[test]
fn font_units_become_twips_without_drift() {
    // 1000 units per em at 12 pt: one unit is 0.24 twips.
    let glyphs = [(1, 333, 0, 0), (2, 333, 10, -20), (3, 334, 0, 0)];
    let runs = runs_from_font_units(7, 1000, &glyphs, 24);
    assert_eq!(runs.len(), 3);
    // Pens: 0, 79.92 -> 80, 159.84 -> 160, 240.
    let advances: Vec<i32> = runs.iter().map(|r| r.x_advance).collect();
    assert_eq!(advances, vec![80, 80, 80]);
    assert_eq!(advances.iter().sum::<i32>(), 240);
    assert_eq!((runs[1].x_offset, runs[1].y_offset), (2, -5));
    assert!(runs.iter().all(|r| r.face_index == 7));
    assert_eq!(runs[2].glyph_id, 3);
    assert!(runs_from_font_units(0, 0, &glyphs, 24).is_empty());
}

#[test]
fn rounding_error_does_not_grow_with_length() {
    // 100 glyphs of 1 unit at 2048 upem and 11 pt: the sum is rounded once.
    let glyphs: Vec<(u32, i32, i32, i32)> = (0..100).map(|i| (i, 1, 0, 0)).collect();
    let runs = runs_from_font_units(0, 2048, &glyphs, 22);
    let total: i32 = runs.iter().map(|r| r.x_advance).sum();
    // 100 * 22 * 10 / 2048 = 10.74 twips; glyph by glyph each would round
    // to 0.
    assert_eq!(total, 11);
}

#[test]
fn a_shaper_without_a_usable_face_gives_nothing() {
    let mut shaper = RustybuzzShaper::new();
    assert!(shaper.is_empty());
    assert!(shaper.shape_with_face(0, "abc", 24, false).is_empty());
    let at = shaper.add_face("Broken", vec![0, 1, 2, 3], 0);
    assert_eq!(at, 0);
    assert_eq!(shaper.len(), 1);
    assert!(shaper.shape_with_face(0, "abc", 24, false).is_empty());
    assert!(shaper.shape_with_face(5, "abc", 24, true).is_empty());
}

#[test]
fn the_last_face_registered_under_a_name_wins() {
    let mut shaper = RustybuzzShaper::new();
    shaper.add_face("A", vec![], 0);
    shaper.add_face("B", vec![], 0);
    shaper.add_face("A", vec![], 1);
    assert_eq!(shaper.face_for("A"), Some(2));
    assert_eq!(shaper.face_for("B"), Some(1));
    assert_eq!(shaper.face_for("C"), Some(0));
    shaper.set_default_face(1);
    assert_eq!(shaper.face_for("C"), Some(1));
    assert_eq!(shaper.face_ids(), vec!["A".to_string(), "B".to_string(), "A".to_string()]);
    assert_eq!(shaper.face_id(1), Some("B"));
    assert_eq!(shaper.face_id(3), None);
}

#[test]
fn breaks_fall_after_spaces_and_between_ideographs() {
    let offsets: Vec<usize> = break_opportunities("ab cd").iter().map(|b| b.offset).collect();
    // The end of the text is always a break.
    assert_eq!(offsets, vec![3, 5]);
    let offsets: Vec<usize> = break_opportunities("\u{4e2d}\u{6587}").iter().map(|b| b.offset).collect();
    assert_eq!(offsets, vec![3, 6]);
    let offsets: Vec<usize> = break_opportunities("\u{4e2d}\u{3002}").iter().map(|b| b.offset).collect();
    assert_eq!(offsets, vec![6], "no break before a closing punctuation mark");
    assert!(break_opportunities("").is_empty());
}

#[test]
fn rectangles_intersect_and_margins_shrink() {
    let a = Rect::new(0, 0, 100, 100);
    let b = Rect::new(50, 60, 100, 100);
    assert_eq!(a.intersect(&b), Rect::new(50, 60, 50, 40));
    assert!(a.intersects(&b));
    assert!(!a.intersects(&Rect::new(100, 0, 10, 10)));
    assert_eq!(Margins::uniform(1440).shrink(&Rect::new(0, 0, 11906, 16838)), Rect::new(1440, 1440, 9026, 13958));
}

#[test]
fn a_rectangle_path_is_bounded_by_its_rectangle() {
    let r = Rect::new(10, 20, 30, 40);
    let p = Path::rect(r);
    assert_eq!(p.bounds(), Some(r));
    assert_eq!(p.as_rect(), Some(r));
    assert_eq!(Path::new().bounds(), None);
}

#[test]
fn a_centred_region_splits_the_line() {
    let mut wrap = WrapContext::new();
    wrap.add(WrapRegion::rect(Rect::new(400, 0, 200, 100), 0));
    let spans = wrap.available(Span::new(0, 1000), 50, 20);
    assert_eq!(spans, vec![Span::new(0, 400), Span::new(600, 1000)]);
    // Below the region nothing is taken.
    assert_eq!(wrap.available(Span::new(0, 1000), 200, 20), vec![Span::new(0, 1000)]);
    // Top and bottom clears the whole band.
    let mut wrap = WrapContext::new();
    wrap.add(WrapRegion::rect(Rect::new(400, 0, 200, 100), 0).with_side(WrapSide::TopAndBottom));
    assert!(wrap.available(Span::new(0, 1000), 50, 20).is_empty());
}

#[test]
fn anchored_drawings_become_regions_or_are_counted() {
    let content = Rect::new(1440, 1440, 9026, 13958);
    let square = Drawing {
        anchored: true,
        anchor: Some(AnchorGeom {
            wrap: Wrap::Square(None),
            h: Position { offset_emu: Some(635 * 100), align: None },
            v: Position { offset_emu: Some(635 * 50), align: None },
            dist: Dist { top: Some(635 * 10), bottom: None, left: Some(635 * 20), right: None },
        }),
        extent: Some(Extent { cx: 635 * 300, cy: 635 * 200 }),
    };
    let inline = Drawing { anchored: false, anchor: None, extent: None };
    let no_extent = Drawing { extent: None, ..square.clone() };
    let scan = AnchorScan::from_document(&[square, inline, no_extent], content);
    assert_eq!(scan.not_wrapping, 1);
    assert_eq!(scan.skipped, 1);
    assert_eq!(scan.wrap.len(), 1);
    assert!(!scan.is_empty());
    let spans = scan.wrap.available(Span::new(1440, 10466), 1440 + 60, 10);
    // The box spans x 1540..1840, grown by 20 twips on each side.
    assert_eq!(spans, vec![Span::new(1440, 1520), Span::new(1860, 10466)]);
}

#[test]
fn unset_slots_inherit_and_inheriting_again_changes_nothing() {
    let mut child = FontSlots { ascii: Some("Child".into()), ..FontSlots::default() };
    let parent = FontSlots {
        ascii: Some("Parent".into()),
        east_asia: Some("SimSun".into()),
        ..FontSlots::default()
    };
    child.inherit(&parent);
    assert_eq!(child.get(SlotKind::Ascii), Some("Child"));
    assert_eq!(child.get(SlotKind::EastAsia), Some("SimSun"));
    assert_eq!(child.get(SlotKind::Cs), None);
    let once = child.clone();
    child.inherit(&parent);
    assert_eq!(child, once);
}

#[test]
fn a_record_is_bit_identical_to_itself_and_to_a_second_layout() {
    let para = Para { runs: vec![run("Hello world")], ..Para::default() };
    let engine = Engine::new(&SimpleMetrics, PageSetup::a4());
    let a = LayoutRecord::from_paint(&paint_document(&engine.layout(&[para.clone()]), None, &[]));
    let b = LayoutRecord::from_paint(&paint_document(&engine.layout(&[para]), None, &[]));
    assert!(a.is_bit_identical(&a));
    assert!(a.is_bit_identical(&b));
    let other = Para { runs: vec![run("Hello")], ..Para::default() };
    let c = LayoutRecord::from_paint(&paint_document(&engine.layout(&[other]), None, &[]));
    assert!(!a.is_bit_identical(&c));
}

#[test]
fn an_empty_document_still_has_one_page() {
    let engine = Engine::new(&SimpleMetrics, PageSetup::a4());
    let pages = engine.layout(&[]);
    assert_eq!(pages.len(), 1);
    assert!(pages[0].fragments.is_empty());
}

#[test]
fn reading_order_holds_across_paragraphs_and_pages() {
    let long = "word ".repeat(400);
    let paras: Vec<Para> = (0..6).map(|_| Para { runs: vec![run(long.trim_end())], ..Para::default() }).collect();
    let engine = Engine::new(&SimpleMetrics, PageSetup::a4());
    let pages = engine.layout(&paras);
    assert!(pages.len() > 1);
    let mut last_end = 0;
    for page in &pages {
        for f in &page.fragments {
            if let rsword_layout_core::Fragment::Text(t) = f {
                let (s, e) = t.source.expect("every fragment has a source range");
                assert!(last_end <= s && s <= e);
                last_end = e;
            }
        }
    }
}

#[test]
fn vertical_metrics_take_the_largest_face_and_round_once() {
    // A serif face at 12 pt: 2048 units per em.
    let serif = FaceVertical { upem: 2048, ascent: 1825, descent: 443, line_gap: 87 };
    let m = vertical_for(&[serif], 24, VerticalGrid::Unquantized);
    // 1825 * 240 / 2048 = 213.87, 443 * 240 / 2048 = 51.91, 87 * 240 / 2048 = 10.20.
    assert_eq!((m.advance, m.ascent, m.descent, m.line_gap), (0, 214, 52, 10));
    // On the grid: the line height 275.98 twips is 57 steps of 4.8, 273.6,
    // which rounds to 274; the descent 51.91 is 11 steps, 52.8, so 53; the
    // ascent takes the rest.
    let q = vertical_for(&[serif], 24, VerticalGrid::MacWordThreeHundredthsInch);
    assert_eq!((q.ascent, q.descent, q.line_gap), (221, 53, 0));
    // A second face with a deeper descent raises only the descent.
    let deep = FaceVertical { upem: 1000, ascent: 800, descent: 300, line_gap: 0 };
    let both = vertical_for(&[serif, deep], 24, VerticalGrid::Unquantized);
    assert_eq!((both.ascent, both.descent, both.line_gap), (214, 72, 10));
    // No face: no metrics rather than invented ones.
    assert_eq!(vertical_for(&[], 24, VerticalGrid::Unquantized), Default::default());
}

#[test]
fn scaling_and_letter_spacing_on_an_advance() {
    let mut font = FontSpec::new("Test", 24);
    assert_eq!(apply_spacing(1000, 3, &font), 1000);
    font.scale_pct = 50;
    font.letter_spacing = 4;
    assert_eq!(apply_spacing(1001, 3, &font), 500 + 12);
    font.scale_pct = 0;
    assert_eq!(apply_spacing(1001, 3, &font), 1001 + 12);
}

#[test]
fn data_that_is_no_font_has_no_metrics_and_no_glyphs() {
    let data = FaceData { bytes: vec![1, 2, 3], index: 0 };
    assert_eq!(face_vertical(&data), None);
    assert_eq!(data.glyph_id('a'), None);
}

#[test]
fn gamma_maps_every_coverage_byte_through_the_table() {
    let mut table = [0u8; 256];
    for (i, t) in table.iter_mut().enumerate() {
        *t = 255 - i as u8;
    }
    assert_eq!(apply_gamma_table(&table, vec![0, 10, 255]), vec![255, 245, 0]);
    assert!(apply_gamma_table(&table, Vec::new()).is_empty());
}

#[test]
fn text_is_shaped_run_by_run_of_its_chosen_faces() {
    let mut shaper = RustybuzzShaper::new();
    shaper.add_face("Broken", vec![9, 9, 9], 0);
    // No face parses, and characters without a face give nothing.
    assert!(shaper.shape_by_faces("ab", &[None, Some(0)], 24, false).is_empty());
    assert!(shaper.shape_by_faces("", &[], 24, false).is_empty());
}

#[test]
fn missing_families_are_reported_by_requested_name() {
    let report = LoadReport {
        faces: 2,
        failed: Vec::new(),
        families: vec!["liberation serif".to_string(), "simsun".to_string()],
        fingerprint: String::new(),
    };
    let required = vec![
        ("Liberation Serif".to_string(), "liberation serif".to_string()),
        ("Times New Roman".to_string(), "times new roman".to_string()),
        ("SimSun".to_string(), "simsun".to_string()),
    ];
    assert_eq!(report.missing(&required), vec!["Times New Roman".to_string()]);
}

#[test]
fn glyph_positions_follow_prefix_advances() {
    let font = FontSpec::new("Test", 24);
    let text = "a\u{4e2d}b";
    let got = SimpleMetrics.glyph_positions(text, &font);
    assert_eq!(got.len(), 3);
    assert_eq!((got[0].start, got[0].end), (0, 1));
    assert_eq!((got[1].start, got[1].end), (1, 4));
    assert_eq!((got[2].start, got[2].end), (4, 5));
    assert_eq!(got[0].x, 0);
    for w in got.windows(2) {
        assert_eq!(w[0].x + w[0].advance, w[1].x);
    }
    let total = SimpleMetrics.measure(text, &font).advance;
    assert_eq!(got[2].x + got[2].advance, total);
    assert!(SimpleMetrics.glyph_positions("", &font).is_empty());
}
