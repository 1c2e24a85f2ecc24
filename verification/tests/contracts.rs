//! Concrete cases of the path, line-break and layout contracts.

use rsword_layout_core::linebreak::break_opportunities;
use rsword_layout_core::{
    paint_document, Color, Engine, FontSpec, Fragment, LayoutRecord, LineTerminator, PageSetup,
    Para, Path, PlaceholderKind, Rect, Run, SimpleMetrics, WrapContext, WrapRegion,
};

fn para(text: &str, placeholders: Vec<PlaceholderKind>) -> Para {
    Para {
        runs: vec![Run {
            text: text.into(),
            font: FontSpec::new("Test", 24),
            color: Color::black(),
            placeholders,
            rise: 0,
        }],
        ..Para::default()
    }
}

fn pages(paras: &[Para]) -> Vec<rsword_layout_core::Page> {
    Engine::new(&SimpleMetrics, PageSetup::a4()).layout(paras)
}

#[test]
fn a_rectangle_path_is_recognised() {
    let r = Rect::new(10, 20, 30, 40);
    assert_eq!(Path::rect(r).as_rect(), Some(r));
    let flat = Rect::new(0, 0, 10, 0);
    assert_eq!(Path::rect(flat).as_rect(), Some(flat));
}

#[test]
fn a_diagonal_path_on_corner_points_is_no_rectangle() {
    let mut p = Path::new();
    p.move_to(0, 0).line_to(0, 0).line_to(10, 10).line_to(10, 10).close();
    assert_eq!(p.as_rect(), None);
    let mut q = Path::new();
    q.move_to(0, 0).line_to(10, 0).line_to(0, 0).line_to(0, 10).close();
    assert_eq!(q.as_rect(), None);
}

#[test]
fn a_path_without_points_has_no_bounds() {
    let p = Path::new();
    assert_eq!(p.bounds(), None);
    assert_eq!(p.as_rect(), None);
    let mut w = WrapContext::new();
    w.add(WrapRegion { path: Path::new(), ..WrapRegion::rect(Rect::new(0, 0, 1, 1), 0) });
    assert_eq!(w.len(), 1);
}

#[test]
fn no_line_starts_with_a_closing_mark_after_latin() {
    let offsets: Vec<usize> = break_opportunities("a\u{3002}").iter().map(|b| b.offset).collect();
    assert_eq!(offsets, vec![4]);
    let offsets: Vec<usize> = break_opportunities("a\u{4e2d}").iter().map(|b| b.offset).collect();
    assert_eq!(offsets, vec![1, 4]);
}

#[test]
fn leading_object_source_is_not_lost() {
    let list = paint_document(&pages(&[para("\u{fffc}ab", vec![PlaceholderKind::Object])]), None, &[]);
    let record = LayoutRecord::from_paint(&list);
    let lines: Vec<_> = record
        .pages
        .iter()
        .flat_map(|p| p.lines.iter().map(move |l| (p.index, l.source.map(|s| (s.start, s.end)), l.terminator)))
        .collect();
    assert_eq!(lines, vec![(0, Some((0, 4)), LineTerminator::ParagraphMark)]);
}

#[test]
fn every_page_break_placeholder_turns_a_page() {
    assert_eq!(pages(&[para("\u{524d}\u{fffc}\u{540e}", vec![PlaceholderKind::PageBreak])]).len(), 2);
    assert_eq!(
        pages(&[para("\u{524d}\u{fffc}\u{fffc}\u{540e}", vec![PlaceholderKind::PageBreak; 2])]).len(),
        3
    );
    assert_eq!(pages(&[para("\u{524d}\u{fffc}\u{540e}", vec![PlaceholderKind::Object])]).len(), 1);
    assert_eq!(pages(&[para("\u{524d}\u{fffc}\u{540e}", vec![PlaceholderKind::LineBreak])]).len(), 1);
}

#[test]
fn no_page_but_the_last_is_empty() {
    let ps = pages(&[
        para("a\u{fffc}", vec![PlaceholderKind::PageBreak]),
        para("\u{fffc}b", vec![PlaceholderKind::PageBreak]),
    ]);
    for p in &ps[..ps.len() - 1] {
        assert!(!p.fragments.is_empty());
    }
}

#[test]
fn each_paragraph_starts_at_its_document_offset() {
    let ps = pages(&[para("ab", vec![]), para("", vec![]), para("\u{fffc}cd", vec![])]);
    let starts: Vec<u32> = ps
        .iter()
        .flat_map(|p| p.fragments.iter())
        .filter_map(|f| match f {
            Fragment::Text(t) => t.source.map(|s| s.0),
            _ => None,
        })
        .collect();
    assert_eq!(starts, vec![0, 3, 4]);
}

#[test]
fn fragment_text_is_the_paragraph_text_with_its_mark() {
    let ps = pages(&[para("ab\u{fffc}cd", vec![PlaceholderKind::Object])]);
    let texts: Vec<(String, Option<(u32, u32)>)> = ps[0]
        .fragments
        .iter()
        .filter_map(|f| match f {
            Fragment::Text(t) => Some((t.text.clone(), t.source)),
            _ => None,
        })
        .collect();
    assert_eq!(
        texts,
        vec![("ab".to_string(), Some((0, 2))), ("cd ".to_string(), Some((3, 6)))]
    );
}

struct TallMetrics;

impl rsword_layout_core::FontMetrics for TallMetrics {
    fn measure(&self, text: &str, _font: &FontSpec) -> rsword_layout_core::TextMetrics {
        rsword_layout_core::TextMetrics {
            advance: text.chars().count() as i32 * 100,
            ascent: 240,
            descent: 60,
            line_gap: 0,
        }
    }

    fn break_opportunities(&self, text: &str) -> Vec<rsword_layout_core::BreakOpportunity> {
        break_opportunities(text)
    }
}

#[test]
fn the_trace_shows_each_line_placed_by_the_turn_rule() {
    let setup = PageSetup {
        size: rsword_layout_core::Size::new(1000, 380),
        margins: rsword_layout_core::Margins::uniform(40),
    };
    let exact = |t: &str| Para {
        line_rule: rsword_layout_core::LineRule::Exact,
        line_value: 100,
        ..para(t, vec![])
    };
    let (pages, marks) = Engine::new(&TallMetrics, setup).layout_traced(&[exact("a"), exact("b"), exact("c"), exact("d")]);
    assert_eq!(pages.len(), 2);
    let placed: Vec<(usize, usize, i64, bool)> = marks.iter().map(|m| (m.page, m.para, m.top_fine, m.turned)).collect();
    assert_eq!(placed, vec![(0, 0, 200, false), (0, 1, 700, false), (0, 2, 1200, false), (1, 3, 200, true)]);
    for m in &marks {
        assert_eq!(m.height_fine, 500);
        assert_eq!(m.needed_fine, 500);
    }
    assert_eq!(marks[3].cursor_fine, 1700);
}

#[test]
fn a_path_with_a_curve_is_no_rectangle_whatever_its_extent() {
    let mut p = Path::new();
    p.move_to(i32::MIN, i32::MIN)
        .curve_to(0, 0, 0, 0, i32::MAX, i32::MAX)
        .line_to(0, 0)
        .line_to(1, 1);
    assert_eq!(p.as_rect(), None);
}
