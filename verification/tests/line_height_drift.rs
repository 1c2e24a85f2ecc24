//! Rounding of line heights must not add up down the page: the vertical
//! cursor runs in fine units (1/7200 inch) and is only rounded to twips
//! where a line is placed.

use rsword_layout_core::{
    BreakOpportunity, Color, Engine, FontMetrics, FontSpec, Fragment, LineRule, Page, PageSetup, Para,
    Run, SimpleMetrics, TextMetrics, Twips,
};

/// Metrics whose exact line height is 273.6 twips (Word's 1/300 inch grid
/// at 12pt); `measure` can only say 274.
struct GridMetrics;

const NATURAL_FINE: i64 = 1368;
const NATURAL_TWIPS: Twips = 274;

impl FontMetrics for GridMetrics {
    fn measure(&self, text: &str, _font: &FontSpec) -> TextMetrics {
        TextMetrics {
            advance: text.chars().count() as Twips * 100,
            ascent: NATURAL_TWIPS - 53,
            descent: 53,
            line_gap: 0,
        }
    }

    fn break_opportunities(&self, text: &str) -> Vec<BreakOpportunity> {
        SimpleMetrics.break_opportunities(text)
    }

    fn natural_height_fine(&self, _text: &str, _font: &FontSpec) -> i64 {
        NATURAL_FINE
    }
}

fn para(text: &str) -> Para {
    Para {
        runs: vec![Run {
            text: text.to_string(),
            font: FontSpec::new("Test", 24),
            color: Color::black(),
            placeholders: Vec::new(),
            rise: 0,
        }],
        ..Para::default()
    }
}

fn baselines(pages: &[Page]) -> Vec<Twips> {
    pages
        .iter()
        .flat_map(|p| p.fragments.iter())
        .filter_map(|f| match f {
            Fragment::Text(t) => Some(t.baseline_y),
            _ => None,
        })
        .collect()
}

#[test]
fn line_tops_track_the_exact_height_not_the_rounded_one() {
    let metrics = GridMetrics;
    let setup = PageSetup::a4();
    let top = setup.content_area().y;
    let paras: Vec<Para> = (0..12).map(|i| para(&format!("L{i}"))).collect();
    let pages = Engine::new(&metrics, setup).layout(&paras);

    let ys = baselines(&pages);
    assert_eq!(ys.len(), 12, "twelve paragraphs, twelve lines: {ys:?}");

    let ascent = NATURAL_TWIPS - 53;
    for (n, &y) in ys.iter().enumerate() {
        let exact = f64::from(top) + n as f64 * (NATURAL_FINE as f64 / 5.0) + f64::from(ascent);
        let drift = (f64::from(y) - exact).abs();
        assert!(drift <= 0.5, "line {n} drifted {drift} twips (y={y}, exact={exact})");
    }
}

#[test]
fn wrapped_lines_keep_the_same_fine_step_as_unwrapped_lines() {
    let text = "word ".repeat(100);
    let pages = Engine::new(&GridMetrics, PageSetup::a4()).layout(&[para(text.trim_end())]);
    assert_eq!(pages.len(), 1);
    let mut ys = std::collections::BTreeMap::new();
    for fragment in &pages[0].fragments {
        if let Fragment::Text(t) = fragment {
            ys.entry(t.line).or_insert(t.baseline_fine);
        }
    }
    let ys: Vec<_> = ys.into_values().collect();
    assert!(ys.len() > 3);
    for pair in ys.windows(2) {
        assert_eq!(pair[1] - pair[0], NATURAL_FINE);
    }
}

#[test]
fn drift_would_be_visible_at_this_length() {
    // At the twelfth line the rounded and the exact cursor differ, so the
    // input above can tell the two apart.
    let n = 11i64;
    let rounded = n * i64::from(NATURAL_TWIPS);
    let exact = n * NATURAL_FINE / 5;
    assert!((rounded - exact).abs() > 0, "no difference at {n} lines");
}

#[test]
fn a_metrics_without_fine_override_still_works() {
    let setup = PageSetup::a4();
    let paras: Vec<Para> = (0..5).map(|i| para(&format!("L{i}"))).collect();
    let pages = Engine::new(&SimpleMetrics, setup).layout(&paras);
    let ys = baselines(&pages);
    assert_eq!(ys.len(), 5);
    for pair in ys.windows(2) {
        assert!(pair[1] > pair[0], "lines do not go down: {ys:?}");
    }
}

/// Metrics that put every baseline on a 24 fine-unit (0.24pt) grid.
struct QuantisingMetrics;

const GRID_FINE: i64 = 24;

impl FontMetrics for QuantisingMetrics {
    fn measure(&self, text: &str, font: &FontSpec) -> TextMetrics {
        GridMetrics.measure(text, font)
    }
    fn break_opportunities(&self, text: &str) -> Vec<BreakOpportunity> {
        SimpleMetrics.break_opportunities(text)
    }
    fn natural_height_fine(&self, text: &str, font: &FontSpec) -> i64 {
        GridMetrics.natural_height_fine(text, font)
    }
    fn quantize_baseline_fine(&self, y_fine: i64) -> i64 {
        (y_fine + GRID_FINE / 2) / GRID_FINE * GRID_FINE
    }
}

#[test]
fn every_baseline_lands_on_the_metrics_grid() {

    let paras: Vec<Para> = (0..20).map(|i| para(&format!("L{i}"))).collect();
    let pages = Engine::new(&QuantisingMetrics, PageSetup::a4()).layout(&paras);

    let mut n = 0;
    for page in &pages {
        for f in &page.fragments {
            if let Fragment::Text(t) = f {
                n += 1;
                assert_eq!(t.baseline_fine % GRID_FINE, 0, "baseline {n} is off the grid: {}", t.baseline_fine);
            }
        }
    }
    assert_eq!(n, 20);
}

#[test]
fn without_quantising_the_baselines_miss_the_grid() {

    let paras: Vec<Para> = (0..20).map(|i| para(&format!("L{i}"))).collect();
    let pages = Engine::new(&GridMetrics, PageSetup::a4()).layout(&paras);
    let off = pages
        .iter()
        .flat_map(|p| p.fragments.iter())
        .filter(|f| matches!(f, Fragment::Text(t) if t.baseline_fine % GRID_FINE != 0))
        .count();
    assert!(off > 0, "this input cannot tell quantizing apart");
}

#[test]
fn exact_spacing_ignores_a_font_taller_than_the_line() {
    let paras: Vec<Para> = (0..6)
        .map(|i| Para { line_rule: LineRule::Exact, line_value: 100, ..para(&format!("L{i}")) })
        .collect();
    let pages = Engine::new(&GridMetrics, PageSetup::a4()).layout(&paras);

    let ys: Vec<Twips> = pages
        .iter()
        .flat_map(|p| p.fragments.iter())
        .filter_map(|f| match f {
            Fragment::Text(t) => Some(t.baseline_y),
            _ => None,
        })
        .collect();
    assert_eq!(ys.len(), 6, "{ys:?}");
    for pair in ys.windows(2) {
        assert_eq!(pair[1] - pair[0], 100, "exact spacing grew with the content: {ys:?}");
    }
}

#[test]
fn at_least_spacing_still_grows_to_fit() {
    let paras: Vec<Para> = (0..6)
        .map(|i| Para { line_rule: LineRule::AtLeast, line_value: 100, ..para(&format!("L{i}")) })
        .collect();
    let pages = Engine::new(&GridMetrics, PageSetup::a4()).layout(&paras);
    let ys: Vec<Twips> = pages
        .iter()
        .flat_map(|p| p.fragments.iter())
        .filter_map(|f| match f {
            Fragment::Text(t) => Some(t.baseline_y),
            _ => None,
        })
        .collect();
    assert!(ys.windows(2).all(|p| p[1] - p[0] > 100), "atLeast did not grow: {ys:?}");
}
