//! What each kind of placeholder does to pagination.

use rsword_layout_core::{
    Color, Engine, FontSpec, PageSetup, Para, PlaceholderKind, Run, SimpleMetrics,
};

fn run(text: &str, placeholders: &[PlaceholderKind]) -> Run {
    Run {
        text: text.to_string(),
        font: FontSpec::new("Test", 24),
        color: Color::black(),
        placeholders: placeholders.to_vec(),
        rise: 0,
    }
}

fn pages(runs: Vec<Run>) -> usize {
    let metrics = SimpleMetrics;
    let engine = Engine::new(&metrics, PageSetup::a4());
    let para = Para { runs, ..Para::default() };
    engine.layout(&[para]).len()
}

#[test]
fn page_break_mid_paragraph_splits_the_page() {
    assert_eq!(
        pages(vec![run("前\u{FFFC}后", &[PlaceholderKind::PageBreak])]),
        2,
        "段内手动分页符没有翻页"
    );
}

#[test]
fn inline_object_must_not_paginate() {
    assert_eq!(
        pages(vec![run("前\u{FFFC}后", &[PlaceholderKind::Object])]),
        1,
        "行内图被当成了分页符"
    );
}

#[test]
fn soft_return_breaks_the_line_but_not_the_page() {
    assert_eq!(
        pages(vec![run("前\u{FFFC}后", &[PlaceholderKind::LineBreak])]),
        1,
        "软回车不该翻页"
    );
}

#[test]
fn unknown_placeholder_kind_falls_back_to_object() {
    assert_eq!(pages(vec![run("前\u{FFFC}后", &[])]), 1, "种类未知时不该翻页");
}

#[test]
fn consecutive_page_breaks_make_an_empty_page() {
    assert_eq!(
        pages(vec![run(
            "前\u{FFFC}\u{FFFC}后",
            &[PlaceholderKind::PageBreak, PlaceholderKind::PageBreak]
        )]),
        3,
        "连续分页符应当排出一张空页"
    );
}

#[test]
fn page_break_at_paragraph_start_still_paginates() {
    assert_eq!(
        pages(vec![run("\u{FFFC}后", &[PlaceholderKind::PageBreak])]),
        2,
        "段首分页符没有翻页"
    );
}

#[test]
fn page_break_does_not_depend_on_remaining_space() {
    let count = pages(vec![run("a\u{FFFC}b", &[PlaceholderKind::PageBreak])]);
    assert_eq!(count, 2, "还有大量空间时分页符被忽略了");
}
