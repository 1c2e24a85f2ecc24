//! Whether a section start opens a new page: `w:sectPr/w:type` says how the
//! section itself begins.

use rsword_layout_core::{paras_from_document, Engine, Json, JsonNumber, PageSetup, SimpleMetrics};

fn s(text: &str) -> Json {
    Json::Str(text.to_string())
}

fn n(v: usize) -> Json {
    Json::Number(JsonNumber::PosInt(v as u64))
}

fn obj(fields: Vec<(&str, Json)>) -> Json {
    Json::Object(fields.into_iter().map(|(k, v)| (k.to_string(), v)).collect())
}

fn block(text: &str) -> Json {
    obj(vec![
        ("kind", s("text")),
        (
            "inlines",
            Json::Array(vec![obj(vec![
                ("kind", s("run")),
                ("text", s(text)),
                (
                    "segments",
                    Json::Array(vec![obj(vec![
                        ("kind", obj(vec![("kind", s("text"))])),
                        ("text", Json::Array(vec![n(0), n(text.len())])),
                    ])]),
                ),
                ("props", obj(vec![])),
            ])]),
        ),
        ("props", obj(vec![])),
    ])
}

fn doc_with(main: Vec<Json>, sections: Vec<(usize, usize, &str)>) -> Json {
    obj(vec![
        ("main", Json::Array(main)),
        (
            "sections",
            Json::Array(
                sections
                    .into_iter()
                    .map(|(start, end, kind)| {
                        obj(vec![
                            ("blockRange", Json::Array(vec![n(start), n(end)])),
                            ("props", obj(vec![("kind", s(kind))])),
                        ])
                    })
                    .collect(),
            ),
        ),
    ])
}

fn doc(blocks: usize, sections: Vec<(usize, usize, &str)>) -> Json {
    doc_with((0..blocks).map(|i| block(&format!("P{i}"))).collect(), sections)
}

fn pages(doc: &Json) -> usize {
    let (paras, _) = paras_from_document(doc);
    let metrics = SimpleMetrics;
    Engine::new(&metrics, PageSetup::a4()).layout(&paras).len()
}

#[test]
fn next_page_section_starts_a_new_page() {
    let d = doc(2, vec![(0, 1, "nextPage"), (1, 2, "nextPage")]);
    assert_eq!(pages(&d), 2);
}

#[test]
fn continuous_section_does_not() {
    let d = doc(2, vec![(0, 1, "nextPage"), (1, 2, "continuous")]);
    assert_eq!(pages(&d), 1);
}

#[test]
fn first_section_does_not_add_a_blank_page() {
    let d = doc(1, vec![(0, 1, "nextPage")]);
    assert_eq!(pages(&d), 1);
}

#[test]
fn next_column_is_not_a_page_break() {
    let d = doc(2, vec![(0, 1, "nextPage"), (1, 2, "nextColumn")]);
    assert_eq!(pages(&d), 1);
}

#[test]
fn even_and_odd_page_start_a_new_page_too() {
    for kind in ["evenPage", "oddPage"] {
        let d = doc(2, vec![(0, 1, "nextPage"), (1, 2, kind)]);
        assert_eq!(pages(&d), 2, "{kind}");
    }
}

#[test]
fn mr1_section_layout_reproduces_word() {
    let d = doc(
        15,
        vec![
            (0, 9, "nextPage"),
            (9, 10, "continuous"),
            (10, 11, "nextPage"),
            (11, 12, "continuous"),
            (12, 16, "nextPage"),
        ],
    );
    assert_eq!(pages(&d), 3);
}

#[test]
fn sections_are_indexed_by_block_not_by_paragraph() {
    let main = vec![block("P0"), obj(vec![("kind", s("table"))]), block("P2")];
    let d = doc_with(main, vec![(0, 2, "continuous"), (2, 3, "nextPage")]);
    let (paras, skipped) = paras_from_document(&d);
    assert_eq!(skipped, 1);
    assert_eq!(paras.len(), 2);
    assert!(!paras[0].page_break_before);
    assert!(paras[1].page_break_before);
}
