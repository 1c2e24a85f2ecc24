//! `w:vertAlign` (superscript and subscript) and `w:position` (raise), read
//! through the bridge: the first shrinks and moves the baseline, the second
//! only moves it.

use rsword_layout_core::{
    paint_document, paras_from_document, Color, DrawCmd, Engine, FontSpec, Json, JsonNumber,
    PageSetup, PaintList, Para, Run, SimpleMetrics,
};

fn s(text: &str) -> Json {
    Json::Str(text.to_string())
}

fn n(v: i64) -> Json {
    if v >= 0 {
        Json::Number(JsonNumber::PosInt(v as u64))
    } else {
        Json::Number(JsonNumber::NegInt(v))
    }
}

fn obj(fields: Vec<(&str, Json)>) -> Json {
    Json::Object(fields.into_iter().map(|(k, v)| (k.to_string(), v)).collect())
}

fn paint_with_props(text: &str, props: Json) -> PaintList {
    let doc = obj(vec![
        (
            "main",
            Json::Array(vec![obj(vec![
                ("kind", s("text")),
                (
                    "inlines",
                    Json::Array(vec![
                        obj(vec![
                            ("kind", s("run")),
                            ("text", s("base")),
                            ("props", obj(vec![("size", n(24))])),
                        ]),
                        obj(vec![("kind", s("run")), ("text", s(text)), ("props", props)]),
                    ]),
                ),
                ("props", obj(vec![])),
            ])]),
        ),
        ("sections", Json::Array(vec![])),
    ]);
    let (paras, _) = paras_from_document(&doc);
    let metrics = SimpleMetrics;
    paint_document(&Engine::new(&metrics, PageSetup::a4()).layout(&paras), None, &[])
}

fn runs(list: &PaintList) -> Vec<(i32, u32)> {
    let mut out = Vec::new();
    for page in &list.pages {
        for cmd in &page.cmds {
            if let DrawCmd::DrawGlyphs { origin_y, font, .. } = cmd {
                out.push((*origin_y, font.size_half_points));
            }
        }
    }
    out
}

#[test]
fn superscript_shrinks_and_rises() {
    let r = runs(&paint_with_props(
        "sup",
        obj(vec![("size", n(24)), ("vertAlign", s("superscript"))]),
    ));
    let (base_y, base_size) = r[0];
    let (sup_y, sup_size) = r[1];
    assert_eq!(base_size, 24);
    assert_eq!(sup_size, 16, "0.66 em rounded to whole half points");
    assert_eq!(base_y - sup_y, 81, "{r:?}");
}

#[test]
fn subscript_shrinks_and_drops() {
    let r = runs(&paint_with_props(
        "sub",
        obj(vec![("size", n(24)), ("vertAlign", s("subscript"))]),
    ));
    let (base_y, base_size) = r[0];
    let (sub_y, sub_size) = r[1];
    assert_eq!(base_size, 24);
    assert_eq!(sub_size, 16);
    assert_eq!(sub_y - base_y, 19, "{r:?}");
}

#[test]
fn position_raises_without_resizing() {
    let r = runs(&paint_with_props("up", obj(vec![("size", n(24)), ("position", n(8))])));
    let (base_y, base_size) = r[0];
    let (up_y, up_size) = r[1];
    assert_eq!(up_size, base_size);
    assert_eq!(base_y - up_y, 80, "{r:?}");
}

#[test]
fn negative_position_lowers() {
    let r = runs(&paint_with_props("down", obj(vec![("size", n(24)), ("position", n(-6))])));
    let (base_y, _) = r[0];
    let (down_y, down_size) = r[1];
    assert_eq!(down_size, 24);
    assert_eq!(down_y - base_y, 60, "{r:?}");
}

#[test]
fn plain_run_is_not_shifted() {
    let r = runs(&paint_with_props("plain", obj(vec![("size", n(24))])));
    assert_eq!(r[0].0, r[1].0);
    assert_eq!(r[0].1, r[1].1);
}

#[test]
fn rise_does_not_change_the_advance() {
    let metrics = SimpleMetrics;
    let engine = Engine::new(&metrics, PageSetup::a4());
    let make = |rise| Para {
        runs: vec![Run {
            text: "abcdef".into(),
            font: FontSpec::new("Test", 24),
            color: Color::black(),
            placeholders: Vec::new(),
            rise,
        }],
        ..Para::default()
    };
    let flat = paint_document(&engine.layout(&[make(0)]), None, &[]);
    let lifted = paint_document(&engine.layout(&[make(100)]), None, &[]);
    let xs = |list: &PaintList| -> Vec<i32> {
        list.pages
            .iter()
            .flat_map(|p| p.cmds.iter())
            .filter_map(|c| match c {
                DrawCmd::DrawGlyphs { origin_x, .. } => Some(*origin_x),
                _ => None,
            })
            .collect()
    };
    assert_eq!(xs(&flat), xs(&lifted));
}
