//! Shaping, character maps and line metrics through the font libraries,
//! on a small TrueType font built in memory: 1000 units per em, ascender
//! 800, descender -200, line gap 100, glyph 1 for `a` (600 units wide)
//! and glyph 2 for `b` (700 units).

use rsword_layout_core::fontenv::VerticalGrid;
use rsword_layout_core::raster::FaceData;
use rsword_layout_core::realfont::{NamedFaces, RealMetrics};
use rsword_layout_core::vertical::{face_vertical, vertical_for, FaceVertical};
use rsword_layout_core::{Color, Engine, FontMetrics, FontSpec, PageSetup, Para, Run, RustybuzzShaper, TextShaper};

fn u16s(out: &mut Vec<u8>, values: &[u16]) {
    for v in values {
        out.extend_from_slice(&v.to_be_bytes());
    }
}

fn tiny_font() -> Vec<u8> {
    // head
    let mut head = Vec::new();
    u16s(&mut head, &[1, 0]);
    head.extend_from_slice(&0x0001_0000u32.to_be_bytes());
    head.extend_from_slice(&0u32.to_be_bytes());
    head.extend_from_slice(&0x5F0F_3CF5u32.to_be_bytes());
    u16s(&mut head, &[0, 1000]);
    head.extend_from_slice(&[0u8; 16]);
    u16s(&mut head, &[0, 0xFF38, 700, 800]);
    u16s(&mut head, &[0, 8, 2, 0, 0]);
    assert_eq!(head.len(), 54);
    // hhea
    let mut hhea = Vec::new();
    hhea.extend_from_slice(&0x0001_0000u32.to_be_bytes());
    u16s(&mut hhea, &[800, (-200i16) as u16, 100, 700, 0, 0, 700, 1, 0, 0, 0, 0, 0, 0, 0, 3]);
    assert_eq!(hhea.len(), 36);
    // maxp, version 0.5
    let mut maxp = Vec::new();
    maxp.extend_from_slice(&0x0000_5000u32.to_be_bytes());
    u16s(&mut maxp, &[3]);
    // hmtx
    let mut hmtx = Vec::new();
    u16s(&mut hmtx, &[500, 0, 600, 0, 700, 0]);
    // cmap: one format 4 subtable (3, 1) mapping a..b to glyphs 1..2
    let mut cmap = Vec::new();
    u16s(&mut cmap, &[0, 1, 3, 1]);
    cmap.extend_from_slice(&12u32.to_be_bytes());
    u16s(&mut cmap, &[4, 32, 0, 4, 4, 1, 0]);
    u16s(&mut cmap, &[0x62, 0xFFFF, 0, 0x61, 0xFFFF]);
    u16s(&mut cmap, &[(1i16 - 0x61) as u16, 1, 0, 0]);
    let tables: Vec<(&[u8; 4], Vec<u8>)> =
        vec![(b"cmap", cmap), (b"head", head), (b"hhea", hhea), (b"hmtx", hmtx), (b"maxp", maxp)];
    let mut font = Vec::new();
    font.extend_from_slice(&0x0001_0000u32.to_be_bytes());
    u16s(&mut font, &[tables.len() as u16, 64, 2, 16]);
    let mut offset = 12 + 16 * tables.len();
    let mut body = Vec::new();
    for (tag, data) in &tables {
        font.extend_from_slice(&tag[..]);
        font.extend_from_slice(&0u32.to_be_bytes());
        font.extend_from_slice(&(offset as u32).to_be_bytes());
        font.extend_from_slice(&(data.len() as u32).to_be_bytes());
        let mut padded = data.clone();
        while padded.len() % 4 != 0 {
            padded.push(0);
        }
        offset += padded.len();
        body.extend_from_slice(&padded);
    }
    font.extend_from_slice(&body);
    font
}

#[test]
fn shaping_gives_the_fonts_glyphs_and_advances_in_twips() {
    let mut shaper = RustybuzzShaper::new();
    shaper.add_face("Tiny", tiny_font(), 0);
    let runs = shaper.shape_with_face(0, "ab", 24, false);
    let ids: Vec<u32> = runs.iter().map(|r| r.glyph_id).collect();
    assert_eq!(ids, vec![1, 2]);
    // 12 pt: 600 units are 144 twips; the pen after both is 312.
    let advances: Vec<i32> = runs.iter().map(|r| r.x_advance).collect();
    assert_eq!(advances, vec![144, 168]);
    // Through the shaper trait, by family.
    let via_trait = shaper.shape("ba", &FontSpec::new("Tiny", 24));
    let ids: Vec<u32> = via_trait.iter().map(|r| r.glyph_id).collect();
    assert_eq!(ids, vec![2, 1]);
    // Shaping by faces: one run per face; characters without a face drop.
    let by_faces = shaper.shape_by_faces("aab", &[Some(0), None, Some(0)], 24, false);
    let ids: Vec<u32> = by_faces.iter().map(|r| r.glyph_id).collect();
    assert_eq!(ids, vec![1, 2]);
}

#[test]
fn the_character_map_gives_nominal_glyphs() {
    let data = FaceData { bytes: tiny_font(), index: 0 };
    assert_eq!(data.glyph_id('a'), Some(1));
    assert_eq!(data.glyph_id('b'), Some(2));
    assert_eq!(data.glyph_id('z'), None);
}

#[test]
fn line_metrics_come_from_the_font() {
    let data = FaceData { bytes: tiny_font(), index: 0 };
    let v = face_vertical(&data).expect("the font declares its metrics");
    assert_eq!(v, FaceVertical { upem: 1000, ascent: 800, descent: 200, line_gap: 100 });
    // 12 pt: 192, 48 and 24 twips.
    let m = vertical_for(&[v], 24, VerticalGrid::Unquantized);
    assert_eq!((m.ascent, m.descent, m.line_gap), (192, 48, 24));
    // On the grid: 264 twips is exactly 55 steps of 4.8; 48 is 10.
    let q = vertical_for(&[v], 24, VerticalGrid::MacWordThreeHundredthsInch);
    assert_eq!((q.ascent, q.descent, q.line_gap), (216, 48, 0));
    // Not a face of a collection.
    assert_eq!(face_vertical(&FaceData { bytes: tiny_font(), index: 1 }), None);
}

#[test]
fn real_metrics_measure_with_the_fonts() {
    let mut shaper = RustybuzzShaper::new();
    shaper.add_face("Tiny", tiny_font(), 0);
    let named = NamedFaces { shaper: &shaper };
    let metrics = RealMetrics::new(&shaper, &named);
    let font = FontSpec::new("Tiny", 24);
    let m = metrics.measure("ab", &font);
    assert_eq!((m.advance, m.ascent, m.descent, m.line_gap), (312, 192, 48, 24));
    // An empty text still has line metrics: those of the face an `x` takes.
    let e = metrics.measure("", &font);
    assert_eq!((e.advance, e.ascent, e.descent, e.line_gap), (0, 192, 48, 24));
    // Letter spacing once per glyph.
    let mut spaced = FontSpec::new("Tiny", 24);
    spaced.letter_spacing = 10;
    assert_eq!(metrics.measure("ab", &spaced).advance, 332);
    // On the grid.
    let grid = RealMetrics::new(&shaper, &named).with_vertical_grid(VerticalGrid::MacWordThreeHundredthsInch);
    assert_eq!(grid.vertical_grid(), VerticalGrid::MacWordThreeHundredthsInch);
    let q = grid.measure("a", &font);
    assert_eq!((q.advance, q.ascent, q.descent, q.line_gap), (144, 216, 48, 0));
    // Breaks are the stub's.
    assert_eq!(metrics.break_opportunities("ab cd").len(), 2);
}

#[test]
fn a_layout_on_real_metrics_places_every_line() {
    let mut shaper = RustybuzzShaper::new();
    shaper.add_face("Tiny", tiny_font(), 0);
    let named = NamedFaces { shaper: &shaper };
    let metrics = RealMetrics::new(&shaper, &named);
    let para = Para {
        runs: vec![Run {
            text: "ab ".repeat(200),
            font: FontSpec::new("Tiny", 24),
            color: Color::black(),
            placeholders: Vec::new(),
            rise: 0,
        }],
        ..Para::default()
    };
    let pages = Engine::new(&metrics, PageSetup::a4()).layout(&[para]);
    assert_eq!(pages.len(), 1);
    assert!(pages[0].fragments.len() > 1);
}
