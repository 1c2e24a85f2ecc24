//! Draw commands: laid-out pages turned into a stream for a vector canvas.
//! There is no resolution here; positions stay in twips.
use vstd::prelude::*;
use crate::engine::{all_fragments, clamp_twips_spec, clamp_i64_spec, frag_ok, in_reading_order, no_placeholder, Fragment, Page, TextFragment};
use crate::font::FontSpec;
use crate::geom::{Color, Rect, Twips};
use crate::oracle::LineTerminator;
use crate::path::{FillRule, LineCap, LineJoin, Path};
use crate::text::{chars_of, utf16_count, utf16_len};

verus! {

/// A face identifier, shared by the shaper, the rasterizer and the glyphs.
pub type FaceId = String;

/// Stroke parameters.
#[derive(Debug, Clone, PartialEq)]
pub struct Stroke {
    /// Line width in twips.
    pub width: Twips,
    pub cap: LineCap,
    pub join: LineJoin,
    /// Dash pattern: alternating on and off lengths in twips; empty is
    /// solid.
    pub dash: Vec<Twips>,
    pub dash_offset: Twips,
}

impl Default for Stroke {
    /// A solid one-point line with butt caps and miter joins.
    fn default() -> (s: Stroke)
        ensures
            s.width == 20,
            s.cap == LineCap::Butt,
            s.join == LineJoin::Miter,
            s.dash@.len() == 0,
            s.dash_offset == 0,
    {
        Stroke { width: 20, cap: LineCap::Butt, join: LineJoin::Miter, dash: Vec::new(), dash_offset: 0 }
    }
}

/// How a path or glyphs are coloured.
#[derive(Debug, Clone, Copy, PartialEq, Eq)]
pub struct Paint {
    pub color: Color,
}

impl Paint {
    /// An opaque paint of one colour.
    pub fn solid(color: Color) -> (p: Paint)
        ensures
            p.color == color,
    {
        Paint { color }
    }
}

/// How a path is painted.
#[derive(Debug, Clone, PartialEq)]
pub enum PaintOp {
    Fill { paint: Paint, rule: FillRule },
    Stroke { paint: Paint, stroke: Stroke },
    /// Fill, then stroke (table cells: shading and border).
    FillThenStroke { fill: Paint, rule: FillRule, stroke_paint: Paint, stroke: Stroke },
}

/// A positioned glyph. It holds a glyph id, not a character: ligatures and
/// contextual forms have no single character.
#[derive(Debug, Clone, PartialEq)]
pub struct PositionedGlyph {
    pub face: String,
    pub glyph_id: u32,
    /// Pen position, twips.
    pub x: Twips,
    pub y: Twips,
    /// Pen y in fine units (1/7200 inch).
    pub y_fine: i64,
    /// Advance, twips.
    pub advance_x: Twips,
    pub advance_y: Twips,
    /// Size in half points.
    pub size_half_points: u32,
    /// The source characters of this glyph, UTF-16 units, document-wide.
    pub source: Option<(u32, u32)>,
}

/// A draw command. The canvas is stateful: `Save`/`Restore` and `Clip`
/// apply to the commands that follow.
#[derive(Debug, Clone, PartialEq)]
pub enum DrawCmd {
    Save,
    Restore,
    Clip { path: Path, rule: FillRule },
    DrawPath { path: Path, op: PaintOp },
    /// A run of glyphs of one font and colour. `text` serves backends that
    /// can set text directly.
    DrawGlyphs {
        glyphs: Vec<PositionedGlyph>,
        /// Baseline start, twips.
        origin_x: Twips,
        origin_y: Twips,
        /// Baseline y in fine units.
        origin_y_fine: i64,
        text: String,
        font: FontSpec,
        paint: Paint,
        /// How the line ends.
        terminator: LineTerminator,
        /// Source range, UTF-16 units, document-wide.
        source: Option<(u32, u32)>,
        /// The line of the page; every command of one line has the same.
        line: u32,
    },
    DrawImage { id: String, rect: Rect },
}

/// One glyph of a shaping result, relative to the start of the shaped text.
#[derive(Debug, Clone, Copy, PartialEq, Eq)]
pub struct ShapedRun {
    /// Index of the face in the face list.
    pub face_index: usize,
    pub glyph_id: u32,
    /// Advance and offsets, twips.
    pub x_advance: Twips,
    pub x_offset: Twips,
    pub y_offset: Twips,
}

/// Text shaping: text to glyphs. An empty result means the text could not
/// be shaped (no font), not that it has no width.
pub trait TextShaper {
    /// What `shape` gives for a text in a font.
    spec fn spec_shape(&self, text: Seq<char>, font: FontSpec) -> Seq<ShapedRun>;

    fn shape(&self, text: &str, font: &FontSpec) -> (out: Vec<ShapedRun>)
        ensures
            out@ == self.spec_shape(text@, *font),
    ;
}

/// What a canvas has been handed: a page begun with its size, a command,
/// a page ended.
pub enum CanvasEvent {
    Begin(Twips, Twips),
    Draw(DrawCmd),
    End,
}

/// Each command as the event of drawing it.
pub open spec fn draw_events(cmds: Seq<DrawCmd>) -> Seq<CanvasEvent> {
    cmds.map_values(|c: DrawCmd| CanvasEvent::Draw(c))
}

/// A vector canvas: what a backend implements.
pub trait VectorCanvas: Sized {
    type Error;

    /// What the canvas has been handed so far, in order. The default is one
    /// unspecified value, so a canvas whose methods are proved defines its
    /// own.
    open spec fn events(&self) -> Seq<CanvasEvent> {
        arbitrary()
    }

    /// Begins a page of the given size; on success the canvas records it.
    fn begin_page(&mut self, width: Twips, height: Twips) -> (r: Result<(), Self::Error>)
        ensures
            r is Ok ==> final(self).events() == old(self).events().push(CanvasEvent::Begin(width, height)),
    ;

    /// Ends the page; on success the canvas records it.
    fn end_page(&mut self) -> (r: Result<(), Self::Error>)
        ensures
            r is Ok ==> final(self).events() == old(self).events().push(CanvasEvent::End),
    ;

    /// Draws a command; on success the canvas records it.
    fn draw(&mut self, cmd: &DrawCmd) -> (r: Result<(), Self::Error>)
        ensures
            r is Ok ==> final(self).events() == old(self).events().push(CanvasEvent::Draw(*cmd)),
    ;

    /// Called when everything is drawn; it hands nothing more to draw. By
    /// default there is nothing left to do, and it succeeds.
    fn finish(&mut self) -> (r: Result<(), Self::Error>)
        ensures
            r is Ok ==> final(self).events() == old(self).events(),
        default_ensures
            r is Ok,
            *final(self) == *old(self),
    {
        Ok(())
    }

    /// Draws the commands in order, stopping at the first error. With no
    /// command nothing is drawn and it succeeds; otherwise the canvas's own
    /// `draw` decides. On success every command was drawn, in order.
    fn draw_all(&mut self, cmds: &[DrawCmd]) -> (r: Result<(), Self::Error>)
        ensures
            r is Ok ==> final(self).events() == old(self).events() + draw_events(cmds@),
        default_ensures
            cmds@.len() == 0 ==> r is Ok && *final(self) == *old(self),
    {
        let mut i: usize = 0;
        while i < cmds.len()
            invariant
                i <= cmds@.len(),
                i == 0 ==> *self == *old(self),
                self.events() == old(self).events() + draw_events(cmds@.take(i as int)),
            decreases cmds@.len() - i,
        {
            proof {
                assert(draw_events(cmds@.take(i + 1)) =~= draw_events(cmds@.take(i as int)).push(
                    CanvasEvent::Draw(cmds@[i as int]),
                ));
            }
            match self.draw(&cmds[i]) {
                Ok(()) => {},
                Err(e) => {
                    return Err(e);
                },
            }
            i = i + 1;
        }
        assert(cmds@.take(cmds@.len() as int) =~= cmds@);
        Ok(())
    }
}

/// The draw commands of one page.
#[derive(Debug, Clone, PartialEq)]
pub struct PaintPage {
    pub width: Twips,
    pub height: Twips,
    /// The content area (page minus margins).
    pub content_area: Rect,
    pub cmds: Vec<DrawCmd>,
}

impl PaintPage {
    pub fn new(width: Twips, height: Twips, content_area: Rect) -> (p: PaintPage)
        ensures
            p.width == width,
            p.height == height,
            p.content_area == content_area,
            p.cmds@.len() == 0,
    {
        PaintPage { width, height, content_area, cmds: Vec::new() }
    }

    /// What a canvas is handed for this page: begin with its size, every
    /// command in order, end.
    pub open spec fn events(self) -> Seq<CanvasEvent> {
        seq![CanvasEvent::Begin(self.width, self.height)] + draw_events(self.cmds@) + seq![CanvasEvent::End]
    }

    /// Hands the page to a canvas: begin, every command, end. Each step is
    /// the canvas's; the first error stops it and comes back as it is.
    pub fn replay<C: VectorCanvas>(&self, canvas: &mut C) -> (r: Result<(), C::Error>)
        ensures
            r is Ok ==> final(canvas).events() == old(canvas).events() + self.events(),
    {
        match canvas.begin_page(self.width, self.height) {
            Ok(()) => {},
            Err(e) => {
                return Err(e);
            },
        }
        match canvas.draw_all(self.cmds.as_slice()) {
            Ok(()) => {},
            Err(e) => {
                return Err(e);
            },
        }
        let r = canvas.end_page();
        proof {
            if r is Ok {
                assert(canvas.events() =~= old(canvas).events() + self.events());
            }
        }
        r
    }
}

/// The draw commands of a document.
#[derive(Debug, Clone, Default, PartialEq)]
pub struct PaintList {
    pub pages: Vec<PaintPage>,
}

impl PaintList {
    pub fn page_count(&self) -> (n: usize)
        ensures
            n == self.pages@.len(),
    {
        self.pages.len()
    }

    /// What a canvas is handed for the pages, page after page.
    pub open spec fn events_upto(self, n: int) -> Seq<CanvasEvent>
        decreases n,
    {
        if n <= 0 {
            seq![]
        } else {
            self.events_upto(n - 1) + self.pages@[n - 1].events()
        }
    }

    /// Hands every page to a canvas, then finishes it. The first error
    /// stops it and comes back as it is.
    pub fn replay<C: VectorCanvas>(&self, canvas: &mut C) -> (r: Result<(), C::Error>)
        ensures
            r is Ok ==> final(canvas).events() == old(canvas).events() + self.events_upto(self.pages@.len() as int),
    {
        let mut i: usize = 0;
        while i < self.pages.len()
            invariant
                i <= self.pages@.len(),
                canvas.events() == old(canvas).events() + self.events_upto(i as int),
            decreases self.pages@.len() - i,
        {
            match self.pages[i].replay(canvas) {
                Ok(()) => {},
                Err(e) => {
                    return Err(e);
                },
            }
            proof {
                assert(old(canvas).events() + self.events_upto(i + 1) =~= old(canvas).events() + self.events_upto(
                    i as int,
                ) + self.pages@[i as int].events());
            }
            i = i + 1;
        }
        canvas.finish()
    }
}

/// A shaped glyph put at pen position `pen` of a fragment. With an exact
/// match of glyphs to characters the `i`th glyph owns the `i`th source
/// unit; otherwise every glyph gets the fragment's whole range.
pub open spec fn spec_positioned(g: ShapedRun, face: String, t: TextFragment, exact: bool, i: int, pen: int) -> PositionedGlyph {
    PositionedGlyph {
        face,
        glyph_id: g.glyph_id,
        x: clamp_twips_spec(pen + g.x_offset),
        y: clamp_twips_spec(t.baseline_y - g.y_offset),
        y_fine: clamp_i64_spec(t.baseline_fine - g.y_offset * 5),
        advance_x: g.x_advance,
        advance_y: 0,
        size_half_points: t.font.size_half_points,
        source: match t.source {
            Some(s) => Some(
                if exact {
                    ((s.0 + i) as u32, (s.0 + i + 1) as u32)
                } else {
                    s
                },
            ),
            None => None,
        },
    }
}

/// The glyphs of `runs[..k]` whose face is known, and the pen after them;
/// a glyph without a face is dropped and does not move the pen.
pub open spec fn glyphs_upto(runs: Seq<ShapedRun>, faces: Seq<String>, t: TextFragment, exact: bool, k: int) -> (
    Seq<PositionedGlyph>,
    int,
)
    decreases k,
{
    if k <= 0 {
        (seq![], t.x as int)
    } else {
        let (gs, pen) = glyphs_upto(runs, faces, t, exact, k - 1);
        let g = runs[k - 1];
        if g.face_index < faces.len() {
            (
                gs.push(spec_positioned(g, faces[g.face_index as int], t, exact, k - 1, pen)),
                clamp_twips_spec(pen + g.x_advance) as int,
            )
        } else {
            (gs, pen)
        }
    }
}

/// When every glyph of `runs` has a known face, the first `k` glyphs are
/// kept one for one, each put at the pen reached before it.
proof fn lemma_known_faces_keep_every_glyph(
    runs: Seq<ShapedRun>,
    faces: Seq<FaceId>,
    t: TextFragment,
    exact: bool,
    k: int,
)
    requires
        0 <= k <= runs.len(),
        forall|i: int| 0 <= i < runs.len() ==> (#[trigger] runs[i]).face_index < faces.len(),
    ensures
        glyphs_upto(runs, faces, t, exact, k).0.len() == k,
        i32::MIN <= glyphs_upto(runs, faces, t, exact, k).1 <= i32::MAX,
        forall|j: int|
            0 <= j < k ==> #[trigger] glyphs_upto(runs, faces, t, exact, k).0[j] == spec_positioned(
                runs[j],
                faces[runs[j].face_index as int],
                t,
                exact,
                j,
                glyphs_upto(runs, faces, t, exact, j).1,
            ),
    decreases k,
{
    if k > 0 {
        lemma_known_faces_keep_every_glyph(runs, faces, t, exact, k - 1);
        assert(runs[k - 1].face_index < faces.len());
    }
}

/// Glyphs of a fragment follow the pen: the first sits at the fragment's
/// start plus its offset, and each next one at the pen moved on by the
/// previous glyph's advance (in saturated twips), plus its own offset.
pub proof fn law_glyphs_follow_the_pen(runs: Seq<ShapedRun>, faces: Seq<FaceId>, t: TextFragment)
    requires
        forall|i: int| 0 <= i < runs.len() ==> (#[trigger] runs[i]).face_index < faces.len(),
    ensures
        shaped_glyphs(runs, faces, t).len() == runs.len(),
        runs.len() > 0 ==> shaped_glyphs(runs, faces, t)[0].x == clamp_twips_spec(t.x + runs[0].x_offset),
        forall|k: int|
            0 <= k < runs.len() - 1 && i32::MIN < #[trigger] shaped_glyphs(runs, faces, t)[k].x < i32::MAX
                ==> shaped_glyphs(runs, faces, t)[k + 1].x == clamp_twips_spec(
                clamp_twips_spec(shaped_glyphs(runs, faces, t)[k].x - runs[k].x_offset + runs[k].x_advance)
                    + runs[k + 1].x_offset,
            ),
{
    let exact = spec_exact(runs.len() as int, t);
    let n = runs.len() as int;
    lemma_known_faces_keep_every_glyph(runs, faces, t, exact, n);
    assert forall|k: int|
        0 <= k < runs.len() - 1 && i32::MIN < #[trigger] shaped_glyphs(runs, faces, t)[k].x < i32::MAX
            implies shaped_glyphs(runs, faces, t)[k + 1].x == clamp_twips_spec(
            clamp_twips_spec(shaped_glyphs(runs, faces, t)[k].x - runs[k].x_offset + runs[k].x_advance)
                + runs[k + 1].x_offset,
        ) by {
        let out = glyphs_upto(runs, faces, t, exact, n).0;
        assert(out[k] == spec_positioned(
            runs[k],
            faces[runs[k].face_index as int],
            t,
            exact,
            k,
            glyphs_upto(runs, faces, t, exact, k).1,
        ));
        assert(out[k + 1] == spec_positioned(
            runs[k + 1],
            faces[runs[k + 1].face_index as int],
            t,
            exact,
            k + 1,
            glyphs_upto(runs, faces, t, exact, k + 1).1,
        ));
        lemma_known_faces_keep_every_glyph(runs, faces, t, exact, k);
        assert(runs[k].face_index < faces.len());
    }
    if n > 0 {
        assert(glyphs_upto(runs, faces, t, exact, n).0[0] == spec_positioned(
            runs[0],
            faces[runs[0].face_index as int],
            t,
            exact,
            0,
            glyphs_upto(runs, faces, t, exact, 0).1,
        ));
    }
}

/// Each glyph keeps what the shaper gave it (id, advance, face), stands on
/// the fragment's baseline moved by its y offset, has the fragment's size,
/// and, when glyphs match the fragment's UTF-16 units one to one, owns the
/// unit at its own index; otherwise it owns the fragment's whole range.
pub proof fn law_glyphs_keep_the_shaping(runs: Seq<ShapedRun>, faces: Seq<FaceId>, t: TextFragment)
    requires
        forall|i: int| 0 <= i < runs.len() ==> (#[trigger] runs[i]).face_index < faces.len(),
    ensures
        forall|k: int|
            0 <= k < runs.len() ==> {
                let g = #[trigger] shaped_glyphs(runs, faces, t)[k];
                let one_to_one = runs.len() == utf16_len(t.text@) && (t.source matches Some(s) && s.1 - s.0
                    == runs.len());
                &&& g.glyph_id == runs[k].glyph_id
                &&& g.advance_x == runs[k].x_advance
                &&& g.face == faces[runs[k].face_index as int]
                &&& g.y == clamp_twips_spec(t.baseline_y - runs[k].y_offset)
                &&& g.size_half_points == t.font.size_half_points
                &&& (one_to_one ==> (t.source matches Some(s) && g.source matches Some(r) && r.0 == s.0 + k
                    && r.1 == s.0 + k + 1))
                &&& (!one_to_one ==> g.source == t.source)
            },
{
    let exact = spec_exact(runs.len() as int, t);
    lemma_known_faces_keep_every_glyph(runs, faces, t, exact, runs.len() as int);
    assert forall|k: int| 0 <= k < runs.len() implies {
        let g = #[trigger] shaped_glyphs(runs, faces, t)[k];
        let one_to_one = runs.len() == utf16_len(t.text@) && (t.source matches Some(s) && s.1 - s.0
            == runs.len());
        &&& g.glyph_id == runs[k].glyph_id
        &&& g.advance_x == runs[k].x_advance
        &&& g.face == faces[runs[k].face_index as int]
        &&& g.y == clamp_twips_spec(t.baseline_y - runs[k].y_offset)
        &&& g.size_half_points == t.font.size_half_points
        &&& (one_to_one ==> (t.source matches Some(s) && g.source matches Some(r) && r.0 == s.0 + k && r.1
            == s.0 + k + 1))
        &&& (!one_to_one ==> g.source == t.source)
    } by {
        assert(glyphs_upto(runs, faces, t, exact, runs.len() as int).0[k] == spec_positioned(
            runs[k],
            faces[runs[k].face_index as int],
            t,
            exact,
            k,
            glyphs_upto(runs, faces, t, exact, k).1,
        ));
    }
}

/// Whether glyphs map one to one onto the fragment's source units: as many
/// glyphs as UTF-16 units in the text, and a source range that long.
pub open spec fn spec_exact(n_glyphs: int, t: TextFragment) -> bool {
    let span_len: int = match t.source {
        Some(s) => s.1 - s.0,
        None => 0,
    };
    n_glyphs == utf16_len(t.text@) && span_len == utf16_len(t.text@)
}

/// The glyphs of a fragment from its shaping result `runs`.
pub open spec fn shaped_glyphs(runs: Seq<ShapedRun>, faces: Seq<FaceId>, t: TextFragment) -> Seq<PositionedGlyph> {
    glyphs_upto(runs, faces, t, spec_exact(runs.len() as int, t), runs.len() as int).0
}

/// The glyphs of a fragment laid end to end from its start: positions
/// from the shaper's advances, source units assigned in reading order.
pub fn position_glyphs<S: TextShaper + ?Sized>(shaper: &S, t: &TextFragment, faces: &[FaceId]) -> (out: Vec<PositionedGlyph>)
    requires
        t.source matches Some(s) ==> s.0 <= s.1,
    ensures
        out@ == shaped_glyphs(shaper.spec_shape(t.text@, t.font), faces@, *t),
{
    let runs = shaper.shape(t.text.as_str(), &t.font);
    let cs = chars_of(t.text.as_str());
    proof {
        assert(cs@.subrange(0, cs@.len() as int) =~= cs@);
    }
    let units: Option<u32> = utf16_count(cs.as_slice(), 0, cs.len());
    let span_len: u32 = match t.source {
        Some((a, b)) => b - a,
        None => 0,
    };
    let exact = match units {
        Some(u) => runs.len() == u as usize && span_len == u,
        None => false,
    };
    let base: u32 = match t.source {
        Some((a, _)) => a,
        None => 0,
    };
    let mut out: Vec<PositionedGlyph> = Vec::new();
    let mut pen: Twips = t.x;
    let mut i: usize = 0;
    while i < runs.len()
        invariant
            0 <= i <= runs@.len(),
            exact == spec_exact(runs@.len() as int, *t),
            t.source matches Some(s) ==> base == s.0 && span_len == s.1 - s.0,
            (out@, pen as int) == glyphs_upto(runs@, faces@, *t, exact, i as int),
        decreases runs@.len() - i,
    {
        let g = runs[i];
        if g.face_index < faces.len() {
            let face = faces[g.face_index].clone();
            let source = match t.source {
                Some((a, b)) => Some(
                    if exact {
                        ((base as u64 + i as u64) as u32, (base as u64 + i as u64 + 1) as u32)
                    } else {
                        (a, b)
                    },
                ),
                None => None,
            };
            let glyph = PositionedGlyph {
                face,
                glyph_id: g.glyph_id,
                x: crate::engine::clamp_twips(pen as i64 + g.x_offset as i64),
                y: crate::engine::clamp_twips(t.baseline_y as i64 - g.y_offset as i64),
                y_fine: crate::engine::clamp_fine(t.baseline_fine as i128 - g.y_offset as i128 * 5),
                advance_x: g.x_advance,
                advance_y: 0,
                size_half_points: t.font.size_half_points,
                source,
            };
            proof {
                if exact {
                    assert(base + i + 1 <= u32::MAX);
                }
            }
            out.push(glyph);
            pen = crate::engine::clamp_twips(pen as i64 + g.x_advance as i64);
        }
        i = i + 1;
    }
    out
}

/// The command a fragment becomes: a rectangle is a filled path, an
/// image stays an image, text becomes glyphs carrying the fragment's
/// origin, text, font, colour, terminator, source range and line; without
/// a shaper the glyph list is empty.
pub open spec fn cmd_matches(f: Fragment, c: DrawCmd, shaper: Option<&dyn TextShaper>, faces: Seq<FaceId>) -> bool {
    match f {
        Fragment::Rect { rect, color } => c matches DrawCmd::DrawPath { path, op } && path@ == Path::rect_segs(rect)
            && op == (PaintOp::Fill { paint: Paint { color }, rule: FillRule::NonZero }),
        Fragment::Image { id, rect } => c matches DrawCmd::DrawImage { id: cid, rect: crect } && cid@ == id@ && crect
            == rect,
        Fragment::Text(t) => c matches DrawCmd::DrawGlyphs {
            glyphs,
            origin_x,
            origin_y,
            origin_y_fine,
            text,
            font,
            paint,
            terminator,
            source,
            line,
        } && origin_x == t.x && origin_y == t.baseline_y && origin_y_fine == t.baseline_fine && text@ == t.text@
            && font == t.font && paint == (Paint { color: t.color }) && terminator == t.terminator && source
            == t.source && line == t.line && (shaper is None ==> glyphs@.len() == 0) && (shaper matches Some(sh) ==> glyphs@ == shaped_glyphs(
            sh.spec_shape(t.text@, t.font),
            faces,
            t,
        )),
    }
}

/// A fragment that can be painted: rectangles whose edges are
/// representable and, when glyphs are shaped, text whose source range does
/// not run backwards (glyph sources measure the range's length).
pub open spec fn paintable(f: Fragment, shaped: bool) -> bool {
    match f {
        Fragment::Rect { rect, .. } => rect.edges_fit(),
        Fragment::Text(t) => shaped ==> (t.source matches Some(s) ==> s.0 <= s.1),
        _ => true,
    }
}

/// Turns a laid-out page into draw commands, one per fragment, in order.
pub fn paint_page(page: &Page, shaper: Option<&dyn TextShaper>, faces: &[FaceId]) -> (out: PaintPage)
    requires
        forall|i: int| 0 <= i < page.fragments@.len() ==> paintable(#[trigger] page.fragments@[i], shaper is Some),
    ensures
        out.width == page.size.width,
        out.height == page.size.height,
        out.content_area == page.content_area,
        out.cmds@.len() == page.fragments@.len(),
        forall|i: int|
            0 <= i < page.fragments@.len() ==> cmd_matches(
                #[trigger] page.fragments@[i],
                out.cmds@[i],
                shaper,
                faces@,
            ),
{
    let mut out = PaintPage::new(page.size.width, page.size.height, page.content_area);
    let mut i: usize = 0;
    while i < page.fragments.len()
        invariant
            0 <= i <= page.fragments@.len(),
            forall|k: int| 0 <= k < page.fragments@.len() ==> paintable(#[trigger] page.fragments@[k], shaper is Some),
            out.width == page.size.width,
            out.height == page.size.height,
            out.content_area == page.content_area,
            out.cmds@.len() == i,
            forall|k: int| 0 <= k < i ==> cmd_matches(#[trigger] page.fragments@[k], out.cmds@[k], shaper, faces@),
        decreases page.fragments@.len() - i,
    {
        let cmd = match &page.fragments[i] {
            Fragment::Rect { rect, color } => {
                // A rectangle is only a special path.
                DrawCmd::DrawPath {
                    path: Path::rect(*rect),
                    op: PaintOp::Fill { paint: Paint::solid(*color), rule: FillRule::NonZero },
                }
            },
            Fragment::Image { id, rect } => DrawCmd::DrawImage { id: id.clone(), rect: *rect },
            Fragment::Text(t) => {
                let glyphs = match shaper {
                    Some(s) => position_glyphs(s, t, faces),
                    None => Vec::new(),
                };
                DrawCmd::DrawGlyphs {
                    glyphs,
                    origin_x: t.x,
                    origin_y: t.baseline_y,
                    origin_y_fine: t.baseline_fine,
                    text: t.text.clone(),
                    font: t.font.clone(),
                    paint: Paint::solid(t.color),
                    terminator: t.terminator,
                    source: t.source,
                    line: t.line,
                }
            },
        };
        out.cmds.push(cmd);
        proof {
            assert forall|k: int| 0 <= k < i + 1 implies cmd_matches(
                #[trigger] page.fragments@[k],
                out.cmds@[k],
                shaper,
                faces@,
            ) by {
                if k == i {
                    assert(out.cmds@[k] == cmd);
                }
            }
        }
        i = i + 1;
    }
    out
}

/// The paint list of a sequence of pages: one paint page per page, of
/// its size and content area, with one command per fragment matching it.
pub open spec fn painted(pages: Seq<Page>, list: PaintList, shaper: Option<&dyn TextShaper>, faces: Seq<FaceId>) -> bool {
    &&& list.pages@.len() == pages.len()
    &&& forall|p: int|
        0 <= p < pages.len() ==> {
            let pp = #[trigger] list.pages@[p];
            &&& pp.width == pages[p].size.width
            &&& pp.height == pages[p].size.height
            &&& pp.content_area == pages[p].content_area
            &&& pp.cmds@.len() == pages[p].fragments@.len()
            &&& forall|i: int|
                0 <= i < pages[p].fragments@.len() ==> cmd_matches(
                    #[trigger] pages[p].fragments@[i],
                    pp.cmds@[i],
                    shaper,
                    faces,
                )
        }
}

/// Paints every page, in order.
pub fn paint_document(pages: &[Page], shaper: Option<&dyn TextShaper>, faces: &[FaceId]) -> (out: PaintList)
    requires
        forall|p: int, i: int|
            0 <= p < pages@.len() && 0 <= i < pages@[p].fragments@.len() ==> paintable(
                #[trigger] pages@[p].fragments@[i],
                shaper is Some,
            ),
    ensures
        painted(pages@, out, shaper, faces@),
{
    let mut out: Vec<PaintPage> = Vec::new();
    let mut p: usize = 0;
    while p < pages.len()
        invariant
            0 <= p <= pages@.len(),
            forall|q: int, i: int|
                0 <= q < pages@.len() && 0 <= i < pages@[q].fragments@.len() ==> paintable(
                    #[trigger] pages@[q].fragments@[i],
                    shaper is Some,
                ),
            out@.len() == p,
            forall|q: int|
                0 <= q < p ==> {
                    let pp = #[trigger] out@[q];
                    &&& pp.width == pages@[q].size.width
                    &&& pp.height == pages@[q].size.height
                    &&& pp.content_area == pages@[q].content_area
                    &&& pp.cmds@.len() == pages@[q].fragments@.len()
                    &&& forall|i: int|
                        0 <= i < pages@[q].fragments@.len() ==> cmd_matches(
                            #[trigger] pages@[q].fragments@[i],
                            pp.cmds@[i],
                            shaper,
                            faces@,
                        )
                },
        decreases pages@.len() - p,
    {
        let pp = paint_page(&pages[p], shaper, faces);
        out.push(pp);
        p = p + 1;
    }
    PaintList { pages: out }
}

/// Where a fragment of page `p` stands among all the fragments.
proof fn lemma_fragment_in_all(pages: Seq<Page>, p: int, i: int) -> (k: int)
    requires
        0 <= p < pages.len(),
        0 <= i < pages[p].fragments@.len(),
    ensures
        0 <= k < all_fragments(pages).len(),
        all_fragments(pages)[k] == pages[p].fragments@[i],
    decreases pages.len(),
{
    let rest = pages.drop_last();
    if p == pages.len() - 1 {
        all_fragments(rest).len() + i
    } else {
        assert(rest[p] == pages[p]);
        lemma_fragment_in_all(rest, p, i)
    }
}

/// What the engine lays out can always be painted: every fragment of
/// pages whose fragments are in reading order is paintable.
pub proof fn lemma_laid_out_is_paintable(pages: Seq<Page>, shaped: bool)
    requires
        in_reading_order(all_fragments(pages)),
    ensures
        forall|p: int, i: int|
            0 <= p < pages.len() && 0 <= i < pages[p].fragments@.len() ==> paintable(
                #[trigger] pages[p].fragments@[i],
                shaped,
            ),
{
    assert forall|p: int, i: int|
        0 <= p < pages.len() && 0 <= i < pages[p].fragments@.len() implies paintable(
            #[trigger] pages[p].fragments@[i],
            shaped,
        ) by {
        let k = lemma_fragment_in_all(pages, p, i);
        assert(frag_ok(all_fragments(pages)[k]));
    }
}

/// The object placeholder never reaches a backend: when laid-out pages are
/// painted, no draw command's text holds it.
pub proof fn lemma_placeholder_never_painted(
    pages: Seq<Page>,
    list: PaintList,
    shaper: Option<&dyn TextShaper>,
    faces: Seq<FaceId>,
)
    requires
        in_reading_order(all_fragments(pages)),
        painted(pages, list, shaper, faces),
    ensures
        forall|p: int, i: int|
            0 <= p < list.pages@.len() && 0 <= i < list.pages@[p].cmds@.len() ==> (
            #[trigger] list.pages@[p].cmds@[i] matches DrawCmd::DrawGlyphs { text, .. } ==> no_placeholder(
                text@,
            )),
{
    assert forall|p: int, i: int|
        0 <= p < list.pages@.len() && 0 <= i < list.pages@[p].cmds@.len() implies (
        #[trigger] list.pages@[p].cmds@[i] matches DrawCmd::DrawGlyphs { text, .. } ==> no_placeholder(
            text@,
        )) by {
        let pp = list.pages@[p];
        assert(pp.cmds@.len() == pages[p].fragments@.len());
        let f = pages[p].fragments@[i];
        assert(cmd_matches(f, pp.cmds@[i], shaper, faces));
        let k = lemma_fragment_in_all(pages, p, i);
        assert(frag_ok(all_fragments(pages)[k]));
    }
}

} // verus!
