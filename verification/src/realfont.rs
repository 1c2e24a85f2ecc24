//! Metrics asked of real fonts instead of guessed by character class:
//! widths from shaping each run of one face, line metrics from what the
//! faces a text uses declare. Break opportunities are the stub's: a change
//! of metrics must not bring a change of line breaking rules with it.
use vstd::prelude::*;
use crate::font::{BreakOpportunity, FontMetrics, FontSpec, TextMetrics};
use crate::fontenv::VerticalGrid;
use crate::linebreak::{break_opportunities, stub_breaks};
use crate::paint::ShapedRun;
use crate::shape::{advance_total, face_segments, RustybuzzShaper};
use crate::text::chars_of;
use crate::vertical::{
    apply_spacing, face_vertical_of, skrifa_unscaled_metrics, spec_apply_spacing, spec_face_vertical, spec_vertical_for,
    vertical_for, FaceVertical,
};

verus! {

/// Chooses the face that draws a character. Word's slot rules give the
/// family; which registered face draws the character, and which face
/// falls back when that one lacks it, is the implementor's business (a font
/// environment that knows each face's coverage).
pub trait FaceSelector {
    /// What `select` gives: the same choice for the same request.
    spec fn spec_select(&self, family: Seq<char>, ch: char, bold: bool, italic: bool) -> Option<usize>;

    /// The index, among the shaper's faces, of the face that draws `ch` for
    /// `family`; `None` when no face covers it.
    fn select(&self, family: &str, ch: char, bold: bool, italic: bool) -> (r: Option<usize>)
        ensures
            r == self.spec_select(family@, ch, bold, italic),
    ;
}

/// Selection by name alone: the face registered under the family, else the
/// shaper's default face, whatever the character.
pub struct NamedFaces<'s> {
    pub shaper: &'s RustybuzzShaper,
}

impl<'s> FaceSelector for NamedFaces<'s> {
    open spec fn spec_select(&self, family: Seq<char>, ch: char, bold: bool, italic: bool) -> Option<usize> {
        self.shaper.spec_face_for(family)
    }

    fn select(&self, family: &str, ch: char, bold: bool, italic: bool) -> (r: Option<usize>) {
        self.shaper.face_for(family)
    }
}

/// The declared vertical metrics of the faces that the choices name, in
/// order; choices of no face, or of a face without metrics, add nothing.
pub open spec fn picked(verticals: Seq<Option<FaceVertical>>, faces: Seq<Option<usize>>) -> Seq<FaceVertical>
    decreases faces.len(),
{
    if faces.len() == 0 {
        seq![]
    } else {
        let rest = picked(verticals, faces.drop_last());
        match faces.last() {
            Some(i) => if i < verticals.len() && verticals[i as int] is Some {
                rest.push(verticals[i as int]->0)
            } else {
                rest
            },
            None => rest,
        }
    }
}

/// `v` held within 2^48 either way.
pub open spec fn clamp48(v: int) -> int {
    if v > 0x1_0000_0000_0000 {
        0x1_0000_0000_0000
    } else if v < -0x1_0000_0000_0000 {
        -0x1_0000_0000_0000
    } else {
        v
    }
}

/// Metrics from real fonts over a shaper's faces.
pub struct RealMetrics<'r, S: FaceSelector> {
    shaper: &'r RustybuzzShaper,
    selector: &'r S,
    /// Each face's declared vertical metrics, by face index.
    verticals: Vec<Option<FaceVertical>>,
    grid: VerticalGrid,
}

impl<'r, S: FaceSelector> RealMetrics<'r, S> {
    pub closed spec fn spec_shaper(&self) -> &'r RustybuzzShaper {
        self.shaper
    }

    pub closed spec fn spec_verticals(&self) -> Seq<Option<FaceVertical>> {
        self.verticals@
    }

    pub closed spec fn spec_grid(&self) -> VerticalGrid {
        self.grid
    }

    pub closed spec fn spec_selector(&self) -> &'r S {
        self.selector
    }

    /// The face each character of `text` chooses: the selector's choice for
    /// the family Word's slot rules give it.
    pub open spec fn faces_of(&self, text: Seq<char>, font: FontSpec) -> Seq<Option<usize>> {
        Seq::new(
            text.len(),
            |i: int| self.spec_selector().spec_select(font.spec_family_for(text[i]), text[i], font.bold, font.italic),
        )
    }

    /// The characters probed for line metrics: the text's, or an `x` for an
    /// empty text (its line still has a height).
    pub open spec fn probe_of(text: Seq<char>) -> Seq<char> {
        if text.len() == 0 {
            seq!['x']
        } else {
            text
        }
    }

    /// Each face's vertical metrics are what the face declares.
    #[verifier::type_invariant]
    pub closed spec fn verticals_ok(&self) -> bool {
        &&& self.spec_verticals().len() == self.spec_shaper().spec_faces().len()
        &&& forall|i: int|
            0 <= i < self.spec_verticals().len() ==> #[trigger] self.spec_verticals()[i] == spec_face_vertical(
                skrifa_unscaled_metrics(self.spec_shaper().spec_faces()[i].1@, self.spec_shaper().spec_faces()[i].2),
            )
        &&& forall|i: int|
            0 <= i < self.spec_verticals().len() ==> (#[trigger] self.spec_verticals()[i] matches Some(v) ==> v.wf())
    }

    /// The metrics of `text` when its characters chose `faces` (one each)
    /// and the characters probed for line metrics chose `probe` (the text's
    /// own, or one for an empty text, whose line still has a height): the
    /// advance of shaping each run of one face, scaled and spaced, and the
    /// line metrics of the faces chosen.
    pub open spec fn measured(
        &self,
        text: Seq<char>,
        font: FontSpec,
        faces: Seq<Option<usize>>,
        probe: Seq<Option<usize>>,
    ) -> TextMetrics {
        let runs = self.spec_shaper().shaped_segments(
            text,
            face_segments(faces),
            font.size_half_points,
            font.kerning,
        );
        let v = spec_vertical_for(picked(self.spec_verticals(), probe), font.size_half_points, self.spec_grid());
        TextMetrics {
            advance: spec_apply_spacing(clamp48(advance_total(runs, runs.len() as int)), clamp48(runs.len() as int), font),
            ascent: v.ascent,
            descent: v.descent,
            line_gap: v.line_gap,
        }
    }

    /// Real-font metrics over the shaper's faces, choosing faces with the
    /// selector; line metrics are not quantized.
    pub fn new(shaper: &'r RustybuzzShaper, selector: &'r S) -> (m: RealMetrics<'r, S>)
        ensures
            m.spec_shaper() == shaper,
            m.spec_grid() == VerticalGrid::Unquantized,
            m.spec_verticals().len() == shaper.spec_faces().len(),
            forall|i: int|
                0 <= i < m.spec_verticals().len() ==> #[trigger] m.spec_verticals()[i] == spec_face_vertical(
                    skrifa_unscaled_metrics(shaper.spec_faces()[i].1@, shaper.spec_faces()[i].2),
                ),
    {
        let mut verticals: Vec<Option<FaceVertical>> = Vec::new();
        let n = shaper.len();
        let mut i: usize = 0;
        while i < n
            invariant
                n == shaper.spec_faces().len(),
                0 <= i <= n,
                verticals@.len() == i,
                forall|k: int|
                    0 <= k < i ==> #[trigger] verticals@[k] == spec_face_vertical(
                        skrifa_unscaled_metrics(shaper.spec_faces()[k].1@, shaper.spec_faces()[k].2),
                    ),
                forall|k: int| 0 <= k < i ==> (#[trigger] verticals@[k] matches Some(v) ==> v.wf()),
            decreases n - i,
        {
            let v = match shaper.face_data(i) {
                Some((bytes, index)) => face_vertical_of(bytes, index),
                None => None,
            };
            verticals.push(v);
            i = i + 1;
        }
        RealMetrics { shaper, selector, verticals, grid: VerticalGrid::Unquantized }
    }

    /// The same metrics with line metrics quantized to `grid`.
    pub fn with_vertical_grid(self, grid: VerticalGrid) -> (m: RealMetrics<'r, S>)
        ensures
            m.spec_shaper() == self.spec_shaper(),
            m.spec_verticals() == self.spec_verticals(),
            m.spec_grid() == grid,
    {
        proof {
            use_type_invariant(&self);
        }
        let RealMetrics { shaper, selector, verticals, .. } = self;
        RealMetrics { shaper, selector, verticals, grid }
    }

    pub fn vertical_grid(&self) -> (g: VerticalGrid)
        ensures
            g == self.spec_grid(),
    {
        self.grid
    }

    /// The face each character chooses.
    fn choose_faces(&self, cs: &[char], font: &FontSpec) -> (faces: Vec<Option<usize>>)
        ensures
            faces@ == self.faces_of(cs@, *font),
    {
        let mut faces: Vec<Option<usize>> = Vec::new();
        let mut i: usize = 0;
        while i < cs.len()
            invariant
                0 <= i <= cs@.len(),
                faces@ == self.faces_of(cs@, *font).take(i as int),
            decreases cs@.len() - i,
        {
            let ch = cs[i];
            faces.push(self.selector.select(font.family_for(ch), ch, font.bold, font.italic));
            assert(faces@ =~= self.faces_of(cs@, *font).take(i + 1));
            i = i + 1;
        }
        assert(faces@ =~= self.faces_of(cs@, *font));
        faces
    }

    /// The vertical metrics of the faces chosen.
    fn pick(&self, faces: &[Option<usize>]) -> (out: Vec<FaceVertical>)
        ensures
            out@ == picked(self.spec_verticals(), faces@),
            forall|i: int| 0 <= i < out@.len() ==> (#[trigger] out@[i]).wf(),
    {
        proof {
            use_type_invariant(self);
        }
        let mut out: Vec<FaceVertical> = Vec::new();
        let mut i: usize = 0;
        assert(faces@.take(0) =~= Seq::<Option<usize>>::empty());
        while i < faces.len()
            invariant
                self.verticals_ok(),
                0 <= i <= faces@.len(),
                out@ == picked(self.spec_verticals(), faces@.take(i as int)),
                forall|k: int| 0 <= k < out@.len() ==> (#[trigger] out@[k]).wf(),
            decreases faces@.len() - i,
        {
            proof {
                assert(faces@.take(i + 1).drop_last() =~= faces@.take(i as int));
                assert(faces@.take(i + 1).last() == faces@[i as int]);
            }
            if let Some(f) = faces[i] {
                if f < self.verticals.len() {
                    if let Some(v) = self.verticals[f] {
                        assert(self.spec_verticals()[f as int] matches Some(w) ==> w.wf());
                        out.push(v);
                    }
                }
            }
            i = i + 1;
        }
        assert(faces@.take(faces@.len() as int) =~= faces@);
        out
    }
}

/// The sum of the advances, held within 2^48.
fn total_advance(runs: &Vec<ShapedRun>) -> (t: i64)
    ensures
        t == clamp48(advance_total(runs@, runs@.len() as int)),
{
    let mut total: i128 = 0;
    let mut k: usize = 0;
    while k < runs.len()
        invariant
            0 <= k <= runs@.len(),
            total == advance_total(runs@, k as int),
            -0x8000_0000 * k <= total <= 0x7fff_ffff * k,
            k <= usize::MAX,
        decreases runs@.len() - k,
    {
        total = total + runs[k].x_advance as i128;
        k = k + 1;
    }
    if total > 0x1_0000_0000_0000 {
        0x1_0000_0000_0000
    } else if total < -0x1_0000_0000_0000 {
        -0x1_0000_0000_0000
    } else {
        total as i64
    }
}

impl<'r, S: FaceSelector> FontMetrics for RealMetrics<'r, S> {
    /// The advance of shaping the text run by run of the faces its
    /// characters choose, scaled and spaced; the line metrics of the faces
    /// its characters (an `x` for an empty text) choose.
    open spec fn spec_measure(&self, text: Seq<char>, font: FontSpec) -> TextMetrics {
        self.measured(
            text,
            font,
            self.faces_of(text, font),
            self.faces_of(Self::probe_of(text), font),
        )
    }

    open spec fn spec_breaks(&self, text: Seq<char>) -> Seq<BreakOpportunity> {
        stub_breaks(text)
    }

    fn measure(&self, text: &str, font: &FontSpec) -> (m: TextMetrics) {
        let cs = chars_of(text);
        let faces = self.choose_faces(cs.as_slice(), font);
        let runs = self.shaper.shape_by_faces(text, faces.as_slice(), font.size_half_points, font.kerning);
        let advance = total_advance(&runs);
        let n: u64 = runs.len() as u64;
        let glyphs: u64 = if n > 0x1_0000_0000_0000 {
            0x1_0000_0000_0000
        } else {
            n
        };
        let spaced = apply_spacing(advance, glyphs, font);
        let probe = if cs.len() == 0 {
            let x: Vec<char> = vec!['x'];
            assert(x@ =~= Self::probe_of(text@));
            self.choose_faces(x.as_slice(), font)
        } else {
            faces.clone()
        };
        assert(probe@ == self.faces_of(Self::probe_of(text@), *font));
        let chosen = self.pick(probe.as_slice());
        let v = vertical_for(chosen.as_slice(), font.size_half_points, self.grid);
        let m = TextMetrics { advance: spaced, ascent: v.ascent, descent: v.descent, line_gap: v.line_gap };
        assert(m == self.measured(text@, *font, faces@, probe@));
        m
    }

    /// The same breaks as the stub metrics.
    fn break_opportunities(&self, text: &str) -> (out: Vec<BreakOpportunity>) {
        break_opportunities(text)
    }
}

} // verus!
