//! Text shaping with rustybuzz. Shaping is a deterministic lookup in the
//! font's GSUB and GPOS tables; this module only hands the text over and
//! turns the result, in font units, into twips. Choosing a font and
//! falling back across fonts is the caller's business.
use vstd::prelude::*;
use crate::engine::clamp_twips_spec;
use crate::font::FontSpec;
use crate::geom::Twips;
use crate::json::str_eq;
use crate::text::{chars_of, string_of};
use crate::paint::{ShapedRun, TextShaper};

verus! {

/// The OpenType feature tag `kern`.
pub const KERN_TAG: u32 = 0x6b65_726e;

/// What rustybuzz gives for a text in a face with the given features (tag,
/// value), applied to the whole text: `None` when the face does not
/// parse; otherwise the face's units per em and, glyph by glyph, the glyph
/// id, the horizontal advance and the x and y offsets, in font units.
pub uninterp spec fn rustybuzz_shaping(
    font: Seq<u8>,
    face_index: u32,
    text: Seq<char>,
    features: Seq<(u32, u32)>,
) -> Option<(i32, Seq<(u32, i32, i32, i32)>)>;

/// Shapes `text` with rustybuzz (`Face::from_slice`, `UnicodeBuffer`,
/// `guess_segment_properties`, `shape`) and reads each glyph's id, advance
/// and offsets. The contract only names the result: it is whatever
/// rustybuzz computes from these arguments.
#[verifier::external_body]
fn shape_font_units(font: &[u8], face_index: u32, text: &str, features: &[(u32, u32)]) -> (r: Option<
    (i32, Vec<(u32, i32, i32, i32)>),
>)
    ensures
        match r {
            Some((upem, glyphs)) => rustybuzz_shaping(font@, face_index, text@, features@) == Some((upem, glyphs@)),
            None => rustybuzz_shaping(font@, face_index, text@, features@) is None,
        },
{
    let face = rustybuzz::Face::from_slice(font, face_index)?;
    let mut buf = rustybuzz::UnicodeBuffer::new();
    buf.push_str(text);
    buf.guess_segment_properties();
    let features: Vec<rustybuzz::Feature> = features.iter().map(
        |(tag, value)| rustybuzz::Feature::new(rustybuzz::ttf_parser::Tag(*tag), *value, ..),
    ).collect();
    let out = rustybuzz::shape(&face, &features, buf);
    let glyphs = out.glyph_infos().iter().zip(out.glyph_positions().iter()).map(
        |(info, pos)| (info.glyph_id, pos.x_advance, pos.x_offset, pos.y_offset),
    ).collect();
    Some((face.units_per_em(), glyphs))
}

/// `n / d` rounded to the nearest integer, halves away from zero.
pub open spec fn round_ratio(n: int, d: int) -> int
    recommends
        d > 0,
{
    if n >= 0 {
        (2 * n + d) / (2 * d)
    } else {
        -((2 * (-n) + d) / (2 * d))
    }
}

/// Font units at a size in half points, in twips: `units · size/2 / upem`
/// points, twenty twips each, rounded, saturated.
pub open spec fn units_to_twips(units: int, size_half_points: u32, upem: i32) -> Twips {
    clamp_twips_spec(round_ratio(units * size_half_points * 10, upem as int))
}

/// The sum of the first `k` advances.
pub open spec fn advance_sum(glyphs: Seq<(u32, i32, i32, i32)>, k: int) -> int
    decreases k,
{
    if k <= 0 {
        0
    } else {
        advance_sum(glyphs, k - 1) + glyphs[k - 1].1
    }
}

/// The `k`th glyph in twips. Advances are not rounded one by one: the
/// `k`th advance is the rounded end of the first `k + 1` advances minus
/// the rounded end of the first `k`, so that every pen position is the
/// exact sum, rounded, and nothing drifts along the line. Offsets are
/// rounded one by one.
pub open spec fn spec_run(
    face_index: usize,
    glyphs: Seq<(u32, i32, i32, i32)>,
    k: int,
    size_half_points: u32,
    upem: i32,
) -> ShapedRun {
    ShapedRun {
        face_index,
        glyph_id: glyphs[k].0,
        x_advance: clamp_twips_spec(
            units_to_twips(advance_sum(glyphs, k + 1), size_half_points, upem) - units_to_twips(
                advance_sum(glyphs, k),
                size_half_points,
                upem,
            ),
        ),
        x_offset: units_to_twips(glyphs[k].2 as int, size_half_points, upem),
        y_offset: units_to_twips(glyphs[k].3 as int, size_half_points, upem),
    }
}

fn round_ratio_exec(n: i128, d: i128) -> (r: i128)
    requires
        0 < d <= 0x1_0000_0000,
        -0x100_0000_0000_0000_0000_0000_0000_0000 <= n <= 0x100_0000_0000_0000_0000_0000_0000_0000,
    ensures
        r == round_ratio(n as int, d as int),
{
    if n >= 0 {
        (2 * n + d) / (2 * d)
    } else {
        -((2 * (-n) + d) / (2 * d))
    }
}

proof fn lemma_round_ratio_big(n: int, d: int)
    requires
        0 < d <= 0x8000_0000,
        n >= 0x1_0000_0000_0000_0000_0000,
    ensures
        round_ratio(n, d) > i32::MAX,
        round_ratio(-n, d) < i32::MIN,
{
    assert((2 * n + d) / (2 * d) > 0x8000_0000) by (nonlinear_arith)
        requires
            0 < d <= 0x8000_0000,
            n >= 0x1_0000_0000_0000_0000_0000,
    ;
    assert(round_ratio(-n, d) == -((2 * n + d) / (2 * d)));
}

proof fn lemma_round_ratio_zero(d: int)
    requires
        d > 0,
    ensures
        round_ratio(0, d) == 0,
{
    assert((2 * 0 + d) / (2 * d) == 0) by (nonlinear_arith)
        requires
            d > 0,
    ;
}

fn to_twips(units: i128, size_half_points: u32, upem: i32) -> (t: Twips)
    requires
        upem > 0,
        -0x1_0000_0000_0000_0000_0000_0000 <= units <= 0x1_0000_0000_0000_0000_0000_0000,
    ensures
        t == units_to_twips(units as int, size_half_points, upem),
{
    if size_half_points == 0 {
        proof {
            assert(units * size_half_points * 10 == 0);
            lemma_round_ratio_zero(upem as int);
        }
        return 0;
    }
    if units > 0x1_0000_0000_0000_0000_0000 {
        proof {
            assert(units * size_half_points * 10 >= 0x1_0000_0000_0000_0000_0000) by (nonlinear_arith)
                requires
                    units > 0x1_0000_0000_0000_0000_0000,
                    size_half_points >= 1,
            ;
            lemma_round_ratio_big(units * size_half_points * 10, upem as int);
        }
        return i32::MAX;
    }
    if units < -0x1_0000_0000_0000_0000_0000 {
        proof {
            assert(-(units * size_half_points * 10) >= 0x1_0000_0000_0000_0000_0000) by (nonlinear_arith)
                requires
                    units < -0x1_0000_0000_0000_0000_0000,
                    size_half_points >= 1,
            ;
            lemma_round_ratio_big(-(units * size_half_points * 10), upem as int);
            assert(-(-(units * size_half_points * 10)) == units * size_half_points * 10);
        }
        return i32::MIN;
    }
    assert(-0x100_0000_0000_0000_0000_0000_0000_0000 <= units * size_half_points * 10
        <= 0x100_0000_0000_0000_0000_0000_0000_0000) by (nonlinear_arith)
        requires
            -0x1_0000_0000_0000_0000_0000 <= units <= 0x1_0000_0000_0000_0000_0000,
            0 <= size_half_points <= 0xffff_ffff,
    ;
    let r = round_ratio_exec(units * size_half_points as i128 * 10, upem as i128);
    if r > i32::MAX as i128 {
        i32::MAX
    } else if r < i32::MIN as i128 {
        i32::MIN
    } else {
        r as i32
    }
}

/// Glyphs in font units turned into twips at a size (see `spec_run`); an
/// empty result for a face whose units per em are not positive.
pub fn runs_from_font_units(face_index: usize, upem: i32, glyphs: &[(u32, i32, i32, i32)], size_half_points: u32) -> (out:
    Vec<ShapedRun>)
    ensures
        upem <= 0 ==> out@.len() == 0,
        upem > 0 ==> out@.len() == glyphs@.len() && forall|k: int|
            0 <= k < glyphs@.len() ==> (#[trigger] out@[k]) == spec_run(face_index, glyphs@, k, size_half_points, upem),
{
    let mut out: Vec<ShapedRun> = Vec::new();
    if upem <= 0 {
        return out;
    }
    let mut acc: i128 = 0;
    let mut acc_twips: Twips = 0;
    proof {
        lemma_round_ratio_zero(upem as int);
    }
    let mut k: usize = 0;
    while k < glyphs.len()
        invariant
            0 <= k <= glyphs@.len(),
            upem > 0,
            acc == advance_sum(glyphs@, k as int),
            -0x8000_0000 * k <= acc <= 0x7fff_ffff * k,
            k <= 0xffff_ffff_ffff_ffff,
            acc_twips == units_to_twips(acc as int, size_half_points, upem),
            out@.len() == k,
            forall|j: int| 0 <= j < k ==> (#[trigger] out@[j]) == spec_run(face_index, glyphs@, j, size_half_points, upem),
        decreases glyphs@.len() - k,
    {
        let (glyph_id, x_advance, x_offset, y_offset) = glyphs[k];
        let next: i128 = acc + x_advance as i128;
        let next_twips = to_twips(next, size_half_points, upem);
        out.push(
            ShapedRun {
                face_index,
                glyph_id,
                x_advance: crate::engine::clamp_twips(next_twips as i64 - acc_twips as i64),
                x_offset: to_twips(x_offset as i128, size_half_points, upem),
                y_offset: to_twips(y_offset as i128, size_half_points, upem),
            },
        );
        acc = next;
        acc_twips = next_twips;
        k = k + 1;
    }
    out
}

/// The sum of the first `k` advances of shaped glyphs.
pub open spec fn advance_total(runs: Seq<ShapedRun>, k: int) -> int
    decreases k,
{
    if k <= 0 {
        0
    } else {
        advance_total(runs, k - 1) + runs[k - 1].x_advance
    }
}

/// Rounding does not drift along a line: the pen after the first `k`
/// glyphs, adding their advances in twips, is the exact sum of their
/// advances in font units converted and rounded once, however many glyphs
/// there are. (Stated where no pen position comes near the limits of
/// `i32`, where saturation would break it.)
pub proof fn lemma_pen_is_the_rounded_exact_sum(
    runs: Seq<ShapedRun>,
    face_index: usize,
    glyphs: Seq<(u32, i32, i32, i32)>,
    size_half_points: u32,
    upem: i32,
    k: int,
)
    requires
        upem > 0,
        0 <= k <= glyphs.len(),
        runs.len() == glyphs.len(),
        forall|j: int| 0 <= j < glyphs.len() ==> #[trigger] runs[j] == spec_run(face_index, glyphs, j, size_half_points, upem),
        forall|j: int|
            0 <= j <= k ==> -0x4000_0000 < #[trigger] units_to_twips(advance_sum(glyphs, j), size_half_points, upem)
                < 0x4000_0000,
    ensures
        advance_total(runs, k) == units_to_twips(advance_sum(glyphs, k), size_half_points, upem),
    decreases k,
{
    if k == 0 {
        lemma_round_ratio_zero(upem as int);
        assert(advance_sum(glyphs, 0) * size_half_points * 10 == 0);
    } else {
        lemma_pen_is_the_rounded_exact_sum(runs, face_index, glyphs, size_half_points, upem, k - 1);
        let a = units_to_twips(advance_sum(glyphs, k), size_half_points, upem);
        let b = units_to_twips(advance_sum(glyphs, k - 1), size_half_points, upem);
        assert(runs[k - 1] == spec_run(face_index, glyphs, k - 1, size_half_points, upem));
        assert(clamp_twips_spec(a - b) == a - b);
    }
}

/// The maximal runs of equal face choices, in order: face, first and
/// end position.
pub open spec fn face_segments(faces: Seq<Option<usize>>) -> Seq<(Option<usize>, int, int)>
    decreases faces.len(),
{
    if faces.len() == 0 {
        seq![]
    } else {
        let r = face_segments(faces.drop_last());
        let n = faces.len() as int;
        if r.len() > 0 && r.last().0 == faces[n - 1] {
            r.update(r.len() - 1, (r.last().0, r.last().1, n))
        } else {
            r.push((faces[n - 1], n - 1, n))
        }
    }
}

proof fn lemma_segments_first(faces: Seq<Option<usize>>)
    requires
        faces.len() > 0,
    ensures
        face_segments(faces.take(1)) == seq![(faces[0], 0int, 1int)],
{
    let t = faces.take(1);
    assert(t.drop_last() =~= Seq::<Option<usize>>::empty());
    assert(t[0] == faces[0]);
    assert(face_segments(t.drop_last()) == Seq::<(Option<usize>, int, int)>::empty());
    assert(face_segments(t) =~= seq![(faces[0], 0int, 1int)]);
}

proof fn lemma_segments_step(faces: Seq<Option<usize>>, i: int)
    requires
        0 < i < faces.len(),
        face_segments(faces.take(i)).len() > 0,
    ensures
        ({
            let r = face_segments(faces.take(i));
            let s = face_segments(faces.take(i + 1));
            &&& s.len() > 0
            &&& r.last().0 == faces[i] ==> s.drop_last() == r.drop_last() && s.last() == (r.last().0, r.last().1, i + 1)
            &&& r.last().0 != faces[i] ==> s.drop_last() == r && s.last() == (faces[i], i, i + 1)
        }),
{
    let t = faces.take(i + 1);
    assert(t.drop_last() =~= faces.take(i));
    assert(t[i] == faces[i]);
    let r = face_segments(faces.take(i));
    let s = face_segments(t);
    if r.last().0 == faces[i] {
        assert(s.drop_last() =~= r.drop_last());
    } else {
        assert(s.drop_last() =~= r);
    }
}

/// A text whose characters all chose one face is a single segment.
proof fn lemma_one_face_one_segment(faces: Seq<Option<usize>>, f: Option<usize>)
    requires
        faces.len() > 0,
        forall|k: int| 0 <= k < faces.len() ==> faces[k] == f,
    ensures
        face_segments(faces) == seq![(f, 0int, faces.len() as int)],
    decreases faces.len(),
{
    let r = faces.drop_last();
    if r.len() == 0 {
        assert(face_segments(r) == Seq::<(Option<usize>, int, int)>::empty());
        assert(face_segments(faces) =~= seq![(f, 0int, 1int)]);
    } else {
        lemma_one_face_one_segment(r, f);
        assert(face_segments(faces) =~= seq![(f, 0int, faces.len() as int)]);
    }
}

fn same_face(a: Option<usize>, b: Option<usize>) -> (r: bool)
    ensures
        r == (a == b),
{
    match (a, b) {
        (Some(x), Some(y)) => x == y,
        (None, None) => true,
        _ => false,
    }
}

/// A shaper over registered faces.
pub struct RustybuzzShaper {
    /// (face id, font data, index in a collection); `ShapedRun::face_index`
    /// is the index in this list.
    faces: Vec<(String, Vec<u8>, u32)>,
    /// The face used when the family is not registered.
    default_face: Option<usize>,
}

/// The index of the last face registered under `name`, if any.
pub open spec fn last_named(faces: Seq<(String, Vec<u8>, u32)>, name: Seq<char>) -> Option<usize>
    decreases faces.len(),
{
    if faces.len() == 0 {
        None
    } else if faces.last().0@ == name {
        Some((faces.len() - 1) as usize)
    } else {
        last_named(faces.drop_last(), name)
    }
}

/// The features asked of rustybuzz: kerning is switched off unless asked
/// for (rustybuzz applies it by default).
pub open spec fn shaping_features(kerning: bool) -> Seq<(u32, u32)> {
    if kerning {
        seq![]
    } else {
        seq![(KERN_TAG, 0u32)]
    }
}

impl RustybuzzShaper {
    /// A shaper holding faces has a default face.
    #[verifier::type_invariant]
    closed spec fn has_default(self) -> bool {
        self.faces@.len() > 0 ==> self.default_face is Some
    }

    pub closed spec fn spec_faces(&self) -> Seq<(String, Vec<u8>, u32)> {
        self.faces@
    }

    pub closed spec fn spec_default_face(&self) -> Option<usize> {
        self.default_face
    }

    /// What shaping `text` in face `face_index` gives: nothing for an
    /// unknown face or one rustybuzz cannot parse, or whose units per em
    /// are not positive; otherwise the glyphs rustybuzz gives, in twips.
    pub open spec fn shaping_of(&self, face_index: usize, text: Seq<char>, size_half_points: u32, kerning: bool) -> Seq<
        ShapedRun,
    > {
        if face_index >= self.spec_faces().len() {
            seq![]
        } else {
            let f = self.spec_faces()[face_index as int];
            match rustybuzz_shaping(f.1@, f.2, text, shaping_features(kerning)) {
                None => seq![],
                Some((upem, glyphs)) => if upem <= 0 {
                    seq![]
                } else {
                    Seq::new(glyphs.len(), |k: int| spec_run(face_index, glyphs, k, size_half_points, upem))
                },
            }
        }
    }

    /// The glyphs of the text's segments, one after another: each segment
    /// shaped in its face, those without a face left out.
    pub open spec fn shaped_segments(
        &self,
        text: Seq<char>,
        segs: Seq<(Option<usize>, int, int)>,
        size_half_points: u32,
        kerning: bool,
    ) -> Seq<ShapedRun>
        decreases segs.len(),
    {
        if segs.len() == 0 {
            seq![]
        } else {
            let last = segs.last();
            self.shaped_segments(text, segs.drop_last(), size_half_points, kerning) + match last.0 {
                Some(i) => self.shaping_of(i, text.subrange(last.1, last.2), size_half_points, kerning),
                None => seq![],
            }
        }
    }

    /// The face for a family: the last registered under that name, else
    /// the default.
    pub open spec fn spec_face_for(&self, family: Seq<char>) -> Option<usize> {
        match last_named(self.spec_faces(), family) {
            Some(i) => Some(i),
            None => self.spec_default_face(),
        }
    }

    pub fn new() -> (s: RustybuzzShaper)
        ensures
            s.spec_faces().len() == 0,
            s.spec_default_face() is None,
    {
        RustybuzzShaper { faces: Vec::new(), default_face: None }
    }

    /// Registers a face and returns its index; the first face registered
    /// becomes the default.
    pub fn add_face(&mut self, face: &str, bytes: Vec<u8>, index: u32) -> (at: usize)
        ensures
            at == old(self).spec_faces().len(),
            final(self).spec_faces().len() == old(self).spec_faces().len() + 1,
            final(self).spec_faces().drop_last() == old(self).spec_faces(),
            final(self).spec_faces().last().0@ == face@,
            final(self).spec_faces().last().1@ == bytes@,
            final(self).spec_faces().last().2 == index,
            final(self).spec_default_face() == (match old(self).spec_default_face() {
                Some(d) => Some(d),
                None => Some(at),
            }),
            old(self).spec_faces().len() > 0 ==> final(self).spec_default_face() == old(self).spec_default_face(),
            final(self).spec_default_face() is Some,
    {
        proof {
            use_type_invariant(&*self);
        }
        let at = self.faces.len();
        let name = crate::text::copy_str(face);
        let mut faces: Vec<(String, Vec<u8>, u32)> = Vec::new();
        std::mem::swap(&mut faces, &mut self.faces);
        faces.push((name, bytes, index));
        if self.default_face.is_none() {
            self.default_face = Some(at);
        }
        self.faces = faces;
        assert(self.faces@.drop_last() =~= old(self).faces@);
        at
    }

    /// The face used when the family is not registered.
    pub fn set_default_face(&mut self, index: usize)
        ensures
            final(self).spec_faces() == old(self).spec_faces(),
            final(self).spec_default_face() == Some(index),
    {
        self.default_face = Some(index);
    }

    /// The id of the face at an index.
    pub fn face_id(&self, index: usize) -> (r: Option<&str>)
        ensures
            r matches Some(s) ==> index < self.spec_faces().len() && s@ == self.spec_faces()[index as int].0@,
            r is None ==> index >= self.spec_faces().len(),
    {
        if index < self.faces.len() {
            Some(self.faces[index].0.as_str())
        } else {
            None
        }
    }

    /// Every face id, in index order.
    pub fn face_ids(&self) -> (ids: Vec<String>)
        ensures
            ids@.len() == self.spec_faces().len(),
            forall|i: int| 0 <= i < ids@.len() ==> (#[trigger] ids@[i])@ == self.spec_faces()[i].0@,
    {
        let mut ids: Vec<String> = Vec::new();
        let mut i: usize = 0;
        while i < self.faces.len()
            invariant
                0 <= i <= self.faces@.len(),
                ids@.len() == i,
                forall|k: int| 0 <= k < i ==> (#[trigger] ids@[k])@ == self.faces@[k].0@,
            decreases self.faces@.len() - i,
        {
            ids.push(self.faces[i].0.clone());
            i = i + 1;
        }
        ids
    }

    /// Shapes a text in one face: nothing for an unknown face or one that
    /// does not parse (the caller should then try another face, not take
    /// the text as having no width); otherwise the glyphs in twips.
    pub fn shape_with_face(&self, face_index: usize, text: &str, size_half_points: u32, kerning: bool) -> (out: Vec<
        ShapedRun,
    >)
        ensures
            out@ == self.shaping_of(face_index, text@, size_half_points, kerning),
    {
        if face_index >= self.faces.len() {
            return Vec::new();
        }
        let (_, bytes, index) = &self.faces[face_index];
        let mut features: Vec<(u32, u32)> = Vec::new();
        if !kerning {
            features.push((KERN_TAG, 0));
        }
        assert(features@ =~= shaping_features(kerning));
        match shape_font_units(bytes.as_slice(), *index, text, features.as_slice()) {
            None => Vec::new(),
            Some((upem, glyphs)) => {
                let out = runs_from_font_units(face_index, upem, glyphs.as_slice(), size_half_points);
                proof {
                    if upem > 0 {
                        assert(out@ =~= Seq::new(
                            glyphs@.len(),
                            |k: int| spec_run(face_index, glyphs@, k, size_half_points, upem),
                        ));
                    }
                }
                out
            },
        }
    }

    /// The glyphs of one segment of `cs`: shaped in its face, or none.
    fn shape_segment(&self, cs: &[char], face: Option<usize>, start: usize, end: usize, size_half_points: u32, kerning: bool) -> (out:
        Vec<ShapedRun>)
        requires
            start <= end <= cs@.len(),
        ensures
            out@ == (match face {
                Some(i) => self.shaping_of(i, cs@.subrange(start as int, end as int), size_half_points, kerning),
                None => Seq::<ShapedRun>::empty(),
            }),
    {
        match face {
            Some(f) => {
                let piece = string_of(cs, start, end);
                self.shape_with_face(f, piece.as_str(), size_half_points, kerning)
            },
            None => Vec::new(),
        }
    }

    /// Shapes a text whose characters each come with the face chosen for
    /// them: every maximal run of one face is shaped in that face, and runs
    /// with no face (no font covers them) give no glyph. Shaping run by run
    /// keeps a face from being asked for characters it does not cover.
    pub fn shape_by_faces(&self, text: &str, faces: &[Option<usize>], size_half_points: u32, kerning: bool) -> (out:
        Vec<ShapedRun>)
        requires
            faces@.len() == text@.len(),
        ensures
            out@ == self.shaped_segments(text@, face_segments(faces@), size_half_points, kerning),
    {
        let cs = chars_of(text);
        let mut out: Vec<ShapedRun> = Vec::new();
        if faces.len() == 0 {
            return out;
        }
        let mut start: usize = 0;
        let mut current: Option<usize> = faces[0];
        let mut i: usize = 1;
        proof {
            lemma_segments_first(faces@);
        }
        while i < faces.len()
            invariant
                1 <= i <= faces@.len(),
                cs@ == text@,
                faces@.len() == text@.len(),
                start < i,
                face_segments(faces@.take(i as int)).len() > 0,
                face_segments(faces@.take(i as int)).last() == (current, start as int, i as int),
                out@ == self.shaped_segments(
                    text@,
                    face_segments(faces@.take(i as int)).drop_last(),
                    size_half_points,
                    kerning,
                ),
            decreases faces@.len() - i,
        {
            let f = faces[i];
            let ghost r = face_segments(faces@.take(i as int));
            proof {
                lemma_segments_step(faces@, i as int);
            }
            if !same_face(f, current) {
                let mut more = self.shape_segment(cs.as_slice(), current, start, i, size_half_points, kerning);
                let ghost m = more@;
                out.append(&mut more);
                proof {
                    assert(r.drop_last().push(r.last()) =~= r);
                    assert(self.shaped_segments(text@, r, size_half_points, kerning) == self.shaped_segments(
                        text@,
                        r.drop_last(),
                        size_half_points,
                        kerning,
                    ) + m);
                }
                start = i;
            }
            current = f;
            i = i + 1;
        }
        let mut more = self.shape_segment(cs.as_slice(), current, start, faces.len(), size_half_points, kerning);
        let ghost m = more@;
        out.append(&mut more);
        proof {
            let r = face_segments(faces@.take(i as int));
            assert(faces@.take(i as int) =~= faces@);
            assert(self.shaped_segments(text@, r, size_half_points, kerning) == self.shaped_segments(
                text@,
                r.drop_last(),
                size_half_points,
                kerning,
            ) + m);
        }
        out
    }

    /// The data of the face at an index and its index in a collection:
    /// vertical metrics are read from the font's tables, which shaping does
    /// not report.
    pub fn face_data(&self, index: usize) -> (r: Option<(&[u8], u32)>)
        ensures
            r matches Some((b, i)) ==> index < self.spec_faces().len() && b@ == self.spec_faces()[index as int].1@
                && i == self.spec_faces()[index as int].2,
            r is None ==> index >= self.spec_faces().len(),
    {
        if index < self.faces.len() {
            Some((self.faces[index].1.as_slice(), self.faces[index].2))
        } else {
            None
        }
    }

    /// The number of registered faces.
    pub fn len(&self) -> (n: usize)
        ensures
            n == self.spec_faces().len(),
    {
        self.faces.len()
    }

    pub fn is_empty(&self) -> (b: bool)
        ensures
            b == (self.spec_faces().len() == 0),
    {
        self.faces.len() == 0
    }

    /// The face for a family: the last registered under that name, else
    /// the default.
    pub fn face_for(&self, family: &str) -> (r: Option<usize>)
        ensures
            r == self.spec_face_for(family@),
    {
        let mut i: usize = self.faces.len();
        assert(self.faces@.take(i as int) =~= self.faces@);
        while i > 0
            invariant
                0 <= i <= self.faces@.len(),
                last_named(self.faces@, family@) == last_named(self.faces@.take(i as int), family@),
            decreases i,
        {
            proof {
                assert(self.faces@.take(i as int).drop_last() =~= self.faces@.take(i - 1));
                assert(self.faces@.take(i as int).last() == self.faces@[i - 1]);
            }
            if str_eq(self.faces[i - 1].0.as_str(), family) {
                return Some(i - 1);
            }
            i = i - 1;
        }
        self.default_face
    }
}

/// Segmenting changes nothing when every character chose the same face:
/// the text is shaped whole in that face (or gives nothing without one).
pub proof fn lemma_one_face_is_shaped_whole(
    shaper: RustybuzzShaper,
    text: Seq<char>,
    faces: Seq<Option<usize>>,
    f: Option<usize>,
    size_half_points: u32,
    kerning: bool,
)
    requires
        faces.len() == text.len(),
        text.len() > 0,
        forall|k: int| 0 <= k < faces.len() ==> faces[k] == f,
    ensures
        shaper.shaped_segments(text, face_segments(faces), size_half_points, kerning) == match f {
            Some(i) => shaper.shaping_of(i, text, size_half_points, kerning),
            None => Seq::<ShapedRun>::empty(),
        },
{
    lemma_one_face_one_segment(faces, f);
    let segs = face_segments(faces);
    assert(segs.drop_last() =~= Seq::<(Option<usize>, int, int)>::empty());
    assert(text.subrange(0, text.len() as int) =~= text);
    assert(shaper.shaped_segments(text, segs.drop_last(), size_half_points, kerning) == Seq::<ShapedRun>::empty());
    match f {
        Some(i) => {
            assert(shaper.shaped_segments(text, segs, size_half_points, kerning) =~= shaper.shaping_of(
                i,
                text,
                size_half_points,
                kerning,
            ));
        },
        None => {
            assert(shaper.shaped_segments(text, segs, size_half_points, kerning) =~= Seq::<ShapedRun>::empty());
        },
    }
}

impl TextShaper for RustybuzzShaper {
    /// Shaping in the face registered under the font's family, else in the
    /// default face; nothing without either.
    open spec fn spec_shape(&self, text: Seq<char>, font: FontSpec) -> Seq<ShapedRun> {
        match self.spec_face_for(font.family@) {
            Some(i) => self.shaping_of(i, text, font.size_half_points, font.kerning),
            None => Seq::empty(),
        }
    }

    /// Shapes in the face registered under the font's family, else in the
    /// default face; nothing without either.
    fn shape(&self, text: &str, font: &FontSpec) -> (out: Vec<ShapedRun>)
        ensures
            self.spec_face_for(font.family@) is None ==> out@.len() == 0,
            self.spec_face_for(font.family@) matches Some(i) ==> out@ == self.shaping_of(
                i,
                text@,
                font.size_half_points,
                font.kerning,
            ),
    {
        match self.face_for(font.family.as_str()) {
            Some(i) => self.shape_with_face(i, text, font.size_half_points, font.kerning),
            None => Vec::new(),
        }
    }
}

} // verus!
