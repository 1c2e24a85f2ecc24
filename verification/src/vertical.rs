//! Vertical metrics from real fonts: what each face declares, the largest
//! of the faces a text uses, scaled to the font size and, optionally,
//! quantized to the grid Word was observed to use.
//!
//! All scaling is done on exact fractions and rounded once at the end:
//! rounding ascent, descent and gap one by one and then adding them would
//! lose up to half a twip on each.
use vstd::prelude::*;
use crate::engine::clamp_twips_spec;
use crate::fontenv::VerticalGrid;
use crate::font::{FontSpec, TextMetrics};
use crate::geom::{half_points_to_twips, Twips};
use crate::raster::FaceData;
use crate::shape::round_ratio;

verus! {

/// What skrifa's `Metrics` report for the face at `index` of the font data,
/// unscaled and at the default location: units per em, ascent, descent and
/// leading, in font units; `None` when the data is no font.
pub uninterp spec fn skrifa_unscaled_metrics(font: Seq<u8>, index: u32) -> Option<(u16, i32, i32, i32)>;

/// Reads a face's line metrics with skrifa (`FontRef::from_index`, then
/// `MetadataProvider::metrics` with `Size::unscaled()` and the default
/// location). Unscaled, the values are the font's table entries (16-bit
/// integers) taken as they are; skrifa makes the ascent non-negative and
/// the descent non-positive. The contract names the result and states
/// those ranges.
#[verifier::external_body]
fn unscaled_metrics(font: &[u8], index: u32) -> (r: Option<(u16, i32, i32, i32)>)
    ensures
        r == skrifa_unscaled_metrics(font@, index),
        r matches Some((_, a, d, g)) ==> 0 <= a <= 0xffff && -0xffff <= d <= 0 && -0xffff <= g <= 0xffff,
{
    let face = skrifa::FontRef::from_index(font, index).ok()?;
    let m = skrifa::MetadataProvider::metrics(
        &face,
        skrifa::instance::Size::unscaled(),
        skrifa::instance::LocationRef::default(),
    );
    Some((m.units_per_em, m.ascent as i32, m.descent as i32, m.leading as i32))
}

/// The vertical metrics a face declares, in font units.
#[derive(Debug, Clone, Copy, PartialEq, Eq, Structural)]
pub struct FaceVertical {
    pub upem: u16,
    pub ascent: i32,
    /// Positive below the baseline.
    pub descent: i32,
    pub line_gap: i32,
}

impl FaceVertical {
    /// Units per em positive and every value a 16-bit quantity.
    pub open spec fn wf(self) -> bool {
        &&& self.upem > 0
        &&& -0xffff <= self.ascent <= 0xffff
        &&& -0xffff <= self.descent <= 0xffff
        &&& -0xffff <= self.line_gap <= 0xffff
    }
}

/// A face's vertical metrics from skrifa's report, the descent made
/// positive; `None` when the data is no font or declares no units per em.
pub open spec fn spec_face_vertical(m: Option<(u16, i32, i32, i32)>) -> Option<FaceVertical> {
    match m {
        Some((upem, a, d, g)) => if upem > 0 {
            Some(FaceVertical { upem, ascent: a, descent: (if d < 0 { -d } else { d as int }) as i32, line_gap: g })
        } else {
            None
        },
        None => None,
    }
}

/// The vertical metrics of the face at `index` of font data (see
/// `spec_face_vertical`).
pub fn face_vertical_of(bytes: &[u8], index: u32) -> (r: Option<FaceVertical>)
    ensures
        r == spec_face_vertical(skrifa_unscaled_metrics(bytes@, index)),
        r matches Some(v) ==> v.wf(),
{
    match unscaled_metrics(bytes, index) {
        Some((upem, a, d, g)) => if upem > 0 {
            Some(FaceVertical { upem, ascent: a, descent: if d < 0 { -d } else { d }, line_gap: g })
        } else {
            None
        },
        None => None,
    }
}

/// The vertical metrics a face declares (see `spec_face_vertical`).
pub fn face_vertical(data: &FaceData) -> (r: Option<FaceVertical>)
    ensures
        r == spec_face_vertical(skrifa_unscaled_metrics(data.bytes@, data.index)),
        r matches Some(v) ==> v.wf(),
{
    face_vertical_of(data.bytes.as_slice(), data.index)
}

/// Which of a face's values.
pub open spec fn field(v: FaceVertical, which: int) -> int {
    if which == 0 {
        v.ascent as int
    } else if which == 1 {
        v.descent as int
    } else {
        v.line_gap as int
    }
}

/// The largest of one value over the first `k` faces, scaled to `em`
/// twips, as a fraction (numerator, positive denominator); 0 when it is
/// larger than all of them. A later face replaces the maximum only when it
/// is strictly larger.
pub open spec fn max_scaled(faces: Seq<FaceVertical>, k: int, which: int, em: int) -> (int, int)
    decreases k,
{
    if k <= 0 {
        (0, 1)
    } else {
        let m = max_scaled(faces, k - 1, which, em);
        let v = faces[k - 1];
        let n = field(v, which) * em;
        let d = v.upem as int;
        if n * m.1 > m.0 * d {
            (n, d)
        } else {
            m
        }
    }
}

/// `v` rounded to the grid of 1/300 inch (4.8 twips) and then to twips:
/// the number of grid steps is rounded first.
pub open spec fn grid_round(n: int, d: int) -> int {
    round_ratio(24 * round_ratio(5 * n, 24 * d), 5)
}

/// The vertical metrics of a text set in the given faces at a size: the
/// largest of each value over the faces, scaled; all zero when there is no
/// face. Without a grid each value is rounded to twips. On the grid the
/// line height (ascent, descent and gap together) and the descent are each
/// rounded to the grid once, and the ascent takes the difference, with the
/// gap folded into it.
pub open spec fn spec_vertical_for(faces: Seq<FaceVertical>, size_half_points: u32, grid: VerticalGrid) -> TextMetrics {
    if faces.len() == 0 {
        TextMetrics { advance: 0, ascent: 0, descent: 0, line_gap: 0 }
    } else {
        let em = ((size_half_points as int * 20) / 2) as i32 as int;
        let a = max_scaled(faces, faces.len() as int, 0, em);
        let d = max_scaled(faces, faces.len() as int, 1, em);
        let g = max_scaled(faces, faces.len() as int, 2, em);
        match grid {
            VerticalGrid::Unquantized => TextMetrics {
                advance: 0,
                ascent: clamp_twips_spec(round_ratio(a.0, a.1)),
                descent: clamp_twips_spec(round_ratio(d.0, d.1)),
                line_gap: clamp_twips_spec(round_ratio(g.0, g.1)),
            },
            VerticalGrid::MacWordThreeHundredthsInch => {
                let sum_n = a.0 * d.1 * g.1 + d.0 * a.1 * g.1 + g.0 * a.1 * d.1;
                let sum_d = a.1 * d.1 * g.1;
                let natural = clamp_twips_spec(grid_round(sum_n, sum_d));
                let descent = clamp_twips_spec(grid_round(d.0, d.1));
                TextMetrics {
                    advance: 0,
                    ascent: clamp_twips_spec(natural - descent),
                    descent,
                    line_gap: 0,
                }
            },
        }
    }
}

fn round_ratio_i128(n: i128, d: i128) -> (r: i128)
    requires
        0 < d <= 0x1_0000_0000_0000_0000_0000,
        -0x1_0000_0000_0000_0000_0000_0000_0000 <= n <= 0x1_0000_0000_0000_0000_0000_0000_0000,
    ensures
        r == round_ratio(n as int, d as int),
        n >= 0 ==> 0 <= r <= n + 1,
        n < 0 ==> n - 1 <= r <= 0,
{
    if n >= 0 {
        assert((2 * n + d) / (2 * d) <= n + 1) by (nonlinear_arith)
            requires
                n >= 0,
                d > 0,
        ;
        (2 * n + d) / (2 * d)
    } else {
        assert((2 * (-n) + d) / (2 * d) <= -n + 1) by (nonlinear_arith)
            requires
                n < 0,
                d > 0,
        ;
        -((2 * (-n) + d) / (2 * d))
    }
}

fn clamp_twips_i128(v: i128) -> (r: Twips)
    ensures
        r == clamp_twips_spec(v as int),
{
    if v > i32::MAX as i128 {
        i32::MAX
    } else if v < i32::MIN as i128 {
        i32::MIN
    } else {
        v as i32
    }
}

/// The face's value of one kind.
fn field_of(v: &FaceVertical, which: u8) -> (r: i32)
    requires
        which <= 2,
    ensures
        r == field(*v, which as int),
{
    if which == 0 {
        v.ascent
    } else if which == 1 {
        v.descent
    } else {
        v.line_gap
    }
}

/// The largest scaled value of one kind over the faces (see `max_scaled`).
fn max_scaled_exec(faces: &[FaceVertical], which: u8, em: i32) -> (m: (i128, i128))
    requires
        which <= 2,
        forall|i: int| 0 <= i < faces@.len() ==> (#[trigger] faces@[i]).wf(),
    ensures
        m.0 == max_scaled(faces@, faces@.len() as int, which as int, em as int).0,
        m.1 == max_scaled(faces@, faces@.len() as int, which as int, em as int).1,
        1 <= m.1 <= 0xffff,
        -0xffff * 0x8000_0000 <= m.0 <= 0xffff * 0x8000_0000,
{
    let mut m: (i128, i128) = (0, 1);
    let mut k: usize = 0;
    while k < faces.len()
        invariant
            0 <= k <= faces@.len(),
            which <= 2,
            forall|i: int| 0 <= i < faces@.len() ==> (#[trigger] faces@[i]).wf(),
            m.0 == max_scaled(faces@, k as int, which as int, em as int).0,
            m.1 == max_scaled(faces@, k as int, which as int, em as int).1,
            1 <= m.1 <= 0xffff,
            -0xffff * 0x8000_0000 <= m.0 <= 0xffff * 0x8000_0000,
        decreases faces@.len() - k,
    {
        let v = faces[k];
        let f = field_of(&v, which);
        assert(-0xffff * 0x8000_0000 <= f as int * em as int <= 0xffff * 0x8000_0000) by (nonlinear_arith)
            requires
                -0xffff <= f <= 0xffff,
                -0x8000_0000 <= em < 0x8000_0000,
        ;
        let n: i128 = f as i128 * em as i128;
        let d: i128 = v.upem as i128;
        assert(-0xffff * 0x8000_0000 * 0xffff <= n * m.1 <= 0xffff * 0x8000_0000 * 0xffff) by (nonlinear_arith)
            requires
                -0xffff * 0x8000_0000 <= n <= 0xffff * 0x8000_0000,
                1 <= m.1 <= 0xffff,
        ;
        assert(-0xffff * 0x8000_0000 * 0xffff <= m.0 * d <= 0xffff * 0x8000_0000 * 0xffff) by (nonlinear_arith)
            requires
                -0xffff * 0x8000_0000 <= m.0 <= 0xffff * 0x8000_0000,
                1 <= d <= 0xffff,
        ;
        if n * m.1 > m.0 * d {
            m = (n, d);
        }
        k = k + 1;
    }
    m
}

proof fn lemma_triple_bound(n: int, p: int, q: int)
    requires
        -0xffff * 0x8000_0000 <= n <= 0xffff * 0x8000_0000,
        1 <= p <= 0xffff,
        1 <= q <= 0xffff,
    ensures
        -0xffff * 0x8000_0000 * 0xffff <= n * p <= 0xffff * 0x8000_0000 * 0xffff,
        -0xffff * 0x8000_0000 * 0xffff * 0xffff <= n * p * q <= 0xffff * 0x8000_0000 * 0xffff * 0xffff,
{
    assert(-0xffff * 0x8000_0000 * 0xffff <= n * p <= 0xffff * 0x8000_0000 * 0xffff) by (nonlinear_arith)
        requires
            -0xffff * 0x8000_0000 <= n <= 0xffff * 0x8000_0000,
            1 <= p <= 0xffff,
    ;
    assert(-0xffff * 0x8000_0000 * 0xffff * 0xffff <= (n * p) * q <= 0xffff * 0x8000_0000 * 0xffff * 0xffff)
        by (nonlinear_arith)
        requires
            -0xffff * 0x8000_0000 * 0xffff <= n * p <= 0xffff * 0x8000_0000 * 0xffff,
            1 <= q <= 0xffff,
    ;
}

/// On the grid: `n / d` twips to the nearest grid step, then to twips.
fn grid_round_exec(n: i128, d: i128) -> (r: i128)
    requires
        0 < d <= 0x1_0000_0000_0000,
        -0x1_0000_0000_0000_0000_0000_0000 <= n <= 0x1_0000_0000_0000_0000_0000_0000,
    ensures
        r == grid_round(n as int, d as int),
{
    let k = round_ratio_i128(5 * n, 24 * d);
    round_ratio_i128(24 * k, 5)
}

/// The vertical metrics of a text set in the given faces at a size (see
/// `spec_vertical_for`).
pub fn vertical_for(faces: &[FaceVertical], size_half_points: u32, grid: VerticalGrid) -> (m: TextMetrics)
    requires
        forall|i: int| 0 <= i < faces@.len() ==> (#[trigger] faces@[i]).wf(),
    ensures
        m == spec_vertical_for(faces@, size_half_points, grid),
{
    if faces.len() == 0 {
        return TextMetrics { advance: 0, ascent: 0, descent: 0, line_gap: 0 };
    }
    let em: Twips = half_points_to_twips(size_half_points);
    let a = max_scaled_exec(faces, 0, em);
    let d = max_scaled_exec(faces, 1, em);
    let g = max_scaled_exec(faces, 2, em);
    match grid {
        VerticalGrid::Unquantized => TextMetrics {
            advance: 0,
            ascent: clamp_twips_i128(round_ratio_i128(a.0, a.1)),
            descent: clamp_twips_i128(round_ratio_i128(d.0, d.1)),
            line_gap: clamp_twips_i128(round_ratio_i128(g.0, g.1)),
        },
        VerticalGrid::MacWordThreeHundredthsInch => {
            assert(1 <= a.1 * d.1 <= 0xffff * 0xffff) by (nonlinear_arith)
                requires
                    1 <= a.1 <= 0xffff,
                    1 <= d.1 <= 0xffff,
            ;
            assert(1 <= a.1 * d.1 * g.1 <= 0xffff * 0xffff * 0xffff) by (nonlinear_arith)
                requires
                    1 <= a.1 * d.1 <= 0xffff * 0xffff,
                    1 <= g.1 <= 0xffff,
            ;
            proof {
                lemma_triple_bound(a.0 as int, d.1 as int, g.1 as int);
                lemma_triple_bound(d.0 as int, a.1 as int, g.1 as int);
                lemma_triple_bound(g.0 as int, a.1 as int, d.1 as int);
            }
            let t1: i128 = a.0 * d.1;
            let t1: i128 = t1 * g.1;
            let t2: i128 = d.0 * a.1;
            let t2: i128 = t2 * g.1;
            let t3: i128 = g.0 * a.1;
            let t3: i128 = t3 * d.1;
            let sum_n: i128 = t1 + t2 + t3;
            let sum_d: i128 = a.1 * d.1 * g.1;
            let natural = clamp_twips_i128(grid_round_exec(sum_n, sum_d));
            let descent = clamp_twips_i128(grid_round_exec(d.0, d.1));
            TextMetrics {
                advance: 0,
                ascent: clamp_twips_i128(natural as i128 - descent as i128),
                descent,
                line_gap: 0,
            }
        },
    }
}

/// `v` twips lie on the grid of 1/300 inch (a step is 24/5 twips) to
/// within twip resolution: `5 v` is within 2 of a multiple of 24.
pub open spec fn on_grid(v: int) -> bool {
    (5 * v) % 24 <= 2 || (5 * v) % 24 >= 22
}

proof fn lemma_grid_round_is_on_grid(n: int, d: int)
    ensures
        on_grid(grid_round(n, d)),
{
    let k = round_ratio(5 * n, 24 * d);
    let r = grid_round(n, d);
    assert(r == round_ratio(24 * k, 5));
    if 24 * k >= 0 {
        assert(-2 <= 5 * r - 24 * k <= 2) by (nonlinear_arith)
            requires
                r == (2 * (24 * k) + 5) / 10,
                24 * k >= 0,
        ;
    } else {
        assert(-2 <= 5 * r - 24 * k <= 2) by (nonlinear_arith)
            requires
                r == -((2 * (-(24 * k)) + 5) / 10),
                24 * k < 0,
        ;
    }
    assert(on_grid(r)) by (nonlinear_arith)
        requires
            -2 <= 5 * r - 24 * k <= 2,
    {
        let delta = 5 * r - 24 * k;
        assert((24 * k + delta) % 24 == (delta + 24) % 24) by (nonlinear_arith);
    }
}

/// On the grid every line lands on the 1/300-inch grid: the descent and
/// the line height (ascent plus descent) are each within twip resolution
/// of a whole number of grid steps, and there is no separate gap.
pub proof fn law_grid_metrics_land_on_the_grid(faces: Seq<FaceVertical>, size_half_points: u32)
    ensures
        spec_vertical_for(faces, size_half_points, VerticalGrid::MacWordThreeHundredthsInch).line_gap == 0,
        ({
            let m = spec_vertical_for(faces, size_half_points, VerticalGrid::MacWordThreeHundredthsInch);
            i32::MIN < m.descent < i32::MAX ==> on_grid(m.descent as int)
        }),
        ({
            let m = spec_vertical_for(faces, size_half_points, VerticalGrid::MacWordThreeHundredthsInch);
            i32::MIN < m.ascent < i32::MAX && i32::MIN < m.ascent + m.descent < i32::MAX ==> on_grid(
                m.ascent + m.descent,
            )
        }),
{
    if faces.len() > 0 {
        let em = ((size_half_points as int * 20) / 2) as i32 as int;
        let a = max_scaled(faces, faces.len() as int, 0, em);
        let d = max_scaled(faces, faces.len() as int, 1, em);
        let g = max_scaled(faces, faces.len() as int, 2, em);
        let sum_n = a.0 * d.1 * g.1 + d.0 * a.1 * g.1 + g.0 * a.1 * d.1;
        let sum_d = a.1 * d.1 * g.1;
        lemma_grid_round_is_on_grid(sum_n, sum_d);
        lemma_grid_round_is_on_grid(d.0, d.1);
    } else {
        assert(on_grid(0));
    }
}

/// Scaling and letter spacing on a measured advance, as the stub metrics
/// apply them: the advance scaled by the percentage (when it is neither
/// 100 nor 0, rounding towards zero), plus the spacing once per glyph;
/// narrowed to `Twips`.
pub open spec fn spec_apply_spacing(advance: int, glyphs: int, font: FontSpec) -> Twips {
    let scaled = if font.scale_pct != 100 && font.scale_pct > 0 {
        crate::geom::trunc_div(advance * font.scale_pct, 100)
    } else {
        advance
    };
    (scaled + glyphs * font.letter_spacing) as i32
}

/// Scaling and letter spacing on a measured advance (see
/// `spec_apply_spacing`).
pub fn apply_spacing(advance: i64, glyphs: u64, font: &FontSpec) -> (t: Twips)
    requires
        -0x1_0000_0000_0000 <= advance <= 0x1_0000_0000_0000,
        glyphs <= 0x1_0000_0000_0000,
    ensures
        t == spec_apply_spacing(advance as int, glyphs as int, *font),
{
    let mut adv: i128 = advance as i128;
    if font.scale_pct != 100 && font.scale_pct > 0 {
        assert(-0x1_0000_0000_0000 * 0x1_0000_0000 <= advance as int * font.scale_pct as int
            <= 0x1_0000_0000_0000 * 0x1_0000_0000) by (nonlinear_arith)
            requires
                -0x1_0000_0000_0000 <= advance <= 0x1_0000_0000_0000,
                0 <= font.scale_pct <= 0xffff_ffff,
        ;
        adv = adv * font.scale_pct as i128 / 100;
    }
    assert(-0x1_0000_0000_0000 * 0x8000_0000 <= glyphs as int * font.letter_spacing as int
        <= 0x1_0000_0000_0000 * 0x8000_0000) by (nonlinear_arith)
        requires
            0 <= glyphs <= 0x1_0000_0000_0000,
            -0x8000_0000 <= font.letter_spacing < 0x8000_0000,
    ;
    let total: i128 = adv + glyphs as i128 * font.letter_spacing as i128;
    #[verifier::truncate]
    (total as i32)
}

} // verus!
