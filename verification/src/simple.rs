//! Built-in approximate metrics. Not typographic metrics: fixed advances by
//! character class, no font file, no shaping, no kerning. They exist so that
//! the layout core runs and can be regression-tested without a font backend.
//!
//! Proportions of the em: CJK ideographs and full-width punctuation 1.0,
//! Latin letters and digits 0.5, space and tab 0.25; ascent 0.8, descent 0.2,
//! line gap 0.15. Bold is 3 % wider.
use vstd::prelude::*;
use crate::font::{BreakOpportunity, FontMetrics, FontSpec, TextMetrics};
use crate::geom::trunc_div;
use crate::linebreak::{is_cjk, spec_is_cjk, stub_breaks};
use crate::text::{chars_of, utf8_len};

verus! {

/// The approximate metrics.
pub struct SimpleMetrics;

/// Advance of one character in thousandths of an em.
pub open spec fn spec_advance_permille(c: char) -> int {
    if c == ' ' || c == '\t' {
        250
    } else if spec_is_cjk(c) {
        1000
    } else {
        500
    }
}

/// Sum of the per-character advances, in thousandths of an em.
pub open spec fn permille_sum(s: Seq<char>) -> int
    decreases s.len(),
{
    if s.len() == 0 {
        0
    } else {
        permille_sum(s.drop_last()) + spec_advance_permille(s.last())
    }
}

/// Thousandths of an em for a text in a font: bold is 3 % wider.
pub open spec fn spec_advance_units(s: Seq<char>, font: FontSpec) -> int {
    if font.bold {
        permille_sum(s) * 1030 / 1000
    } else {
        permille_sum(s)
    }
}

/// The font size in hundredths of a point.
pub open spec fn spec_centipoints(font: FontSpec) -> int {
    font.size_half_points as int * 50
}

/// What `SimpleMetrics::measure` gives. The advance is the em times the
/// units, then scaled, then widened by the letter spacing per character;
/// each step is narrowed to `Twips` as the integer casts of the arithmetic do.
pub open spec fn spec_simple_measure(s: Seq<char>, font: FontSpec) -> TextMetrics {
    let em = spec_centipoints(font);
    let base = (em * spec_advance_units(s, font) / 5000) as i32;
    let scaled = if font.scale_pct != 100 && font.scale_pct > 0 {
        trunc_div(base * font.scale_pct, 100) as i32
    } else {
        base
    };
    TextMetrics {
        advance: (scaled + (s.len() as i32) * font.letter_spacing) as i32,
        ascent: (em * 800 / 5000) as i32,
        descent: (em * 200 / 5000) as i32,
        line_gap: (em * 150 / 5000) as i32,
    }
}

/// The natural line height in fine units: 1.15 em, rounded once.
pub open spec fn spec_simple_natural_height_fine(font: FontSpec) -> i64 {
    ((spec_centipoints(font) * 115 + 50) / 100) as i64
}

proof fn lemma_permille_sum_bounds(s: Seq<char>)
    ensures
        250 * s.len() <= permille_sum(s) <= 1000 * s.len(),
    decreases s.len(),
{
    if s.len() > 0 {
        lemma_permille_sum_bounds(s.drop_last());
    }
}

/// Products of two 32-bit values fit comfortably in 128 bits.
proof fn lemma_small_product(a: int, b: int)
    requires
        -0x1_0000_0000 <= a <= 0x1_0000_0000,
        -0x1_0000_0000 <= b <= 0x1_0000_0000,
    ensures
        -0x1_0000_0000_0000_0000 <= a * b <= 0x1_0000_0000_0000_0000,
{
    assert(-0x1_0000_0000_0000_0000 <= a * b <= 0x1_0000_0000_0000_0000) by (nonlinear_arith)
        requires
            -0x1_0000_0000 <= a <= 0x1_0000_0000,
            -0x1_0000_0000 <= b <= 0x1_0000_0000,
    ;
}

impl SimpleMetrics {
    /// Advance of one character in thousandths of an em.
    pub fn advance_permille(c: char) -> (p: i64)
        ensures
            p == spec_advance_permille(c),
    {
        if c == ' ' || c == '\t' {
            250
        } else if is_cjk(c) {
            1000
        } else {
            500
        }
    }

    /// Thousandths of an em for the text in the font, and its number of
    /// characters.
    pub fn advance_units(text: &str, font: &FontSpec) -> (r: (i128, i128))
        ensures
            r.0 == spec_advance_units(text@, *font),
            r.1 == text@.len(),
            0 <= r.0 <= 1030 * r.1,
            r.1 <= usize::MAX,
    {
        let cs = chars_of(text);
        let mut permille: i128 = 0;
        let mut i: usize = 0;
        while i < cs.len()
            invariant
                cs@ == text@,
                0 <= i <= cs@.len(),
                permille == permille_sum(cs@.take(i as int)),
            decreases cs@.len() - i,
        {
            proof {
                assert(cs@.take(i + 1).drop_last() =~= cs@.take(i as int));
                lemma_permille_sum_bounds(cs@.take(i as int));
            }
            permille = permille + Self::advance_permille(cs[i]) as i128;
            i = i + 1;
        }
        assert(cs@.take(cs@.len() as int) =~= cs@);
        proof {
            lemma_permille_sum_bounds(cs@);
        }
        if font.bold {
            permille = permille * 1030 / 1000;
        }
        (permille, cs.len() as i128)
    }
}

impl FontMetrics for SimpleMetrics {
    open spec fn spec_measure(&self, text: Seq<char>, font: FontSpec) -> TextMetrics {
        spec_simple_measure(text, font)
    }

    open spec fn spec_breaks(&self, text: Seq<char>) -> Seq<BreakOpportunity> {
        stub_breaks(text)
    }

    fn measure(&self, text: &str, font: &FontSpec) -> (m: TextMetrics)
        ensures
            m == spec_simple_measure(text@, *font),
    {
        let em: i128 = font.size_half_points as i128 * 50;
        let (units, count) = Self::advance_units(text, font);
        proof {
            lemma_permille_sum_bounds(text@);
        }
        assert(0 <= em * units <= 0x1_0000_0000_0000_0000_0000_0000_0000) by (nonlinear_arith)
            requires
                0 <= em <= 0x1_0000_0000 * 50,
                0 <= units <= 1030 * count,
                count <= 0x1_0000_0000_0000_0000,
        ;
        let base_wide: i128 = em * units / 5000;
        #[verifier::truncate]
        let mut advance: i32 = base_wide as i32;
        if font.scale_pct != 100 && font.scale_pct > 0 {
            proof {
                lemma_small_product(advance as int, font.scale_pct as int);
            }
            let scaled: i128 = (advance as i128 * font.scale_pct as i128) / 100;
            #[verifier::truncate]
            let narrowed: i32 = scaled as i32;
            advance = narrowed;
        }
        #[verifier::truncate]
        let count32: i32 = count as i32;
        proof {
            lemma_small_product(count32 as int, font.letter_spacing as int);
        }
        let total: i128 = advance as i128 + count32 as i128 * font.letter_spacing as i128;
        #[verifier::truncate]
        let advance: i32 = total as i32;
        let ascent_wide: i128 = em * 800 / 5000;
        let descent_wide: i128 = em * 200 / 5000;
        let gap_wide: i128 = em * 150 / 5000;
        TextMetrics {
            advance,
            ascent: ascent_wide as i32,
            descent: descent_wide as i32,
            line_gap: gap_wide as i32,
        }
    }

    fn natural_height_fine(&self, _text: &str, font: &FontSpec) -> (h: i64)
        ensures
            h == spec_simple_natural_height_fine(*font),
    {
        let height: u128 = (font.size_half_points as u128 * 50 * 115 + 50) / 100;
        height as i64
    }

    fn break_opportunities(&self, text: &str) -> (out: Vec<BreakOpportunity>)
        ensures
            out@ == stub_breaks(text@),
    {
        crate::linebreak::break_opportunities(text)
    }
}

/// The approximate metrics' proportions of the em (the size in twips,
/// ten per half point): ascent 0.8, descent 0.2, line gap 0.15; in a
/// plain font (not bold, unscaled, no letter spacing) a space or tab
/// advances a quarter em, a CJK ideograph a whole em and a Latin letter
/// or digit half an em.
pub proof fn law_simple_proportions_of_the_em(font: FontSpec, c: char)
    requires
        font.size_half_points <= 0x0ccc_cccc,
    ensures
        spec_simple_measure(seq![c], font).ascent == 8 * font.size_half_points,
        spec_simple_measure(seq![c], font).descent == 2 * font.size_half_points,
        spec_simple_measure(seq![c], font).line_gap == 3 * font.size_half_points / 2,
        !font.bold && font.scale_pct == 100 && font.letter_spacing == 0 ==> {
            &&& (c == ' ' || c == '\t') ==> spec_simple_measure(seq![c], font).advance == 10
                * font.size_half_points / 4
            &&& 0x4E00 <= c as u32 <= 0x9FFF ==> spec_simple_measure(seq![c], font).advance == 10
                * font.size_half_points
            &&& ('a' <= c <= 'z' || 'A' <= c <= 'Z' || '0' <= c <= '9') ==> spec_simple_measure(
                seq![c],
                font,
            ).advance == 5 * font.size_half_points
        },
{
    let one = seq![c];
    let n = font.size_half_points as int;
    assert(one.drop_last() =~= Seq::<char>::empty());
    assert(permille_sum(Seq::<char>::empty()) == 0);
    assert(one.last() == c);
    assert(permille_sum(one) == spec_advance_permille(c));
    assert(n * 50 * 800 / 5000 == 8 * n) by (nonlinear_arith);
    assert(n * 50 * 200 / 5000 == 2 * n) by (nonlinear_arith);
    assert(n * 50 * 150 / 5000 == 3 * n / 2) by (nonlinear_arith);
    assert(n * 50 * 250 / 5000 == 10 * n / 4) by (nonlinear_arith);
    assert(n * 50 * 1000 / 5000 == 10 * n) by (nonlinear_arith);
    assert(n * 50 * 500 / 5000 == 5 * n) by (nonlinear_arith);
    if !font.bold && font.scale_pct == 100 && font.letter_spacing == 0 {
        let m = spec_simple_measure(one, font);
        assert(spec_advance_units(one, font) == spec_advance_permille(c));
        if c == ' ' || c == '\t' {
            assert(m.advance == n * 50 * 250 / 5000);
        } else if 0x4E00 <= c as u32 <= 0x9FFF {
            assert(spec_is_cjk(c));
            assert(m.advance == n * 50 * 1000 / 5000);
        } else if 'a' <= c <= 'z' || 'A' <= c <= 'Z' || '0' <= c <= '9' {
            assert(!spec_is_cjk(c));
            assert(m.advance == n * 50 * 500 / 5000);
        }
    }
}

} // verus!
