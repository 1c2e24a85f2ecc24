//! What real-font metrics report besides measurements: the vertical grid
//! they quantize to, how fonts were selected, what a font scan loaded, and
//! where shaped glyphs lie in a measured text.
use vstd::prelude::*;
use crate::geom::Twips;
use crate::json::str_eq;

verus! {

/// The vertical grid line metrics are quantized to.
#[derive(Debug, Clone, Copy, PartialEq, Eq, Structural, Default)]
pub enum VerticalGrid {
    /// No quantizing: the font's own values.
    #[default]
    Unquantized,
    /// Quantized to 1/300 inch (4.8 twips), as observed of Word on the Mac.
    MacWordThreeHundredthsInch,
}

/// How fonts were found while measuring: a layout that used substitutes
/// cannot be told apart from a layout error without these counts.
#[derive(Debug, Clone, Copy, PartialEq, Eq, Structural, Default)]
pub struct SelectionStats {
    /// A family other than the requested one was used.
    pub substituted: usize,
    /// The requested family lacked a glyph and another face supplied it.
    pub fallback: usize,
    /// No face covered the character: it has no width at all.
    pub missing: usize,
}

impl SelectionStats {
    /// Nothing substituted, nothing fell back, nothing missing.
    pub fn is_clean(&self) -> (b: bool)
        ensures
            b == (self.substituted == 0 && self.fallback == 0 && self.missing == 0),
    {
        self.substituted == 0 && self.fallback == 0 && self.missing == 0
    }
}

/// What a font scan loaded. The failures and the families are as much the
/// result as the count of faces.
#[derive(Debug, Clone, Default)]
pub struct LoadReport {
    /// Faces loaded.
    pub faces: usize,
    /// Files found but not loaded, with the reason.
    pub failed: Vec<(String, String)>,
    /// Every family loaded, sorted, without duplicates.
    pub families: Vec<String>,
    /// The environment's fingerprint: one font set, one string.
    pub fingerprint: String,
}

/// Whether a family name is among `families`.
pub open spec fn has_family(families: Seq<String>, name: Seq<char>) -> bool {
    exists|i: int| 0 <= i < families.len() && (#[trigger] families[i])@ == name
}

/// The requested names, in order, whose normalized form (the second of
/// each pair) is not among `families`.
pub open spec fn missing_families(families: Seq<String>, required: Seq<(String, String)>) -> Seq<Seq<char>>
    decreases required.len(),
{
    if required.len() == 0 {
        seq![]
    } else {
        let rest = missing_families(families, required.drop_last());
        if has_family(families, required.last().1@) {
            rest
        } else {
            rest.push(required.last().0@)
        }
    }
}

impl LoadReport {
    /// The requested families that were not loaded, by name as requested.
    /// Each request comes with its normalized family name, which is what
    /// `families` holds. This is the one check that finds a substituted
    /// font: metric-compatible clones leave no trace in the geometry.
    pub fn missing(&self, required: &[(String, String)]) -> (out: Vec<String>)
        ensures
            out@.len() == missing_families(self.families@, required@).len(),
            forall|i: int| 0 <= i < out@.len() ==> (#[trigger] out@[i])@ == missing_families(self.families@, required@)[i],
    {
        let mut out: Vec<String> = Vec::new();
        let mut i: usize = 0;
        assert(required@.take(0) =~= Seq::<(String, String)>::empty());
        while i < required.len()
            invariant
                0 <= i <= required@.len(),
                out@.len() == missing_families(self.families@, required@.take(i as int)).len(),
                forall|k: int|
                    0 <= k < out@.len() ==> (#[trigger] out@[k])@ == missing_families(self.families@, required@.take(i as int))[k],
            decreases required@.len() - i,
        {
            let want = required[i].1.as_str();
            let mut found = false;
            let mut j: usize = 0;
            while j < self.families.len()
                invariant
                    0 <= j <= self.families@.len(),
                    want@ == required@[i as int].1@,
                    found == exists|k: int| 0 <= k < j && (#[trigger] self.families@[k])@ == want@,
                decreases self.families@.len() - j,
            {
                if str_eq(self.families[j].as_str(), want) {
                    found = true;
                }
                j = j + 1;
            }
            proof {
                assert(required@.take(i + 1).drop_last() =~= required@.take(i as int));
                assert(required@.take(i + 1).last() == required@[i as int]);
            }
            if !found {
                out.push(required[i].0.clone());
            }
            i = i + 1;
        }
        assert(required@.take(required@.len() as int) =~= required@);
        out
    }
}

/// A positioned glyph of a measured text: the source it covers and where
/// it lies. One glyph may cover several characters (a ligature).
#[derive(Debug, Clone, Copy, PartialEq, Eq, Structural)]
pub struct GlyphPosition {
    /// The source covered, byte offsets into the measured text.
    pub start: usize,
    pub end: usize,
    /// Offset from the start of the text.
    pub x: Twips,
    /// The glyph's advance.
    pub advance: Twips,
}

} // verus!
