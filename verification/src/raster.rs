//! What glyph rasterization is keyed and configured by. The rasterizer
//! itself works on floating-point outlines and lives outside the library.
use vstd::prelude::*;

verus! {

/// A glyph to rasterize: a shaping result, not a character. The face tells
/// fonts apart: one glyph id is a different shape in another font.
#[derive(Debug, Clone, PartialEq, Eq, Hash)]
pub struct GlyphKey {
    /// The face id, usually a hash of the face's data.
    pub face: String,
    /// The glyph's id in the face.
    pub glyph_id: u32,
    /// Size in half points: each size is rasterized on its own.
    pub size_half_points: u32,
}

impl GlyphKey {
    pub fn new(face: &str, glyph_id: u32, size_half_points: u32) -> (k: GlyphKey)
        ensures
            k.face@ == face@,
            k.glyph_id == glyph_id,
            k.size_half_points == size_half_points,
    {
        GlyphKey { face: crate::text::copy_str(face), glyph_id, size_half_points }
    }
}

/// The pixel format of a coverage bitmap.
#[derive(Debug, Clone, Copy, PartialEq, Eq, Structural, Default)]
pub enum RasterFormat {
    /// One alpha channel, one byte a pixel.
    Alpha,
    /// RGB subpixels, three bytes a pixel: three times the horizontal
    /// resolution, on LCD panels only.
    #[default]
    Subpixel,
}

impl RasterFormat {
    /// Bytes per pixel.
    pub fn bytes_per_pixel(&self) -> (n: usize)
        ensures
            n == (match self {
                RasterFormat::Alpha => 1usize,
                RasterFormat::Subpixel => 3usize,
            }),
    {
        match self {
            RasterFormat::Alpha => 1,
            RasterFormat::Subpixel => 3,
        }
    }
}

/// How outlines are hinted.
#[derive(Debug, Clone, Copy, PartialEq, Eq, Structural, Hash, Default)]
pub enum HintingMode {
    /// No hinting: outlines are not fitted to the pixel grid.
    Unhinted,
    /// Hinting for anti-aliased rendering.
    #[default]
    Smooth,
    /// Strong hinting for monochrome rendering only.
    Mono,
}

/// The data of one face.
pub struct FaceData {
    pub bytes: Vec<u8>,
    /// The face's index in a collection; 0 for a single font file.
    pub index: u32,
}

/// The nominal glyph skrifa's character map gives for `ch` in the face at
/// `index` of the font data: `None` when the data is no font (or has no
/// face at that index) or the map has no entry for `ch`.
pub uninterp spec fn skrifa_nominal_glyph(font: Seq<u8>, index: u32, ch: char) -> Option<u32>;

/// Looks `ch` up with skrifa (`FontRef::from_index`, then
/// `MetadataProvider::charmap` and `Charmap::map`). The contract only
/// names the result.
#[verifier::external_body]
fn nominal_glyph(font: &[u8], index: u32, ch: char) -> (r: Option<u32>)
    ensures
        r == skrifa_nominal_glyph(font@, index, ch),
{
    let face = skrifa::FontRef::from_index(font, index).ok()?;
    let glyph = skrifa::MetadataProvider::charmap(&face).map(ch)?;
    Some(glyph.to_u32())
}

impl FaceData {
    /// The glyph of a character by the face's character map alone, for
    /// simple uses: real text goes through shaping. Glyph 0 (`.notdef`)
    /// counts as no glyph.
    pub fn glyph_id(&self, ch: char) -> (r: Option<u32>)
        ensures
            r == (match skrifa_nominal_glyph(self.bytes@, self.index, ch) {
                Some(g) => if g != 0 {
                    Some(g)
                } else {
                    None
                },
                None => None,
            }),
    {
        match nominal_glyph(self.bytes.as_slice(), self.index, ch) {
            Some(g) => if g != 0 {
                Some(g)
            } else {
                None
            },
            None => None,
        }
    }
}

/// Coverage bytes mapped through a 256-entry table, byte by byte (each
/// subpixel channel on its own, like a single alpha channel).
pub fn apply_gamma_table(table: &[u8; 256], raw: Vec<u8>) -> (out: Vec<u8>)
    ensures
        out@.len() == raw@.len(),
        forall|i: int| 0 <= i < raw@.len() ==> #[trigger] out@[i] == table@[raw@[i] as int],
{
    let mut out = raw;
    let mut i: usize = 0;
    while i < out.len()
        invariant
            0 <= i <= out@.len(),
            out@.len() == raw@.len(),
            table@.len() == 256,
            forall|k: int| 0 <= k < i ==> #[trigger] out@[k] == table@[raw@[k] as int],
            forall|k: int| i <= k < out@.len() ==> #[trigger] out@[k] == raw@[k],
        decreases out@.len() - i,
    {
        let b = out[i];
        out.set(i, table[b as usize]);
        i = i + 1;
    }
    out
}

} // verus!
