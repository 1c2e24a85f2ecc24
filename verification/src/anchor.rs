//! Text wrapping regions from the document's anchored drawings.
//!
//! Only the plainest anchoring is understood: an absolute `posOffset`, or
//! a horizontal `align` against the content area. Wrap polygons are not in
//! the model, so `tight` and `through` wrap around the extent's box, which
//! is larger, never smaller. Drawings that cannot be placed are counted,
//! never silently dropped.
use vstd::prelude::*;
use crate::geom::{Rect, Twips, emu_to_twips, fits_twips, trunc_div};
use crate::json::str_eq;
use crate::path::{FillRule, Path};
use crate::wrap::{WrapContext, WrapRegion, WrapSide};

verus! {

/// How an anchored drawing wraps text (`wp:wrap*`), with the `wrapText`
/// attribute of the kinds that have one.
#[derive(Debug, Clone, PartialEq)]
pub enum Wrap {
    /// `wp:wrapNone`: the drawing floats over or under the text.
    NoWrap,
    /// No wrap element.
    Unspecified,
    Square(Option<String>),
    Tight(Option<String>),
    Through(Option<String>),
    TopAndBottom,
}

impl Wrap {
    pub open spec fn spec_text(&self) -> Option<Seq<char>> {
        match self {
            Wrap::Square(Some(t)) => Some(t@),
            Wrap::Tight(Some(t)) => Some(t@),
            Wrap::Through(Some(t)) => Some(t@),
            _ => None,
        }
    }

    /// The `wrapText` attribute, where the kind has one.
    pub fn text(&self) -> (r: Option<&str>)
        ensures
            r matches Some(s) ==> self.spec_text() == Some(s@),
            r is None ==> self.spec_text() is None,
    {
        match self {
            Wrap::Square(Some(t)) => Some(t.as_str()),
            Wrap::Tight(Some(t)) => Some(t.as_str()),
            Wrap::Through(Some(t)) => Some(t.as_str()),
            _ => None,
        }
    }
}

/// A position along one axis (`wp:positionH` / `wp:positionV`).
#[derive(Debug, Clone, PartialEq)]
pub struct Position {
    /// `wp:posOffset`, EMU.
    pub offset_emu: Option<i64>,
    /// `wp:align`.
    pub align: Option<String>,
}

/// The distances kept from the text (`distT` and the others), EMU.
#[derive(Debug, Clone, Copy, PartialEq, Eq)]
pub struct Dist {
    pub top: Option<i64>,
    pub bottom: Option<i64>,
    pub left: Option<i64>,
    pub right: Option<i64>,
}

/// The anchoring of a drawing.
#[derive(Debug, Clone, PartialEq)]
pub struct AnchorGeom {
    pub wrap: Wrap,
    pub h: Position,
    pub v: Position,
    pub dist: Dist,
}

/// The size of a drawing, EMU.
#[derive(Debug, Clone, Copy, PartialEq, Eq)]
pub struct Extent {
    pub cx: i64,
    pub cy: i64,
}

/// A drawing of the document as the scan reads it: whether it is anchored
/// (rather than inline), its anchoring and its size.
#[derive(Debug, Clone, PartialEq)]
pub struct Drawing {
    pub anchored: bool,
    pub anchor: Option<AnchorGeom>,
    pub extent: Option<Extent>,
}

/// What becomes of one drawing.
#[derive(Debug, Clone, Copy, PartialEq, Eq, Structural)]
pub enum AnchorOutcome {
    /// Inline or not wrapping: no region.
    NotWrapping,
    /// Placed in a way not understood here: counted, no region.
    Skipped,
    /// An exclusion region.
    Region { rect: Rect, distance: Twips, side: WrapSide },
}

/// The horizontal position of a drawing of width `w`: an offset from the
/// content area's left edge, else an alignment in it; `None` otherwise.
pub open spec fn spec_resolve_h(p: Position, content: Rect, w: Twips) -> Option<int> {
    match p.offset_emu {
        Some(off) => Some(content.x + emu_to_twips_spec(off)),
        None => {
            let a = match p.align {
                Some(s) => Some(s@),
                None => None,
            };
            if a == Some("left"@) || a == Some("inside"@) {
                Some(content.x as int)
            } else if a == Some("center"@) {
                Some(content.x + trunc_div(content.width - w, 2))
            } else if a == Some("right"@) || a == Some("outside"@) {
                Some(content.x + content.width - w)
            } else {
                None
            }
        },
    }
}

pub open spec fn emu_to_twips_spec(emu: i64) -> Twips {
    trunc_div(emu as int, 635) as i32
}

/// The wrap side of an anchoring, or `None` where the drawing does not
/// wrap.
pub open spec fn spec_side(w: Wrap) -> Option<WrapSide> {
    match w {
        Wrap::NoWrap => None,
        Wrap::Unspecified => None,
        Wrap::TopAndBottom => Some(WrapSide::TopAndBottom),
        _ => {
            let t = w.spec_text();
            Some(
                if t == Some("left"@) {
                    WrapSide::Left
                } else if t == Some("right"@) {
                    WrapSide::Right
                } else if t == Some("largest"@) {
                    WrapSide::Largest
                } else {
                    WrapSide::BothSides
                },
            )
        },
    }
}

/// The largest of the distances given, in twips; 0 when none is.
pub open spec fn spec_dist(d: Dist) -> Twips {
    let vals = seq![d.top, d.bottom, d.left, d.right];
    max_present(vals, 4)
}

pub open spec fn max_present(vals: Seq<Option<i64>>, k: int) -> Twips
    decreases k,
{
    if k <= 0 {
        0
    } else {
        let rest = max_present(vals, k - 1);
        let seen = any_present(vals, k - 1);
        match vals[k - 1] {
            Some(v) => {
                let t = emu_to_twips_spec(v);
                if !seen || t > rest {
                    t
                } else {
                    rest
                }
            },
            None => rest,
        }
    }
}

pub open spec fn any_present(vals: Seq<Option<i64>>, k: int) -> bool
    decreases k,
{
    if k <= 0 {
        false
    } else {
        vals[k - 1] is Some || any_present(vals, k - 1)
    }
}

/// A box that can become an exclusion region: a non-negative size, and
/// its edges grown by the distance representable in twips.
pub open spec fn region_ok(x: int, y: int, w: int, h: int, d: int) -> bool {
    &&& w >= 0
    &&& h >= 0
    &&& fits_twips(x)
    &&& fits_twips(y)
    &&& fits_twips(x + w)
    &&& fits_twips(y + h)
    &&& fits_twips(x - d)
    &&& fits_twips(y - d)
    &&& fits_twips(x + w + d)
    &&& fits_twips(y + h + d)
    &&& w + 2 * d <= i32::MAX
}

/// What becomes of a drawing: not anchored, no anchoring, or no wrap
/// means no region; no extent, a horizontal position not understood, or a
/// box that twips cannot hold (or of negative size) means skipped;
/// otherwise the extent's box at the position, vertically from the content
/// area's top, kept at the largest distance, with the wrap side.
pub open spec fn spec_outcome(d: Drawing, content: Rect) -> AnchorOutcome {
    if !d.anchored {
        AnchorOutcome::NotWrapping
    } else {
        match d.anchor {
            None => AnchorOutcome::NotWrapping,
            Some(a) => match spec_side(a.wrap) {
                None => AnchorOutcome::NotWrapping,
                Some(side) => match d.extent {
                    None => AnchorOutcome::Skipped,
                    Some(e) => {
                        let w = emu_to_twips_spec(e.cx);
                        let h = emu_to_twips_spec(e.cy);
                        match spec_resolve_h(a.h, content, w) {
                            None => AnchorOutcome::Skipped,
                            Some(x) => {
                                let y0: int = match a.v.offset_emu {
                                    Some(off) => emu_to_twips_spec(off) as int,
                                    None => 0,
                                };
                                let y = y0 + content.y;
                                let dist = spec_dist(a.dist);
                                if region_ok(x, y, w as int, h as int, dist as int) {
                                    AnchorOutcome::Region {
                                        rect: Rect { x: x as i32, y: y as i32, width: w, height: h },
                                        distance: dist,
                                        side,
                                    }
                                } else {
                                    AnchorOutcome::Skipped
                                }
                            },
                        }
                    },
                },
            },
        }
    }
}

/// How many drawings have the outcome `NotWrapping` (when `not_wrapping`)
/// or `Skipped` (otherwise).
pub open spec fn count_outcomes(ds: Seq<Drawing>, content: Rect, not_wrapping: bool) -> nat
    decreases ds.len(),
{
    if ds.len() == 0 {
        0
    } else {
        let o = spec_outcome(ds.last(), content);
        let hit = if not_wrapping {
            o is NotWrapping
        } else {
            o is Skipped
        };
        count_outcomes(ds.drop_last(), content, not_wrapping) + if hit {
            1nat
        } else {
            0nat
        }
    }
}

/// The regions of the drawings that wrap, in order: box, distance, side.
pub open spec fn scan_regions(ds: Seq<Drawing>, content: Rect) -> Seq<(Rect, Twips, WrapSide)>
    decreases ds.len(),
{
    if ds.len() == 0 {
        seq![]
    } else {
        let rest = scan_regions(ds.drop_last(), content);
        match spec_outcome(ds.last(), content) {
            AnchorOutcome::Region { rect, distance, side } => rest.push((rect, distance, side)),
            _ => rest,
        }
    }
}

proof fn lemma_counts_bounded(ds: Seq<Drawing>, content: Rect)
    ensures
        count_outcomes(ds, content, false) + count_outcomes(ds, content, true) + scan_regions(ds, content).len()
            == ds.len(),
    decreases ds.len(),
{
    if ds.len() > 0 {
        lemma_counts_bounded(ds.drop_last(), content);
    }
}

/// What the scan found.
pub struct AnchorScan {
    pub wrap: WrapContext,
    /// Drawings skipped because their anchoring is not understood here.
    pub skipped: usize,
    /// Drawings that do not wrap (inline, or `wrapNone`).
    pub not_wrapping: usize,
}

impl Default for AnchorScan {
    fn default() -> (s: AnchorScan)
        ensures
            s.wrap@.len() == 0,
            s.skipped == 0,
            s.not_wrapping == 0,
    {
        AnchorScan { wrap: WrapContext::new(), skipped: 0, not_wrapping: 0 }
    }
}

fn opt_is(o: &Option<String>, lit: &str) -> (r: bool)
    ensures
        r == (o matches Some(s) && s@ == lit@),
{
    match o {
        Some(s) => str_eq(s.as_str(), lit),
        None => false,
    }
}

fn opt_str_is(o: Option<&str>, lit: &str) -> (r: bool)
    ensures
        r == (o matches Some(s) && s@ == lit@),
{
    match o {
        Some(s) => str_eq(s, lit),
        None => false,
    }
}

impl AnchorScan {
    /// The horizontal position (see `spec_resolve_h`), without overflow.
    fn resolve_h(p: &Position, content: Rect, w: i32) -> (r: Option<i64>)
        ensures
            r matches Some(x) ==> spec_resolve_h(*p, content, w) == Some(x as int),
            r is None ==> spec_resolve_h(*p, content, w) is None,
    {
        match p.offset_emu {
            Some(off) => Some(content.x as i64 + emu_to_twips(off) as i64),
            None => {
                if opt_is(&p.align, "left") || opt_is(&p.align, "inside") {
                    Some(content.x as i64)
                } else if opt_is(&p.align, "center") {
                    Some(content.x as i64 + (content.width as i64 - w as i64) / 2)
                } else if opt_is(&p.align, "right") || opt_is(&p.align, "outside") {
                    Some(content.x as i64 + content.width as i64 - w as i64)
                } else {
                    None
                }
            },
        }
    }

    fn side_of(w: &Wrap) -> (r: Option<WrapSide>)
        ensures
            r == spec_side(*w),
    {
        match w {
            Wrap::NoWrap => None,
            Wrap::Unspecified => None,
            Wrap::TopAndBottom => Some(WrapSide::TopAndBottom),
            _ => {
                let t = w.text();
                Some(
                    if opt_str_is(t, "left") {
                        WrapSide::Left
                    } else if opt_str_is(t, "right") {
                        WrapSide::Right
                    } else if opt_str_is(t, "largest") {
                        WrapSide::Largest
                    } else {
                        // `bothSides` and no attribute: both sides.
                        WrapSide::BothSides
                    },
                )
            },
        }
    }

    /// The largest distance given (see `spec_dist`).
    fn dist_of(d: &Dist) -> (r: Twips)
        ensures
            r == spec_dist(*d),
    {
        let vals = [d.top, d.bottom, d.left, d.right];
        let ghost sv = seq![d.top, d.bottom, d.left, d.right];
        let mut best: Twips = 0;
        let mut seen = false;
        let mut k: usize = 0;
        while k < 4
            invariant
                0 <= k <= 4,
                vals@ == sv,
                sv == seq![d.top, d.bottom, d.left, d.right],
                best == max_present(sv, k as int),
                seen == any_present(sv, k as int),
            decreases 4 - k,
        {
            match vals[k] {
                Some(v) => {
                    let t = emu_to_twips(v);
                    if !seen || t > best {
                        best = t;
                    }
                    seen = true;
                },
                None => {},
            }
            k = k + 1;
        }
        best
    }

    /// What becomes of one drawing (see `spec_outcome`).
    pub fn outcome(d: &Drawing, content: Rect) -> (r: AnchorOutcome)
        ensures
            r == spec_outcome(*d, content),
    {
        if !d.anchored {
            return AnchorOutcome::NotWrapping;
        }
        let a = match &d.anchor {
            // An inline drawing takes room in the line; breaking handles it.
            None => {
                return AnchorOutcome::NotWrapping;
            },
            Some(a) => a,
        };
        let side = match Self::side_of(&a.wrap) {
            None => {
                return AnchorOutcome::NotWrapping;
            },
            Some(s) => s,
        };
        let e = match d.extent {
            None => {
                return AnchorOutcome::Skipped;
            },
            Some(e) => e,
        };
        let w = emu_to_twips(e.cx);
        let h = emu_to_twips(e.cy);
        let x = match Self::resolve_h(&a.h, content, w) {
            None => {
                return AnchorOutcome::Skipped;
            },
            Some(x) => x,
        };
        // Vertically only an offset is understood; otherwise the top of the
        // paragraph, which the caller moves by the content area's top.
        let y0: i64 = match a.v.offset_emu {
            Some(off) => emu_to_twips(off) as i64,
            None => 0,
        };
        let y: i64 = y0 + content.y as i64;
        let dist = Self::dist_of(&a.dist);
        let (wl, hl, dl): (i64, i64, i64) = (w as i64, h as i64, dist as i64);
        let lo: i64 = i32::MIN as i64;
        let hi: i64 = i32::MAX as i64;
        let ok = wl >= 0 && hl >= 0 && lo <= x && x <= hi && lo <= y && y <= hi && x + wl <= hi && y + hl <= hi && lo
            <= x - dl && x - dl <= hi && lo <= y - dl && y - dl <= hi && lo <= x + wl + dl && x + wl + dl <= hi && lo
            <= y + hl + dl && y + hl + dl <= hi && wl + 2 * dl <= hi;
        if ok {
            AnchorOutcome::Region { rect: Rect { x: x as i32, y: y as i32, width: w, height: h }, distance: dist, side }
        } else {
            AnchorOutcome::Skipped
        }
    }

    /// Handles one drawing: counts it, or adds its exclusion region.
    pub fn consume(&mut self, d: &Drawing, content: Rect)
        requires
            old(self).skipped < usize::MAX,
            old(self).not_wrapping < usize::MAX,
        ensures
            match spec_outcome(*d, content) {
                AnchorOutcome::NotWrapping => {
                    &&& final(self).not_wrapping == old(self).not_wrapping + 1
                    &&& final(self).skipped == old(self).skipped
                    &&& final(self).wrap@ == old(self).wrap@
                },
                AnchorOutcome::Skipped => {
                    &&& final(self).skipped == old(self).skipped + 1
                    &&& final(self).not_wrapping == old(self).not_wrapping
                    &&& final(self).wrap@ == old(self).wrap@
                },
                AnchorOutcome::Region { rect, distance, side } => {
                    &&& final(self).skipped == old(self).skipped
                    &&& final(self).not_wrapping == old(self).not_wrapping
                    &&& final(self).wrap@.len() == old(self).wrap@.len() + 1
                    &&& final(self).wrap@.drop_last() == old(self).wrap@
                    &&& final(self).wrap@.last().path@ == Path::rect_segs(rect)
                    &&& final(self).wrap@.last().rule == FillRule::NonZero
                    &&& final(self).wrap@.last().distance == distance
                    &&& final(self).wrap@.last().side == side
                },
            },
    {
        match Self::outcome(d, content) {
            AnchorOutcome::NotWrapping => {
                self.not_wrapping = self.not_wrapping + 1;
            },
            AnchorOutcome::Skipped => {
                self.skipped = self.skipped + 1;
            },
            AnchorOutcome::Region { rect, distance, side } => {
                let region = WrapRegion::rect(rect, distance).with_side(side);
                proof {
                    crate::path::lemma_rect_path_bounds(region.path, rect);
                }
                self.wrap.add(region);
                proof {
                    assert(self.wrap@.drop_last() =~= old(self).wrap@);
                }
            },
        }
    }

    /// Scans the document's drawings, in order: the regions of those that
    /// wrap, in document order, and a count of the others by outcome.
    pub fn from_document(drawings: &[Drawing], content: Rect) -> (out: AnchorScan)
        ensures
            out.skipped + out.not_wrapping + out.wrap@.len() == drawings@.len(),
            out.skipped == count_outcomes(drawings@, content, false),
            out.not_wrapping == count_outcomes(drawings@, content, true),
            out.wrap@.len() == scan_regions(drawings@, content).len(),
            forall|k: int|
                0 <= k < out.wrap@.len() ==> {
                    let r = #[trigger] scan_regions(drawings@, content)[k];
                    &&& out.wrap@[k].path@ == Path::rect_segs(r.0)
                    &&& out.wrap@[k].rule == FillRule::NonZero
                    &&& out.wrap@[k].distance == r.1
                    &&& out.wrap@[k].side == r.2
                },
    {
        let mut out = AnchorScan::default();
        let mut i: usize = 0;
        assert(drawings@.take(0) =~= Seq::<Drawing>::empty());
        while i < drawings.len()
            invariant
                0 <= i <= drawings@.len(),
                out.skipped == count_outcomes(drawings@.take(i as int), content, false),
                out.not_wrapping == count_outcomes(drawings@.take(i as int), content, true),
                out.skipped <= i,
                out.not_wrapping <= i,
                out.wrap@.len() == scan_regions(drawings@.take(i as int), content).len(),
                forall|k: int|
                    0 <= k < out.wrap@.len() ==> {
                        let r = #[trigger] scan_regions(drawings@.take(i as int), content)[k];
                        &&& out.wrap@[k].path@ == Path::rect_segs(r.0)
                        &&& out.wrap@[k].rule == FillRule::NonZero
                        &&& out.wrap@[k].distance == r.1
                        &&& out.wrap@[k].side == r.2
                    },
            decreases drawings@.len() - i,
        {
            proof {
                lemma_counts_bounded(drawings@.take(i as int), content);
            }
            let ghost before = out.wrap@;
            out.consume(&drawings[i], content);
            proof {
                let t = drawings@.take(i + 1);
                assert(t.drop_last() =~= drawings@.take(i as int));
                assert(t.last() == drawings@[i as int]);
                lemma_counts_bounded(t, content);
                let rs = scan_regions(t, content);
                assert forall|k: int| 0 <= k < out.wrap@.len() implies {
                    let r = #[trigger] scan_regions(t, content)[k];
                    &&& out.wrap@[k].path@ == Path::rect_segs(r.0)
                    &&& out.wrap@[k].rule == FillRule::NonZero
                    &&& out.wrap@[k].distance == r.1
                    &&& out.wrap@[k].side == r.2
                } by {
                    if k < before.len() {
                        if out.wrap@.len() > before.len() {
                            assert(out.wrap@[k] == out.wrap@.drop_last()[k]);
                        }
                        assert(rs[k] == scan_regions(drawings@.take(i as int), content)[k]);
                    }
                }
            }
            i = i + 1;
        }
        assert(drawings@.take(drawings@.len() as int) =~= drawings@);
        proof {
            lemma_counts_bounded(drawings@, content);
        }
        out
    }

    /// Whether any wrapping region was found.
    pub fn is_empty(&self) -> (b: bool)
        ensures
            b == (self.wrap@.len() == 0),
    {
        self.wrap.is_empty()
    }
}

} // verus!
