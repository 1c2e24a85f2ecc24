//! Text wrapping around exclusion regions, built on the same path primitive
//! as drawing.
use vstd::prelude::*;
use crate::geom::{Rect, Twips, fits_twips, max_int, min_int};
use crate::path::{FillRule, Path};

verus! {

/// A one-dimensional interval of twips: the horizontal room of a line.
#[derive(Debug, Clone, Copy, PartialEq, Eq, Structural)]
pub struct Span {
    pub start: Twips,
    pub end: Twips,
}

impl Span {
    /// The width `end - start` can be represented (or is negative).
    pub open spec fn width_fits(self) -> bool {
        self.end - self.start <= i32::MAX
    }

    pub open spec fn spec_width(self) -> int {
        max_int(self.end - self.start, 0)
    }

    /// `self` lies within `outer`.
    pub open spec fn within(self, outer: Span) -> bool {
        outer.start <= self.start && self.end <= outer.end
    }

    /// `self` does not overlap the interval `occ`.
    pub open spec fn clear_of(self, occ: Span) -> bool {
        self.end <= occ.start || self.start >= occ.end
    }

    pub fn new(start: Twips, end: Twips) -> (s: Span)
        ensures
            s == (Span { start, end }),
    {
        Span { start, end }
    }

    /// The width, never negative.
    pub fn width(&self) -> (w: Twips)
        requires
            self.width_fits(),
        ensures
            w == self.spec_width(),
    {
        let d: i64 = self.end as i64 - self.start as i64;
        if d > 0 {
            d as i32
        } else {
            0
        }
    }

    pub fn is_empty(&self) -> (b: bool)
        requires
            self.width_fits(),
        ensures
            b == (self.spec_width() <= 0),
    {
        self.width() <= 0
    }
}

/// How text flows around a region (OOXML `wrapText`).
#[derive(Debug, Clone, Copy, PartialEq, Eq, Structural, Default)]
pub enum WrapSide {
    /// Text on both sides.
    #[default]
    BothSides,
    /// Text on the left only.
    Left,
    /// Text on the right only.
    Right,
    /// Text on the wider side only.
    Largest,
    /// Top and bottom: the whole line gives way.
    TopAndBottom,
}

/// An exclusion region for wrapping.
#[derive(Debug, Clone, PartialEq)]
pub struct WrapRegion {
    /// The shape excluded.
    pub path: Path,
    pub rule: FillRule,
    /// Distance kept from the shape, in twips.
    pub distance: Twips,
    /// How text wraps around it.
    pub side: WrapSide,
}

impl WrapRegion {
    /// The bounding box and the box grown by `distance` can be represented.
    pub open spec fn fits(self) -> bool {
        &&& self.path.bounds_fit()
        &&& match self.path.spec_bounds() {
            Some(b) => {
                &&& fits_twips(b.x - self.distance)
                &&& fits_twips(b.x + b.width + self.distance)
                &&& fits_twips(b.x + b.width)
                &&& fits_twips(b.y + b.height)
                &&& fits_twips(b.y - self.distance)
                &&& fits_twips(b.y + b.height + self.distance)
                &&& b.width + 2 * self.distance <= i32::MAX
            },
            None => true,
        }
    }

    /// The horizontal interval this region blocks on the band
    /// `[y, y + height)`: its bounding box grown by `distance`; `None` when
    /// the band misses it.
    pub open spec fn spec_occupied(self, y: int, height: int) -> Option<Span> {
        match self.path.spec_bounds() {
            None => None,
            Some(b) => {
                let top = b.y - self.distance;
                let bottom = b.y + b.height + self.distance;
                if y + height <= top || y >= bottom {
                    None
                } else {
                    Some(
                        Span {
                            start: (b.x - self.distance) as i32,
                            end: (b.x + b.width + self.distance) as i32,
                        },
                    )
                }
            },
        }
    }

    /// A rectangular region: the usual case.
    pub fn rect(rect: Rect, distance: Twips) -> (w: WrapRegion)
        requires
            rect.edges_fit(),
        ensures
            w.path@ == Path::rect_segs(rect),
            w.rule == FillRule::NonZero,
            w.distance == distance,
            w.side == WrapSide::BothSides,
    {
        WrapRegion { path: Path::rect(rect), rule: FillRule::NonZero, distance, side: WrapSide::BothSides }
    }

    /// A polygonal region (`w:wrapPolygon`).
    pub fn polygon(points: &[(Twips, Twips)], distance: Twips) -> (w: WrapRegion)
        ensures
            w.path@ == Path::polygon_segs(points@),
            w.rule == FillRule::NonZero,
            w.distance == distance,
            w.side == WrapSide::BothSides,
    {
        WrapRegion {
            path: Path::polygon(points),
            rule: FillRule::NonZero,
            distance,
            side: WrapSide::BothSides,
        }
    }

    pub fn with_side(self, side: WrapSide) -> (w: WrapRegion)
        ensures
            w == (WrapRegion { side, ..self }),
    {
        let mut s = self;
        s.side = side;
        s
    }

    /// The interval blocked on the band `[y, y + height)`, from the bounding
    /// box of the path (conservative: the box blocks at least the shape).
    pub fn occupied(&self, y: Twips, height: Twips) -> (r: Option<Span>)
        requires
            self.fits(),
        ensures
            r == self.spec_occupied(y as int, height as int),
            r matches Some(s) ==> s.width_fits(),
    {
        let b = match self.path.bounds() {
            Some(b) => b,
            None => {
                return None;
            },
        };
        let d = self.distance as i64;
        let top: i64 = b.y as i64 - d;
        let bottom: i64 = b.y as i64 + b.height as i64 + d;
        if y as i64 + height as i64 <= top || y as i64 >= bottom {
            return None;
        }
        let start = (b.x as i64 - d) as i32;
        let end = (b.x as i64 + b.width as i64 + d) as i32;
        Some(Span::new(start, end))
    }
}

/// The two pieces left of `s` around `occ`, kept according to `side`.
pub open spec fn spec_subtract(s: Span, occ: Span, side: WrapSide) -> Seq<Span> {
    if occ.end <= s.start || occ.start >= s.end {
        seq![s]
    } else {
        let left = Span { start: s.start, end: min_int(occ.start as int, s.end as int) as i32 };
        let right = Span { start: max_int(occ.end as int, s.start as int) as i32, end: s.end };
        match side {
            WrapSide::Left => seq![left],
            WrapSide::Right => seq![right],
            WrapSide::Largest => if left.spec_width() >= right.spec_width() {
                seq![left]
            } else {
                seq![right]
            },
            WrapSide::BothSides => seq![left, right],
            WrapSide::TopAndBottom => seq![],
        }
    }
}

/// The non-empty spans of `v`, in order.
pub open spec fn keep_nonempty(v: Seq<Span>) -> Seq<Span>
    decreases v.len(),
{
    if v.len() == 0 {
        seq![]
    } else if v.last().spec_width() > 0 {
        keep_nonempty(v.drop_last()).push(v.last())
    } else {
        keep_nonempty(v.drop_last())
    }
}

/// Every span minus `occ`, keeping the non-empty pieces, in order.
pub open spec fn subtract_all(spans: Seq<Span>, occ: Span, side: WrapSide) -> Seq<Span>
    decreases spans.len(),
{
    if spans.len() == 0 {
        seq![]
    } else {
        subtract_all(spans.drop_last(), occ, side) + keep_nonempty(
            spec_subtract(spans.last(), occ, side),
        )
    }
}

/// The spans still available after the regions `regions`, in order: a
/// top-and-bottom region on the band empties the line; the others cut the
/// spans; once nothing is left the rest is not consulted.
pub open spec fn avail_from(regions: Seq<WrapRegion>, spans: Seq<Span>, y: int, height: int) -> Seq<
    Span,
>
    decreases regions.len(),
{
    if regions.len() == 0 {
        spans
    } else {
        match regions[0].spec_occupied(y, height) {
            None => avail_from(regions.drop_first(), spans, y, height),
            Some(occ) => if regions[0].side == WrapSide::TopAndBottom {
                seq![]
            } else {
                let next = subtract_all(spans, occ, regions[0].side);
                if next.len() == 0 {
                    next
                } else {
                    avail_from(regions.drop_first(), next, y, height)
                }
            },
        }
    }
}

/// All spans are within `outer` and have representable widths.
pub open spec fn all_within(v: Seq<Span>, outer: Span) -> bool {
    forall|i: int| 0 <= i < v.len() ==> (#[trigger] v[i]).within(outer)
}

/// All spans keep clear of what region `r` blocks on the band.
pub open spec fn clear_of_region(v: Seq<Span>, r: WrapRegion, y: int, height: int) -> bool {
    match r.spec_occupied(y, height) {
        Some(o) => all_clear(v, o),
        None => true,
    }
}

/// All spans keep clear of `occ`.
pub open spec fn all_clear(v: Seq<Span>, occ: Span) -> bool {
    forall|i: int| 0 <= i < v.len() ==> (#[trigger] v[i]).clear_of(occ)
}

proof fn lemma_keep_nonempty(v: Seq<Span>)
    ensures
        forall|i: int|
            0 <= i < keep_nonempty(v).len() ==> exists|j: int|
                0 <= j < v.len() && #[trigger] keep_nonempty(v)[i] == v[j],
        forall|i: int| 0 <= i < keep_nonempty(v).len() ==> (#[trigger] keep_nonempty(v)[i]).spec_width() > 0,
    decreases v.len(),
{
    if v.len() > 0 {
        lemma_keep_nonempty(v.drop_last());
        let k = keep_nonempty(v.drop_last());
        assert forall|i: int| 0 <= i < keep_nonempty(v).len() implies exists|j: int|
            0 <= j < v.len() && #[trigger] keep_nonempty(v)[i] == v[j] by {
            if i < k.len() {
                let j = choose|j: int| 0 <= j < v.drop_last().len() && k[i] == v.drop_last()[j];
                assert(v[j] == v.drop_last()[j]);
            } else {
                assert(keep_nonempty(v)[i] == v[v.len() - 1]);
            }
        }
    }
}

/// Each piece of a subtraction is a sub-span of `s` and keeps clear of `occ`.
proof fn lemma_subtract_piece(s: Span, occ: Span, side: WrapSide, i: int)
    requires
        0 <= i < spec_subtract(s, occ, side).len(),
        !(occ.end <= s.start || occ.start >= s.end),
    ensures
        spec_subtract(s, occ, side)[i].within(s),
        spec_subtract(s, occ, side)[i].clear_of(occ),
{
}

/// Subtracting keeps sub-spans and makes them clear of `occ`; spans already
/// clear of other intervals stay clear of them.
proof fn lemma_subtract_all(
    spans: Seq<Span>,
    occ: Span,
    side: WrapSide,
    outer: Span,
    others: spec_fn(Span) -> bool,
)
    requires
        all_within(spans, outer),
        forall|o: Span| #[trigger] others(o) ==> all_clear(spans, o),
    ensures
        all_within(subtract_all(spans, occ, side), outer),
        all_clear(subtract_all(spans, occ, side), occ),
        forall|o: Span| #[trigger] others(o) ==> all_clear(subtract_all(spans, occ, side), o),
    decreases spans.len(),
{
    if spans.len() > 0 {
        let init = spans.drop_last();
        assert forall|o: Span| #[trigger] others(o) implies all_clear(init, o) by {
            assert forall|i: int| 0 <= i < init.len() implies (#[trigger] init[i]).clear_of(o) by {
                assert(init[i] == spans[i]);
                assert(all_clear(spans, o));
            }
        }
        assert forall|i: int| 0 <= i < init.len() implies (#[trigger] init[i]).within(outer) by {
            assert(init[i] == spans[i]);
        }
        lemma_subtract_all(init, occ, side, outer, others);
        let s = spans.last();
        let pieces = spec_subtract(s, occ, side);
        let kept = keep_nonempty(pieces);
        lemma_keep_nonempty(pieces);
        let a = subtract_all(init, occ, side);
        let r = subtract_all(spans, occ, side);
        assert(r == a + kept);
        assert(s == spans[spans.len() - 1]);
        assert forall|i: int| 0 <= i < r.len() implies (#[trigger] r[i]).within(outer) && r[i].clear_of(occ) by {
            if i < a.len() {
                assert(r[i] == a[i]);
            } else {
                assert(r[i] == kept[i - a.len()]);
                let j = choose|j: int| 0 <= j < pieces.len() && #[trigger] kept[i - a.len()] == pieces[j];
                if !(occ.end <= s.start || occ.start >= s.end) {
                    lemma_subtract_piece(s, occ, side, j);
                }
            }
        }
        assert forall|o: Span| #[trigger] others(o) implies all_clear(r, o) by {
            assert forall|i: int| 0 <= i < r.len() implies (#[trigger] r[i]).clear_of(o) by {
                if i < a.len() {
                    assert(r[i] == a[i]);
                    assert(all_clear(a, o));
                } else {
                    assert(r[i] == kept[i - a.len()]);
                    let j = choose|j: int| 0 <= j < pieces.len() && #[trigger] kept[i - a.len()] == pieces[j];
                    assert(all_clear(spans, o));
                    assert(s.clear_of(o));
                    if !(occ.end <= s.start || occ.start >= s.end) {
                        lemma_subtract_piece(s, occ, side, j);
                    }
                }
            }
        }
    }
}

/// A set of exclusion regions, queried by the line breaker for each line.
#[derive(Debug, Default, PartialEq)]
pub struct WrapContext {
    regions: Vec<WrapRegion>,
}

impl View for WrapContext {
    type V = Seq<WrapRegion>;

    closed spec fn view(&self) -> Seq<WrapRegion> {
        self.regions@
    }
}

impl WrapContext {
    /// Every region's geometry can be represented.
    #[verifier::type_invariant]
    pub closed spec fn wf(self) -> bool {
        forall|i: int| 0 <= i < self.regions@.len() ==> (#[trigger] self.regions@[i]).fits()
    }

    /// The spans available on the band `[y, y + height)` within `full`.
    pub open spec fn spec_available(self, full: Span, y: int, height: int) -> Seq<Span> {
        avail_from(self@, seq![full], y, height)
    }

    pub fn new() -> (w: WrapContext)
        ensures
            w@ == Seq::<WrapRegion>::empty(),
    {
        WrapContext { regions: Vec::new() }
    }

    pub fn add(&mut self, r: WrapRegion) -> (out: &mut WrapContext)
        requires
            r.fits(),
        ensures
            out@ == old(self)@.push(r),
            final(self)@ == final(out)@,
    {
        proof {
            use_type_invariant(&*self);
        }
        let mut regions: Vec<WrapRegion> = Vec::new();
        std::mem::swap(&mut regions, &mut self.regions);
        regions.push(r);
        self.regions = regions;
        self
    }

    pub fn is_empty(&self) -> (b: bool)
        ensures
            b == (self@.len() == 0),
    {
        self.regions.len() == 0
    }

    pub fn len(&self) -> (n: usize)
        ensures
            n == self@.len(),
    {
        self.regions.len()
    }

    /// The available spans on the band `[y, y + height)` within `full`.
    /// Several disjoint spans come back when a region splits the line; none
    /// when the line is fully blocked.
    pub fn available(&self, full: Span, y: Twips, height: Twips) -> (out: Vec<Span>)
        requires
            full.width_fits(),
        ensures
            out@ == self.spec_available(full, y as int, height as int),
            all_within(out@, full),
            forall|k: int| 0 <= k < self@.len() ==> clear_of_region(out@, #[trigger] self@[k], y as int, height as int),
    {
        proof {
            use_type_invariant(self);
        }
        let mut spans: Vec<Span> = Vec::new();
        spans.push(full);
        let mut i: usize = 0;
        assert(self@.subrange(0, self@.len() as int) =~= self@);
        while i < self.regions.len()
            invariant
                0 <= i <= self@.len(),
                self.wf(),
                full.width_fits(),
                avail_from(self@.subrange(i as int, self@.len() as int), spans@, y as int, height as int)
                    == self.spec_available(full, y as int, height as int),
                all_within(spans@, full),
                forall|k: int| 0 <= k < i ==> clear_of_region(spans@, #[trigger] self@[k], y as int, height as int),
            decreases self@.len() - i,
        {
            let ghost rest = self@.subrange(i as int, self@.len() as int);
            assert(rest[0] == self@[i as int]);
            assert(rest.drop_first() =~= self@.subrange(i + 1, self@.len() as int));
            let r = &self.regions[i];
            assert(self.regions@[i as int].fits());
            let occ = match r.occupied(y, height) {
                Some(o) => o,
                None => {
                    i = i + 1;
                    continue;
                },
            };
            if matches!(r.side, WrapSide::TopAndBottom) {
                return Vec::new();
            }
            let ghost before = spans@;
            let mut next: Vec<Span> = Vec::new();
            let mut j: usize = 0;
            while j < spans.len()
                invariant
                    0 <= j <= spans@.len(),
                    spans@ == before,
                    all_within(before, full),
                    full.width_fits(),
                    next@ == subtract_all(before.take(j as int), occ, r.side),
                decreases spans@.len() - j,
            {
                let s = spans[j];
                assert(before.take(j + 1).drop_last() =~= before.take(j as int));
                assert(s.within(full));
                let pieces = Self::subtract(s, occ, r.side);
                let mut k: usize = 0;
                while k < pieces.len()
                    invariant
                        0 <= k <= pieces@.len(),
                        pieces@ == spec_subtract(s, occ, r.side),
                        forall|m: int| 0 <= m < pieces@.len() ==> (#[trigger] pieces@[m]).width_fits(),
                        next@ == subtract_all(before.take(j as int), occ, r.side) + keep_nonempty(
                            pieces@.take(k as int),
                        ),
                    decreases pieces@.len() - k,
                {
                    let t = pieces[k];
                    assert(pieces@.take(k + 1).drop_last() =~= pieces@.take(k as int));
                    assert(pieces@.take(k + 1).last() == t);
                    if !t.is_empty() {
                        next.push(t);
                    }
                    proof {
                        assert(next@ =~= subtract_all(before.take(j as int), occ, r.side)
                            + keep_nonempty(pieces@.take(k + 1)));
                    }
                    k = k + 1;
                }
                assert(pieces@.take(pieces@.len() as int) =~= pieces@);
                assert(before.take(j + 1).last() == s);
                j = j + 1;
            }
            assert(before.take(before.len() as int) =~= before);
            proof {
                let others = |o: Span| exists|k: int| 0 <= k < i && #[trigger] self@[k].spec_occupied(y as int, height as int) == Some(o);
                assert forall|o: Span| #[trigger] others(o) implies all_clear(before, o) by {
                    let k = choose|k: int| 0 <= k < i && #[trigger] self@[k].spec_occupied(y as int, height as int) == Some(o);
                }
                lemma_subtract_all(before, occ, r.side, full, others);
                assert forall|k: int| 0 <= k < i + 1 implies clear_of_region(next@, #[trigger] self@[k], y as int, height as int) by {
                    if k < i {
                        if let Some(o) = self@[k].spec_occupied(y as int, height as int) {
                            assert(others(o));
                        }
                    }
                }
            }
            spans = next;
            if spans.len() == 0 {
                proof {
                    assert forall|k: int| 0 <= k < self@.len() implies clear_of_region(spans@, #[trigger] self@[k], y as int, height as int) by {}
                }
                return spans;
            }
            i = i + 1;
        }
        assert(self@.subrange(self@.len() as int, self@.len() as int) =~= Seq::<WrapRegion>::empty());
        spans
    }

    /// `s` minus `occ`, keeping the side that `side` asks for.
    pub fn subtract(s: Span, occ: Span, side: WrapSide) -> (out: Vec<Span>)
        requires
            s.width_fits(),
        ensures
            out@ == spec_subtract(s, occ, side),
            forall|m: int| 0 <= m < out@.len() ==> (#[trigger] out@[m]).width_fits(),
    {
        if occ.end <= s.start || occ.start >= s.end {
            return vec![s];
        }
        let left_end = if occ.start <= s.end {
            occ.start
        } else {
            s.end
        };
        let right_start = if occ.end >= s.start {
            occ.end
        } else {
            s.start
        };
        let left = Span::new(s.start, left_end);
        let right = Span::new(right_start, s.end);
        match side {
            WrapSide::Left => vec![left],
            WrapSide::Right => vec![right],
            WrapSide::Largest => {
                if left.width() >= right.width() {
                    vec![left]
                } else {
                    vec![right]
                }
            },
            WrapSide::BothSides => vec![left, right],
            WrapSide::TopAndBottom => Vec::new(),
        }
    }
}

} // verus!
