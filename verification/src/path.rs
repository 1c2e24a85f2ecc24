//! Vector paths: the single drawing primitive. Lines and cubic Béziers
//! only; coordinates in twips.
use vstd::prelude::*;
use crate::geom::{Rect, Twips, fits_twips, max_int, min_int};

verus! {

/// One path segment.
#[derive(Debug, Clone, Copy, PartialEq, Eq)]
pub enum PathSeg {
    MoveTo { x: Twips, y: Twips },
    LineTo { x: Twips, y: Twips },
    /// Cubic Bézier: two control points and the end point.
    CurveTo { c1x: Twips, c1y: Twips, c2x: Twips, c2y: Twips, x: Twips, y: Twips },
    /// Closes the current subpath.
    Close,
}

/// Fill rule.
#[derive(Debug, Clone, Copy, PartialEq, Eq, Default)]
pub enum FillRule {
    /// Non-zero winding.
    #[default]
    NonZero,
    /// Even-odd.
    EvenOdd,
}

/// Line cap.
#[derive(Debug, Clone, Copy, PartialEq, Eq, Default)]
pub enum LineCap {
    #[default]
    Butt,
    Round,
    Square,
}

/// Line join.
#[derive(Debug, Clone, Copy, PartialEq, Eq, Default)]
pub enum LineJoin {
    #[default]
    Miter,
    Round,
    Bevel,
}

/// A path: a sequence of segments, possibly several subpaths.
#[derive(Debug, Clone, Default, PartialEq, Eq)]
pub struct Path {
    pub segs: Vec<PathSeg>,
}

/// The points a segment contributes to the bounding box: control points
/// count, so curves give a box that is too large rather than too small.
pub open spec fn seg_points(s: PathSeg) -> Seq<(Twips, Twips)> {
    match s {
        PathSeg::MoveTo { x, y } => seq![(x, y)],
        PathSeg::LineTo { x, y } => seq![(x, y)],
        PathSeg::CurveTo { c1x, c1y, c2x, c2y, x, y } => seq![(c1x, c1y), (c2x, c2y), (x, y)],
        PathSeg::Close => seq![],
    }
}

/// All bounding points of the segments, in order.
pub open spec fn path_points(segs: Seq<PathSeg>) -> Seq<(Twips, Twips)>
    decreases segs.len(),
{
    if segs.len() == 0 {
        seq![]
    } else {
        path_points(segs.drop_last()) + seg_points(segs.last())
    }
}

pub open spec fn pts_min_x(p: Seq<(Twips, Twips)>) -> int
    decreases p.len(),
{
    if p.len() == 0 {
        i32::MAX as int
    } else {
        min_int(pts_min_x(p.drop_last()), p.last().0 as int)
    }
}

pub open spec fn pts_min_y(p: Seq<(Twips, Twips)>) -> int
    decreases p.len(),
{
    if p.len() == 0 {
        i32::MAX as int
    } else {
        min_int(pts_min_y(p.drop_last()), p.last().1 as int)
    }
}

pub open spec fn pts_max_x(p: Seq<(Twips, Twips)>) -> int
    decreases p.len(),
{
    if p.len() == 0 {
        i32::MIN as int
    } else {
        max_int(pts_max_x(p.drop_last()), p.last().0 as int)
    }
}

pub open spec fn pts_max_y(p: Seq<(Twips, Twips)>) -> int
    decreases p.len(),
{
    if p.len() == 0 {
        i32::MIN as int
    } else {
        max_int(pts_max_y(p.drop_last()), p.last().1 as int)
    }
}

/// The points of a line-only path: move and line points; `None` when the
/// path has a curve.
pub open spec fn line_points(segs: Seq<PathSeg>) -> Option<Seq<(Twips, Twips)>>
    decreases segs.len(),
{
    if segs.len() == 0 {
        Some(seq![])
    } else {
        match line_points(segs.drop_last()) {
            None => None,
            Some(p) => match segs.last() {
                PathSeg::MoveTo { x, y } => Some(p.push((x, y))),
                PathSeg::LineTo { x, y } => Some(p.push((x, y))),
                PathSeg::Close => Some(p),
                PathSeg::CurveTo { .. } => None,
            },
        }
    }
}

proof fn lemma_min_max_bounds(p: Seq<(Twips, Twips)>, i: int)
    requires
        0 <= i < p.len(),
    ensures
        pts_min_x(p) <= p[i].0 <= pts_max_x(p),
        pts_min_y(p) <= p[i].1 <= pts_max_y(p),
    decreases p.len(),
{
    if i < p.len() - 1 {
        lemma_min_max_bounds(p.drop_last(), i);
    }
}

proof fn lemma_min_max_ranges(p: Seq<(Twips, Twips)>)
    ensures
        i32::MIN <= pts_min_x(p) <= i32::MAX,
        i32::MIN <= pts_min_y(p) <= i32::MAX,
        i32::MIN <= pts_max_x(p) <= i32::MAX,
        i32::MIN <= pts_max_y(p) <= i32::MAX,
        p.len() > 0 ==> pts_min_x(p) <= pts_max_x(p) && pts_min_y(p) <= pts_max_y(p),
    decreases p.len(),
{
    if p.len() > 0 {
        lemma_min_max_ranges(p.drop_last());
        lemma_min_max_bounds(p, p.len() - 1);
    }
}

impl View for Path {
    type V = Seq<PathSeg>;

    open spec fn view(&self) -> Seq<PathSeg> {
        self.segs@
    }
}

impl Path {
    /// The bounding box can be represented: the path has no points, or the
    /// box's width and height fit.
    pub open spec fn bounds_fit(self) -> bool {
        let p = path_points(self@);
        p.len() == 0 || (fits_twips(pts_max_x(p) - pts_min_x(p)) && fits_twips(pts_max_y(p) - pts_min_y(p)))
    }

    /// The axis-aligned bounding box of the bounding points; `None` for a
    /// path without points.
    pub open spec fn spec_bounds(self) -> Option<Rect> {
        let p = path_points(self@);
        if p.len() == 0 {
            None
        } else {
            Some(
                Rect {
                    x: pts_min_x(p) as i32,
                    y: pts_min_y(p) as i32,
                    width: (pts_max_x(p) - pts_min_x(p)) as i32,
                    height: (pts_max_y(p) - pts_min_y(p)) as i32,
                },
            )
        }
    }

    /// Four points that go round a rectangle: each edge keeps one
    /// coordinate, and the edges alternate between horizontal and vertical.
    pub open spec fn goes_round(p: Seq<(Twips, Twips)>) -> bool {
        ||| (p[0].1 == p[1].1 && p[1].0 == p[2].0 && p[2].1 == p[3].1 && p[3].0 == p[0].0)
        ||| (p[0].0 == p[1].0 && p[1].1 == p[2].1 && p[2].0 == p[3].0 && p[3].1 == p[0].1)
    }

    /// The rectangle, when the path is exactly four move/line points on the
    /// corners of its bounding box that go round it (close segments aside).
    pub open spec fn spec_as_rect(self) -> Option<Rect> {
        match line_points(self@) {
            None => None,
            Some(p) => if p.len() != 4 {
                None
            } else {
                match self.spec_bounds() {
                    None => None,
                    Some(b) => if forall|i: int|
                        0 <= i < 4 ==> (#[trigger] p[i].0 == b.x || p[i].0 == b.x + b.width) && (
                        p[i].1 == b.y || p[i].1 == b.y + b.height) && Self::goes_round(p) {
                        Some(b)
                    } else {
                        None
                    },
                }
            },
        }
    }

    /// The segments of `Path::rect`.
    pub open spec fn rect_segs(r: Rect) -> Seq<PathSeg> {
        seq![
            PathSeg::MoveTo { x: r.x, y: r.y },
            PathSeg::LineTo { x: (r.x + r.width) as i32, y: r.y },
            PathSeg::LineTo { x: (r.x + r.width) as i32, y: (r.y + r.height) as i32 },
            PathSeg::LineTo { x: r.x, y: (r.y + r.height) as i32 },
            PathSeg::Close,
        ]
    }

    /// The segments of `Path::polygon`: move to the first point, line to each
    /// following one, close; nothing for no points.
    pub open spec fn polygon_segs(points: Seq<(Twips, Twips)>) -> Seq<PathSeg> {
        if points.len() == 0 {
            seq![]
        } else {
            seq![PathSeg::MoveTo { x: points[0].0, y: points[0].1 }] + Seq::new(
                (points.len() - 1) as nat,
                |i: int| PathSeg::LineTo { x: points[i + 1].0, y: points[i + 1].1 },
            ) + seq![PathSeg::Close]
        }
    }

    pub fn new() -> (p: Path)
        ensures
            p@ == Seq::<PathSeg>::empty(),
    {
        Path { segs: Vec::new() }
    }

    pub fn move_to(&mut self, x: Twips, y: Twips) -> (r: &mut Path)
        ensures
            r@ == old(self)@.push(PathSeg::MoveTo { x, y }),
            final(self)@ == final(r)@,
    {
        self.segs.push(PathSeg::MoveTo { x, y });
        self
    }

    pub fn line_to(&mut self, x: Twips, y: Twips) -> (r: &mut Path)
        ensures
            r@ == old(self)@.push(PathSeg::LineTo { x, y }),
            final(self)@ == final(r)@,
    {
        self.segs.push(PathSeg::LineTo { x, y });
        self
    }

    pub fn curve_to(
        &mut self,
        c1x: Twips,
        c1y: Twips,
        c2x: Twips,
        c2y: Twips,
        x: Twips,
        y: Twips,
    ) -> (r: &mut Path)
        ensures
            r@ == old(self)@.push(PathSeg::CurveTo { c1x, c1y, c2x, c2y, x, y }),
            final(self)@ == final(r)@,
    {
        self.segs.push(PathSeg::CurveTo { c1x, c1y, c2x, c2y, x, y });
        self
    }

    pub fn close(&mut self) -> (r: &mut Path)
        ensures
            r@ == old(self)@.push(PathSeg::Close),
            final(self)@ == final(r)@,
    {
        self.segs.push(PathSeg::Close);
        self
    }

    /// A rectangle: move to the top-left corner, line round the other three
    /// corners clockwise, close.
    pub fn rect(r: Rect) -> (p: Path)
        requires
            r.edges_fit(),
        ensures
            p@ == Self::rect_segs(r),
    {
        let mut p = Path::new();
        p.move_to(r.x, r.y);
        p.line_to(r.x + r.width, r.y);
        p.line_to(r.x + r.width, r.y + r.height);
        p.line_to(r.x, r.y + r.height);
        p.close();
        assert(p@ =~= Self::rect_segs(r));
        p
    }

    /// A polygon (the exclusion shape of `w:wrapPolygon`).
    pub fn polygon(points: &[(Twips, Twips)]) -> (p: Path)
        ensures
            p@ == Self::polygon_segs(points@),
    {
        let mut p = Path::new();
        if points.len() == 0 {
            return p;
        }
        let (x0, y0) = points[0];
        p.move_to(x0, y0);
        let mut i: usize = 1;
        while i < points.len()
            invariant
                1 <= i <= points@.len(),
                p@ == seq![PathSeg::MoveTo { x: points@[0].0, y: points@[0].1 }] + Seq::new(
                    (i - 1) as nat,
                    |j: int| PathSeg::LineTo { x: points@[j + 1].0, y: points@[j + 1].1 },
                ),
            decreases points@.len() - i,
        {
            let (x, y) = points[i];
            p.line_to(x, y);
            assert(p@ =~= seq![PathSeg::MoveTo { x: points@[0].0, y: points@[0].1 }] + Seq::new(
                i as nat,
                |j: int| PathSeg::LineTo { x: points@[j + 1].0, y: points@[j + 1].1 },
            ));
            i = i + 1;
        }
        p.close();
        assert(p@ =~= Self::polygon_segs(points@));
        p
    }

    pub fn is_empty(&self) -> (b: bool)
        ensures
            b == (self@.len() == 0),
    {
        self.segs.len() == 0
    }

    /// The axis-aligned bounding box; `None` for a path without points.
    /// Curves count their control points, so the box errs on the large side,
    /// which is the safe side for wrapping.
    pub fn bounds(&self) -> (r: Option<Rect>)
        requires
            self.bounds_fit(),
        ensures
            r == self.spec_bounds(),
            r matches Some(b) ==> forall|i: int|
                0 <= i < path_points(self@).len() ==> b.x <= (#[trigger] path_points(self@)[i]).0
                    <= b.x + b.width && b.y <= path_points(self@)[i].1 <= b.y + b.height,
    {
        let mut min_x: i32 = i32::MAX;
        let mut min_y: i32 = i32::MAX;
        let mut max_x: i32 = i32::MIN;
        let mut max_y: i32 = i32::MIN;
        let mut seen = false;
        let mut i: usize = 0;
        let ghost pts: Seq<(Twips, Twips)> = seq![];
        while i < self.segs.len()
            invariant
                0 <= i <= self@.len(),
                pts == path_points(self@.take(i as int)),
                min_x == pts_min_x(pts),
                min_y == pts_min_y(pts),
                max_x == pts_max_x(pts),
                max_y == pts_max_y(pts),
                seen == (pts.len() > 0),
            decreases self@.len() - i,
        {
            let seg = self.segs[i];
            proof {
                assert(self@.take(i + 1).drop_last() =~= self@.take(i as int));
            }
            let ghost before = pts;
            match seg {
                PathSeg::MoveTo { x, y } | PathSeg::LineTo { x, y } => {
                    seen = true;
                    if x < min_x { min_x = x; }
                    if y < min_y { min_y = y; }
                    if x > max_x { max_x = x; }
                    if y > max_y { max_y = y; }
                    proof {
                        pts = before + seq![(x, y)];
                        assert(pts.drop_last() =~= before);
                    }
                },
                PathSeg::CurveTo { c1x, c1y, c2x, c2y, x, y } => {
                    seen = true;
                    if c1x < min_x { min_x = c1x; }
                    if c1y < min_y { min_y = c1y; }
                    if c1x > max_x { max_x = c1x; }
                    if c1y > max_y { max_y = c1y; }
                    if c2x < min_x { min_x = c2x; }
                    if c2y < min_y { min_y = c2y; }
                    if c2x > max_x { max_x = c2x; }
                    if c2y > max_y { max_y = c2y; }
                    if x < min_x { min_x = x; }
                    if y < min_y { min_y = y; }
                    if x > max_x { max_x = x; }
                    if y > max_y { max_y = y; }
                    proof {
                        let a = before + seq![(c1x, c1y)];
                        let b = a + seq![(c2x, c2y)];
                        pts = before + seq![(c1x, c1y), (c2x, c2y), (x, y)];
                        assert(a.drop_last() =~= before);
                        assert(b.drop_last() =~= a);
                        assert(pts.drop_last() =~= b);
                        assert(pts_min_x(a) == min_int(pts_min_x(before), c1x as int));
                        assert(pts_min_x(b) == min_int(pts_min_x(a), c2x as int));
                        assert(pts_min_x(pts) == min_int(pts_min_x(b), x as int));
                        assert(pts_min_y(a) == min_int(pts_min_y(before), c1y as int));
                        assert(pts_min_y(b) == min_int(pts_min_y(a), c2y as int));
                        assert(pts_min_y(pts) == min_int(pts_min_y(b), y as int));
                        assert(pts_max_x(a) == max_int(pts_max_x(before), c1x as int));
                        assert(pts_max_x(b) == max_int(pts_max_x(a), c2x as int));
                        assert(pts_max_x(pts) == max_int(pts_max_x(b), x as int));
                        assert(pts_max_y(a) == max_int(pts_max_y(before), c1y as int));
                        assert(pts_max_y(b) == max_int(pts_max_y(a), c2y as int));
                        assert(pts_max_y(pts) == max_int(pts_max_y(b), y as int));
                    }
                },
                PathSeg::Close => {
                    proof {
                        assert(before + seq![] =~= before);
                    }
                },
            }
            i = i + 1;
        }
        proof {
            assert(self@.take(self@.len() as int) =~= self@);
            lemma_min_max_ranges(pts);
            assert forall|k: int| 0 <= k < pts.len() implies min_x <= (#[trigger] pts[k]).0
                <= max_x && min_y <= pts[k].1 <= max_y by {
                lemma_min_max_bounds(pts, k);
            }
        }
        if seen {
            Some(Rect::new(min_x, min_y, max_x - min_x, max_y - min_y))
        } else {
            None
        }
    }

    /// Recognises the special case of one axis-aligned rectangle (shading,
    /// borders and underlines), so that backends can take a fast path.
    /// Only a path of four move/line points has its bounding box computed,
    /// so only such a path needs the box to be representable.
    pub fn as_rect(&self) -> (r: Option<Rect>)
        requires
            line_points(self@) matches Some(p) && p.len() == 4 ==> self.bounds_fit(),
        ensures
            r == self.spec_as_rect(),
    {
        let mut pts: Vec<(Twips, Twips)> = Vec::new();
        let mut i: usize = 0;
        while i < self.segs.len()
            invariant
                0 <= i <= self@.len(),
                line_points(self@.take(i as int)) == Some(pts@),
            decreases self@.len() - i,
        {
            proof {
                assert(self@.take(i + 1).drop_last() =~= self@.take(i as int));
            }
            match self.segs[i] {
                PathSeg::MoveTo { x, y } | PathSeg::LineTo { x, y } => pts.push((x, y)),
                PathSeg::Close => {},
                PathSeg::CurveTo { .. } => {
                    proof {
                        lemma_line_points_none_extends(self@, i + 1);
                    }
                    return None;
                },
            }
            i = i + 1;
        }
        assert(self@.take(self@.len() as int) =~= self@);
        if pts.len() != 4 {
            return None;
        }
        let b = match self.bounds() {
            Some(b) => b,
            None => {
                return None;
            },
        };
        proof {
            lemma_min_max_ranges(path_points(self@));
        }
        let x1 = (b.x as i64 + b.width as i64) as i32;
        let y1 = (b.y as i64 + b.height as i64) as i32;
        let mut ok = true;
        let mut k: usize = 0;
        while k < 4
            invariant
                pts@.len() == 4,
                0 <= k <= 4,
                x1 == b.x + b.width,
                y1 == b.y + b.height,
                ok == forall|j: int|
                    0 <= j < k ==> (#[trigger] pts@[j].0 == b.x || pts@[j].0 == x1) && (pts@[j].1
                        == b.y || pts@[j].1 == y1),
            decreases 4 - k,
        {
            let (x, y) = pts[k];
            if !((x == b.x || x == x1) && (y == b.y || y == y1)) {
                ok = false;
            }
            k = k + 1;
        }
        let (x0, y0) = pts[0];
        let (xa, ya) = pts[1];
        let (xb, yb) = pts[2];
        let (xc, yc) = pts[3];
        let round = (y0 == ya && xa == xb && yb == yc && xc == x0) || (x0 == xa && ya == yb && xb == xc
            && yc == y0);
        if ok && round {
            Some(b)
        } else {
            None
        }
    }
}

proof fn lemma_line_points_none_extends(segs: Seq<PathSeg>, n: int)
    requires
        0 < n <= segs.len(),
        segs[n - 1] is CurveTo,
    ensures
        line_points(segs) is None,
    decreases segs.len() - n,
{
    if n == segs.len() {
        assert(segs.take(n) =~= segs);
        assert(segs.drop_last().take(n - 1) =~= segs.drop_last());
    } else {
        lemma_line_points_none_extends(segs.drop_last(), n);
    }
}

} // verus!

verus! {

/// The bounding box of a rectangle's path is the rectangle.
pub proof fn lemma_rect_path_bounds(p: Path, r: Rect)
    requires
        p@ == Path::rect_segs(r),
        r.width >= 0,
        r.height >= 0,
        r.edges_fit(),
    ensures
        p.bounds_fit(),
        p.spec_bounds() == Some(r),
{
    let s = Path::rect_segs(r);
    let x1 = (r.x + r.width) as i32;
    let y1 = (r.y + r.height) as i32;
    let s1 = s.take(1);
    let s2 = s.take(2);
    let s3 = s.take(3);
    let s4 = s.take(4);
    assert(s1.drop_last() =~= Seq::<PathSeg>::empty());
    assert(s2.drop_last() =~= s1);
    assert(s3.drop_last() =~= s2);
    assert(s4.drop_last() =~= s3);
    assert(s.drop_last() =~= s4);
    let p1 = seq![(r.x, r.y)];
    let p2 = p1.push((x1, r.y));
    let p3 = p2.push((x1, y1));
    let p4 = p3.push((r.x, y1));
    assert(s1.last() == PathSeg::MoveTo { x: r.x, y: r.y });
    assert(path_points(Seq::<PathSeg>::empty()) =~= Seq::<(Twips, Twips)>::empty());
    assert(path_points(s1) =~= Seq::<(Twips, Twips)>::empty() + p1);
    assert(path_points(s1) =~= p1);
    assert(path_points(s2) =~= p2);
    assert(path_points(s3) =~= p3);
    assert(path_points(s4) =~= p4);
    assert(path_points(s) =~= p4);
    assert(p1.drop_last() =~= Seq::<(Twips, Twips)>::empty());
    assert(p2.drop_last() =~= p1);
    assert(p3.drop_last() =~= p2);
    assert(p4.drop_last() =~= p3);
    assert(p1.last() == (r.x, r.y));
    assert(pts_min_x(Seq::<(Twips, Twips)>::empty()) == i32::MAX);
    assert(pts_max_x(Seq::<(Twips, Twips)>::empty()) == i32::MIN);
    assert(pts_min_y(Seq::<(Twips, Twips)>::empty()) == i32::MAX);
    assert(pts_max_y(Seq::<(Twips, Twips)>::empty()) == i32::MIN);
    assert(pts_min_x(p1) == r.x);
    assert(pts_min_x(p2) == r.x);
    assert(pts_min_x(p3) == r.x);
    assert(pts_min_x(p4) == r.x);
    assert(pts_max_x(p1) == r.x);
    assert(pts_max_x(p2) == x1);
    assert(pts_max_x(p3) == x1);
    assert(pts_min_y(p1) == r.y);
    assert(pts_min_y(p2) == r.y);
    assert(pts_min_y(p3) == r.y);
    assert(pts_max_y(p1) == r.y);
    assert(pts_max_y(p2) == r.y);
    assert(pts_max_y(p3) == y1);
    assert(pts_max_x(p4) == x1);
    assert(pts_min_y(p4) == r.y);
    assert(pts_max_y(p4) == y1);
}


/// A rectangle's path is recognised as that rectangle.
pub proof fn lemma_rect_path_as_rect(p: Path, r: Rect)
    requires
        p@ == Path::rect_segs(r),
        r.width >= 0,
        r.height >= 0,
        r.edges_fit(),
    ensures
        p.spec_as_rect() == Some(r),
{
    lemma_rect_path_bounds(p, r);
    let s = Path::rect_segs(r);
    let x1 = (r.x + r.width) as i32;
    let y1 = (r.y + r.height) as i32;
    let s1 = s.take(1);
    let s2 = s.take(2);
    let s3 = s.take(3);
    let s4 = s.take(4);
    assert(s1.drop_last() =~= Seq::<PathSeg>::empty());
    assert(s2.drop_last() =~= s1);
    assert(s3.drop_last() =~= s2);
    assert(s4.drop_last() =~= s3);
    assert(s.drop_last() =~= s4);
    let p1 = seq![(r.x, r.y)];
    let p2 = p1.push((x1, r.y));
    let p3 = p2.push((x1, y1));
    let p4 = p3.push((r.x, y1));
    assert(line_points(Seq::<PathSeg>::empty()) == Some(Seq::<(Twips, Twips)>::empty()));
    assert(Seq::<(Twips, Twips)>::empty().push((r.x, r.y)) =~= p1);
    assert(line_points(s1) == Some(p1));
    assert(line_points(s2) == Some(p2));
    assert(line_points(s3) == Some(p3));
    assert(line_points(s4) == Some(p4));
    assert(line_points(s) == Some(p4));
    assert(Path::goes_round(p4));
}

} // verus!
