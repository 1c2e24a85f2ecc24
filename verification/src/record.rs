//! Pages, lines and glyphs as the comparator reads them: one record per
//! line however many commands the line was painted with.
use vstd::prelude::*;
use crate::geom::{max_int, min_int, Twips};
use crate::oracle::{LineTerminator, SourceRange};
use crate::paint::{DrawCmd, PaintList, PaintPage, PositionedGlyph};

verus! {

/// A glyph as compared: its origin, advance, face and source characters.
#[derive(Debug, Clone, PartialEq)]
pub struct GlyphRecord {
    /// Pen position, twips.
    pub origin_x: Twips,
    pub origin_y: Twips,
    /// Pen y in fine units (1/7200 inch): Word's baselines sit on a grid
    /// finer than twips.
    pub origin_y_fine: i64,
    /// Advance, twips.
    pub advance_x: Twips,
    pub advance_y: Twips,
    pub face: String,
    pub glyph_id: u32,
    /// Size in half points.
    pub size_half_points: u32,
    /// The source characters of the glyph; `None` where it has none (a
    /// list label).
    pub source: Option<SourceRange>,
}

/// A line as compared.
#[derive(Debug, Clone, PartialEq, Default)]
pub struct LineRecord {
    /// The glyphs in reading order: pairing relies on this order.
    pub glyphs: Vec<GlyphRecord>,
    /// The source characters the line covers.
    pub source: Option<SourceRange>,
    pub terminator: LineTerminator,
    /// The line box, for diagnosis only.
    pub box_top: Twips,
    pub box_height: Twips,
}

/// A page as compared.
#[derive(Debug, Clone, PartialEq)]
pub struct PageRecord {
    /// Page number from 0.
    pub index: usize,
    /// Page size, twips.
    pub width: Twips,
    pub height: Twips,
    pub lines: Vec<LineRecord>,
}

/// A document as compared: the comparator's input.
#[derive(Debug, Clone, PartialEq, Default)]
pub struct LayoutRecord {
    pub pages: Vec<PageRecord>,
    /// Glyphs that belong to no line.
    pub unassigned_glyphs: usize,
}

/// The record of a positioned glyph: the same position, advance, face,
/// id, size and source.
pub open spec fn spec_glyph_record(g: PositionedGlyph) -> GlyphRecord {
    GlyphRecord {
        origin_x: g.x,
        origin_y: g.y,
        origin_y_fine: g.y_fine,
        advance_x: g.advance_x,
        advance_y: g.advance_y,
        face: g.face,
        glyph_id: g.glyph_id,
        size_half_points: g.size_half_points,
        source: match g.source {
            Some(s) => Some(SourceRange { start: s.0, end: s.1 }),
            None => None,
        },
    }
}

impl GlyphRecord {
    /// The record of a positioned glyph.
    pub fn from_positioned(g: &PositionedGlyph) -> (r: GlyphRecord)
        ensures
            r == spec_glyph_record(*g),
    {
        GlyphRecord {
            origin_x: g.x,
            origin_y: g.y,
            origin_y_fine: g.y_fine,
            advance_x: g.advance_x,
            advance_y: g.advance_y,
            face: g.face.clone(),
            glyph_id: g.glyph_id,
            size_half_points: g.size_half_points,
            source: match g.source {
                Some((a, b)) => Some(SourceRange::new(a, b)),
                None => None,
            },
        }
    }
}

impl LineRecord {
    pub fn glyph_count(&self) -> (n: usize)
        ensures
            n == self.glyphs@.len(),
    {
        self.glyphs.len()
    }
}

/// The number of glyphs in the lines.
pub open spec fn lines_glyphs(lines: Seq<LineRecord>) -> nat
    decreases lines.len(),
{
    if lines.len() == 0 {
        0
    } else {
        lines_glyphs(lines.drop_last()) + lines.last().glyphs@.len()
    }
}

/// The number of glyphs on the pages.
pub open spec fn pages_glyphs(pages: Seq<PageRecord>) -> nat
    decreases pages.len(),
{
    if pages.len() == 0 {
        0
    } else {
        pages_glyphs(pages.drop_last()) + lines_glyphs(pages.last().lines@)
    }
}

impl PageRecord {
    pub fn line_count(&self) -> (n: usize)
        ensures
            n == self.lines@.len(),
    {
        self.lines.len()
    }

    pub fn glyph_count(&self) -> (n: usize)
        requires
            lines_glyphs(self.lines@) <= usize::MAX,
        ensures
            n == lines_glyphs(self.lines@),
    {
        let mut n: usize = 0;
        let mut i: usize = 0;
        while i < self.lines.len()
            invariant
                0 <= i <= self.lines@.len(),
                n == lines_glyphs(self.lines@.take(i as int)),
                lines_glyphs(self.lines@) <= usize::MAX,
            decreases self.lines@.len() - i,
        {
            proof {
                assert(self.lines@.take(i + 1).drop_last() =~= self.lines@.take(i as int));
                lemma_lines_glyphs_prefix(self.lines@, i + 1);
            }
            n = n + self.lines[i].glyphs.len();
            i = i + 1;
        }
        assert(self.lines@.take(self.lines@.len() as int) =~= self.lines@);
        n
    }
}

proof fn lemma_lines_glyphs_prefix(lines: Seq<LineRecord>, k: int)
    requires
        0 <= k <= lines.len(),
    ensures
        lines_glyphs(lines.take(k)) <= lines_glyphs(lines),
    decreases lines.len(),
{
    if k < lines.len() {
        assert(lines.drop_last().take(k) =~= lines.take(k));
        lemma_lines_glyphs_prefix(lines.drop_last(), k);
    } else {
        assert(lines.take(k) =~= lines);
    }
}

proof fn lemma_pages_glyphs_prefix(pages: Seq<PageRecord>, k: int)
    requires
        0 <= k <= pages.len(),
    ensures
        pages_glyphs(pages.take(k)) <= pages_glyphs(pages),
    decreases pages.len(),
{
    if k < pages.len() {
        assert(pages.drop_last().take(k) =~= pages.take(k));
        lemma_pages_glyphs_prefix(pages.drop_last(), k);
    } else {
        assert(pages.take(k) =~= pages);
    }
}

/// The union of two source ranges; unknown if either is.
pub open spec fn union_range(a: Option<SourceRange>, b: Option<SourceRange>) -> Option<SourceRange> {
    match (a, b) {
        (Some(x), Some(y)) => Some(
            SourceRange {
                start: if x.start <= y.start {
                    x.start
                } else {
                    y.start
                },
                end: if x.end >= y.end {
                    x.end
                } else {
                    y.end
                },
            },
        ),
        _ => None,
    }
}

/// The records of a command's glyphs.
pub open spec fn glyph_records(gs: Seq<PositionedGlyph>) -> Seq<GlyphRecord> {
    gs.map_values(|g: PositionedGlyph| spec_glyph_record(g))
}

/// The lines of a page's commands: consecutive glyph commands with the
/// same line number make one line, whose glyphs are theirs in order,
/// whose source is the union of theirs and whose terminator is the last
/// real (not wrapped) one; other commands are skipped. Each entry also
/// keeps the line number.
pub open spec fn group_lines(cmds: Seq<DrawCmd>) -> Seq<(Seq<GlyphRecord>, Option<SourceRange>, LineTerminator, u32)>
    decreases cmds.len(),
{
    if cmds.len() == 0 {
        seq![]
    } else {
        let prev = group_lines(cmds.drop_last());
        match cmds.last() {
            DrawCmd::DrawGlyphs { glyphs, terminator, source, line, .. } => {
                let gs = glyph_records(glyphs@);
                let src = match source {
                    Some(s) => Some(SourceRange { start: s.0, end: s.1 }),
                    None => None,
                };
                if prev.len() > 0 && prev.last().3 == line {
                    let l = prev.last();
                    prev.update(
                        prev.len() - 1,
                        (
                            l.0 + gs,
                            union_range(l.1, src),
                            if !(terminator is Wrapped) {
                                terminator
                            } else {
                                l.2
                            },
                            line,
                        ),
                    )
                } else {
                    prev.push((gs, src, terminator, line))
                }
            },
            _ => prev,
        }
    }
}

/// A line record is the grouped line, with an empty diagnostic box.
pub open spec fn line_is(l: LineRecord, g: (Seq<GlyphRecord>, Option<SourceRange>, LineTerminator, u32)) -> bool {
    &&& l.glyphs@ == g.0
    &&& l.source == g.1
    &&& l.terminator == g.2
    &&& l.box_top == 0
    &&& l.box_height == 0
}

/// Appends the records of `gs` to `out`.
fn push_glyph_records(out: &mut Vec<GlyphRecord>, gs: &Vec<PositionedGlyph>)
    ensures
        final(out)@ == old(out)@ + glyph_records(gs@),
{
    let ghost start = out@;
    let mut j: usize = 0;
    while j < gs.len()
        invariant
            0 <= j <= gs@.len(),
            out@ == start + glyph_records(gs@.take(j as int)),
        decreases gs@.len() - j,
    {
        out.push(GlyphRecord::from_positioned(&gs[j]));
        proof {
            assert(glyph_records(gs@.take(j + 1)) =~= glyph_records(gs@.take(j as int)).push(
                spec_glyph_record(gs@[j as int]),
            ));
        }
        j = j + 1;
    }
    assert(gs@.take(gs@.len() as int) =~= gs@);
}

/// The record of one painted page.
fn page_record(index: usize, page: &crate::paint::PaintPage) -> (rec: PageRecord)
    ensures
        rec.index == index,
        rec.width == page.width,
        rec.height == page.height,
        rec.lines@.len() == group_lines(page.cmds@).len(),
        forall|i: int| 0 <= i < rec.lines@.len() ==> line_is(#[trigger] rec.lines@[i], group_lines(page.cmds@)[i]),
{
    let mut lines: Vec<LineRecord> = Vec::new();
    let mut current: Option<u32> = None;
    let mut k: usize = 0;
    while k < page.cmds.len()
        invariant
            0 <= k <= page.cmds@.len(),
            lines@.len() == group_lines(page.cmds@.take(k as int)).len(),
            forall|i: int|
                0 <= i < lines@.len() ==> line_is(#[trigger] lines@[i], group_lines(page.cmds@.take(k as int))[i]),
            current == (if lines@.len() > 0 {
                Some(group_lines(page.cmds@.take(k as int)).last().3)
            } else {
                None::<u32>
            }),
        decreases page.cmds@.len() - k,
    {
        let ghost prev = group_lines(page.cmds@.take(k as int));
        proof {
            assert(page.cmds@.take(k + 1).drop_last() =~= page.cmds@.take(k as int));
        }
        match &page.cmds[k] {
            DrawCmd::DrawGlyphs { glyphs, terminator, source, line, .. } => {
                let piece_source = match source {
                    Some((a, b)) => Some(SourceRange::new(*a, *b)),
                    None => None,
                };
                let same = match current {
                    Some(c) => c == *line,
                    None => false,
                };
                if same {
                    // A later command of the same line: merged into its record.
                    let mut last = lines.pop().unwrap();
                    push_glyph_records(&mut last.glyphs, glyphs);
                    last.source = match (last.source, piece_source) {
                        (Some(a), Some(b)) => Some(
                            SourceRange::new(
                                if a.start <= b.start {
                                    a.start
                                } else {
                                    b.start
                                },
                                if a.end >= b.end {
                                    a.end
                                } else {
                                    b.end
                                },
                            ),
                        ),
                        _ => None,
                    };
                    // Only the line's last command carries a real terminator.
                    if !matches!(terminator, LineTerminator::Wrapped) {
                        last.terminator = *terminator;
                    }
                    lines.push(last);
                } else {
                    let mut glyph_recs: Vec<GlyphRecord> = Vec::new();
                    push_glyph_records(&mut glyph_recs, glyphs);
                    lines.push(
                        LineRecord {
                            glyphs: glyph_recs,
                            source: piece_source,
                            terminator: *terminator,
                            box_top: 0,
                            box_height: 0,
                        },
                    );
                    current = Some(*line);
                }
                proof {
                    let now = group_lines(page.cmds@.take(k + 1));
                    assert forall|i: int| 0 <= i < lines@.len() implies line_is(#[trigger] lines@[i], now[i]) by {
                        if i < lines@.len() - 1 {
                            assert(lines@[i] == lines@.drop_last()[i]);
                        }
                    }
                }
            },
            _ => {},
        }
        k = k + 1;
    }
    assert(page.cmds@.take(page.cmds@.len() as int) =~= page.cmds@);
    PageRecord { index, width: page.width, height: page.height, lines }
}

impl LayoutRecord {
    pub fn page_count(&self) -> (n: usize)
        ensures
            n == self.pages@.len(),
    {
        self.pages.len()
    }

    pub fn glyph_count(&self) -> (n: usize)
        requires
            pages_glyphs(self.pages@) <= usize::MAX,
        ensures
            n == pages_glyphs(self.pages@),
    {
        let mut n: usize = 0;
        let mut i: usize = 0;
        while i < self.pages.len()
            invariant
                0 <= i <= self.pages@.len(),
                n == pages_glyphs(self.pages@.take(i as int)),
                pages_glyphs(self.pages@) <= usize::MAX,
            decreases self.pages@.len() - i,
        {
            proof {
                assert(self.pages@.take(i + 1).drop_last() =~= self.pages@.take(i as int));
                lemma_pages_glyphs_prefix(self.pages@, i + 1);
            }
            n = n + self.pages[i].glyph_count();
            i = i + 1;
        }
        assert(self.pages@.take(self.pages@.len() as int) =~= self.pages@);
        n
    }

    /// The records of painted pages: one line record per line, not per
    /// command, so that a line split into several runs stays one line.
    pub fn from_paint(list: &PaintList) -> (out: LayoutRecord)
        ensures
            out.unassigned_glyphs == 0,
            out.pages@.len() == list.pages@.len(),
            forall|p: int|
                0 <= p < out.pages@.len() ==> {
                    let rec = #[trigger] out.pages@[p];
                    let cmds = list.pages@[p].cmds@;
                    &&& rec.index == p
                    &&& rec.width == list.pages@[p].width
                    &&& rec.height == list.pages@[p].height
                    &&& rec.lines@.len() == group_lines(cmds).len()
                    &&& forall|i: int| 0 <= i < rec.lines@.len() ==> line_is(#[trigger] rec.lines@[i], group_lines(cmds)[i])
                },
    {
        let mut pages: Vec<PageRecord> = Vec::new();
        let mut p: usize = 0;
        while p < list.pages.len()
            invariant
                0 <= p <= list.pages@.len(),
                pages@.len() == p,
                forall|q: int|
                    0 <= q < p ==> {
                        let rec = #[trigger] pages@[q];
                        let cmds = list.pages@[q].cmds@;
                        &&& rec.index == q
                        &&& rec.width == list.pages@[q].width
                        &&& rec.height == list.pages@[q].height
                        &&& rec.lines@.len() == group_lines(cmds).len()
                        &&& forall|i: int|
                            0 <= i < rec.lines@.len() ==> line_is(#[trigger] rec.lines@[i], group_lines(cmds)[i])
                    },
            decreases list.pages@.len() - p,
        {
            let rec = page_record(p, &list.pages[p]);
            pages.push(rec);
            p = p + 1;
        }
        LayoutRecord { pages, unassigned_glyphs: 0 }
    }
}

/// Two glyph records hold the same values.
pub open spec fn glyph_same(a: GlyphRecord, b: GlyphRecord) -> bool {
    &&& a.origin_x == b.origin_x
    &&& a.origin_y == b.origin_y
    &&& a.origin_y_fine == b.origin_y_fine
    &&& a.advance_x == b.advance_x
    &&& a.advance_y == b.advance_y
    &&& a.face@ == b.face@
    &&& a.glyph_id == b.glyph_id
    &&& a.size_half_points == b.size_half_points
    &&& a.source == b.source
}

/// Two line records hold the same values.
pub open spec fn line_same(a: LineRecord, b: LineRecord) -> bool {
    &&& a.glyphs@.len() == b.glyphs@.len()
    &&& forall|i: int| 0 <= i < a.glyphs@.len() ==> glyph_same(#[trigger] a.glyphs@[i], b.glyphs@[i])
    &&& a.source == b.source
    &&& a.terminator == b.terminator
    &&& a.box_top == b.box_top
    &&& a.box_height == b.box_height
}

/// Two page records hold the same values.
pub open spec fn page_same(a: PageRecord, b: PageRecord) -> bool {
    &&& a.index == b.index
    &&& a.width == b.width
    &&& a.height == b.height
    &&& a.lines@.len() == b.lines@.len()
    &&& forall|i: int| 0 <= i < a.lines@.len() ==> line_same(#[trigger] a.lines@[i], b.lines@[i])
}

/// Two layout records hold the same values, down to every glyph.
pub open spec fn record_same(a: LayoutRecord, b: LayoutRecord) -> bool {
    &&& a.unassigned_glyphs == b.unassigned_glyphs
    &&& a.pages@.len() == b.pages@.len()
    &&& forall|i: int| 0 <= i < a.pages@.len() ==> page_same(#[trigger] a.pages@[i], b.pages@[i])
}

fn glyph_equal(a: &GlyphRecord, b: &GlyphRecord) -> (r: bool)
    ensures
        r == glyph_same(*a, *b),
{
    let same_source = match (a.source, b.source) {
        (Some(x), Some(y)) => x.start == y.start && x.end == y.end,
        (None, None) => true,
        _ => false,
    };
    a.origin_x == b.origin_x && a.origin_y == b.origin_y && a.origin_y_fine == b.origin_y_fine && a.advance_x
        == b.advance_x && a.advance_y == b.advance_y && a.face == b.face && a.glyph_id == b.glyph_id
        && a.size_half_points == b.size_half_points && same_source
}

fn line_equal(a: &LineRecord, b: &LineRecord) -> (r: bool)
    ensures
        r == line_same(*a, *b),
{
    if a.glyphs.len() != b.glyphs.len() {
        return false;
    }
    let mut i: usize = 0;
    while i < a.glyphs.len()
        invariant
            0 <= i <= a.glyphs@.len(),
            a.glyphs@.len() == b.glyphs@.len(),
            forall|k: int| 0 <= k < i ==> glyph_same(#[trigger] a.glyphs@[k], b.glyphs@[k]),
        decreases a.glyphs@.len() - i,
    {
        if !glyph_equal(&a.glyphs[i], &b.glyphs[i]) {
            return false;
        }
        i = i + 1;
    }
    let same_source = match (a.source, b.source) {
        (Some(x), Some(y)) => x.start == y.start && x.end == y.end,
        (None, None) => true,
        _ => false,
    };
    same_source && a.terminator == b.terminator && a.box_top == b.box_top && a.box_height == b.box_height
}

fn page_equal(a: &PageRecord, b: &PageRecord) -> (r: bool)
    ensures
        r == page_same(*a, *b),
{
    if a.index != b.index || a.width != b.width || a.height != b.height || a.lines.len() != b.lines.len() {
        return false;
    }
    let mut i: usize = 0;
    while i < a.lines.len()
        invariant
            0 <= i <= a.lines@.len(),
            a.lines@.len() == b.lines@.len(),
            forall|k: int| 0 <= k < i ==> line_same(#[trigger] a.lines@[k], b.lines@[k]),
        decreases a.lines@.len() - i,
    {
        if !line_equal(&a.lines[i], &b.lines[i]) {
            return false;
        }
        i = i + 1;
    }
    true
}

impl LayoutRecord {
    /// Whether two records are the same down to every glyph: laying out the
    /// same input twice must give this.
    pub fn is_bit_identical(&self, other: &LayoutRecord) -> (r: bool)
        ensures
            r == record_same(*self, *other),
    {
        if self.unassigned_glyphs != other.unassigned_glyphs || self.pages.len() != other.pages.len() {
            return false;
        }
        let mut i: usize = 0;
        while i < self.pages.len()
            invariant
                0 <= i <= self.pages@.len(),
                self.pages@.len() == other.pages@.len(),
                forall|k: int| 0 <= k < i ==> page_same(#[trigger] self.pages@[k], other.pages@[k]),
            decreases self.pages@.len() - i,
        {
            if !page_equal(&self.pages[i], &other.pages[i]) {
                return false;
            }
            i = i + 1;
        }
        true
    }
}

/// A record is bit identical to itself, and the relation is symmetric.
pub proof fn lemma_bit_identical_is_reflexive_and_symmetric(a: LayoutRecord, b: LayoutRecord)
    ensures
        record_same(a, a),
        record_same(a, b) == record_same(b, a),
{
    assert forall|i: int| 0 <= i < a.pages@.len() implies page_same(#[trigger] a.pages@[i], a.pages@[i]) by {
        let p = a.pages@[i];
        assert forall|j: int| 0 <= j < p.lines@.len() implies line_same(#[trigger] p.lines@[j], p.lines@[j]) by {
            let l = p.lines@[j];
            assert forall|k: int| 0 <= k < l.glyphs@.len() implies glyph_same(#[trigger] l.glyphs@[k], l.glyphs@[k]) by {}
        }
    }
    if record_same(a, b) {
        assert forall|i: int| 0 <= i < b.pages@.len() implies page_same(#[trigger] b.pages@[i], a.pages@[i]) by {
            let p = a.pages@[i];
            let q = b.pages@[i];
            assert(page_same(p, q));
            assert forall|j: int| 0 <= j < q.lines@.len() implies line_same(#[trigger] q.lines@[j], p.lines@[j]) by {
                assert(line_same(p.lines@[j], q.lines@[j]));
            }
        }
    }
    if record_same(b, a) {
        assert forall|i: int| 0 <= i < a.pages@.len() implies page_same(#[trigger] a.pages@[i], b.pages@[i]) by {
            let p = b.pages@[i];
            let q = a.pages@[i];
            assert(page_same(p, q));
            assert forall|j: int| 0 <= j < q.lines@.len() implies line_same(#[trigger] q.lines@[j], p.lines@[j]) by {
                assert(line_same(p.lines@[j], q.lines@[j]));
            }
        }
    }
}

/// The glyphs of a page's glyph commands, command after command.
pub open spec fn command_glyphs(cmds: Seq<DrawCmd>) -> Seq<PositionedGlyph>
    decreases cmds.len(),
{
    if cmds.len() == 0 {
        seq![]
    } else {
        match cmds.last() {
            DrawCmd::DrawGlyphs { glyphs, .. } => command_glyphs(cmds.drop_last()) + glyphs@,
            _ => command_glyphs(cmds.drop_last()),
        }
    }
}

/// The glyphs of line records, line after line.
pub open spec fn line_records_glyphs(lines: Seq<LineRecord>) -> Seq<GlyphRecord>
    decreases lines.len(),
{
    if lines.len() == 0 {
        seq![]
    } else {
        line_records_glyphs(lines.drop_last()) + lines.last().glyphs@
    }
}

/// The glyphs of grouped lines, line after line.
spec fn grouped_glyphs(g: Seq<(Seq<GlyphRecord>, Option<SourceRange>, LineTerminator, u32)>) -> Seq<GlyphRecord>
    decreases g.len(),
{
    if g.len() == 0 {
        seq![]
    } else {
        grouped_glyphs(g.drop_last()) + g.last().0
    }
}

proof fn lemma_glyph_records_concat(a: Seq<PositionedGlyph>, b: Seq<PositionedGlyph>)
    ensures
        glyph_records(a + b) == glyph_records(a) + glyph_records(b),
{
    assert(glyph_records(a + b) =~= glyph_records(a) + glyph_records(b));
}

proof fn lemma_grouping_keeps_every_glyph(cmds: Seq<DrawCmd>)
    ensures
        grouped_glyphs(group_lines(cmds)) == glyph_records(command_glyphs(cmds)),
    decreases cmds.len(),
{
    if cmds.len() == 0 {
        assert(glyph_records(seq![]) =~= Seq::<GlyphRecord>::empty());
    } else {
        let prev = group_lines(cmds.drop_last());
        lemma_grouping_keeps_every_glyph(cmds.drop_last());
        match cmds.last() {
            DrawCmd::DrawGlyphs { glyphs, terminator, source, line, .. } => {
                let gs = glyph_records(glyphs@);
                lemma_glyph_records_concat(command_glyphs(cmds.drop_last()), glyphs@);
                if prev.len() > 0 && prev.last().3 == line {
                    let now = group_lines(cmds);
                    assert(now.drop_last() =~= prev.drop_last());
                    assert(now.last().0 == prev.last().0 + gs);
                    assert(grouped_glyphs(now) =~= grouped_glyphs(prev) + gs);
                } else {
                    let now = group_lines(cmds);
                    assert(now.drop_last() =~= prev);
                }
            },
            _ => {},
        }
    }
}

proof fn lemma_records_hold_grouped_glyphs(
    lines: Seq<LineRecord>,
    g: Seq<(Seq<GlyphRecord>, Option<SourceRange>, LineTerminator, u32)>,
)
    requires
        lines.len() == g.len(),
        forall|i: int| 0 <= i < lines.len() ==> line_is(#[trigger] lines[i], g[i]),
    ensures
        line_records_glyphs(lines) == grouped_glyphs(g),
        lines_glyphs(lines) == grouped_glyphs(g).len(),
    decreases lines.len(),
{
    if lines.len() > 0 {
        let n = lines.len() - 1;
        assert(line_is(lines[n], g[n]));
        assert forall|i: int| 0 <= i < lines.drop_last().len() implies line_is(
            #[trigger] lines.drop_last()[i],
            g.drop_last()[i],
        ) by {
            assert(line_is(lines[i], g[i]));
        }
        lemma_records_hold_grouped_glyphs(lines.drop_last(), g.drop_last());
    }
}

/// No glyph is lost or reordered when a page is recorded: its line
/// records, read line after line, hold the records of all its glyph
/// commands' glyphs in command order, so a line painted with several
/// commands keeps the glyphs of every one of them. In particular the
/// page has as many glyphs as its commands.
pub proof fn law_line_records_keep_every_glyph(rec: PageRecord, page: PaintPage)
    requires
        rec.lines@.len() == group_lines(page.cmds@).len(),
        forall|i: int| 0 <= i < rec.lines@.len() ==> line_is(#[trigger] rec.lines@[i], group_lines(page.cmds@)[i]),
    ensures
        line_records_glyphs(rec.lines@) == glyph_records(command_glyphs(page.cmds@)),
        lines_glyphs(rec.lines@) == command_glyphs(page.cmds@).len(),
{
    lemma_grouping_keeps_every_glyph(page.cmds@);
    lemma_records_hold_grouped_glyphs(rec.lines@, group_lines(page.cmds@));
}

/// The line number of the last glyph command, if there is one.
pub open spec fn last_glyph_line(cmds: Seq<DrawCmd>) -> Option<u32>
    decreases cmds.len(),
{
    if cmds.len() == 0 {
        None
    } else {
        match cmds.last() {
            DrawCmd::DrawGlyphs { line, .. } => Some(line),
            _ => last_glyph_line(cmds.drop_last()),
        }
    }
}

/// The number of glyph commands that start a line: the first one, and
/// each whose line number differs from that of the glyph command before.
pub open spec fn line_starts(cmds: Seq<DrawCmd>) -> nat
    decreases cmds.len(),
{
    if cmds.len() == 0 {
        0
    } else {
        line_starts(cmds.drop_last()) + match cmds.last() {
            DrawCmd::DrawGlyphs { line, .. } => if last_glyph_line(cmds.drop_last()) == Some(line) {
                0nat
            } else {
                1nat
            },
            _ => 0nat,
        }
    }
}

proof fn lemma_group_count(cmds: Seq<DrawCmd>)
    ensures
        group_lines(cmds).len() == line_starts(cmds),
        group_lines(cmds).len() > 0 ==> last_glyph_line(cmds) == Some(group_lines(cmds).last().3),
        group_lines(cmds).len() == 0 ==> last_glyph_line(cmds) is None,
    decreases cmds.len(),
{
    if cmds.len() > 0 {
        lemma_group_count(cmds.drop_last());
    }
}

/// A page has one line record per line it paints: commands that
/// continue the line of the glyph command before them join its record,
/// and every other glyph command starts a record of its own.
pub proof fn law_one_record_per_painted_line(rec: PageRecord, page: PaintPage)
    requires
        rec.lines@.len() == group_lines(page.cmds@).len(),
    ensures
        rec.lines@.len() == line_starts(page.cmds@),
{
    lemma_group_count(page.cmds@);
}

/// The glyph commands of one line make one line record, whose glyphs are
/// those of every command, in order.
pub proof fn law_one_line_makes_one_record(rec: PageRecord, page: PaintPage, line: u32)
    requires
        rec.lines@.len() == group_lines(page.cmds@).len(),
        forall|i: int| 0 <= i < rec.lines@.len() ==> line_is(#[trigger] rec.lines@[i], group_lines(page.cmds@)[i]),
        glyph_command_count(page.cmds@) > 0,
        forall|i: int|
            0 <= i < page.cmds@.len() ==> (#[trigger] page.cmds@[i] matches DrawCmd::DrawGlyphs { line: l, .. } ==> l
                == line),
    ensures
        rec.lines@.len() == 1,
        rec.lines@[0].glyphs@ == glyph_records(command_glyphs(page.cmds@)),
        sources_known(page.cmds@) ==> rec.lines@[0].source == Some(
            SourceRange { start: first_unit(page.cmds@) as u32, end: end_unit(page.cmds@) as u32 },
        ),
        !sources_known(page.cmds@) ==> rec.lines@[0].source is None,
        rec.lines@[0].terminator == match last_real_terminator(page.cmds@) {
            Some(t) => t,
            None => LineTerminator::Wrapped,
        },
{
    lemma_one_line_groups_once(page.cmds@, line);
    law_line_records_keep_every_glyph(rec, page);
    let g = group_lines(page.cmds@);
    assert(rec.lines@.drop_last().len() == 0);
    assert(line_records_glyphs(rec.lines@.drop_last()) =~= Seq::<GlyphRecord>::empty());
    assert(line_records_glyphs(rec.lines@) =~= rec.lines@[0].glyphs@);
}

/// The number of glyph commands.
pub open spec fn glyph_command_count(cmds: Seq<DrawCmd>) -> nat
    decreases cmds.len(),
{
    if cmds.len() == 0 {
        0
    } else {
        glyph_command_count(cmds.drop_last()) + if cmds.last() is DrawGlyphs {
            1nat
        } else {
            0nat
        }
    }
}

/// Every glyph command knows its source range.
pub open spec fn sources_known(cmds: Seq<DrawCmd>) -> bool
    decreases cmds.len(),
{
    if cmds.len() == 0 {
        true
    } else {
        sources_known(cmds.drop_last()) && match cmds.last() {
            DrawCmd::DrawGlyphs { source, .. } => source is Some,
            _ => true,
        }
    }
}

/// The smallest start of the glyph commands' known source ranges.
pub open spec fn first_unit(cmds: Seq<DrawCmd>) -> int
    decreases cmds.len(),
{
    if cmds.len() == 0 {
        0
    } else {
        match cmds.last() {
            DrawCmd::DrawGlyphs { source: Some(s), .. } => if glyph_command_count(cmds.drop_last()) == 0 {
                s.0 as int
            } else {
                min_int(first_unit(cmds.drop_last()), s.0 as int)
            },
            _ => first_unit(cmds.drop_last()),
        }
    }
}

/// The largest end of the glyph commands' known source ranges.
pub open spec fn end_unit(cmds: Seq<DrawCmd>) -> int
    decreases cmds.len(),
{
    if cmds.len() == 0 {
        0
    } else {
        match cmds.last() {
            DrawCmd::DrawGlyphs { source: Some(s), .. } => if glyph_command_count(cmds.drop_last()) == 0 {
                s.1 as int
            } else {
                max_int(end_unit(cmds.drop_last()), s.1 as int)
            },
            _ => end_unit(cmds.drop_last()),
        }
    }
}

/// The terminator of the last glyph command that ends its line for real
/// (not by wrapping), if any.
pub open spec fn last_real_terminator(cmds: Seq<DrawCmd>) -> Option<LineTerminator>
    decreases cmds.len(),
{
    if cmds.len() == 0 {
        None
    } else {
        match cmds.last() {
            DrawCmd::DrawGlyphs { terminator, .. } => if terminator is Wrapped {
                last_real_terminator(cmds.drop_last())
            } else {
                Some(terminator)
            },
            _ => last_real_terminator(cmds.drop_last()),
        }
    }
}

proof fn lemma_command_facts(cmds: Seq<DrawCmd>)
    ensures
        0 <= first_unit(cmds) <= u32::MAX,
        0 <= end_unit(cmds) <= u32::MAX,
        glyph_command_count(cmds) == 0 ==> sources_known(cmds) && last_real_terminator(cmds) is None,
    decreases cmds.len(),
{
    if cmds.len() > 0 {
        lemma_command_facts(cmds.drop_last());
    }
}

proof fn lemma_one_line_groups_once(cmds: Seq<DrawCmd>, line: u32)
    requires
        forall|i: int|
            0 <= i < cmds.len() ==> (#[trigger] cmds[i] matches DrawCmd::DrawGlyphs { line: l, .. } ==> l == line),
    ensures
        group_lines(cmds).len() == (if glyph_command_count(cmds) > 0 {
            1int
        } else {
            0int
        }),
        group_lines(cmds).len() > 0 ==> group_lines(cmds).last().3 == line,
        group_lines(cmds).len() > 0 ==> group_lines(cmds).last().1 == (if sources_known(cmds) {
            Some(SourceRange { start: first_unit(cmds) as u32, end: end_unit(cmds) as u32 })
        } else {
            None::<SourceRange>
        }),
        group_lines(cmds).len() > 0 ==> group_lines(cmds).last().2 == (match last_real_terminator(cmds) {
            Some(t) => t,
            None => LineTerminator::Wrapped,
        }),
    decreases cmds.len(),
{
    if cmds.len() > 0 {
        assert forall|i: int| 0 <= i < cmds.drop_last().len() implies (#[trigger] cmds.drop_last()[i] matches DrawCmd::DrawGlyphs {
            line: l,
            ..
        } ==> l == line) by {
            assert(cmds.drop_last()[i] == cmds[i]);
        }
        lemma_one_line_groups_once(cmds.drop_last(), line);
        lemma_command_facts(cmds.drop_last());
        assert(cmds.last() == cmds[cmds.len() - 1]);
        let prev = group_lines(cmds.drop_last());
        match cmds.last() {
            DrawCmd::DrawGlyphs { source, terminator, .. } => {
                if prev.len() > 0 {
                    assert(group_lines(cmds).last() == (
                        prev.last().0 + glyph_records(cmds.last()->DrawGlyphs_glyphs@),
                        union_range(
                            prev.last().1,
                            match source {
                                Some(s) => Some(SourceRange { start: s.0, end: s.1 }),
                                None => None,
                            },
                        ),
                        if !(terminator is Wrapped) {
                            terminator
                        } else {
                            prev.last().2
                        },
                        line,
                    ));
                }
            },
            _ => {},
        }
    }
}

} // verus!
