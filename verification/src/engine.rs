//! The layout engine: a y cursor that breaks lines and pages greedily, the
//! way Word does, and the laid-out pages it produces.
use vstd::prelude::*;
use crate::font::{FontMetrics, FontSpec, TextMetrics, char_count_at_offset, is_boundary_at};
use crate::geom::{Color, Margins, Rect, Size, Twips, fits_twips, max_int};
use crate::oracle::LineTerminator;
use crate::text::{chars_of, copy_str, push_char, string_of, utf16_count, utf16_len, utf8_len};
use crate::wrap::{Span, WrapContext};

verus! {

/// The object replacement character U+FFFC. The document model puts one in
/// the run text for each `w:br` and inline object: it takes one source
/// unit but draws no glyph and has no width.
pub const OBJECT_PLACEHOLDER: char = '\u{FFFC}';

/// `v` saturated to the `Twips` range.
pub open spec fn clamp_twips_spec(v: int) -> i32 {
    if v > i32::MAX {
        i32::MAX
    } else if v < i32::MIN {
        i32::MIN
    } else {
        v as i32
    }
}

/// `v` saturated to the `i64` range.
pub open spec fn clamp_i64_spec(v: int) -> i64 {
    if v > i64::MAX {
        i64::MAX
    } else if v < i64::MIN {
        i64::MIN
    } else {
        v as i64
    }
}

/// `v` saturated to the `u32` range.
pub open spec fn clamp_u32_spec(v: int) -> u32 {
    if v > u32::MAX {
        u32::MAX
    } else if v < 0 {
        0
    } else {
        v as u32
    }
}

/// `f / 5` rounded half away from zero (`f64::round`); with integer `f`
/// there is never a tie.
pub open spec fn round_div5(f: int) -> int {
    if f >= 0 {
        (f + 2) / 5
    } else {
        -((-f + 2) / 5)
    }
}

/// Fine units (1/7200 inch) back to twips: rounded, then saturated the way
/// a float-to-int cast saturates.
pub open spec fn spec_coarse(f: int) -> Twips {
    clamp_twips_spec(round_div5(f))
}

pub fn clamp_twips(v: i64) -> (r: Twips)
    ensures
        r == clamp_twips_spec(v as int),
{
    if v > i32::MAX as i64 {
        i32::MAX
    } else if v < i32::MIN as i64 {
        i32::MIN
    } else {
        v as i32
    }
}

pub fn clamp_fine(v: i128) -> (r: i64)
    ensures
        r == clamp_i64_spec(v as int),
{
    if v > i64::MAX as i128 {
        i64::MAX
    } else if v < i64::MIN as i128 {
        i64::MIN
    } else {
        v as i64
    }
}

pub fn clamp_u32(v: u64) -> (r: u32)
    ensures
        r == clamp_u32_spec(v as int),
{
    if v > u32::MAX as u64 {
        u32::MAX
    } else {
        v as u32
    }
}

/// Twips to fine units.
pub fn fine(t: Twips) -> (f: i64)
    ensures
        f == t * 5,
{
    t as i64 * 5
}

/// Fine units to twips, rounded half away from zero.
pub fn coarse(f: i64) -> (t: Twips)
    ensures
        t == spec_coarse(f as int),
{
    let v: i128 = f as i128;
    let q: i128 = if v >= 0 {
        (v + 2) / 5
    } else {
        -((-v + 2) / 5)
    };
    if q > i32::MAX as i128 {
        i32::MAX
    } else if q < i32::MIN as i128 {
        i32::MIN
    } else {
        q as i32
    }
}

/// A break after a run in the run model that marks breaks on runs rather
/// than with placeholders.
#[derive(Debug, Clone, Copy, PartialEq, Eq, Structural)]
pub enum BreakKind {
    /// `w:br`, `w:br w:type="textWrapping"`: ends the line, not the page.
    Line,
    /// `w:br w:type="page"`: turns the page.
    Page,
}

/// Paragraph alignment.
#[derive(Debug, Clone, Copy, PartialEq, Eq, Default)]
pub enum Align {
    #[default]
    Left,
    Center,
    Right,
    /// Justified: the last line is not stretched.
    Justify,
}

/// Line spacing rule (`w:spacing/@w:lineRule`).
#[derive(Debug, Clone, Copy, PartialEq, Eq, Default)]
pub enum LineRule {
    /// `auto`: a multiple, in 240ths (240 is single spacing).
    #[default]
    Auto,
    /// `atLeast`: at least this many twips.
    AtLeast,
    /// `exact`: exactly this many twips.
    Exact,
}

/// What an object placeholder in run text stands for.
#[derive(Debug, Clone, Copy, PartialEq, Eq)]
pub enum PlaceholderKind {
    /// `w:br w:type="page"`: end the line and turn the page.
    PageBreak,
    /// `w:br w:type="column"`: treated as a soft return (columns are not
    /// laid out).
    ColumnBreak,
    /// `w:br`, `w:br w:type="textWrapping"`: end the line only.
    LineBreak,
    /// An inline object: neither ends the line nor turns the page.
    Object,
}

impl PlaceholderKind {
    pub open spec fn spec_breaks_line(self) -> bool {
        !(self is Object)
    }

    pub open spec fn spec_breaks_page(self) -> bool {
        self is PageBreak
    }

    /// Whether the line ends here.
    pub fn breaks_line(self) -> (b: bool)
        ensures
            b == self.spec_breaks_line(),
    {
        !matches!(self, PlaceholderKind::Object)
    }

    /// Whether the page turns after the line ends.
    pub fn breaks_page(self) -> (b: bool)
        ensures
            b == self.spec_breaks_page(),
    {
        matches!(self, PlaceholderKind::PageBreak)
    }
}

/// A run: text in one font and colour.
#[derive(Debug, Clone)]
pub struct Run {
    pub text: String,
    pub font: FontSpec,
    pub color: Color,
    /// What each object placeholder in `text` stands for, in order. A
    /// missing entry counts as an inline object.
    pub placeholders: Vec<PlaceholderKind>,
    /// Baseline rise in twips, positive upwards (superscript, subscript,
    /// `w:position`). It does not change the advance.
    pub rise: Twips,
}

/// A paragraph as the engine takes it.
#[derive(Debug, Clone)]
pub struct Para {
    pub runs: Vec<Run>,
    pub align: Align,
    pub indent_left: Twips,
    pub indent_right: Twips,
    /// First-line indent; negative for a hanging indent.
    pub indent_first_line: Twips,
    pub space_before: Twips,
    pub space_after: Twips,
    pub line_rule: LineRule,
    /// The value that goes with `line_rule`.
    pub line_value: Twips,
    /// `w:keepNext`: keep with the next paragraph.
    pub keep_next: bool,
    /// `w:keepLines`: do not split the paragraph across pages.
    pub keep_lines: bool,
    /// `w:pageBreakBefore`.
    pub page_break_before: bool,
    pub source_node: Option<u32>,
    /// How the paragraph ends.
    pub terminator: LineTerminator,
}

impl Default for Para {
    /// No runs, left aligned, no indents or spacing, single auto spacing
    /// (240), no keep or break flags, ended by a paragraph mark.
    fn default() -> (p: Para)
        ensures
            p.runs@.len() == 0,
            p.align == Align::Left,
            p.indent_left == 0,
            p.indent_right == 0,
            p.indent_first_line == 0,
            p.space_before == 0,
            p.space_after == 0,
            p.line_rule == LineRule::Auto,
            p.line_value == 240,
            !p.keep_next,
            !p.keep_lines,
            !p.page_break_before,
            p.source_node is None,
            p.terminator == LineTerminator::ParagraphMark,
    {
        Para {
            runs: Vec::new(),
            align: Align::Left,
            indent_left: 0,
            indent_right: 0,
            indent_first_line: 0,
            space_before: 0,
            space_after: 0,
            line_rule: LineRule::Auto,
            line_value: 240,
            keep_next: false,
            keep_lines: false,
            page_break_before: false,
            source_node: None,
            terminator: LineTerminator::ParagraphMark,
        }
    }
}

/// Page setup: paper size and margins.
#[derive(Debug, Clone, Copy, PartialEq, Eq)]
pub struct PageSetup {
    pub size: Size,
    pub margins: Margins,
}

impl PageSetup {
    pub open spec fn page_rect(self) -> Rect {
        Rect { x: 0, y: 0, width: self.size.width, height: self.size.height }
    }

    /// The content area: the page shrunk by the margins.
    pub open spec fn spec_content_area(self) -> Rect {
        self.margins.spec_shrink(self.page_rect())
    }

    /// A4 portrait with one-inch margins.
    pub fn a4() -> (s: PageSetup)
        ensures
            s == (PageSetup {
                size: Size { width: 11906, height: 16838 },
                margins: Margins { top: 1440, right: 1440, bottom: 1440, left: 1440 },
            }),
    {
        PageSetup { size: Size::new(11906, 16838), margins: Margins::uniform(1440) }
    }

    /// The content area: the page minus the margins.
    pub fn content_area(&self) -> (r: Rect)
        requires
            self.margins.shrink_fits(self.page_rect()),
        ensures
            r == self.spec_content_area(),
    {
        self.margins.shrink(&Rect::new(0, 0, self.size.width, self.size.height))
    }
}

/// A positioned text fragment.
#[derive(Debug, Clone)]
pub struct TextFragment {
    pub x: Twips,
    /// Absolute baseline y on the page, in twips (rounded from
    /// `baseline_fine`).
    pub baseline_y: Twips,
    /// Absolute baseline y in fine units (1/7200 inch).
    pub baseline_fine: i64,
    pub text: String,
    pub font: FontSpec,
    pub color: Color,
    /// The document node of the paragraph.
    pub source_node: Option<u32>,
    /// How the fragment's line ends; only the last fragment of a paragraph's
    /// last line carries the paragraph's terminator.
    pub terminator: LineTerminator,
    /// Source characters covered, UTF-16 units, document-wide offsets.
    pub source: Option<(u32, u32)>,
    /// Baseline rise in twips, positive upwards; already applied to the
    /// baseline.
    pub rise: Twips,
    /// The line of the page this fragment belongs to, from 0.
    pub line: u32,
}

/// A positioned item on a page.
#[derive(Debug, Clone)]
pub enum Fragment {
    Text(TextFragment),
    /// A solid rectangle (shading, borders, underlines).
    Rect { rect: Rect, color: Color },
    Image { id: String, rect: Rect },
}

/// A line: alignment and justification need the whole line.
#[derive(Debug, Clone)]
pub struct Line {
    /// Top of the line on the page.
    pub top: Twips,
    pub height: Twips,
    /// Baseline offset from the top.
    pub baseline: Twips,
    pub fragments: Vec<Fragment>,
}

/// A laid-out page.
#[derive(Debug, Clone)]
pub struct Page {
    /// The physical page size.
    pub size: Size,
    /// The content area (the page minus margins).
    pub content_area: Rect,
    pub fragments: Vec<Fragment>,
}

impl Page {
    pub fn new(size: Size, content_area: Rect) -> (p: Page)
        ensures
            p.size == size,
            p.content_area == content_area,
            p.fragments@.len() == 0,
    {
        Page { size, content_area, fragments: Vec::new() }
    }

    /// Appends a line's fragments to the page.
    pub fn push_line(&mut self, line: Line)
        ensures
            final(self).size == old(self).size,
            final(self).content_area == old(self).content_area,
            final(self).fragments@ == old(self).fragments@ + line.fragments@,
    {
        let mut line = line;
        self.fragments.append(&mut line.fragments);
    }
}

/// The terminator's own glyphs appended to a fragment's text, and its source
/// range extended over the rest of the line and the terminator character.
pub open spec fn spec_terminator_glyphs(
    text: Seq<char>,
    source: (u32, u32),
    line_source_end: u32,
    terminator: LineTerminator,
) -> (Seq<char>, (u32, u32)) {
    let extra = terminator.spec_expected_glyphs();
    if extra == 0 {
        (text, source)
    } else {
        (
            text + Seq::new(extra as nat, |i: int| ' '),
            (
                source.0,
                clamp_u32_spec(max_int(line_source_end as int, source.1 as int) + extra),
            ),
        )
    }
}

/// Appends the terminator's glyphs (a space for a paragraph mark) to the
/// fragment text and extends the source range to cover the whole line and
/// the terminator character.
pub fn with_terminator_glyphs(
    text: &str,
    source: (u32, u32),
    line_source_end: u32,
    terminator: LineTerminator,
) -> (r: (String, (u32, u32)))
    ensures
        (r.0@, r.1) == spec_terminator_glyphs(text@, source, line_source_end, terminator),
{
    let extra = terminator.expected_glyphs();
    if extra == 0 {
        return (copy_str(text), source);
    }
    let mut out = copy_str(text);
    let mut i: usize = 0;
    while i < extra
        invariant
            0 <= i <= extra,
            extra == terminator.spec_expected_glyphs(),
            out@ == text@ + Seq::new(i as nat, |j: int| ' '),
        decreases extra - i,
    {
        push_char(&mut out, ' ');
        assert(out@ =~= text@ + Seq::new((i + 1) as nat, |j: int| ' '));
        i = i + 1;
    }
    let end_base: u64 = if line_source_end >= source.1 {
        line_source_end as u64
    } else {
        source.1 as u64
    };
    let end = clamp_u32(end_base + extra as u64);
    (out, (source.0, end))
}

/// A stretch of text of one font and colour within a line.
struct LinePiece {
    /// Offset from the start of the line.
    dx: Twips,
    text: String,
    font: FontSpec,
    color: Color,
    rise: Twips,
    /// Source range, UTF-16 units, document-wide.
    source: (u32, u32),
}

/// A broken line not yet placed on a page.
struct PendingLine {
    height: Twips,
    baseline: Twips,
    pieces: Vec<LinePiece>,
    width: Twips,
    is_last: bool,
    is_first: bool,
    /// The horizontal span the line occupies.
    span: Span,
    /// A manual page break follows the line.
    page_break_after: bool,
    /// Exact height in fine units; the vertical cursor advances by it.
    height_fine: i64,
    source_start: u32,
    source_end: u32,
}

/// The layout engine over a metrics provider.
pub struct Engine<'m, M: FontMetrics> {
    metrics: &'m M,
    setup: PageSetup,
    /// Exclusion regions; empty means every line spans the content width.
    wrap: WrapContext,
}

/// The content area, saturated where the page minus the margins is not
/// representable.
pub open spec fn spec_content_rect(setup: PageSetup) -> Rect {
    let w = setup.size.width - setup.margins.left - setup.margins.right;
    let h = setup.size.height - setup.margins.top - setup.margins.bottom;
    Rect {
        x: setup.margins.left,
        y: setup.margins.top,
        width: if w > 0 {
            clamp_twips_spec(w)
        } else {
            0
        },
        height: if h > 0 {
            clamp_twips_spec(h)
        } else {
            0
        },
    }
}

/// The content area computed without overflow; it equals the content area
/// whenever that is representable.
fn content_rect(setup: &PageSetup) -> (r: Rect)
    ensures
        r == spec_content_rect(*setup),
        setup.margins.shrink_fits(setup.page_rect()) ==> r == setup.spec_content_area(),
{
    let m = setup.margins;
    let x = clamp_twips(m.left as i64);
    let y = clamp_twips(m.top as i64);
    let w: i64 = setup.size.width as i64 - m.left as i64 - m.right as i64;
    let h: i64 = setup.size.height as i64 - m.top as i64 - m.bottom as i64;
    let w = if w > 0 {
        clamp_twips(w)
    } else {
        0
    };
    let h = if h > 0 {
        clamp_twips(h)
    } else {
        0
    };
    Rect::new(x, y, w, h)
}

/// `a + b` saturated to `Twips`.
fn add_twips(a: Twips, b: Twips) -> (r: Twips)
    ensures
        r == clamp_twips_spec(a + b),
{
    clamp_twips(a as i64 + b as i64)
}

/// `a + b` saturated to `i64`.
fn add_fine(a: i64, b: i64) -> (r: i64)
    ensures
        r == clamp_i64_spec(a + b),
{
    clamp_fine(a as i128 + b as i128)
}

/// The span from `start` to `end`, saturated to twips, the end pulled in
/// so that the width can be represented.
pub open spec fn spec_fitted_span(start: int, end: int) -> Span {
    let st = clamp_twips_spec(start);
    let en = clamp_twips_spec(end);
    if en - st > i32::MAX {
        Span { start: st, end: (st + i32::MAX) as i32 }
    } else {
        Span { start: st, end: en }
    }
}

/// The full width of a paragraph's lines within the area: the area less
/// the left and right indents.
pub open spec fn spec_full_span(para: Para, area: Rect) -> Span {
    spec_fitted_span(area.x + para.indent_left, area.x + area.width - para.indent_right)
}

/// A span whose width can be represented: the end is pulled in if needed.
fn fitted_span(start: i64, end: i64) -> (s: Span)
    ensures
        s == spec_fitted_span(start as int, end as int),
        s.width_fits(),
{
    let st = clamp_twips(start);
    let en = clamp_twips(end);
    if en as i64 - st as i64 > i32::MAX as i64 {
        Span::new(st, (st as i64 + i32::MAX as i64) as i32)
    } else {
        Span::new(st, en)
    }
}

/// Natural height of metrics, saturated.
fn natural_of(m: &TextMetrics) -> (h: Twips)
    ensures
        h == clamp_twips_spec(m.spec_natural_height()),
{
    clamp_twips(m.ascent as i64 + m.descent as i64 + m.line_gap as i64)
}

/// The line height for a paragraph's spacing rule: `exact` is the rule's
/// value (at least 1), whatever the font; `atLeast` is at least the
/// natural height, `auto` is the natural height scaled by value/240 (240
/// when the value is not positive), and both are raised to the content
/// height.
pub open spec fn spec_line_height(rule: LineRule, value: Twips, content: Twips, natural: Twips) -> Twips {
    let h: int = match rule {
        LineRule::Exact => max_int(value as int, 1),
        LineRule::AtLeast => max_int(natural as int, value as int),
        LineRule::Auto => {
            let mult = if value <= 0 {
                240
            } else {
                value as int
            };
            (crate::geom::trunc_div(natural * mult, 240) as i32) as int
        },
    };
    if rule == LineRule::Exact {
        h as i32
    } else {
        max_int(h, content as int) as i32
    }
}

/// The exact line height in fine units: the same rules without rounding;
/// only the non-exact rules are raised to the content height, compared at
/// twip granularity.
pub open spec fn spec_line_height_fine(rule: LineRule, value: Twips, content: Twips, natural_fine: i64) -> i64 {
    let h: i64 = match rule {
        LineRule::Exact => (max_int(value as int, 1) * 5) as i64,
        LineRule::AtLeast => max_int(natural_fine as int, value * 5) as i64,
        LineRule::Auto => {
            let mult = if value <= 0 {
                240
            } else {
                value as int
            };
            clamp_i64_spec(crate::geom::trunc_div(natural_fine * mult, 240))
        },
    };
    if rule == LineRule::Exact {
        h
    } else if spec_coarse(h as int) < content {
        (content * 5) as i64
    } else {
        h
    }
}

/// The line height by the spacing rule (see `spec_line_height`).
pub fn line_height(rule: LineRule, value: Twips, content: Twips, natural: Twips) -> (h: Twips)
    ensures
        h == spec_line_height(rule, value, content, natural),
{
    let h: Twips = match rule {
        LineRule::Exact => if value > 1 {
            value
        } else {
            1
        },
        LineRule::AtLeast => if natural >= value {
            natural
        } else {
            value
        },
        LineRule::Auto => {
            let mult: i64 = if value <= 0 {
                240
            } else {
                value as i64
            };
            assert(-0x4000_0000_0000_0000 <= natural as i64 * mult <= 0x4000_0000_0000_0000) by (nonlinear_arith)
                requires
                    -0x8000_0000 <= natural <= 0x7fff_ffff,
                    1 <= mult <= 0x7fff_ffff,
            ;
            let v: i64 = (natural as i64 * mult) / 240;
            #[verifier::truncate]
            (v as i32)
        },
    };
    // `exact` is the line's height even for a font taller than the line.
    if matches!(rule, LineRule::Exact) || h >= content {
        h
    } else {
        content
    }
}

/// The exact line height in fine units (see `spec_line_height_fine`).
pub fn line_height_fine(rule: LineRule, value: Twips, content: Twips, natural_fine: i64) -> (h: i64)
    ensures
        h == spec_line_height_fine(rule, value, content, natural_fine),
{
    let height: i64 = match rule {
        LineRule::Exact => fine(if value > 1 {
            value
        } else {
            1
        }),
        LineRule::AtLeast => {
            let f = fine(value);
            if natural_fine >= f {
                natural_fine
            } else {
                f
            }
        },
        LineRule::Auto => {
            let mult: i128 = if value <= 0 {
                240
            } else {
                value as i128
            };
            assert(-0x1_0000_0000_0000_0000_0000_0000 <= natural_fine as i128 * mult
                <= 0x1_0000_0000_0000_0000_0000_0000) by (nonlinear_arith)
                requires
                    -0x8000_0000_0000_0000 <= natural_fine <= 0x7fff_ffff_ffff_ffff,
                    1 <= mult <= 0x7fff_ffff,
            ;
            clamp_fine((natural_fine as i128 * mult) / 240)
        },
    };
    if matches!(rule, LineRule::Exact) {
        return height;
    }
    if coarse(height) < content {
        fine(content)
    } else {
        height
    }
}

/// `auto` spacing with a positive value `v` scales the natural height by
/// `v / 240` (240 is single spacing), rounded down, and the line is never
/// lower than its content.
pub proof fn law_auto_spacing_scales_natural_height(value: Twips, content: Twips, natural: Twips)
    requires
        value > 0,
        natural >= 0,
        natural * value / 240 <= i32::MAX,
    ensures
        spec_line_height(LineRule::Auto, value, content, natural) == (if natural * value / 240 >= content {
            natural * value / 240
        } else {
            content as int
        }),
{
    assert(natural * value >= 0) by (nonlinear_arith)
        requires
            natural >= 0,
            value > 0,
    ;
}

/// Double spacing (`auto`, 480) gives a line twice as high as single
/// spacing (`auto`, 240) whenever the natural height is at least the
/// content height.
pub proof fn law_double_spacing_doubles_line_height(content: Twips, natural: Twips)
    requires
        0 <= natural,
        content <= natural,
        2 * natural <= i32::MAX,
    ensures
        spec_line_height(LineRule::Auto, 480, content, natural) == 2 * spec_line_height(
            LineRule::Auto,
            240,
            content,
            natural,
        ),
{
    law_auto_spacing_scales_natural_height(480, content, natural);
    law_auto_spacing_scales_natural_height(240, content, natural);
    assert(natural * 480 / 240 == 2 * natural) by (nonlinear_arith);
    assert(natural * 240 / 240 == natural) by (nonlinear_arith);
}

/// `auto` spacing without a positive value is single spacing.
pub proof fn law_auto_spacing_without_value_is_single(value: Twips, content: Twips, natural: Twips, natural_fine: i64)
    requires
        value <= 0,
    ensures
        spec_line_height(LineRule::Auto, value, content, natural) == spec_line_height(
            LineRule::Auto,
            240,
            content,
            natural,
        ),
        spec_line_height_fine(LineRule::Auto, value, content, natural_fine) == spec_line_height_fine(
            LineRule::Auto,
            240,
            content,
            natural_fine,
        ),
{
}

/// `exact` spacing is the rule's value (at least one twip), whatever the
/// font and however high the content.
pub proof fn law_exact_spacing_is_the_value(value: Twips, content: Twips, natural: Twips, natural_fine: i64)
    ensures
        spec_line_height(LineRule::Exact, value, content, natural) == (if value >= 1 {
            value as int
        } else {
            1
        }),
        spec_line_height_fine(LineRule::Exact, value, content, natural_fine) == (if value >= 1 {
            value as int
        } else {
            1
        }) * 5,
{
}

/// `atLeast` spacing is the largest of the rule's value, the natural
/// height and the content height.
pub proof fn law_at_least_spacing_is_the_largest(value: Twips, content: Twips, natural: Twips)
    ensures
        spec_line_height(LineRule::AtLeast, value, content, natural) >= value,
        spec_line_height(LineRule::AtLeast, value, content, natural) >= natural,
        spec_line_height(LineRule::AtLeast, value, content, natural) >= content,
        spec_line_height(LineRule::AtLeast, value, content, natural) == value
            || spec_line_height(LineRule::AtLeast, value, content, natural) == natural
            || spec_line_height(LineRule::AtLeast, value, content, natural) == content,
{
}

/// In fine units, `atLeast` spacing is the larger of the rule's value and
/// the natural height, raised to the content height when it rounds to
/// fewer twips.
pub proof fn law_at_least_spacing_is_the_largest_fine(value: Twips, content: Twips, natural_fine: i64)
    requires
        0 <= natural_fine <= 5 * i32::MAX,
        0 <= value,
    ensures
        ({
            let h: int = if natural_fine >= value * 5 {
                natural_fine as int
            } else {
                value * 5
            };
            spec_line_height_fine(LineRule::AtLeast, value, content, natural_fine) == if (h + 2) / 5 >= content {
                h
            } else {
                content * 5
            }
        }),
{
}

/// In fine units, `auto` spacing with a positive value `v` scales the
/// natural height by `v / 240`, rounded down; a line whose height in
/// twips (rounded) would be below the content height takes the content
/// height.
pub proof fn law_auto_spacing_scales_natural_height_fine(value: Twips, content: Twips, natural_fine: i64)
    requires
        value > 0,
        natural_fine >= 0,
        natural_fine * value / 240 <= 5 * i32::MAX,
    ensures
        spec_line_height_fine(LineRule::Auto, value, content, natural_fine) == (if (natural_fine * value
            / 240 + 2) / 5 >= content {
            natural_fine * value / 240
        } else {
            content * 5
        }),
{
    assert(natural_fine * value >= 0) by (nonlinear_arith)
        requires
            natural_fine >= 0,
            value > 0,
    ;
}

/// Double spacing in fine units: twice the height of single spacing when
/// the natural height is at least the content height.
pub proof fn law_double_spacing_doubles_line_height_fine(content: Twips, natural_fine: i64)
    requires
        0 <= natural_fine,
        content <= (natural_fine + 2) / 5,
        2 * natural_fine <= 5 * i32::MAX,
    ensures
        spec_line_height_fine(LineRule::Auto, 480, content, natural_fine) == 2 * spec_line_height_fine(
            LineRule::Auto,
            240,
            content,
            natural_fine,
        ),
{
    assert(natural_fine * 480 / 240 == 2 * natural_fine) by (nonlinear_arith);
    assert(natural_fine * 240 / 240 == natural_fine) by (nonlinear_arith);
    law_auto_spacing_scales_natural_height_fine(480, content, natural_fine);
    law_auto_spacing_scales_natural_height_fine(240, content, natural_fine);
    assert((2 * natural_fine + 2) / 5 >= (natural_fine + 2) / 5);
}

} // verus!

verus! {

/// The text of a paragraph: its runs' texts concatenated.
pub open spec fn runs_text(runs: Seq<Run>) -> Seq<char>
    decreases runs.len(),
{
    if runs.len() == 0 {
        seq![]
    } else {
        runs_text(runs.drop_last()) + runs.last().text@
    }
}

/// The text holds no object placeholder.
pub open spec fn no_placeholder(s: Seq<char>) -> bool {
    forall|i: int| 0 <= i < s.len() ==> s[i] != OBJECT_PLACEHOLDER
}

/// The source range of a text fragment.
pub open spec fn src_of(f: Fragment) -> (u32, u32) {
    match f {
        Fragment::Text(t) => match t.source {
            Some(s) => s,
            None => (0, 0),
        },
        _ => (0, 0),
    }
}

/// A fragment the engine produces: text, with a source range, and no
/// object placeholder in its text.
pub open spec fn frag_ok(f: Fragment) -> bool {
    &&& f is Text
    &&& f->Text_0.source is Some
    &&& no_placeholder(f->Text_0.text@)
    &&& src_of(f).0 <= src_of(f).1
}

/// Fragments in reading order: each well formed, and every source range
/// ends before the next one starts.
pub open spec fn in_reading_order(fs: Seq<Fragment>) -> bool {
    &&& forall|i: int| 0 <= i < fs.len() ==> frag_ok(#[trigger] fs[i])
    &&& forall|i: int, j: int|
        0 <= i < j < fs.len() ==> src_of(#[trigger] fs[i]).1 <= src_of(#[trigger] fs[j]).0
}

pub open spec fn ends_by(fs: Seq<Fragment>, bound: int) -> bool {
    forall|i: int| 0 <= i < fs.len() ==> src_of(#[trigger] fs[i]).1 <= bound
}

pub open spec fn starts_from(fs: Seq<Fragment>, bound: int) -> bool {
    forall|i: int| 0 <= i < fs.len() ==> bound <= src_of(#[trigger] fs[i]).0
}

/// All fragments of the pages, page after page.
pub open spec fn all_fragments(pages: Seq<Page>) -> Seq<Fragment>
    decreases pages.len(),
{
    if pages.len() == 0 {
        seq![]
    } else {
        all_fragments(pages.drop_last()) + pages.last().fragments@
    }
}

pub proof fn lemma_reading_order_concat(a: Seq<Fragment>, b: Seq<Fragment>, m: int)
    requires
        in_reading_order(a),
        in_reading_order(b),
        ends_by(a, m),
        starts_from(b, m),
    ensures
        in_reading_order(a + b),
{
    let c = a + b;
    assert forall|i: int| 0 <= i < c.len() implies frag_ok(#[trigger] c[i]) by {
        if i < a.len() {
            assert(c[i] == a[i]);
        } else {
            assert(c[i] == b[i - a.len()]);
        }
    }
    assert forall|i: int, j: int| 0 <= i < j < c.len() implies src_of(#[trigger] c[i]).1 <= src_of(
        #[trigger] c[j],
    ).0 by {
        if j < a.len() {
            assert(c[i] == a[i] && c[j] == a[j]);
        } else if i >= a.len() {
            assert(c[i] == b[i - a.len()] && c[j] == b[j - a.len()]);
        } else {
            assert(c[i] == a[i] && c[j] == b[j - a.len()]);
        }
    }
}

/// Pieces of a line: no placeholder in their text, sources inside the
/// line's range and in order.
/// The room of a line on `span`: the span's width, less the first-line
/// indent on the first line, and at least 1.
spec fn avail_of(span: Span, first: bool, indent: Twips) -> int {
    clamp_twips_spec(
        max_int(
            span.spec_width() - if first {
                indent as int
            } else {
                0
            },
            1,
        ),
    ) as int
}

/// A line is no wider than its room, unless it holds one forced character.
spec fn line_width_ok(l: PendingLine, indent: Twips) -> bool {
    ||| l.width <= avail_of(l.span, l.is_first, indent)
    ||| l.pieces@.len() == 1 && l.pieces@[0].text@.len() == 1
}

/// `t` is a stretch of `p`.
pub open spec fn slice_of(t: Seq<char>, p: Seq<char>) -> bool {
    exists|a: int, b: int| 0 <= a <= b <= p.len() && t == p.subrange(a, b)
}

/// Every piece's text is a stretch of `p`.
spec fn pieces_in(pieces: Seq<LinePiece>, p: Seq<char>) -> bool {
    forall|j: int| 0 <= j < pieces.len() ==> slice_of((#[trigger] pieces[j]).text@, p)
}

/// The number of lines followed by a manual page break.
spec fn pb_lines(lines: Seq<PendingLine>) -> nat
    decreases lines.len(),
{
    if lines.len() == 0 {
        0
    } else {
        pb_lines(lines.drop_last()) + if lines.last().page_break_after {
            1nat
        } else {
            0nat
        }
    }
}

/// The number of object placeholders in `s`.
pub open spec fn placeholder_count(s: Seq<char>) -> nat
    decreases s.len(),
{
    if s.len() == 0 {
        0
    } else {
        placeholder_count(s.drop_last()) + if s.last() == OBJECT_PLACEHOLDER {
            1nat
        } else {
            0nat
        }
    }
}

/// What the `j`th placeholder of a run stands for: an object where the
/// run does not say.
pub open spec fn placeholder_kind(run: Run, j: int) -> PlaceholderKind {
    if 0 <= j < run.placeholders@.len() {
        run.placeholders@[j]
    } else {
        PlaceholderKind::Object
    }
}

/// The page breaks among the first `n` placeholders of a run.
pub open spec fn run_page_breaks(run: Run, n: int) -> nat
    decreases n,
{
    if n <= 0 {
        0
    } else {
        run_page_breaks(run, n - 1) + if placeholder_kind(run, n - 1).spec_breaks_page() {
            1nat
        } else {
            0nat
        }
    }
}

/// The page-break placeholders of a sequence of runs.
pub open spec fn runs_page_breaks(runs: Seq<Run>) -> nat
    decreases runs.len(),
{
    if runs.len() == 0 {
        0
    } else {
        runs_page_breaks(runs.drop_last()) + run_page_breaks(
            runs.last(),
            placeholder_count(runs.last().text@) as int,
        )
    }
}

/// A piece's source range is as long as its text in UTF-16 units
/// (saturating at the end of the `u32` range).
spec fn piece_len_ok(p: LinePiece) -> bool {
    p.source.1 == clamp_u32_spec(p.source.0 + utf16_len(p.text@))
}

spec fn pieces_ok(pieces: Seq<LinePiece>, start: int, end: int) -> bool {
    &&& forall|i: int| 0 <= i < pieces.len() ==> no_placeholder((#[trigger] pieces[i]).text@)
    &&& forall|i: int| 0 <= i < pieces.len() ==> piece_len_ok(#[trigger] pieces[i])
    &&& forall|i: int|
        0 <= i < pieces.len() ==> start <= (#[trigger] pieces[i]).source.0 <= pieces[i].source.1 <= end
    &&& forall|i: int, j: int|
        0 <= i < j < pieces.len() ==> (#[trigger] pieces[i]).source.1 <= (#[trigger] pieces[j]).source.0
}

/// How the `i`th piece of a line ends: the paragraph's terminator on the
/// last piece of the paragraph's last line, a wrap elsewhere.
spec fn piece_terminator(para: Para, line: PendingLine, i: int) -> LineTerminator {
    if line.is_last && i == line.pieces@.len() - 1 {
        para.terminator
    } else {
        LineTerminator::Wrapped
    }
}

/// The source range a piece's fragment starts from: the line's first piece
/// also covers what comes before it on the line (a leading placeholder),
/// and its last piece the rest of the line (spaces eaten at a wrap, a
/// placeholder that ended it).
spec fn piece_source(line: PendingLine, i: int) -> (u32, u32) {
    let p = line.pieces@[i];
    (
        if i == 0 {
            line.source_start
        } else {
            p.source.0
        },
        if i == line.pieces@.len() - 1 && p.source.1 < line.source_end {
            line.source_end
        } else {
            p.source.1
        },
    )
}

/// The fragment of the `i`th piece of a line whose quantized baseline is
/// `baseline`: the piece's text with the terminator's glyphs, its font,
/// colour and rise, raised from the baseline by the rise.
spec fn piece_placed(f: Fragment, para: Para, line: PendingLine, i: int, baseline: int) -> bool {
    let p = line.pieces@[i];
    let term = piece_terminator(para, line, i);
    let g = spec_terminator_glyphs(p.text@, piece_source(line, i), line.source_end, term);
    &&& f is Text
    &&& f->Text_0.text@ == g.0
    &&& f->Text_0.source == Some(g.1)
    &&& f->Text_0.font == p.font
    &&& f->Text_0.color == p.color
    &&& f->Text_0.rise == p.rise
    &&& f->Text_0.terminator == term
    &&& f->Text_0.baseline_fine == clamp_i64_spec(baseline - p.rise * 5)
}

/// The one fragment of an empty line: only the terminator's glyphs, on the
/// baseline, in the paragraph's first run's font and colour.
spec fn empty_line_placed(f: Fragment, para: Para, line: PendingLine, baseline: int) -> bool {
    let term = if line.is_last {
        para.terminator
    } else {
        LineTerminator::Wrapped
    };
    let g = spec_terminator_glyphs(Seq::empty(), (line.source_start, line.source_end), line.source_end, term);
    &&& f is Text
    &&& f->Text_0.text@ == g.0
    &&& f->Text_0.source == Some(g.1)
    &&& f->Text_0.rise == 0
    &&& f->Text_0.terminator == term
    &&& f->Text_0.baseline_fine == baseline
    &&& para.runs@.len() > 0 ==> f->Text_0.font == para.runs@[0].font && f->Text_0.color == para.runs@[0].color
}

/// A text fragment whose text is a stretch of `p` followed by its
/// terminator's glyphs (a space for a paragraph mark).
pub open spec fn text_from(f: Fragment, p: Seq<char>) -> bool {
    &&& f is Text
    &&& exists|a: int, b: int|
        0 <= a <= b <= p.len() && f->Text_0.text@ == p.subrange(a, b) + Seq::new(
            f->Text_0.terminator.spec_expected_glyphs() as nat,
            |k: int| ' ',
        )
}

proof fn lemma_text_from_piece(f: Fragment, para: Para, line: PendingLine, i: int, q: int, p: Seq<char>)
    requires
        0 <= i < line.pieces@.len(),
        piece_placed(f, para, line, i, q),
        slice_of(line.pieces@[i].text@, p),
    ensures
        text_from(f, p),
{
    let (a, b) = choose|a: int, b: int| 0 <= a <= b <= p.len() && line.pieces@[i].text@ == p.subrange(a, b);
    let extra = f->Text_0.terminator.spec_expected_glyphs();
    if extra == 0 {
        assert(p.subrange(a, b) + Seq::new(0nat, |k: int| ' ') =~= p.subrange(a, b));
    }
    assert(f->Text_0.text@ == p.subrange(a, b) + Seq::new(extra as nat, |k: int| ' '));
}

proof fn lemma_text_from_empty(f: Fragment, para: Para, line: PendingLine, q: int, p: Seq<char>)
    requires
        empty_line_placed(f, para, line, q),
    ensures
        text_from(f, p),
{
    let extra = f->Text_0.terminator.spec_expected_glyphs();
    assert(p.subrange(0, 0) =~= Seq::<char>::empty());
    if extra == 0 {
        assert(p.subrange(0, 0) + Seq::new(0nat, |k: int| ' ') =~= Seq::<char>::empty());
    } else {
        assert(Seq::<char>::empty() + Seq::new(extra as nat, |k: int| ' ') =~= Seq::new(extra as nat, |k: int| ' '));
        assert(p.subrange(0, 0) + Seq::new(extra as nat, |k: int| ' ') =~= Seq::new(extra as nat, |k: int| ' '));
    }
    assert(f->Text_0.text@ == p.subrange(0, 0) + Seq::new(extra as nat, |k: int| ' '));
}

/// The fragments of a line placed on one quantized baseline `q`: one per
/// piece, or the empty line's one.
spec fn line_placed(new: Seq<Fragment>, para: Para, line: PendingLine, q: int) -> bool {
    &&& forall|i: int| 0 <= i < line.pieces@.len() ==> piece_placed(#[trigger] new[i], para, line, i, q)
    &&& line.pieces@.len() == 0 ==> empty_line_placed(new[0], para, line, q)
}

spec fn line_ok(l: PendingLine) -> bool {
    &&& l.source_start <= l.source_end
    &&& pieces_ok(l.pieces@, l.source_start as int, l.source_end as int)
    &&& l.span.width_fits()
}

/// Lines that tile the source range from `base` to `end`, none yet marked
/// as the last.
spec fn lines_chain(lines: Seq<PendingLine>, base: int, end: int) -> bool {
    &&& forall|i: int| 0 <= i < lines.len() ==> line_ok(#[trigger] lines[i])
    &&& lines.len() == 0 ==> base == end
    &&& lines.len() > 0 ==> lines[0].source_start == base && lines.last().source_end == end
    &&& forall|i: int|
        0 <= i < lines.len() - 1 ==> (#[trigger] lines[i]).source_end == lines[i + 1].source_start
}

/// The widest span, the last one among equals (as `max_by_key` picks).
fn widest(spans: &Vec<Span>) -> (r: Option<Span>)
    requires
        forall|i: int| 0 <= i < spans@.len() ==> (#[trigger] spans@[i]).width_fits(),
    ensures
        r is None <==> spans@.len() == 0,
        r matches Some(s) ==> s.width_fits() && exists|i: int|
            0 <= i < spans@.len() && spans@[i] == s && (forall|j: int|
                0 <= j < spans@.len() ==> (#[trigger] spans@[j]).spec_width() <= s.spec_width())
                && (forall|j: int|
                i < j < spans@.len() ==> (#[trigger] spans@[j]).spec_width() < s.spec_width()),
{
    if spans.len() == 0 {
        return None;
    }
    let mut best = spans[0];
    let mut bi: usize = 0;
    let mut k: usize = 1;
    while k < spans.len()
        invariant
            1 <= k <= spans@.len(),
            forall|i: int| 0 <= i < spans@.len() ==> (#[trigger] spans@[i]).width_fits(),
            0 <= bi < k,
            spans@[bi as int] == best,
            forall|j: int| 0 <= j < k ==> (#[trigger] spans@[j]).spec_width() <= best.spec_width(),
            forall|j: int| bi < j < k ==> (#[trigger] spans@[j]).spec_width() < best.spec_width(),
        decreases spans@.len() - k,
    {
        let s = spans[k];
        if s.width() >= best.width() {
            best = s;
            bi = k;
        }
        k = k + 1;
    }
    assert(spans@[bi as int] == best);
    Some(best)
}

impl<'m, M: FontMetrics> Engine<'m, M> {
    pub closed spec fn spec_metrics(&self) -> &'m M {
        self.metrics
    }

    pub closed spec fn spec_setup(&self) -> PageSetup {
        self.setup
    }

    pub closed spec fn spec_wrap(&self) -> WrapContext {
        self.wrap
    }

    pub fn new(metrics: &'m M, setup: PageSetup) -> (e: Engine<'m, M>)
        ensures
            e.spec_metrics() == metrics,
            e.spec_setup() == setup,
            e.spec_wrap()@.len() == 0,
    {
        Engine { metrics, setup, wrap: WrapContext::new() }
    }

    /// An engine with exclusion regions: each line's room then depends on
    /// its y and may be split by a region.
    pub fn with_wrap(metrics: &'m M, setup: PageSetup, wrap: WrapContext) -> (e: Engine<'m, M>)
        ensures
            e.spec_metrics() == metrics,
            e.spec_setup() == setup,
            e.spec_wrap()@ == wrap@,
    {
        Engine { metrics, setup, wrap }
    }

    /// The full width of a paragraph's lines within the area.
    fn full_span(para: &Para, area: Rect) -> (s: Span)
        ensures
            s == spec_full_span(*para, area),
            s.width_fits(),
    {
        fitted_span(
            area.x as i64 + para.indent_left as i64,
            area.x as i64 + area.width as i64 - para.indent_right as i64,
        )
    }

    /// The spans available to a line on the band `[y, y + height)`: the
    /// full width without regions, else what the regions leave of it.
    pub open spec fn spec_line_spans(&self, para: Para, area: Rect, y: int, height: int) -> Seq<Span> {
        if self.spec_wrap()@.len() == 0 {
            seq![spec_full_span(para, area)]
        } else {
            self.spec_wrap().spec_available(spec_full_span(para, area), y, height)
        }
    }

    /// The horizontal spans available to a line at `y`: the full width
    /// without regions, else what the regions leave.
    fn line_spans(&self, para: &Para, area: Rect, y: Twips, height: Twips) -> (out: Vec<Span>)
        ensures
            out@ == self.spec_line_spans(*para, area, y as int, height as int),
            forall|i: int| 0 <= i < out@.len() ==> (#[trigger] out@[i]).width_fits(),
    {
        let full = Self::full_span(para, area);
        if self.wrap.is_empty() {
            return vec![full];
        }
        let spans = self.wrap.available(full, y, height);
        proof {
            assert forall|i: int| 0 <= i < spans@.len() implies (#[trigger] spans@[i]).width_fits() by {
                assert(spans@[i].within(full));
            }
        }
        spans
    }

    /// The span a line takes: the widest available one; when the line is
    /// fully blocked, the full width, so that text is never lost.
    fn pick_span(&self, para: &Para, area: Rect, y: Twips, height: Twips) -> (s: Span)
        ensures
            s.width_fits(),
            ({
                let spans = self.spec_line_spans(*para, area, y as int, height as int);
                &&& (forall|j: int| 0 <= j < spans.len() ==> (#[trigger] spans[j]).spec_width() <= 0) ==> s
                    == spec_full_span(*para, area)
                &&& (exists|j: int| 0 <= j < spans.len() && (#[trigger] spans[j]).spec_width() > 0) ==> exists|i: int|
                    0 <= i < spans.len() && spans[i] == s && (forall|j: int|
                        0 <= j < spans.len() ==> (#[trigger] spans[j]).spec_width() <= s.spec_width()) && (forall|
                        j: int,
                    |
                        i < j < spans.len() ==> (#[trigger] spans[j]).spec_width() < s.spec_width())
            }),
    {
        let full = Self::full_span(para, area);
        let spans = self.line_spans(para, area, y, height);
        match widest(&spans) {
            Some(s) => if !s.is_empty() {
                s
            } else {
                full
            },
            None => full,
        }
    }

}

proof fn lemma_chain_extend(lines: Seq<PendingLine>, base: int, end: int, next: Seq<PendingLine>, new_end: int)
    requires
        lines_chain(lines, base, end),
        next.len() == lines.len() + 1,
        next.take(lines.len() as int) == lines,
        line_ok(next.last()),
        next.last().source_start == end,
        next.last().source_end == new_end,
    ensures
        lines_chain(next, base, new_end),
{
    assert forall|i: int| 0 <= i < next.len() implies line_ok(#[trigger] next[i]) by {
        if i < lines.len() {
            assert(next[i] == next.take(lines.len() as int)[i]);
        }
    }
    assert forall|i: int| 0 <= i < next.len() - 1 implies (#[trigger] next[i]).source_end
        == next[i + 1].source_start by {
        assert(next[i] == next.take(lines.len() as int)[i]);
        if i + 1 < lines.len() {
            assert(next[i + 1] == next.take(lines.len() as int)[i + 1]);
        }
    }
    if lines.len() > 0 {
        assert(next[0] == next.take(lines.len() as int)[0]);
    }
}

} // verus!

verus! {

/// `consumed` advanced over `cs[from..to]` (UTF-16 units), saturating.
fn add_units(consumed: u32, cs: &[char], from: usize, to: usize) -> (r: u32)
    requires
        from <= to <= cs@.len(),
    ensures
        r == clamp_u32_spec(consumed + utf16_len(cs@.subrange(from as int, to as int))),
{
    match utf16_count(cs, from, to) {
        Some(n) => clamp_u32(consumed as u64 + n as u64),
        None => u32::MAX,
    }
}

proof fn lemma_clamp_u32_compose(x: int, d: int)
    requires
        x >= 0,
        d >= 0,
    ensures
        clamp_u32_spec(clamp_u32_spec(x) + d) == clamp_u32_spec(x + d),
{
}

proof fn lemma_units_split(cs: Seq<char>, a: int, b: int)
    requires
        0 <= a <= b <= cs.len(),
    ensures
        utf16_len(cs.take(b)) == utf16_len(cs.take(a)) + utf16_len(cs.subrange(a, b)),
{
    crate::text::lemma_utf16_len_concat(cs.take(a), cs.subrange(a, b));
    assert(cs.take(a) + cs.subrange(a, b) =~= cs.take(b));
}

proof fn lemma_runs_text_step(runs: Seq<Run>, ri: int)
    requires
        0 <= ri < runs.len(),
    ensures
        runs_text(runs.take(ri + 1)) == runs_text(runs.take(ri)) + runs[ri].text@,
{
    assert(runs.take(ri + 1).drop_last() =~= runs.take(ri));
}

/// The text of the first `n` runs begins the text of all of them.
proof fn lemma_runs_text_prefix(runs: Seq<Run>, n: int)
    requires
        0 <= n <= runs.len(),
    ensures
        runs_text(runs.take(n)).len() <= runs_text(runs).len(),
        runs_text(runs).take(runs_text(runs.take(n)).len() as int) == runs_text(runs.take(n)),
    decreases runs.len() - n,
{
    if n == runs.len() {
        assert(runs.take(n) =~= runs);
    } else {
        lemma_runs_text_prefix(runs, n + 1);
        lemma_runs_text_step(runs, n);
        let a = runs_text(runs.take(n));
        let b = runs_text(runs.take(n + 1));
        assert(runs_text(runs).take(a.len() as int) =~= runs_text(runs).take(b.len() as int).take(a.len() as int));
        assert(b.take(a.len() as int) =~= a);
    }
}

proof fn lemma_runs_text_empty(runs: Seq<Run>)
    requires
        forall|i: int| 0 <= i < runs.len() ==> (#[trigger] runs[i]).text@.len() == 0,
    ensures
        runs_text(runs).len() == 0,
        runs_page_breaks(runs) == 0,
    decreases runs.len(),
{
    if runs.len() > 0 {
        lemma_runs_text_empty(runs.drop_last());
        assert(runs.last() == runs[runs.len() - 1]);
    }
}

proof fn lemma_pieces_push(pieces: Seq<LinePiece>, p: LinePiece, start: int, end: int, new_end: int)
    requires
        pieces_ok(pieces, start, end),
        start <= end,
        end <= p.source.0 <= p.source.1 <= new_end,
        end <= new_end,
        no_placeholder(p.text@),
        piece_len_ok(p),
    ensures
        pieces_ok(pieces.push(p), start, new_end),
{
    let q = pieces.push(p);
    assert forall|i: int| 0 <= i < q.len() implies piece_len_ok(#[trigger] q[i]) by {
        if i < pieces.len() {
            assert(q[i] == pieces[i]);
        }
    }
    assert forall|i: int| 0 <= i < q.len() implies no_placeholder((#[trigger] q[i]).text@) by {
        if i < pieces.len() {
            assert(q[i] == pieces[i]);
        }
    }
    assert forall|i: int| 0 <= i < q.len() implies start <= (#[trigger] q[i]).source.0 <= q[i].source.1
        <= new_end by {
        if i < pieces.len() {
            assert(q[i] == pieces[i]);
        }
    }
    assert forall|i: int, j: int| 0 <= i < j < q.len() implies (#[trigger] q[i]).source.1 <= (
    #[trigger] q[j]).source.0 by {
        if j < pieces.len() {
            assert(q[i] == pieces[i] && q[j] == pieces[j]);
        } else {
            assert(q[i] == pieces[i]);
        }
    }
}

proof fn lemma_pieces_widen(pieces: Seq<LinePiece>, start: int, end: int, new_end: int)
    requires
        pieces_ok(pieces, start, end),
        end <= new_end,
    ensures
        pieces_ok(pieces, start, new_end),
{
}

proof fn lemma_sub_no_placeholder(cs: Seq<char>, a: int, b: int)
    requires
        0 <= a <= b <= cs.len(),
        forall|j: int| a <= j < b ==> cs[j] != OBJECT_PLACEHOLDER,
    ensures
        no_placeholder(cs.subrange(a, b)),
{
}


/// Consuming `cs[a..b]` moves the cursor from the offset of `cs[..a]` to
/// that of `cs[..b]`.
proof fn lemma_advance(cs: Seq<char>, off: int, a: int, b: int, c0: u32)
    requires
        0 <= a <= b <= cs.len(),
        off >= 0,
        c0 == clamp_u32_spec(off + utf16_len(cs.take(a))),
    ensures
        clamp_u32_spec(c0 + utf16_len(cs.subrange(a, b))) == clamp_u32_spec(off + utf16_len(cs.take(b))),
{
    lemma_units_split(cs, a, b);
    lemma_clamp_u32_compose(off + utf16_len(cs.take(a)), utf16_len(cs.subrange(a, b)) as int);
}

/// A paragraph being broken into lines: the closed lines, the open one and
/// the cursors.
struct LineBuilder {
    lines: Vec<PendingLine>,
    cur: Vec<LinePiece>,
    /// Document-wide UTF-16 offset of the next source character.
    consumed: u32,
    /// Where the open line starts.
    line_start: u32,
    cur_w: Twips,
    cur_ascent: Twips,
    cur_descent: Twips,
    cur_natural: Twips,
    cur_natural_fine: i64,
    first_line: bool,
    cur_y: Twips,
    span: Span,
    line_avail: Twips,
    /// The paragraph's first-line indent, which the first line loses.
    first_indent: Twips,
    /// The paragraph's text, placeholders included.
    text: Ghost<Seq<char>>,
    /// The paragraph's line spacing rule and value.
    rule: Ghost<LineRule>,
    value: Ghost<Twips>,
}

impl LineBuilder {
    /// The closed lines tile the source from `base` to the open line's
    /// start, none marked last; the open line's pieces lie between its
    /// start and `consumed`.
    spec fn inv(&self, base: int) -> bool {
        &&& lines_chain(self.lines@, base, self.line_start as int)
        &&& forall|i: int| 0 <= i < self.lines@.len() ==> !(#[trigger] self.lines@[i]).is_last
        &&& self.line_start <= self.consumed
        &&& pieces_ok(self.cur@, self.line_start as int, self.consumed as int)
        &&& self.cur@.len() == 0 ==> self.cur_w == 0
        &&& self.span.width_fits()
        &&& self.first_line == (self.lines@.len() == 0)
        &&& forall|i: int| 0 <= i < self.lines@.len() ==> (#[trigger] self.lines@[i]).is_first == (i == 0)
        &&& self.line_avail == avail_of(self.span, self.first_line, self.first_indent)
        &&& (self.cur_w <= self.line_avail || (self.cur@.len() == 1 && self.cur@[0].text@.len() == 1))
        &&& forall|i: int| 0 <= i < self.lines@.len() ==> line_width_ok(#[trigger] self.lines@[i], self.first_indent)
        &&& pieces_in(self.cur@, self.text@)
        &&& forall|i: int|
            0 <= i < self.lines@.len() ==> self.rule@ == LineRule::Exact ==> (#[trigger] self.lines@[i]).height_fine
                == max_int(self.value@ as int, 1) * 5
        &&& forall|i: int| 0 <= i < self.lines@.len() ==> pieces_in((#[trigger] self.lines@[i]).pieces@, self.text@)
    }

    /// Adds `cs[a..b]`, measured as `m`, to the open line. `nf`, when
    /// given, is its exact natural height.
    fn push_piece(
        &mut self,
        cs: &[char],
        a: usize,
        b: usize,
        run: &Run,
        m: &TextMetrics,
        nf: Option<i64>,
        Ghost(base): Ghost<int>,
    )
        requires
            old(self).inv(base),
            a <= b <= cs@.len(),
            forall|j: int| a <= j < b ==> cs@[j] != OBJECT_PLACEHOLDER,
            old(self).cur_w + m.advance <= old(self).line_avail || (old(self).cur@.len() == 0 && b == a + 1),
            slice_of(cs@.subrange(a as int, b as int), old(self).text@),
        ensures
            final(self).text == old(self).text,
            final(self).rule == old(self).rule,
            final(self).value == old(self).value,
            final(self).inv(base),
            final(self).consumed == clamp_u32_spec(old(self).consumed + utf16_len(cs@.subrange(a as int, b as int))),
            final(self).line_start == old(self).line_start,
            final(self).lines@ == old(self).lines@,
            final(self).cur@.len() == old(self).cur@.len() + 1,
            final(self).span == old(self).span,
            final(self).first_indent == old(self).first_indent,
            final(self).line_avail == old(self).line_avail,
            old(self).cur_w + m.advance <= old(self).line_avail ==> final(self).cur_w <= final(self).line_avail,
    {
        let text = string_of(cs, a, b);
        let next = add_units(self.consumed, cs, a, b);
        proof {
            lemma_sub_no_placeholder(cs@, a as int, b as int);
        }
        let piece = LinePiece {
            dx: self.cur_w,
            text,
            font: run.font.clone(),
            color: run.color,
            rise: run.rise,
            source: (self.consumed, next),
        };
        proof {
            lemma_pieces_push(self.cur@, piece, self.line_start as int, self.consumed as int, next as int);
            assert forall|j: int| 0 <= j < self.cur@.push(piece).len() implies slice_of(
                (#[trigger] self.cur@.push(piece)[j]).text@,
                self.text@,
            ) by {
                if j < self.cur@.len() {
                    assert(self.cur@.push(piece)[j] == self.cur@[j]);
                }
            }
        }
        self.cur.push(piece);
        self.consumed = next;
        self.cur_w = add_twips(self.cur_w, m.advance);
        if m.ascent > self.cur_ascent {
            self.cur_ascent = m.ascent;
        }
        if m.descent > self.cur_descent {
            self.cur_descent = m.descent;
        }
        let nh = natural_of(m);
        if nh > self.cur_natural {
            self.cur_natural = nh;
        }
        if let Some(f) = nf {
            if f > self.cur_natural_fine {
                self.cur_natural_fine = f;
            }
        }
    }

    /// Counts `cs[a..b]` as consumed source without adding anything to the
    /// line (a placeholder, spaces eaten at a break).
    fn skip_units(&mut self, cs: &[char], a: usize, b: usize, Ghost(base): Ghost<int>)
        requires
            old(self).inv(base),
            a <= b <= cs@.len(),
        ensures
            final(self).inv(base),
            final(self).consumed == clamp_u32_spec(old(self).consumed + utf16_len(cs@.subrange(a as int, b as int))),
            final(self).line_start == old(self).line_start,
            final(self).lines@ == old(self).lines@,
            final(self).cur@ == old(self).cur@,
            final(self).first_indent == old(self).first_indent,
            final(self).cur_w == old(self).cur_w,
            final(self).line_avail == old(self).line_avail,
            final(self).text == old(self).text,
            final(self).rule == old(self).rule,
            final(self).value == old(self).value,
    {
        let next = add_units(self.consumed, cs, a, b);
        proof {
            lemma_pieces_widen(self.cur@, self.line_start as int, self.consumed as int, next as int);
        }
        self.consumed = next;
    }

    /// Closes the open line with the given heights and starts a new one at
    /// `consumed`.
    fn close_line(&mut self, height: Twips, height_fine: i64, page_break_after: bool, Ghost(base): Ghost<int>)
        requires
            old(self).inv(base),
            old(self).rule@ == LineRule::Exact ==> height_fine == max_int(old(self).value@ as int, 1) * 5,
        ensures
            final(self).inv(base),
            final(self).lines@.len() == old(self).lines@.len() + 1,
            final(self).cur@.len() == 0,
            final(self).consumed == old(self).consumed,
            final(self).line_start == old(self).consumed,
            final(self).lines@.last().source_end == old(self).consumed,
            final(self).span == old(self).span,
            !final(self).first_line,
            pb_lines(final(self).lines@) == pb_lines(old(self).lines@) + if page_break_after {
                1nat
            } else {
                0nat
            },
            final(self).first_indent == old(self).first_indent,
            final(self).text == old(self).text,
            final(self).rule == old(self).rule,
            final(self).value == old(self).value,
    {
        let ghost old_lines = self.lines@;
        let mut pieces: Vec<LinePiece> = Vec::new();
        std::mem::swap(&mut pieces, &mut self.cur);
        self.lines.push(
            PendingLine {
                height,
                height_fine,
                baseline: self.cur_ascent,
                pieces,
                width: self.cur_w,
                is_last: false,
                is_first: self.first_line,
                span: self.span,
                page_break_after,
                source_start: self.line_start,
                source_end: self.consumed,
            },
        );
        proof {
            assert(self.lines@.take(old_lines.len() as int) =~= old_lines);
            assert(self.lines@.drop_last() =~= old_lines);
            lemma_chain_extend(old_lines, base, self.line_start as int, self.lines@, self.consumed as int);
            assert forall|i: int| 0 <= i < self.lines@.len() implies !(#[trigger] self.lines@[i]).is_last by {
                if i < old_lines.len() {
                    assert(self.lines@[i] == old_lines[i]);
                }
            }
            assert forall|i: int| 0 <= i < self.lines@.len() implies (#[trigger] self.lines@[i]).is_first == (i
                == 0) by {
                if i < old_lines.len() {
                    assert(self.lines@[i] == old_lines[i]);
                }
            }
        }
        self.line_start = self.consumed;
        self.cur_w = 0;
        self.cur_ascent = 0;
        self.cur_descent = 0;
        self.cur_natural = 0;
        self.cur_natural_fine = 0;
        self.first_line = false;
        let w = self.span.width();
        self.line_avail = if w > 1 {
            w
        } else {
            1
        };
    }
}

impl<'m, M: FontMetrics> Engine<'m, M> {
    /// Ends the open line and moves down by its height: the next line's
    /// room is looked up at the new y.
    fn end_line(
        &self,
        b: &mut LineBuilder,
        para: &Para,
        area: Rect,
        height: Twips,
        height_fine: i64,
        page_break_after: bool,
        probe_h: Twips,
        Ghost(base): Ghost<int>,
    )
        requires
            old(b).inv(base),
            old(b).rule@ == LineRule::Exact ==> height_fine == max_int(old(b).value@ as int, 1) * 5,
        ensures
            final(b).inv(base),
            final(b).cur@.len() == 0,
            final(b).consumed == old(b).consumed,
            final(b).lines@.len() == old(b).lines@.len() + 1,
            pb_lines(final(b).lines@) == pb_lines(old(b).lines@) + if page_break_after {
                1nat
            } else {
                0nat
            },
            final(b).first_indent == old(b).first_indent,
            final(b).text == old(b).text,
            final(b).rule == old(b).rule,
            final(b).value == old(b).value,
    {
        b.close_line(height, height_fine, page_break_after, Ghost(base));
        b.cur_y = add_twips(b.cur_y, height);
        b.span = self.pick_span(para, area, b.cur_y, if height > probe_h { height } else { probe_h });
        let w = b.span.width();
        b.line_avail = if w > 1 {
            w
        } else {
            1
        };
    }

    /// A placeholder that ends the line: the open line is closed, an empty
    /// one taking the height of the run's font.
    fn break_at_placeholder(
        &self,
        b: &mut LineBuilder,
        para: &Para,
        area: Rect,
        run: &Run,
        page_break_after: bool,
        probe_h: Twips,
        Ghost(base): Ghost<int>,
    )
        requires
            old(b).inv(base),
            old(b).rule@ == para.line_rule,
            old(b).value@ == para.line_value,
        ensures
            final(b).inv(base),
            final(b).cur@.len() == 0,
            final(b).consumed == old(b).consumed,
            pb_lines(final(b).lines@) == pb_lines(old(b).lines@) + if page_break_after {
                1nat
            } else {
                0nat
            },
            final(b).first_indent == old(b).first_indent,
            final(b).cur_w <= final(b).line_avail,
            final(b).text == old(b).text,
            final(b).rule == old(b).rule,
            final(b).value == old(b).value,
    {
        let rule = para.line_rule;
        let value = para.line_value;
        let mut h = line_height(
            rule,
            value,
            clamp_twips(b.cur_ascent as i64 + b.cur_descent as i64),
            b.cur_natural,
        );
        if b.cur.len() == 0 && b.cur_w == 0 {
            // An empty line takes the run's font height, never 0.
            let m = self.metrics.empty_line_metrics(&run.font);
            b.cur_ascent = m.ascent;
            h = line_height(rule, value, clamp_twips(m.ascent as i64 + m.descent as i64), natural_of(&m));
        }
        let hf = line_height_fine(
            rule,
            value,
            clamp_twips(b.cur_ascent as i64 + b.cur_descent as i64),
            b.cur_natural_fine,
        );
        self.end_line(b, para, area, h, hf, page_break_after, probe_h, Ghost(base));
    }

    /// Lays out `cs[pos..pe]`, a part of a run free of placeholders,
    /// breaking lines where it does not fit.
    #[verifier::rlimit(60)]
    fn lay_part(
        &self,
        b: &mut LineBuilder,
        para: &Para,
        area: Rect,
        run: &Run,
        cs: &[char],
        pos: usize,
        pe: usize,
        probe_h: Twips,
        Ghost(base): Ghost<int>,
        Ghost(off): Ghost<int>,
        Ghost(oc): Ghost<int>,
    )
        requires
            0 <= oc,
            oc + cs@.len() <= old(b).text@.len(),
            old(b).text@.subrange(oc, oc + cs@.len()) == cs@,
            old(b).inv(base),
            old(b).rule@ == para.line_rule,
            old(b).value@ == para.line_value,
            pos <= pe <= cs@.len(),
            forall|j: int| pos <= j < pe ==> cs@[j] != OBJECT_PLACEHOLDER,
            off >= 0,
            old(b).consumed == clamp_u32_spec(off + utf16_len(cs@.take(pos as int))),
            old(b).cur_w <= old(b).line_avail,
        ensures
            final(b).inv(base),
            final(b).consumed == clamp_u32_spec(off + utf16_len(cs@.take(pe as int))),
            pb_lines(final(b).lines@) == pb_lines(old(b).lines@),
            final(b).first_indent == old(b).first_indent,
            final(b).cur_w <= final(b).line_avail,
            final(b).text == old(b).text,
            final(b).rule == old(b).rule,
            final(b).value == old(b).value,
    {
        let rule = para.line_rule;
        let value = para.line_value;
        let mut a = pos;
        while a < pe
            invariant
                b.inv(base),
                pos <= a <= pe <= cs@.len(),
                forall|j: int| pos <= j < pe ==> cs@[j] != OBJECT_PLACEHOLDER,
                off >= 0,
                b.consumed == clamp_u32_spec(off + utf16_len(cs@.take(a as int))),
                pb_lines(b.lines@) == pb_lines(old(b).lines@),
                b.first_indent == old(b).first_indent,
                b.cur_w <= b.line_avail,
                b.text == old(b).text,
                b.rule == old(b).rule,
                b.value == old(b).value,
                b.rule@ == para.line_rule,
                b.value@ == para.line_value,
                rule == para.line_rule,
                value == para.line_value,
                0 <= oc,
                oc + cs@.len() <= b.text@.len(),
                b.text@.subrange(oc, oc + cs@.len()) == cs@,
            decreases 2 * (pe - a) + (if b.cur@.len() > 0 { 1int } else { 0int }),
        {
            let remain: Twips = {
                let v: i64 = b.line_avail as i64 - b.cur_w as i64;
                if v > 0 {
                    clamp_twips(v)
                } else {
                    0
                }
            };
            let rest = string_of(cs, a, pe);
            let m_all = self.metrics.measure(rest.as_str(), &run.font);
            if m_all.advance <= remain {
                // The whole rest fits.
                let nf = self.metrics.natural_height_fine(rest.as_str(), &run.font);
                let ghost c0 = b.consumed;
                proof {
                    assert(b.text@.subrange(oc + a, oc + pe) =~= cs@.subrange(a as int, pe as int));
                }
                b.push_piece(cs, a, pe, run, &m_all, Some(nf), Ghost(base));
                proof {
                    lemma_advance(cs@, off, a as int, pe as int, c0);
                }
                a = pe;
            } else {
                // The longest prefix that fits, ending at a break.
                let fitted = self.metrics.fit(rest.as_str(), &run.font, remain);
                let mut handled = false;
                if let Some((cut, m)) = fitted {
                    if let Some(k) = char_count_at_offset(cs, a, pe, cut) {
                        if k > 0 {
                            // A wrapped line keeps the exact height too, or its
                            // step would differ from an unwrapped line's.
                            let piece = string_of(cs, a, a + k);
                            let nf = self.metrics.natural_height_fine(piece.as_str(), &run.font);
                            let ghost c0 = b.consumed;
                            proof {
                                assert(b.text@.subrange(oc + a, oc + a + k) =~= cs@.subrange(a as int, a + k));
                            }
                            b.push_piece(cs, a, a + k, run, &m, Some(nf), Ghost(base));
                            proof {
                                lemma_advance(cs@, off, a as int, a + k, c0);
                            }
                            // The spaces eaten at the break still take their
                            // source units.
                            let mut j = a + k;
                            while j < pe && cs[j] == ' '
                                invariant
                                    a + k <= j <= pe <= cs@.len(),
                                decreases pe - j,
                            {
                                j = j + 1;
                            }
                            let ghost c1 = b.consumed;
                            b.skip_units(cs, a + k, j, Ghost(base));
                            proof {
                                lemma_advance(cs@, off, a + k, j as int, c1);
                            }
                            a = j;
                            handled = true;
                        }
                    }
                }
                if !handled && b.cur.len() == 0 {
                    // Not even one break fits an empty line: force one
                    // character in, so that the loop makes progress.
                    let one = string_of(cs, a, a + 1);
                    let m = self.metrics.measure(one.as_str(), &run.font);
                    let nf = self.metrics.natural_height_fine(one.as_str(), &run.font);
                    let ghost c0 = b.consumed;
                    proof {
                        assert(b.text@.subrange(oc + a, oc + a + 1) =~= cs@.subrange(a as int, a + 1));
                    }
                    b.push_piece(cs, a, a + 1, run, &m, Some(nf), Ghost(base));
                    proof {
                        lemma_advance(cs@, off, a as int, a + 1, c0);
                    }
                    a = a + 1;
                }
                // End the line.
                let content = clamp_twips(b.cur_ascent as i64 + b.cur_descent as i64);
                let h = line_height(rule, value, content, b.cur_natural);
                let hf = line_height_fine(rule, value, content, b.cur_natural_fine);
                self.end_line(b, para, area, h, hf, false, probe_h, Ghost(base));
            }
        }
    }

    /// Breaks a paragraph into lines. `y` is where the paragraph starts (the
    /// room of each line depends on it when regions are present);
    /// `source_base` is the document-wide UTF-16 offset of its first
    /// character.
    #[verifier::rlimit(100)]
    fn break_paragraph(&self, para: &Para, area: Rect, y: Twips, source_base: u32) -> (lines: Vec<PendingLine>)
        ensures
            lines@.len() >= 1,
            forall|i: int| 0 <= i < lines@.len() ==> line_ok(#[trigger] lines@[i]),
            lines@[0].source_start == source_base,
            lines@.last().source_end == clamp_u32_spec(source_base + utf16_len(runs_text(para.runs@))),
            pb_lines(lines@) == runs_page_breaks(para.runs@),
            forall|i: int| 0 <= i < lines@.len() ==> line_width_ok(#[trigger] lines@[i], para.indent_first_line),
            forall|i: int|
                0 <= i < lines@.len() ==> para.line_rule == LineRule::Exact ==> (#[trigger] lines@[i]).height_fine
                    == max_int(para.line_value as int, 1) * 5,
            forall|i: int| 0 <= i < lines@.len() ==> pieces_in((#[trigger] lines@[i]).pieces@, runs_text(para.runs@)),
            forall|i: int| 0 <= i < lines@.len() ==> (#[trigger] lines@[i]).is_first == (i == 0),
            forall|i: int|
                0 <= i < lines@.len() - 1 ==> (#[trigger] lines@[i]).source_end == lines@[i + 1].source_start,
            lines@.last().is_last,
            forall|i: int| 0 <= i < lines@.len() - 1 ==> !(#[trigger] lines@[i]).is_last,
    {
        let rule = para.line_rule;
        let value = para.line_value;

        // An empty paragraph: the height comes from the paragraph mark's font.
        let mut all_empty = true;
        let mut ri: usize = 0;
        while ri < para.runs.len()
            invariant
                0 <= ri <= para.runs@.len(),
                all_empty == forall|j: int| 0 <= j < ri ==> (#[trigger] para.runs@[j]).text@.len() == 0,
            decreases para.runs@.len() - ri,
        {
            if !para.runs[ri].text.as_str().is_empty() {
                all_empty = false;
            }
            ri = ri + 1;
        }
        if all_empty {
            proof {
                lemma_runs_text_empty(para.runs@);
            }
            let font = if para.runs.len() > 0 {
                para.runs[0].font.clone()
            } else {
                FontSpec::new("Times New Roman", 24)
            };
            let m = self.metrics.empty_line_metrics(&font);
            let content = clamp_twips(m.ascent as i64 + m.descent as i64);
            let h = line_height(rule, value, content, natural_of(&m));
            let spans = self.line_spans(para, area, y, h);
            let span = match widest(&spans) {
                Some(s) => s,
                None => fitted_span(area.x as i64, area.x as i64 + area.width as i64),
            };
            let nf = self.metrics.natural_height_fine("", &font);
            let hf = line_height_fine(rule, value, content, nf);
            let mut lines: Vec<PendingLine> = Vec::new();
            lines.push(
                PendingLine {
                    height: h,
                    height_fine: hf,
                    baseline: m.ascent,
                    pieces: Vec::new(),
                    width: 0,
                    is_last: true,
                    is_first: true,
                    span,
                    page_break_after: false,
                    source_start: source_base,
                    source_end: source_base,
                },
            );
            assert(lines@.drop_last() =~= Seq::<PendingLine>::empty());
            assert(pb_lines(Seq::<PendingLine>::empty()) == 0);
            assert(pb_lines(lines@) == 0);
            assert(runs_page_breaks(para.runs@) == 0);
            return lines;
        }

        // The height used to probe the room of a line whose height is not
        // known yet: the natural height of the body font.
        let probe_m = if para.runs.len() > 0 {
            self.metrics.measure("", &para.runs[0].font)
        } else {
            self.metrics.measure("", &FontSpec::new("Times New Roman", 24))
        };
        let probe_natural = natural_of(&probe_m);
        let probe_h: Twips = if probe_natural > 1 {
            probe_natural
        } else {
            1
        };
        let span = self.pick_span(para, area, y, probe_h);
        // The first line loses the first-line indent.
        let first_avail: i64 = span.width() as i64 - para.indent_first_line as i64;
        let line_avail = clamp_twips(
            if first_avail > 1 {
                first_avail
            } else {
                1
            },
        );
        let mut b = LineBuilder {
            lines: Vec::new(),
            cur: Vec::new(),
            consumed: source_base,
            line_start: source_base,
            cur_w: 0,
            cur_ascent: 0,
            cur_descent: 0,
            cur_natural: 0,
            cur_natural_fine: 0,
            first_line: true,
            cur_y: y,
            span,
            line_avail,
            first_indent: para.indent_first_line,
            text: Ghost(runs_text(para.runs@)),
            rule: Ghost(para.line_rule),
            value: Ghost(para.line_value),
        };
        let ghost base = source_base as int;
        // Whether the open line was started by a soft break (not a page
        // break) with nothing after it yet, and in which run.
        let mut after_soft_break = false;
        let mut break_run: usize = 0;

        let mut ri: usize = 0;
        assert(para.runs@.take(0) =~= Seq::<Run>::empty());
        while ri < para.runs.len()
            invariant
                0 <= ri <= para.runs@.len(),
                after_soft_break ==> break_run < para.runs@.len(),
                b.inv(base),
                base == source_base,
                b.consumed == clamp_u32_spec(base + utf16_len(runs_text(para.runs@.take(ri as int)))),
                pb_lines(b.lines@) == runs_page_breaks(para.runs@.take(ri as int)),
                b.first_indent == para.indent_first_line,
                b.cur_w <= b.line_avail,
                b.text@ == runs_text(para.runs@),
                b.rule@ == para.line_rule,
                b.value@ == para.line_value,
            decreases para.runs@.len() - ri,
        {
            let run = &para.runs[ri];
            let cs = chars_of(run.text.as_str());
            let ghost prefix = runs_text(para.runs@.take(ri as int));
            let ghost outer_pb = runs_page_breaks(para.runs@.take(ri as int));
            let ghost off = base + utf16_len(prefix);
            proof {
                lemma_runs_text_step(para.runs@, ri as int);
                assert(cs@.take(0) =~= Seq::<char>::empty());
                lemma_runs_text_prefix(para.runs@, ri + 1);
                let whole = runs_text(para.runs@);
                let upto = runs_text(para.runs@.take(ri + 1));
                assert(upto == prefix + cs@);
                assert(whole.subrange(prefix.len() as int, (prefix.len() + cs@.len()) as int) =~= upto.subrange(
                    prefix.len() as int,
                    (prefix.len() + cs@.len()) as int,
                ));
                assert(upto.subrange(prefix.len() as int, (prefix.len() + cs@.len()) as int) =~= cs@);
            }
            let mut pos: usize = 0;
            let mut part_index: usize = 0;
            let mut more = true;
            while more
                invariant
                    run == para.runs@[ri as int],
                    cs@ == run.text@,
                    off == base + utf16_len(prefix),
                    base >= 0,
                    b.inv(base),
                    0 <= part_index <= pos <= cs@.len(),
                    0 <= ri < para.runs@.len(),
                    after_soft_break ==> break_run < para.runs@.len(),
                    more ==> b.consumed == clamp_u32_spec(off + utf16_len(cs@.take(pos as int))),
                    !more ==> b.consumed == clamp_u32_spec(off + utf16_len(cs@)),
                    more ==> placeholder_count(cs@.take(pos as int)) == part_index,
                    more ==> pb_lines(b.lines@) == outer_pb + run_page_breaks(*run, part_index - 1),
                    !more ==> placeholder_count(cs@) == part_index,
                    !more ==> pb_lines(b.lines@) == outer_pb + run_page_breaks(*run, part_index as int),
                    b.first_indent == para.indent_first_line,
                    b.cur_w <= b.line_avail,
                    b.text@ == runs_text(para.runs@),
                b.rule@ == para.line_rule,
                b.value@ == para.line_value,
                    prefix.len() + cs@.len() <= b.text@.len(),
                    b.text@.subrange(prefix.len() as int, (prefix.len() + cs@.len()) as int) == cs@,
                decreases cs@.len() - pos + (if more { 1int } else { 0int }),
            {
                // The end of this part: the next placeholder or the end.
                let mut pe = pos;
                while pe < cs.len() && cs[pe] != OBJECT_PLACEHOLDER
                    invariant
                        pos <= pe <= cs@.len(),
                        forall|j: int| pos <= j < pe ==> cs@[j] != OBJECT_PLACEHOLDER,
                        placeholder_count(cs@.take(pe as int)) == placeholder_count(cs@.take(pos as int)),
                    decreases cs@.len() - pe,
                {
                    proof {
                        assert(cs@.take(pe + 1).drop_last() =~= cs@.take(pe as int));
                    }
                    pe = pe + 1;
                }
                if part_index > 0 {
                    // The placeholder before this part is already counted;
                    // what it stands for decides whether the line ends.
                    let kind = if part_index - 1 < run.placeholders.len() {
                        run.placeholders[part_index - 1]
                    } else {
                        PlaceholderKind::Object
                    };
                    assert(kind == placeholder_kind(*run, part_index - 1));
                    if kind.breaks_line() {
                        self.break_at_placeholder(&mut b, para, area, run, kind.breaks_page(), probe_h, Ghost(base));
                        after_soft_break = !kind.breaks_page();
                        break_run = ri;
                    }
                }
                assert(pb_lines(b.lines@) == outer_pb + run_page_breaks(*run, part_index as int));
                self.lay_part(
                    &mut b,
                    para,
                    area,
                    run,
                    cs.as_slice(),
                    pos,
                    pe,
                    probe_h,
                    Ghost(base),
                    Ghost(off),
                    Ghost(prefix.len() as int),
                );
                if pe > pos {
                    after_soft_break = false;
                }
                if pe >= cs.len() {
                    assert(cs@.take(cs@.len() as int) =~= cs@);
                    more = false;
                } else {
                    proof {
                        assert(cs@.take(pe + 1).drop_last() =~= cs@.take(pe as int));
                    }
                    // Cross the placeholder: one source unit, no glyph.
                    let ghost c0 = b.consumed;
                    b.skip_units(cs.as_slice(), pe, pe + 1, Ghost(base));
                    proof {
                        lemma_advance(cs@, off, pe as int, pe + 1, c0);
                    }
                    pos = pe + 1;
                    part_index = part_index + 1;
                }
            }
            proof {
                crate::text::lemma_utf16_len_concat(prefix, cs@);
                assert(para.runs@.take(ri + 1).drop_last() =~= para.runs@.take(ri as int));
            }
            ri = ri + 1;
        }
        assert(para.runs@.take(para.runs@.len() as int) =~= para.runs@);

        // The last line.
        if b.cur.len() > 0 || b.lines.len() == 0 {
            let content = clamp_twips(b.cur_ascent as i64 + b.cur_descent as i64);
            let h = line_height(rule, value, content, b.cur_natural);
            let hf = line_height_fine(rule, value, content, b.cur_natural_fine);
            b.close_line(h, hf, false, Ghost(base));
        } else if after_soft_break {
            // A soft return at the very end leaves an empty line, of the
            // height of its run's font.
            let m = self.metrics.empty_line_metrics(&para.runs[break_run].font);
            b.cur_ascent = m.ascent;
            let h = line_height(rule, value, clamp_twips(m.ascent as i64 + m.descent as i64), natural_of(&m));
            let hf = line_height_fine(
                rule,
                value,
                clamp_twips(b.cur_ascent as i64 + b.cur_descent as i64),
                b.cur_natural_fine,
            );
            b.close_line(h, hf, false, Ghost(base));
        }
        mark_last(b.lines, b.consumed, Ghost(para.indent_first_line), Ghost(runs_text(para.runs@)))
    }
}

/// Marks the last of the lines as the paragraph's last.
fn mark_last(lines: Vec<PendingLine>, end: u32, Ghost(indent): Ghost<Twips>, Ghost(text): Ghost<Seq<char>>) -> (out:
    Vec<PendingLine>)
    requires
        lines@.len() >= 1,
        forall|i: int| 0 <= i < lines@.len() ==> pieces_in((#[trigger] lines@[i]).pieces@, text),
        forall|i: int| 0 <= i < lines@.len() ==> line_width_ok(#[trigger] lines@[i], indent),
        lines@.last().source_end <= end,
        forall|i: int| 0 <= i < lines@.len() ==> (#[trigger] lines@[i]).is_first == (i == 0),
        forall|i: int| 0 <= i < lines@.len() ==> line_ok(#[trigger] lines@[i]),
        forall|i: int| 0 <= i < lines@.len() ==> !(#[trigger] lines@[i]).is_last,
        forall|i: int|
            0 <= i < lines@.len() - 1 ==> (#[trigger] lines@[i]).source_end == lines@[i + 1].source_start,
    ensures
        out@.len() == lines@.len(),
        out@[0].source_start == lines@[0].source_start,
        out@.last().source_end == end,
        forall|i: int| 0 <= i < out@.len() ==> (#[trigger] out@[i]).is_first == (i == 0),
        forall|i: int| 0 <= i < out@.len() ==> line_ok(#[trigger] out@[i]),
        forall|i: int|
            0 <= i < out@.len() - 1 ==> (#[trigger] out@[i]).source_end == out@[i + 1].source_start,
        out@.last().is_last,
        forall|i: int| 0 <= i < out@.len() - 1 ==> !(#[trigger] out@[i]).is_last,
        pb_lines(out@) == pb_lines(lines@),
        forall|i: int| 0 <= i < out@.len() ==> line_width_ok(#[trigger] out@[i], indent),
        forall|i: int| 0 <= i < out@.len() ==> (#[trigger] out@[i]).height_fine == lines@[i].height_fine,
        forall|i: int| 0 <= i < out@.len() ==> pieces_in((#[trigger] out@[i]).pieces@, text),
{
    let mut lines = lines;
    let ghost before = lines@;
    let mut last = lines.pop().unwrap();
    last.is_last = true;
    // Source units consumed after the last line closed (a placeholder
    // that ends the paragraph) still belong to it.
    last.source_end = end;
    lines.push(last);
    proof {
        assert(lines@.drop_last() =~= before.drop_last());
        assert forall|i: int| 0 <= i < lines@.len() implies line_ok(#[trigger] lines@[i]) by {
            if i < lines@.len() - 1 {
                assert(lines@[i] == before[i]);
            }
        }
        assert forall|i: int| 0 <= i < lines@.len() - 1 implies (#[trigger] lines@[i]).source_end
            == lines@[i + 1].source_start by {
            assert(lines@[i] == before[i]);
            if i + 1 < lines@.len() - 1 {
                assert(lines@[i + 1] == before[i + 1]);
            }
        }
        assert forall|i: int| 0 <= i < lines@.len() - 1 implies !(#[trigger] lines@[i]).is_last by {
            assert(lines@[i] == before[i]);
        }
        if lines@.len() > 1 {
            assert(lines@[0] == before[0]);
        }
        assert forall|i: int| 0 <= i < lines@.len() implies (#[trigger] lines@[i]).is_first == (i == 0) by {
            if i < lines@.len() - 1 {
                assert(lines@[i] == before[i]);
            }
        }
        assert(lines@.drop_last() =~= before.drop_last());
        assert forall|i: int| 0 <= i < lines@.len() implies line_width_ok(#[trigger] lines@[i], indent)
            && pieces_in(lines@[i].pieces@, text) && lines@[i].height_fine == before[i].height_fine by {
            if i < lines@.len() - 1 {
                assert(lines@[i] == before[i]);
            }
        }
    }
    lines
}

} // verus!

verus! {

/// `v` saturated to the `Twips` range.
fn clamp_twips_wide(v: i128) -> (r: Twips)
    ensures
        r == clamp_twips_spec(v as int),
{
    if v > i32::MAX as i128 {
        i32::MAX
    } else if v < i32::MIN as i128 {
        i32::MIN
    } else {
        v as i32
    }
}

/// The first-line indent a line loses, if it is the first.
spec fn line_first(para: Para, line: PendingLine) -> int {
    if line.is_first {
        para.indent_first_line as int
    } else {
        0
    }
}

/// The room a line leaves: its span less the first-line indent and its
/// width, never negative.
spec fn line_slack(para: Para, line: PendingLine) -> int {
    max_int(max_int(line.span.spec_width() - line_first(para, line), 0) - line.width, 0)
}

/// The alignment offset: half the slack centred, all of it right aligned.
spec fn line_offset(para: Para, line: PendingLine) -> int {
    match para.align {
        Align::Center => line_slack(para, line) / 2,
        Align::Right => line_slack(para, line),
        _ => 0,
    }
}

/// The gap added before each piece of a justified line but the last line.
spec fn line_gap(para: Para, line: PendingLine) -> int {
    if para.align == Align::Justify && !line.is_last && line.pieces@.len() > 1 {
        line_slack(para, line) / (line.pieces@.len() - 1)
    } else {
        0
    }
}

/// Where the `i`th piece of a line starts.
spec fn piece_x(para: Para, line: PendingLine, i: int) -> Twips {
    clamp_twips_spec(
        line.span.start + line_first(para, line) + line_offset(para, line) + line.pieces@[i].dx + line_gap(
            para,
            line,
        ) * i,
    )
}

/// Where a line's fragments end: the line's end, and the terminator's
/// own characters on a paragraph's last line.
spec fn line_bound(para: Para, line: PendingLine) -> int {
    if line.is_last {
        clamp_u32_spec(line.source_end + para.terminator.spec_expected_glyphs()) as int
    } else {
        line.source_end as int
    }
}

impl<'m, M: FontMetrics> Engine<'m, M> {
    /// Puts a line on the page: aligned in its span, each piece a text
    /// fragment on the line's (quantized) baseline; an empty line still
    /// gets one fragment. Only the last piece of a paragraph's last line
    /// carries the paragraph's terminator.
    fn place_line(&self, page: &mut Page, line: &PendingLine, para: &Para, baseline_fine: i64, line_index: u32)
        requires
            line_ok(*line),
            line.span.width_fits(),
        ensures
            final(page).size == old(page).size,
            final(page).content_area == old(page).content_area,
            final(page).fragments@.len() == old(page).fragments@.len() + max_int(line.pieces@.len() as int, 1),
            final(page).fragments@.take(old(page).fragments@.len() as int) == old(page).fragments@,
            ({
                let new = final(page).fragments@.skip(old(page).fragments@.len() as int);
                &&& in_reading_order(new)
                &&& starts_from(new, line.source_start as int)
                &&& src_of(new[0]).0 == line.source_start
                &&& ends_by(
                    new,
                    if line.is_last {
                        clamp_u32_spec(line.source_end + para.terminator.spec_expected_glyphs()) as int
                    } else {
                        line.source_end as int
                    },
                )
                &&& forall|i: int|
                    0 <= i < new.len() ==> {
                        &&& (#[trigger] new[i])->Text_0.line == line_index
                        &&& new[i]->Text_0.source_node == para.source_node
                        &&& new[i]->Text_0.baseline_y == spec_coarse(new[i]->Text_0.baseline_fine as int)
                    }
                &&& forall|i: int|
                    0 <= i < line.pieces@.len() ==> (#[trigger] new[i])->Text_0.x == piece_x(*para, *line, i)
                &&& forall|i: int|
                    0 <= i < line.pieces@.len() ==> piece_placed(
                        #[trigger] new[i],
                        *para,
                        *line,
                        i,
                        baseline_fine as int,
                    )
                &&& line.pieces@.len() == 0 ==> empty_line_placed(new[0], *para, *line, baseline_fine as int)
            }),
    {
        let first: i64 = if line.is_first {
            para.indent_first_line as i64
        } else {
            0
        };
        let w: i64 = line.span.width() as i64;
        let avail: i64 = if w - first > 0 {
            w - first
        } else {
            0
        };
        let slack: i64 = if avail - line.width as i64 > 0 {
            avail - line.width as i64
        } else {
            0
        };
        let offset: i64 = match para.align {
            Align::Center => slack / 2,
            Align::Right => slack,
            _ => 0,
        };
        let n = line.pieces.len();
        proof {
            assert(0 <= slack <= 0x2_0000_0000);
        }
        let gap: i64 = if matches!(para.align, Align::Justify) && !line.is_last && n > 1 {
            let g: i128 = slack as i128 / (n - 1) as i128;
            proof {
                assert(0 <= g <= slack) by (nonlinear_arith)
                    requires
                        g == (slack as int) / ((n - 1) as int),
                        0 <= slack,
                        n - 1 >= 1,
                ;
            }
            g as i64
        } else {
            0
        };
        proof {
            assert(gap == line_gap(*para, *line));
        }
        let base_x: i64 = line.span.start as i64 + first;
        let baseline_y = coarse(baseline_fine);
        let ghost old_len = page.fragments@.len();
        let mut i: usize = 0;
        while i < n
            invariant
                0 <= i <= n,
                n == line.pieces@.len(),
                line_ok(*line),
                page.size == old(page).size,
                page.content_area == old(page).content_area,
                page.fragments@.len() == old_len + i,
                old_len == old(page).fragments@.len(),
                page.fragments@.take(old_len as int) == old(page).fragments@,
                base_x == line.span.start + line_first(*para, *line),
                offset == line_offset(*para, *line),
                gap == line_gap(*para, *line),
                0 <= gap <= 0x2_0000_0000,
                -0x1_0000_0000 <= base_x <= 0x1_0000_0000,
                0 <= offset <= 0x2_0000_0000,
                forall|k: int|
                    0 <= k < i ==> {
                        let f = #[trigger] page.fragments@[old_len + k];
                        &&& frag_ok(f)
                        &&& f->Text_0.line == line_index
                        &&& f->Text_0.source_node == para.source_node
                        &&& f->Text_0.baseline_y == spec_coarse(f->Text_0.baseline_fine as int)
                        &&& f->Text_0.x == piece_x(*para, *line, k)
                        &&& (k > 0 ==> src_of(f).0 == line.pieces@[k].source.0)
                        &&& (k == 0 ==> src_of(f).0 == line.source_start)
                        &&& (k < n - 1 ==> src_of(f).1 == line.pieces@[k].source.1)
                        &&& (k == n - 1 ==> src_of(f).1 <= line_bound(*para, *line))
                        &&& piece_placed(f, *para, *line, k, baseline_fine as int)
                    },
            decreases n - i,
        {
            let p = &line.pieces[i];
            proof {
                assert(0 <= gap as int * i as int <= 0x2_0000_0000 * 0x1_0000_0000_0000_0000) by (nonlinear_arith)
                    requires
                        0 <= gap <= 0x2_0000_0000,
                        0 <= i <= 0xffff_ffff_ffff_ffff,
                ;
            }
            let x = clamp_twips_wide(
                base_x as i128 + offset as i128 + p.dx as i128 + gap as i128 * i as i128,
            );
            let terminator = if line.is_last && i == n - 1 {
                para.terminator
            } else {
                LineTerminator::Wrapped
            };
            // The line's first fragment covers what precedes it on the line
            // (a leading placeholder); its last fragment covers the rest of
            // the line: the spaces eaten at a wrap and a placeholder that
            // ended it.
            let s0 = if i == 0 {
                line.source_start
            } else {
                p.source.0
            };
            let s1 = if i == n - 1 && p.source.1 < line.source_end {
                line.source_end
            } else {
                p.source.1
            };
            let src = (s0, s1);
            let (text, source) = with_terminator_glyphs(p.text.as_str(), src, line.source_end, terminator);
            let bf = add_fine(baseline_fine, -fine(p.rise));
            let frag = Fragment::Text(
                TextFragment {
                    x,
                    baseline_y: coarse(bf),
                    baseline_fine: bf,
                    text,
                    font: p.font.clone(),
                    color: p.color,
                    source_node: para.source_node,
                    terminator,
                    source: Some(source),
                    rise: p.rise,
                    line: line_index,
                },
            );
            proof {
                let ps = line.pieces@;
                assert(no_placeholder(ps[i as int].text@));
                assert(no_placeholder(text@));
            }
            page.fragments.push(frag);
            proof {
                assert(page.fragments@.take(old_len as int) =~= old(page).fragments@);
                assert forall|k: int| 0 <= k < i + 1 implies {
                    let f = #[trigger] page.fragments@[old_len + k];
                    &&& frag_ok(f)
                    &&& f->Text_0.line == line_index
                    &&& f->Text_0.source_node == para.source_node
                    &&& f->Text_0.baseline_y == spec_coarse(f->Text_0.baseline_fine as int)
                    &&& f->Text_0.x == piece_x(*para, *line, k)
                    &&& (k > 0 ==> src_of(f).0 == line.pieces@[k].source.0)
                    &&& (k == 0 ==> src_of(f).0 == line.source_start)
                    &&& (k < n - 1 ==> src_of(f).1 == line.pieces@[k].source.1)
                    &&& (k == n - 1 ==> src_of(f).1 <= line_bound(*para, *line))
                    &&& piece_placed(f, *para, *line, k, baseline_fine as int)
                } by {
                    if k == i {
                        assert(page.fragments@[old_len + k] == frag);
                    }
                }
            }
            i = i + 1;
        }
        if n == 0 {
            // An empty line still gets one fragment, so that it is seen.
            let terminator = if line.is_last {
                para.terminator
            } else {
                LineTerminator::Wrapped
            };
            let (text, source) = with_terminator_glyphs(
                "",
                (line.source_start, line.source_end),
                line.source_end,
                terminator,
            );
            let font = if para.runs.len() > 0 {
                para.runs[0].font.clone()
            } else {
                FontSpec::new("Times New Roman", 24)
            };
            let color = if para.runs.len() > 0 {
                para.runs[0].color
            } else {
                Color::black()
            };
            let frag = Fragment::Text(
                TextFragment {
                    x: clamp_twips_wide(base_x as i128 + offset as i128),
                    baseline_y,
                    baseline_fine,
                    text,
                    font,
                    color,
                    source_node: para.source_node,
                    terminator,
                    source: Some(source),
                    rise: 0,
                    line: line_index,
                },
            );
            proof {
                assert(no_placeholder(text@)) by {
                    reveal_strlit("");
                }
            }
            page.fragments.push(frag);
            proof {
                assert(page.fragments@.take(old_len as int) =~= old(page).fragments@);
                assert(""@ =~= Seq::<char>::empty()) by {
                    reveal_strlit("");
                }
                assert(page.fragments@.skip(old_len as int)[0] == frag);
            }
        }
        proof {
            let new = page.fragments@.skip(old_len as int);
            assert forall|k: int| 0 <= k < new.len() implies new[k] == page.fragments@[old_len + k] by {}
            assert forall|k: int| 0 <= k < n implies piece_placed(
                #[trigger] new[k],
                *para,
                *line,
                k,
                baseline_fine as int,
            ) by {
                assert(new[k] == page.fragments@[old_len + k]);
            }
            if n > 0 {
                assert forall|a: int, c: int| 0 <= a < c < new.len() implies src_of(#[trigger] new[a]).1 <= src_of(
                    #[trigger] new[c],
                ).0 by {
                    assert(new[a] == page.fragments@[old_len + a]);
                    assert(new[c] == page.fragments@[old_len + c]);
                    let ps = line.pieces@;
                    assert(ps[a].source.1 <= ps[c].source.0);
                }
                assert forall|k: int| 0 <= k < new.len() implies frag_ok(#[trigger] new[k]) by {
                    assert(new[k] == page.fragments@[old_len + k]);
                }
                assert forall|k: int| 0 <= k < new.len() implies line.source_start <= src_of(#[trigger] new[k]).0 by {
                    assert(new[k] == page.fragments@[old_len + k]);
                    let ps = line.pieces@;
                    assert(line.source_start <= ps[k].source.0);
                }
                assert forall|k: int| 0 <= k < new.len() implies src_of(#[trigger] new[k]).1 <= (if line.is_last {
                    clamp_u32_spec(line.source_end + para.terminator.spec_expected_glyphs()) as int
                } else {
                    line.source_end as int
                }) by {
                    assert(new[k] == page.fragments@[old_len + k]);
                    let ps = line.pieces@;
                    assert(ps[k].source.1 <= line.source_end);
                }
            }
        }
    }
}

} // verus!

verus! {

/// The UTF-16 units of a paragraph's text.
pub open spec fn para_units(p: Para) -> nat {
    utf16_len(runs_text(p.runs@))
}

/// The document-wide offset at which paragraph `k` starts: the text of
/// every paragraph before it and one unit for each of their terminators,
/// saturated to `u32`.
pub open spec fn para_base(paras: Seq<Para>, k: int) -> u32
    decreases k,
{
    if k <= 0 {
        0
    } else {
        clamp_u32_spec(para_base(paras, k - 1) + para_units(paras[k - 1]) + 1)
    }
}

/// The page-break placeholders of a document.
pub open spec fn doc_page_breaks(paras: Seq<Para>) -> nat
    decreases paras.len(),
{
    if paras.len() == 0 {
        0
    } else {
        doc_page_breaks(paras.drop_last()) + runs_page_breaks(paras.last().runs@)
    }
}

/// `cuts` splits the fragments paragraph by paragraph: paragraph `k` has
/// the fragments from `cuts[k]` to `cuts[k + 1]`, at least one, the first
/// starting where the paragraph starts and all within its source range.
pub open spec fn paragraph_cuts(frags: Seq<Fragment>, paras: Seq<Para>, cuts: Seq<int>) -> bool {
    &&& cuts.len() == paras.len() + 1
    &&& cuts[0] == 0
    &&& cuts[paras.len() as int] == frags.len()
    &&& forall|k: int, j: int| 0 <= k < j <= paras.len() ==> #[trigger] cuts[k] < #[trigger] cuts[j]
    &&& forall|k: int| 0 <= k < paras.len() ==> src_of(frags[#[trigger] cuts[k]]).0 == para_base(paras, k)
    &&& forall|k: int, i: int|
        #![trigger frags[i], cuts[k]]
        0 <= k < paras.len() && cuts[k] <= i < cuts[k + 1] ==> para_frag_ok(frags[i], paras, k)
}

/// A fragment of paragraph `k`: within the paragraph's source range, its
/// text a stretch of the paragraph's text followed by its terminator's
/// glyphs.
#[verifier::opaque]
pub open spec fn para_frag_ok(f: Fragment, paras: Seq<Para>, k: int) -> bool {
    &&& para_base(paras, k) <= src_of(f).0
    &&& src_of(f).1 <= para_base(paras, k + 1)
    &&& text_from(f, runs_text(paras[k].runs@))
}

/// Laying paragraph `idx` out after the first `idx` extends the cuts by
/// one.
#[verifier::rlimit(100)]
#[verifier::spinoff_prover]
proof fn lemma_cuts_step(before: Seq<Fragment>, after: Seq<Fragment>, paras: Seq<Para>, cuts: Seq<int>, idx: int)
    requires
        0 <= idx < paras.len(),
        cuts_upto(before, paras, cuts, idx),
        after.len() > before.len(),
        after.take(before.len() as int) == before,
        src_of(after[before.len() as int]).0 == para_base(paras, idx),
        forall|i: int| before.len() <= i < after.len() ==> para_frag_ok(#[trigger] after[i], paras, idx),
    ensures
        cuts_upto(after, paras, cuts.push(after.len() as int), idx + 1),
{
    let n = before.len();
    let new_cuts = cuts.push(after.len() as int);
    assert forall|k: int, j: int| 0 <= k < j <= idx + 1 implies #[trigger] new_cuts[k] < #[trigger] new_cuts[j] by {
        assert(new_cuts[k] == cuts[k]);
        if j <= idx {
            assert(new_cuts[j] == cuts[j]);
        } else if k < idx {
            assert(cuts[k] < cuts[idx]);
        }
    }
    assert forall|k: int| 0 <= k <= idx implies src_of(after[#[trigger] new_cuts[k]]).0 == para_base(paras, k) by {
        assert(new_cuts[k] == cuts[k]);
        if k < idx {
            assert(after[cuts[k]] == after.take(n as int)[cuts[k]]);
        }
    }
    assert forall|k: int, i: int|
        #![trigger after[i], new_cuts[k]]
        0 <= k <= idx && new_cuts[k] <= i < new_cuts[k + 1] implies para_frag_ok(after[i], paras, k) by {
        if k < idx {
            assert(new_cuts[k] == cuts[k]);
            assert(new_cuts[k + 1] == cuts[k + 1]);
            assert(after[i] == after.take(n as int)[i]);
            assert(cuts[k] <= i < cuts[k + 1]);
            assert(before[i] == after[i]);
        }
    }
}

/// `paragraph_cuts` for the first `n` paragraphs.
spec fn cuts_upto(frags: Seq<Fragment>, paras: Seq<Para>, cuts: Seq<int>, n: int) -> bool {
    &&& cuts.len() == n + 1
    &&& cuts[0] == 0
    &&& cuts[n] == frags.len()
    &&& forall|k: int, j: int| 0 <= k < j <= n ==> #[trigger] cuts[k] < #[trigger] cuts[j]
    &&& forall|k: int| 0 <= k < n ==> src_of(frags[#[trigger] cuts[k]]).0 == para_base(paras, k)
    &&& forall|k: int, i: int|
        #![trigger frags[i], cuts[k]]
        0 <= k < n && cuts[k] <= i < cuts[k + 1] ==> para_frag_ok(frags[i], paras, k)
}

/// The fragments' line numbers never decrease.
pub open spec fn lines_sorted(fs: Seq<Fragment>) -> bool {
    forall|i: int, j: int| 0 <= i < j < fs.len() ==> (#[trigger] fs[i])->Text_0.line <= (#[trigger] fs[j])->Text_0.line
}

/// A page of the given geometry whose fragments come line by line.
pub open spec fn page_ok(p: Page, size: Size, area: Rect) -> bool {
    &&& p.size == size
    &&& p.content_area == area
    &&& lines_sorted(p.fragments@)
}

/// The UTF-16 units of a paragraph's text, saturated to `u32`.
fn units_of(para: &Para) -> (n: u32)
    ensures
        n == clamp_u32_spec(para_units(*para) as int),
{
    let mut total: u64 = 0;
    let mut ri: usize = 0;
    assert(para.runs@.take(0) =~= Seq::<Run>::empty());
    while ri < para.runs.len()
        invariant
            0 <= ri <= para.runs@.len(),
            total == clamp_u32_spec(utf16_len(runs_text(para.runs@.take(ri as int))) as int),
        decreases para.runs@.len() - ri,
    {
        let cs = chars_of(para.runs[ri].text.as_str());
        proof {
            lemma_runs_text_step(para.runs@, ri as int);
            crate::text::lemma_utf16_len_concat(runs_text(para.runs@.take(ri as int)), cs@);
            assert(cs@.subrange(0, cs@.len() as int) =~= cs@);
        }
        total = match utf16_count(cs.as_slice(), 0, cs.len()) {
            Some(k) => clamp_u32(total + k as u64) as u64,
            None => u32::MAX as u64,
        };
        ri = ri + 1;
    }
    assert(para.runs@.take(para.runs@.len() as int) =~= para.runs@);
    total as u32
}

proof fn lemma_all_fragments_push(pages: Seq<Page>, p: Page)
    ensures
        all_fragments(pages.push(p)) == all_fragments(pages) + p.fragments@,
{
    assert(pages.push(p).drop_last() =~= pages);
}

/// How one line was placed: the trace of the layout loop. Vertical
/// positions are in fine units (1/7200 inch).
#[derive(Debug, Clone, Copy, PartialEq, Eq)]
pub struct LineMark {
    /// The page the line is on, from 0.
    pub page: usize,
    /// The paragraph the line belongs to, from 0.
    pub para: usize,
    /// The cursor when the line came to be placed.
    pub cursor_fine: i64,
    /// The room the line asked for below the cursor: its height, and on a
    /// paragraph's last line kept with the next, that line's too.
    pub needed_fine: i128,
    /// The page held text when the line came to be placed.
    pub had_text: bool,
    /// The line did not fit on a page with text and went to a new page.
    pub turned: bool,
    /// The line's top: the content top after a turn, else the cursor.
    pub top_fine: i64,
    /// The line's exact height; the cursor moves down by it.
    pub height_fine: i64,
    /// The line's quantized baseline.
    pub baseline_fine: i64,
    /// The source range the line covers.
    pub source_start: u32,
    pub source_end: u32,
    /// The paragraph's last line.
    pub is_last: bool,
    /// A manual page break follows the line.
    pub page_break_after: bool,
}

/// The placement rule of one line: it goes to a new page exactly when it
/// does not fit below the cursor on a page that already holds text, and
/// then its top is the content top; otherwise its top is the cursor.
pub open spec fn mark_placed(m: LineMark, area: Rect) -> bool {
    let bottom = (area.y + area.height) * 5;
    &&& m.turned == (m.cursor_fine + m.needed_fine > bottom && m.had_text)
    &&& m.top_fine == if m.turned {
        area.y * 5
    } else {
        m.cursor_fine as int
    }
}

/// Where the cursor is after a line: at the content top when a page
/// break follows it, else below the line.
pub open spec fn cursor_after(m: LineMark, area: Rect) -> int {
    if m.page_break_after {
        area.y * 5
    } else {
        clamp_i64_spec(m.top_fine + m.height_fine) as int
    }
}

/// Line `j + 1` of a paragraph follows line `j`: its cursor is where `j`
/// left it, its page held text unless a page break followed `j`, and it is
/// on `j`'s page unless that break or its own turn moved it on.
pub open spec fn follows(ms: Seq<LineMark>, j: int, area: Rect) -> bool {
    let a = ms[j];
    let b = ms[j + 1];
    &&& b.cursor_fine == cursor_after(a, area)
    &&& b.had_text == !a.page_break_after
    &&& b.page == a.page + (if a.page_break_after {
        1int
    } else {
        0int
    }) + (if b.turned {
        1int
    } else {
        0int
    })
}

/// The marks of paragraph `idx`: at least one, each placed by the rule,
/// each following the one before, the last one the paragraph's last line;
/// a line asks for its own height, the last one of a paragraph kept with
/// the next also for the next paragraph's first line; under exact spacing
/// every line is as high as the rule's value (at least one twip).
#[verifier::opaque]
pub open spec fn para_marks(ms: Seq<LineMark>, paras: Seq<Para>, idx: int, area: Rect) -> bool {
    &&& ms.len() >= 1
    &&& forall|j: int|
        0 <= j < ms.len() ==> {
            &&& (#[trigger] ms[j]).para == idx
            &&& mark_placed(ms[j], area)
            &&& ms[j].is_last == (j == ms.len() - 1)
            &&& !(ms[j].is_last && paras[idx].keep_next && idx + 1 < paras.len()) ==> ms[j].needed_fine
                == ms[j].height_fine
            &&& paras[idx].line_rule == LineRule::Exact ==> ms[j].height_fine == max_int(
                paras[idx].line_value as int,
                1,
            ) * 5
        }
    &&& forall|j: int| 0 <= j < ms.len() - 1 ==> #[trigger] follows(ms, j, area)
}

/// The marks of the first lines of paragraph `idx` so far, by the
/// paragraph's rules (see `para_marks`).
#[verifier::opaque]
spec fn marks_so_far(
    ms: Seq<LineMark>,
    lines: Seq<PendingLine>,
    paras: Seq<Para>,
    idx: int,
    area: Rect,
    first_page: int,
) -> bool {
    &&& ms.len() <= lines.len()
    &&& forall|j: int|
        0 <= j < ms.len() ==> {
            &&& (#[trigger] ms[j]).para == idx
            &&& mark_placed(ms[j], area)
            &&& ms[j].is_last == lines[j].is_last
            &&& ms[j].page >= first_page
            &&& ms[j].height_fine == lines[j].height_fine
            &&& !(ms[j].is_last && paras[idx].keep_next && idx + 1 < paras.len()) ==> ms[j].needed_fine
                == ms[j].height_fine
        }
    &&& forall|j: int| 0 <= j < ms.len() - 1 ==> #[trigger] follows(ms, j, area)
}

/// Placing line `li` of paragraph `idx` extends the paragraph's marks.
proof fn lemma_marks_step(
    before: Seq<LineMark>,
    after: Seq<LineMark>,
    k0: int,
    li: int,
    lines: Seq<PendingLine>,
    paras: Seq<Para>,
    idx: int,
    area: Rect,
    first_page: int,
)
    requires
        0 <= k0,
        0 <= li < lines.len(),
        before.len() == k0 + li,
        after.drop_last() == before,
        after.len() == before.len() + 1,
        marks_so_far(before.skip(k0), lines, paras, idx, area, first_page),
        ({
            let m = after.last();
            &&& m.para == idx
            &&& mark_placed(m, area)
            &&& m.is_last == lines[li].is_last
            &&& m.page >= first_page
            &&& m.height_fine == lines[li].height_fine
            &&& !(m.is_last && paras[idx].keep_next && idx + 1 < paras.len()) ==> m.needed_fine == m.height_fine
            &&& li > 0 ==> {
                let p = before.last();
                &&& m.cursor_fine == cursor_after(p, area)
                &&& m.had_text == !p.page_break_after
                &&& m.page == p.page + (if p.page_break_after {
                    1int
                } else {
                    0int
                }) + (if m.turned {
                    1int
                } else {
                    0int
                })
            }
        }),
    ensures
        after.take(k0) == before.take(k0),
        after.skip(k0).last() == after.last(),
        forall|j: int| 0 <= j < li ==> after.skip(k0)[j] == before.skip(k0)[j],
        marks_so_far(after.skip(k0), lines, paras, idx, area, first_page),
{
    reveal(marks_so_far);
    let nm = after.skip(k0);
    let om = before.skip(k0);
    assert(after.take(k0) =~= before.take(k0));
    assert(nm.drop_last() =~= om);
    assert(nm[li] == after.last());
    if li > 0 {
        assert(om[li - 1] == before.last());
    }
    assert forall|j: int| 0 <= j < nm.len() implies {
        &&& (#[trigger] nm[j]).para == idx
        &&& mark_placed(nm[j], area)
        &&& nm[j].is_last == lines[j].is_last
        &&& nm[j].page >= first_page
        &&& nm[j].height_fine == lines[j].height_fine
        &&& !(nm[j].is_last && paras[idx].keep_next && idx + 1 < paras.len()) ==> nm[j].needed_fine
            == nm[j].height_fine
    } by {
        if j < li {
            assert(nm[j] == om[j]);
        }
    }
    assert forall|j: int| 0 <= j < nm.len() - 1 implies #[trigger] follows(nm, j, area) by {
        assert(nm[j] == om[j]);
        if j + 1 < li {
            assert(nm[j + 1] == om[j + 1]);
            assert(follows(om, j, area));
        }
    }
}

/// The trace `marks` of laying `paras` out on `pages`: the marks split
/// paragraph by paragraph, each line placed by the rule and following the
/// line before, and the pages are those of the last line plus the one a
/// page break after it opens (one page and no mark without paragraphs).
pub open spec fn laid_out_by(pages: Seq<Page>, marks: Seq<LineMark>, paras: Seq<Para>, area: Rect) -> bool {
    &&& exists|mcuts: Seq<int>| mark_cuts_upto(marks, paras, mcuts, paras.len() as int, area)
    &&& paras.len() == 0 ==> marks.len() == 0 && pages.len() == 1
    &&& paras.len() > 0 ==> marks.len() > 0 && pages.len() == marks.last().page + 1 + break_after(marks.last())
}

/// The exact height of lines one after another, in fine units, summed the
/// way the cursor moves (saturating at each step).
pub open spec fn marks_height(ms: Seq<LineMark>) -> int
    decreases ms.len(),
{
    if ms.len() == 0 {
        0
    } else {
        clamp_i64_spec(marks_height(ms.drop_last()) + ms.last().height_fine) as int
    }
}

spec fn lines_height(ls: Seq<PendingLine>) -> int
    decreases ls.len(),
{
    if ls.len() == 0 {
        0
    } else {
        clamp_i64_spec(lines_height(ls.drop_last()) + ls.last().height_fine) as int
    }
}

proof fn lemma_heights_agree(ms: Seq<LineMark>, ls: Seq<PendingLine>)
    requires
        ms.len() == ls.len(),
        forall|j: int| 0 <= j < ms.len() ==> (#[trigger] ms[j]).height_fine == ls[j].height_fine,
    ensures
        marks_height(ms) == lines_height(ls),
    decreases ms.len(),
{
    if ms.len() > 0 {
        lemma_heights_agree(ms.drop_last(), ls.drop_last());
    }
}

/// Where a paragraph's first line comes to be placed, after the state
/// `(cursor, had_text)` the paragraph before left: a page break before it
/// turns a page that holds text, then the space before it is added, and a
/// paragraph kept together that does not fit, on a page that holds text,
/// moves to a new page. Gives the cursor, whether the page holds text and
/// how many pages were turned.
pub open spec fn para_start(p: Para, cursor: int, had_text: bool, block: int, area: Rect) -> (int, bool, int) {
    let pb = p.page_break_before && had_text;
    let c1 = clamp_i64_spec((if pb {
        area.y * 5
    } else {
        cursor
    }) + p.space_before * 5) as int;
    let h1 = had_text && !pb;
    let kt = p.keep_lines && c1 + block > (area.y + area.height) * 5 && h1;
    (if kt {
        area.y * 5
    } else {
        c1
    }, h1 && !kt, (if pb {
        1int
    } else {
        0int
    }) + (if kt {
        1int
    } else {
        0int
    }))
}

/// One more page when a page break follows the mark's line.
pub open spec fn break_after(m: LineMark) -> int {
    if m.page_break_after {
        1
    } else {
        0
    }
}

/// `mcuts` splits the marks paragraph by paragraph, for the first `n`
/// paragraphs: each paragraph's marks follow its rules, and a paragraph
/// starts no earlier than the page where the one before it left off.
#[verifier::opaque]
pub open spec fn mark_cuts_upto(marks: Seq<LineMark>, paras: Seq<Para>, mcuts: Seq<int>, n: int, area: Rect) -> bool {
    &&& mcuts.len() == n + 1
    &&& mcuts[0] == 0
    &&& mcuts[n] == marks.len()
    &&& forall|i: int, j: int| 0 <= i < j <= n ==> #[trigger] mcuts[i] < #[trigger] mcuts[j]
    &&& forall|k: int|
        0 <= k < n ==> #[trigger] para_marks(marks.subrange(mcuts[k], mcuts[k + 1]), paras, k, area)
            && para_entered(marks, paras, mcuts, k, area)
}

/// The state the paragraph before `k` left: its last line's cursor plus
/// its space after, whether the page holds text, and the number of pages
/// closed; at the start, the content top of an empty first page.
pub open spec fn para_entry(marks: Seq<LineMark>, paras: Seq<Para>, mcuts: Seq<int>, k: int, area: Rect) -> (
    int,
    bool,
    int,
) {
    if k == 0 {
        (area.y * 5, false, 0)
    } else {
        let l = marks[mcuts[k] - 1];
        (
            clamp_i64_spec(cursor_after(l, area) + paras[k - 1].space_after * 5) as int,
            !l.page_break_after,
            l.page + break_after(l),
        )
    }
}

/// Paragraph `k`'s first line is placed from the state the paragraph
/// before left, by `para_start`.
pub open spec fn para_entered(marks: Seq<LineMark>, paras: Seq<Para>, mcuts: Seq<int>, k: int, area: Rect) -> bool {
    let e = para_entry(marks, paras, mcuts, k, area);
    let first = marks[mcuts[k]];
    let st = para_start(paras[k], e.0, e.1, marks_height(marks.subrange(mcuts[k], mcuts[k + 1])), area);
    &&& first.cursor_fine == st.0
    &&& first.had_text == st.1
    &&& first.page == e.2 + st.2 + if first.turned {
        1int
    } else {
        0int
    }
}

/// Laying paragraph `idx` out extends the mark cuts by one.
#[verifier::rlimit(100)]
#[verifier::spinoff_prover]
proof fn lemma_mark_cuts_step(
    before: Seq<LineMark>,
    after: Seq<LineMark>,
    paras: Seq<Para>,
    mcuts: Seq<int>,
    idx: int,
    area: Rect,
)
    requires
        0 <= idx,
        mark_cuts_upto(before, paras, mcuts, idx, area),
        after.len() > before.len(),
        after.take(before.len() as int) == before,
        para_marks(after.skip(before.len() as int), paras, idx, area),
        ({
            let e = para_entry(before, paras, mcuts, idx, area);
            let first = after[before.len() as int];
            let st = para_start(paras[idx], e.0, e.1, marks_height(after.skip(before.len() as int)), area);
            &&& first.cursor_fine == st.0
            &&& first.had_text == st.1
            &&& first.page == e.2 + st.2 + if first.turned {
                1int
            } else {
                0int
            }
        }),
    ensures
        mark_cuts_upto(after, paras, mcuts.push(after.len() as int), idx + 1, area),
{
    reveal(mark_cuts_upto);
    let n = before.len() as int;
    let nc = mcuts.push(after.len() as int);
    assert(nc.len() == idx + 2);
    assert(nc[0] == 0);
    assert(nc[idx + 1] == after.len());
    assert(nc[idx] == n);
    assert forall|i: int, j: int| 0 <= i < j <= idx + 1 implies #[trigger] nc[i] < #[trigger] nc[j] by {
        assert(nc[i] == mcuts[i]);
        if j <= idx {
            assert(nc[j] == mcuts[j]);
        } else if i < idx {
            assert(mcuts[i] < mcuts[idx]);
        }
    }
    assert forall|k: int| 0 <= k < idx + 1 implies #[trigger] para_marks(
        after.subrange(nc[k], nc[k + 1]),
        paras,
        k,
        area,
    ) && para_entered(after, paras, nc, k, area) by {
        if k < idx {
            assert(nc[k] == mcuts[k]);
            assert(nc[k + 1] == mcuts[k + 1]);
            assert(para_marks(before.subrange(mcuts[k], mcuts[k + 1]), paras, k, area));
            assert(mcuts[0] <= mcuts[k] < mcuts[k + 1]);
            if k + 1 < idx {
                assert(mcuts[k + 1] < mcuts[idx]);
            }
            assert(after.subrange(mcuts[k], mcuts[k + 1]) =~= before.subrange(mcuts[k], mcuts[k + 1]));
            assert(after[mcuts[k]] == after.take(n)[mcuts[k]]);
            if k > 0 {
                assert(mcuts[0] < mcuts[k]);
                assert(after[mcuts[k] - 1] == after.take(n)[mcuts[k] - 1]);
            }
            assert(para_entry(after, paras, nc, k, area) == para_entry(before, paras, mcuts, k, area));
        } else {
            assert(nc[k] == n);
            assert(after.subrange(n, after.len() as int) =~= after.skip(n));
            if k > 0 {
                assert(mcuts[0] < mcuts[k]);
                assert(after[n - 1] == after.take(n)[n - 1]);
                assert(before.last() == before[n - 1]);
            }
            assert(para_entry(after, paras, nc, k, area) == para_entry(before, paras, mcuts, k, area));
        }
    }
}

/// The pages laid out so far, the open page and the vertical cursor.
struct Flow {
    pages: Vec<Page>,
    page: Page,
    /// The vertical cursor in fine units.
    cursor_fine: i64,
    /// The line number on the open page.
    line_index: u32,
    /// How each line placed so far was placed.
    marks: Vec<LineMark>,
}

impl Flow {
    /// Every fragment placed so far, in order.
    spec fn placed(&self) -> Seq<Fragment> {
        all_fragments(self.pages@) + self.page.fragments@
    }

    spec fn inv(&self, size: Size, area: Rect) -> bool {
        &&& forall|i: int| 0 <= i < self.pages@.len() ==> page_ok(#[trigger] self.pages@[i], size, area)
        &&& forall|i: int| 0 <= i < self.pages@.len() ==> (#[trigger] self.pages@[i]).fragments@.len() > 0
        &&& page_ok(self.page, size, area)
        &&& forall|i: int|
            0 <= i < self.page.fragments@.len() ==> (#[trigger] self.page.fragments@[i])->Text_0.line
                <= self.line_index
        &&& in_reading_order(self.placed())
    }

    /// Closes the open page, which holds something, and opens an empty one
    /// at the top of the area.
    fn turn_page(&mut self, size: Size, area: Rect)
        requires
            old(self).inv(size, area),
            old(self).page.fragments@.len() > 0,
        ensures
            final(self).inv(size, area),
            final(self).placed() == old(self).placed(),
            final(self).page.fragments@.len() == 0,
            final(self).cursor_fine == area.y * 5,
            final(self).line_index == 0,
            final(self).pages@.len() == old(self).pages@.len() + 1,
            final(self).marks@ == old(self).marks@,
    {
        let mut page = Page::new(size, area);
        std::mem::swap(&mut page, &mut self.page);
        let ghost old_pages = self.pages@;
        self.pages.push(page);
        proof {
            lemma_all_fragments_push(old_pages, page);
            assert(self.page.fragments@ =~= Seq::<Fragment>::empty());
            assert(self.placed() =~= old(self).placed());
            assert forall|i: int| 0 <= i < self.pages@.len() implies page_ok(#[trigger] self.pages@[i], size, area)
                && self.pages@[i].fragments@.len() > 0 by {
                if i < old_pages.len() {
                    assert(self.pages@[i] == old_pages[i]);
                }
            }
        }
        self.cursor_fine = fine(area.y);
        self.line_index = 0;
    }
}

impl<'m, M: FontMetrics> Engine<'m, M> {
    /// Places a line on the open page, numbering it, and moves the cursor
    /// down by its exact height.
    fn flow_line(
        &self,
        flow: &mut Flow,
        line: &PendingLine,
        para: &Para,
        size: Size,
        area: Rect,
    ) -> (baseline: i64)
        requires
            old(flow).inv(size, area),
            line_ok(*line),
            line.span.width_fits(),
            ends_by(old(flow).placed(), line.source_start as int),
            pieces_in(line.pieces@, runs_text(para.runs@)),
        ensures
            final(flow).inv(size, area),
            ends_by(
                final(flow).placed(),
                if line.is_last {
                    clamp_u32_spec(line.source_end + para.terminator.spec_expected_glyphs()) as int
                } else {
                    line.source_end as int
                },
            ),
            final(flow).pages@ == old(flow).pages@,
            final(flow).page.fragments@.take(old(flow).page.fragments@.len() as int) == old(flow).page.fragments@,
            final(flow).placed() == old(flow).placed() + final(flow).page.fragments@.skip(
                old(flow).page.fragments@.len() as int,
            ),
            ({
                let new = final(flow).page.fragments@.skip(old(flow).page.fragments@.len() as int);
                &&& new.len() == max_int(line.pieces@.len() as int, 1)
                &&& starts_from(new, line.source_start as int)
                &&& src_of(new[0]).0 == line.source_start
                &&& line_placed(new, *para, *line, baseline as int)
                &&& forall|i: int| 0 <= i < new.len() ==> text_from(#[trigger] new[i], runs_text(para.runs@))
                &&& forall|i: int| 0 <= i < new.len() ==> (#[trigger] new[i])->Text_0.line == old(flow).line_index
                &&& forall|i: int|
                    0 <= i < line.pieces@.len() ==> (#[trigger] new[i])->Text_0.x == piece_x(*para, *line, i)
            }),
            final(flow).line_index == if old(flow).line_index < u32::MAX {
                (old(flow).line_index + 1) as u32
            } else {
                old(flow).line_index
            },
            final(flow).cursor_fine == clamp_i64_spec(old(flow).cursor_fine + line.height_fine),
            final(flow).marks@ == old(flow).marks@,
    {
        let ghost before = flow.placed();
        let ghost old_len = flow.page.fragments@.len();
        let ghost old_frags = flow.page.fragments@;
        // The baseline is placed in fine units and quantized there, before
        // any rounding to twips.
        let baseline_fine = self.metrics.quantize_baseline_fine(add_fine(flow.cursor_fine, fine(line.baseline)));
        self.place_line(&mut flow.page, line, para, baseline_fine, flow.line_index);
        proof {
            let new = flow.page.fragments@.skip(old_len as int);
            assert(line_placed(new, *para, *line, baseline_fine as int));
            assert forall|i: int| 0 <= i < new.len() implies text_from(#[trigger] new[i], runs_text(para.runs@)) by {
                if line.pieces@.len() == 0 {
                    lemma_text_from_empty(new[0], *para, *line, baseline_fine as int, runs_text(para.runs@));
                } else {
                    lemma_text_from_piece(new[i], *para, *line, i, baseline_fine as int, runs_text(para.runs@));
                }
            }
            assert(flow.page.fragments@ =~= old_frags + new);
            assert(flow.placed() =~= before + new);
            lemma_reading_order_concat(before, new, line.source_start as int);
            assert forall|i: int, j: int| 0 <= i < j < flow.page.fragments@.len() implies (#[trigger] flow.page.fragments@[i])->Text_0.line
                <= (#[trigger] flow.page.fragments@[j])->Text_0.line by {
                if j >= old_len {
                    assert(flow.page.fragments@[j] == new[j - old_len]);
                    if i >= old_len {
                        assert(flow.page.fragments@[i] == new[i - old_len]);
                    } else {
                        assert(flow.page.fragments@[i] == old_frags[i]);
                    }
                } else {
                    assert(flow.page.fragments@[i] == old_frags[i]);
                    assert(flow.page.fragments@[j] == old_frags[j]);
                }
            }
            let bound: int = if line.is_last {
                clamp_u32_spec(line.source_end + para.terminator.spec_expected_glyphs()) as int
            } else {
                line.source_end as int
            };
            assert forall|i: int| 0 <= i < flow.placed().len() implies src_of(#[trigger] flow.placed()[i]).1 <= bound by {
                if i >= before.len() {
                    assert(flow.placed()[i] == new[i - before.len()]);
                } else {
                    assert(flow.placed()[i] == before[i]);
                }
            }
        }
        let ghost li = flow.line_index;
        if flow.line_index < u32::MAX {
            flow.line_index = flow.line_index + 1;
        }
        proof {
            assert forall|i: int| 0 <= i < flow.page.fragments@.len() implies (#[trigger] flow.page.fragments@[i])->Text_0.line
                <= flow.line_index by {
                if i >= old_len {
                    let new = flow.page.fragments@.skip(old_len as int);
                    assert(flow.page.fragments@[i] == new[i - old_len]);
                } else {
                    assert(flow.page.fragments@[i] == old_frags[i]);
                }
            }
        }
        flow.cursor_fine = add_fine(flow.cursor_fine, line.height_fine);
        baseline_fine
    }
}

} // verus!

verus! {

/// The source bound after a paragraph's last line: the terminator adds at
/// most one unit, which the next paragraph's base already counts.
proof fn lemma_last_line_bound(end: u32, base: u32, units: nat, extra: usize)
    requires
        end <= clamp_u32_spec(base + units),
        extra <= 1,
    ensures
        clamp_u32_spec(end + extra) <= clamp_u32_spec(base + units + 1),
{
}

impl<'m, M: FontMetrics> Engine<'m, M> {
    /// Places a line that needs `needed` fine units below the cursor: on a new
    /// page if it does not fit on one that already has text, and turns the
    /// page after it if a manual page break follows it.
    fn flow_line_paged(
        &self,
        flow: &mut Flow,
        line: &PendingLine,
        para: &Para,
        size: Size,
        area: Rect,
        needed: i128,
        bottom_fine: i64,
        para_idx: usize,
    )
        requires
            old(flow).inv(size, area),
            bottom_fine == (area.y + area.height) * 5,
            line_ok(*line),
            ends_by(old(flow).placed(), line.source_start as int),
            -0x1_0000_0000_0000_0000 <= needed <= 0x1_0000_0000_0000_0000,
            pieces_in(line.pieces@, runs_text(para.runs@)),
        ensures
            final(flow).inv(size, area),
            ends_by(
                final(flow).placed(),
                if line.is_last {
                    clamp_u32_spec(line.source_end + para.terminator.spec_expected_glyphs()) as int
                } else {
                    line.source_end as int
                },
            ),
            ({
                let turn = old(flow).cursor_fine + needed > bottom_fine && old(flow).page.fragments@.len() > 0;
                let n = old(flow).placed().len();
                let added = final(flow).placed().skip(n as int);
                &&& final(flow).placed().len() == n + max_int(line.pieces@.len() as int, 1)
                &&& final(flow).placed().take(n as int) == old(flow).placed()
                &&& starts_from(added, line.source_start as int)
                &&& src_of(added[0]).0 == line.source_start
                &&& line_placed(added, *para, *line, final(flow).marks@.last().baseline_fine as int)
                &&& final(flow).marks@.drop_last() == old(flow).marks@
                &&& final(flow).marks@.len() == old(flow).marks@.len() + 1
                &&& ({
                    let m = final(flow).marks@.last();
                    &&& mark_placed(m, area)
                    &&& m.page == old(flow).pages@.len() + if turn {
                        1int
                    } else {
                        0int
                    }
                    &&& m.para == para_idx
                    &&& m.cursor_fine == old(flow).cursor_fine
                    &&& m.needed_fine == needed
                    &&& m.had_text == (old(flow).page.fragments@.len() > 0)
                    &&& m.height_fine == line.height_fine
                    &&& m.source_start == line.source_start
                    &&& m.source_end == line.source_end
                    &&& m.is_last == line.is_last
                    &&& m.page_break_after == line.page_break_after
                })
                &&& forall|i: int| 0 <= i < added.len() ==> text_from(#[trigger] added[i], runs_text(para.runs@))
                &&& forall|i: int|
                    0 <= i < added.len() ==> (#[trigger] added[i])->Text_0.line == if turn {
                        0
                    } else {
                        old(flow).line_index
                    }
                &&& final(flow).pages@.len() == old(flow).pages@.len() + (if turn {
                    1int
                } else {
                    0int
                }) + (if line.page_break_after {
                    1int
                } else {
                    0int
                })
                &&& line.page_break_after ==> final(flow).page.fragments@.len() == 0 && final(flow).cursor_fine
                    == area.y * 5 && final(flow).line_index == 0
                &&& !line.page_break_after ==> final(flow).page.fragments@.len() > 0
                &&& !line.page_break_after ==> final(flow).cursor_fine == clamp_i64_spec(
                    (if turn {
                        area.y * 5
                    } else {
                        old(flow).cursor_fine as int
                    }) + line.height_fine,
                )
            }),
    {
        let ghost old_placed = flow.placed();
        let cursor = flow.cursor_fine;
        let had_text = flow.page.fragments.len() > 0;
        let turned = flow.cursor_fine as i128 + needed > bottom_fine as i128 && had_text;
        if turned {
            flow.turn_page(size, area);
        }
        let page_index = flow.pages.len();
        let top = flow.cursor_fine;
        let ghost mid_len = flow.page.fragments@.len();
        let baseline = self.flow_line(flow, line, para, size, area);
        flow.marks.push(
            LineMark {
                page: page_index,
                para: para_idx,
                cursor_fine: cursor,
                needed_fine: needed,
                had_text,
                turned,
                top_fine: top,
                height_fine: line.height_fine,
                baseline_fine: baseline,
                source_start: line.source_start,
                source_end: line.source_end,
                is_last: line.is_last,
                page_break_after: line.page_break_after,
            },
        );
        proof {
            let n = old_placed.len();
            let added = flow.page.fragments@.skip(mid_len as int);
            assert(flow.placed() == old_placed + added);
            assert(flow.placed().skip(n as int) =~= added);
            assert(flow.placed().take(n as int) =~= old_placed);
        }
        // A manual page break turns the page after its line, whatever room
        // is left.
        if line.page_break_after {
            flow.turn_page(size, area);
        }
    }

    /// Lays out one paragraph: breaks it, honours its page break, keep and
    /// spacing settings, and places its lines, turning the page whenever a
    /// line does not fit below the cursor on a page that already has text.
    #[verifier::rlimit(100)]
    fn flow_paragraph(
        &self,
        flow: &mut Flow,
        paras: &[Para],
        idx: usize,
        size: Size,
        area: Rect,
        para_base: u32,
        next_base: u32,
    )
        requires
            old(flow).inv(size, area),
            idx < paras@.len(),
            ends_by(old(flow).placed(), para_base as int),
            next_base == clamp_u32_spec(para_base + para_units(paras@[idx as int]) + 1),
        ensures
            final(flow).inv(size, area),
            ends_by(final(flow).placed(), next_base as int),
            final(flow).placed().len() > old(flow).placed().len(),
            final(flow).placed().take(old(flow).placed().len() as int) == old(flow).placed(),
            src_of(final(flow).placed()[old(flow).placed().len() as int]).0 == para_base,
            forall|i: int|
                old(flow).placed().len() <= i < final(flow).placed().len() ==> text_from(
                    #[trigger] final(flow).placed()[i],
                    runs_text(paras@[idx as int].runs@),
                ),
            starts_from(final(flow).placed().skip(old(flow).placed().len() as int), para_base as int),
            final(flow).pages@.len() >= old(flow).pages@.len() + (if paras@[idx as int].page_break_before
                && old(flow).page.fragments@.len() > 0 {
                1int
            } else {
                0int
            }) + runs_page_breaks(paras@[idx as int].runs@),
            final(flow).marks@.take(old(flow).marks@.len() as int) == old(flow).marks@,
            final(flow).marks@.len() > old(flow).marks@.len(),
            ({
                let new = final(flow).marks@.skip(old(flow).marks@.len() as int);
                let st = para_start(
                    paras@[idx as int],
                    old(flow).cursor_fine as int,
                    old(flow).page.fragments@.len() > 0,
                    marks_height(new),
                    area,
                );
                &&& new[0].cursor_fine == st.0
                &&& new[0].had_text == st.1
                &&& new[0].page == old(flow).pages@.len() + st.2 + if new[0].turned {
                    1int
                } else {
                    0int
                }
            }),
            ({
                let new = final(flow).marks@.skip(old(flow).marks@.len() as int);
                &&& para_marks(new, paras@, idx as int, area)
                &&& new[0].page >= old(flow).pages@.len()
                &&& final(flow).pages@.len() == new.last().page + if new.last().page_break_after {
                    1int
                } else {
                    0int
                }
                &&& final(flow).page.fragments@.len() > 0 <==> !new.last().page_break_after
                &&& final(flow).cursor_fine == clamp_i64_spec(
                    cursor_after(new.last(), area) + paras@[idx as int].space_after * 5,
                )
            }),
    {
        let ghost old_placed = flow.placed();
        let ghost n = old_placed.len();
        let ghost turned_before: int = if paras@[idx as int].page_break_before && flow.page.fragments@.len() > 0 {
            1int
        } else {
            0int
        };
        let ghost old_pages_len = flow.pages@.len();
        let ghost old_marks = flow.marks@;
        let ghost k0 = old_marks.len();
        let ghost c0 = flow.cursor_fine as int;
        let ghost h0 = flow.page.fragments@.len() > 0;
        let para = &paras[idx];
        let lines = self.break_paragraph(para, area, coarse(flow.cursor_fine), para_base);
        // The block's exact height: pagination reserves what the cursor will
        // advance by.
        let mut block_fine: i64 = 0;
        let mut k: usize = 0;
        while k < lines.len()
            invariant
                0 <= k <= lines@.len(),
                block_fine == lines_height(lines@.take(k as int)),
            decreases lines@.len() - k,
        {
            proof {
                assert(lines@.take(k + 1).drop_last() =~= lines@.take(k as int));
            }
            block_fine = add_fine(block_fine, lines[k].height_fine);
            k = k + 1;
        }
        let bottom_fine: i64 = (area.y as i64 + area.height as i64) * 5;

        if para.page_break_before && flow.page.fragments.len() > 0 {
            flow.turn_page(size, area);
        }
        flow.cursor_fine = add_fine(flow.cursor_fine, fine(para.space_before));

        // keepLines: a paragraph that does not fit moves to the next page
        // whole, unless this page is empty anyway.
        if para.keep_lines && flow.cursor_fine as i128 + block_fine as i128 > bottom_fine as i128
            && flow.page.fragments.len() > 0 {
            flow.turn_page(size, area);
        }

        // keepNext: the last line also reserves room for the next
        // paragraph's first line.
        let next_first_line: i64 = if para.keep_next && idx + 1 < paras.len() {
            let next = self.break_paragraph(&paras[idx + 1], area, coarse(flow.cursor_fine), next_base);
            next[0].height_fine
        } else {
            0
        };

        let total = lines.len();
        let ghost start = para_start(*para, c0, h0, block_fine as int, area);
        proof {
            assert(lines@.take(lines@.len() as int) =~= lines@);
            assert(flow.cursor_fine == start.0);
            assert(flow.page.fragments@.len() > 0 <==> start.1);
            assert(flow.pages@.len() == old_pages_len + start.2);
            reveal(marks_so_far);
            assert(flow.marks@.skip(k0 as int) =~= Seq::<LineMark>::empty());
            assert(flow.marks@.take(k0 as int) =~= old_marks);
            assert(flow.placed().take(n as int) =~= old_placed);
            assert(flow.placed().skip(n as int) =~= Seq::<Fragment>::empty());
        }
        let mut li: usize = 0;
        while li < total
            invariant
                flow.inv(size, area),
                total == lines@.len(),
                total >= 1,
                0 <= li <= total,
                forall|i: int| 0 <= i < lines@.len() ==> line_ok(#[trigger] lines@[i]),
                lines@[0].source_start == para_base,
                forall|i: int|
                    0 <= i < lines@.len() - 1 ==> (#[trigger] lines@[i]).source_end == lines@[i + 1].source_start,
                lines@.last().is_last,
                forall|i: int| 0 <= i < lines@.len() - 1 ==> !(#[trigger] lines@[i]).is_last,
                li == 0 ==> ends_by(flow.placed(), para_base as int),
                0 < li < total ==> ends_by(flow.placed(), lines@[li as int].source_start as int),
                li == total ==> ends_by(
                    flow.placed(),
                    clamp_u32_spec(lines@.last().source_end + para.terminator.spec_expected_glyphs()) as int,
                ),
                flow.placed().len() >= n + li,
                flow.placed().take(n as int) == old_placed,
                starts_from(flow.placed().skip(n as int), para_base as int),
                li < total ==> para_base <= lines@[li as int].source_start,
                li == 0 ==> flow.placed().len() == n,
                li > 0 ==> src_of(flow.placed()[n as int]).0 == para_base,
                flow.pages@.len() >= old_pages_len + turned_before + pb_lines(lines@.take(li as int)),
                pb_lines(lines@) == runs_page_breaks(para.runs@),
                bottom_fine == (area.y + area.height) * 5,
                forall|i: int|
                    0 <= i < lines@.len() ==> para.line_rule == LineRule::Exact ==> (#[trigger] lines@[i]).height_fine
                        == max_int(para.line_value as int, 1) * 5,
                forall|i: int| 0 <= i < lines@.len() ==> pieces_in((#[trigger] lines@[i]).pieces@, runs_text(para.runs@)),
                forall|i: int| n <= i < flow.placed().len() ==> text_from(#[trigger] flow.placed()[i], runs_text(para.runs@)),
                idx < paras@.len(),
                para == paras@[idx as int],
                !(para.keep_next && idx + 1 < paras@.len()) ==> next_first_line == 0,
                k0 == old_marks.len(),
                flow.marks@.len() == k0 + li,
                flow.marks@.take(k0 as int) == old_marks,
                flow.pages@.len() >= old_pages_len,
                marks_so_far(flow.marks@.skip(k0 as int), lines@, paras@, idx as int, area, old_pages_len as int),
                block_fine == lines_height(lines@),
                start == para_start(*para, c0, h0, block_fine as int, area),
                li == 0 ==> flow.cursor_fine == start.0 && (flow.page.fragments@.len() > 0 <==> start.1)
                    && flow.pages@.len() == old_pages_len + start.2,
                li > 0 ==> {
                    let f = flow.marks@.skip(k0 as int)[0];
                    &&& f.cursor_fine == start.0
                    &&& f.had_text == start.1
                    &&& f.page == old_pages_len + start.2 + if f.turned {
                        1int
                    } else {
                        0int
                    }
                },
                li > 0 ==> {
                    let last = flow.marks@.skip(k0 as int)[li - 1];
                    &&& flow.pages@.len() == last.page + if last.page_break_after {
                        1int
                    } else {
                        0int
                    }
                    &&& (flow.page.fragments@.len() > 0 <==> !last.page_break_after)
                    &&& flow.cursor_fine == cursor_after(last, area)
                },
            decreases total - li,
        {
            let line = &lines[li];
            let mut needed: i128 = line.height_fine as i128;
            if para.keep_next && li + 1 == total {
                needed = needed + next_first_line as i128;
            }
            proof {
                if li > 0 {
                    assert(lines@[li - 1].source_end == lines@[li as int].source_start);
                }
            }
            let ghost before = flow.placed();
            let ghost before_marks = flow.marks@;
            let ghost before_cursor = flow.cursor_fine;
            let ghost before_had = flow.page.fragments@.len() > 0;
            let ghost before_pages = flow.pages@.len();
            self.flow_line_paged(flow, line, para, size, area, needed, bottom_fine, idx);
            proof {
                if li > 0 {
                    assert(before_marks.skip(k0 as int)[li - 1] == before_marks.last());
                }
                lemma_marks_step(
                    before_marks,
                    flow.marks@,
                    k0 as int,
                    li as int,
                    lines@,
                    paras@,
                    idx as int,
                    area,
                    old_pages_len as int,
                );
                let m = before.len();
                let added = flow.placed().skip(m as int);
                assert(flow.placed().take(n as int) =~= flow.placed().take(m as int).take(n as int));
                if li > 0 {
                    assert(flow.placed()[n as int] == flow.placed().take(m as int)[n as int]);
                } else {
                    assert(flow.placed()[n as int] == added[0]);
                }
                assert(lines@.take(li + 1).drop_last() =~= lines@.take(li as int));
                assert forall|i: int| n <= i < flow.placed().len() implies text_from(
                    #[trigger] flow.placed()[i],
                    runs_text(para.runs@),
                ) by {
                    if i < m {
                        assert(flow.placed()[i] == flow.placed().take(m as int)[i]);
                        assert(before[i] == flow.placed()[i]);
                    } else {
                        assert(flow.placed()[i] == added[i - m]);
                    }
                }
                assert forall|i: int| 0 <= i < flow.placed().skip(n as int).len() implies para_base <= src_of(
                    #[trigger] flow.placed().skip(n as int)[i],
                ).0 by {
                    if n + i < m {
                        assert(flow.placed().skip(n as int)[i] == flow.placed().take(m as int)[n + i]);
                        assert(before.skip(n as int)[i] == before[n + i]);
                    } else {
                        assert(flow.placed().skip(n as int)[i] == added[n + i - m]);
                    }
                }
                if li + 1 < total {
                    assert(!lines@[li as int].is_last);
                    assert(lines@[li as int].source_end == lines@[li + 1].source_start);
                }
            }
            li = li + 1;
        }
        flow.cursor_fine = add_fine(flow.cursor_fine, fine(para.space_after));
        proof {
            reveal(marks_so_far);
            reveal(para_marks);
            assert(lines@.take(total as int) =~= lines@);
            let nm = flow.marks@.skip(k0 as int);
            assert forall|j: int| 0 <= j < nm.len() implies (#[trigger] nm[j]).is_last == (j == nm.len() - 1) by {
                assert(nm[j].is_last == lines@[j].is_last);
            }
            assert forall|j: int| 0 <= j < nm.len() implies (#[trigger] nm[j]).height_fine == lines@[j].height_fine by {
            }
            assert forall|j: int| 0 <= j < nm.len() implies para.line_rule == LineRule::Exact ==> (#[trigger] nm[j]).height_fine
                == max_int(para.line_value as int, 1) * 5 by {
                assert(nm[j].height_fine == lines@[j].height_fine);
            }
            lemma_heights_agree(nm, lines@);
            assert(nm[0].page >= old_pages_len);
            lemma_last_line_bound(
                lines@.last().source_end,
                para_base,
                para_units(*para),
                para.terminator.spec_expected_glyphs(),
            );
        }
    }

    /// Lays the paragraphs out on pages.
    ///
    /// Every page has the setup's size and content area, and the fragments
    /// come in reading order: their source ranges, document-wide UTF-16
    /// offsets counting one unit for each paragraph's terminator, never
    /// overlap and never go back, across paragraphs and pages; on each page
    /// the fragments come line by line. Each paragraph gives at least one
    /// fragment, the first starting at the paragraph's document offset, and
    /// each fragment's text is a stretch of its paragraph's text followed by
    /// its terminator's glyphs. Every page-break placeholder turns a page,
    /// and no page but the last is empty. The pages are those of a trace of
    /// the layout loop (`laid_out_by`): each line goes to a new page exactly
    /// when it does not fit below the cursor on a page that holds text, its
    /// top is then the content top and otherwise the cursor, and the cursor
    /// moves down by the line's height.
    pub fn layout(&self, paras: &[Para]) -> (pages: Vec<Page>)
        ensures
            pages@.len() >= 1,
            forall|i: int|
                0 <= i < pages@.len() ==> page_ok(
                    #[trigger] pages@[i],
                    self.spec_setup().size,
                    spec_content_rect(self.spec_setup()),
                ),
            in_reading_order(all_fragments(pages@)),
            ends_by(all_fragments(pages@), para_base(paras@, paras@.len() as int) as int),
            forall|i: int| 0 <= i < pages@.len() - 1 ==> (#[trigger] pages@[i]).fragments@.len() > 0,
            exists|cuts: Seq<int>| paragraph_cuts(all_fragments(pages@), paras@, cuts),
            pages@.len() >= 1 + doc_page_breaks(paras@),
            exists|marks: Seq<LineMark>| laid_out_by(pages@, marks, paras@, spec_content_rect(self.spec_setup())),
    {
        let (pages, marks) = self.layout_traced(paras);
        pages
    }

    /// Lays the paragraphs out as `layout` does, and gives the trace of the
    /// layout loop: how each line was placed (see `LineMark`).
    #[verifier::rlimit(100)]
    #[verifier::spinoff_prover]
    pub fn layout_traced(&self, paras: &[Para]) -> (out: (Vec<Page>, Vec<LineMark>))
        ensures
            ({
                let pages = out.0@;
                &&& pages.len() >= 1
                &&& forall|i: int|
                    0 <= i < pages.len() ==> page_ok(
                        #[trigger] pages[i],
                        self.spec_setup().size,
                        spec_content_rect(self.spec_setup()),
                    )
                &&& in_reading_order(all_fragments(pages))
                &&& ends_by(all_fragments(pages), para_base(paras@, paras@.len() as int) as int)
                &&& forall|i: int| 0 <= i < pages.len() - 1 ==> (#[trigger] pages[i]).fragments@.len() > 0
                &&& exists|cuts: Seq<int>| paragraph_cuts(all_fragments(pages), paras@, cuts)
                &&& pages.len() >= 1 + doc_page_breaks(paras@)
                &&& laid_out_by(pages, out.1@, paras@, spec_content_rect(self.spec_setup()))
            }),
    {
        let size = self.setup.size;
        let area = content_rect(&self.setup);
        let mut flow = Flow {
            pages: Vec::new(),
            page: Page::new(size, area),
            cursor_fine: fine(area.y),
            line_index: 0,
            marks: Vec::new(),
        };
        proof {
            assert(flow.placed() =~= Seq::<Fragment>::empty());
            reveal(mark_cuts_upto);
        }
        let mut source_cursor: u32 = 0;
        let mut idx: usize = 0;
        let ghost mut cuts: Seq<int> = seq![0int];
        let ghost mut mcuts: Seq<int> = seq![0int];
        while idx < paras.len()
            invariant
                mark_cuts_upto(flow.marks@, paras@, mcuts, idx as int, area),
                idx == 0 ==> flow.marks@.len() == 0,
                idx > 0 ==> flow.marks@.len() > 0,
                ({
                    let e = para_entry(flow.marks@, paras@, mcuts, idx as int, area);
                    &&& flow.cursor_fine == e.0
                    &&& (flow.page.fragments@.len() > 0 <==> e.1)
                    &&& flow.pages@.len() == e.2
                }),
                0 <= idx <= paras@.len(),
                flow.inv(size, area),
                size == self.spec_setup().size,
                area == spec_content_rect(self.spec_setup()),
                source_cursor == para_base(paras@, idx as int),
                ends_by(flow.placed(), source_cursor as int),
                cuts_upto(flow.placed(), paras@, cuts, idx as int),
                flow.pages@.len() >= doc_page_breaks(paras@.take(idx as int)),
            decreases paras@.len() - idx,
        {
            let para_base = source_cursor;
            let units = units_of(&paras[idx]);
            let next_base = clamp_u32(para_base as u64 + units as u64 + 1);
            let ghost before = flow.placed();
            let ghost before_marks = flow.marks@;
            self.flow_paragraph(&mut flow, paras, idx, size, area, para_base, next_base);
            proof {
                let bl = before_marks.len() as int;
                assert(flow.marks@.skip(bl).len() >= 1) by {
                    reveal(para_marks);
                }
                assert(flow.marks@[bl] == flow.marks@.skip(bl)[0]);
                assert(flow.marks@.last() == flow.marks@.skip(bl).last());
                reveal(mark_cuts_upto);
                if idx > 0 {
                    assert(before_marks.last() == before_marks[mcuts[idx as int] - 1]);
                }
                lemma_mark_cuts_step(before_marks, flow.marks@, paras@, mcuts, idx as int, area);
                mcuts = mcuts.push(flow.marks@.len() as int);
                assert(flow.marks@[mcuts[idx + 1] - 1] == flow.marks@.last());
                assert forall|i: int| before.len() <= i < flow.placed().len() implies para_frag_ok(
                    #[trigger] flow.placed()[i],
                    paras@,
                    idx as int,
                ) by {
                    reveal(para_frag_ok);
                    assert(flow.placed()[i] == flow.placed().skip(before.len() as int)[i - before.len()]);
                }
                lemma_cuts_step(before, flow.placed(), paras@, cuts, idx as int);
                assert(paras@.take(idx + 1).drop_last() =~= paras@.take(idx as int));
                cuts = cuts.push(flow.placed().len() as int);
            }
            source_cursor = next_base;
            idx = idx + 1;
        }
        proof {
            lemma_layout_closes(flow, paras@, cuts, mcuts, size, area);
        }
        let Flow { mut pages, page, marks, .. } = flow;
        pages.push(page);
        (pages, marks)
    }
}

/// The open page closed after the last paragraph: the layout's pages, and
/// what they keep of the loop's invariant.
proof fn lemma_layout_closes(flow: Flow, paras: Seq<Para>, cuts: Seq<int>, mcuts: Seq<int>, size: Size, area: Rect)
    requires
        flow.inv(size, area),
        mark_cuts_upto(flow.marks@, paras, mcuts, paras.len() as int, area),
        paras.len() == 0 ==> flow.marks@.len() == 0,
        paras.len() > 0 ==> flow.marks@.len() > 0,
        ({
            let e = para_entry(flow.marks@, paras, mcuts, paras.len() as int, area);
            &&& flow.cursor_fine == e.0
            &&& (flow.page.fragments@.len() > 0 <==> e.1)
            &&& flow.pages@.len() == e.2
        }),
        ends_by(flow.placed(), para_base(paras, paras.len() as int) as int),
        cuts_upto(flow.placed(), paras, cuts, paras.len() as int),
        flow.pages@.len() >= doc_page_breaks(paras.take(paras.len() as int)),
    ensures
        forall|i: int|
            0 <= i < flow.pages@.push(flow.page).len() ==> page_ok(#[trigger] flow.pages@.push(flow.page)[i], size, area),
        in_reading_order(all_fragments(flow.pages@.push(flow.page))),
        ends_by(all_fragments(flow.pages@.push(flow.page)), para_base(paras, paras.len() as int) as int),
        forall|i: int|
            0 <= i < flow.pages@.push(flow.page).len() - 1 ==> (#[trigger] flow.pages@.push(flow.page)[i]).fragments@.len() > 0,
        exists|cuts: Seq<int>| paragraph_cuts(all_fragments(flow.pages@.push(flow.page)), paras, cuts),
        flow.pages@.push(flow.page).len() >= 1 + doc_page_breaks(paras),
        laid_out_by(flow.pages@.push(flow.page), flow.marks@, paras, area),
{
    let before = flow.pages@;
    let pages = before.push(flow.page);
    lemma_all_fragments_push(before, flow.page);
    assert forall|i: int| 0 <= i < pages.len() implies page_ok(#[trigger] pages[i], size, area) by {
        if i < before.len() {
            assert(pages[i] == before[i]);
        }
    }
    assert forall|i: int| 0 <= i < pages.len() - 1 implies (#[trigger] pages[i]).fragments@.len() > 0 by {
        assert(pages[i] == before[i]);
    }
    assert(paragraph_cuts(all_fragments(pages), paras, cuts));
    assert(paras.take(paras.len() as int) =~= paras);
    assert(mark_cuts_upto(flow.marks@, paras, mcuts, paras.len() as int, area));
    if paras.len() > 0 {
        reveal(mark_cuts_upto);
        assert(flow.marks@.last() == flow.marks@[mcuts[paras.len() as int] - 1]);
    }
}

} // verus!
