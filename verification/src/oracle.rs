//! The comparator's input contract: layout results flattened into pages,
//! lines and glyphs that can be compared with real Word glyph by glyph.
use vstd::prelude::*;

verus! {

/// Where a manual page break stands in its line: it decides how many
/// glyphs Word draws for it.
#[derive(Debug, Clone, Copy, PartialEq, Eq, Structural)]
pub enum PageBreakPosition {
    /// The break has a line record of its own: 0 glyphs.
    OwnLine,
    /// Right before the paragraph mark: 1 space.
    BeforeMark,
    /// Mid paragraph, text on both sides: 0 glyphs.
    MidParagraph,
}

/// How a line ends.
#[derive(Debug, Clone, Copy, PartialEq, Eq, Structural, Default)]
pub enum LineTerminator {
    /// Paragraph mark (`\r`): Word draws one space.
    ParagraphMark,
    /// Soft return (`\x0b`): one glyph.
    LineBreak,
    /// Manual page break: 0 or 1 glyph depending on its position.
    PageBreak(PageBreakPosition),
    /// Section break: 0 glyphs.
    SectionBreak,
    /// The line wrapped mid paragraph: no terminator character.
    #[default]
    Wrapped,
}

impl LineTerminator {
    /// Glyphs drawn for the terminator under the counting convention.
    pub open spec fn spec_expected_glyphs(self) -> usize {
        match self {
            LineTerminator::ParagraphMark => 1,
            LineTerminator::LineBreak => 1,
            LineTerminator::PageBreak(PageBreakPosition::BeforeMark) => 1,
            LineTerminator::PageBreak(_) => 0,
            LineTerminator::SectionBreak => 0,
            LineTerminator::Wrapped => 0,
        }
    }

    /// How many glyphs this terminator produces under the counting
    /// convention (measured, not derived from the specification).
    pub fn expected_glyphs(&self) -> (n: usize)
        ensures
            n == self.spec_expected_glyphs(),
    {
        match self {
            LineTerminator::ParagraphMark | LineTerminator::LineBreak => 1,
            LineTerminator::PageBreak(PageBreakPosition::BeforeMark) => 1,
            LineTerminator::PageBreak(_) | LineTerminator::SectionBreak => 0,
            LineTerminator::Wrapped => 0,
        }
    }
}

/// A range of source characters, in UTF-16 units.
#[derive(Debug, Clone, Copy, PartialEq, Eq, Structural)]
pub struct SourceRange {
    pub start: u32,
    pub end: u32,
}

impl SourceRange {
    pub fn new(start: u32, end: u32) -> (r: SourceRange)
        ensures
            r == (SourceRange { start, end }),
    {
        SourceRange { start, end }
    }

    /// The length; an inverted range has length 0.
    pub fn len(&self) -> (n: u32)
        ensures
            n == (if self.end >= self.start {
                self.end - self.start
            } else {
                0
            }),
    {
        if self.end >= self.start {
            self.end - self.start
        } else {
            0
        }
    }

    pub fn is_empty(&self) -> (b: bool)
        ensures
            b == (self.end <= self.start),
    {
        self.end <= self.start
    }
}

/// The level at which a structural mismatch happened.
#[derive(Debug, Clone, Copy, PartialEq, Eq, Structural)]
pub enum MismatchLevel {
    Page,
    Line,
    Glyph,
}

} // verus!
