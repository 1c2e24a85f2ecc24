//! The core of a DOCX layout engine: how a document occupies two-dimensional
//! space, in twips, with verified geometry, line breaking and pagination.
pub mod geom;
pub mod text;
pub mod font;
pub mod linebreak;
pub mod simple;
pub mod path;
pub mod wrap;
pub mod oracle;
pub mod engine;
pub mod paint;
pub mod record;
pub mod jsontext;
pub mod oracle_json;
pub mod trace;
pub mod json;
pub mod bridge;
pub mod anchor;
pub mod shape;
pub mod raster;
pub mod fontenv;
pub mod vertical;
pub mod realfont;

// Geometry: every length in twips, no pixels.
pub use geom::{
    emu_to_twips, half_points_to_twips, Color, Margins, Point, Rect, Size, Twips, EMU_PER_INCH,
    TWIPS_PER_INCH, TWIPS_PER_POINT,
};

// Vector drawing: the path is the one primitive.
pub use paint::{CanvasEvent, DrawCmd, Paint, PaintOp, PositionedGlyph, Stroke, VectorCanvas};
pub use path::{FillRule, LineCap, LineJoin, Path, PathSeg};

// Text wrapping, on the same paths.
pub use wrap::{Span, WrapContext, WrapRegion, WrapSide};

// The layout engine.
pub use engine::{
    Align, BreakKind, Engine, Fragment, Line, LineMark, LineRule, Page, PageSetup, Para, PlaceholderKind, Run,
    TextFragment, OBJECT_PLACEHOLDER,
};

// Draw commands: layout results for a canvas.
pub use paint::{paint_document, paint_page, FaceId, PaintList, PaintPage, ShapedRun, TextShaper};

// The comparator's input.
pub use oracle::{LineTerminator, MismatchLevel, PageBreakPosition, SourceRange};
pub use oracle_json::{to_trace_json, TraceMeta};
pub use record::{GlyphRecord, LayoutRecord, LineRecord, PageRecord};

// Metrics.
pub use font::{BreakOpportunity, FontHint, FontMetrics, FontSlots, FontSpec, SlotKind, TextMetrics};
pub use simple::SimpleMetrics;

// The document model.
pub use anchor::AnchorScan;
pub use bridge::paras_from_document;
pub use json::{Json, JsonNumber};

// Shaping and rasterization.
pub use raster::{FaceData, GlyphKey, HintingMode, RasterFormat};
pub use shape::RustybuzzShaper;
