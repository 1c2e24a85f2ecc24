//! The layout record written as the trace the measuring tool reads
//! (schema `rsword-layout-trace/1`): coordinates in points, page top-down;
//! source offsets in UTF-16 units. Written by hand, ASCII only, with a
//! fixed field order so that two traces can be diffed byte by byte.
use vstd::prelude::*;
use crate::jsontext::{dec, digit, hex_digit, hex_padded, padded, num_frac, push_dec, push_frac, push_hex, push_str};
use crate::oracle::{LineTerminator, PageBreakPosition};
use crate::record::{GlyphRecord, LayoutRecord, LineRecord, PageRecord};
use crate::text::{chars_of, push_char};

verus! {

/// Where the trace comes from. `metrics` and `glyph_origin_method` say
/// what the numbers are worth: stub metrics and real fonts differ.
#[derive(Debug, Clone, Default)]
pub struct TraceMeta {
    pub engine: String,
    /// What kind of metrics produced the layout.
    pub metrics: String,
    /// How glyph origins were found.
    pub glyph_origin_method: String,
    pub source: String,
    pub font_fingerprint: Option<String>,
}

/// `\u` and four lowercase hex digits.
pub open spec fn u_escape(unit: nat) -> Seq<char> {
    seq!['\\', 'u'] + hex_padded(unit, 4)
}

/// A character as the ASCII-only JSON writer escapes it: quote, backslash,
/// newline, return and tab by name; any other control character and
/// anything beyond `~` as `\u` escapes of its UTF-16 units.
pub open spec fn ascii_escape(c: char) -> Seq<char> {
    let v = c as u32;
    if c == '"' {
        seq!['\\', '"']
    } else if c == '\\' {
        seq!['\\', '\\']
    } else if c == '\n' {
        seq!['\\', 'n']
    } else if c == '\r' {
        seq!['\\', 'r']
    } else if c == '\t' {
        seq!['\\', 't']
    } else if v < 0x20 || v > 0x7e {
        if v < 0x10000 {
            u_escape(v as nat)
        } else {
            u_escape((0xD800 + (v - 0x10000) / 1024) as nat) + u_escape((0xDC00 + (v - 0x10000) % 1024) as nat)
        }
    } else {
        seq![c]
    }
}

pub open spec fn ascii_escaped(s: Seq<char>) -> Seq<char>
    decreases s.len(),
{
    if s.len() == 0 {
        seq![]
    } else {
        ascii_escaped(s.drop_last()) + ascii_escape(s.last())
    }
}

/// A JSON string literal holding `s`, ASCII only.
pub open spec fn spec_json_string(s: Seq<char>) -> Seq<char> {
    seq!['"'] + ascii_escaped(s) + seq!['"']
}

fn push_escaped(out: &mut String, c: char)
    ensures
        final(out)@ == old(out)@ + ascii_escape(c),
{
    let v = c as u32;
    if c == '"' {
        push_str(out, "\\\"");
        proof {
            reveal_strlit("\\\"");
        }
    } else if c == '\\' {
        push_str(out, "\\\\");
        proof {
            reveal_strlit("\\\\");
        }
    } else if c == '\n' {
        push_str(out, "\\n");
        proof {
            reveal_strlit("\\n");
        }
    } else if c == '\r' {
        push_str(out, "\\r");
        proof {
            reveal_strlit("\\r");
        }
    } else if c == '\t' {
        push_str(out, "\\t");
        proof {
            reveal_strlit("\\t");
        }
    } else if v < 0x20 || v > 0x7e {
        // Everything else outside printable ASCII is escaped, so that the
        // trace diffs byte by byte whatever the terminal's encoding.
        if v < 0x10000 {
            push_char(out, '\\');
            push_char(out, 'u');
            push_hex(out, v as u64, 4);
        } else {
            let w = v - 0x10000;
            push_char(out, '\\');
            push_char(out, 'u');
            push_hex(out, (0xD800 + w / 1024) as u64, 4);
            push_char(out, '\\');
            push_char(out, 'u');
            push_hex(out, (0xDC00 + w % 1024) as u64, 4);
        }
    } else {
        push_char(out, c);
    }
    assert(final(out)@ =~= old(out)@ + ascii_escape(c));
}

/// `s` as an ASCII-only JSON string literal.
pub fn json_string(s: &str) -> (out: String)
    ensures
        out@ == spec_json_string(s@),
{
    let cs = chars_of(s);
    let mut out = String::new();
    push_char(&mut out, '"');
    let mut i: usize = 0;
    while i < cs.len()
        invariant
            0 <= i <= cs@.len(),
            out@ == seq!['"'] + ascii_escaped(cs@.take(i as int)),
        decreases cs@.len() - i,
    {
        push_escaped(&mut out, cs[i]);
        proof {
            assert(cs@.take(i + 1).drop_last() =~= cs@.take(i as int));
        }
        i = i + 1;
    }
    push_char(&mut out, '"');
    assert(cs@.take(cs@.len() as int) =~= cs@);
    out
}

/// Every character of `s` is printable ASCII.
pub open spec fn printable_ascii(s: Seq<char>) -> bool {
    forall|i: int| 0 <= i < s.len() ==> 0x20 <= (#[trigger] s[i]) as u32 <= 0x7e
}

proof fn lemma_hex_padded_printable(n: nat, w: nat)
    ensures
        printable_ascii(hex_padded(n, w)),
    decreases w,
{
    if w > 0 {
        lemma_hex_padded_printable(n / 16, (w - 1) as nat);
        let d = (n % 16) as int;
        assert(0x20 <= hex_digit(d) as u32 <= 0x7e);
        let s = hex_padded(n, w);
        assert(s == hex_padded(n / 16, (w - 1) as nat).push(hex_digit(d)));
        assert forall|i: int| 0 <= i < s.len() implies 0x20 <= (#[trigger] s[i]) as u32 <= 0x7e by {
            if i < s.len() - 1 {
                assert(s[i] == hex_padded(n / 16, (w - 1) as nat)[i]);
            }
        }
    }
}

proof fn lemma_concat_printable(a: Seq<char>, b: Seq<char>)
    requires
        printable_ascii(a),
        printable_ascii(b),
    ensures
        printable_ascii(a + b),
{
    assert forall|i: int| 0 <= i < (a + b).len() implies 0x20 <= (#[trigger] (a + b)[i]) as u32 <= 0x7e by {
        if i < a.len() {
            assert((a + b)[i] == a[i]);
        } else {
            assert((a + b)[i] == b[i - a.len()]);
        }
    }
}

proof fn lemma_escape_printable(c: char)
    ensures
        printable_ascii(ascii_escape(c)),
{
    let v = c as u32;
    if c == '"' || c == '\\' || c == '\n' || c == '\r' || c == '\t' {
    } else if v < 0x20 || v > 0x7e {
        if v < 0x10000 {
            lemma_hex_padded_printable(v as nat, 4);
            lemma_concat_printable(seq!['\\', 'u'], hex_padded(v as nat, 4));
        } else {
            let hi = (0xD800 + (v - 0x10000) / 1024) as nat;
            let lo = (0xDC00 + (v - 0x10000) % 1024) as nat;
            lemma_hex_padded_printable(hi, 4);
            lemma_hex_padded_printable(lo, 4);
            lemma_concat_printable(seq!['\\', 'u'], hex_padded(hi, 4));
            lemma_concat_printable(seq!['\\', 'u'], hex_padded(lo, 4));
            lemma_concat_printable(u_escape(hi), u_escape(lo));
        }
    }
}

proof fn lemma_escaped_printable(s: Seq<char>)
    ensures
        printable_ascii(ascii_escaped(s)),
    decreases s.len(),
{
    if s.len() > 0 {
        lemma_escaped_printable(s.drop_last());
        lemma_escape_printable(s.last());
        lemma_concat_printable(ascii_escaped(s.drop_last()), ascii_escape(s.last()));
    }
}

/// The strings of the trace are ASCII only: whatever `s` holds, its JSON
/// literal is made of printable ASCII characters.
pub proof fn lemma_json_string_is_printable_ascii(s: Seq<char>)
    ensures
        printable_ascii(spec_json_string(s)),
{
    lemma_escaped_printable(s);
    lemma_concat_printable(seq!['"'], ascii_escaped(s));
    lemma_concat_printable(seq!['"'] + ascii_escaped(s), seq!['"']);
}

/// A terminator's name, the key of the counting table.
pub open spec fn spec_terminator_name(t: LineTerminator) -> &'static str {
    match t {
        LineTerminator::ParagraphMark => "PARAGRAPH_MARK",
        LineTerminator::LineBreak => "SOFT_RETURN",
        LineTerminator::PageBreak(PageBreakPosition::OwnLine) => "PAGE_BREAK_OWN_LINE",
        LineTerminator::PageBreak(PageBreakPosition::BeforeMark) => "PAGE_BREAK_BEFORE_MARK",
        LineTerminator::PageBreak(PageBreakPosition::MidParagraph) => "PAGE_BREAK_MID_PARAGRAPH",
        LineTerminator::SectionBreak => "SECTION_BREAK",
        LineTerminator::Wrapped => "WRAP",
    }
}

/// The name of a terminator in the trace.
pub fn terminator_name(t: LineTerminator) -> (s: &'static str)
    ensures
        s == spec_terminator_name(t),
{
    match t {
        LineTerminator::ParagraphMark => "PARAGRAPH_MARK",
        LineTerminator::LineBreak => "SOFT_RETURN",
        LineTerminator::PageBreak(PageBreakPosition::OwnLine) => "PAGE_BREAK_OWN_LINE",
        LineTerminator::PageBreak(PageBreakPosition::BeforeMark) => "PAGE_BREAK_BEFORE_MARK",
        LineTerminator::PageBreak(PageBreakPosition::MidParagraph) => "PAGE_BREAK_MID_PARAGRAPH",
        LineTerminator::SectionBreak => "SECTION_BREAK",
        LineTerminator::Wrapped => "WRAP",
    }
}

/// Twips as points.
pub open spec fn pt(twips: int) -> Seq<char> {
    num_frac(twips, 20)
}

/// Fine units (1/7200 inch) as points.
pub open spec fn pt_fine(fine: int) -> Seq<char> {
    num_frac(fine, 100)
}

/// `acc` followed by the trace's head: schema, units, frames and where the
/// trace comes from.
pub open spec fn meta_after(acc: Seq<char>, meta: TraceMeta) -> Seq<char> {
    let a = acc + "{\n"@ + "  \"schema\": \"rsword-layout-trace/1\",\n"@ + "  \"unit\": \"pt\",\n"@
        + "  \"originFrame\": \"page-top-down, origin at page top-left; y is the baseline\",\n"@
        + "  \"offsetSpace\": \"UTF-16 code units, same stream as rsword and Word Range.Start/End; one unit per paragraph mark\",\n"@
        + "  \"engine\": "@ + spec_json_string(meta.engine@) + ",\n"@ + "  \"metrics\": "@ + spec_json_string(
        meta.metrics@,
    ) + ",\n"@ + "  \"glyphOriginMethod\": "@ + spec_json_string(meta.glyph_origin_method@) + ",\n"@
        + "  \"source\": "@ + spec_json_string(meta.source@) + ",\n"@;
    match meta.font_fingerprint {
        Some(f) => a + "  \"fontFingerprint\": "@ + spec_json_string(f@) + ",\n"@,
        None => a + "  \"fontFingerprint\": null,\n"@,
    }
}

/// `acc` followed by one glyph: origin and advance in points, id, face,
/// size and the first source unit (or null).
pub open spec fn glyph_after(acc: Seq<char>, g: GlyphRecord) -> Seq<char> {
    let a = acc + "            {\"origin\": ["@ + pt(g.origin_x as int) + ", "@ + pt_fine(g.origin_y_fine as int)
        + "], \"advance\": ["@ + pt(g.advance_x as int) + ", "@ + pt(g.advance_y as int) + "], \"glyphId\": "@
        + dec(g.glyph_id as nat) + ", \"face\": "@ + spec_json_string(g.face@) + ", \"sizeHalfPoints\": "@ + dec(
        g.size_half_points as nat,
    ) + ", \"sizeCentipoints\": "@ + dec((g.size_half_points * 50) as nat) + ", \"sourceChar\": "@;
    let b = match g.source {
        Some(s) => a + dec(s.start as nat),
        None => a + "null"@,
    };
    b + "}"@
}

/// `acc` followed by the first `k` glyphs, each after a newline (the
/// first) or a comma and a newline.
pub open spec fn glyphs_after(acc: Seq<char>, gs: Seq<GlyphRecord>, k: int) -> Seq<char>
    decreases k,
{
    if k <= 0 {
        acc
    } else {
        let a = glyphs_after(acc, gs, k - 1);
        glyph_after(
            if k == 1 {
                a + "\n"@
            } else {
                a + ",\n"@
            },
            gs[k - 1],
        )
    }
}

/// `acc` followed by one line: its number on the page, the diagnostic box,
/// the source range (null when unknown), the terminator and its glyph
/// count, the glyphs.
pub open spec fn line_after(acc: Seq<char>, l: LineRecord, li: nat, last: bool) -> Seq<char> {
    let a = acc + "        {\n"@ + "          \"index\": "@ + dec(li) + ",\n"@ + "          \"boxTopDiagnostic\": "@
        + pt(l.box_top as int) + ",\n"@ + "          \"boxHeightDiagnostic\": "@ + pt(l.box_height as int) + ",\n"@;
    let b = match l.source {
        Some(s) => a + "          \"sourceStart\": "@ + dec(s.start as nat) + ",\n"@ + "          \"sourceEnd\": "@
            + dec(s.end as nat) + ",\n"@,
        None => a + "          \"sourceStart\": null,\n"@ + "          \"sourceEnd\": null,\n"@,
    };
    let c = b + "          \"terminator\": \""@ + spec_terminator_name(l.terminator)@ + "\",\n"@
        + "          \"terminatorExpectedGlyphs\": "@ + dec(l.terminator.spec_expected_glyphs() as nat) + ",\n"@
        + "          \"glyphs\": ["@;
    let d = glyphs_after(c, l.glyphs@, l.glyphs@.len() as int);
    let e = if l.glyphs@.len() == 0 {
        d + "]\n"@
    } else {
        d + "\n          ]\n"@
    };
    if last {
        e + "        }\n"@
    } else {
        e + "        },\n"@
    }
}

/// `acc` followed by the first `k` lines, numbered from 0.
pub open spec fn lines_after(acc: Seq<char>, ls: Seq<LineRecord>, k: int) -> Seq<char>
    decreases k,
{
    if k <= 0 {
        acc
    } else {
        line_after(lines_after(acc, ls, k - 1), ls[k - 1], (k - 1) as nat, k == ls.len())
    }
}

/// `acc` followed by one page: its number, its size in points, its lines.
pub open spec fn page_after(acc: Seq<char>, p: PageRecord, last: bool) -> Seq<char> {
    let a = acc + "    {\n"@ + "      \"index\": "@ + dec(p.index as nat) + ",\n"@ + "      \"width\": "@ + pt(
        p.width as int,
    ) + ",\n"@ + "      \"height\": "@ + pt(p.height as int) + ",\n"@ + "      \"lines\": [\n"@;
    let b = lines_after(a, p.lines@, p.lines@.len() as int) + "      ]\n"@;
    if last {
        b + "    }\n"@
    } else {
        b + "    },\n"@
    }
}

/// `acc` followed by the first `k` pages.
pub open spec fn pages_after(acc: Seq<char>, ps: Seq<PageRecord>, k: int) -> Seq<char>
    decreases k,
{
    if k <= 0 {
        acc
    } else {
        page_after(pages_after(acc, ps, k - 1), ps[k - 1], k == ps.len())
    }
}

/// The whole trace: the head, the count of glyphs outside any line, the
/// pages.
pub open spec fn spec_trace_json(record: LayoutRecord, meta: TraceMeta) -> Seq<char> {
    let a = meta_after(seq![], meta) + "  \"unassignedGlyphs\": "@ + dec(record.unassigned_glyphs as nat) + ",\n"@
        + "  \"pages\": [\n"@;
    pages_after(a, record.pages@, record.pages@.len() as int) + "  ]\n}\n"@
}

fn push_json_string(out: &mut String, s: &str)
    ensures
        final(out)@ == old(out)@ + spec_json_string(s@),
{
    let j = json_string(s);
    push_str(out, j.as_str());
}

fn push_meta(out: &mut String, meta: &TraceMeta)
    ensures
        final(out)@ == meta_after(old(out)@, *meta),
{
    push_str(out, "{\n");
    push_str(out, "  \"schema\": \"rsword-layout-trace/1\",\n");
    push_str(out, "  \"unit\": \"pt\",\n");
    push_str(out, "  \"originFrame\": \"page-top-down, origin at page top-left; y is the baseline\",\n");
    push_str(
        out,
        "  \"offsetSpace\": \"UTF-16 code units, same stream as rsword and Word Range.Start/End; one unit per paragraph mark\",\n",
    );
    push_str(out, "  \"engine\": ");
    push_json_string(out, meta.engine.as_str());
    push_str(out, ",\n");
    push_str(out, "  \"metrics\": ");
    push_json_string(out, meta.metrics.as_str());
    push_str(out, ",\n");
    push_str(out, "  \"glyphOriginMethod\": ");
    push_json_string(out, meta.glyph_origin_method.as_str());
    push_str(out, ",\n");
    push_str(out, "  \"source\": ");
    push_json_string(out, meta.source.as_str());
    push_str(out, ",\n");
    match &meta.font_fingerprint {
        Some(f) => {
            push_str(out, "  \"fontFingerprint\": ");
            push_json_string(out, f.as_str());
            push_str(out, ",\n");
        },
        None => {
            push_str(out, "  \"fontFingerprint\": null,\n");
        },
    }
}

fn push_glyph(out: &mut String, g: &GlyphRecord)
    ensures
        final(out)@ == glyph_after(old(out)@, *g),
{
    push_str(out, "            {\"origin\": [");
    push_frac(out, g.origin_x as i64, 20);
    push_str(out, ", ");
    push_frac(out, g.origin_y_fine, 100);
    push_str(out, "], \"advance\": [");
    push_frac(out, g.advance_x as i64, 20);
    push_str(out, ", ");
    push_frac(out, g.advance_y as i64, 20);
    push_str(out, "], \"glyphId\": ");
    push_dec(out, g.glyph_id as u64);
    push_str(out, ", \"face\": ");
    push_json_string(out, g.face.as_str());
    push_str(out, ", \"sizeHalfPoints\": ");
    push_dec(out, g.size_half_points as u64);
    push_str(out, ", \"sizeCentipoints\": ");
    push_dec(out, g.size_half_points as u64 * 50);
    push_str(out, ", \"sourceChar\": ");
    match g.source {
        Some(s) => push_dec(out, s.start as u64),
        None => push_str(out, "null"),
    }
    push_str(out, "}");
}

fn push_line(out: &mut String, l: &LineRecord, li: usize, last: bool)
    ensures
        final(out)@ == line_after(old(out)@, *l, li as nat, last),
{
    push_str(out, "        {\n");
    push_str(out, "          \"index\": ");
    push_dec(out, li as u64);
    push_str(out, ",\n");
    // The line box is for diagnosis only: it is not measurable on Word's
    // side, hence the name.
    push_str(out, "          \"boxTopDiagnostic\": ");
    push_frac(out, l.box_top as i64, 20);
    push_str(out, ",\n");
    push_str(out, "          \"boxHeightDiagnostic\": ");
    push_frac(out, l.box_height as i64, 20);
    push_str(out, ",\n");
    match l.source {
        Some(s) => {
            push_str(out, "          \"sourceStart\": ");
            push_dec(out, s.start as u64);
            push_str(out, ",\n");
            push_str(out, "          \"sourceEnd\": ");
            push_dec(out, s.end as u64);
            push_str(out, ",\n");
        },
        None => {
            // Unknown stays null, never 0.
            push_str(out, "          \"sourceStart\": null,\n");
            push_str(out, "          \"sourceEnd\": null,\n");
        },
    }
    push_str(out, "          \"terminator\": \"");
    push_str(out, terminator_name(l.terminator));
    push_str(out, "\",\n");
    push_str(out, "          \"terminatorExpectedGlyphs\": ");
    push_dec(out, l.terminator.expected_glyphs() as u64);
    push_str(out, ",\n");
    push_str(out, "          \"glyphs\": [");
    let ghost before_glyphs = out@;
    let mut gi: usize = 0;
    while gi < l.glyphs.len()
        invariant
            0 <= gi <= l.glyphs@.len(),
            out@ == glyphs_after(before_glyphs, l.glyphs@, gi as int),
        decreases l.glyphs@.len() - gi,
    {
        if gi == 0 {
            push_str(out, "\n");
        } else {
            push_str(out, ",\n");
        }
        push_glyph(out, &l.glyphs[gi]);
        gi = gi + 1;
    }
    if l.glyphs.len() == 0 {
        push_str(out, "]\n");
    } else {
        push_str(out, "\n          ]\n");
    }
    if last {
        push_str(out, "        }\n");
    } else {
        push_str(out, "        },\n");
    }
}

fn push_page(out: &mut String, p: &PageRecord, last: bool)
    ensures
        final(out)@ == page_after(old(out)@, *p, last),
{
    push_str(out, "    {\n");
    push_str(out, "      \"index\": ");
    push_dec(out, p.index as u64);
    push_str(out, ",\n");
    push_str(out, "      \"width\": ");
    push_frac(out, p.width as i64, 20);
    push_str(out, ",\n");
    push_str(out, "      \"height\": ");
    push_frac(out, p.height as i64, 20);
    push_str(out, ",\n");
    push_str(out, "      \"lines\": [\n");
    let ghost before_lines = out@;
    let mut li: usize = 0;
    while li < p.lines.len()
        invariant
            0 <= li <= p.lines@.len(),
            out@ == lines_after(before_lines, p.lines@, li as int),
        decreases p.lines@.len() - li,
    {
        push_line(out, &p.lines[li], li, li + 1 == p.lines.len());
        li = li + 1;
    }
    push_str(out, "      ]\n");
    if last {
        push_str(out, "    }\n");
    } else {
        push_str(out, "    },\n");
    }
}

/// Writes the record as the trace `rsword-layout-trace/1`.
pub fn to_trace_json(record: &LayoutRecord, meta: &TraceMeta) -> (out: String)
    ensures
        out@ == spec_trace_json(*record, *meta),
{
    let mut out = String::new();
    push_meta(&mut out, meta);
    // The glyphs that belong to no line are carried over as they are: they
    // are the denominator of what the comparison leaves out.
    push_str(&mut out, "  \"unassignedGlyphs\": ");
    push_dec(&mut out, record.unassigned_glyphs as u64);
    push_str(&mut out, ",\n");
    push_str(&mut out, "  \"pages\": [\n");
    let ghost before_pages = out@;
    let mut pi: usize = 0;
    while pi < record.pages.len()
        invariant
            0 <= pi <= record.pages@.len(),
            out@ == pages_after(before_pages, record.pages@, pi as int),
        decreases record.pages@.len() - pi,
    {
        push_page(&mut out, &record.pages[pi], pi + 1 == record.pages.len());
        pi = pi + 1;
    }
    push_str(&mut out, "  ]\n}\n");
    out
}

} // verus!

verus! {

/// Every character of `s` is ASCII.
pub open spec fn all_ascii(s: Seq<char>) -> bool {
    forall|i: int| 0 <= i < s.len() ==> ((#[trigger] s[i]) as u32) < 0x80
}

pub broadcast proof fn lemma_cat_ascii(a: Seq<char>, b: Seq<char>)
    requires
        all_ascii(a),
        all_ascii(b),
    ensures
        #[trigger] all_ascii(a + b),
{
    assert forall|i: int| 0 <= i < (a + b).len() implies ((#[trigger] (a + b)[i]) as u32) < 0x80 by {
        if i < a.len() {
            assert((a + b)[i] == a[i]);
        } else {
            assert((a + b)[i] == b[i - a.len()]);
        }
    }
}

proof fn lemma_dec_ascii(n: nat)
    ensures
        all_ascii(dec(n)),
    decreases n,
{
    if n >= 10 {
        lemma_dec_ascii(n / 10);
        let d = digit((n % 10) as int);
        assert(dec(n) == dec(n / 10).push(d));
        assert(dec(n / 10).push(d) =~= dec(n / 10) + seq![d]);
        lemma_cat_ascii(dec(n / 10), seq![d]);
    }
}

proof fn lemma_padded_ascii(n: nat, w: nat)
    ensures
        all_ascii(padded(n, w)),
    decreases w,
{
    if w > 0 {
        lemma_padded_ascii(n / 10, (w - 1) as nat);
        let d = digit((n % 10) as int);
        assert(padded(n / 10, (w - 1) as nat).push(d) =~= padded(n / 10, (w - 1) as nat) + seq![d]);
        lemma_cat_ascii(padded(n / 10, (w - 1) as nat), seq![d]);
    }
}

proof fn lemma_num_frac_ascii(v: int, den: nat)
    ensures
        all_ascii(num_frac(v, den)),
{
    broadcast use lemma_cat_ascii;

    let a: nat = if v < 0 {
        (-v) as nat
    } else {
        v as nat
    };
    lemma_dec_ascii(a / den);
    lemma_padded_ascii(((a % den) * (1_000_000nat / den)) as nat, 6);
    assert(all_ascii(seq!['-']));
    assert(all_ascii(Seq::<char>::empty()));
    assert(all_ascii(seq!['.', '0']));
    assert(all_ascii(seq!['.']));
}

proof fn lemma_json_ascii(s: Seq<char>)
    ensures
        all_ascii(spec_json_string(s)),
{
    lemma_json_string_is_printable_ascii(s);
}

proof fn lemma_glyph_after_ascii(acc: Seq<char>, g: GlyphRecord)
    requires
        all_ascii(acc),
    ensures
        all_ascii(glyph_after(acc, g)),
{
    broadcast use lemma_cat_ascii;

    reveal_strlit("            {\"origin\": [");
    reveal_strlit(", ");
    reveal_strlit("], \"advance\": [");
    reveal_strlit("], \"glyphId\": ");
    reveal_strlit(", \"face\": ");
    reveal_strlit(", \"sizeHalfPoints\": ");
    reveal_strlit(", \"sizeCentipoints\": ");
    reveal_strlit(", \"sourceChar\": ");
    reveal_strlit("null");
    reveal_strlit("}");
    assert(all_ascii("            {\"origin\": ["@));
    assert(all_ascii(", "@));
    assert(all_ascii("], \"advance\": ["@));
    assert(all_ascii("], \"glyphId\": "@));
    assert(all_ascii(", \"face\": "@));
    assert(all_ascii(", \"sizeHalfPoints\": "@));
    assert(all_ascii(", \"sizeCentipoints\": "@));
    assert(all_ascii(", \"sourceChar\": "@));
    assert(all_ascii("null"@));
    assert(all_ascii("}"@));
    lemma_num_frac_ascii(g.origin_x as int, 20);
    lemma_num_frac_ascii(g.origin_y_fine as int, 100);
    lemma_num_frac_ascii(g.advance_x as int, 20);
    lemma_num_frac_ascii(g.advance_y as int, 20);
    lemma_dec_ascii(g.glyph_id as nat);
    lemma_json_ascii(g.face@);
    lemma_dec_ascii(g.size_half_points as nat);
    lemma_dec_ascii((g.size_half_points * 50) as nat);
    if let Some(src) = g.source {
        lemma_dec_ascii(src.start as nat);
    }
}

proof fn lemma_glyphs_after_ascii(acc: Seq<char>, gs: Seq<GlyphRecord>, k: int)
    requires
        all_ascii(acc),
    ensures
        all_ascii(glyphs_after(acc, gs, k)),
    decreases k,
{
    broadcast use lemma_cat_ascii;

    if k > 0 {
        lemma_glyphs_after_ascii(acc, gs, k - 1);
        reveal_strlit("\n");
        reveal_strlit(",\n");
        assert(all_ascii("\n"@));
        assert(all_ascii(",\n"@));
        let a = glyphs_after(acc, gs, k - 1);
        lemma_glyph_after_ascii(a + "\n"@, gs[k - 1]);
        lemma_glyph_after_ascii(a + ",\n"@, gs[k - 1]);
    }
}

proof fn lemma_terminator_name_ascii(t: LineTerminator)
    ensures
        all_ascii(spec_terminator_name(t)@),
{
    reveal_strlit("PARAGRAPH_MARK");
    reveal_strlit("SOFT_RETURN");
    reveal_strlit("PAGE_BREAK_OWN_LINE");
    reveal_strlit("PAGE_BREAK_BEFORE_MARK");
    reveal_strlit("PAGE_BREAK_MID_PARAGRAPH");
    reveal_strlit("SECTION_BREAK");
    reveal_strlit("WRAP");
    match t {
        LineTerminator::ParagraphMark => assert(all_ascii("PARAGRAPH_MARK"@)),
        LineTerminator::LineBreak => assert(all_ascii("SOFT_RETURN"@)),
        LineTerminator::PageBreak(PageBreakPosition::OwnLine) => assert(all_ascii("PAGE_BREAK_OWN_LINE"@)),
        LineTerminator::PageBreak(PageBreakPosition::BeforeMark) => assert(all_ascii("PAGE_BREAK_BEFORE_MARK"@)),
        LineTerminator::PageBreak(PageBreakPosition::MidParagraph) => assert(all_ascii(
            "PAGE_BREAK_MID_PARAGRAPH"@,
        )),
        LineTerminator::SectionBreak => assert(all_ascii("SECTION_BREAK"@)),
        LineTerminator::Wrapped => assert(all_ascii("WRAP"@)),
    }
}

proof fn lemma_line_after_ascii(acc: Seq<char>, l: LineRecord, li: nat, last: bool)
    requires
        all_ascii(acc),
    ensures
        all_ascii(line_after(acc, l, li, last)),
{
    broadcast use lemma_cat_ascii;

    reveal_strlit("        {\n");
    reveal_strlit("          \"index\": ");
    reveal_strlit(",\n");
    reveal_strlit("          \"boxTopDiagnostic\": ");
    reveal_strlit("          \"boxHeightDiagnostic\": ");
    reveal_strlit("          \"sourceStart\": ");
    reveal_strlit("          \"sourceEnd\": ");
    reveal_strlit("          \"sourceStart\": null,\n");
    reveal_strlit("          \"sourceEnd\": null,\n");
    reveal_strlit("          \"terminator\": \"");
    reveal_strlit("\",\n");
    reveal_strlit("          \"terminatorExpectedGlyphs\": ");
    reveal_strlit("          \"glyphs\": [");
    reveal_strlit("]\n");
    reveal_strlit("\n          ]\n");
    reveal_strlit("        }\n");
    reveal_strlit("        },\n");
    assert(all_ascii("        {\n"@));
    assert(all_ascii("          \"index\": "@));
    assert(all_ascii(",\n"@));
    assert(all_ascii("          \"boxTopDiagnostic\": "@));
    assert(all_ascii("          \"boxHeightDiagnostic\": "@));
    assert(all_ascii("          \"sourceStart\": "@));
    assert(all_ascii("          \"sourceEnd\": "@));
    assert(all_ascii("          \"sourceStart\": null,\n"@));
    assert(all_ascii("          \"sourceEnd\": null,\n"@));
    assert(all_ascii("          \"terminator\": \""@));
    assert(all_ascii("\",\n"@));
    assert(all_ascii("          \"terminatorExpectedGlyphs\": "@));
    assert(all_ascii("          \"glyphs\": ["@));
    assert(all_ascii("]\n"@));
    assert(all_ascii("\n          ]\n"@));
    assert(all_ascii("        }\n"@));
    assert(all_ascii("        },\n"@));
    lemma_dec_ascii(li);
    lemma_num_frac_ascii(l.box_top as int, 20);
    lemma_num_frac_ascii(l.box_height as int, 20);
    if let Some(src) = l.source {
        lemma_dec_ascii(src.start as nat);
        lemma_dec_ascii(src.end as nat);
    }
    lemma_terminator_name_ascii(l.terminator);
    lemma_dec_ascii(l.terminator.spec_expected_glyphs() as nat);
    let a = acc + "        {\n"@ + "          \"index\": "@ + dec(li) + ",\n"@ + "          \"boxTopDiagnostic\": "@
        + pt(l.box_top as int) + ",\n"@ + "          \"boxHeightDiagnostic\": "@ + pt(l.box_height as int) + ",\n"@;
    let b = match l.source {
        Some(s) => a + "          \"sourceStart\": "@ + dec(s.start as nat) + ",\n"@ + "          \"sourceEnd\": "@
            + dec(s.end as nat) + ",\n"@,
        None => a + "          \"sourceStart\": null,\n"@ + "          \"sourceEnd\": null,\n"@,
    };
    let c = b + "          \"terminator\": \""@ + spec_terminator_name(l.terminator)@ + "\",\n"@
        + "          \"terminatorExpectedGlyphs\": "@ + dec(l.terminator.spec_expected_glyphs() as nat) + ",\n"@
        + "          \"glyphs\": ["@;
    assert(all_ascii(a));
    assert(all_ascii(b));
    assert(all_ascii(c));
    lemma_glyphs_after_ascii(c, l.glyphs@, l.glyphs@.len() as int);
}

proof fn lemma_lines_after_ascii(acc: Seq<char>, ls: Seq<LineRecord>, k: int)
    requires
        all_ascii(acc),
    ensures
        all_ascii(lines_after(acc, ls, k)),
    decreases k,
{
    if k > 0 {
        lemma_lines_after_ascii(acc, ls, k - 1);
        lemma_line_after_ascii(lines_after(acc, ls, k - 1), ls[k - 1], (k - 1) as nat, k == ls.len());
    }
}

proof fn lemma_page_after_ascii(acc: Seq<char>, p: PageRecord, last: bool)
    requires
        all_ascii(acc),
    ensures
        all_ascii(page_after(acc, p, last)),
{
    broadcast use lemma_cat_ascii;

    reveal_strlit("    {\n");
    reveal_strlit("      \"index\": ");
    reveal_strlit(",\n");
    reveal_strlit("      \"width\": ");
    reveal_strlit("      \"height\": ");
    reveal_strlit("      \"lines\": [\n");
    reveal_strlit("      ]\n");
    reveal_strlit("    }\n");
    reveal_strlit("    },\n");
    assert(all_ascii("    {\n"@));
    assert(all_ascii("      \"index\": "@));
    assert(all_ascii(",\n"@));
    assert(all_ascii("      \"width\": "@));
    assert(all_ascii("      \"height\": "@));
    assert(all_ascii("      \"lines\": [\n"@));
    assert(all_ascii("      ]\n"@));
    assert(all_ascii("    }\n"@));
    assert(all_ascii("    },\n"@));
    lemma_dec_ascii(p.index as nat);
    lemma_num_frac_ascii(p.width as int, 20);
    lemma_num_frac_ascii(p.height as int, 20);
    let a = acc + "    {\n"@ + "      \"index\": "@ + dec(p.index as nat) + ",\n"@ + "      \"width\": "@ + pt(
        p.width as int,
    ) + ",\n"@ + "      \"height\": "@ + pt(p.height as int) + ",\n"@ + "      \"lines\": [\n"@;
    assert(all_ascii(a));
    lemma_lines_after_ascii(a, p.lines@, p.lines@.len() as int);
}

proof fn lemma_pages_after_ascii(acc: Seq<char>, ps: Seq<PageRecord>, k: int)
    requires
        all_ascii(acc),
    ensures
        all_ascii(pages_after(acc, ps, k)),
    decreases k,
{
    if k > 0 {
        lemma_pages_after_ascii(acc, ps, k - 1);
        lemma_page_after_ascii(pages_after(acc, ps, k - 1), ps[k - 1], k == ps.len());
    }
}

proof fn lemma_meta_after_ascii(acc: Seq<char>, meta: TraceMeta)
    requires
        all_ascii(acc),
    ensures
        all_ascii(meta_after(acc, meta)),
{
    broadcast use lemma_cat_ascii;

    reveal_strlit("{\n");
    reveal_strlit("  \"schema\": \"rsword-layout-trace/1\",\n");
    reveal_strlit("  \"unit\": \"pt\",\n");
    reveal_strlit("  \"originFrame\": \"page-top-down, origin at page top-left; y is the baseline\",\n");
    reveal_strlit(
        "  \"offsetSpace\": \"UTF-16 code units, same stream as rsword and Word Range.Start/End; one unit per paragraph mark\",\n",
    );
    reveal_strlit("  \"engine\": ");
    reveal_strlit(",\n");
    reveal_strlit("  \"metrics\": ");
    reveal_strlit("  \"glyphOriginMethod\": ");
    reveal_strlit("  \"source\": ");
    reveal_strlit("  \"fontFingerprint\": ");
    reveal_strlit("  \"fontFingerprint\": null,\n");
    assert(all_ascii("{\n"@));
    assert(all_ascii("  \"schema\": \"rsword-layout-trace/1\",\n"@));
    assert(all_ascii("  \"unit\": \"pt\",\n"@));
    assert(all_ascii("  \"originFrame\": \"page-top-down, origin at page top-left; y is the baseline\",\n"@));
    assert(all_ascii(
        "  \"offsetSpace\": \"UTF-16 code units, same stream as rsword and Word Range.Start/End; one unit per paragraph mark\",\n"@,
    ));
    assert(all_ascii("  \"engine\": "@));
    assert(all_ascii(",\n"@));
    assert(all_ascii("  \"metrics\": "@));
    assert(all_ascii("  \"glyphOriginMethod\": "@));
    assert(all_ascii("  \"source\": "@));
    assert(all_ascii("  \"fontFingerprint\": "@));
    assert(all_ascii("  \"fontFingerprint\": null,\n"@));
    lemma_json_ascii(meta.engine@);
    lemma_json_ascii(meta.metrics@);
    lemma_json_ascii(meta.glyph_origin_method@);
    lemma_json_ascii(meta.source@);
    if let Some(f) = meta.font_fingerprint {
        lemma_json_ascii(f@);
    }
}

/// The trace is ASCII only, whatever the record and the provenance hold,
/// so that two traces can be compared byte by byte on any terminal.
pub proof fn lemma_trace_json_is_ascii(record: LayoutRecord, meta: TraceMeta)
    ensures
        all_ascii(spec_trace_json(record, meta)),
{
    broadcast use lemma_cat_ascii;

    lemma_meta_after_ascii(seq![], meta);
    reveal_strlit("  \"unassignedGlyphs\": ");
    reveal_strlit(",\n");
    reveal_strlit("  \"pages\": [\n");
    reveal_strlit("  ]\n}\n");
    assert(all_ascii("  \"unassignedGlyphs\": "@));
    assert(all_ascii(",\n"@));
    assert(all_ascii("  \"pages\": [\n"@));
    assert(all_ascii("  ]\n}\n"@));
    lemma_dec_ascii(record.unassigned_glyphs as nat);
    let a = meta_after(seq![], meta) + "  \"unassignedGlyphs\": "@ + dec(record.unassigned_glyphs as nat) + ",\n"@
        + "  \"pages\": [\n"@;
    assert(all_ascii(a));
    lemma_pages_after_ascii(a, record.pages@, record.pages@.len() as int);
}

} // verus!
