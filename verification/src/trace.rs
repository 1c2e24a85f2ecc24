//! The per-line trace vocabulary: line terminators, provenance, JSON
//! fields, and the fingerprint that identifies a source document.
use vstd::prelude::*;
use crate::jsontext::{hex_padded, push_hex, push_str};
use crate::text::{chars_of, push_char};
use crate::oracle_json::u_escape;

verus! {

/// How a traced line ends.
#[derive(Debug, Clone, Copy, PartialEq, Eq, Structural)]
pub enum Terminator {
    /// The paragraph's last line: one paragraph mark in the source, for
    /// which Word draws one space.
    ParagraphMark,
    /// A wrap: no source character, no glyph.
    Wrap,
}

impl Terminator {
    pub open spec fn spec_as_str(self) -> &'static str {
        match self {
            Terminator::ParagraphMark => "PARAGRAPH_MARK",
            Terminator::Wrap => "WRAP",
        }
    }

    /// The terminator's name in the trace.
    pub fn as_str(self) -> (s: &'static str)
        ensures
            s == self.spec_as_str(),
    {
        match self {
            Terminator::ParagraphMark => "PARAGRAPH_MARK",
            Terminator::Wrap => "WRAP",
        }
    }
}

/// Where a trace comes from.
#[derive(Debug, Clone, Default)]
pub struct TraceMeta {
    pub engine: String,
    pub metrics: String,
    /// How glyph origins were found: prefix advances of stub metrics, or the
    /// shaper's own positions.
    pub glyph_origin_method: String,
    pub source: String,
    pub source_sha256: String,
}

/// How stub metrics place glyphs.
pub const ORIGIN_PREFIX_ADVANCE: &'static str = "prefix advance: origin(i) = piece_x + measure(text[..i]).advance;      exact for prefix-additive metrics, an approximation once a shaper does ligatures/kerning";

/// How shaping metrics place glyphs.
pub const ORIGIN_SHAPED: &'static str = "shaped: positions come from the shaper's own output (rustybuzz), so ligatures and      cross-boundary kerning are accounted for; one glyph may cover several source characters";

/// A character as the trace writer escapes it: quote, backslash, newline,
/// return and tab by name, other control characters as `\u` escapes;
/// everything else as it is.
pub open spec fn trace_escape(c: char) -> Seq<char> {
    if c == '"' {
        seq!['\\', '"']
    } else if c == '\\' {
        seq!['\\', '\\']
    } else if c == '\n' {
        seq!['\\', 'n']
    } else if c == '\r' {
        seq!['\\', 'r']
    } else if c == '\t' {
        seq!['\\', 't']
    } else if (c as u32) < 0x20 {
        u_escape((c as u32) as nat)
    } else {
        seq![c]
    }
}

pub open spec fn trace_escaped(s: Seq<char>) -> Seq<char>
    decreases s.len(),
{
    if s.len() == 0 {
        seq![]
    } else {
        trace_escaped(s.drop_last()) + trace_escape(s.last())
    }
}

/// `s` as a JSON string literal.
pub open spec fn spec_json_string(s: Seq<char>) -> Seq<char> {
    seq!['"'] + trace_escaped(s) + seq!['"']
}

/// `s` as a JSON string literal.
pub fn json_string(s: &str) -> (out: String)
    ensures
        out@ == spec_json_string(s@),
{
    let cs = chars_of(s);
    let mut out = String::new();
    push_char(&mut out, '"');
    let mut i: usize = 0;
    while i < cs.len()
        invariant
            0 <= i <= cs@.len(),
            out@ == seq!['"'] + trace_escaped(cs@.take(i as int)),
        decreases cs@.len() - i,
    {
        let c = cs[i];
        let v: u32 = c as u32;
        let ghost before = out@;
        if c == '"' {
            push_char(&mut out, '\\');
            push_char(&mut out, '"');
        } else if c == '\\' {
            push_char(&mut out, '\\');
            push_char(&mut out, '\\');
        } else if c == '\n' {
            push_char(&mut out, '\\');
            push_char(&mut out, 'n');
        } else if c == '\r' {
            push_char(&mut out, '\\');
            push_char(&mut out, 'r');
        } else if c == '\t' {
            push_char(&mut out, '\\');
            push_char(&mut out, 't');
        } else if v < 0x20 {
            push_char(&mut out, '\\');
            push_char(&mut out, 'u');
            push_hex(&mut out, v as u64, 4);
        } else {
            push_char(&mut out, c);
        }
        proof {
            assert(out@ =~= before + trace_escape(c));
            assert(cs@.take(i + 1).drop_last() =~= cs@.take(i as int));
        }
        i = i + 1;
    }
    push_char(&mut out, '"');
    assert(cs@.take(cs@.len() as int) =~= cs@);
    out
}

/// `indent` spaces, the key in quotes, a colon, the value as a JSON
/// string, a comma and a newline.
pub open spec fn spec_str_field(key: Seq<char>, value: Seq<char>, indent: nat) -> Seq<char> {
    Seq::new(indent, |i: int| ' ') + seq!['"'] + key + seq!['"', ':', ' '] + spec_json_string(value) + seq![',', '\n']
}

/// Appends a string field of a JSON object.
pub fn push_str_field(out: &mut String, key: &str, value: &str, indent: usize)
    ensures
        final(out)@ == old(out)@ + spec_str_field(key@, value@, indent as nat),
{
    let ghost start = out@;
    let mut i: usize = 0;
    while i < indent
        invariant
            0 <= i <= indent,
            out@ == start + Seq::new(i as nat, |k: int| ' '),
        decreases indent - i,
    {
        push_char(out, ' ');
        assert(out@ =~= start + Seq::new((i + 1) as nat, |k: int| ' '));
        i = i + 1;
    }
    push_char(out, '"');
    push_str(out, key);
    push_char(out, '"');
    push_char(out, ':');
    push_char(out, ' ');
    let v = json_string(value);
    push_str(out, v.as_str());
    push_char(out, ',');
    push_char(out, '\n');
    assert(out@ =~= start + spec_str_field(key@, value@, indent as nat));
}

/// The FNV-1a 64-bit hash of the bytes.
pub open spec fn fnv1a64(bytes: Seq<u8>) -> u64
    decreases bytes.len(),
{
    if bytes.len() == 0 {
        0xcbf2_9ce4_8422_2325
    } else {
        vstd::wrapping::u64_specs::wrapping_mul(fnv1a64(bytes.drop_last()) ^ (bytes.last() as u64), 0x0000_0100_0000_01b3)
    }
}

/// A fingerprint of a document's bytes for provenance: the 64-bit FNV-1a
/// hash, in 16 hex digits after `fnv1a64:` (the prefix says it is not a
/// SHA-256; the measuring tool keeps the authoritative digest).
pub fn sha256_hex(bytes: &[u8]) -> (out: String)
    ensures
        out@ == "fnv1a64:"@ + hex_padded(fnv1a64(bytes@) as nat, 16),
{
    let mut hash: u64 = 0xcbf2_9ce4_8422_2325;
    let mut i: usize = 0;
    while i < bytes.len()
        invariant
            0 <= i <= bytes@.len(),
            hash == fnv1a64(bytes@.take(i as int)),
        decreases bytes@.len() - i,
    {
        proof {
            assert(bytes@.take(i + 1).drop_last() =~= bytes@.take(i as int));
        }
        hash = hash ^ (bytes[i] as u64);
        hash = hash.wrapping_mul(0x0000_0100_0000_01b3);
        i = i + 1;
    }
    assert(bytes@.take(bytes@.len() as int) =~= bytes@);
    let mut out = String::new();
    push_str(&mut out, "fnv1a64:");
    push_hex(&mut out, hash, 16);
    out
}

} // verus!
