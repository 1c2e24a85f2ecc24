//! The document model's JSON projection turned into the engine's
//! paragraphs. A minimal bridge: declared properties only, styles mapped by
//! id; tables, drawings, headers, numbering are not covered.
use vstd::prelude::*;
use crate::engine::{Align, LineRule, OBJECT_PLACEHOLDER, Para, PlaceholderKind, Run};
use crate::font::{FontHint, FontSlots, FontSpec, opt_view};
use crate::geom::{Color, Twips, half_points_to_twips, trunc_div};
use crate::json::{Json, str_eq};
use crate::oracle::{LineTerminator, PageBreakPosition};
use crate::text::{chars_of, copy_str};

verus! {

/// The document's default body font and size.
pub const BODY_FAMILY: &'static str = "Times New Roman, SimSun, serif";

pub const BODY_SIZE_HALF_POINTS: u32 = 24;

/// Superscript and subscript size: 66/100 of the base size (Word's own
/// constant, not the font's).
pub const SUPERSUB_SIZE_NUM: u32 = 66;

pub const SUPERSUB_SIZE_DEN: u32 = 100;

/// Superscript rise, thousandths of an em.
pub const SUPERSCRIPT_RISE_PERMILLE: i64 = 340;

/// Subscript drop, thousandths of an em.
pub const SUBSCRIPT_DROP_PERMILLE: i64 = 80;

/// The string member `key`, if there is one.
pub open spec fn get_str(j: Json, key: Seq<char>) -> Option<Seq<char>> {
    match j.spec_get(key) {
        Some(v) => v.spec_as_str(),
        None => None,
    }
}

/// The boolean member `key`; false when missing or not a boolean.
pub open spec fn get_flag(j: Json, key: Seq<char>) -> bool {
    match j.spec_get(key) {
        Some(v) => v.spec_as_bool() == Some(true),
        None => false,
    }
}

/// The member `key`, or null.
pub open spec fn get_or_null(j: Json, key: Seq<char>) -> Json {
    match j.spec_get(key) {
        Some(v) => v,
        None => Json::Null,
    }
}

fn member_str<'a>(j: &'a Json, key: &str) -> (r: Option<&'a str>)
    ensures
        r matches Some(s) ==> get_str(*j, key@) == Some(s@),
        r is None ==> get_str(*j, key@) is None,
{
    match j.get(key) {
        Some(v) => v.as_str(),
        None => None,
    }
}

fn member_flag(j: &Json, key: &str) -> (r: bool)
    ensures
        r == get_flag(*j, key@),
{
    match j.get(key) {
        Some(v) => match v.as_bool() {
            Some(b) => b,
            None => false,
        },
        None => false,
    }
}

/// Whether an optional string is `lit`.
fn is_str(o: Option<&str>, lit: &str) -> (r: bool)
    ensures
        r == (o matches Some(s) && s@ == lit@),
{
    match o {
        Some(s) => str_eq(s, lit),
        None => false,
    }
}

/// Approximate properties by style id: (size in half points, bold, space
/// before, space after, keep with next).
pub open spec fn spec_style_defaults(style_id: Option<Seq<char>>, level: Option<u64>) -> (u32, bool, Twips, Twips, bool) {
    if style_id == Some("Heading1"@) || level == Some(1u64) {
        (32, true, 240, 120, true)
    } else if style_id == Some("Heading2"@) || level == Some(2u64) {
        (28, true, 200, 100, true)
    } else {
        (BODY_SIZE_HALF_POINTS, false, 0, 120, false)
    }
}

/// Approximate properties by style id (see `spec_style_defaults`).
pub fn style_defaults(style_id: Option<&str>, level: Option<u64>) -> (r: (u32, bool, Twips, Twips, bool))
    ensures
        r == spec_style_defaults(
            match style_id {
                Some(s) => Some(s@),
                None => None,
            },
            level,
        ),
{
    let l1 = match level {
        Some(l) => l == 1,
        None => false,
    };
    let l2 = match level {
        Some(l) => l == 2,
        None => false,
    };
    if is_str(style_id, "Heading1") || l1 {
        (32, true, 240, 120, true)
    } else if is_str(style_id, "Heading2") || l2 {
        (28, true, 200, 100, true)
    } else {
        (BODY_SIZE_HALF_POINTS, false, 0, 120, false)
    }
}

/// The size of superscript and subscript: 66 % of the base, rounded to the
/// nearest half point, at least 1.
pub open spec fn spec_scaled_size(base_size: u32) -> u32 {
    let s = (base_size * 66 + 50) / 100;
    if s >= 1 {
        s as u32
    } else {
        1
    }
}

/// The size of superscript and subscript (see `spec_scaled_size`).
pub fn scaled_size(base_size: u32) -> (r: u32)
    ensures
        r == spec_scaled_size(base_size),
{
    let s: u64 = (base_size as u64 * SUPERSUB_SIZE_NUM as u64 + SUPERSUB_SIZE_DEN as u64 / 2) / SUPERSUB_SIZE_DEN as u64;
    if s >= 1 {
        s as u32
    } else {
        1
    }
}

/// Signed half points to twips, narrowed to `Twips`.
pub fn half_points_to_twips_signed(half_points: i64) -> (r: Twips)
    ensures
        r == (half_points * 10) as i32,
{
    let wide: i128 = half_points as i128 * 10;
    #[verifier::truncate]
    (wide as i32)
}

/// `w:vertAlign` and `w:position` as (size, rise). Superscript and
/// subscript shrink the size and move the baseline by a fixed share of the
/// em; otherwise `w:position`, in half points, only moves the baseline.
pub open spec fn spec_vertical_run_shape(props: Json, base_size: u32) -> (u32, Twips) {
    let em: int = ((base_size as int * 20) / 2) as i32 as int;
    let va = get_str(props, "vertAlign"@);
    if va == Some("superscript"@) {
        (spec_scaled_size(base_size), trunc_div(em * 340, 1000) as i32)
    } else if va == Some("subscript"@) {
        (spec_scaled_size(base_size), (-trunc_div(em * 80, 1000)) as i32)
    } else {
        let hp: i64 = match props.spec_get("position"@) {
            Some(v) => match v.spec_as_i64() {
                Some(i) => i,
                None => 0,
            },
            None => 0,
        };
        (base_size, (hp * 10) as i32)
    }
}

fn vertical_run_shape(props: &Json, base_size: u32) -> (r: (u32, Twips))
    ensures
        r == spec_vertical_run_shape(*props, base_size),
{
    let em: i64 = half_points_to_twips(base_size) as i64;
    let va = member_str(props, "vertAlign");
    if is_str(va, "superscript") {
        (scaled_size(base_size), (em * SUPERSCRIPT_RISE_PERMILLE / 1000) as i32)
    } else if is_str(va, "subscript") {
        (scaled_size(base_size), -((em * SUBSCRIPT_DROP_PERMILLE / 1000) as i32))
    } else {
        // `w:position` is in half points, positive upwards.
        let half_points: i64 = match props.get("position") {
            Some(v) => match v.as_i64() {
                Some(i) => i,
                None => 0,
            },
            None => 0,
        };
        (base_size, half_points_to_twips_signed(half_points))
    }
}

/// The four `w:rFonts` slots and `w:hint` of a `fonts` member. Theme fonts
/// are not resolved: their slot stays empty.
pub open spec fn slots_match(s: FontSlots, fonts: Option<Json>) -> bool {
    match fonts {
        None => opt_view(s.ascii) is None && opt_view(s.h_ansi) is None && opt_view(s.east_asia) is None && opt_view(
            s.cs,
        ) is None && s.hint == FontHint::Default,
        Some(f) => {
            &&& opt_view(s.ascii) == get_str(f, "ascii"@)
            &&& opt_view(s.h_ansi) == get_str(f, "hAnsi"@)
            &&& opt_view(s.east_asia) == get_str(f, "eastAsia"@)
            &&& opt_view(s.cs) == get_str(f, "cs"@)
            &&& s.hint == (if get_str(f, "hint"@) == Some("eastAsia"@) {
                FontHint::EastAsia
            } else if get_str(f, "hint"@) == Some("cs"@) {
                FontHint::Cs
            } else {
                FontHint::Default
            })
        },
    }
}

fn owned(o: Option<&str>) -> (r: Option<String>)
    ensures
        opt_view(r) == (match o {
            Some(s) => Some(s@),
            None => None,
        }),
{
    match o {
        Some(s) => Some(copy_str(s)),
        None => None,
    }
}

fn read_slots(fonts: Option<&Json>) -> (s: FontSlots)
    ensures
        slots_match(
            s,
            match fonts {
                Some(f) => Some(*f),
                None => None,
            },
        ),
{
    match fonts {
        None => FontSlots { ascii: None, h_ansi: None, east_asia: None, cs: None, hint: FontHint::Default },
        Some(f) => {
            let hint = member_str(f, "hint");
            FontSlots {
                ascii: owned(member_str(f, "ascii")),
                h_ansi: owned(member_str(f, "hAnsi")),
                east_asia: owned(member_str(f, "eastAsia")),
                cs: owned(member_str(f, "cs")),
                hint: if is_str(hint, "eastAsia") {
                    FontHint::EastAsia
                } else if is_str(hint, "cs") {
                    FontHint::Cs
                } else {
                    FontHint::Default
                },
            }
        },
    }
}

/// The font of a run: its own size (or the paragraph's), shrunk for
/// superscript and subscript; its own bold (or the paragraph's); italic;
/// the slots; the family is the ascii slot, else the high ANSI slot, else
/// the body font.
pub open spec fn font_matches(f: FontSpec, props: Json, base_size: u32, base_bold: bool) -> bool {
    let size0: u32 = match props.spec_get("size"@) {
        Some(v) => match v.spec_as_u64() {
            Some(n) => n as u32,
            None => base_size,
        },
        None => base_size,
    };
    let bold = match props.spec_get("bold"@) {
        Some(v) => v.spec_as_bool() == Some(true),
        None => base_bold,
    };
    let fonts = props.spec_get("fonts"@);
    &&& f.size_half_points == spec_vertical_run_shape(props, size0).0
    &&& f.bold == bold
    &&& f.italic == get_flag(props, "italic"@)
    &&& slots_match(f.slots, fonts)
    &&& f.family@ == (if opt_view(f.slots.ascii) is Some {
        opt_view(f.slots.ascii)->0
    } else if opt_view(f.slots.h_ansi) is Some {
        opt_view(f.slots.h_ansi)->0
    } else {
        BODY_FAMILY@
    })
    &&& f.letter_spacing == 0
    &&& f.scale_pct == 100
    &&& !f.kerning
}

fn run_font(props: &Json, base_size: u32, base_bold: bool) -> (f: FontSpec)
    ensures
        font_matches(f, *props, base_size, base_bold),
{
    let size: u32 = match props.get("size") {
        Some(v) => match v.as_u64() {
            Some(n) => {
                #[verifier::truncate]
                (n as u32)
            },
            None => base_size,
        },
        None => base_size,
    };
    // Superscript and subscript shrink the size here, where it changes the
    // metrics; the rise goes on the run.
    let (size, _) = vertical_run_shape(props, size);
    let bold = match props.get("bold") {
        Some(v) => match v.as_bool() {
            Some(b) => b,
            None => false,
        },
        None => base_bold,
    };
    let italic = member_flag(props, "italic");
    let slots = read_slots(props.get("fonts"));
    let family = match &slots.ascii {
        Some(a) => a.clone(),
        None => match &slots.h_ansi {
            Some(h) => h.clone(),
            None => copy_str(BODY_FAMILY),
        },
    };
    FontSpec { slots, family, size_half_points: size, bold, italic, letter_spacing: 0, scale_pct: 100, kerning: false }
}

/// How often `c` occurs in `s`.
pub open spec fn count_char(s: Seq<char>, c: char) -> nat
    decreases s.len(),
{
    if s.len() == 0 {
        0
    } else {
        count_char(s.drop_last(), c) + if s.last() == c {
            1nat
        } else {
            0nat
        }
    }
}

/// What a `segments` entry contributes: a break (page, column, or a soft
/// return by default) or an inline object for a drawing, object, picture
/// or unknown kind; nothing for text or an entry without a kind.
pub open spec fn segment_kind(seg: Json) -> Seq<PlaceholderKind> {
    match seg.spec_get("kind"@) {
        None => seq![],
        Some(k) => {
            let kk = get_str(k, "kind"@);
            if kk == Some("br"@) {
                let bk = get_str(k, "breakKind"@);
                seq![
                    if bk == Some("page"@) {
                        PlaceholderKind::PageBreak
                    } else if bk == Some("column"@) {
                        PlaceholderKind::ColumnBreak
                    } else {
                        PlaceholderKind::LineBreak
                    },
                ]
            } else if kk == Some("text"@) {
                seq![]
            } else {
                seq![PlaceholderKind::Object]
            }
        },
    }
}

pub open spec fn segment_kinds(segs: Seq<Json>) -> Seq<PlaceholderKind>
    decreases segs.len(),
{
    if segs.len() == 0 {
        seq![]
    } else {
        segment_kinds(segs.drop_last()) + segment_kind(segs.last())
    }
}

/// What each placeholder of a run's text stands for, read from the run's
/// segments; when their count does not match the placeholders', every one
/// is an inline object (no break is made up).
pub open spec fn spec_run_placeholders(run: Json, text: Seq<char>) -> Seq<PlaceholderKind> {
    let want = count_char(text, OBJECT_PLACEHOLDER);
    if want == 0 {
        seq![]
    } else {
        match run.spec_get("segments"@) {
            Some(Json::Array(items)) => {
                let out = segment_kinds(items@);
                if out.len() == want {
                    out
                } else {
                    Seq::new(want, |i: int| PlaceholderKind::Object)
                }
            },
            _ => Seq::new(want, |i: int| PlaceholderKind::Object),
        }
    }
}

/// `n` inline objects.
fn objects(n: usize) -> (v: Vec<PlaceholderKind>)
    ensures
        v@ == Seq::new(n as nat, |i: int| PlaceholderKind::Object),
{
    let mut v: Vec<PlaceholderKind> = Vec::new();
    let mut i: usize = 0;
    while i < n
        invariant
            0 <= i <= n,
            v@ == Seq::new(i as nat, |k: int| PlaceholderKind::Object),
        decreases n - i,
    {
        v.push(PlaceholderKind::Object);
        assert(v@ =~= Seq::new((i + 1) as nat, |k: int| PlaceholderKind::Object));
        i = i + 1;
    }
    v
}

fn segment_kind_of(seg: &Json, out: &mut Vec<PlaceholderKind>)
    ensures
        final(out)@ == old(out)@ + segment_kind(*seg),
{
    match seg.get("kind") {
        None => {
            assert(old(out)@ + segment_kind(*seg) =~= old(out)@);
        },
        Some(k) => {
            let kk = member_str(k, "kind");
            if is_str(kk, "br") {
                let bk = member_str(k, "breakKind");
                let kind = if is_str(bk, "page") {
                    PlaceholderKind::PageBreak
                } else if is_str(bk, "column") {
                    PlaceholderKind::ColumnBreak
                } else {
                    // No break kind is a soft return.
                    PlaceholderKind::LineBreak
                };
                out.push(kind);
            } else if is_str(kk, "text") {
                assert(old(out)@ + segment_kind(*seg) =~= old(out)@);
            } else {
                // Drawings, objects, pictures, and kinds not known here.
                out.push(PlaceholderKind::Object);
            }
        },
    }
}

fn run_placeholders(run: &Json, text: &str) -> (r: Vec<PlaceholderKind>)
    ensures
        r@ == spec_run_placeholders(*run, text@),
{
    let cs = chars_of(text);
    let mut want: usize = 0;
    let mut i: usize = 0;
    while i < cs.len()
        invariant
            0 <= i <= cs@.len(),
            want == count_char(cs@.take(i as int), OBJECT_PLACEHOLDER),
            want <= i,
        decreases cs@.len() - i,
    {
        proof {
            assert(cs@.take(i + 1).drop_last() =~= cs@.take(i as int));
        }
        if cs[i] == OBJECT_PLACEHOLDER {
            want = want + 1;
        }
        i = i + 1;
    }
    assert(cs@.take(cs@.len() as int) =~= cs@);
    if want == 0 {
        return Vec::new();
    }
    match run.get("segments") {
        Some(Json::Array(segments)) => {
            let mut out: Vec<PlaceholderKind> = Vec::new();
            let mut k: usize = 0;
            while k < segments.len()
                invariant
                    0 <= k <= segments@.len(),
                    out@ == segment_kinds(segments@.take(k as int)),
                decreases segments@.len() - k,
            {
                proof {
                    assert(segments@.take(k + 1).drop_last() =~= segments@.take(k as int));
                }
                segment_kind_of(&segments[k], &mut out);
                k = k + 1;
            }
            assert(segments@.take(segments@.len() as int) =~= segments@);
            if out.len() == want {
                out
            } else {
                objects(want)
            }
        },
        _ => objects(want),
    }
}

/// The run nodes of a block's inlines, in document order: objects of kind
/// `run` with a non-empty text; a `field` is looked into through its
/// `result`, any other object through its `inlines`, an array item by item.
pub open spec fn run_nodes(j: Json) -> Seq<Json>
    decreases j,
{
    match j {
        Json::Array(items) => run_nodes_seq(items@),
        Json::Object(fields) => {
            let kind = get_str(j, "kind"@);
            if kind == Some("run"@) {
                match get_str(j, "text"@) {
                    Some(t) => if t.len() > 0 {
                        seq![j]
                    } else {
                        seq![]
                    },
                    None => seq![],
                }
            } else {
                let i = if kind == Some("field"@) {
                    crate::json::member_index(fields@, "result"@)
                } else {
                    crate::json::member_index(fields@, "inlines"@)
                };
                if 0 <= i < fields@.len() {
                    run_nodes(fields@[i].1)
                } else {
                    seq![]
                }
            }
        },
        _ => seq![],
    }
}

pub open spec fn run_nodes_seq(items: Seq<Json>) -> Seq<Json>
    decreases items,
{
    if items.len() == 0 {
        seq![]
    } else {
        run_nodes_seq(items.drop_last()) + run_nodes(items.last())
    }
}

/// A run made of a run node: its text, its font over the paragraph's
/// base size and boldness, black, its placeholders, its rise.
pub open spec fn run_matches(r: Run, node: Json, base_size: u32, base_bold: bool) -> bool {
    let props = get_or_null(node, "props"@);
    &&& get_str(node, "text"@) == Some(r.text@)
    &&& font_matches(r.font, props, base_size, base_bold)
    &&& r.color == Color { r: 0, g: 0, b: 0 }
    &&& r.placeholders@ == spec_run_placeholders(node, r.text@)
    &&& r.rise == spec_vertical_run_shape(props, base_size).1
}

/// The runs `out` gained: `out` was `start`, then one run per node.
pub open spec fn runs_appended(out: Seq<Run>, start: Seq<Run>, nodes: Seq<Json>, base_size: u32, base_bold: bool) -> bool {
    &&& out.len() == start.len() + nodes.len()
    &&& out.take(start.len() as int) == start
    &&& forall|i: int|
        0 <= i < nodes.len() ==> run_matches(#[trigger] out[start.len() + i], nodes[i], base_size, base_bold)
}

proof fn lemma_runs_appended_chain(
    a: Seq<Run>,
    b: Seq<Run>,
    c: Seq<Run>,
    n1: Seq<Json>,
    n2: Seq<Json>,
    base_size: u32,
    base_bold: bool,
)
    requires
        runs_appended(b, a, n1, base_size, base_bold),
        runs_appended(c, b, n2, base_size, base_bold),
    ensures
        runs_appended(c, a, n1 + n2, base_size, base_bold),
{
    assert(c.take(a.len() as int) =~= a) by {
        assert forall|i: int| 0 <= i < a.len() implies c.take(a.len() as int)[i] == a[i] by {
            assert(c[i] == c.take(b.len() as int)[i]);
            assert(b[i] == b.take(a.len() as int)[i]);
        }
    }
    assert forall|i: int| 0 <= i < (n1 + n2).len() implies run_matches(
        #[trigger] c[a.len() + i],
        (n1 + n2)[i],
        base_size,
        base_bold,
    ) by {
        if i < n1.len() {
            assert(c[a.len() + i] == c.take(b.len() as int)[a.len() + i]);
            assert(run_matches(b[a.len() + i], n1[i], base_size, base_bold));
        } else {
            assert(run_matches(c[b.len() + (i - n1.len())], n2[i - n1.len()], base_size, base_bold));
        }
    }
}

/// Collects the runs of a block's inlines, in document order.
fn collect_runs(inlines: &Json, base_size: u32, base_bold: bool, out: &mut Vec<Run>)
    ensures
        runs_appended(final(out)@, old(out)@, run_nodes(*inlines), base_size, base_bold),
    decreases inlines,
{
    let ghost start = out@;
    match inlines {
        Json::Array(items) => {
            let mut k: usize = 0;
            assert(items@.take(0) =~= Seq::<Json>::empty());
            assert(out@.take(start.len() as int) =~= start);
            while k < items.len()
                invariant
                    0 <= k <= items@.len(),
                    *inlines == Json::Array(*items),
                    runs_appended(out@, start, run_nodes_seq(items@.take(k as int)), base_size, base_bold),
                decreases items@.len() - k,
            {
                let ghost mid = out@;
                proof {
                    let ghost v = (*inlines)->Array_0;
                    assert(decreases_to!(*inlines => (*inlines)->Array_0));
                    assert(v == *items);
                    assert(decreases_to!(v => v@));
                    assert(decreases_to!(v@ => v@[k as int]));
                    assert(decreases_to!(*inlines => items@[k as int]));
                }
                collect_runs(&items[k], base_size, base_bold, out);
                proof {
                    assert(items@.take(k + 1).drop_last() =~= items@.take(k as int));
                    lemma_runs_appended_chain(
                        start,
                        mid,
                        out@,
                        run_nodes_seq(items@.take(k as int)),
                        run_nodes(items@[k as int]),
                        base_size,
                        base_bold,
                    );
                }
                k = k + 1;
            }
            assert(items@.take(items@.len() as int) =~= items@);
        },
        Json::Object(fields) => {
            let kind = member_str(inlines, "kind");
            if is_str(kind, "run") {
                match member_str(inlines, "text") {
                    Some(t) => {
                        if !t.is_empty() {
                            let null = Json::Null;
                            let props: &Json = match inlines.get("props") {
                                Some(p) => p,
                                None => &null,
                            };
                            let run = Run {
                                text: copy_str(t),
                                font: run_font(props, base_size, base_bold),
                                color: Color::black(),
                                placeholders: run_placeholders(inlines, t),
                                rise: vertical_run_shape(props, base_size).1,
                            };
                            out.push(run);
                            proof {
                                assert(out@.take(start.len() as int) =~= start);
                                assert(out@[start.len() as int] == run);
                            }
                        } else {
                            assert(out@.take(start.len() as int) =~= start);
                        }
                    },
                    None => {
                        assert(out@.take(start.len() as int) =~= start);
                    },
                }
            } else {
                let inner = if is_str(kind, "field") {
                    inlines.get("result")
                } else {
                    inlines.get("inlines")
                };
                proof {
                    let key = if kind matches Some(s) && s@ == "field"@ {
                        "result"@
                    } else {
                        "inlines"@
                    };
                    crate::json::lemma_find_from_range(fields@, key, 0);
                }
                match inner {
                    Some(r) => {
                        collect_runs(r, base_size, base_bold, out);
                    },
                    None => {
                        assert(out@.take(start.len() as int) =~= start);
                    },
                }
            }
        },
        _ => {
            assert(out@.take(start.len() as int) =~= start);
        },
    }
}

/// `w:jc` as alignment: `both` and `distribute` justify.
pub open spec fn spec_read_align(props: Json) -> Align {
    let jc = get_str(props, "jc"@);
    if jc == Some("center"@) {
        Align::Center
    } else if jc == Some("right"@) || jc == Some("end"@) {
        Align::Right
    } else if jc == Some("both"@) || jc == Some("distribute"@) {
        Align::Justify
    } else {
        Align::Left
    }
}

fn read_align(props: &Json) -> (a: Align)
    ensures
        a == spec_read_align(*props),
{
    let jc = member_str(props, "jc");
    if is_str(jc, "center") {
        Align::Center
    } else if is_str(jc, "right") || is_str(jc, "end") {
        Align::Right
    } else if is_str(jc, "both") || is_str(jc, "distribute") {
        Align::Justify
    } else {
        Align::Left
    }
}

/// The integer member `key` narrowed to `Twips`, if it is an integer.
pub open spec fn get_twips(j: Json, key: Seq<char>) -> Option<Twips> {
    match j.spec_get(key) {
        Some(v) => match v.spec_as_i64() {
            Some(i) => Some(i as i32),
            None => None,
        },
        None => None,
    }
}

fn member_twips(j: &Json, key: &str) -> (r: Option<Twips>)
    ensures
        r == get_twips(*j, key@),
{
    match j.get(key) {
        Some(v) => match v.as_i64() {
            Some(i) => Some(
                {
                    #[verifier::truncate]
                    (i as i32)
                },
            ),
            None => None,
        },
        None => None,
    }
}

pub open spec fn twips_or(o: Option<Twips>, d: Twips) -> Twips {
    match o {
        Some(v) => v,
        None => d,
    }
}

/// `w:ind` as (left, right, first line): `start`/`end` (Strict) win over
/// `left`/`right`; `hanging` is a negative first-line indent and wins over
/// `firstLine`.
pub open spec fn spec_read_indent(props: Json) -> (Twips, Twips, Twips) {
    match props.spec_get("indent"@) {
        None => (0, 0, 0),
        Some(ind) => (
            if ind.spec_get("start"@) is Some {
                twips_or(get_twips(ind, "start"@), 0)
            } else {
                twips_or(get_twips(ind, "left"@), 0)
            },
            if ind.spec_get("end"@) is Some {
                twips_or(get_twips(ind, "end"@), 0)
            } else {
                twips_or(get_twips(ind, "right"@), 0)
            },
            if ind.spec_get("hanging"@) is Some {
                vstd::wrapping::i32_specs::wrapping_sub(0, twips_or(get_twips(ind, "hanging"@), 0))
            } else {
                twips_or(get_twips(ind, "firstLine"@), 0)
            },
        ),
    }
}

fn twips_or_zero(o: Option<Twips>) -> (r: Twips)
    ensures
        r == twips_or(o, 0),
{
    match o {
        Some(v) => v,
        None => 0,
    }
}

fn read_indent(props: &Json) -> (r: (Twips, Twips, Twips))
    ensures
        r == spec_read_indent(*props),
{
    let ind = match props.get("indent") {
        Some(v) => v,
        None => {
            return (0, 0, 0);
        },
    };
    let left = if ind.get("start").is_some() {
        twips_or_zero(member_twips(ind, "start"))
    } else {
        twips_or_zero(member_twips(ind, "left"))
    };
    let right = if ind.get("end").is_some() {
        twips_or_zero(member_twips(ind, "end"))
    } else {
        twips_or_zero(member_twips(ind, "right"))
    };
    let first = if ind.get("hanging").is_some() {
        0i32.wrapping_sub(twips_or_zero(member_twips(ind, "hanging")))
    } else {
        twips_or_zero(member_twips(ind, "firstLine"))
    };
    (left, right, first)
}

/// `w:spacing` as (rule, value, before, after); what is missing takes 240
/// auto and the style's spacing.
pub open spec fn spec_read_spacing(props: Json, def_before: Twips, def_after: Twips) -> (LineRule, Twips, Twips, Twips) {
    match props.spec_get("spacing"@) {
        None => (LineRule::Auto, 240, def_before, def_after),
        Some(sp) => {
            let lr = get_str(sp, "lineRule"@);
            (
                if lr == Some("exact"@) {
                    LineRule::Exact
                } else if lr == Some("atLeast"@) {
                    LineRule::AtLeast
                } else {
                    LineRule::Auto
                },
                twips_or(get_twips(sp, "line"@), 240),
                twips_or(get_twips(sp, "before"@), def_before),
                twips_or(get_twips(sp, "after"@), def_after),
            )
        },
    }
}

fn or_twips(o: Option<Twips>, d: Twips) -> (r: Twips)
    ensures
        r == twips_or(o, d),
{
    match o {
        Some(v) => v,
        None => d,
    }
}

fn read_spacing(props: &Json, def_before: Twips, def_after: Twips) -> (r: (LineRule, Twips, Twips, Twips))
    ensures
        r == spec_read_spacing(*props, def_before, def_after),
{
    let sp = match props.get("spacing") {
        Some(v) => v,
        None => {
            return (LineRule::Auto, 240, def_before, def_after);
        },
    };
    let lr = member_str(sp, "lineRule");
    let rule = if is_str(lr, "exact") {
        LineRule::Exact
    } else if is_str(lr, "atLeast") {
        LineRule::AtLeast
    } else {
        LineRule::Auto
    };
    (
        rule,
        or_twips(member_twips(sp, "line"), 240),
        or_twips(member_twips(sp, "before"), def_before),
        or_twips(member_twips(sp, "after"), def_after),
    )
}

/// Unicode white space, as `char::is_whitespace` documents it.
pub open spec fn is_ws(c: char) -> bool {
    let v = c as u32;
    (0x09 <= v <= 0x0d) || v == 0x20 || v == 0x85 || v == 0xa0 || v == 0x1680 || (0x2000 <= v <= 0x200a) || v
        == 0x2028 || v == 0x2029 || v == 0x202f || v == 0x205f || v == 0x3000
}

fn is_white_space(c: char) -> (b: bool)
    ensures
        b == is_ws(c),
{
    let v = c as u32;
    (0x09 <= v && v <= 0x0d) || v == 0x20 || v == 0x85 || v == 0xa0 || v == 0x1680 || (0x2000 <= v && v <= 0x200a)
        || v == 0x2028 || v == 0x2029 || v == 0x202f || v == 0x205f || v == 0x3000
}

/// Some run holds a character that is not white space.
pub open spec fn has_text(runs: Seq<Run>) -> bool {
    exists|i: int, k: int| 0 <= i < runs.len() && 0 <= k < runs[i].text@.len() && !is_ws(#[trigger] runs[i].text@[k])
}

fn runs_have_text(runs: &[Run]) -> (b: bool)
    ensures
        b == has_text(runs@),
{
    let mut i: usize = 0;
    while i < runs.len()
        invariant
            0 <= i <= runs@.len(),
            forall|a: int, k: int| 0 <= a < i && 0 <= k < runs@[a].text@.len() ==> is_ws(#[trigger] runs@[a].text@[k]),
        decreases runs@.len() - i,
    {
        let cs = chars_of(runs[i].text.as_str());
        let mut k: usize = 0;
        while k < cs.len()
            invariant
                0 <= k <= cs@.len(),
                0 <= i < runs@.len(),
                cs@ == runs@[i as int].text@,
                forall|j: int| 0 <= j < k ==> is_ws(#[trigger] cs@[j]),
            decreases cs@.len() - k,
        {
            if !is_white_space(cs[k]) {
                assert(!is_ws(runs@[i as int].text@[k as int]));
                return true;
            }
            k = k + 1;
        }
        i = i + 1;
    }
    false
}

/// The paragraph's terminator by the counting convention: a section
/// break inside the paragraph first; a page break mid paragraph when some
/// run has text, on its own line otherwise; a soft return for a text
/// wrapping or column break; a paragraph mark otherwise.
pub open spec fn spec_pick_terminator(has_sect_pr: bool, brk: Option<Seq<char>>, runs: Seq<Run>) -> LineTerminator {
    if has_sect_pr {
        LineTerminator::SectionBreak
    } else if brk == Some("page"@) {
        LineTerminator::PageBreak(
            if has_text(runs) {
                PageBreakPosition::MidParagraph
            } else {
                PageBreakPosition::OwnLine
            },
        )
    } else if brk == Some("textWrapping"@) || brk == Some("column"@) {
        LineTerminator::LineBreak
    } else {
        LineTerminator::ParagraphMark
    }
}

/// The paragraph's terminator (see `spec_pick_terminator`).
pub fn pick_terminator(has_sect_pr: bool, brk: Option<String>, runs: &[Run]) -> (t: LineTerminator)
    ensures
        t == spec_pick_terminator(has_sect_pr, opt_view(brk), runs@),
{
    if has_sect_pr {
        return LineTerminator::SectionBreak;
    }
    let b: Option<&str> = match &brk {
        Some(s) => Some(s.as_str()),
        None => None,
    };
    if is_str(b, "page") {
        // Only two positions can be told apart here: text in the
        // paragraph, or the break alone.
        if runs_have_text(runs) {
            LineTerminator::PageBreak(PageBreakPosition::MidParagraph)
        } else {
            LineTerminator::PageBreak(PageBreakPosition::OwnLine)
        }
    } else if is_str(b, "textWrapping") || is_str(b, "column") {
        LineTerminator::LineBreak
    } else {
        LineTerminator::ParagraphMark
    }
}

/// The first block of each section that starts on a new page (`nextPage`,
/// the default, `evenPage`, `oddPage`), in section order.
pub open spec fn section_starts(sections: Seq<Json>) -> Seq<u64>
    decreases sections.len(),
{
    if sections.len() == 0 {
        seq![]
    } else {
        let prev = section_starts(sections.drop_last());
        let sec = sections.last();
        let kind = match sec.spec_get("props"@) {
            Some(p) => match get_str(p, "kind"@) {
                Some(k) => k,
                None => "nextPage"@,
            },
            None => "nextPage"@,
        };
        if kind == "nextPage"@ || kind == "evenPage"@ || kind == "oddPage"@ {
            match sec.spec_get("blockRange"@) {
                Some(Json::Array(range)) => if range@.len() > 0 && range@[0].spec_as_u64() is Some {
                    prev.push(range@[0].spec_as_u64()->0)
                } else {
                    prev
                },
                _ => prev,
            }
        } else {
            prev
        }
    }
}

/// The document's new-page section starts.
pub open spec fn doc_section_starts(doc: Json) -> Seq<u64> {
    match doc.spec_get("sections"@) {
        Some(Json::Array(sections)) => section_starts(sections@),
        _ => seq![],
    }
}

fn section_page_starts(doc: &Json) -> (out: Vec<u64>)
    ensures
        out@ == doc_section_starts(*doc),
{
    let mut out: Vec<u64> = Vec::new();
    let sections = match doc.get("sections") {
        Some(Json::Array(s)) => s,
        _ => {
            return out;
        },
    };
    let mut i: usize = 0;
    while i < sections.len()
        invariant
            0 <= i <= sections@.len(),
            out@ == section_starts(sections@.take(i as int)),
        decreases sections@.len() - i,
    {
        proof {
            assert(sections@.take(i + 1).drop_last() =~= sections@.take(i as int));
        }
        let sec = &sections[i];
        let kind: &str = match sec.get("props") {
            Some(p) => match member_str(p, "kind") {
                Some(k) => k,
                None => "nextPage",
            },
            None => "nextPage",
        };
        // `w:sectPr/w:type` says how the section itself starts: a new page
        // for these three; `continuous` and `nextColumn` do not.
        if str_eq(kind, "nextPage") || str_eq(kind, "evenPage") || str_eq(kind, "oddPage") {
            match sec.get("blockRange") {
                Some(Json::Array(range)) => {
                    if range.len() > 0 {
                        match range[0].as_u64() {
                            Some(start) => out.push(start),
                            None => {},
                        }
                    }
                },
                _ => {},
            }
        }
        i = i + 1;
    }
    assert(sections@.take(sections@.len() as int) =~= sections@);
    out
}

fn contains_u64(v: &Vec<u64>, x: u64) -> (b: bool)
    ensures
        b == v@.contains(x),
{
    let mut i: usize = 0;
    while i < v.len()
        invariant
            0 <= i <= v@.len(),
            forall|k: int| 0 <= k < i ==> v@[k] != x,
        decreases v@.len() - i,
    {
        if v[i] == x {
            assert(v@[i as int] == x);
            return true;
        }
        i = i + 1;
    }
    false
}

/// How deep a value nests: 1 for a leaf, one more than its deepest item
/// or member value.
pub open spec fn depth(j: Json) -> nat
    decreases j,
{
    match j {
        Json::Array(items) => 1 + max_depth(items@),
        Json::Object(fields) => 1 + max_depth_fields(fields@),
        _ => 1,
    }
}

pub open spec fn max_depth(s: Seq<Json>) -> nat
    decreases s,
{
    if s.len() == 0 {
        0
    } else {
        let a = depth(s.last());
        let b = max_depth(s.drop_last());
        if a >= b {
            a
        } else {
            b
        }
    }
}

pub open spec fn max_depth_fields(s: Seq<(String, Json)>) -> nat
    decreases s,
{
    if s.len() == 0 {
        0
    } else {
        let a = depth(s.last().1);
        let b = max_depth_fields(s.drop_last());
        if a >= b {
            a
        } else {
            b
        }
    }
}

proof fn lemma_max_depth_ge(s: Seq<Json>, k: int)
    requires
        0 <= k < s.len(),
    ensures
        depth(s[k]) <= max_depth(s),
    decreases s.len(),
{
    if k < s.len() - 1 {
        lemma_max_depth_ge(s.drop_last(), k);
    }
}

proof fn lemma_max_depth_fields_ge(s: Seq<(String, Json)>, k: int)
    requires
        0 <= k < s.len(),
    ensures
        depth(s[k].1) <= max_depth_fields(s),
    decreases s.len(),
{
    if k < s.len() - 1 {
        lemma_max_depth_fields_ge(s.drop_last(), k);
    }
}

proof fn lemma_max_depth_concat(a: Seq<Json>, b: Seq<Json>)
    ensures
        max_depth(a + b) == (if max_depth(a) >= max_depth(b) {
            max_depth(a)
        } else {
            max_depth(b)
        }),
    decreases b.len(),
{
    if b.len() == 0 {
        assert(a + b =~= a);
    } else {
        lemma_max_depth_concat(a, b.drop_last());
        assert((a + b).drop_last() =~= a + b.drop_last());
    }
}

/// What the search visits after a value: an array's items; an object's
/// `segments`, `inlines` and `result` members, in that order.
pub open spec fn children(v: Json) -> Seq<Json> {
    match v {
        Json::Array(items) => items@,
        Json::Object(_) => opt_seq(v.spec_get("segments"@)) + opt_seq(v.spec_get("inlines"@)) + opt_seq(
            v.spec_get("result"@),
        ),
        _ => seq![],
    }
}

pub open spec fn opt_seq(o: Option<Json>) -> Seq<Json> {
    match o {
        Some(x) => seq![x],
        None => seq![],
    }
}

/// The break kind an object names: its `kind` is an object of kind `br`
/// with a string `breakKind`.
pub open spec fn br_kind(v: Json) -> Option<Seq<char>> {
    match v {
        Json::Object(_) => match v.spec_get("kind"@) {
            Some(k) => if get_str(k, "kind"@) == Some("br"@) {
                get_str(k, "breakKind"@)
            } else {
                None
            },
            None => None,
        },
        _ => None,
    }
}

proof fn lemma_opt_member_shallower(v: Json, key: Seq<char>)
    requires
        v is Object,
    ensures
        max_depth(opt_seq(v.spec_get(key))) + 1 <= depth(v),
{
    let fields = v->Object_0@;
    crate::json::lemma_find_from_range(fields, key, 0);
    let i = crate::json::member_index(fields, key);
    assert(depth(v) == 1 + max_depth_fields(fields));
    if 0 <= i < fields.len() {
        lemma_max_depth_fields_ge(fields, i);
        let one = seq![fields[i].1];
        assert(opt_seq(v.spec_get(key)) =~= one);
        assert(one.drop_last() =~= Seq::<Json>::empty());
        assert(one.last() == fields[i].1);
        assert(max_depth(Seq::<Json>::empty()) == 0);
        assert(max_depth(one) == depth(fields[i].1));
    } else {
        assert(opt_seq(v.spec_get(key)) =~= Seq::<Json>::empty());
    }
}

proof fn lemma_children_shallower(v: Json)
    ensures
        max_depth(children(v)) + 1 <= depth(v),
{
    match v {
        Json::Object(_) => {
            lemma_opt_member_shallower(v, "segments"@);
            lemma_opt_member_shallower(v, "inlines"@);
            lemma_opt_member_shallower(v, "result"@);
            lemma_max_depth_concat(opt_seq(v.spec_get("segments"@)), opt_seq(v.spec_get("inlines"@)));
            lemma_max_depth_concat(
                opt_seq(v.spec_get("segments"@)) + opt_seq(v.spec_get("inlines"@)),
                opt_seq(v.spec_get("result"@)),
            );
        },
        _ => {},
    }
}

/// The values one level down from `level`, in order.
pub open spec fn next_level(level: Seq<Json>) -> Seq<Json>
    decreases level.len(),
{
    if level.len() == 0 {
        seq![]
    } else {
        next_level(level.drop_last()) + children(level.last())
    }
}

pub proof fn lemma_next_level_shallower(level: Seq<Json>)
    ensures
        level.len() > 0 ==> max_depth(next_level(level)) + 1 <= max_depth(level),
        level.len() == 0 ==> max_depth(next_level(level)) == 0,
    decreases level.len(),
{
    if level.len() > 0 {
        lemma_next_level_shallower(level.drop_last());
        lemma_children_shallower(level.last());
        lemma_max_depth_concat(next_level(level.drop_last()), children(level.last()));
    }
}

/// The last break kind named in `level`, or `found` if none.
pub open spec fn last_in(level: Seq<Json>, found: Option<Seq<char>>) -> Option<Seq<char>>
    decreases level.len(),
{
    if level.len() == 0 {
        found
    } else {
        match br_kind(level.last()) {
            Some(b) => Some(b),
            None => last_in(level.drop_last(), found),
        }
    }
}

/// A breadth-first search from `level`: the last break kind met, level by
/// level, each level in order.
pub open spec fn bfs_from(level: Seq<Json>, found: Option<Seq<char>>) -> Option<Seq<char>>
    decreases max_depth(level),
{
    if level.len() == 0 {
        found
    } else {
        proof {
            lemma_next_level_shallower(level);
        }
        bfs_from(next_level(level), last_in(level, found))
    }
}

/// The type of the paragraph's last `w:br` in breadth-first order from its
/// inlines.
pub open spec fn spec_last_break(block: Json) -> Option<Seq<char>> {
    match block.spec_get("inlines"@) {
        Some(i) => bfs_from(seq![i], None),
        None => None,
    }
}

pub open spec fn deref_all(s: Seq<&Json>) -> Seq<Json> {
    s.map_values(|r: &Json| *r)
}

pub open spec fn str_view(o: Option<&str>) -> Option<Seq<char>> {
    match o {
        Some(s) => Some(s@),
        None => None,
    }
}

fn br_of(v: &Json) -> (r: Option<&str>)
    ensures
        str_view(r) == br_kind(*v),
{
    match v {
        Json::Object(_) => match v.get("kind") {
            Some(k) => if is_str(member_str(k, "kind"), "br") {
                member_str(k, "breakKind")
            } else {
                None
            },
            None => None,
        },
        _ => None,
    }
}

fn push_children<'a>(v: &'a Json, next: &mut Vec<&'a Json>)
    ensures
        deref_all(final(next)@) == deref_all(old(next)@) + children(*v),
{
    match v {
        Json::Array(items) => {
            let ghost start = next@;
            let mut k: usize = 0;
            while k < items.len()
                invariant
                    0 <= k <= items@.len(),
                    deref_all(next@) == deref_all(start) + items@.take(k as int),
                decreases items@.len() - k,
            {
                let ghost before = next@;
                next.push(&items[k]);
                proof {
                    assert(next@ == before.push(&items@[k as int]));
                    assert(deref_all(next@) =~= deref_all(before).push(items@[k as int]));
                    assert(items@.take(k + 1) =~= items@.take(k as int).push(items@[k as int]));
                    assert(deref_all(next@) =~= deref_all(start) + items@.take(k + 1));
                }
                k = k + 1;
            }
            assert(items@.take(items@.len() as int) =~= items@);
        },
        Json::Object(_) => {
            let ghost start = deref_all(next@);
            match v.get("segments") {
                Some(c) => next.push(c),
                None => {},
            }
            assert(deref_all(next@) =~= start + opt_seq(v.spec_get("segments"@)));
            let ghost s1 = deref_all(next@);
            match v.get("inlines") {
                Some(c) => next.push(c),
                None => {},
            }
            assert(deref_all(next@) =~= s1 + opt_seq(v.spec_get("inlines"@)));
            let ghost s2 = deref_all(next@);
            match v.get("result") {
                Some(c) => next.push(c),
                None => {},
            }
            assert(deref_all(next@) =~= s2 + opt_seq(v.spec_get("result"@)));
            assert(deref_all(next@) =~= start + children(*v));
        },
        _ => {
            assert(deref_all(next@) =~= deref_all(old(next)@) + children(*v));
        },
    }
}

/// The type of the paragraph's last `w:br`, searched breadth first from
/// its inlines.
fn last_break(block: &Json) -> (r: Option<String>)
    ensures
        opt_view(r) == spec_last_break(*block),
{
    let root = match block.get("inlines") {
        Some(v) => v,
        None => {
            return None;
        },
    };
    let mut level: Vec<&Json> = Vec::new();
    level.push(root);
    assert(deref_all(level@) =~= seq![*root]);
    let mut found: Option<&str> = None;
    while level.len() > 0
        invariant
            bfs_from(deref_all(level@), str_view(found)) == spec_last_break(*block),
        decreases max_depth(deref_all(level@)),
    {
        let ghost lv = deref_all(level@);
        let ghost found0 = str_view(found);
        let mut next: Vec<&Json> = Vec::new();
        let mut i: usize = 0;
        assert(lv.take(0) =~= Seq::<Json>::empty());
        while i < level.len()
            invariant
                0 <= i <= level@.len(),
                lv == deref_all(level@),
                deref_all(next@) == next_level(lv.take(i as int)),
                str_view(found) == last_in(lv.take(i as int), found0),
            decreases level@.len() - i,
        {
            let v = level[i];
            proof {
                assert(lv.take(i + 1).drop_last() =~= lv.take(i as int));
                assert(lv[i as int] == *v);
            }
            match br_of(v) {
                Some(b) => {
                    found = Some(b);
                },
                None => {},
            }
            push_children(v, &mut next);
            i = i + 1;
        }
        assert(lv.take(lv.len() as int) =~= lv);
        proof {
            lemma_next_level_shallower(lv);
        }
        level = next;
    }
    match found {
        Some(b) => Some(copy_str(b)),
        None => None,
    }
}

/// The blocks of the main story.
pub open spec fn main_blocks(doc: Json) -> Seq<Json> {
    match doc.spec_get("main"@) {
        Some(Json::Array(items)) => items@,
        _ => seq![],
    }
}

pub open spec fn is_text_block(b: Json) -> bool {
    get_str(b, "kind"@) == Some("text"@)
}

/// The indices of the text blocks, in order.
pub open spec fn text_block_indices(blocks: Seq<Json>) -> Seq<int>
    decreases blocks.len(),
{
    if blocks.len() == 0 {
        seq![]
    } else {
        let p = text_block_indices(blocks.drop_last());
        if is_text_block(blocks.last()) {
            p.push(blocks.len() - 1)
        } else {
            p
        }
    }
}

/// The run that stands in for an empty paragraph: no text, the body font
/// at the style's size, black.
pub open spec fn is_empty_run(r: Run, size: u32) -> bool {
    &&& r.text@.len() == 0
    &&& r.font.is_plain(BODY_FAMILY@, size)
    &&& r.color == Color { r: 0, g: 0, b: 0 }
    &&& r.placeholders@.len() == 0
    &&& r.rise == 0
}

/// A paragraph made of a text block: runs from its inlines (one empty run
/// when there are none) over the style's size and boldness; alignment,
/// indents and spacing from its properties; keep with next from the style
/// or the properties; a page break before from the properties or because
/// its section starts on a new page here; the block's node; the terminator
/// by the counting convention.
pub open spec fn para_matches(p: Para, block: Json, block_index: int, starts: Seq<u64>) -> bool {
    let style_id = get_str(block, "styleId"@);
    let level = match block.spec_get("textKind"@) {
        Some(t) => match t.spec_get("level"@) {
            Some(l) => l.spec_as_u64(),
            None => None,
        },
        None => None,
    };
    let sd = spec_style_defaults(style_id, level);
    let has_sect_pr = match block.spec_get("facts"@) {
        Some(f) => get_flag(f, "hasSectPr"@),
        None => false,
    };
    let props = get_or_null(block, "props"@);
    let nodes = match block.spec_get("inlines"@) {
        Some(i) => run_nodes(i),
        None => seq![],
    };
    let ind = spec_read_indent(props);
    let sp = spec_read_spacing(props, sd.2, sd.3);
    &&& if nodes.len() > 0 {
        &&& p.runs@.len() == nodes.len()
        &&& forall|i: int| 0 <= i < nodes.len() ==> run_matches(#[trigger] p.runs@[i], nodes[i], sd.0, sd.1)
    } else {
        p.runs@.len() == 1 && is_empty_run(p.runs@[0], sd.0)
    }
    &&& p.align == spec_read_align(props)
    &&& p.indent_left == ind.0
    &&& p.indent_right == ind.1
    &&& p.indent_first_line == ind.2
    &&& p.line_rule == sp.0
    &&& p.line_value == sp.1
    &&& p.space_before == sp.2
    &&& p.space_after == sp.3
    &&& p.keep_next == (sd.4 || get_flag(props, "keepNext"@))
    &&& p.keep_lines == get_flag(props, "keepLines"@)
    &&& p.page_break_before == (starts.contains(block_index as u64) || get_flag(props, "pageBreakBefore"@))
    &&& p.source_node == match block.spec_get("node"@) {
        Some(n) => match n.spec_as_u64() {
            Some(v) => Some(v as u32),
            None => None,
        },
        None => None,
    }
    &&& p.terminator == spec_pick_terminator(has_sect_pr, spec_last_break(block), p.runs@)
}

/// A hanging indent of `h` twips makes a first-line indent of `-h`: the
/// first line starts `h` to the left of the others, never to the right of
/// them for a non-negative `h`.
pub proof fn law_hanging_indent_is_negative_first_line(
    p: Para,
    block: Json,
    block_index: int,
    starts: Seq<u64>,
    props: Json,
    ind: Json,
    hanging: Json,
    h: i64,
)
    requires
        para_matches(p, block, block_index, starts),
        block.spec_get("props"@) == Some(props),
        props.spec_get("indent"@) == Some(ind),
        ind.spec_get("hanging"@) == Some(hanging),
        hanging.spec_as_i64() == Some(h),
        -i32::MAX <= h <= i32::MAX,
    ensures
        p.indent_first_line == -h,
        0 <= h ==> p.indent_first_line <= 0,
{
}

/// The integer value of member `key`, if it is an integer.
pub open spec fn int_member(j: Json, key: Seq<char>) -> Option<i64> {
    match j.spec_get(key) {
        Some(v) => v.spec_as_i64(),
        None => None,
    }
}

/// A paragraph without `w:ind` has no indentation.
pub proof fn law_no_indent_is_none(p: Para, block: Json, block_index: int, starts: Seq<u64>)
    requires
        para_matches(p, block, block_index, starts),
        block.spec_get("props"@) matches Some(props) ==> props.spec_get("indent"@) is None,
    ensures
        p.indent_left == 0,
        p.indent_right == 0,
        p.indent_first_line == 0,
{
}

/// The sides of `w:ind`: the left indent is `start` when it is there,
/// else `left`; the right indent is `end`, else `right`; without a
/// hanging indent the first-line indent is `firstLine`.
pub proof fn law_indent_sides(p: Para, block: Json, block_index: int, starts: Seq<u64>, props: Json, ind: Json)
    requires
        para_matches(p, block, block_index, starts),
        block.spec_get("props"@) == Some(props),
        props.spec_get("indent"@) == Some(ind),
    ensures
        int_member(ind, "start"@) matches Some(x) ==> (i32::MIN <= x <= i32::MAX ==> p.indent_left == x),
        ind.spec_get("start"@) is None ==> (int_member(ind, "left"@) matches Some(x) ==> (i32::MIN <= x
            <= i32::MAX ==> p.indent_left == x)),
        int_member(ind, "end"@) matches Some(x) ==> (i32::MIN <= x <= i32::MAX ==> p.indent_right == x),
        ind.spec_get("end"@) is None ==> (int_member(ind, "right"@) matches Some(x) ==> (i32::MIN <= x
            <= i32::MAX ==> p.indent_right == x)),
        ind.spec_get("hanging"@) is None ==> (int_member(ind, "firstLine"@) matches Some(x) ==> (i32::MIN
            <= x <= i32::MAX ==> p.indent_first_line == x)),
{
}

/// Line spacing: without `w:spacing` a paragraph is single spaced
/// (`auto`, 240). With it, `lineRule` `exact` and `atLeast` select those
/// rules and anything else `auto`; the value is `line`, 240 when missing.
pub proof fn law_line_spacing_rule_and_value(p: Para, block: Json, block_index: int, starts: Seq<u64>)
    requires
        para_matches(p, block, block_index, starts),
    ensures
        (block.spec_get("props"@) matches Some(props) ==> props.spec_get("spacing"@) is None) ==> p.line_rule
            == LineRule::Auto && p.line_value == 240,
        block.spec_get("props"@) matches Some(props) ==> (props.spec_get("spacing"@) matches Some(sp) ==> {
            let rule = match sp.spec_get("lineRule"@) {
                Some(v) => v.spec_as_str(),
                None => None,
            };
            &&& rule == Some("exact"@) ==> p.line_rule == LineRule::Exact
            &&& rule == Some("atLeast"@) ==> p.line_rule == LineRule::AtLeast
            &&& rule != Some("exact"@) && rule != Some("atLeast"@) ==> p.line_rule == LineRule::Auto
            &&& sp.spec_get("line"@) is None ==> p.line_value == 240
            &&& int_member(sp, "line"@) matches Some(x) ==> (i32::MIN <= x <= i32::MAX ==> p.line_value == x)
        }),
{
    reveal_strlit("exact");
    reveal_strlit("atLeast");
    assert("exact"@.len() == 5 && "atLeast"@.len() == 7);
}

/// Alignment from `w:jc`: `center` centres, `right` and `end` align
/// right, `both` and `distribute` justify, and anything else (or nothing)
/// aligns left.
pub proof fn law_alignment_from_jc(p: Para, block: Json, block_index: int, starts: Seq<u64>, jc: Seq<char>)
    requires
        para_matches(p, block, block_index, starts),
        block.spec_get("props"@) matches Some(props) && props.spec_get("jc"@) matches Some(v) && v.spec_as_str()
            == Some(jc),
    ensures
        jc == "center"@ ==> p.align == Align::Center,
        jc == "right"@ || jc == "end"@ ==> p.align == Align::Right,
        jc == "both"@ || jc == "distribute"@ ==> p.align == Align::Justify,
        jc != "center"@ && jc != "right"@ && jc != "end"@ && jc != "both"@ && jc != "distribute"@ ==> p.align
            == Align::Left,
{
    reveal_strlit("center");
    reveal_strlit("right");
    reveal_strlit("end");
    reveal_strlit("both");
    reveal_strlit("distribute");
    assert("center"@.len() == 6 && "right"@.len() == 5 && "end"@.len() == 3 && "both"@.len() == 4);
    assert("distribute"@.len() == 10);
}

fn para_from_block(block: &Json, block_index: usize, starts: &Vec<u64>) -> (p: Para)
    requires
        is_text_block(*block),
    ensures
        para_matches(p, *block, block_index as int, starts@),
{
    let style_id = member_str(block, "styleId");
    let level = match block.get("textKind") {
        Some(t) => match t.get("level") {
            Some(l) => l.as_u64(),
            None => None,
        },
        None => None,
    };
    let (size, bold, before, after, keep_next) = style_defaults(style_id, level);
    let has_sect_pr = match block.get("facts") {
        Some(f) => member_flag(f, "hasSectPr"),
        None => false,
    };
    let brk = last_break(block);

    let mut runs: Vec<Run> = Vec::new();
    match block.get("inlines") {
        Some(inlines) => {
            collect_runs(inlines, size, bold, &mut runs);
            proof {
                let nodes = run_nodes(*inlines);
                assert forall|i: int| 0 <= i < nodes.len() implies run_matches(
                    #[trigger] runs@[i],
                    nodes[i],
                    size,
                    bold,
                ) by {
                    assert(run_matches(runs@[Seq::<Run>::empty().len() + i], nodes[i], size, bold));
                }
            }
        },
        None => {},
    }
    // An empty paragraph still takes a line's height.
    if runs.len() == 0 {
        runs.push(
            Run {
                text: String::new(),
                font: FontSpec::new(BODY_FAMILY, size),
                color: Color::black(),
                placeholders: Vec::new(),
                rise: 0,
            },
        );
    }
    let null = Json::Null;
    let props: &Json = match block.get("props") {
        Some(p) => p,
        None => &null,
    };
    let (indent_left, indent_right, indent_first_line) = read_indent(props);
    let (line_rule, line_value, space_before, space_after) = read_spacing(props, before, after);
    // Worked out before the runs move into the paragraph.
    let terminator = pick_terminator(has_sect_pr, brk, runs.as_slice());
    let source_node = match block.get("node") {
        Some(n) => match n.as_u64() {
            Some(v) => Some(
                {
                    #[verifier::truncate]
                    (v as u32)
                },
            ),
            None => None,
        },
        None => None,
    };
    let keep_next = keep_next || member_flag(props, "keepNext");
    let keep_lines = member_flag(props, "keepLines");
    // A page break before comes from the property, or from a section that
    // starts on a new page at this block.
    let page_break_before = contains_u64(starts, block_index as u64) || member_flag(props, "pageBreakBefore");
    Para {
        runs,
        align: read_align(props),
        indent_left,
        indent_right,
        indent_first_line,
        space_before,
        space_after,
        line_rule,
        line_value,
        keep_next,
        keep_lines,
        page_break_before,
        source_node,
        terminator,
    }
}

/// The document's text blocks as paragraphs, and how many other blocks
/// (tables, drawings) were skipped; the caller should report those.
pub fn paras_from_document(doc: &Json) -> (r: (Vec<Para>, usize))
    ensures
        r.0@.len() == text_block_indices(main_blocks(*doc)).len(),
        r.1 == main_blocks(*doc).len() - text_block_indices(main_blocks(*doc)).len(),
        forall|k: int|
            0 <= k < r.0@.len() ==> {
                let bi = text_block_indices(main_blocks(*doc))[k];
                para_matches(#[trigger] r.0@[k], main_blocks(*doc)[bi], bi, doc_section_starts(*doc))
            },
{
    let mut paras: Vec<Para> = Vec::new();
    let mut skipped: usize = 0;
    let main = match doc.get("main") {
        Some(Json::Array(items)) => items,
        _ => {
            return (paras, skipped);
        },
    };
    // Section starts are block indices: blocks that are not text are
    // skipped, so the index is the block's, not the paragraph's.
    let starts = section_page_starts(doc);
    let ghost blocks = main@;
    let mut i: usize = 0;
    while i < main.len()
        invariant
            0 <= i <= main@.len(),
            blocks == main@,
            blocks == main_blocks(*doc),
            starts@ == doc_section_starts(*doc),
            paras@.len() == text_block_indices(blocks.take(i as int)).len(),
            skipped + paras@.len() == i,
            forall|k: int|
                0 <= k < paras@.len() ==> {
                    let bi = text_block_indices(blocks.take(i as int))[k];
                    para_matches(#[trigger] paras@[k], blocks[bi], bi, starts@)
                },
        decreases main@.len() - i,
    {
        let ghost before = text_block_indices(blocks.take(i as int));
        proof {
            assert(blocks.take(i + 1).drop_last() =~= blocks.take(i as int));
        }
        let block = &main[i];
        let kind = member_str(block, "kind");
        if !is_str(kind, "text") {
            skipped = skipped + 1;
            proof {
                assert(blocks.take(i + 1).last() == blocks[i as int]);
                assert(!is_text_block(blocks[i as int]));
                assert(text_block_indices(blocks.take(i + 1)) == before);
                assert forall|k: int| 0 <= k < paras@.len() implies {
                    let bi = before[k];
                    para_matches(#[trigger] paras@[k], blocks[bi], bi, starts@)
                } by {
                    assert(text_block_indices(blocks.take(i as int))[k] == before[k]);
                }
            }
        } else {
            let p = para_from_block(block, i, &starts);
            let ghost old_paras = paras@;
            paras.push(p);
            proof {
                let now = text_block_indices(blocks.take(i + 1));
                assert(now == before.push(i as int));
                assert forall|k: int| 0 <= k < paras@.len() implies {
                    let bi = now[k];
                    para_matches(#[trigger] paras@[k], blocks[bi], bi, starts@)
                } by {
                    if k < paras@.len() - 1 {
                        assert(now[k] == before[k]);
                        assert(old_paras[k] == paras@[k]);
                        assert(text_block_indices(blocks.take(i as int))[k] == before[k]);
                        let obi = before[k];
                        assert(para_matches(old_paras[k], blocks[obi], obi, starts@));
                    }
                }
            }
        }
        i = i + 1;
    }
    assert(blocks.take(blocks.len() as int) =~= blocks);
    (paras, skipped)
}

} // verus!
