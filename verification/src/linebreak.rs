//! Line break opportunities. The rule (after UAX #14) does not depend on the
//! font, so the stub metrics and real metrics share it.
use vstd::prelude::*;
use crate::font::BreakOpportunity;
use crate::text::{chars_of, fits_utf8, len_utf8, utf8_len};

verus! {

/// CJK characters after which a line may break (before line-start rules).
pub open spec fn spec_is_cjk(c: char) -> bool {
    let v = c as u32;
    (0x1100 <= v <= 0x11FF) || (0x2E80 <= v <= 0x2EFF) || (0x3000 <= v <= 0x303F) || (0x3040
        <= v <= 0x30FF) || (0x3400 <= v <= 0x4DBF) || (0x4E00 <= v <= 0x9FFF) || (0xAC00 <= v
        <= 0xD7AF) || (0xF900 <= v <= 0xFAFF) || (0xFF00 <= v <= 0xFF60) || (0x20000 <= v
        <= 0x2FA1F)
}

/// Characters that may not start a line (kinsoku).
pub open spec fn spec_is_no_line_start(c: char) -> bool {
    c == '\u{FF0C}' || c == '\u{3002}' || c == '\u{3001}' || c == '\u{FF1B}' || c == '\u{FF1A}'
        || c == '\u{FF1F}' || c == '\u{FF01}' || c == '\u{FF09}' || c == '\u{3011}' || c
        == '\u{300B}' || c == '\u{300D}' || c == '\u{300F}' || c == ',' || c == '.' || c == ';'
        || c == ':' || c == '?' || c == '!' || c == ')' || c == ']' || c == '}' || c
        == '\u{201D}' || c == '\u{2019}'
}

/// Whether a line may break after character `i` of `s`: after a space or
/// tab; between CJK characters, and when entering CJK from a character
/// that is neither CJK nor a space, unless the next character may not start
/// a line.
pub open spec fn break_after(s: Seq<char>, i: int) -> bool {
    let c = s[i];
    let has_next = i + 1 < s.len();
    let after_space = c == ' ' || c == '\t';
    let cjk_boundary = spec_is_cjk(c) && has_next && !spec_is_no_line_start(s[i + 1]);
    let enter_cjk = has_next && spec_is_cjk(s[i + 1]) && !spec_is_cjk(c) && !after_space
        && !spec_is_no_line_start(s[i + 1]);
    after_space || cjk_boundary || enter_cjk
}

/// The opportunities after characters `0..n`, as byte offsets.
pub open spec fn breaks_upto(s: Seq<char>, n: int) -> Seq<BreakOpportunity>
    decreases n,
{
    if n <= 0 {
        Seq::empty()
    } else if break_after(s, n - 1) {
        breaks_upto(s, n - 1).push(
            BreakOpportunity { offset: utf8_len(s.take(n)) as usize, hyphen: false },
        )
    } else {
        breaks_upto(s, n - 1)
    }
}

/// All opportunities of `s`; the end of a non-empty text always is one.
pub open spec fn spec_break_opportunities(s: Seq<char>) -> Seq<BreakOpportunity> {
    let b = breaks_upto(s, s.len() as int);
    if s.len() == 0 {
        b
    } else if b.len() > 0 && b.last().offset == utf8_len(s) {
        b
    } else {
        b.push(BreakOpportunity { offset: utf8_len(s) as usize, hyphen: false })
    }
}

pub fn is_cjk(c: char) -> (b: bool)
    ensures
        b == spec_is_cjk(c),
{
    let v = c as u32;
    (0x1100 <= v && v <= 0x11FF) || (0x2E80 <= v && v <= 0x2EFF) || (0x3000 <= v && v <= 0x303F)
        || (0x3040 <= v && v <= 0x30FF) || (0x3400 <= v && v <= 0x4DBF) || (0x4E00 <= v && v
        <= 0x9FFF) || (0xAC00 <= v && v <= 0xD7AF) || (0xF900 <= v && v <= 0xFAFF) || (0xFF00
        <= v && v <= 0xFF60) || (0x20000 <= v && v <= 0x2FA1F)
}

pub fn is_no_line_start(c: char) -> (b: bool)
    ensures
        b == spec_is_no_line_start(c),
{
    c == '\u{FF0C}' || c == '\u{3002}' || c == '\u{3001}' || c == '\u{FF1B}' || c == '\u{FF1A}'
        || c == '\u{FF1F}' || c == '\u{FF01}' || c == '\u{FF09}' || c == '\u{3011}' || c
        == '\u{300B}' || c == '\u{300D}' || c == '\u{300F}' || c == ',' || c == '.' || c == ';'
        || c == ':' || c == '?' || c == '!' || c == ')' || c == ']' || c == '}' || c
        == '\u{201D}' || c == '\u{2019}'
}

/// The break opportunities the stub gives: none for a text whose UTF-8
/// length exceeds `usize::MAX`.
pub open spec fn stub_breaks(s: Seq<char>) -> Seq<BreakOpportunity> {
    if utf8_len(s) <= usize::MAX {
        spec_break_opportunities(s)
    } else {
        seq![]
    }
}

/// Break opportunities of a text, by ascending byte offset.
///
/// The offsets are byte offsets; a text whose UTF-8 length exceeds
/// `usize::MAX` (which no string in memory has) gives no opportunity.
pub fn break_opportunities(text: &str) -> (out: Vec<BreakOpportunity>)
    ensures
        out@ == stub_breaks(text@),
{
    let cs = chars_of(text);
    if !fits_utf8(cs.as_slice()) {
        return Vec::new();
    }
    let mut out: Vec<BreakOpportunity> = Vec::new();
    let mut i: usize = 0;
    let mut next_start: usize = 0;
    proof {
        crate::text::lemma_utf8_len_prefix_le(cs@, 0);
    }
    while i < cs.len()
        invariant
            cs@ == text@,
            0 <= i <= cs@.len(),
            next_start == utf8_len(cs@.take(i as int)),
            utf8_len(cs@) <= usize::MAX,
            out@ == breaks_upto(cs@, i as int),
        decreases cs@.len() - i,
    {
        let c = cs[i];
        proof {
            assert(cs@.take(i + 1).drop_last() =~= cs@.take(i as int));
            crate::text::lemma_utf8_len_prefix_le(cs@, i + 1);
        }
        next_start = next_start + len_utf8(c);
        let has_next = i + 1 < cs.len();
        let after_space = c == ' ' || c == '\t';
        let cjk_boundary = is_cjk(c) && has_next && !is_no_line_start(cs[i + 1]);
        let enter_cjk = has_next && is_cjk(cs[i + 1]) && !is_cjk(c) && !after_space
            && !is_no_line_start(cs[i + 1]);
        if after_space || cjk_boundary || enter_cjk {
            out.push(BreakOpportunity { offset: next_start, hyphen: false });
        }
        i = i + 1;
    }
    assert(cs@.take(cs@.len() as int) =~= cs@);
    if cs.len() > 0 {
        let end = next_start;
        let last_is_end = out.len() > 0 && out[out.len() - 1].offset == end;
        if !last_is_end {
            out.push(BreakOpportunity { offset: end, hyphen: false });
        }
    }
    out
}

/// Kinsoku: apart from the break after a space or tab, no opportunity puts
/// a character that may not start a line at the start of a line.
pub proof fn lemma_no_break_before_no_line_start(s: Seq<char>, i: int)
    requires
        0 <= i < s.len() - 1,
        s[i] != ' ',
        s[i] != '\t',
        spec_is_no_line_start(s[i + 1]),
    ensures
        !break_after(s, i),
{
}

/// A non-empty sequence has at least one UTF-8 byte per character.
proof fn lemma_utf8_len_at_least_len(s: Seq<char>)
    ensures
        utf8_len(s) >= s.len(),
    decreases s.len(),
{
    if s.len() > 0 {
        lemma_utf8_len_at_least_len(s.drop_last());
    }
}

/// Byte offsets of distinct character positions differ.
proof fn lemma_prefix_offsets_increase(s: Seq<char>, a: int, b: int)
    requires
        0 <= a < b <= s.len(),
    ensures
        utf8_len(s.take(a)) < utf8_len(s.take(b)),
        utf8_len(s.take(b)) <= utf8_len(s),
{
    crate::text::lemma_utf8_len_concat(s.take(a), s.subrange(a, b));
    assert(s.take(a) + s.subrange(a, b) =~= s.take(b));
    lemma_utf8_len_at_least_len(s.subrange(a, b));
    crate::text::lemma_utf8_len_prefix_le(s, b);
}

/// No opportunity among the first `n` lies at the start of character
/// `i + 1` when the rule gives none after character `i`.
proof fn lemma_no_opportunity_at(s: Seq<char>, n: int, i: int)
    requires
        0 <= n <= s.len(),
        0 <= i < s.len() - 1,
        !break_after(s, i),
        utf8_len(s) <= usize::MAX,
    ensures
        forall|k: int|
            0 <= k < breaks_upto(s, n).len() ==> (#[trigger] breaks_upto(s, n)[k]).offset != utf8_len(
                s.take(i + 1),
            ),
    decreases n,
{
    if n > 0 {
        lemma_no_opportunity_at(s, n - 1, i);
        if break_after(s, n - 1) {
            assert(n != i + 1);
            if n < i + 1 {
                lemma_prefix_offsets_increase(s, n, i + 1);
            } else {
                lemma_prefix_offsets_increase(s, i + 1, n);
            }
            lemma_prefix_offsets_increase(s, i + 1, s.len() as int);
            let b = breaks_upto(s, n);
            assert forall|k: int| 0 <= k < b.len() implies (#[trigger] b[k]).offset != utf8_len(s.take(i + 1)) by {
                if k < b.len() - 1 {
                    assert(b[k] == breaks_upto(s, n - 1)[k]);
                }
            }
        }
    }
}

/// Kinsoku: a line never starts with closing punctuation. Before each of
/// `，` `。` `、` `；` `：` `？` `！` `）` `】` `》` `」` `』` `,` `.` `;` `:`
/// `?` `!` `)` `]` `}` `”` `’` there is no break opportunity, unless the
/// character before it is a space or a tab.
pub proof fn law_no_break_before_closing_punctuation(s: Seq<char>, i: int)
    requires
        0 <= i < s.len() - 1,
        s[i] != ' ',
        s[i] != '\t',
        s[i + 1] == '\u{FF0C}' || s[i + 1] == '\u{3002}' || s[i + 1] == '\u{3001}' || s[i + 1] == '\u{FF1B}'
            || s[i + 1] == '\u{FF1A}' || s[i + 1] == '\u{FF1F}' || s[i + 1] == '\u{FF01}' || s[i + 1]
            == '\u{FF09}' || s[i + 1] == '\u{3011}' || s[i + 1] == '\u{300B}' || s[i + 1] == '\u{300D}'
            || s[i + 1] == '\u{300F}' || s[i + 1] == ',' || s[i + 1] == '.' || s[i + 1] == ';' || s[i
            + 1] == ':' || s[i + 1] == '?' || s[i + 1] == '!' || s[i + 1] == ')' || s[i + 1] == ']'
            || s[i + 1] == '}' || s[i + 1] == '\u{201D}' || s[i + 1] == '\u{2019}',
    ensures
        forall|k: int|
            0 <= k < stub_breaks(s).len() ==> (#[trigger] stub_breaks(s)[k]).offset != utf8_len(s.take(i + 1)),
{
    if utf8_len(s) <= usize::MAX {
        assert(!break_after(s, i));
        let n = s.len() as int;
        lemma_no_opportunity_at(s, n, i);
        lemma_prefix_offsets_increase(s, i + 1, n);
        assert(s.take(n) =~= s);
        let b = breaks_upto(s, n);
        assert forall|k: int| 0 <= k < stub_breaks(s).len() implies (#[trigger] stub_breaks(s)[k]).offset
            != utf8_len(s.take(i + 1)) by {
            if k < b.len() {
                assert(stub_breaks(s)[k] == b[k]);
            }
        }
    }
}

/// The opportunities among the first `n` characters ascend, none past the
/// end of character `n`, and none keeps a hyphen.
proof fn lemma_breaks_ascend(s: Seq<char>, n: int)
    requires
        0 <= n <= s.len(),
        utf8_len(s) <= usize::MAX,
    ensures
        forall|a: int, b: int|
            0 <= a < b < breaks_upto(s, n).len() ==> (#[trigger] breaks_upto(s, n)[a]).offset < (
            #[trigger] breaks_upto(s, n)[b]).offset,
        forall|k: int|
            0 <= k < breaks_upto(s, n).len() ==> (#[trigger] breaks_upto(s, n)[k]).offset <= utf8_len(
                s.take(n),
            ) && !breaks_upto(s, n)[k].hyphen,
    decreases n,
{
    if n > 0 {
        lemma_breaks_ascend(s, n - 1);
        lemma_prefix_offsets_increase(s, n - 1, n);
        crate::text::lemma_utf8_len_prefix_le(s, n);
        let p = breaks_upto(s, n - 1);
        let b = breaks_upto(s, n);
        assert forall|k: int| 0 <= k < b.len() implies (#[trigger] b[k]).offset <= utf8_len(s.take(n))
            && !b[k].hyphen by {
            if k < p.len() {
                assert(b[k] == p[k]);
            }
        }
        assert forall|a: int, c: int| 0 <= a < c < b.len() implies (#[trigger] b[a]).offset < (
        #[trigger] b[c]).offset by {
            assert(b[a] == p[a]);
            if c < p.len() {
                assert(b[c] == p[c]);
            }
        }
    }
}

/// Where the rule gives a break after character `i`, the opportunities
/// hold one at the end of that character.
proof fn lemma_break_is_listed(s: Seq<char>, n: int, i: int) -> (k: int)
    requires
        0 <= i < n <= s.len(),
        break_after(s, i),
        utf8_len(s) <= usize::MAX,
    ensures
        0 <= k < breaks_upto(s, n).len(),
        breaks_upto(s, n)[k].offset == utf8_len(s.take(i + 1)),
    decreases n,
{
    crate::text::lemma_utf8_len_prefix_le(s, i + 1);
    if n == i + 1 {
        breaks_upto(s, n - 1).len() as int
    } else {
        let k = lemma_break_is_listed(s, n - 1, i);
        if break_after(s, n - 1) {
            assert(breaks_upto(s, n)[k] == breaks_upto(s, n - 1)[k]);
        }
        k
    }
}

/// The opportunities of a text come by strictly ascending byte offset,
/// none keeps a hyphen, and a non-empty text always has one at its end.
pub proof fn law_opportunities_ascend_to_the_end(s: Seq<char>)
    requires
        utf8_len(s) <= usize::MAX,
    ensures
        forall|a: int, b: int|
            0 <= a < b < stub_breaks(s).len() ==> (#[trigger] stub_breaks(s)[a]).offset < (
            #[trigger] stub_breaks(s)[b]).offset,
        forall|k: int| 0 <= k < stub_breaks(s).len() ==> !(#[trigger] stub_breaks(s)[k]).hyphen,
        s.len() == 0 ==> stub_breaks(s).len() == 0,
        s.len() > 0 ==> stub_breaks(s).len() > 0 && stub_breaks(s).last().offset == utf8_len(s),
{
    let n = s.len() as int;
    lemma_breaks_ascend(s, n);
    assert(s.take(n) =~= s);
    let b = breaks_upto(s, n);
    let out = stub_breaks(s);
    assert forall|k: int| 0 <= k < out.len() implies !(#[trigger] out[k]).hyphen by {
        if k < b.len() {
            assert(out[k] == b[k]);
        }
    }
    assert forall|a: int, c: int| 0 <= a < c < out.len() implies (#[trigger] out[a]).offset < (
    #[trigger] out[c]).offset by {
        assert(out[a] == b[a]);
        if c < b.len() {
            assert(out[c] == b[c]);
        } else {
            assert(b[a].offset <= utf8_len(s));
            assert(b.last() == b[b.len() - 1]);
            assert(b[a].offset <= b.last().offset);
        }
    }
}

/// A line may always break after a space or a tab, and between two CJK
/// unified ideographs: there is an opportunity at the end of the space,
/// tab or first ideograph.
pub proof fn law_break_after_space_and_between_ideographs(s: Seq<char>, i: int) -> (k: int)
    requires
        0 <= i < s.len(),
        utf8_len(s) <= usize::MAX,
        s[i] == ' ' || s[i] == '\t' || (i + 1 < s.len() && 0x4E00 <= s[i] as u32 <= 0x9FFF && 0x4E00
            <= s[i + 1] as u32 <= 0x9FFF),
    ensures
        0 <= k < stub_breaks(s).len(),
        stub_breaks(s)[k].offset == utf8_len(s.take(i + 1)),
{
    let n = s.len() as int;
    assert(break_after(s, i));
    let k = lemma_break_is_listed(s, n, i);
    assert(stub_breaks(s)[k] == breaks_upto(s, n)[k]);
    k
}

/// The neighbouring characters of a text fragment, for rules that look
/// across fragment edges.
#[derive(Debug, Clone, Copy, PartialEq, Eq, Default)]
pub struct OverflowPunctuationContext {
    /// The character before the fragment.
    pub previous: Option<char>,
    /// The character after the fragment.
    pub next: Option<char>,
}

/// Punctuation that may overflow the line on its own.
pub open spec fn is_overflow_punct(c: char) -> bool {
    c == '\u{3002}' || c == '\u{FF0C}' || c == '\u{FF09}' || c == '\u{3001}'
}

/// Character `i` of `s` is an overflow candidate: overflow punctuation
/// whose previous character is CJK that may start a line, and whose next
/// character may start a line.
pub open spec fn is_overflow_candidate(
    s: Seq<char>,
    i: int,
    context: OverflowPunctuationContext,
) -> bool {
    let previous = if i == 0 {
        context.previous
    } else {
        Some(s[i - 1])
    };
    let next = if i + 1 < s.len() {
        Some(s[i + 1])
    } else {
        context.next
    };
    &&& is_overflow_punct(s[i])
    &&& previous matches Some(p) && spec_is_cjk(p) && !spec_is_no_line_start(p)
    &&& !(next matches Some(n) && spec_is_no_line_start(n))
}

/// Candidates among characters `0..n`, as byte ranges.
pub open spec fn overflow_candidates_upto(
    s: Seq<char>,
    n: int,
    context: OverflowPunctuationContext,
) -> Seq<(usize, usize)>
    decreases n,
{
    if n <= 0 {
        Seq::empty()
    } else if is_overflow_candidate(s, n - 1, context) {
        overflow_candidates_upto(s, n - 1, context).push(
            (utf8_len(s.take(n - 1)) as usize, utf8_len(s.take(n)) as usize),
        )
    } else {
        overflow_candidates_upto(s, n - 1, context)
    }
}

/// The single punctuation marks that may overflow a line, as byte ranges.
/// Adjacent closing punctuation stays on the ordinary line-start path.
pub fn overflow_punctuation_candidates(
    text: &str,
    context: OverflowPunctuationContext,
) -> (out: Vec<(usize, usize)>)
    requires
        utf8_len(text@) <= usize::MAX,
    ensures
        out@ == overflow_candidates_upto(text@, text@.len() as int, context),
{
    let cs = chars_of(text);
    let mut out: Vec<(usize, usize)> = Vec::new();
    let mut previous = context.previous;
    let mut i: usize = 0;
    let mut start: usize = 0;
    while i < cs.len()
        invariant
            cs@ == text@,
            0 <= i <= cs@.len(),
            start == utf8_len(cs@.take(i as int)),
            utf8_len(cs@) <= usize::MAX,
            previous == (if i == 0 {
                context.previous
            } else {
                Some(cs@[i - 1])
            }),
            out@ == overflow_candidates_upto(cs@, i as int, context),
        decreases cs@.len() - i,
    {
        let ch = cs[i];
        proof {
            assert(cs@.take(i + 1).drop_last() =~= cs@.take(i as int));
            crate::text::lemma_utf8_len_prefix_le(cs@, i + 1);
        }
        let end = start + len_utf8(ch);
        let next = if i + 1 < cs.len() {
            Some(cs[i + 1])
        } else {
            context.next
        };
        let punct = ch == '\u{3002}' || ch == '\u{FF0C}' || ch == '\u{FF09}' || ch == '\u{3001}';
        let prev_ok = match previous {
            Some(p) => is_cjk(p) && !is_no_line_start(p),
            None => false,
        };
        let next_blocks = match next {
            Some(n) => is_no_line_start(n),
            None => false,
        };
        if punct && prev_ok && !next_blocks {
            out.push((start, end));
        }
        previous = Some(ch);
        start = end;
        i = i + 1;
    }
    out
}

} // verus!
