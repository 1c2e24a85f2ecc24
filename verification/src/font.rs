//! Font requests and text metrics: the `w:rFonts` slots, the metrics a
//! measurement returns, and the `FontMetrics` contract that every metrics
//! provider implements.
use vstd::prelude::*;
use crate::geom::{Twips, fits_twips};
use crate::text::{chars_of, fits_utf8, len_utf8, string_of, utf8_len, lemma_utf8_len_concat, lemma_utf8_len_prefix_le};
use crate::fontenv::GlyphPosition;

verus! {

/// `w:hint`: which slot ambiguous characters take.
#[derive(Debug, Clone, Copy, PartialEq, Eq, Default)]
pub enum FontHint {
    #[default]
    Default,
    EastAsia,
    Cs,
}

/// The font slot a character belongs to.
#[derive(Debug, Clone, Copy, PartialEq, Eq)]
pub enum SlotKind {
    Ascii,
    HAnsi,
    EastAsia,
    Cs,
}

/// Complex scripts (Arabic, Hebrew, Indic, Thai, Khmer, Arabic forms).
pub open spec fn is_complex_code(c: u32) -> bool {
    (0x0590 <= c <= 0x074F) || (0x0780 <= c <= 0x07BF) || (0x0900 <= c <= 0x0DFF) || (0x0E00
        <= c <= 0x0E7F) || (0x1780 <= c <= 0x17FF) || (0xFB1D <= c <= 0xFDFF) || (0xFE70 <= c
        <= 0xFEFF)
}

/// East Asian blocks (Hangul, CJK, kana, bopomofo, Yi, full-width forms).
pub open spec fn is_east_asian_code(c: u32) -> bool {
    (0x1100 <= c <= 0x11FF) || (0x2E80 <= c <= 0x2EFF) || (0x3000 <= c <= 0x303F) || (0x3040
        <= c <= 0x30FF) || (0x3100 <= c <= 0x312F) || (0x3130 <= c <= 0x318F) || (0x3400 <= c
        <= 0x4DBF) || (0x4E00 <= c <= 0x9FFF) || (0xA000 <= c <= 0xA4CF) || (0xAC00 <= c
        <= 0xD7AF) || (0xF900 <= c <= 0xFAFF) || (0xFF00 <= c <= 0xFFEF) || (0x20000 <= c
        <= 0x2FA1F)
}

/// The four slots of `w:rFonts` plus `w:hint`.
#[derive(Debug, PartialEq, Eq, Default)]
pub struct FontSlots {
    /// U+0000–U+007F.
    pub ascii: Option<String>,
    /// High ANSI: accented Latin, Cyrillic, Greek.
    pub h_ansi: Option<String>,
    /// CJK, kana, Hangul.
    pub east_asia: Option<String>,
    /// Complex scripts.
    pub cs: Option<String>,
    /// Which slot ambiguous characters take.
    pub hint: FontHint,
}

/// The spec value of an optional string slot.
pub open spec fn opt_view(o: Option<String>) -> Option<Seq<char>> {
    match o {
        Some(s) => Some(s@),
        None => None,
    }
}

fn clone_opt(o: &Option<String>) -> (r: Option<String>)
    ensures
        opt_view(r) == opt_view(*o),
{
    match o {
        Some(s) => Some(s.clone()),
        None => None,
    }
}

fn opt_as_str(o: &Option<String>) -> (r: Option<&str>)
    ensures
        match (r, *o) {
            (Some(a), Some(b)) => a@ == b@,
            (None, None) => true,
            _ => false,
        },
{
    match o {
        Some(s) => Some(s.as_str()),
        None => None,
    }
}

impl FontSlots {
    /// Which slot a character takes (ECMA-376 §17.3.2.26): complex scripts
    /// first, then East Asian blocks; other non-ASCII characters follow the
    /// hint (high ANSI by default); ASCII takes the East Asian slot only
    /// under an East Asian hint.
    pub open spec fn spec_slot_for(self, ch: char) -> SlotKind {
        let c = ch as u32;
        if is_complex_code(c) {
            SlotKind::Cs
        } else if is_east_asian_code(c) {
            SlotKind::EastAsia
        } else if c > 0x007F {
            match self.hint {
                FontHint::EastAsia => SlotKind::EastAsia,
                FontHint::Cs => SlotKind::Cs,
                FontHint::Default => SlotKind::HAnsi,
            }
        } else {
            match self.hint {
                FontHint::EastAsia => SlotKind::EastAsia,
                _ => SlotKind::Ascii,
            }
        }
    }

    /// The font named in a slot.
    pub open spec fn spec_get(self, slot: SlotKind) -> Option<Seq<char>> {
        match slot {
            SlotKind::Ascii => opt_view(self.ascii),
            SlotKind::HAnsi => opt_view(self.h_ansi),
            SlotKind::EastAsia => opt_view(self.east_asia),
            SlotKind::Cs => opt_view(self.cs),
        }
    }

    /// Each unset slot taken from `other`; a default hint taken from `other`.
    pub open spec fn spec_inherit(self, other: FontSlots) -> (Option<Seq<char>>, Option<
        Seq<char>,
    >, Option<Seq<char>>, Option<Seq<char>>, FontHint) {
        (
            if self.ascii is Some {
                opt_view(self.ascii)
            } else {
                opt_view(other.ascii)
            },
            if self.h_ansi is Some {
                opt_view(self.h_ansi)
            } else {
                opt_view(other.h_ansi)
            },
            if self.east_asia is Some {
                opt_view(self.east_asia)
            } else {
                opt_view(other.east_asia)
            },
            if self.cs is Some {
                opt_view(self.cs)
            } else {
                opt_view(other.cs)
            },
            if self.hint == FontHint::Default {
                other.hint
            } else {
                self.hint
            },
        )
    }

    pub open spec fn spec_view(self) -> (Option<Seq<char>>, Option<Seq<char>>, Option<
        Seq<char>,
    >, Option<Seq<char>>, FontHint) {
        (
            opt_view(self.ascii),
            opt_view(self.h_ansi),
            opt_view(self.east_asia),
            opt_view(self.cs),
            self.hint,
        )
    }

    /// The slot a character takes.
    pub fn slot_for(&self, ch: char) -> (k: SlotKind)
        ensures
            k == self.spec_slot_for(ch),
    {
        let c = ch as u32;
        let complex = (0x0590 <= c && c <= 0x074F) || (0x0780 <= c && c <= 0x07BF) || (0x0900
            <= c && c <= 0x0DFF) || (0x0E00 <= c && c <= 0x0E7F) || (0x1780 <= c && c <= 0x17FF)
            || (0xFB1D <= c && c <= 0xFDFF) || (0xFE70 <= c && c <= 0xFEFF);
        if complex {
            return SlotKind::Cs;
        }
        let east_asian = (0x1100 <= c && c <= 0x11FF) || (0x2E80 <= c && c <= 0x2EFF) || (0x3000
            <= c && c <= 0x303F) || (0x3040 <= c && c <= 0x30FF) || (0x3100 <= c && c <= 0x312F)
            || (0x3130 <= c && c <= 0x318F) || (0x3400 <= c && c <= 0x4DBF) || (0x4E00 <= c && c
            <= 0x9FFF) || (0xA000 <= c && c <= 0xA4CF) || (0xAC00 <= c && c <= 0xD7AF) || (0xF900
            <= c && c <= 0xFAFF) || (0xFF00 <= c && c <= 0xFFEF) || (0x20000 <= c && c
            <= 0x2FA1F);
        if east_asian {
            return SlotKind::EastAsia;
        }
        if c > 0x007F {
            return match self.hint {
                FontHint::EastAsia => SlotKind::EastAsia,
                FontHint::Cs => SlotKind::Cs,
                FontHint::Default => SlotKind::HAnsi,
            };
        }
        match self.hint {
            FontHint::EastAsia => SlotKind::EastAsia,
            _ => SlotKind::Ascii,
        }
    }

    /// The font named in a slot.
    pub fn get(&self, slot: SlotKind) -> (r: Option<&str>)
        ensures
            match r {
                Some(s) => self.spec_get(slot) == Some(s@),
                None => self.spec_get(slot) is None,
            },
    {
        match slot {
            SlotKind::Ascii => opt_as_str(&self.ascii),
            SlotKind::HAnsi => opt_as_str(&self.h_ansi),
            SlotKind::EastAsia => opt_as_str(&self.east_asia),
            SlotKind::Cs => opt_as_str(&self.cs),
        }
    }

    /// Unset slots inherit from `other` (style chains and docDefaults).
    pub fn inherit(&mut self, other: &FontSlots)
        ensures
            final(self).spec_view() == old(self).spec_inherit(*other),
    {
        if self.ascii.is_none() {
            self.ascii = clone_opt(&other.ascii);
        }
        if self.h_ansi.is_none() {
            self.h_ansi = clone_opt(&other.h_ansi);
        }
        if self.east_asia.is_none() {
            self.east_asia = clone_opt(&other.east_asia);
        }
        if self.cs.is_none() {
            self.cs = clone_opt(&other.cs);
        }
        if matches!(self.hint, FontHint::Default) {
            self.hint = other.hint;
        }
    }

    /// No slot is set (the hint is not a slot).
    pub fn is_empty(&self) -> (b: bool)
        ensures
            b == (self.ascii is None && self.h_ansi is None && self.east_asia is None
                && self.cs is None),
    {
        self.ascii.is_none() && self.h_ansi.is_none() && self.east_asia.is_none()
            && self.cs.is_none()
    }
}

/// Inheriting is settled after one step: slots that inherited from a
/// parent, inheriting from the same parent again, stay as they are.
pub proof fn lemma_inherit_settles(child: FontSlots, parent: FontSlots, after: FontSlots)
    requires
        after.spec_view() == child.spec_inherit(parent),
    ensures
        after.spec_inherit(parent) == after.spec_view(),
{
}

/// A slot set on the child survives inheritance, and an unset slot takes
/// the parent's, for every slot a character can take.
pub proof fn lemma_inherit_per_slot(child: FontSlots, parent: FontSlots, after: FontSlots, slot: SlotKind)
    requires
        after.spec_view() == child.spec_inherit(parent),
    ensures
        after.spec_get(slot) == (if child.spec_get(slot) is Some {
            child.spec_get(slot)
        } else {
            parent.spec_get(slot)
        }),
{
}

/// A copy of an optional string.
fn copy_opt(o: &Option<String>) -> (r: Option<String>)
    ensures
        r == *o,
{
    match o {
        Some(s) => Some(s.clone()),
        None => None,
    }
}

impl Clone for FontSlots {
    fn clone(&self) -> (r: FontSlots)
        ensures
            r == *self,
    {
        FontSlots {
            ascii: copy_opt(&self.ascii),
            h_ansi: copy_opt(&self.h_ansi),
            east_asia: copy_opt(&self.east_asia),
            cs: copy_opt(&self.cs),
            hint: self.hint,
        }
    }
}

/// What a measurement depends on.
#[derive(Debug, PartialEq)]
pub struct FontSpec {
    /// The font name: the value of the ascii slot.
    pub family: String,
    /// The four `w:rFonts` slots.
    pub slots: FontSlots,
    /// Size in half points (`w:sz`).
    pub size_half_points: u32,
    pub bold: bool,
    pub italic: bool,
    /// `w:spacing`: character spacing in twips, may be negative.
    pub letter_spacing: Twips,
    /// `w:w`: horizontal scale in percent, 100 is unscaled.
    pub scale_pct: u32,
    /// Whether GPOS kerning is enabled; off unless asked for.
    pub kerning: bool,
}

impl Clone for FontSpec {
    fn clone(&self) -> (r: FontSpec)
        ensures
            r == *self,
    {
        FontSpec {
            family: self.family.clone(),
            slots: self.slots.clone(),
            size_half_points: self.size_half_points,
            bold: self.bold,
            italic: self.italic,
            letter_spacing: self.letter_spacing,
            scale_pct: self.scale_pct,
            kerning: self.kerning,
        }
    }
}

impl FontSpec {
    /// The font name for a character by Word's slot rule; an unset slot
    /// falls back to `family`.
    pub open spec fn spec_family_for(self, ch: char) -> Seq<char> {
        match self.slots.spec_get(self.slots.spec_slot_for(ch)) {
            Some(s) => s,
            None => self.family@,
        }
    }

    pub fn family_for(&self, ch: char) -> (r: &str)
        ensures
            r@ == self.spec_family_for(ch),
    {
        match self.slots.get(self.slots.slot_for(ch)) {
            Some(s) => s,
            None => self.family.as_str(),
        }
    }

    /// A plain font: the ascii slot and the family are `family`, no bold or
    /// italic, no spacing, 100 % scale, kerning off.
    /// The font `new` makes: the family in the ascii slot, nothing else
    /// set.
    pub open spec fn is_plain(self, family: Seq<char>, size_half_points: u32) -> bool {
        &&& self.family@ == family
        &&& opt_view(self.slots.ascii) == Some(family)
        &&& self.slots.h_ansi is None
        &&& self.slots.east_asia is None
        &&& self.slots.cs is None
        &&& self.slots.hint == FontHint::Default
        &&& self.size_half_points == size_half_points
        &&& !self.bold
        &&& !self.italic
        &&& self.letter_spacing == 0
        &&& self.scale_pct == 100
        &&& !self.kerning
    }

    pub fn new(family: &str, size_half_points: u32) -> (f: FontSpec)
        ensures
            f.is_plain(family@, size_half_points),
            f.family@ == family@,
            opt_view(f.slots.ascii) == Some(family@),
            f.slots.h_ansi is None,
            f.slots.east_asia is None,
            f.slots.cs is None,
            f.slots.hint == FontHint::Default,
            f.size_half_points == size_half_points,
            !f.bold,
            !f.italic,
            f.letter_spacing == 0,
            f.scale_pct == 100,
            !f.kerning,
    {
        let family = crate::text::copy_str(family);
        let ascii = family.clone();
        FontSpec {
            slots: FontSlots {
                ascii: Some(ascii),
                h_ansi: None,
                east_asia: None,
                cs: None,
                hint: FontHint::Default,
            },
            family,
            size_half_points,
            bold: false,
            italic: false,
            letter_spacing: 0,
            scale_pct: 100,
            kerning: false,
        }
    }
}

/// Fine units per twip: a fine unit is 1/7200 inch, the common multiple of
/// twips and Word's 1/300 inch vertical grid.
pub const FINE_PER_TWIP: i64 = 5;

/// Metrics of a run of text in one font.
#[derive(Debug, Clone, Copy, PartialEq, Eq, Default)]
pub struct TextMetrics {
    /// Advance, including spacing and scaling.
    pub advance: Twips,
    /// Height above the baseline.
    pub ascent: Twips,
    /// Depth below the baseline (positive).
    pub descent: Twips,
    /// The font's recommended line gap.
    pub line_gap: Twips,
}

impl TextMetrics {
    pub open spec fn spec_natural_height(self) -> int {
        self.ascent + self.descent + self.line_gap
    }

    /// The font's own natural line height: ascent + descent + line gap.
    pub fn natural_height(&self) -> (h: Twips)
        requires
            fits_twips(self.ascent + self.descent),
            fits_twips(self.spec_natural_height()),
        ensures
            h == self.spec_natural_height(),
    {
        self.ascent + self.descent + self.line_gap
    }
}

/// A break opportunity: a character boundary where a line may end.
#[derive(Debug, Clone, Copy, PartialEq, Eq)]
pub struct BreakOpportunity {
    /// Byte offset of the break in the text.
    pub offset: usize,
    /// Whether the first part keeps a hyphen.
    pub hyphen: bool,
}

/// Whether `offset` is the UTF-8 byte offset of a character boundary of
/// `s`, namely the end of its first `k` characters.
pub open spec fn is_boundary_at(s: Seq<char>, offset: int, k: int) -> bool {
    0 <= k <= s.len() && utf8_len(s.take(k)) == offset
}

/// `offset` is the byte offset of some character boundary of `s`.
pub open spec fn is_char_offset(s: Seq<char>, offset: int) -> bool {
    exists|k: int| #[trigger] is_boundary_at(s, offset, k)
}

/// What a `fit` result promises: a non-empty prefix ending on a character
/// boundary, whose advance fits.
pub open spec fn fit_result_ok(text: Seq<char>, max_width: Twips, r: Option<(usize, TextMetrics)>) -> bool {
    match r {
        Some((cut, m)) => cut > 0 && m.advance <= max_width && is_char_offset(text, cut as int),
        None => true,
    }
}

/// The character index whose boundary is at byte `offset` of `cs`, if
/// there is one.
pub fn char_index_of_offset(cs: &[char], offset: usize) -> (r: Option<usize>)
    ensures
        r matches Some(k) ==> is_boundary_at(cs@, offset as int, k as int),
        r is None ==> forall|k: int| 0 <= k <= cs@.len() ==> !is_boundary_at(
            cs@,
            offset as int,
            k,
        ),
{
    let mut k: usize = 0;
    let mut bytes: usize = 0;
    while k < cs.len()
        invariant
            0 <= k <= cs@.len(),
            bytes == utf8_len(cs@.take(k as int)),
            bytes <= offset,
            forall|j: int| 0 <= j < k ==> utf8_len(cs@.take(j)) < offset,
        decreases cs@.len() - k,
    {
        if bytes == offset {
            return Some(k);
        }
        assert(cs@.take(k + 1).drop_last() =~= cs@.take(k as int));
        let n = len_utf8(cs[k]);
        if n > offset - bytes {
            proof {
                assert forall|j: int| 0 <= j <= cs@.len() implies !is_boundary_at(
                    cs@,
                    offset as int,
                    j,
                ) by {
                    if j > k {
                        lemma_utf8_len_concat(cs@.take(k + 1), cs@.subrange(k + 1, j));
                        assert(cs@.take(k + 1) + cs@.subrange(k + 1, j) =~= cs@.take(j));
                    }
                }
            }
            return None;
        }
        bytes = bytes + n;
        k = k + 1;
    }
    if bytes == offset {
        Some(k)
    } else {
        assert(cs@.take(cs@.len() as int) =~= cs@);
        None
    }
}

/// The number of characters of `cs[from..to]` whose UTF-8 length is
/// `offset`, if `offset` is a character boundary of that range.
pub fn char_count_at_offset(cs: &[char], from: usize, to: usize, offset: usize) -> (r: Option<usize>)
    requires
        from <= to <= cs@.len(),
    ensures
        r matches Some(k) ==> is_boundary_at(cs@.subrange(from as int, to as int), offset as int, k as int),
        r is None ==> forall|k: int|
            0 <= k <= to - from ==> !is_boundary_at(cs@.subrange(from as int, to as int), offset as int, k),
{
    let mut k: usize = 0;
    let mut bytes: usize = 0;
    let ghost sub = cs@.subrange(from as int, to as int);
    while k < to - from
        invariant
            from <= to <= cs@.len(),
            sub == cs@.subrange(from as int, to as int),
            0 <= k <= sub.len(),
            bytes == utf8_len(sub.take(k as int)),
            bytes <= offset,
            forall|j: int| 0 <= j < k ==> !is_boundary_at(sub, offset as int, j),
        decreases sub.len() - k,
    {
        if bytes == offset {
            return Some(k);
        }
        assert(sub.take(k + 1).drop_last() =~= sub.take(k as int));
        let n = len_utf8(cs[from + k]);
        assert(sub[k as int] == cs@[from + k]);
        if n > offset - bytes {
            proof {
                assert forall|j: int| 0 <= j <= sub.len() implies !is_boundary_at(sub, offset as int, j) by {
                    if j > k {
                        lemma_utf8_len_concat(sub.take(k + 1), sub.subrange(k + 1, j));
                        assert(sub.take(k + 1) + sub.subrange(k + 1, j) =~= sub.take(j));
                    }
                }
            }
            return None;
        }
        bytes = bytes + n;
        k = k + 1;
    }
    if bytes == offset {
        Some(k)
    } else {
        assert(sub.take(sub.len() as int) =~= sub);
        None
    }
}

/// The character index at which `offset` is a boundary of `s`, if any.
pub open spec fn boundary_index(s: Seq<char>, offset: int) -> Option<int> {
    if is_char_offset(s, offset) {
        Some(choose|k: int| is_boundary_at(s, offset, k))
    } else {
        None
    }
}

proof fn lemma_utf8_len_ge_len(s: Seq<char>)
    ensures
        utf8_len(s) >= s.len(),
    decreases s.len(),
{
    if s.len() > 0 {
        lemma_utf8_len_ge_len(s.drop_last());
    }
}

/// A boundary has one character index.
proof fn lemma_boundary_unique(s: Seq<char>, offset: int, k: int)
    requires
        is_boundary_at(s, offset, k),
    ensures
        boundary_index(s, offset) == Some(k),
{
    let j = choose|j: int| is_boundary_at(s, offset, j);
    assert(is_boundary_at(s, offset, j));
    if j != k {
        let (a, b) = if j < k {
            (j, k)
        } else {
            (k, j)
        };
        lemma_utf8_len_concat(s.take(a), s.subrange(a, b));
        assert(s.take(a) + s.subrange(a, b) =~= s.take(b));
        lemma_utf8_len_ge_len(s.subrange(a, b));
    }
}

/// The default `fit` from break opportunity `i` on, with `best` the
/// longest fitting prefix so far: opportunities at offset 0 are skipped;
/// one that is not a character boundary, or whose prefix does not fit,
/// ends the search.
pub open spec fn fit_scan(
    measure: spec_fn(Seq<char>) -> TextMetrics,
    text: Seq<char>,
    max_width: Twips,
    ops: Seq<BreakOpportunity>,
    i: int,
    best: Option<(usize, TextMetrics)>,
) -> Option<(usize, TextMetrics)>
    decreases ops.len() - i,
{
    if i < 0 || i >= ops.len() {
        best
    } else if ops[i].offset == 0 {
        fit_scan(measure, text, max_width, ops, i + 1, best)
    } else {
        match boundary_index(text, ops[i].offset as int) {
            None => best,
            Some(k) => {
                let mm = measure(text.take(k));
                if mm.advance > max_width {
                    best
                } else {
                    fit_scan(measure, text, max_width, ops, i + 1, Some((ops[i].offset, mm)))
                }
            },
        }
    }
}

/// What the default `fit` gives, with `measure` the metrics of a prefix
/// and `ops` the text's break opportunities: the last opportunity, trying
/// them in order, whose prefix fits, with that prefix's metrics.
pub open spec fn spec_fit(
    measure: spec_fn(Seq<char>) -> TextMetrics,
    ops: Seq<BreakOpportunity>,
    text: Seq<char>,
    max_width: Twips,
) -> Option<(usize, TextMetrics)> {
    fit_scan(measure, text, max_width, ops, 0, None)
}

/// A provider of text metrics.
///
/// Implementations must give the same output for the same input: layout
/// measures the same text repeatedly, and unstable results make pagination
/// jitter.
pub trait FontMetrics {
    /// What `measure` gives for a text in a font: implementations give the
    /// same output for the same input. The default is one unspecified value,
    /// so an implementation whose `measure` is proved defines its own.
    open spec fn spec_measure(&self, text: Seq<char>, font: FontSpec) -> TextMetrics {
        arbitrary()
    }

    /// What `break_opportunities` gives for a text; the default, as for
    /// `spec_measure`, is one unspecified value.
    open spec fn spec_breaks(&self, text: Seq<char>) -> Seq<BreakOpportunity> {
        arbitrary()
    }

    /// Advance and vertical metrics of a whole string.
    fn measure(&self, text: &str, font: &FontSpec) -> (m: TextMetrics)
        ensures
            m == self.spec_measure(text@, *font),
    ;

    /// The longest prefix, ending at a break opportunity, whose advance fits
    /// in `max_width`: its length in bytes and its metrics. `None` when no
    /// prefix fits. The default tries the break opportunities in order (see
    /// `spec_fit`).
    fn fit(&self, text: &str, font: &FontSpec, max_width: Twips) -> (r: Option<(usize, TextMetrics)>)
        ensures
            fit_result_ok(text@, max_width, r),
        default_ensures
            r == spec_fit(|t: Seq<char>| self.spec_measure(t, *font), self.spec_breaks(text@), text@, max_width),
    {
        let cs = chars_of(text);
        let ops = self.break_opportunities(text);
        let mut best: Option<(usize, TextMetrics)> = None;
        let mut done = false;
        let mut i: usize = 0;
        while i < ops.len() && !done
            invariant
                cs@ == text@,
                ops@ == self.spec_breaks(text@),
                0 <= i <= ops@.len(),
                fit_result_ok(text@, max_width, best),
                spec_fit(|t: Seq<char>| self.spec_measure(t, *font), self.spec_breaks(text@), text@, max_width)
                    == if done {
                    best
                } else {
                    fit_scan(|t: Seq<char>| self.spec_measure(t, *font), text@, max_width, ops@, i as int, best)
                },
            decreases ops.len() - i,
        {
            let op = ops[i];
            i = i + 1;
            if op.offset != 0 {
                match char_index_of_offset(cs.as_slice(), op.offset) {
                    Some(k) => {
                        proof {
                            lemma_boundary_unique(text@, op.offset as int, k as int);
                        }
                        let prefix = string_of(cs.as_slice(), 0, k);
                        assert(prefix@ == text@.take(k as int));
                        let m = self.measure(prefix.as_str(), font);
                        if m.advance > max_width {
                            done = true;
                        } else {
                            assert(is_boundary_at(text@, op.offset as int, k as int));
                            assert(is_char_offset(text@, op.offset as int));
                            best = Some((op.offset, m));
                        }
                    },
                    None => {
                        done = true;
                    },
                }
            }
        }
        best
    }

    /// Break opportunities of the text, by ascending byte offset.
    fn break_opportunities(&self, text: &str) -> (out: Vec<BreakOpportunity>)
        ensures
            out@ == self.spec_breaks(text@),
    ;

    /// The natural line height in fine units (1/7200 inch). The default
    /// converts the twips of `measure`, without extra precision.
    fn natural_height_fine(&self, text: &str, font: &FontSpec) -> (h: i64)
        default_ensures
            h == (self.spec_measure(text@, *font).ascent + self.spec_measure(text@, *font).descent
                + self.spec_measure(text@, *font).line_gap) * FINE_PER_TWIP,
    {
        let m = self.measure(text, font);
        (m.ascent as i64 + m.descent as i64 + m.line_gap as i64) * FINE_PER_TWIP
    }

    /// Quantizes a baseline position (fine units) to this metrics' grid.
    /// The default is the identity.
    fn quantize_baseline_fine(&self, y_fine: i64) -> (r: i64)
        default_ensures
            r == y_fine,
    {
        y_fine
    }

    /// Metrics of an empty line: they depend on the paragraph mark's font.
    /// The default measures the empty string.
    fn empty_line_metrics(&self, font: &FontSpec) -> (m: TextMetrics)
        default_ensures
            m == self.spec_measure(Seq::<char>::empty(), *font),
    {
        proof {
            reveal_strlit("");
        }
        assert(""@ =~= Seq::<char>::empty());
        self.measure("", font)
    }

    /// Glyph positions, one glyph per character by default: the `k`th
    /// glyph covers the `k`th character's bytes and starts where `measure`
    /// puts the end of the first `k` characters; its advance reaches the
    /// next glyph's start (the last one's, the whole text's advance). Exact
    /// for prefix-additive metrics; metrics that shape give the shaper's
    /// positions instead, as ligatures and kerning break prefix sums.
    fn glyph_positions(&self, text: &str, font: &FontSpec) -> (out: Vec<GlyphPosition>)
        default_ensures
            utf8_len(text@) <= usize::MAX ==> out@.len() == text@.len(),
            utf8_len(text@) > usize::MAX ==> out@.len() == 0,
            forall|k: int|
                0 <= k < out@.len() ==> {
                    &&& (#[trigger] out@[k]).start == utf8_len(text@.take(k))
                    &&& out@[k].end == utf8_len(text@.take(k + 1))
                },
            forall|k: int|
                0 <= k < out@.len() - 1 ==> (#[trigger] out@[k]).advance == vstd::wrapping::i32_specs::wrapping_sub(
                    out@[k + 1].x,
                    out@[k].x,
                ),
            forall|k: int|
                0 <= k < out@.len() ==> (#[trigger] out@[k]).x == self.spec_measure(text@.take(k), *font).advance,
            out@.len() > 0 ==> out@.last().advance == vstd::wrapping::i32_specs::wrapping_sub(
                self.spec_measure(text@, *font).advance,
                out@.last().x,
            ),
    {
        let cs = chars_of(text);
        let mut out: Vec<GlyphPosition> = Vec::new();
        if !fits_utf8(cs.as_slice()) {
            return out;
        }
        let n = cs.len();
        let mut offset: usize = 0;
        let mut prev_x: Twips = 0;
        let mut k: usize = 0;
        while k < n
            invariant
                cs@ == text@,
                n == cs@.len(),
                utf8_len(cs@) <= usize::MAX,
                0 <= k <= n,
                offset == utf8_len(cs@.take(k as int)),
                out@.len() == k,
                forall|j: int|
                    0 <= j < k ==> {
                        &&& (#[trigger] out@[j]).start == utf8_len(cs@.take(j))
                        &&& out@[j].end == utf8_len(cs@.take(j + 1))
                    },
                forall|j: int|
                    0 <= j < k - 1 ==> (#[trigger] out@[j]).advance == vstd::wrapping::i32_specs::wrapping_sub(
                        out@[j + 1].x,
                        out@[j].x,
                    ),
                k > 0 ==> out@[k - 1].x == prev_x,
                forall|j: int| 0 <= j < k ==> (#[trigger] out@[j]).x == self.spec_measure(cs@.take(j), *font).advance,
            decreases n - k,
        {
            let prefix = string_of(cs.as_slice(), 0, k);
            assert(prefix@ == cs@.take(k as int));
            let x = self.measure(prefix.as_str(), font).advance;
            proof {
                assert(cs@.take(k + 1).drop_last() =~= cs@.take(k as int));
                lemma_utf8_len_prefix_le(cs@, k + 1);
            }
            let end = offset + len_utf8(cs[k]);
            if k > 0 {
                let last = k - 1;
                let fixed = GlyphPosition {
                    start: out[last].start,
                    end: out[last].end,
                    x: prev_x,
                    advance: x.wrapping_sub(prev_x),
                };
                out.set(last, fixed);
            }
            out.push(GlyphPosition { start: offset, end, x, advance: 0 });
            offset = end;
            prev_x = x;
            k = k + 1;
        }
        if n > 0 {
            let total = self.measure(text, font).advance;
            let last = n - 1;
            let fixed = GlyphPosition { start: out[last].start, end: out[last].end, x: prev_x, advance: total.wrapping_sub(prev_x) };
            out.set(last, fixed);
        }
        out
    }
}

} // verus!
