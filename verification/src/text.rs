//! Character-level text helpers: UTF-8 and UTF-16 lengths, and building
//! strings from characters.
use vstd::prelude::*;

verus! {

/// Bytes that a character takes in UTF-8.
pub open spec fn char_utf8_len(c: char) -> nat {
    let v = c as u32;
    if v < 0x80 {
        1
    } else if v < 0x800 {
        2
    } else if v < 0x10000 {
        3
    } else {
        4
    }
}

/// UTF-16 code units that a character takes.
pub open spec fn char_utf16_len(c: char) -> nat {
    if (c as u32) < 0x10000 {
        1
    } else {
        2
    }
}

/// UTF-8 length of a character sequence.
pub open spec fn utf8_len(s: Seq<char>) -> nat
    decreases s.len(),
{
    if s.len() == 0 {
        0
    } else {
        utf8_len(s.drop_last()) + char_utf8_len(s.last())
    }
}

/// UTF-16 length of a character sequence.
pub open spec fn utf16_len(s: Seq<char>) -> nat
    decreases s.len(),
{
    if s.len() == 0 {
        0
    } else {
        utf16_len(s.drop_last()) + char_utf16_len(s.last())
    }
}

/// UTF-16 length distributes over concatenation.
pub proof fn lemma_utf16_len_concat(a: Seq<char>, b: Seq<char>)
    ensures
        utf16_len(a + b) == utf16_len(a) + utf16_len(b),
    decreases b.len(),
{
    if b.len() == 0 {
        assert(a + b =~= a);
    } else {
        lemma_utf16_len_concat(a, b.drop_last());
        assert((a + b).drop_last() =~= a + b.drop_last());
    }
}

/// UTF-8 length distributes over concatenation.
pub proof fn lemma_utf8_len_concat(a: Seq<char>, b: Seq<char>)
    ensures
        utf8_len(a + b) == utf8_len(a) + utf8_len(b),
    decreases b.len(),
{
    if b.len() == 0 {
        assert(a + b =~= a);
    } else {
        lemma_utf8_len_concat(a, b.drop_last());
        assert((a + b).drop_last() =~= a + b.drop_last());
    }
}

/// A sequence has at least as many UTF-16 units as characters, and at most
/// twice as many.
pub proof fn lemma_utf16_len_bounds(s: Seq<char>)
    ensures
        s.len() <= utf16_len(s) <= 2 * s.len(),
    decreases s.len(),
{
    if s.len() > 0 {
        lemma_utf16_len_bounds(s.drop_last());
    }
}


/// Bytes of `c` in UTF-8 (what `char::len_utf8` gives).
pub fn len_utf8(c: char) -> (n: usize)
    ensures
        n == char_utf8_len(c),
{
    let v = c as u32;
    if v < 0x80 {
        1
    } else if v < 0x800 {
        2
    } else if v < 0x10000 {
        3
    } else {
        4
    }
}

/// UTF-16 units of `c` (what `char::len_utf16` gives).
pub fn len_utf16(c: char) -> (n: u32)
    ensures
        n == char_utf16_len(c),
{
    if (c as u32) < 0x10000 {
        1
    } else {
        2
    }
}

/// The characters of a string.
pub fn chars_of(s: &str) -> (r: Vec<char>)
    ensures
        r@ == s@,
{
    broadcast use vstd::string::group_string_axioms;

    let mut v: Vec<char> = Vec::new();
    for c in it: s.chars()
        invariant
            v@ == it.seq().take(it.index() as int),
    {
        v.push(c);
    }
    v
}

/// Appends one character (`String::push`).
#[verifier::external_body]
pub(crate) fn push_char(s: &mut String, c: char)
    ensures
        final(s)@ == old(s)@.push(c),
{
    s.push(c);
}

/// A string made of `cs[from..to]`.
pub fn string_of(cs: &[char], from: usize, to: usize) -> (s: String)
    requires
        from <= to <= cs@.len(),
    ensures
        s@ == cs@.subrange(from as int, to as int),
{
    let mut s = String::new();
    let mut i = from;
    while i < to
        invariant
            from <= i <= to <= cs@.len(),
            s@ == cs@.subrange(from as int, i as int),
        decreases to - i,
    {
        push_char(&mut s, cs[i]);
        assert(cs@.subrange(from as int, i + 1) =~= cs@.subrange(from as int, i as int).push(
            cs@[i as int],
        ));
        i = i + 1;
    }
    s
}

/// A copy of a string.
pub fn copy_str(t: &str) -> (s: String)
    ensures
        s@ == t@,
{
    let cs = chars_of(t);
    string_of(cs.as_slice(), 0, cs.len())
}

/// UTF-16 units of `cs[from..to]`, if they fit in `u32`.
pub fn utf16_count(cs: &[char], from: usize, to: usize) -> (n: Option<u32>)
    requires
        from <= to <= cs@.len(),
    ensures
        n matches Some(k) ==> k == utf16_len(cs@.subrange(from as int, to as int)),
        n is None ==> utf16_len(cs@.subrange(from as int, to as int)) > u32::MAX,
{
    let mut k: u64 = 0;
    let mut i = from;
    while i < to
        invariant
            from <= i <= to <= cs@.len(),
            k == utf16_len(cs@.subrange(from as int, i as int)),
            k <= u32::MAX,
        decreases to - i,
    {
        assert(cs@.subrange(from as int, i + 1).drop_last() =~= cs@.subrange(from as int, i as int));
        k = k + len_utf16(cs[i]) as u64;
        if k > u32::MAX as u64 {
            proof {
                lemma_utf16_len_concat(
                    cs@.subrange(from as int, i + 1),
                    cs@.subrange(i + 1, to as int),
                );
                assert(cs@.subrange(from as int, i + 1) + cs@.subrange(i + 1, to as int)
                    =~= cs@.subrange(from as int, to as int));
            }
            return None;
        }
        i = i + 1;
    }
    Some(k as u32)
}

} // verus!

verus! {

/// The UTF-8 length of a prefix is at most that of the whole sequence.
pub proof fn lemma_utf8_len_prefix_le(s: Seq<char>, i: int)
    requires
        0 <= i <= s.len(),
    ensures
        utf8_len(s.take(i)) <= utf8_len(s),
{
    lemma_utf8_len_concat(s.take(i), s.subrange(i, s.len() as int));
    assert(s.take(i) + s.subrange(i, s.len() as int) =~= s);
}

} // verus!

verus! {

/// Whether the UTF-8 length of `cs` fits in `usize`.
pub fn fits_utf8(cs: &[char]) -> (b: bool)
    ensures
        b == (utf8_len(cs@) <= usize::MAX),
{
    let mut total: usize = 0;
    let mut i: usize = 0;
    while i < cs.len()
        invariant
            0 <= i <= cs@.len(),
            total == utf8_len(cs@.take(i as int)),
        decreases cs@.len() - i,
    {
        assert(cs@.take(i + 1).drop_last() =~= cs@.take(i as int));
        let n = len_utf8(cs[i]);
        if n > usize::MAX - total {
            proof {
                lemma_utf8_len_prefix_le(cs@, i + 1);
            }
            return false;
        }
        total = total + n;
        i = i + 1;
    }
    assert(cs@.take(cs@.len() as int) =~= cs@);
    true
}

} // verus!
