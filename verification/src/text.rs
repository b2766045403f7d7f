//! Character-level helpers shared by the parser and the renderer.

use vstd::prelude::*;

use vstd::utf8::{
    encode_scalar, encode_utf8, has_width_1_encoding, has_width_2_encoding, has_width_3_encoding,
};

verus! {

/// `String::push` appends the given character to the end of the string. That
/// it extends the character sequence by exactly that character is believed,
/// not proved.
pub assume_specification[ String::push ](s: &mut String, c: char)
    ensures
        final(s)@ == old(s)@.push(c),
;

/// Whether a character has the Unicode `White_Space` property, as
/// `char::is_whitespace` reports it.
pub uninterp spec fn white_space(c: char) -> bool;

/// `char::is_whitespace` says whether a character has the `White_Space`
/// property. Its answer depends on the character alone and is the one that
/// [`white_space`] names; nothing more is claimed of it.
pub assume_specification[ char::is_whitespace ](c: char) -> (b: bool)
    ensures
        b == white_space(c),
;

/// The characters of `s`, in order. The vector takes one more element and
/// gives it up again before it is returned: a vector that could take one more
/// holds fewer than `usize::MAX`, so lines and columns can be counted from one.
pub(crate) fn to_chars(s: &str) -> (out: Vec<char>)
    ensures
        out@ == s@,
        out.len() < usize::MAX,
{
    let mut out: Vec<char> = Vec::new();
    for c in it: s.chars()
        invariant
            out@ == it.seq().take(it.index() as int),
    {
        out.push(c);
    }
    let ghost chars = out@;
    out.push('\n');
    assert(out.len() == chars.len() + 1);
    out.pop();
    assert(out@ =~= chars);
    out
}

/// The characters `chars[from..to]` as an owned string.
pub(crate) fn string_of(chars: &Vec<char>, from: usize, to: usize) -> (out: String)
    requires
        from <= to <= chars@.len(),
    ensures
        out@ == chars@.subrange(from as int, to as int),
{
    let mut out = String::new();
    let mut i: usize = from;
    while i < to
        invariant
            from <= i <= to <= chars@.len(),
            out@ == chars@.subrange(from as int, i as int),
        decreases to - i,
    {
        out.push(chars[i]);
        i += 1;
    }
    out
}

/// Number of line feeds in `s`.
pub open spec fn newlines(s: Seq<char>) -> nat
    decreases s.len(),
{
    if s.len() == 0 {
        0
    } else {
        newlines(s.drop_last()) + if s.last() == '\n' { 1nat } else { 0nat }
    }
}

/// One-based number of the line that holds position `p` of `s`.
pub open spec fn line_at(s: Seq<char>, p: int) -> nat {
    1 + newlines(s.take(p))
}

/// Text holds no more line feeds than characters.
pub(crate) proof fn lemma_newlines_bound(s: Seq<char>)
    ensures
        newlines(s) <= s.len(),
    decreases s.len(),
{
    if s.len() > 0 {
        lemma_newlines_bound(s.drop_last());
    }
}

/// The line feeds of two texts add up when the texts are joined.
pub(crate) proof fn lemma_newlines_concat(a: Seq<char>, b: Seq<char>)
    ensures
        newlines(a + b) == newlines(a) + newlines(b),
    decreases b.len(),
{
    if b.len() == 0 {
        assert(a + b =~= a);
    } else {
        assert((a + b).drop_last() =~= a + b.drop_last());
        lemma_newlines_concat(a, b.drop_last());
    }
}

/// The line of a position is the line of an earlier position plus the line
/// feeds between the two.
pub(crate) proof fn lemma_line_at_from(s: Seq<char>, a: int, b: int)
    requires
        0 <= a <= b <= s.len(),
    ensures
        line_at(s, b) == line_at(s, a) + newlines(s.subrange(a, b)),
        line_at(s, b) <= b + 1,
{
    assert(s.take(b) =~= s.take(a) + s.subrange(a, b));
    lemma_newlines_concat(s.take(a), s.subrange(a, b));
    lemma_newlines_bound(s.take(b));
}

/// One more character adds a line feed if it is one.
pub(crate) proof fn lemma_newlines_push(s: Seq<char>, c: char)
    ensures
        newlines(s.push(c)) == newlines(s) + if c == '\n' { 1nat } else { 0nat },
{
    assert(s.push(c).drop_last() =~= s);
}

/// How often `needle` occurs in `bytes`.
pub open spec fn occurrences(bytes: Seq<u8>, needle: u8) -> nat
    decreases bytes.len(),
{
    if bytes.len() == 0 {
        0
    } else {
        occurrences(bytes.drop_first(), needle) + if bytes[0] == needle { 1nat } else { 0nat }
    }
}

/// Calls `bytecount::count`, which counts how often a byte occurs in a slice.
/// That its result is the number of bytes of `haystack` that equal `needle`
/// is believed, not proved.
#[verifier::external_body]
fn count_byte(haystack: &[u8], needle: u8) -> (n: usize)
    ensures
        n == occurrences(haystack@, needle),
{
    bytecount::count(haystack, needle)
}

/// Number of line feeds in `s`.
pub fn count_newlines(s: &str) -> (n: usize)
    ensures
        n == newlines(s@),
{
    proof {
        lemma_encoded_newlines(s@);
    }
    count_byte(s.as_bytes(), 10u8)
}

/// The occurrences in two sequences add up when the sequences are joined.
pub(crate) proof fn lemma_occurrences_concat(a: Seq<u8>, b: Seq<u8>, needle: u8)
    ensures
        occurrences(a + b, needle) == occurrences(a, needle) + occurrences(b, needle),
    decreases a.len(),
{
    if a.len() == 0 {
        assert(a + b =~= b);
    } else {
        assert((a + b).drop_first() =~= a.drop_first() + b);
        lemma_occurrences_concat(a.drop_first(), b, needle);
    }
}

/// The only character whose UTF-8 encoding holds the byte 10 is the line
/// feed, and it holds it once.
proof fn lemma_encoded_char(c: char)
    ensures
        occurrences(encode_scalar(c as u32), 10u8) == if c == '\n' { 1nat } else { 0nat },
{
    let v = c as u32;
    let bytes = encode_scalar(v);
    reveal_with_fuel(occurrences, 5);
    assert(c == '\n' <==> v == 10u32);
    if has_width_1_encoding(v) {
        assert(((v & 0x7F) as u8 == 10u8) <==> v == 10u32) by (bit_vector)
            requires
                v <= 0x7F,
        ;
    } else {
        assert((0xC0u8 | ((v >> 6) & 0x1F) as u8) != 10u8) by (bit_vector);
        assert((0xE0u8 | ((v >> 12) & 0x0F) as u8) != 10u8) by (bit_vector);
        assert((0xF0u8 | ((v >> 18) & 0x7) as u8) != 10u8) by (bit_vector);
        assert((0x80u8 | (v & 0x3F) as u8) != 10u8) by (bit_vector);
        assert((0x80u8 | ((v >> 6) & 0x3F) as u8) != 10u8) by (bit_vector);
        assert((0x80u8 | ((v >> 12) & 0x3F) as u8) != 10u8) by (bit_vector);
        if has_width_2_encoding(v) {
            assert(bytes.drop_first().drop_first() =~= Seq::<u8>::empty());
        } else if has_width_3_encoding(v) {
            assert(bytes.drop_first().drop_first().drop_first() =~= Seq::<u8>::empty());
        } else {
            assert(bytes.drop_first().drop_first().drop_first().drop_first() =~= Seq::<
                u8,
            >::empty());
        }
    }
}

/// A text has as many line feeds as its UTF-8 encoding has bytes 10.
pub(crate) proof fn lemma_encoded_newlines(s: Seq<char>)
    ensures
        occurrences(encode_utf8(s), 10u8) == newlines(s),
    decreases s.len(),
{
    if s.len() > 0 {
        lemma_encoded_char(s[0]);
        lemma_encoded_newlines(s.drop_first());
        lemma_occurrences_concat(encode_scalar(s[0] as u32), encode_utf8(s.drop_first()), 10u8);
        assert(s =~= seq![s[0]] + s.drop_first());
        lemma_newlines_concat(seq![s[0]], s.drop_first());
        assert(seq![s[0]].drop_last() =~= Seq::<char>::empty());
        assert(newlines(Seq::<char>::empty()) == 0);
        assert(newlines(seq![s[0]]) == if s[0] == '\n' { 1nat } else { 0nat });
    }
}

} // verus!
