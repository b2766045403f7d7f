//! Lexical rules of the dialect: blanks, comments, doc comments and names,
//! each as a function of the source text and a position in it.

use vstd::prelude::*;

verus! {

/// Whether position `p` of `s` holds the character `c`.
pub open spec fn at(s: Seq<char>, p: int, c: char) -> bool {
    0 <= p < s.len() && s[p] == c
}

/// Space or tab.
pub open spec fn is_blank(c: char) -> bool {
    c == ' ' || c == '\t'
}

/// Space, tab, carriage return or line feed.
pub open spec fn is_space(c: char) -> bool {
    c == ' ' || c == '\t' || c == '\r' || c == '\n'
}

/// An ASCII letter.
pub open spec fn is_letter(c: char) -> bool {
    ('a' <= c && c <= 'z') || ('A' <= c && c <= 'Z')
}

/// An ASCII digit.
pub open spec fn is_digit(c: char) -> bool {
    '0' <= c && c <= '9'
}

/// Whether a name may begin with `c`.
pub open spec fn starts_name(c: char) -> bool {
    is_letter(c) || c == '_'
}

/// Whether a name may go on with `c`. Only names of functions take a hyphen.
pub open spec fn continues_name(c: char, hyphen: bool) -> bool {
    is_letter(c) || is_digit(c) || c == '_' || (hyphen && c == '-')
}

/// First position at or after `p` that holds neither space nor tab.
pub open spec fn skip_blanks(s: Seq<char>, p: int) -> int
    decreases s.len() - p,
{
    if 0 <= p < s.len() && is_blank(s[p]) {
        skip_blanks(s, p + 1)
    } else {
        p
    }
}

/// Position of the first line feed at or after `p`, or the end of `s`.
pub open spec fn line_stop(s: Seq<char>, p: int) -> int
    decreases s.len() - p,
{
    if 0 <= p < s.len() && s[p] != '\n' {
        line_stop(s, p + 1)
    } else {
        p
    }
}

/// Start of the line after the one that holds `p`, or the end of `s`.
pub open spec fn next_line(s: Seq<char>, p: int) -> int {
    let stop = line_stop(s, p);
    if stop < s.len() {
        stop + 1
    } else {
        stop
    }
}

/// Length of the line ending at `p`: 1 for a line feed, 2 for a carriage
/// return and a line feed, 0 where there is none.
pub open spec fn line_break(s: Seq<char>, p: int) -> int {
    if at(s, p, '\n') {
        1
    } else if at(s, p, '\r') && at(s, p + 1, '\n') {
        2
    } else {
        0
    }
}

/// End of the run of line endings that starts at `p`.
pub open spec fn skip_breaks(s: Seq<char>, p: int) -> int
    decreases s.len() - p,
{
    if line_break(s, p) > 0 {
        skip_breaks(s, p + line_break(s, p))
    } else {
        p
    }
}

/// Whether an ordinary comment starts at `p`: a `#` that opens no doc comment.
pub open spec fn comment_at(s: Seq<char>, p: int) -> bool {
    at(s, p, '#') && !at(s, p + 1, '>') && !at(s, p + 1, '<') && !at(s, p + 1, '^')
}

/// First position at or after `p` that is neither white space nor inside an
/// ordinary comment.
pub open spec fn skip_filler(s: Seq<char>, p: int) -> int
    decreases s.len() - p,
{
    if 0 <= p < s.len() && is_space(s[p]) {
        skip_filler(s, p + 1)
    } else if comment_at(s, p) {
        proof {
            lemma_line_stop(s, p);
        }
        skip_filler(s, next_line(s, p))
    } else {
        p
    }
}

/// Whether a doc comment of the given kind starts at `p`.
pub open spec fn doc_at(s: Seq<char>, p: int, marker: char) -> bool {
    at(s, p, '#') && at(s, p + 1, marker)
}

/// Where the text of the doc comment at `p` starts: after the marker and any blanks.
pub open spec fn doc_from(s: Seq<char>, p: int) -> int {
    skip_blanks(s, p + 2)
}

/// The text of the doc comment at `p`: the rest of its line.
pub open spec fn doc_text(s: Seq<char>, p: int) -> Seq<char> {
    s.subrange(doc_from(s, p), line_stop(s, doc_from(s, p)))
}

/// Where reading goes on after the doc comment at `p`.
pub open spec fn doc_to(s: Seq<char>, p: int) -> int {
    skip_filler(s, next_line(s, p))
}

/// The texts of the doc comments of one kind that follow each other from
/// `p`, with nothing but white space and ordinary comments around them.
pub open spec fn docs(s: Seq<char>, p: int, marker: char) -> Seq<Seq<char>>
    decreases s.len() - p,
{
    let q = skip_filler(s, p);
    if doc_at(s, q, marker) {
        proof {
            lemma_skip_filler(s, p);
            lemma_doc_to(s, q);
        }
        seq![doc_text(s, q)] + docs(s, doc_to(s, q), marker)
    } else {
        Seq::empty()
    }
}

/// Where the doc comments that [`docs`] collects end; `p` itself when there are none.
pub open spec fn docs_end(s: Seq<char>, p: int, marker: char) -> int
    decreases s.len() - p,
{
    let q = skip_filler(s, p);
    if doc_at(s, q, marker) {
        proof {
            lemma_skip_filler(s, p);
            lemma_doc_to(s, q);
        }
        docs_end(s, doc_to(s, q), marker)
    } else {
        p
    }
}

/// End of the run of characters from `p` with which a name may go on.
pub open spec fn name_run(s: Seq<char>, p: int, hyphen: bool) -> int
    decreases s.len() - p,
{
    if 0 <= p < s.len() && continues_name(s[p], hyphen) {
        name_run(s, p + 1, hyphen)
    } else {
        p
    }
}

/// End of the name that starts at `p`; `p` itself where none starts.
pub open spec fn name_end(s: Seq<char>, p: int, hyphen: bool) -> int {
    if 0 <= p < s.len() && starts_name(s[p]) {
        name_run(s, p + 1, hyphen)
    } else {
        p
    }
}

/// Whether `t` is a name: a letter or underscore, then letters, digits,
/// underscores and, for a function, hyphens.
pub open spec fn is_name(t: Seq<char>, hyphen: bool) -> bool {
    &&& t.len() > 0
    &&& starts_name(t[0])
    &&& forall|i: int| 0 < i < t.len() ==> continues_name(#[trigger] t[i], hyphen)
}

/// Blanks are skipped up to the first character that is none.
pub(crate) proof fn lemma_skip_blanks(s: Seq<char>, p: int)
    requires
        0 <= p <= s.len(),
    ensures
        p <= skip_blanks(s, p) <= s.len(),
        forall|i: int| p <= i < skip_blanks(s, p) ==> is_blank(#[trigger] s[i]),
        skip_blanks(s, p) < s.len() ==> !is_blank(s[skip_blanks(s, p)]),
    decreases s.len() - p,
{
    if p < s.len() && is_blank(s[p]) {
        lemma_skip_blanks(s, p + 1);
    }
}

/// A line stops at its line feed or at the end of the text, and no line feed
/// stands before that.
pub proof fn lemma_line_stop(s: Seq<char>, p: int)
    requires
        0 <= p <= s.len(),
    ensures
        p <= line_stop(s, p) <= next_line(s, p) <= s.len(),
        p < s.len() ==> p < next_line(s, p),
        forall|i: int| p <= i < line_stop(s, p) ==> #[trigger] s[i] != '\n',
        line_stop(s, p) < s.len() ==> s[line_stop(s, p)] == '\n',
    decreases s.len() - p,
{
    if p < s.len() && s[p] != '\n' {
        lemma_line_stop(s, p + 1);
    }
}

/// Line endings are skipped up to a place where none starts.
pub(crate) proof fn lemma_skip_breaks(s: Seq<char>, p: int)
    requires
        0 <= p <= s.len(),
    ensures
        p <= skip_breaks(s, p) <= s.len(),
        line_break(s, skip_breaks(s, p)) == 0,
    decreases s.len() - p,
{
    if line_break(s, p) > 0 {
        lemma_skip_breaks(s, p + line_break(s, p));
    }
}

/// Filler is skipped up to a place where none starts; to skip it twice is
/// to skip it once.
pub proof fn lemma_skip_filler(s: Seq<char>, p: int)
    requires
        0 <= p <= s.len(),
    ensures
        p <= skip_filler(s, p) <= s.len(),
        skip_filler(s, skip_filler(s, p)) == skip_filler(s, p),
        skip_filler(s, p) < s.len() ==> !is_space(s[skip_filler(s, p)]),
        !comment_at(s, skip_filler(s, p)),
    decreases s.len() - p,
{
    if p < s.len() && is_space(s[p]) {
        lemma_skip_filler(s, p + 1);
    } else if comment_at(s, p) {
        lemma_line_stop(s, p);
        lemma_skip_filler(s, next_line(s, p));
    }
}

/// Reading goes on after a doc comment, behind the filler that follows it.
pub proof fn lemma_doc_to(s: Seq<char>, p: int)
    requires
        0 <= p < s.len(),
    ensures
        p < doc_to(s, p) <= s.len(),
        skip_filler(s, doc_to(s, p)) == doc_to(s, p),
{
    lemma_line_stop(s, p);
    lemma_skip_filler(s, next_line(s, p));
}

/// The text of a doc comment lies within the line of the comment.
pub(crate) proof fn lemma_doc_text(s: Seq<char>, p: int)
    requires
        0 <= p,
        p + 2 <= s.len(),
    ensures
        p + 2 <= doc_from(s, p) <= line_stop(s, doc_from(s, p)) <= s.len(),
        line_stop(s, doc_from(s, p)) == line_stop(s, p + 2),
    decreases s.len() - p,
{
    lemma_skip_blanks(s, p + 2);
    lemma_line_stop(s, doc_from(s, p));
    lemma_line_stop_from(s, p + 2, doc_from(s, p));
}

/// The line stops at the same place from every position that no line feed
/// parts from `p`.
pub(crate) proof fn lemma_line_stop_from(s: Seq<char>, p: int, q: int)
    requires
        0 <= p <= q <= s.len(),
        forall|i: int| p <= i < q ==> #[trigger] s[i] != '\n',
    ensures
        line_stop(s, p) == line_stop(s, q),
    decreases q - p,
{
    if p < q {
        lemma_line_stop_from(s, p + 1, q);
    }
}

/// Doc comments end within the text, behind the filler that follows the
/// last of them.
pub(crate) proof fn lemma_docs_end(s: Seq<char>, p: int, marker: char)
    requires
        0 <= p <= s.len(),
    ensures
        p <= docs_end(s, p, marker) <= s.len(),
        docs(s, p, marker).len() > 0 ==> skip_filler(s, docs_end(s, p, marker)) == docs_end(
            s,
            p,
            marker,
        ),
    decreases s.len() - p,
{
    let q = skip_filler(s, p);
    lemma_skip_filler(s, p);
    if doc_at(s, q, marker) {
        lemma_doc_to(s, q);
        lemma_docs_end(s, doc_to(s, q), marker);
        if docs(s, doc_to(s, q), marker).len() == 0 {
            assert(docs_end(s, doc_to(s, q), marker) == doc_to(s, q));
        }
    }
}

/// Doc comments are the same whether they are read from before or after the
/// filler that leads them.
pub(crate) proof fn lemma_docs_filler(s: Seq<char>, p: int, marker: char)
    requires
        0 <= p <= s.len(),
    ensures
        docs(s, skip_filler(s, p), marker) == docs(s, p, marker),
{
    lemma_skip_filler(s, p);
}

/// A run of name characters holds nothing else.
pub(crate) proof fn lemma_name_run(s: Seq<char>, p: int, hyphen: bool)
    requires
        0 <= p <= s.len(),
    ensures
        p <= name_run(s, p, hyphen) <= s.len(),
        forall|i: int| p <= i < name_run(s, p, hyphen) ==> continues_name(#[trigger] s[i], hyphen),
    decreases s.len() - p,
{
    if p < s.len() && continues_name(s[p], hyphen) {
        lemma_name_run(s, p + 1, hyphen);
    }
}

/// What is read as a name is a name.
pub(crate) proof fn lemma_name_end(s: Seq<char>, p: int, hyphen: bool)
    requires
        0 <= p <= s.len(),
    ensures
        p <= name_end(s, p, hyphen) <= s.len(),
        name_end(s, p, hyphen) > p ==> is_name(s.subrange(p, name_end(s, p, hyphen)), hyphen),
{
    if p < s.len() && starts_name(s[p]) {
        lemma_name_run(s, p + 1, hyphen);
    }
}

} // verus!
