//! Executable counterparts of the lexical rules: each function here computes
//! what the rule of the same meaning in [`crate::lexis`] defines.

use vstd::prelude::*;
use crate::lexis::{
    at, comment_at, continues_name, doc_at, doc_text, doc_to, docs, docs_end, is_blank, is_space,
    lemma_doc_text, lemma_doc_to, lemma_docs_end, line_break, line_stop, name_end, name_run,
    next_line, skip_blanks, skip_breaks, skip_filler, starts_name,
};
use crate::text::{lemma_newlines_push, newlines, string_of};

verus! {

/// Whether position `p` holds `c`.
pub(crate) fn holds(src: &Vec<char>, p: usize, c: char) -> (b: bool)
    ensures
        b == at(src@, p as int, c),
{
    p < src.len() && src[p] == c
}

/// Whether `c` is a space or a tab.
pub(crate) fn blank(c: char) -> (b: bool)
    ensures
        b == is_blank(c),
{
    c == ' ' || c == '\t'
}

/// Whether `c` is white space of the dialect.
pub(crate) fn space(c: char) -> (b: bool)
    ensures
        b == is_space(c),
{
    c == ' ' || c == '\t' || c == '\r' || c == '\n'
}

/// Whether a name may begin with `c`.
pub(crate) fn name_start(c: char) -> (b: bool)
    ensures
        b == starts_name(c),
{
    ('a' <= c && c <= 'z') || ('A' <= c && c <= 'Z') || c == '_'
}

/// Whether a name may go on with `c`.
pub(crate) fn name_part(c: char, hyphen: bool) -> (b: bool)
    ensures
        b == continues_name(c, hyphen),
{
    ('a' <= c && c <= 'z') || ('A' <= c && c <= 'Z') || ('0' <= c && c <= '9') || c == '_' || (
    hyphen && c == '-')
}

/// First position at or after `p` that holds neither space nor tab.
pub(crate) fn after_blanks(src: &Vec<char>, p: usize) -> (q: usize)
    requires
        p <= src.len(),
    ensures
        q == skip_blanks(src@, p as int),
        p <= q <= src.len(),
{
    let mut q = p;
    while q < src.len() && blank(src[q])
        invariant
            p <= q <= src.len(),
            skip_blanks(src@, p as int) == skip_blanks(src@, q as int),
        decreases src.len() - q,
    {
        q += 1;
    }
    q
}

/// Position of the first line feed at or after `p`, or the end of the text.
pub(crate) fn end_of_line(src: &Vec<char>, p: usize) -> (q: usize)
    requires
        p <= src.len(),
    ensures
        q == line_stop(src@, p as int),
        p <= q <= src.len(),
{
    let mut q = p;
    while q < src.len() && src[q] != '\n'
        invariant
            p <= q <= src.len(),
            line_stop(src@, p as int) == line_stop(src@, q as int),
        decreases src.len() - q,
    {
        q += 1;
    }
    q
}

/// Start of the line after the one that holds `p`, or the end of the text.
pub(crate) fn start_of_next_line(src: &Vec<char>, p: usize) -> (q: usize)
    requires
        p <= src.len(),
    ensures
        q == next_line(src@, p as int),
        p <= q <= src.len(),
        p < src.len() ==> p < q,
{
    let stop = end_of_line(src, p);
    if stop < src.len() {
        stop + 1
    } else {
        stop
    }
}

/// Length of the line ending at `p`, 0 where there is none.
pub(crate) fn break_len(src: &Vec<char>, p: usize) -> (n: usize)
    requires
        p <= src.len(),
    ensures
        n == line_break(src@, p as int),
        p + n <= src.len(),
{
    if holds(src, p, '\n') {
        1
    } else if holds(src, p, '\r') && holds(src, p + 1, '\n') {
        2
    } else {
        0
    }
}

/// End of the run of line endings that starts at `p`.
pub(crate) fn after_breaks(src: &Vec<char>, p: usize) -> (q: usize)
    requires
        p <= src.len(),
    ensures
        q == skip_breaks(src@, p as int),
        p <= q <= src.len(),
{
    let mut q = p;
    loop
        invariant
            p <= q <= src.len(),
            skip_breaks(src@, p as int) == skip_breaks(src@, q as int),
        ensures
            q == skip_breaks(src@, p as int),
        decreases src.len() - q,
    {
        let n = break_len(src, q);
        if n == 0 {
            break ;
        }
        q += n;
    }
    q
}

/// Whether an ordinary comment starts at `p`.
pub(crate) fn comment_starts(src: &Vec<char>, p: usize) -> (b: bool)
    requires
        p <= src.len(),
    ensures
        b == comment_at(src@, p as int),
{
    holds(src, p, '#') && !holds(src, p + 1, '>') && !holds(src, p + 1, '<') && !holds(
        src,
        p + 1,
        '^',
    )
}

/// First position at or after `p` that is neither white space nor inside an
/// ordinary comment.
pub(crate) fn after_filler(src: &Vec<char>, p: usize) -> (q: usize)
    requires
        p <= src.len(),
    ensures
        q == skip_filler(src@, p as int),
        p <= q <= src.len(),
{
    let mut q = p;
    loop
        invariant
            p <= q <= src.len(),
            skip_filler(src@, p as int) == skip_filler(src@, q as int),
        ensures
            p <= q <= src.len(),
            q == skip_filler(src@, p as int),
        decreases src.len() - q,
    {
        if q < src.len() && space(src[q]) {
            q += 1;
        } else if comment_starts(src, q) {
            q = start_of_next_line(src, q);
        } else {
            break ;
        }
    }
    q
}

/// Whether a doc comment of the given kind starts at `p`.
pub(crate) fn doc_starts(src: &Vec<char>, p: usize, marker: char) -> (b: bool)
    requires
        p <= src.len(),
    ensures
        b == doc_at(src@, p as int, marker),
{
    holds(src, p, '#') && holds(src, p + 1, marker)
}

/// The doc comments of one kind that follow each other from `p`, and where
/// they end.
pub(crate) fn read_docs(src: &Vec<char>, p: usize, marker: char) -> (out: (Vec<String>, usize))
    requires
        p <= src.len(),
    ensures
        out.0.deep_view() == docs(src@, p as int, marker),
        out.1 == docs_end(src@, p as int, marker),
        p <= out.1 <= src.len(),
{
    let mut lines: Vec<String> = Vec::new();
    let mut end = p;
    proof {
        lemma_docs_end(src@, p as int, marker);
    }
    loop
        invariant
            p <= end <= src.len(),
            docs(src@, p as int, marker) == lines.deep_view() + docs(src@, end as int, marker),
            docs_end(src@, p as int, marker) == docs_end(src@, end as int, marker),
        ensures
            p <= end <= src.len(),
            docs(src@, p as int, marker) == lines.deep_view(),
            docs_end(src@, p as int, marker) == end,
        decreases src.len() - end,
    {
        let q = after_filler(src, end);
        if !doc_starts(src, q, marker) {
            break ;
        }
        proof {
            lemma_doc_text(src@, q as int);
            lemma_doc_to(src@, q as int);
        }
        let from = after_blanks(src, q + 2);
        let stop = end_of_line(src, from);
        let ghost before = lines.deep_view();
        lines.push(string_of(src, from, stop));
        proof {
            assert(lines.deep_view() =~= before.push(doc_text(src@, q as int)));
            assert(before.push(doc_text(src@, q as int)) + docs(
                src@,
                doc_to(src@, q as int),
                marker,
            ) =~= before + (seq![doc_text(src@, q as int)] + docs(
                src@,
                doc_to(src@, q as int),
                marker,
            )));
        }
        let next = start_of_next_line(src, q);
        end = after_filler(src, next);
    }
    (lines, end)
}

/// End of the name that starts at `p`; `p` itself where none starts.
pub(crate) fn read_name(src: &Vec<char>, p: usize, hyphen: bool) -> (q: usize)
    requires
        p <= src.len(),
    ensures
        q == name_end(src@, p as int, hyphen),
        p <= q <= src.len(),
{
    if p < src.len() && name_start(src[p]) {
        let mut q = p + 1;
        while q < src.len() && name_part(src[q], hyphen)
            invariant
                p < q <= src.len(),
                name_run(src@, p + 1, hyphen) == name_run(src@, q as int, hyphen),
            decreases src.len() - q,
        {
            q += 1;
        }
        q
    } else {
        p
    }
}

/// Number of line feeds in `src[from..to]`.
pub(crate) fn count_breaks(src: &Vec<char>, from: usize, to: usize) -> (n: usize)
    requires
        from <= to <= src.len(),
    ensures
        n == newlines(src@.subrange(from as int, to as int)),
        n <= to - from,
{
    let mut n: usize = 0;
    let mut i = from;
    while i < to
        invariant
            from <= i <= to <= src.len(),
            n == newlines(src@.subrange(from as int, i as int)),
            n <= i - from,
        decreases to - i,
    {
        proof {
            lemma_newlines_push(src@.subrange(from as int, i as int), src@[i as int]);
            assert(src@.subrange(from as int, i + 1) =~= src@.subrange(from as int, i as int).push(
                src@[i as int],
            ));
        }
        if src[i] == '\n' {
            n += 1;
        }
        i += 1;
    }
    n
}

} // verus!
