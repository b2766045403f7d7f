//! The parser: one pass over the source text that yields the functions the
//! grammar defines, or the one diagnostic of the first thing that is wrong.

use vstd::prelude::*;
use crate::description::{describe, Description};
use crate::diagnostic::{syntax_report, Fault, ParseError};
use crate::grammar::{
    arg_view, args, args_end, blank_line, body_text, body_to, bound_args, capture, capture_end,
    first_content, first_failure, forward_of, indent_from, indent_len, indented, item_failure,
    item_view, items, items_from, layout, lemma_arg_end, lemma_blank_line, lemma_body_to,
    lemma_indent_in_line, lemma_last_end, lemma_layout, line_text, params_end, script_view,
    syntax_error, Expected,
};
use crate::lexis::{docs, lemma_docs_filler, lemma_line_stop};
use crate::scanner::{
    after_blanks, after_breaks, after_filler, break_len, comment_starts, count_breaks, end_of_line,
    holds, read_docs, read_name, start_of_next_line,
};
use crate::item::{arg_views, item_views, FnSignature, Item, ItemArg};
use crate::text::{lemma_line_at_from, line_at, string_of, to_chars};

verus! {

/// The description that doc comments before and after a construct amount to.
fn describe_both(pre: Vec<String>, post: Vec<String>) -> (out: Description)
    ensures
        out@ == describe(seq![pre.deep_view(), post.deep_view()]),
{
    let mut groups: Vec<Vec<String>> = Vec::new();
    groups.push(pre);
    groups.push(post);
    assert(groups.deep_view() =~= seq![pre.deep_view(), post.deep_view()]);
    Description::new(&groups)
}

/// Appends `src[from..to]` to `out`.
fn push_range(out: &mut String, src: &Vec<char>, from: usize, to: usize)
    requires
        from <= to <= src.len(),
    ensures
        final(out)@ == old(out)@ + src@.subrange(from as int, to as int),
{
    let mut i = from;
    while i < to
        invariant
            from <= i <= to <= src.len(),
            out@ == old(out)@ + src@.subrange(from as int, i as int),
        decreases to - i,
    {
        out.push(src[i]);
        i += 1;
        assert(src@.subrange(from as int, i as int) =~= src@.subrange(from as int, i - 1).push(
            src@[i - 1],
        ));
    }
}

/// The arguments that end in a comma, read from `p`, and where they end.
fn read_args(src: &Vec<char>, p: usize) -> (out: (Vec<ItemArg>, usize))
    requires
        p <= src.len(),
    ensures
        arg_views(out.0@) == args(src@, p as int),
        out.1 == args_end(src@, p as int),
        p <= out.1 <= src.len(),
{
    let mut list: Vec<ItemArg> = Vec::new();
    let mut end = p;
    loop
        invariant
            p <= end <= src.len(),
            args(src@, p as int) == arg_views(list@) + args(src@, end as int),
            args_end(src@, p as int) == args_end(src@, end as int),
        ensures
            p <= end <= src.len(),
            args(src@, p as int) == arg_views(list@),
            args_end(src@, p as int) == end,
        decreases src.len() - end,
    {
        proof {
            lemma_arg_end(src@, end as int);
            lemma_docs_filler(src@, end as int, '>');
        }
        let start = after_filler(src, end);
        let (pre, from) = read_docs(src, start, '>');
        let to = read_name(src, from, false);
        if !(to > from && holds(src, to, ',')) {
            break ;
        }
        let (post, after) = read_docs(src, to + 1, '<');
        let next = after_filler(src, after);
        let arg = ItemArg::new(string_of(src, from, to), describe_both(pre, post));
        let ghost before = arg_views(list@);
        list.push(arg);
        proof {
            assert(arg_views(list@) =~= before.push(arg_view(src@, end as int)));
            assert(before.push(arg_view(src@, end as int)) + args(src@, next as int) =~= before
                + (seq![arg_view(src@, end as int)] + args(src@, next as int)));
        }
        end = next;
    }
    (list, end)
}

/// The parameters of the list that starts at `p`: the arguments that are
/// bound to a variable, the description of the forward marker if the list
/// ends in one, and where the closing parenthesis is due.
fn read_params(src: &Vec<char>, p: usize) -> (out: (Vec<ItemArg>, Option<Description>, usize))
    requires
        p <= src.len(),
    ensures
        arg_views(out.0@) == bound_args(src@, p as int),
        match out.1 {
            Some(d) => forward_of(src@, p as int) == Some(d@),
            None => forward_of(src@, p as int) is None,
        },
        out.2 == params_end(src@, p as int),
        p <= out.2 <= src.len(),
{
    let (mut list, q) = read_args(src, p);
    proof {
        lemma_arg_end(src@, q as int);
        lemma_last_end(src@, q as int);
        lemma_docs_filler(src@, q as int, '>');
    }
    let start = after_filler(src, q);
    let (pre, from) = read_docs(src, start, '>');
    let name_to = read_name(src, from, false);
    let forwards = name_to == from && holds(src, from, '$') && holds(src, from + 1, '@');
    let to = if forwards {
        from + 2
    } else {
        name_to
    };
    if to == from {
        return (list, None, q);
    }
    let post_from = if holds(src, to, ',') {
        to + 1
    } else {
        to
    };
    let (post, after) = read_docs(src, post_from, '<');
    let end = after_filler(src, after);
    let description = describe_both(pre, post);
    if forwards {
        (list, Some(description), end)
    } else {
        let ghost before = arg_views(list@);
        let arg = ItemArg::new(string_of(src, from, to), description);
        list.push(arg);
        assert(arg_views(list@) =~= before.push(arg@));
        (list, None, end)
    }
}

/// Whether the line that starts at `p` begins with the `n` characters at `from`.
fn begins_with(src: &Vec<char>, p: usize, from: usize, n: usize) -> (b: bool)
    requires
        p <= src.len(),
        from + n <= src.len(),
    ensures
        b == indented(src@, p as int, from as int, n as int),
{
    if n > src.len() - p {
        return false;
    }
    let mut i: usize = 0;
    while i < n
        invariant
            i <= n,
            p + n <= src.len(),
            from + n <= src.len(),
            src@.subrange(p as int, p + i) == src@.subrange(from as int, from + i),
        decreases n - i,
    {
        if src[p + i] != src[from + i] {
            proof {
                assert(src@.subrange(p as int, p + n)[i as int] != src@.subrange(
                    from as int,
                    from + n,
                )[i as int]);
            }
            return false;
        }
        i += 1;
        proof {
            assert(src@.subrange(p as int, p + i) =~= src@.subrange(p as int, p + i - 1).push(
                src@[p + i - 1],
            ));
            assert(src@.subrange(from as int, from + i) =~= src@.subrange(
                from as int,
                from + i - 1,
            ).push(src@[from + i - 1]));
        }
    }
    true
}

/// Whether the line that starts at `p` is blank.
fn is_blank_line(src: &Vec<char>, p: usize) -> (b: bool)
    requires
        p <= src.len(),
    ensures
        b == blank_line(src@, p as int),
{
    let q = after_blanks(src, p);
    break_len(src, q) > 0
}

/// The body of the block whose first line starts at `b`, and where it ends.
fn read_body(src: &Vec<char>, b: usize) -> (out: (String, usize))
    requires
        b <= src.len(),
    ensures
        out.0@ == body_text(src@, b as int),
        out.1 == body_to(src@, b as int),
        b <= out.1 <= src.len(),
{
    proof {
        lemma_body_to(src@, b as int);
    }
    let mut from = b;
    while is_blank_line(src, from)
        invariant
            b <= from <= src.len(),
            first_content(src@, b as int) == first_content(src@, from as int),
        decreases src.len() - from,
    {
        proof {
            lemma_blank_line(src@, from as int);
        }
        from = start_of_next_line(src, from);
    }
    let n = after_blanks(src, from) - from;
    let mut body = String::new();
    if n == 0 {
        return (body, from);
    }
    let mut p = b;
    loop
        invariant
            b <= p <= src.len(),
            from == indent_from(src@, b as int),
            n == indent_len(src@, b as int),
            from + n <= src.len(),
            forall|i: int| from <= i < from + n ==> crate::lexis::is_blank(#[trigger] src@[i]),
            capture(src@, b as int, from as int, n as int) == body@ + capture(
                src@,
                p as int,
                from as int,
                n as int,
            ),
            capture_end(src@, b as int, from as int, n as int) == capture_end(
                src@,
                p as int,
                from as int,
                n as int,
            ),
        ensures
            b <= p <= src.len(),
            capture(src@, b as int, from as int, n as int) == body@,
            capture_end(src@, b as int, from as int, n as int) == p,
        decreases src.len() - p,
    {
        if p >= src.len() {
            break ;
        }
        let shifted = begins_with(src, p, from, n);
        if !(shifted || is_blank_line(src, p)) {
            break ;
        }
        let next = start_of_next_line(src, p);
        proof {
            lemma_line_stop(src@, p as int);
            if shifted {
                lemma_indent_in_line(src@, p as int, from as int, n as int);
            }
        }
        let start = if shifted {
            p + n
        } else {
            p
        };
        let ghost before = body@;
        push_range(&mut body, src, start, next);
        proof {
            let rest = capture(src@, next as int, from as int, n as int);
            let line = line_text(src@, p as int, from as int, n as int);
            assert((before + line) + rest =~= before + (line + rest));
        }
        p = next;
    }
    (body, p)
}

/// A place in the source whose line is known.
pub(crate) struct Anchor {
    pub at: usize,
    pub line: usize,
}

impl Anchor {
    /// Whether `line` is the line of `at` in `s`.
    pub(crate) open spec fn fits(self, s: Seq<char>) -> bool {
        self.at <= s.len() && self.line == line_at(s, self.at as int)
    }
}

/// The line of `to`, counted on from an anchor that precedes it.
fn line_of(src: &Vec<char>, anchor: &Anchor, to: usize) -> (line: usize)
    requires
        anchor.fits(src@),
        anchor.at <= to <= src.len() < usize::MAX,
    ensures
        line == line_at(src@, to as int),
{
    proof {
        lemma_line_at_from(src@, anchor.at as int, to as int);
    }
    anchor.line + count_breaks(src, anchor.at, to)
}

fn fault(expected: Expected, at: usize, item: usize, scope: usize) -> (out: Fault)
    ensures
        out == (Fault { expected, at, item, scope }),
{
    Fault { expected, at, item, scope }
}

/// The keyword of the letters `a`, `b`, `c` stands at `q`.
fn three_at(src: &Vec<char>, q: usize, a: char, b: char, c: char) -> (found: bool)
    requires
        q <= src.len(),
    ensures
        found == (crate::lexis::at(src@, q as int, a) && crate::lexis::at(src@, q + 1, b)
            && crate::lexis::at(src@, q + 2, c)),
{
    holds(src, q, a) && holds(src, q + 1, b) && holds(src, q + 2, c)
}

/// The function that starts at `start`, where reading goes on after it, and
/// the place and line of its body; or what is wrong with it.
fn read_item(src: &Vec<char>, start: usize, anchor: &Anchor) -> (out: Result<
    (Item, usize, Anchor),
    Fault,
>)
    requires
        anchor.fits(src@),
        anchor.at <= start <= src.len() < usize::MAX,
    ensures
        match out {
            Ok((item, end, next)) => {
                &&& item_failure(src@, start as int) is None
                &&& item@ == item_view(src@, start as int)
                &&& end == layout(src@, start as int).end
                &&& start < end <= src.len()
                &&& next.fits(src@)
                &&& next.at <= end
            },
            Err(f) => item_failure(src@, start as int) == Some(f@) && f.at <= src.len(),
        },
{
    let ghost l = layout(src@, start as int);
    proof {
        lemma_layout(src@, start as int);
    }
    let (pre, docs_to) = read_docs(src, start, '>');
    let modifiers = after_filler(src, docs_to);
    let is_pub = three_at(src, modifiers, 'p', 'u', 'b');
    let after_pub = if is_pub {
        after_filler(src, modifiers + 3)
    } else {
        modifiers
    };
    let is_inline = three_at(src, after_pub, 'i', 'n', 'l') && three_at(
        src,
        after_pub + 3,
        'i',
        'n',
        'e',
    );
    let keyword = if is_inline {
        after_filler(src, after_pub + 6)
    } else {
        after_pub
    };
    assert(keyword == l.keyword);
    if !(holds(src, keyword, 'f') && holds(src, keyword + 1, 'n')) {
        return Err(fault(Expected::Keyword, keyword, start, start));
    }
    let name_from = after_filler(src, keyword + 2);
    let name_to = read_name(src, name_from, true);
    if name_to == name_from {
        return Err(fault(Expected::Name, name_from, start, name_from));
    }
    let open_paren = after_filler(src, name_to);
    if !holds(src, open_paren, '(') {
        return Err(fault(Expected::OpenParen, open_paren, start, name_from));
    }
    let (arguments, forward, close_paren) = read_params(src, open_paren + 1);
    if !holds(src, close_paren, ')') {
        return Err(fault(Expected::CloseParen, close_paren, start, name_from));
    }
    let post_from = after_filler(src, close_paren + 1);
    let (post, post_to) = read_docs(src, post_from, '<');
    let open_brace = after_filler(src, post_to);
    if !holds(src, open_brace, '{') {
        return Err(fault(Expected::OpenBrace, open_brace, start, start));
    }
    let comment = after_blanks(src, open_brace + 1);
    let header_to = if comment_starts(src, comment) {
        end_of_line(src, comment)
    } else {
        comment
    };
    let body_from = after_breaks(src, header_to);
    if body_from == header_to {
        return Err(fault(Expected::LineBreak, header_to, start, start));
    }
    let (body, body_to) = read_body(src, body_from);
    let close_brace = after_blanks(src, body_to);
    if !holds(src, close_brace, '}') {
        return Err(fault(Expected::CloseBrace, close_brace, start, body_from));
    }
    let end = after_filler(src, close_brace + 1);
    let line = line_of(src, anchor, body_from);
    let signature = FnSignature::new(string_of(src, name_from, name_to), arguments, forward);
    let item = Item::new(describe_both(pre, post), is_pub, is_inline, signature, body, line);
    Ok((item, end, Anchor { at: body_from, line }))
}

/// Parses `input` into the description of the script and its functions, in
/// source order. A text that does not follow the grammar gives the diagnostic
/// of the first place where it goes wrong, and nothing else.
pub fn parse(input: &str) -> (out: Result<(Description, Vec<Item>), ParseError>)
    ensures
        match out {
            Ok((description, list)) => {
                &&& syntax_error(input@) is None
                &&& description@ == script_view(input@).description
                &&& item_views(list@) == script_view(input@).items
            },
            Err(e) => {
                &&& syntax_error(input@) matches Some(f)
                &&& e@ == syntax_report(input@, f)
                &&& e@.text.len() > 0
            },
        },
{
    let src = to_chars(input);
    let (lines, first) = read_docs(&src, 0, '^');
    let mut groups: Vec<Vec<String>> = Vec::new();
    groups.push(lines);
    assert(groups.deep_view() =~= seq![docs(src@, 0, '^')]);
    let description = Description::new(&groups);
    let mut list: Vec<Item> = Vec::new();
    let mut anchor = Anchor { at: 0, line: 1 };
    let mut p = first;
    assert(src@.take(0) =~= Seq::<char>::empty());
    loop
        invariant
            src@ == input@,
            description@ == script_view(input@).description,
            first == items_from(src@),
            first <= p <= src.len() < usize::MAX,
            anchor.fits(src@),
            anchor.at <= p,
            items(src@, first as int) == item_views(list@) + items(src@, p as int),
            first_failure(src@, first as int) == first_failure(src@, p as int),
        decreases src.len() - p,
    {
        let start = after_filler(&src, p);
        if start >= src.len() {
            assert(items(src@, p as int) =~= Seq::empty());
            assert(item_views(list@) + Seq::<crate::item::ItemView>::empty() =~= item_views(
                list@,
            ));
            return Ok((description, list));
        }
        match read_item(&src, start, &anchor) {
            Err(f) => {
                return Err(ParseError::syntax(input, &src, f));
            },
            Ok((item, end, next)) => {
                let ghost before = item_views(list@);
                let ghost view = item@;
                list.push(item);
                proof {
                    assert(item_views(list@) =~= before.push(view));
                    assert(before.push(view) + items(src@, end as int) =~= before + (seq![view]
                        + items(src@, end as int)));
                }
                anchor = next;
                p = end;
            },
        }
    }
}

} // verus!
