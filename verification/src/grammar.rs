//! The grammar of the dialect: what a source text means, or where it stops
//! making sense. Everything here is a function of the text and a position.
//!
//! ```text
//! script   := doc('^')* item* END
//! item     := doc('>')* "pub"? "inline"? "fn" name "(" arg* last? ")" doc('<')* block
//! arg      := doc('>')* name "," doc('<')*
//! last     := doc('>')* (name | "$@") ","? doc('<')*
//! block    := "{" blanks comment? line-ending+ body blanks "}"
//! ```
//!
//! White space and ordinary comments may stand between any two tokens but
//! inside an argument up to its comma.

use vstd::prelude::*;
use crate::description::{describe, DescriptionView};
use crate::lexis::{
    at, docs, docs_end, is_blank, lemma_docs_end, lemma_line_stop, lemma_name_end,
    lemma_skip_blanks, lemma_skip_breaks, lemma_skip_filler, line_break, line_stop, name_end,
    next_line, skip_blanks, skip_breaks, skip_filler, comment_at,
};
use crate::item::{ArgView, ItemView, SignatureView};
use crate::script::ScriptView;
use crate::text::line_at;

verus! {

/// Where the name of the argument that is read from `p` starts: after white
/// space and the doc comments that precede it.
pub open spec fn arg_name_from(s: Seq<char>, p: int) -> int {
    docs_end(s, skip_filler(s, p), '>')
}

/// Where the name of the argument that is read from `p` ends.
pub open spec fn arg_name_to(s: Seq<char>, p: int) -> int {
    name_end(s, arg_name_from(s, p), false)
}

/// Whether an argument that ends in a comma can be read from `p`.
pub open spec fn arg_here(s: Seq<char>, p: int) -> bool {
    arg_name_to(s, p) > arg_name_from(s, p) && at(s, arg_name_to(s, p), ',')
}

/// Where reading goes on after the argument read from `p`.
pub open spec fn arg_end(s: Seq<char>, p: int) -> int {
    skip_filler(s, docs_end(s, arg_name_to(s, p) + 1, '<'))
}

/// The argument read from `p`: its name, and the doc comments before the name
/// and after the comma.
pub open spec fn arg_view(s: Seq<char>, p: int) -> ArgView {
    ArgView {
        name: s.subrange(arg_name_from(s, p), arg_name_to(s, p)),
        description: describe(seq![docs(s, p, '>'), docs(s, arg_name_to(s, p) + 1, '<')]),
    }
}

/// The arguments that end in a comma, read one after another from `p`.
pub open spec fn args(s: Seq<char>, p: int) -> Seq<ArgView>
    decreases s.len() - p,
{
    if 0 <= p <= s.len() && arg_here(s, p) {
        proof {
            lemma_arg_end(s, p);
        }
        seq![arg_view(s, p)] + args(s, arg_end(s, p))
    } else {
        Seq::empty()
    }
}

/// Where the arguments that [`args`] reads end.
pub open spec fn args_end(s: Seq<char>, p: int) -> int
    decreases s.len() - p,
{
    if 0 <= p <= s.len() && arg_here(s, p) {
        proof {
            lemma_arg_end(s, p);
        }
        args_end(s, arg_end(s, p))
    } else {
        p
    }
}

/// Whether the marker that forwards all remaining arguments stands at `q`.
pub open spec fn forward_at(s: Seq<char>, q: int) -> bool {
    at(s, q, '$') && at(s, q + 1, '@')
}

/// Whether the last argument read from `p` is the forward marker. A name is
/// tried first, so the marker is met only where no name starts.
pub open spec fn last_forwards(s: Seq<char>, p: int) -> bool {
    arg_name_to(s, p) == arg_name_from(s, p) && forward_at(s, arg_name_from(s, p))
}

/// Where the name or marker of the last argument read from `p` ends.
pub open spec fn last_name_to(s: Seq<char>, p: int) -> int {
    if last_forwards(s, p) {
        arg_name_from(s, p) + 2
    } else {
        arg_name_to(s, p)
    }
}

/// Whether a last argument, which needs no comma, can be read from `p`.
pub open spec fn last_here(s: Seq<char>, p: int) -> bool {
    last_name_to(s, p) > arg_name_from(s, p)
}

/// Where the doc comments after the last argument read from `p` start: after
/// its name and the comma, if there is one.
pub open spec fn last_post_from(s: Seq<char>, p: int) -> int {
    if at(s, last_name_to(s, p), ',') {
        last_name_to(s, p) + 1
    } else {
        last_name_to(s, p)
    }
}

/// Where reading goes on after the last argument read from `p`.
pub open spec fn last_end(s: Seq<char>, p: int) -> int {
    skip_filler(s, docs_end(s, last_post_from(s, p), '<'))
}

/// The description of the last argument read from `p`.
pub open spec fn last_description(s: Seq<char>, p: int) -> DescriptionView {
    describe(seq![docs(s, p, '>'), docs(s, last_post_from(s, p), '<')])
}

/// Where the closing parenthesis is due when the arguments start at `p`.
pub open spec fn params_end(s: Seq<char>, p: int) -> int {
    let q = args_end(s, p);
    if last_here(s, q) {
        last_end(s, q)
    } else {
        q
    }
}

/// The arguments of the list that starts at `p` which are bound to a
/// variable: those that end in a comma, then the last one if it is a name.
pub open spec fn bound_args(s: Seq<char>, p: int) -> Seq<ArgView> {
    let q = args_end(s, p);
    if last_here(s, q) && !last_forwards(s, q) {
        args(s, p).push(
            ArgView {
                name: s.subrange(arg_name_from(s, q), last_name_to(s, q)),
                description: last_description(s, q),
            },
        )
    } else {
        args(s, p)
    }
}

/// The description of the forward marker of the list that starts at `p`, if
/// the list ends in one.
pub open spec fn forward_of(s: Seq<char>, p: int) -> Option<DescriptionView> {
    let q = args_end(s, p);
    if last_here(s, q) && last_forwards(s, q) {
        Some(last_description(s, q))
    } else {
        None
    }
}

/// Whether the line that starts at `p` holds nothing but blanks before its
/// line ending.
pub open spec fn blank_line(s: Seq<char>, p: int) -> bool {
    line_break(s, skip_blanks(s, p)) > 0
}

/// Start of the first line at or after the line start `p` that is not blank.
pub open spec fn first_content(s: Seq<char>, p: int) -> int
    decreases s.len() - p,
{
    if 0 <= p <= s.len() && blank_line(s, p) {
        proof {
            lemma_blank_line(s, p);
        }
        first_content(s, next_line(s, p))
    } else {
        p
    }
}

/// Whether the line that starts at `p` begins with the `n` characters that
/// stand at `from`.
pub open spec fn indented(s: Seq<char>, p: int, from: int, n: int) -> bool {
    p + n <= s.len() && s.subrange(p, p + n) == s.subrange(from, from + n)
}

/// Whether the line that starts at `p` belongs to a body whose indent is the
/// `n` characters at `from`: it is blank, or it begins with the indent.
pub open spec fn captured(s: Seq<char>, p: int, from: int, n: int) -> bool {
    0 <= p < s.len() && (blank_line(s, p) || indented(s, p, from, n))
}

/// Where the lines that belong to the body end, reading from the line start `p`.
pub open spec fn capture_end(s: Seq<char>, p: int, from: int, n: int) -> int
    decreases s.len() - p,
{
    if captured(s, p, from, n) {
        proof {
            lemma_line_stop(s, p);
        }
        capture_end(s, next_line(s, p), from, n)
    } else {
        p
    }
}

/// What the line that starts at `p` adds to the body: the line with its
/// ending, without the indent where it begins with it.
pub open spec fn line_text(s: Seq<char>, p: int, from: int, n: int) -> Seq<char> {
    if indented(s, p, from, n) {
        s.subrange(p + n, next_line(s, p))
    } else {
        s.subrange(p, next_line(s, p))
    }
}

/// The text of the lines that belong to the body, reading from the line start `p`.
pub open spec fn capture(s: Seq<char>, p: int, from: int, n: int) -> Seq<char>
    decreases s.len() - p,
{
    if captured(s, p, from, n) {
        proof {
            lemma_line_stop(s, p);
        }
        line_text(s, p, from, n) + capture(s, next_line(s, p), from, n)
    } else {
        Seq::empty()
    }
}

/// Where the indent of the block whose first line starts at `b` stands: at
/// the start of its first line that is not blank.
pub open spec fn indent_from(s: Seq<char>, b: int) -> int {
    first_content(s, b)
}

/// Length of the indent of the block whose first line starts at `b`: the
/// blanks that lead its first line that is not blank.
pub open spec fn indent_len(s: Seq<char>, b: int) -> int {
    skip_blanks(s, indent_from(s, b)) - indent_from(s, b)
}

/// Where the body of the block whose first line starts at `b` ends. Without
/// an indent the block has no body, and its blank lines are passed over.
pub open spec fn body_to(s: Seq<char>, b: int) -> int {
    if indent_len(s, b) == 0 {
        indent_from(s, b)
    } else {
        capture_end(s, b, indent_from(s, b), indent_len(s, b))
    }
}

/// The body of the block whose first line starts at `b`: its lines up to the
/// first that is neither blank nor indented, each without the indent.
pub open spec fn body_text(s: Seq<char>, b: int) -> Seq<char> {
    if indent_len(s, b) == 0 {
        Seq::empty()
    } else {
        capture(s, b, indent_from(s, b), indent_len(s, b))
    }
}

/// The places of the parts of the function that is read from `start`, each
/// found from the one before it whether or not the function is well formed.
pub ghost struct Layout {
    /// Where the function starts.
    pub start: int,
    pub is_pub: bool,
    pub is_inline: bool,
    /// Where `fn` is due.
    pub keyword: int,
    /// Where the name is due.
    pub name_from: int,
    pub name_to: int,
    /// Where `(` is due.
    pub open_paren: int,
    /// Where `)` is due.
    pub close_paren: int,
    /// Where the doc comments after the signature start.
    pub post_from: int,
    /// Where `{` is due.
    pub open_brace: int,
    /// Where the line ending that opens the block is due.
    pub header_to: int,
    /// Where the first line of the block starts.
    pub body_from: int,
    /// Where the body ends.
    pub body_to: int,
    /// Where `}` is due.
    pub close_brace: int,
    /// Where reading goes on after the function.
    pub end: int,
}

/// Where reading goes on after the keyword at `q`, if it stands there: after
/// the `len` characters of the keyword and what filler follows them.
pub open spec fn after_keyword(s: Seq<char>, q: int, found: bool, len: int) -> int {
    if found {
        skip_filler(s, q + len)
    } else {
        q
    }
}

/// Whether `pub` stands at `q`.
pub open spec fn pub_at(s: Seq<char>, q: int) -> bool {
    at(s, q, 'p') && at(s, q + 1, 'u') && at(s, q + 2, 'b')
}

/// Whether `inline` stands at `q`.
pub open spec fn inline_at(s: Seq<char>, q: int) -> bool {
    at(s, q, 'i') && at(s, q + 1, 'n') && at(s, q + 2, 'l') && at(s, q + 3, 'i') && at(
        s,
        q + 4,
        'n',
    ) && at(s, q + 5, 'e')
}

/// Whether `fn` stands at `q`.
pub open spec fn fn_at(s: Seq<char>, q: int) -> bool {
    at(s, q, 'f') && at(s, q + 1, 'n')
}

/// Where the comment that may follow `{` on its line ends; `p` where none starts.
pub open spec fn header_comment_end(s: Seq<char>, p: int) -> int {
    if comment_at(s, p) {
        line_stop(s, p)
    } else {
        p
    }
}

/// The layout of the function that is read from `start`.
pub open spec fn layout(s: Seq<char>, start: int) -> Layout {
    let modifiers = skip_filler(s, docs_end(s, start, '>'));
    let is_pub = pub_at(s, modifiers);
    let after_pub = after_keyword(s, modifiers, is_pub, 3);
    let is_inline = inline_at(s, after_pub);
    let keyword = after_keyword(s, after_pub, is_inline, 6);
    let name_from = skip_filler(s, keyword + 2);
    let name_to = name_end(s, name_from, true);
    let open_paren = skip_filler(s, name_to);
    let close_paren = params_end(s, open_paren + 1);
    let post_from = skip_filler(s, close_paren + 1);
    let open_brace = skip_filler(s, docs_end(s, post_from, '<'));
    let header_to = header_comment_end(s, skip_blanks(s, open_brace + 1));
    let body_from = skip_breaks(s, header_to);
    let close_brace = skip_blanks(s, body_to(s, body_from));
    Layout {
        start,
        is_pub,
        is_inline,
        keyword,
        name_from,
        name_to,
        open_paren,
        close_paren,
        post_from,
        open_brace,
        header_to,
        body_from,
        body_to: body_to(s, body_from),
        close_brace,
        end: skip_filler(s, close_brace + 1),
    }
}

/// What the parser looked for where it gave up.
#[derive(Clone, Copy, Debug, PartialEq, Eq, Structural)]
pub enum Expected {
    /// The keyword `fn`.
    Keyword,
    /// The name of a function.
    Name,
    /// The `(` that opens the parameters.
    OpenParen,
    /// The `)` that closes the parameters.
    CloseParen,
    /// The `{` that opens the block.
    OpenBrace,
    /// The line ending after `{`.
    LineBreak,
    /// The `}` that closes the block.
    CloseBrace,
}

/// Where and why a source text stops being a script.
pub ghost struct Failure {
    pub expected: Expected,
    /// Where the expected token is missing.
    pub at: int,
    /// Where the function starts in which it is missing.
    pub item: int,
    /// Where the signature or the body starts in which it is missing; `item`
    /// for a token that belongs to neither.
    pub scope: int,
}

/// The first thing that is wrong with the function read from `start`, if any.
pub open spec fn item_failure(s: Seq<char>, start: int) -> Option<Failure> {
    let l = layout(s, start);
    if !fn_at(s, l.keyword) {
        Some(Failure { expected: Expected::Keyword, at: l.keyword, item: start, scope: start })
    } else if l.name_to == l.name_from {
        Some(
            Failure { expected: Expected::Name, at: l.name_from, item: start, scope: l.name_from },
        )
    } else if !at(s, l.open_paren, '(') {
        Some(
            Failure {
                expected: Expected::OpenParen,
                at: l.open_paren,
                item: start,
                scope: l.name_from,
            },
        )
    } else if !at(s, l.close_paren, ')') {
        Some(
            Failure {
                expected: Expected::CloseParen,
                at: l.close_paren,
                item: start,
                scope: l.name_from,
            },
        )
    } else if !at(s, l.open_brace, '{') {
        Some(
            Failure { expected: Expected::OpenBrace, at: l.open_brace, item: start, scope: start },
        )
    } else if l.body_from == l.header_to {
        Some(
            Failure { expected: Expected::LineBreak, at: l.header_to, item: start, scope: start },
        )
    } else if !at(s, l.close_brace, '}') {
        Some(
            Failure {
                expected: Expected::CloseBrace,
                at: l.close_brace,
                item: start,
                scope: l.body_from,
            },
        )
    } else {
        None
    }
}

/// The function read from `start`, where [`item_failure`] finds nothing wrong.
pub open spec fn item_view(s: Seq<char>, start: int) -> ItemView {
    let l = layout(s, start);
    ItemView {
        description: describe(seq![docs(s, start, '>'), docs(s, l.post_from, '<')]),
        is_pub: l.is_pub,
        is_inline: l.is_inline,
        signature: SignatureView {
            name: s.subrange(l.name_from, l.name_to),
            args: bound_args(s, l.open_paren + 1),
            forward: forward_of(s, l.open_paren + 1),
        },
        body: body_text(s, l.body_from),
        body_line: line_at(s, l.body_from),
    }
}

/// The functions read one after another from `p`, up to the end of the text
/// or the first one that is not well formed.
pub open spec fn items(s: Seq<char>, p: int) -> Seq<ItemView>
    decreases s.len() - p,
{
    let q = skip_filler(s, p);
    if 0 <= p <= q < s.len() && item_failure(s, q) is None {
        proof {
            lemma_layout(s, q);
        }
        seq![item_view(s, q)] + items(s, layout(s, q).end)
    } else {
        Seq::empty()
    }
}

/// What is wrong with the first function from `p` on that is not well formed.
pub open spec fn first_failure(s: Seq<char>, p: int) -> Option<Failure>
    decreases s.len() - p,
{
    let q = skip_filler(s, p);
    if 0 <= p <= q < s.len() {
        if item_failure(s, q) is None {
            proof {
                lemma_layout(s, q);
            }
            first_failure(s, layout(s, q).end)
        } else {
            item_failure(s, q)
        }
    } else {
        None
    }
}

/// Where the functions of `s` start: after the doc comments of the script.
pub open spec fn items_from(s: Seq<char>) -> int {
    docs_end(s, 0, '^')
}

/// Why `s` is no script, if it is none.
pub open spec fn syntax_error(s: Seq<char>) -> Option<Failure> {
    first_failure(s, items_from(s))
}

/// The script that `s` holds, where [`syntax_error`] finds nothing wrong.
pub open spec fn script_view(s: Seq<char>) -> ScriptView {
    ScriptView { description: describe(seq![docs(s, 0, '^')]), items: items(s, items_from(s)) }
}

/// The parts of an argument follow each other in the text, and an argument
/// that ends in a comma is not empty.
pub proof fn lemma_arg_end(s: Seq<char>, p: int)
    requires
        0 <= p <= s.len(),
    ensures
        p <= skip_filler(s, p) <= arg_name_from(s, p) <= arg_name_to(s, p) <= s.len(),
        arg_here(s, p) ==> arg_name_to(s, p) < arg_end(s, p) <= s.len(),
        arg_here(s, p) ==> arg_name_to(s, p) + 1 <= docs_end(s, arg_name_to(s, p) + 1, '<')
            <= arg_end(s, p),
{
    lemma_skip_filler(s, p);
    lemma_docs_end(s, skip_filler(s, p), '>');
    lemma_name_end(s, arg_name_from(s, p), false);
    if arg_here(s, p) {
        lemma_docs_end(s, arg_name_to(s, p) + 1, '<');
        lemma_skip_filler(s, docs_end(s, arg_name_to(s, p) + 1, '<'));
    }
}

/// Arguments end within the text.
pub(crate) proof fn lemma_args_end(s: Seq<char>, p: int)
    requires
        0 <= p <= s.len(),
    ensures
        p <= args_end(s, p) <= s.len(),
    decreases s.len() - p,
{
    if arg_here(s, p) {
        lemma_arg_end(s, p);
        lemma_args_end(s, arg_end(s, p));
    }
}

/// The parts of a last argument follow each other in the text.
pub(crate) proof fn lemma_last_end(s: Seq<char>, p: int)
    requires
        0 <= p <= s.len(),
    ensures
        arg_name_from(s, p) <= last_name_to(s, p) <= last_post_from(s, p) <= docs_end(
            s,
            last_post_from(s, p),
            '<',
        ) <= last_end(s, p) <= s.len(),
{
    lemma_arg_end(s, p);
    lemma_docs_end(s, last_post_from(s, p), '<');
    lemma_skip_filler(s, docs_end(s, last_post_from(s, p), '<'));
}

/// Parameters end within the text.
pub(crate) proof fn lemma_params_end(s: Seq<char>, p: int)
    requires
        0 <= p <= s.len(),
    ensures
        p <= params_end(s, p) <= s.len(),
{
    lemma_args_end(s, p);
    lemma_last_end(s, args_end(s, p));
    lemma_arg_end(s, args_end(s, p));
}

/// A blank line ends in a line feed, before which it holds only blanks and
/// carriage returns.
pub proof fn lemma_blank_line(s: Seq<char>, p: int)
    requires
        0 <= p <= s.len(),
        blank_line(s, p),
    ensures
        p < next_line(s, p) <= s.len(),
        skip_blanks(s, p) <= line_stop(s, p) < s.len(),
        forall|i: int| p <= i < line_stop(s, p) ==> is_blank(#[trigger] s[i]) || s[i] == '\r',
{
    lemma_skip_blanks(s, p);
    lemma_line_stop(s, p);
    let q = skip_blanks(s, p);
    crate::lexis::lemma_line_stop_from(s, p, q);
    if s[q] != '\n' {
        assert(line_stop(s, q) == line_stop(s, q + 1));
    }
}

/// The first line with content is not blank.
pub(crate) proof fn lemma_first_content(s: Seq<char>, p: int)
    requires
        0 <= p <= s.len(),
    ensures
        p <= first_content(s, p) <= s.len(),
        !blank_line(s, first_content(s, p)),
    decreases s.len() - p,
{
    if blank_line(s, p) {
        lemma_blank_line(s, p);
        lemma_first_content(s, next_line(s, p));
    }
}

/// A body ends within the text, at a line that does not belong to it.
pub(crate) proof fn lemma_capture_end(s: Seq<char>, p: int, from: int, n: int)
    requires
        0 <= p <= s.len(),
    ensures
        p <= capture_end(s, p, from, n) <= s.len(),
        !captured(s, capture_end(s, p, from, n), from, n),
    decreases s.len() - p,
{
    if captured(s, p, from, n) {
        lemma_line_stop(s, p);
        lemma_capture_end(s, next_line(s, p), from, n);
    }
}

/// The comment after `{` ends within the text.
pub(crate) proof fn lemma_header_comment_end(s: Seq<char>, p: int)
    requires
        0 <= p <= s.len(),
    ensures
        p <= header_comment_end(s, p) <= s.len(),
{
    lemma_line_stop(s, p);
}

/// The parts of a function follow each other in the text, and a function
/// that is well formed is not empty.
pub proof fn lemma_layout(s: Seq<char>, start: int)
    requires
        0 <= start <= s.len(),
    ensures
        ({
            let l = layout(s, start);
            &&& start <= l.keyword <= s.len()
            &&& item_failure(s, start) is None ==> {
                &&& l.keyword + 2 <= l.name_from < l.name_to <= l.open_paren < l.close_paren
                    < l.post_from <= l.open_brace < l.header_to < l.body_from <= l.body_to
                    <= l.close_brace < l.end <= s.len()
            }
        }),
{
    let l = layout(s, start);
    lemma_docs_end(s, start, '>');
    let modifiers = skip_filler(s, docs_end(s, start, '>'));
    lemma_skip_filler(s, docs_end(s, start, '>'));
    let after_pub = after_keyword(s, modifiers, l.is_pub, 3);
    if l.is_pub {
        lemma_skip_filler(s, modifiers + 3);
    }
    if l.is_inline {
        lemma_skip_filler(s, after_pub + 6);
    }
    if item_failure(s, start) is None {
        lemma_skip_filler(s, l.keyword + 2);
        lemma_name_end(s, l.name_from, true);
        lemma_skip_filler(s, l.name_to);
        lemma_params_end(s, l.open_paren + 1);
        lemma_skip_filler(s, l.close_paren + 1);
        lemma_docs_end(s, l.post_from, '<');
        lemma_skip_filler(s, docs_end(s, l.post_from, '<'));
        lemma_skip_blanks(s, l.open_brace + 1);
        lemma_header_comment_end(s, skip_blanks(s, l.open_brace + 1));
        lemma_skip_breaks(s, l.header_to);
        lemma_body_to(s, l.body_from);
        lemma_skip_blanks(s, l.body_to);
        lemma_skip_filler(s, l.close_brace + 1);
    }
}

/// The indent of a block is made of blanks, and the body ends at or behind
/// the line that gave the indent.
pub(crate) proof fn lemma_body_to(s: Seq<char>, b: int)
    requires
        0 <= b <= s.len(),
    ensures
        b <= indent_from(s, b) <= body_to(s, b) <= s.len(),
        0 <= indent_len(s, b),
        indent_from(s, b) + indent_len(s, b) <= s.len(),
        forall|i: int|
            indent_from(s, b) <= i < indent_from(s, b) + indent_len(s, b) ==> is_blank(
                #[trigger] s[i],
            ),
{
    lemma_first_content(s, b);
    lemma_skip_blanks(s, indent_from(s, b));
    lemma_capture_end(s, b, indent_from(s, b), indent_len(s, b));
    if indent_len(s, b) != 0 {
        lemma_capture_reaches(s, b, indent_from(s, b), indent_len(s, b));
    }
}

/// A line that begins with the indent holds it before its line feed.
pub(crate) proof fn lemma_indent_in_line(s: Seq<char>, p: int, from: int, n: int)
    requires
        0 <= p,
        0 <= n,
        0 <= from,
        from + n <= s.len(),
        indented(s, p, from, n),
        forall|i: int| from <= i < from + n ==> is_blank(#[trigger] s[i]),
    ensures
        p + n <= line_stop(s, p),
{
    assert forall|i: int| p <= i < p + n implies #[trigger] s[i] != '\n' by {
        assert(s.subrange(p, p + n)[i - p] == s.subrange(from, from + n)[i - p]);
        assert(is_blank(s[from + (i - p)]));
    }
    crate::lexis::lemma_line_stop_from(s, p, p + n);
    lemma_line_stop(s, p + n);
}

/// The lines that belong to a body reach at least to the line that gave the
/// indent: the lines before it are blank.
pub(crate) proof fn lemma_capture_reaches(s: Seq<char>, p: int, from: int, n: int)
    requires
        0 <= p <= s.len(),
        from == first_content(s, p),
    ensures
        from <= capture_end(s, p, from, n),
    decreases s.len() - p,
{
    if blank_line(s, p) {
        lemma_blank_line(s, p);
        lemma_capture_reaches(s, next_line(s, p), from, n);
    } else {
        lemma_capture_end(s, p, from, n);
    }
}

} // verus!
