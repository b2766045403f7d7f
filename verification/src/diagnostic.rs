//! What is reported when a source text is no script: where reading stopped,
//! what was expected there, and a trace with an excerpt of the source.

use vstd::prelude::*;
use nom_greedyerror::{convert_error, GreedyError, GreedyErrorKind};
use crate::grammar::{Expected, Failure};
use crate::scanner::count_breaks;
use crate::text::line_at;

verus! {

/// One entry of a trace: a place in the source and what was being read there.
#[derive(Debug)]
pub(crate) struct Frame {
    pub offset: usize,
    pub label: &'static str,
}

/// The places of a trace, in characters from the start of the source.
pub(crate) open spec fn frame_offsets(frames: Seq<Frame>) -> Seq<int> {
    frames.map_values(|f: Frame| f.offset as int)
}

/// The labels of a trace.
pub(crate) open spec fn frame_labels(frames: Seq<Frame>) -> Seq<Seq<char>> {
    frames.map_values(|f: Frame| f.label@)
}

/// The text that `nom_greedyerror::convert_error` gives for a source and a
/// trace whose entries are all contexts. For a source that is not empty it
/// lists, for each entry, its number, its line and its label, then the line of
/// the source and a caret under the column.
pub uninterp spec fn trace_text(input: Seq<char>, offsets: Seq<int>, labels: Seq<Seq<char>>) -> Seq<
    char,
>;

/// Calls `nom_greedyerror::convert_error` on `input` and on one context entry
/// per frame, which points at the character of `input` with the frame's
/// number (at the end of `input` if it has fewer). Believed, not proved: the
/// result depends on the text, the places and the labels alone, which is why
/// it has a name, and since `convert_error` writes at least a heading for
/// every entry, a trace that is not empty gives a text that is not empty.
#[verifier::external_body]
fn render_trace(input: &str, frames: &Vec<Frame>) -> (text: String)
    ensures
        text@ == trace_text(input@, frame_offsets(frames@), frame_labels(frames@)),
        frames@.len() > 0 ==> text@.len() > 0,
{
    let errors = frames.iter().map(|f| {
        let at = input.char_indices().nth(f.offset).map_or(input.len(), |(byte, _)| byte);
        (&input[at..], GreedyErrorKind::Context(f.label))
    }).collect();
    convert_error(input, GreedyError::<&str, ()> { errors })
}

/// The label under which an expected token appears in a trace.
pub open spec fn expected_label(expected: Expected) -> Seq<char> {
    match expected {
        Expected::Keyword => "keyword fn"@,
        Expected::Name => "identifier"@,
        Expected::OpenParen => "opening parenthesis"@,
        Expected::CloseParen => "closing parenthesis"@,
        Expected::OpenBrace => "opening brace"@,
        Expected::LineBreak => "line ending"@,
        Expected::CloseBrace => "closing brace"@,
    }
}

/// The part of a function in which an expected token is missing, where it
/// belongs to one: the signature or the body.
pub open spec fn scope_label(expected: Expected) -> Option<Seq<char>> {
    match expected {
        Expected::Name | Expected::OpenParen | Expected::CloseParen => Some(
            "function signature"@,
        ),
        Expected::CloseBrace => Some("body"@),
        _ => None,
    }
}

/// The places of the trace of a failure, innermost first: the missing token,
/// the signature or body around it if there is one, the function, the script.
pub open spec fn trace_offsets(f: Failure) -> Seq<int> {
    if scope_label(f.expected) is Some {
        seq![f.at, f.scope, f.item, 0]
    } else {
        seq![f.at, f.item, 0]
    }
}

/// The labels of the trace of a failure, innermost first.
pub open spec fn trace_labels(f: Failure) -> Seq<Seq<char>> {
    match scope_label(f.expected) {
        Some(scope) => seq![expected_label(f.expected), scope, "function"@, "script"@],
        None => seq![expected_label(f.expected), "function"@, "script"@],
    }
}

/// Start of the line that holds position `p`.
pub open spec fn line_start(s: Seq<char>, p: int) -> int
    decreases p,
{
    if 0 < p <= s.len() && s[p - 1] != '\n' {
        line_start(s, p - 1)
    } else {
        p
    }
}

/// One-based column of position `p` in its line, counted in characters.
pub open spec fn column_at(s: Seq<char>, p: int) -> int {
    p - line_start(s, p) + 1
}

/// Why a source text was refused.
#[derive(Debug)]
pub enum Cause {
    /// The text does not follow the grammar: at character `offset`, which is
    /// on line `line` in column `column` (both from 1), `expected` is missing.
    Syntax { expected: Expected, offset: usize, line: usize, column: usize },
    /// The text follows the grammar but declares the function `name` twice.
    DuplicateName { name: String },
}

/// What a [`Cause`] holds.
pub ghost enum CauseView {
    Syntax { expected: Expected, offset: int, line: int, column: int },
    DuplicateName { name: Seq<char> },
}

impl View for Cause {
    type V = CauseView;

    open spec fn view(&self) -> CauseView {
        match self {
            Cause::Syntax { expected, offset, line, column } => CauseView::Syntax {
                expected: *expected,
                offset: *offset as int,
                line: *line as int,
                column: *column as int,
            },
            Cause::DuplicateName { name } => CauseView::DuplicateName { name: name@ },
        }
    }
}

/// What a [`ParseError`] holds.
pub ghost struct ErrorView {
    pub text: Seq<char>,
    pub cause: CauseView,
}

/// The one diagnostic of a failed parse.
#[derive(Debug)]
pub struct ParseError {
    text: String,
    cause: Cause,
}

impl View for ParseError {
    type V = ErrorView;

    closed spec fn view(&self) -> ErrorView {
        ErrorView { text: self.text@, cause: self.cause@ }
    }
}

/// What is reported of the failure `f` to read `s`.
pub open spec fn syntax_report(s: Seq<char>, f: Failure) -> ErrorView {
    ErrorView {
        text: trace_text(s, trace_offsets(f), trace_labels(f)),
        cause: CauseView::Syntax {
            expected: f.expected,
            offset: f.at,
            line: line_at(s, f.at) as int,
            column: column_at(s, f.at),
        },
    }
}

/// What is reported of a script that declares `name` twice.
pub open spec fn duplicate_report(name: Seq<char>) -> ErrorView {
    ErrorView {
        text: "function declared more than once: "@ + name,
        cause: CauseView::DuplicateName { name },
    }
}

/// A failure as the parser hands it on: the places are positions in the
/// vector of characters.
#[derive(Clone, Copy, Debug)]
pub struct Fault {
    pub expected: Expected,
    pub at: usize,
    pub item: usize,
    pub scope: usize,
}

impl View for Fault {
    type V = Failure;

    open spec fn view(&self) -> Failure {
        Failure {
            expected: self.expected,
            at: self.at as int,
            item: self.item as int,
            scope: self.scope as int,
        }
    }
}

fn label_of(expected: Expected) -> (label: &'static str)
    ensures
        label@ == expected_label(expected),
{
    match expected {
        Expected::Keyword => "keyword fn",
        Expected::Name => "identifier",
        Expected::OpenParen => "opening parenthesis",
        Expected::CloseParen => "closing parenthesis",
        Expected::OpenBrace => "opening brace",
        Expected::LineBreak => "line ending",
        Expected::CloseBrace => "closing brace",
    }
}

fn scope_of(expected: Expected) -> (label: Option<&'static str>)
    ensures
        match label {
            Some(l) => scope_label(expected) == Some(l@),
            None => scope_label(expected) is None,
        },
{
    match expected {
        Expected::Name | Expected::OpenParen | Expected::CloseParen => Some("function signature"),
        Expected::CloseBrace => Some("body"),
        _ => None,
    }
}

/// Start of the line that holds position `p`.
fn start_of_line(src: &Vec<char>, p: usize) -> (q: usize)
    requires
        p <= src.len(),
    ensures
        q == line_start(src@, p as int),
        q <= p,
{
    let mut q = p;
    while q > 0 && src[q - 1] != '\n'
        invariant
            q <= p <= src.len(),
            line_start(src@, p as int) == line_start(src@, q as int),
        decreases q,
    {
        q -= 1;
    }
    q
}

impl ParseError {
    /// The diagnostic of a text that does not follow the grammar.
    pub(crate) fn syntax(input: &str, src: &Vec<char>, fault: Fault) -> (out: ParseError)
        requires
            src@ == input@,
            fault.at <= src.len() < usize::MAX,
        ensures
            out@ == syntax_report(input@, fault@),
            out@.text.len() > 0,
    {
        let mut frames: Vec<Frame> = Vec::new();
        frames.push(Frame { offset: fault.at, label: label_of(fault.expected) });
        match scope_of(fault.expected) {
            Some(label) => {
                frames.push(Frame { offset: fault.scope, label });
            },
            None => {},
        }
        frames.push(Frame { offset: fault.item, label: "function" });
        frames.push(Frame { offset: 0, label: "script" });
        proof {
            assert(frame_offsets(frames@) =~= trace_offsets(fault@));
            assert(frame_labels(frames@) =~= trace_labels(fault@));
        }
        let text = render_trace(input, &frames);
        let breaks = count_breaks(src, 0, fault.at);
        proof {
            assert(src@.subrange(0, fault.at as int) =~= src@.take(fault.at as int));
        }
        let line = breaks + 1;
        let column = fault.at - start_of_line(src, fault.at) + 1;
        ParseError {
            text,
            cause: Cause::Syntax { expected: fault.expected, offset: fault.at, line, column },
        }
    }

    /// The diagnostic of a script that declares the function `name` twice.
    pub(crate) fn duplicate(name: &str) -> (out: ParseError)
        ensures
            out@ == duplicate_report(name@),
            out@.text.len() > 0,
    {
        let mut text = "function declared more than once: ".to_owned();
        proof {
            reveal_strlit("function declared more than once: ");
        }
        vstd::string::StringExecFns::append(&mut text, name);
        ParseError { text, cause: Cause::DuplicateName { name: name.to_owned() } }
    }

    /// The diagnostic as text.
    pub fn text(&self) -> (out: &str)
        ensures
            out@ == self@.text,
    {
        self.text.as_str()
    }

    /// Why the source was refused.
    pub fn cause(&self) -> (out: &Cause)
        ensures
            out@ == self@.cause,
    {
        &self.cause
    }
}

} // verus!
