//! Why the lines of a rendered script are those of its source: the functions
//! that the grammar reads follow each other line by line, and the renderer
//! pads each definition up to the line of its body.

use vstd::prelude::*;
use crate::grammar::{
    arg_end, arg_name_from, args, args_end, body_text, body_to, bound_args, capture, capture_end,
    captured, indent_from, indent_len, indented, item_failure, item_view, items, layout,
    lemma_arg_end, lemma_args_end, lemma_body_to, lemma_indent_in_line, lemma_layout, line_text,
};
use crate::item::ItemView;
use crate::lexis::{
    is_blank, is_name, lemma_line_stop, lemma_name_end, lemma_skip_breaks, lemma_skip_filler,
    line_break, next_line, skip_filler,
};
use crate::render::{
    body_offset, definition, fits_after, gap, item_text, lemma_definition_lines, named, padding,
    renderable, rendered,
};
use crate::text::{
    lemma_line_at_from, lemma_newlines_bound, lemma_newlines_concat, line_at, newlines,
};

verus! {

/// The first line on which the body of function `k` may start: the second
/// line of the text for the first function, and for any other the line after
/// the last line of the body before it.
pub open spec fn floor_line(items: Seq<ItemView>, k: int) -> int {
    if k <= 0 {
        2
    } else {
        (items[k - 1].body_line + newlines(items[k - 1].body) + 1) as int
    }
}

/// Whether function `k` has proper names and its body starts on or below
/// its [`floor_line`].
pub open spec fn in_order(items: Seq<ItemView>, k: int) -> bool {
    named(items[k]) && items[k].body_line >= floor_line(items, k)
}

/// Whether the functions follow each other as they do in a source text.
pub open spec fn ordered(items: Seq<ItemView>) -> bool {
    forall|k: int| 0 <= k < items.len() ==> #[trigger] in_order(items, k)
}

/// Number of line feeds in the rendered text up to and with function `k`.
pub open spec fn lines_through(items: Seq<ItemView>, k: int) -> int {
    if k < 0 {
        0
    } else if items[k].body.len() == 0 {
        items[k].body_line - 2
    } else {
        items[k].body_line - 1 + newlines(items[k].body)
    }
}

/// Padding holds as many line feeds as it is long.
pub(crate) proof fn lemma_padding_lines(n: int)
    requires
        0 <= n,
    ensures
        newlines(padding(n)) == n,
    decreases n,
{
    if n > 0 {
        lemma_padding_lines(n - 1);
        assert(padding(n).drop_last() =~= padding(n - 1));
    }
}

/// Functions in order can be rendered, and the rendered text of the first
/// `k` of them holds the line feeds that [`lines_through`] counts.
pub(crate) proof fn lemma_rendered_lines(items: Seq<ItemView>, k: int)
    requires
        ordered(items),
        0 <= k <= items.len(),
    ensures
        newlines(rendered(items.take(k))) == lines_through(items, k - 1),
        k < items.len() ==> fits_after(items, k),
    decreases k,
{
    if k > 0 {
        lemma_rendered_lines(items, k - 1);
        let item = items[k - 1];
        let before = rendered(items.take(k - 1));
        assert(items.take(k).drop_last() =~= items.take(k - 1));
        assert(items.take(k).last() == item);
        assert(in_order(items, k - 1));
        assert(fits_after(items, k - 1));
        let count = newlines(before) as int;
        lemma_padding_lines(gap(item, count));
        lemma_definition_lines(item);
        lemma_newlines_concat(padding(gap(item, count)), definition(item));
        lemma_newlines_concat(before, item_text(item, count));
    }
    if k < items.len() {
        assert(in_order(items, k));
    }
}

/// Functions that follow each other as in a source text can be rendered.
pub proof fn lemma_ordered_renderable(items: Seq<ItemView>)
    requires
        ordered(items),
    ensures
        renderable(items),
{
    assert forall|k: int| 0 <= k < items.len() implies #[trigger] fits_after(items, k) by {
        lemma_rendered_lines(items, k);
    }
}

/// Where the body of function `k` starts in the rendered text.
pub open spec fn body_start(items: Seq<ItemView>, k: int) -> int {
    rendered(items.take(k)).len() + gap(items[k], newlines(rendered(items.take(k))) as int)
        + body_offset(items[k])
}

/// The rendered text of the first `k` functions opens the rendered text of all.
pub(crate) proof fn lemma_rendered_prefix(items: Seq<ItemView>, k: int)
    requires
        0 <= k <= items.len(),
    ensures
        rendered(items.take(k)).len() <= rendered(items).len(),
        rendered(items).take(rendered(items.take(k)).len() as int) == rendered(items.take(k)),
    decreases items.len() - k,
{
    if k == items.len() {
        assert(items.take(k) =~= items);
        assert(rendered(items).take(rendered(items).len() as int) =~= rendered(items));
    } else {
        lemma_rendered_prefix(items, k + 1);
        assert(items.take(k + 1).drop_last() =~= items.take(k));
        let longer = rendered(items.take(k + 1));
        let shorter = rendered(items.take(k));
        assert(longer.take(shorter.len() as int) =~= shorter);
        assert(rendered(items).take(shorter.len() as int) =~= rendered(items).take(
            longer.len() as int,
        ).take(shorter.len() as int));
    }
}

/// Line alignment of the renderer: in the rendered text of functions that
/// follow each other as in a source text, the body of every function that has
/// one stands unchanged, and starts on the line that the function records as
/// the line of its body.
pub proof fn lemma_body_on_its_line(items: Seq<ItemView>, k: int)
    requires
        ordered(items),
        0 <= k < items.len(),
        items[k].body.len() > 0,
    ensures
        0 <= body_start(items, k),
        body_start(items, k) + items[k].body.len() <= rendered(items).len(),
        rendered(items).subrange(body_start(items, k), body_start(items, k) + items[k].body.len())
            == items[k].body,
        line_at(rendered(items), body_start(items, k)) == items[k].body_line,
{
    let item = items[k];
    let before = rendered(items.take(k));
    let count = newlines(before) as int;
    let pad = padding(gap(item, count));
    let through = rendered(items.take(k + 1));
    lemma_rendered_lines(items, k);
    lemma_rendered_prefix(items, k + 1);
    assert(items.take(k + 1).drop_last() =~= items.take(k));
    assert(items.take(k + 1).last() == item);
    assert(through == before + (pad + definition(item)));
    assert(in_order(items, k));
    lemma_definition_lines(item);
    lemma_padding_lines(gap(item, count));
    let start = body_start(items, k);
    let head = definition(item).take(body_offset(item));
    assert(through.take(start) =~= before + pad + head);
    lemma_newlines_concat(before, pad);
    lemma_newlines_concat(before + pad, head);
    assert(rendered(items).take(start) =~= through.take(start));
    assert(rendered(items).subrange(start, start + item.body.len()) =~= through.subrange(
        start,
        start + item.body.len(),
    ));
    assert(through.subrange(start, start + item.body.len()) =~= definition(item).subrange(
        body_offset(item),
        body_offset(item) + item.body.len(),
    ));
}

/// The lines that a body keeps hold no more line feeds than the part of the
/// source that they were taken from.
proof fn lemma_capture_lines(s: Seq<char>, p: int, from: int, n: int)
    requires
        0 <= p <= s.len(),
        0 <= n,
        0 <= from,
        from + n <= s.len(),
        forall|i: int| from <= i < from + n ==> is_blank(#[trigger] s[i]),
    ensures
        p <= capture_end(s, p, from, n) <= s.len(),
        newlines(capture(s, p, from, n)) <= newlines(
            s.subrange(p, capture_end(s, p, from, n)),
        ),
    decreases s.len() - p,
{
    if captured(s, p, from, n) {
        lemma_line_stop(s, p);
        let next = next_line(s, p);
        lemma_capture_lines(s, next, from, n);
        let end = capture_end(s, next, from, n);
        let line = line_text(s, p, from, n);
        assert(s.subrange(p, end) =~= s.subrange(p, next) + s.subrange(next, end));
        lemma_newlines_concat(s.subrange(p, next), s.subrange(next, end));
        lemma_newlines_concat(line, capture(s, next, from, n));
        if indented(s, p, from, n) {
            lemma_indent_in_line(s, p, from, n);
            assert(s.subrange(p, next) =~= s.subrange(p, p + n) + line);
            lemma_newlines_concat(s.subrange(p, p + n), line);
        }
    } else {
        assert(s.subrange(p, p) =~= Seq::<char>::empty());
    }
}

/// The body of a block holds no more line feeds than the part of the source
/// between its first line and its end.
pub(crate) proof fn lemma_body_lines(s: Seq<char>, b: int)
    requires
        0 <= b <= s.len(),
    ensures
        b <= body_to(s, b) <= s.len(),
        newlines(body_text(s, b)) <= newlines(s.subrange(b, body_to(s, b))),
{
    lemma_body_to(s, b);
    if indent_len(s, b) != 0 {
        lemma_capture_lines(s, b, indent_from(s, b), indent_len(s, b));
    }
}

/// Text that holds a line feed counts at least one.
proof fn lemma_has_line(s: Seq<char>, i: int)
    requires
        0 <= i < s.len(),
        s[i] == '\n',
    ensures
        newlines(s) >= 1,
{
    assert(s =~= s.take(i) + seq![s[i]] + s.skip(i + 1));
    lemma_newlines_concat(s.take(i), seq![s[i]]);
    lemma_newlines_concat(s.take(i) + seq![s[i]], s.skip(i + 1));
    assert(seq![s[i]].drop_last() =~= Seq::<char>::empty());
    assert(newlines(Seq::<char>::empty()) == 0);
    assert(newlines(seq![s[i]]) == 1);
}

/// The arguments that the grammar reads have proper names.
proof fn lemma_args_named(s: Seq<char>, p: int, a: int)
    requires
        0 <= p <= s.len(),
        0 <= a < args(s, p).len(),
    ensures
        is_name(args(s, p)[a].name, false),
    decreases s.len() - p,
{
    lemma_arg_end(s, p);
    if a == 0 {
        lemma_name_end(s, arg_name_from(s, p), false);
    } else {
        lemma_args_named(s, arg_end(s, p), a - 1);
    }
}

/// A function that the grammar reads has proper names.
pub(crate) proof fn lemma_item_named(s: Seq<char>, start: int)
    requires
        0 <= start <= s.len(),
        item_failure(s, start) is None,
    ensures
        named(item_view(s, start)),
{
    let l = layout(s, start);
    lemma_layout(s, start);
    lemma_name_end(s, l.name_from, true);
    let from = l.open_paren + 1;
    let bound = bound_args(s, from);
    let q = args_end(s, from);
    lemma_args_end(s, from);
    lemma_arg_end(s, q);
    assert forall|a: int| 0 <= a < bound.len() implies is_name(
        (#[trigger] bound[a]).name,
        false,
    ) by {
        if a < args(s, from).len() {
            lemma_args_named(s, from, a);
        } else {
            lemma_name_end(s, arg_name_from(s, q), false);
        }
    }
}

/// The first line on which the body of function `k` of those read from `p`
/// may start, seen from the source: for the first function the line after
/// that of `p`.
pub open spec fn floor_from(s: Seq<char>, p: int, k: int) -> int {
    if k <= 0 {
        (line_at(s, p) + 1) as int
    } else {
        floor_line(items(s, p), k)
    }
}

/// The body of a function that the grammar reads starts below the line on
/// which the function starts, and the function ends on or below the last
/// line of its body.
proof fn lemma_item_lines(s: Seq<char>, start: int)
    requires
        0 <= start <= s.len(),
        item_failure(s, start) is None,
    ensures
        item_view(s, start).body_line >= line_at(s, start) + 1,
        line_at(s, layout(s, start).end) >= item_view(s, start).body_line + newlines(
            item_view(s, start).body,
        ),
{
    let l = layout(s, start);
    lemma_layout(s, start);
    lemma_line_at_from(s, start, l.header_to);
    lemma_line_at_from(s, l.header_to, l.body_from);
    lemma_skip_breaks(s, l.header_to);
    let n = line_break(s, l.header_to);
    assert(crate::lexis::skip_breaks(s, l.header_to) == crate::lexis::skip_breaks(
        s,
        l.header_to + n,
    ));
    lemma_skip_breaks(s, l.header_to + n);
    lemma_has_line(s.subrange(l.header_to, l.body_from), n - 1);
    lemma_body_lines(s, l.body_from);
    lemma_line_at_from(s, l.body_from, l.body_to);
    lemma_line_at_from(s, l.body_to, l.end);
}

/// The functions that the grammar reads from `p` follow each other line by
/// line.
pub(crate) proof fn lemma_items_in_order(s: Seq<char>, p: int, k: int)
    requires
        0 <= p <= s.len(),
        0 <= k < items(s, p).len(),
    ensures
        named(items(s, p)[k]),
        items(s, p)[k].body_line >= floor_from(s, p, k),
    decreases k,
{
    let q = skip_filler(s, p);
    lemma_skip_filler(s, p);
    let l = layout(s, q);
    lemma_layout(s, q);
    lemma_item_lines(s, q);
    lemma_line_at_from(s, p, q);
    let rest = items(s, l.end);
    assert(items(s, p) =~= seq![item_view(s, q)] + rest);
    if k == 0 {
        lemma_item_named(s, q);
    } else {
        lemma_items_in_order(s, l.end, k - 1);
        assert(items(s, p)[k] == rest[k - 1]);
        if k > 1 {
            assert(items(s, p)[k - 1] == rest[k - 2]);
        }
    }
}

/// The functions of a source text that follows the grammar are in order.
pub proof fn lemma_parsed_ordered(s: Seq<char>, p: int)
    requires
        0 <= p <= s.len(),
    ensures
        ordered(items(s, p)),
{
    assert forall|k: int| 0 <= k < items(s, p).len() implies #[trigger] in_order(
        items(s, p),
        k,
    ) by {
        lemma_items_in_order(s, p, k);
        lemma_newlines_bound(s.take(p));
    }
}

/// Where function `k` of those read from `p` starts.
pub open spec fn item_start(s: Seq<char>, p: int, k: int) -> int
    decreases k,
{
    if k <= 0 {
        skip_filler(s, p)
    } else {
        item_start(s, layout(s, skip_filler(s, p)).end, k - 1)
    }
}

/// Function `k` of those read from `p` is the function that is read from
/// where it starts.
pub(crate) proof fn lemma_item_start(s: Seq<char>, p: int, k: int)
    requires
        0 <= p <= s.len(),
        0 <= k < items(s, p).len(),
    ensures
        0 <= item_start(s, p, k) < s.len(),
        item_failure(s, item_start(s, p, k)) is None,
        items(s, p)[k] == item_view(s, item_start(s, p, k)),
    decreases k,
{
    let q = skip_filler(s, p);
    lemma_skip_filler(s, p);
    lemma_layout(s, q);
    assert(items(s, p) =~= seq![item_view(s, q)] + items(s, layout(s, q).end));
    if k > 0 {
        lemma_item_start(s, layout(s, q).end, k - 1);
    }
}

/// Round-trip line alignment: for a source text that follows the grammar, the
/// body of every function that has one stands unchanged in the rendered
/// script, on the line on which it starts in the source.
pub proof fn lemma_round_trip(s: Seq<char>, k: int)
    requires
        crate::grammar::syntax_error(s) is None,
        0 <= k < crate::grammar::script_view(s).items.len(),
        crate::grammar::script_view(s).items[k].body.len() > 0,
    ensures
        ({
            let all = crate::grammar::script_view(s).items;
            let body = all[k].body;
            let start = body_start(all, k);
            let source = layout(s, item_start(s, crate::grammar::items_from(s), k)).body_from;
            &&& 0 <= start
            &&& start + body.len() <= rendered(all).len()
            &&& rendered(all).subrange(start, start + body.len()) == body
            &&& 0 <= source <= s.len()
            &&& line_at(rendered(all), start) == line_at(s, source)
        }),
{
    let from = crate::grammar::items_from(s);
    crate::lexis::lemma_docs_end(s, 0, '^');
    lemma_parsed_ordered(s, from);
    lemma_body_on_its_line(items(s, from), k);
    lemma_item_start(s, from, k);
    lemma_layout(s, item_start(s, from, k));
}

} // verus!
