//! The renderer: the shell text of a script, in which the body of every
//! function starts on the line on which it starts in the source.

use vstd::prelude::*;
use vstd::string::StringExecFns;
use crate::lexis::is_name;
use crate::item::{arg_views, ArgView, FnSignature, Item, ItemView};
use crate::text::{count_newlines, lemma_newlines_concat, lemma_newlines_push, newlines};

verus! {

/// What binds one argument: the next positional parameter is stored under
/// the argument's name and then dropped.
pub open spec fn binding(name: Seq<char>) -> Seq<char> {
    name + "=\"$1\"; shift; "@
}

/// The bindings of the arguments, in declared order.
pub open spec fn bindings(args: Seq<ArgView>) -> Seq<char>
    decreases args.len(),
{
    if args.len() == 0 {
        Seq::empty()
    } else {
        bindings(args.drop_last()) + binding(args.last().name)
    }
}

/// `n` line feeds.
pub open spec fn padding(n: int) -> Seq<char> {
    Seq::new(n as nat, |i: int| '\n')
}

/// The definition of a function without the padding before it. A function
/// without a body does nothing; the body of an inline function runs in the
/// shell of the caller, any other body in a subshell.
pub open spec fn definition(item: ItemView) -> Seq<char> {
    if item.body.len() == 0 {
        item.signature.name + " () { :; }"@
    } else if item.is_inline {
        item.signature.name + " () { "@ + bindings(item.signature.args) + "\n"@ + item.body
            + "};"@
    } else {
        item.signature.name + " () { ( "@ + bindings(item.signature.args) + "\n"@ + item.body
            + ") };"@
    }
}

/// Number of line feeds that part the definition of `item` from text that
/// holds `newline_count` of them, so that the line after the one on which the
/// definition starts is the line of the body.
pub open spec fn gap(item: ItemView, newline_count: int) -> int {
    item.body_line - (newline_count + 2)
}

/// The text of a function that follows text with `newline_count` line feeds.
pub open spec fn item_text(item: ItemView, newline_count: int) -> Seq<char> {
    padding(gap(item, newline_count)) + definition(item)
}

/// The shell text of the functions, in order.
pub open spec fn rendered(items: Seq<ItemView>) -> Seq<char>
    decreases items.len(),
{
    if items.len() == 0 {
        Seq::empty()
    } else {
        let before = rendered(items.drop_last());
        before + item_text(items.last(), newlines(before) as int)
    }
}

/// Whether each function can be rendered after those before it: its body
/// starts at least one line below the line on which its definition would
/// start.
pub open spec fn renderable(items: Seq<ItemView>) -> bool {
    forall|k: int| 0 <= k < items.len() ==> #[trigger] fits_after(items, k)
}

/// Whether function `k` can be rendered after those before it.
pub open spec fn fits_after(items: Seq<ItemView>, k: int) -> bool {
    items[k].body_line >= newlines(rendered(items.take(k))) + 2
}

impl FnSignature {
    /// The shell text that binds the arguments: one binding for each argument
    /// that has a name, in declared order, and none for the forward marker.
    pub fn args(&self) -> (out: String)
        ensures
            out@ == bindings(self@.args),
    {
        let list = self.arguments();
        let mut out = String::new();
        let mut i: usize = 0;
        while i < list.len()
            invariant
                i <= list.len(),
                arg_views(list@) == self@.args,
                out@ == bindings(self@.args.take(i as int)),
            decreases list.len() - i,
        {
            proof {
                assert(self@.args.take(i + 1).drop_last() =~= self@.args.take(i as int));
                assert(self@.args.take(i + 1).last() == list@[i as int]@);
            }
            let ghost before = out@;
            out.append(list[i].name());
            out.append("=\"$1\"; shift; ");
            assert(out@ =~= before + binding(list@[i as int]@.name));
            i += 1;
        }
        proof {
            assert(self@.args.take(list.len() as int) =~= self@.args);
        }
        out
    }
}

impl Item {
    /// The shell text of this function when it follows text that holds
    /// `newline_count` line feeds.
    pub fn script(&self, newline_count: usize) -> (out: String)
        requires
            self@.body_line >= newline_count + 2,
        ensures
            out@ == item_text(self@, newline_count as int),
    {
        let extra = self.body_line_number() - newline_count - 2;
        let mut out = String::new();
        let mut i: usize = 0;
        while i < extra
            invariant
                i <= extra,
                out@ == padding(i as int),
            decreases extra - i,
        {
            out.push('\n');
            i += 1;
            assert(out@ =~= padding(i as int));
        }
        let ghost pad = out@;
        out.append(self.fn_signature().name());
        if self.body().is_empty() {
            out.append(" () { :; }");
            assert(out@ =~= pad + definition(self@));
        } else if self.is_inline() {
            out.append(" () { ");
            out.append(self.fn_signature().args().as_str());
            out.append("\n");
            out.append(self.body());
            out.append("};");
            assert(out@ =~= pad + definition(self@));
        } else {
            out.append(" () { ( ");
            out.append(self.fn_signature().args().as_str());
            out.append("\n");
            out.append(self.body());
            out.append(") };");
            assert(out@ =~= pad + definition(self@));
        }
        out
    }
}

/// The shell text of `items`, in order.
pub fn render_items(items: &Vec<Item>) -> (out: String)
    requires
        renderable(crate::item::item_views(items@)),
    ensures
        out@ == rendered(crate::item::item_views(items@)),
{
    let ghost views = crate::item::item_views(items@);
    let mut out = String::new();
    let mut k: usize = 0;
    while k < items.len()
        invariant
            k <= items.len(),
            views == crate::item::item_views(items@),
            renderable(views),
            out@ == rendered(views.take(k as int)),
        decreases items.len() - k,
    {
        proof {
            assert(views.take(k + 1).drop_last() =~= views.take(k as int));
            assert(views.take(k + 1).last() == items@[k as int]@);
            assert(views[k as int] == items@[k as int]@);
            assert(fits_after(views, k as int));
        }
        let count = count_newlines(out.as_str());
        let text = items[k].script(count);
        out.append(text.as_str());
        k += 1;
    }
    proof {
        assert(views.take(items.len() as int) =~= views);
    }
    out
}

/// A function without a body renders to the definition that does nothing,
/// whether it is inline or not and whatever its arguments are.
pub proof fn lemma_empty_body_is_noop(item: ItemView, newline_count: int)
    requires
        item.body.len() == 0,
    ensures
        definition(item) == item.signature.name + " () { :; }"@,
        item_text(item, newline_count) == padding(gap(item, newline_count)) + (
        item.signature.name + " () { :; }"@),
{
}

/// Arguments are bound in declared order: the bindings of a list are the
/// bindings of its front followed by those of its back.
pub proof fn lemma_bindings_concat(front: Seq<ArgView>, back: Seq<ArgView>)
    ensures
        bindings(front + back) == bindings(front) + bindings(back),
    decreases back.len(),
{
    if back.len() == 0 {
        assert(front + back =~= front);
        assert(bindings(front) + bindings(back) =~= bindings(front));
    } else {
        lemma_bindings_concat(front, back.drop_last());
        assert((front + back).drop_last() =~= front + back.drop_last());
        assert((front + back).last() == back.last());
        assert(bindings(front + back) =~= bindings(front) + bindings(back));
    }
}

/// Three arguments are bound by three pairs of binding and shift, the first
/// argument first.
pub proof fn lemma_bindings_in_order(a: ArgView, b: ArgView, c: ArgView)
    ensures
        bindings(seq![a, b, c]) == (a.name + "=\"$1\"; shift; "@) + (b.name
            + "=\"$1\"; shift; "@) + (c.name + "=\"$1\"; shift; "@),
{
    assert(seq![a, b, c].drop_last() =~= seq![a, b]);
    assert(seq![a, b].drop_last() =~= seq![a]);
    assert(seq![a].drop_last() =~= Seq::<ArgView>::empty());
    assert(bindings(Seq::<ArgView>::empty()) =~= Seq::<char>::empty());
    assert(bindings(seq![a]) =~= binding(a.name));
    assert(bindings(seq![a, b]) =~= binding(a.name) + binding(b.name));
}

/// The forward marker is bound to nothing: a function renders to the same
/// definition with it and without it.
pub proof fn lemma_forward_not_bound(item: ItemView, without: ItemView)
    requires
        without == (ItemView {
            signature: crate::item::SignatureView { forward: None, ..item.signature },
            ..item
        }),
    ensures
        definition(item) == definition(without),
{
}

/// Text without a line feed holds no line feeds.
pub(crate) proof fn lemma_plain(s: Seq<char>)
    requires
        forall|i: int| 0 <= i < s.len() ==> #[trigger] s[i] != '\n',
    ensures
        newlines(s) == 0,
    decreases s.len(),
{
    if s.len() > 0 {
        lemma_plain(s.drop_last());
    }
}

/// A name holds no line feed.
pub(crate) proof fn lemma_name_plain(name: Seq<char>, hyphen: bool)
    requires
        is_name(name, hyphen),
    ensures
        newlines(name) == 0,
{
    assert forall|i: int| 0 <= i < name.len() implies #[trigger] name[i] != '\n' by {
        if i > 0 {
            assert(crate::lexis::continues_name(name[i], hyphen));
        }
    }
    lemma_plain(name);
}

/// Whether the names of a function and of its arguments are names.
pub open spec fn named(item: ItemView) -> bool {
    &&& is_name(item.signature.name, true)
    &&& forall|a: int|
        0 <= a < item.signature.args.len() ==> is_name(
            (#[trigger] item.signature.args[a]).name,
            false,
        )
}

/// The bindings of arguments with proper names stand on one line.
pub(crate) proof fn lemma_bindings_plain(args: Seq<ArgView>)
    requires
        forall|a: int| 0 <= a < args.len() ==> is_name((#[trigger] args[a]).name, false),
    ensures
        newlines(bindings(args)) == 0,
    decreases args.len(),
{
    if args.len() > 0 {
        lemma_bindings_plain(args.drop_last());
        let name = args.last().name;
        lemma_name_plain(name, false);
        reveal_strlit("=\"$1\"; shift; ");
        lemma_plain("=\"$1\"; shift; "@);
        lemma_newlines_concat(name, "=\"$1\"; shift; "@);
        lemma_newlines_concat(bindings(args.drop_last()), binding(name));
    }
}

/// A definition holds one line feed before its body and those of the body; a
/// definition without a body holds none.
pub(crate) proof fn lemma_definition_lines(item: ItemView)
    requires
        named(item),
    ensures
        newlines(definition(item)) == if item.body.len() == 0 {
            0
        } else {
            1 + newlines(item.body)
        },
        item.body.len() > 0 ==> 0 <= body_offset(item) && body_offset(item) + item.body.len()
            <= definition(item).len(),
        item.body.len() > 0 ==> newlines(definition(item).take(body_offset(item))) == 1,
        item.body.len() > 0 ==> definition(item).subrange(
            body_offset(item),
            body_offset(item) + item.body.len(),
        ) == item.body,
{
    let name = item.signature.name;
    let binds = bindings(item.signature.args);
    lemma_name_plain(name, true);
    lemma_bindings_plain(item.signature.args);
    reveal_strlit(" () { :; }");
    reveal_strlit(" () { ");
    reveal_strlit(" () { ( ");
    reveal_strlit("\n");
    reveal_strlit("};");
    reveal_strlit(") };");
    lemma_plain(" () { :; }"@);
    lemma_plain(" () { "@);
    lemma_plain(" () { ( "@);
    lemma_plain("};"@);
    lemma_plain(") };"@);
    assert("\n"@ =~= Seq::<char>::empty().push('\n'));
    lemma_newlines_push(Seq::<char>::empty(), '\n');
    if item.body.len() == 0 {
        lemma_newlines_concat(name, " () { :; }"@);
    } else {
        let open = if item.is_inline {
            " () { "@
        } else {
            " () { ( "@
        };
        let close = if item.is_inline {
            "};"@
        } else {
            ") };"@
        };
        let head = name + open + binds + "\n"@;
        lemma_newlines_concat(name, open);
        lemma_newlines_concat(name + open, binds);
        lemma_newlines_concat(name + open + binds, "\n"@);
        lemma_newlines_concat(head, item.body);
        lemma_newlines_concat(head + item.body, close);
        assert(definition(item) == head + item.body + close);
        assert(definition(item).take(body_offset(item)) =~= head);
        assert(definition(item).subrange(body_offset(item), body_offset(item) + item.body.len())
            =~= item.body);
    }
}

/// Where the body starts in the definition of a function that has one.
pub open spec fn body_offset(item: ItemView) -> int {
    definition(item).len() - item.body.len() - if item.is_inline {
        2int
    } else {
        4int
    }
}

} // verus!
