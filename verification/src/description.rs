//! Short and long documentation text assembled from doc-comment lines.

use vstd::prelude::*;
use vstd::string::StringExecFns;
use crate::text::{string_of, to_chars, white_space};

verus! {

/// First position at or after `i` of `s` that holds no white space.
pub open spec fn trim_from(s: Seq<char>, i: int) -> int
    decreases s.len() - i,
{
    if 0 <= i < s.len() && white_space(s[i]) {
        trim_from(s, i + 1)
    } else {
        i
    }
}

/// End of the text that is left of `s[..j]` when trailing white space goes.
pub open spec fn trim_to(s: Seq<char>, j: int) -> int
    decreases j,
{
    if 0 < j <= s.len() && white_space(s[j - 1]) {
        trim_to(s, j - 1)
    } else {
        j
    }
}

/// `s` without leading and trailing white space.
pub open spec fn trimmed(s: Seq<char>) -> Seq<char> {
    let from = trim_from(s, 0);
    if from >= s.len() {
        Seq::empty()
    } else {
        s.subrange(from, trim_to(s, s.len() as int))
    }
}

/// Paragraphs while lines are being read: those that are complete, and the
/// text of the one that is still open (empty when none is).
pub ghost struct Gathered {
    pub done: Seq<Seq<char>>,
    pub open: Seq<char>,
}

impl Gathered {
    /// The paragraphs once the open one is closed.
    pub open spec fn closed(self) -> Seq<Seq<char>> {
        if self.open.len() == 0 {
            self.done
        } else {
            self.done.push(self.open)
        }
    }

    /// The state after one more line: a line that is empty once trimmed closes
    /// the open paragraph, any other line joins it after a single space.
    pub open spec fn step(self, line: Seq<char>) -> Gathered {
        let text = trimmed(line);
        if text.len() == 0 {
            Gathered { done: self.closed(), open: Seq::empty() }
        } else if self.open.len() == 0 {
            Gathered { done: self.done, open: text }
        } else {
            Gathered { done: self.done, open: self.open.push(' ') + text }
        }
    }
}

/// The state after all of `lines`, starting from the paragraphs in `before`.
pub open spec fn gathered(before: Seq<Seq<char>>, lines: Seq<Seq<char>>) -> Gathered
    decreases lines.len(),
{
    if lines.len() == 0 {
        Gathered { done: before, open: Seq::empty() }
    } else {
        gathered(before, lines.drop_last()).step(lines.last())
    }
}

/// The paragraphs of all groups of lines, in order. A paragraph is a maximal
/// run of lines that are not empty once trimmed, within one group.
pub open spec fn paragraphs(groups: Seq<Seq<Seq<char>>>) -> Seq<Seq<char>>
    decreases groups.len(),
{
    if groups.len() == 0 {
        Seq::empty()
    } else {
        gathered(paragraphs(groups.drop_last()), groups.last()).closed()
    }
}

/// The paragraphs with an empty line between each two.
pub open spec fn joined(paragraphs: Seq<Seq<char>>) -> Seq<char>
    decreases paragraphs.len(),
{
    if paragraphs.len() == 0 {
        Seq::empty()
    } else if paragraphs.len() == 1 {
        paragraphs[0]
    } else {
        joined(paragraphs.drop_last()).push('\n').push('\n') + paragraphs.last()
    }
}

/// What a [`Description`] holds.
pub ghost struct DescriptionView {
    pub short: Seq<char>,
    pub long: Seq<char>,
}

/// The description that the given groups of doc-comment lines amount to: the
/// first paragraph as the short form, all paragraphs as the long form.
pub open spec fn describe(groups: Seq<Seq<Seq<char>>>) -> DescriptionView {
    let paras = paragraphs(groups);
    DescriptionView {
        short: if paras.len() == 0 { Seq::empty() } else { paras[0] },
        long: joined(paras),
    }
}

/// Lines that follow each other without an empty one between them merge into
/// one paragraph, which is both the short and the long form.
pub proof fn lemma_lines_merge(first: Seq<char>, second: Seq<char>)
    requires
        trimmed(first).len() > 0,
        trimmed(second).len() > 0,
    ensures
        describe(seq![seq![first, second]]).short == trimmed(first).push(' ') + trimmed(second),
        describe(seq![seq![first, second]]).long == trimmed(first).push(' ') + trimmed(second),
{
    let lines = seq![first, second];
    let groups = seq![lines];
    assert(groups.drop_last() =~= Seq::<Seq<Seq<char>>>::empty());
    assert(lines.drop_last() =~= seq![first]);
    assert(seq![first].drop_last() =~= Seq::<Seq<char>>::empty());
    assert(paragraphs(groups.drop_last()) =~= Seq::<Seq<char>>::empty());
    let empty = Seq::<Seq<char>>::empty();
    assert(gathered(empty, Seq::<Seq<char>>::empty()) == (Gathered {
        done: empty,
        open: Seq::empty(),
    }));
    assert(gathered(empty, seq![first]) == (Gathered { done: empty, open: trimmed(first) }));
    assert(gathered(empty, lines) == (Gathered {
        done: empty,
        open: trimmed(first).push(' ') + trimmed(second),
    }));
}

/// Lines with an empty line between them are two paragraphs: the short form
/// is the first, the long form holds both with an empty line between them.
pub proof fn lemma_blank_line_parts(first: Seq<char>, blank: Seq<char>, second: Seq<char>)
    requires
        trimmed(first).len() > 0,
        trimmed(blank).len() == 0,
        trimmed(second).len() > 0,
    ensures
        paragraphs(seq![seq![first, blank, second]]) == seq![trimmed(first), trimmed(second)],
        describe(seq![seq![first, blank, second]]).short == trimmed(first),
        describe(seq![seq![first, blank, second]]).long == trimmed(first).push('\n').push('\n')
            + trimmed(second),
{
    let lines = seq![first, blank, second];
    let groups = seq![lines];
    let empty = Seq::<Seq<char>>::empty();
    assert(groups.drop_last() =~= Seq::<Seq<Seq<char>>>::empty());
    assert(paragraphs(groups.drop_last()) =~= empty);
    assert(lines.drop_last() =~= seq![first, blank]);
    assert(seq![first, blank].drop_last() =~= seq![first]);
    assert(seq![first].drop_last() =~= empty);
    assert(gathered(empty, empty) == (Gathered { done: empty, open: Seq::empty() }));
    assert(gathered(empty, seq![first]) == (Gathered { done: empty, open: trimmed(first) }));
    assert(gathered(empty, seq![first, blank]) == (Gathered {
        done: empty.push(trimmed(first)),
        open: Seq::empty(),
    }));
    assert(gathered(empty, lines) == (Gathered {
        done: empty.push(trimmed(first)),
        open: trimmed(second),
    }));
    let paras = paragraphs(groups);
    assert(paras =~= seq![trimmed(first), trimmed(second)]);
    assert(paras.drop_last() =~= seq![trimmed(first)]);
    assert(joined(seq![trimmed(first)]) == trimmed(first));
    assert(paras.last() == trimmed(second));
}

/// Documentation of a script, a function or an argument.
#[derive(Debug)]
pub struct Description {
    short: String,
    long: String,
}

impl View for Description {
    type V = DescriptionView;

    closed spec fn view(&self) -> DescriptionView {
        DescriptionView { short: self.short@, long: self.long@ }
    }
}

/// `line` without leading and trailing white space.
pub fn trim(line: &str) -> (out: String)
    ensures
        out@ == trimmed(line@),
{
    let chars = to_chars(line);
    let n = chars.len();
    let mut from: usize = 0;
    while from < n && chars[from].is_whitespace()
        invariant
            from <= n == chars@.len(),
            trim_from(chars@, 0) == trim_from(chars@, from as int),
        decreases n - from,
    {
        from += 1;
    }
    if from >= n {
        return String::new();
    }
    let mut to: usize = n;
    while to > 0 && chars[to - 1].is_whitespace()
        invariant
            to <= n == chars@.len(),
            trim_to(chars@, n as int) == trim_to(chars@, to as int),
        decreases to,
    {
        to -= 1;
    }
    proof {
        lemma_trim_bounds(chars@);
    }
    string_of(&chars, from, to)
}

/// Text that holds something other than white space keeps its first such
/// character when it is trimmed.
pub(crate) proof fn lemma_trim_bounds(s: Seq<char>)
    ensures
        0 <= trim_from(s, 0) <= s.len(),
        trim_from(s, 0) < s.len() ==> trim_from(s, 0) < trim_to(s, s.len() as int) <= s.len(),
        trim_from(s, 0) < s.len() ==> trimmed(s).len() > 0,
{
    lemma_trim_from(s, 0);
    if trim_from(s, 0) < s.len() {
        lemma_trim_to(s, s.len() as int, trim_from(s, 0));
    }
}

proof fn lemma_trim_from(s: Seq<char>, i: int)
    requires
        0 <= i <= s.len(),
    ensures
        i <= trim_from(s, i) <= s.len(),
        trim_from(s, i) < s.len() ==> !white_space(s[trim_from(s, i)]),
    decreases s.len() - i,
{
    if i < s.len() && white_space(s[i]) {
        lemma_trim_from(s, i + 1);
    }
}

proof fn lemma_trim_to(s: Seq<char>, j: int, k: int)
    requires
        0 <= k < j <= s.len(),
        !white_space(s[k]),
    ensures
        k < trim_to(s, j) <= j,
    decreases j,
{
    if white_space(s[j - 1]) {
        lemma_trim_to(s, j - 1, k);
    }
}

impl Description {
    /// Assembles a description from groups of doc-comment lines, each group
    /// collected at one place of the source.
    pub fn new(groups: &Vec<Vec<String>>) -> (out: Description)
        ensures
            out@ == describe(groups.deep_view()),
    {
        let mut paras: Vec<String> = Vec::new();
        let mut g: usize = 0;
        while g < groups.len()
            invariant
                g <= groups.len(),
                paras.deep_view() == paragraphs(groups.deep_view().take(g as int)),
            decreases groups.len() - g,
        {
            let group = &groups[g];
            let ghost before = paras.deep_view();
            let ghost lines = group.deep_view();
            let mut open = String::new();
            let mut i: usize = 0;
            while i < group.len()
                invariant
                    i <= group.len(),
                    lines == group.deep_view(),
                    gathered(before, lines.take(i as int)) == (Gathered {
                        done: paras.deep_view(),
                        open: open@,
                    }),
                decreases group.len() - i,
            {
                let text = trim(group[i].as_str());
                proof {
                    assert(lines.take(i + 1).drop_last() =~= lines.take(i as int));
                    assert(lines.take(i + 1).last() == group[i as int]@);
                }
                if text.as_str().is_empty() {
                    if !open.as_str().is_empty() {
                        let ghost closed = paras.deep_view().push(open@);
                        paras.push(open);
                        open = String::new();
                        assert(paras.deep_view() =~= closed);
                    }
                } else if open.as_str().is_empty() {
                    open = text;
                } else {
                    open.push(' ');
                    open.append(text.as_str());
                }
                i += 1;
            }
            if !open.as_str().is_empty() {
                paras.push(open);
            }
            proof {
                assert(lines.take(group.len() as int) =~= lines);
                assert(groups.deep_view().take(g + 1).drop_last() =~= groups.deep_view().take(
                    g as int,
                ));
                assert(groups.deep_view().take(g + 1).last() == lines);
            }
            g += 1;
        }
        proof {
            assert(groups.deep_view().take(groups.len() as int) =~= groups.deep_view());
        }
        let mut long = String::new();
        let mut k: usize = 0;
        while k < paras.len()
            invariant
                k <= paras.len(),
                long@ == joined(paras.deep_view().take(k as int)),
            decreases paras.len() - k,
        {
            proof {
                assert(paras.deep_view().take(k + 1).drop_last() =~= paras.deep_view().take(
                    k as int,
                ));
            }
            if k > 0 {
                long.push('\n');
                long.push('\n');
            }
            long.append(paras[k].as_str());
            k += 1;
        }
        proof {
            assert(paras.deep_view().take(paras.len() as int) =~= paras.deep_view());
        }
        let short = if paras.len() == 0 {
            String::new()
        } else {
            paras[0].clone()
        };
        Description { short, long }
    }

    /// The first paragraph.
    pub fn short(&self) -> (out: &str)
        ensures
            out@ == self@.short,
    {
        self.short.as_str()
    }

    /// All paragraphs, an empty line between each two.
    pub fn long(&self) -> (out: &str)
        ensures
            out@ == self@.long,
    {
        self.long.as_str()
    }
}

} // verus!
