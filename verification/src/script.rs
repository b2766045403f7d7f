//! A script: the functions of a source text, none of them declared twice,
//! each ready to be rendered after those before it.

use vstd::prelude::*;
use crate::alignment::{lemma_ordered_renderable, lemma_parsed_ordered};
use crate::description::{Description, DescriptionView};
use crate::diagnostic::{duplicate_report, syntax_report, ParseError};
use crate::grammar::{items_from, script_view, syntax_error};
use crate::item::{item_views, Item, ItemView};
use crate::lexis::lemma_docs_end;
use crate::render::{render_items, renderable, rendered};

verus! {

/// What a [`Script`] holds.
pub ghost struct ScriptView {
    pub description: DescriptionView,
    pub items: Seq<ItemView>,
}

/// The names of the functions, in order.
pub open spec fn names(items: Seq<ItemView>) -> Seq<Seq<char>> {
    items.map_values(|i: ItemView| i.signature.name)
}

/// Index of the first name that stands earlier in the sequence too, if there
/// is one.
pub open spec fn first_repeat(names: Seq<Seq<char>>) -> Option<int>
    decreases names.len(),
{
    if names.len() == 0 {
        None
    } else {
        match first_repeat(names.drop_last()) {
            Some(j) => Some(j),
            None => if names.drop_last().contains(names.last()) {
                Some(names.len() - 1)
            } else {
                None
            },
        }
    }
}

/// Whether no two functions share a name and each can be rendered after
/// those before it.
pub open spec fn well_formed(v: ScriptView) -> bool {
    first_repeat(names(v.items)) is None && renderable(v.items)
}

/// A parsed script.
#[derive(Debug)]
pub struct Script {
    description: Description,
    items: Vec<Item>,
}

impl View for Script {
    type V = ScriptView;

    closed spec fn view(&self) -> ScriptView {
        ScriptView { description: self.description@, items: item_views(self.items@) }
    }
}

/// Index of the first function whose name an earlier function has.
fn find_repeat(items: &Vec<Item>) -> (out: Option<usize>)
    ensures
        match out {
            Some(j) => j < items.len() && first_repeat(names(item_views(items@))) == Some(
                j as int,
            ),
            None => first_repeat(names(item_views(items@))) is None,
        },
{
    let ghost all = names(item_views(items@));
    let mut j: usize = 0;
    while j < items.len()
        invariant
            j <= items.len(),
            all == names(item_views(items@)),
            first_repeat(all.take(j as int)) is None,
        decreases items.len() - j,
    {
        let mut i: usize = 0;
        let mut found = false;
        while i < j
            invariant_except_break
                !found,
                !all.take(i as int).contains(all[j as int]),
            invariant
                i <= j < items.len(),
                all == names(item_views(items@)),
            ensures
                found == all.take(j as int).contains(all[j as int]),
            decreases j - i,
        {
            if items[i].fn_signature().same_name(items[j].fn_signature()) {
                found = true;
                assert(all.take(j as int)[i as int] == all[j as int]);
                break ;
            }
            assert(all.take(i + 1) =~= all.take(i as int).push(all[i as int]));
            i += 1;
        }
        proof {
            assert(all.take(j + 1).drop_last() =~= all.take(j as int));
            assert(all.take(j + 1).last() == all[j as int]);
        }
        if found {
            proof {
                lemma_first_repeat_stays(all, j + 1, j as int);
            }
            return Some(j);
        }
        j += 1;
    }
    proof {
        assert(all.take(items.len() as int) =~= all);
    }
    None
}

/// A repeat that shows among the first `k` names is the first repeat of all.
proof fn lemma_first_repeat_stays(names: Seq<Seq<char>>, k: int, j: int)
    requires
        0 <= k <= names.len(),
        first_repeat(names.take(k)) == Some(j),
    ensures
        first_repeat(names) == Some(j),
    decreases names.len() - k,
{
    if k == names.len() {
        assert(names.take(k) =~= names);
    } else {
        assert(names.take(k + 1).drop_last() =~= names.take(k));
        lemma_first_repeat_stays(names, k + 1, j);
    }
}

/// Names without a repeat are pairwise distinct.
pub proof fn lemma_no_repeat_distinct(names: Seq<Seq<char>>, i: int, j: int)
    requires
        first_repeat(names) is None,
        0 <= i < j < names.len(),
    ensures
        names[i] != names[j],
    decreases names.len(),
{
    if j == names.len() - 1 {
        assert(names.drop_last()[i] == names[i]);
    } else {
        lemma_no_repeat_distinct(names.drop_last(), i, j);
    }
}

/// Duplicate rejection: functions of which two have the same name, wherever
/// they stand and whether public or not, are no script: their names have a
/// repeat, and [`Script::parse`] gives a script only for names without one.
pub proof fn lemma_duplicates_refused(script: ScriptView, i: int, j: int)
    requires
        0 <= i < script.items.len(),
        0 <= j < script.items.len(),
        i != j,
        script.items[i].signature.name == script.items[j].signature.name,
    ensures
        first_repeat(names(script.items)) is Some,
        !well_formed(script),
{
    if first_repeat(names(script.items)) is None {
        if i < j {
            lemma_no_repeat_distinct(names(script.items), i, j);
        } else {
            lemma_no_repeat_distinct(names(script.items), j, i);
        }
    }
}

impl Script {
    #[verifier::type_invariant]
    spec fn sound(self) -> bool {
        well_formed(self@)
    }

    /// Parses `input`. The result is the script that the grammar reads from
    /// the text, unless the text does not follow the grammar, which gives the
    /// diagnostic of the first place where it goes wrong, or follows it and
    /// declares a function twice, which gives a diagnostic that names the
    /// first function declared again.
    pub fn parse(input: &str) -> (out: Result<Script, ParseError>)
        ensures
            match out {
                Ok(script) => {
                    &&& syntax_error(input@) is None
                    &&& first_repeat(names(script_view(input@).items)) is None
                    &&& script@ == script_view(input@)
                    &&& well_formed(script@)
                },
                Err(e) => {
                    &&& e@.text.len() > 0
                    &&& match syntax_error(input@) {
                        Some(f) => e@ == syntax_report(input@, f),
                        None => {
                            &&& first_repeat(names(script_view(input@).items)) matches Some(j)
                            &&& e@ == duplicate_report(names(script_view(input@).items)[j])
                        },
                    }
                },
            },
    {
        let (description, items) = match crate::parser::parse(input) {
            Ok(parsed) => parsed,
            Err(e) => {
                return Err(e);
            },
        };
        match find_repeat(&items) {
            Some(j) => Err(ParseError::duplicate(items[j].fn_signature().name())),
            None => {
                proof {
                    lemma_docs_end(input@, 0, '^');
                    lemma_parsed_ordered(input@, items_from(input@));
                    lemma_ordered_renderable(item_views(items@));
                }
                Ok(Script { description, items })
            },
        }
    }

    /// The description of the script.
    pub fn description(&self) -> (out: &Description)
        ensures
            out@ == self@.description,
    {
        &self.description
    }

    /// The functions of the script, in source order.
    pub fn items(&self) -> (out: &Vec<Item>)
        ensures
            item_views(out@) == self@.items,
            well_formed(self@),
    {
        proof {
            use_type_invariant(self);
        }
        &self.items
    }

    /// The shell text of the script: the definitions of its functions, in
    /// source order, each after as many empty lines as bring its body to the
    /// line on which it starts in the source.
    pub fn render(&self) -> (out: String)
        ensures
            out@ == rendered(self@.items),
    {
        proof {
            use_type_invariant(self);
        }
        render_items(&self.items)
    }
}

} // verus!
