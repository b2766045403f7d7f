//! The command line of a script: what it offers, and what is to be done once
//! the arguments of a call have been matched against that.
//!
//! Matching the arguments is not done here. The library says what can be
//! matched ([`Script::surface`]), takes what was matched ([`Matched`]) and
//! decides ([`Script::parse_args`]).

use vstd::prelude::*;
use vstd::string::StringExecFns;
use crate::description::{Description, DescriptionView};
use crate::item::{arg_views, item_views, ArgView, Item, ItemView, SignatureView};
use crate::render::rendered;
use crate::script::{Script, ScriptView};

verus! {

/// The name under which the parameter that forwards all remaining arguments
/// is declared and matched.
pub const FORWARDED_ARGS_NAME: &'static str = "$@";

/// The name of the function that stands for the whole program when it is the
/// only public one.
pub const ENTRY_NAME: &'static str = "main";

/// The flag that asks for the rendered script.
pub const SHOW_SCRIPT_FLAG: &'static str = "show-script";

/// The flag that asks for the script of a call in place of the call.
pub const DEBUG_FLAG: &'static str = "debug";

/// The option that asks for shell completions.
pub const SHELL_COMPLETIONS: &'static str = "shell-completions";

/// What a [`Parameter`] holds.
pub ghost struct ParameterView {
    pub name: Seq<char>,
    pub required: bool,
    pub multiple: bool,
    pub description: DescriptionView,
}

/// A positional parameter of a command.
#[derive(Debug)]
pub struct Parameter {
    pub name: String,
    /// Whether a call must give a value for it.
    pub required: bool,
    /// Whether it takes any number of values in place of one.
    pub multiple: bool,
    pub short: String,
    pub long: String,
}

impl View for Parameter {
    type V = ParameterView;

    open spec fn view(&self) -> ParameterView {
        ParameterView {
            name: self.name@,
            required: self.required,
            multiple: self.multiple,
            description: DescriptionView { short: self.short@, long: self.long@ },
        }
    }
}

/// The views of a sequence of parameters.
pub open spec fn parameter_views(parameters: Seq<Parameter>) -> Seq<ParameterView> {
    parameters.map_values(|p: Parameter| p@)
}

/// What a [`Command`] holds.
pub ghost struct CommandView {
    pub name: Seq<char>,
    pub description: DescriptionView,
    pub parameters: Seq<ParameterView>,
}

/// A command of the command line: one public function.
#[derive(Debug)]
pub struct Command {
    pub name: String,
    pub short: String,
    pub long: String,
    pub parameters: Vec<Parameter>,
}

impl View for Command {
    type V = CommandView;

    open spec fn view(&self) -> CommandView {
        CommandView {
            name: self.name@,
            description: DescriptionView { short: self.short@, long: self.long@ },
            parameters: parameter_views(self.parameters@),
        }
    }
}

/// The views of a sequence of commands.
pub open spec fn command_views(commands: Seq<Command>) -> Seq<CommandView> {
    commands.map_values(|c: Command| c@)
}

/// What a [`Flag`] holds.
pub ghost struct FlagView {
    pub name: Seq<char>,
    pub help: Seq<char>,
    pub long_help: Option<Seq<char>>,
    pub exclusive: bool,
    pub takes_shell: bool,
}

/// An option of the program itself, given as `--` and its name.
#[derive(Debug)]
pub struct Flag {
    pub name: String,
    pub help: String,
    /// The help in full, where it says more than `help`.
    pub long_help: Option<String>,
    /// Whether it can only be given alone.
    pub exclusive: bool,
    /// Whether it takes the name of a shell as its value.
    pub takes_shell: bool,
}

impl View for Flag {
    type V = FlagView;

    open spec fn view(&self) -> FlagView {
        FlagView {
            name: self.name@,
            help: self.help@,
            long_help: match self.long_help {
                Some(text) => Some(text@),
                None => None,
            },
            exclusive: self.exclusive,
            takes_shell: self.takes_shell,
        }
    }
}

/// The views of a sequence of flags.
pub open spec fn flag_views(flags: Seq<Flag>) -> Seq<FlagView> {
    flags.map_values(|f: Flag| f@)
}

/// What a [`Surface`] holds.
pub ghost struct SurfaceView {
    pub program: Seq<char>,
    pub description: DescriptionView,
    pub flags: Seq<FlagView>,
    pub parameters: Seq<ParameterView>,
    pub commands: Seq<CommandView>,
}

/// The command line of a script: the program, its flags, the positional
/// parameters it takes itself, and its subcommands.
#[derive(Debug)]
pub struct Surface {
    pub program: String,
    pub short: String,
    pub long: String,
    pub flags: Vec<Flag>,
    pub parameters: Vec<Parameter>,
    pub commands: Vec<Command>,
}

impl View for Surface {
    type V = SurfaceView;

    open spec fn view(&self) -> SurfaceView {
        SurfaceView {
            program: self.program@,
            description: DescriptionView { short: self.short@, long: self.long@ },
            flags: flag_views(self.flags@),
            parameters: parameter_views(self.parameters@),
            commands: command_views(self.commands@),
        }
    }
}

/// The parameter for an argument that has a name: it takes exactly one value.
pub open spec fn named_parameter(arg: ArgView) -> ParameterView {
    ParameterView { name: arg.name, required: true, multiple: false, description: arg.description }
}

/// The parameter for the forward marker: it takes all values that are left,
/// which may be none.
pub open spec fn forward_parameter(description: DescriptionView) -> ParameterView {
    ParameterView { name: FORWARDED_ARGS_NAME@, required: false, multiple: true, description }
}

/// The parameters of a function: one for each argument that has a name, in
/// declared order, then one for the forward marker if the function has it.
pub open spec fn parameters_of(signature: SignatureView) -> Seq<ParameterView> {
    let named = signature.args.map_values(|a: ArgView| named_parameter(a));
    match signature.forward {
        Some(description) => named.push(forward_parameter(description)),
        None => named,
    }
}

/// The command for a function.
pub open spec fn command_of(item: ItemView) -> CommandView {
    CommandView {
        name: item.signature.name,
        description: item.description,
        parameters: parameters_of(item.signature),
    }
}

/// The public functions, in order.
pub open spec fn public_items(items: Seq<ItemView>) -> Seq<ItemView>
    decreases items.len(),
{
    if items.len() == 0 {
        Seq::empty()
    } else if items.last().is_pub {
        public_items(items.drop_last()).push(items.last())
    } else {
        public_items(items.drop_last())
    }
}

/// Whether the program stands for its one public function: there is exactly
/// one, and it has the entry name.
pub open spec fn shortcut(items: Seq<ItemView>) -> bool {
    public_items(items).len() == 1 && public_items(items)[0].signature.name == ENTRY_NAME@
}

/// The flags of a script called as `program`: one that asks for the rendered
/// script, one that asks for the script of a call and can only be given alone
/// with a subcommand, and one that asks for completions for a shell.
pub open spec fn flags_of(program: Seq<char>) -> Seq<FlagView> {
    seq![
        FlagView {
            name: SHOW_SCRIPT_FLAG@,
            help: "Show the generated bash script (without subcommand code)"@,
            long_help: None,
            exclusive: false,
            takes_shell: false,
        },
        FlagView {
            name: DEBUG_FLAG@,
            help: "Show the generated bash script for a subcommand"@,
            long_help: None,
            exclusive: true,
            takes_shell: false,
        },
        FlagView {
            name: SHELL_COMPLETIONS@,
            help: "Generate shell completions"@,
            long_help: Some(
                "Generate shell completions. To generate bash completions:\n\nsource <(\""@
                    + program + "\" --shell-completions bash)\n"@,
            ),
            exclusive: true,
            takes_shell: true,
        },
    ]
}

/// The command line of a script called as `program`. Where the shortcut
/// applies the program takes the parameters of the entry function and has no
/// subcommands; otherwise it takes none and has one subcommand for each public
/// function.
pub open spec fn surface_of(script: ScriptView, program: Seq<char>) -> SurfaceView {
    let public = public_items(script.items);
    SurfaceView {
        program,
        description: script.description,
        flags: flags_of(program),
        parameters: if shortcut(script.items) {
            parameters_of(public[0].signature)
        } else {
            Seq::empty()
        },
        commands: if shortcut(script.items) {
            Seq::empty()
        } else {
            public.map_values(|i: ItemView| command_of(i))
        },
    }
}

/// What the names of the arguments of a function amount to when values are
/// taken out of a match.
#[derive(Debug)]
pub struct ItemArgNames {
    pub names: Vec<String>,
    pub forward_extra: bool,
}

/// What was matched of the arguments of a call.
#[derive(Debug)]
pub struct Matched {
    /// Whether the flag that asks for the rendered script was given.
    pub show_script: bool,
    /// Whether the flag that asks for the script of the call was given.
    pub debug: bool,
    /// The subcommand that was given, if any.
    pub command: Option<String>,
    /// For each parameter of the command that was called, in declared order,
    /// the values that were matched for it.
    pub values: Vec<Vec<String>>,
}

/// What a [`Matched`] holds.
pub ghost struct MatchedView {
    pub show_script: bool,
    pub debug: bool,
    pub command: Option<Seq<char>>,
    pub values: Seq<Seq<Seq<char>>>,
}

impl View for Matched {
    type V = MatchedView;

    open spec fn view(&self) -> MatchedView {
        MatchedView {
            show_script: self.show_script,
            debug: self.debug,
            command: match self.command {
                Some(name) => Some(name@),
                None => None,
            },
            values: self.values.deep_view(),
        }
    }
}

/// What is to be done for a call.
#[derive(Debug)]
pub enum Action {
    /// Print the rendered script and run nothing.
    ShowScript,
    /// Print the script of the call, which is given in full, and run nothing.
    ShowDebug { script: String },
    /// Run the function `name` on the arguments `args`.
    Invoke { name: String, args: Vec<String> },
    /// No function was chosen: print the help and end with status 2.
    Help,
}

/// What an [`Action`] holds.
pub ghost enum ActionView {
    ShowScript,
    ShowDebug { script: Seq<char> },
    Invoke { name: Seq<char>, args: Seq<Seq<char>> },
    Help,
}

impl View for Action {
    type V = ActionView;

    open spec fn view(&self) -> ActionView {
        match self {
            Action::ShowScript => ActionView::ShowScript,
            Action::ShowDebug { script } => ActionView::ShowDebug { script: script@ },
            Action::Invoke { name, args } => ActionView::Invoke {
                name: name@,
                args: args.deep_view(),
            },
            Action::Help => ActionView::Help,
        }
    }
}

/// Index of the first public function called `name`, if there is one.
pub open spec fn find_public(items: Seq<ItemView>, name: Seq<char>) -> Option<int>
    decreases items.len(),
{
    if items.len() == 0 {
        None
    } else {
        match find_public(items.drop_last(), name) {
            Some(k) => Some(k),
            None => if items.last().is_pub && items.last().signature.name == name {
                Some(items.len() - 1)
            } else {
                None
            },
        }
    }
}

/// Index of the function that a call is for: the entry function where the
/// shortcut applies, else the public function that the subcommand names.
pub open spec fn target(items: Seq<ItemView>, matched: MatchedView) -> Option<int> {
    if shortcut(items) {
        find_public(items, ENTRY_NAME@)
    } else {
        match matched.command {
            Some(name) => find_public(items, name),
            None => None,
        }
    }
}

/// Whether the values fit a function that binds `count` arguments and, if
/// `forward_extra`, forwards the rest: there is one entry for each parameter,
/// and exactly one value for each argument that is bound.
pub open spec fn fits_parameters(values: Seq<Seq<Seq<char>>>, count: int, forward_extra: bool)
    -> bool {
    &&& values.len() == count + if forward_extra { 1int } else { 0int }
    &&& forall|i: int| 0 <= i < count ==> (#[trigger] values[i]).len() == 1
}

/// Whether the match is one that the command line of the script allows: a
/// subcommand that was matched is a public function, and the values fit the
/// function that the call is for. Nothing is asked of a match that carries the
/// flag for the rendered script.
pub open spec fn fits(script: ScriptView, matched: MatchedView) -> bool {
    matched.show_script || match target(script.items, matched) {
        Some(k) => fits_parameters(
            matched.values,
            script.items[k].signature.args.len() as int,
            script.items[k].signature.forward is Some,
        ),
        None => shortcut(script.items) || matched.command is None,
    }
}

/// The arguments that a call binds: the one value of each of the `count`
/// arguments that are bound, in declared order, then, where the function
/// forwards what is left, all values that were matched for that, in their
/// order.
pub open spec fn bound(values: Seq<Seq<Seq<char>>>, count: int, forward_extra: bool) -> Seq<
    Seq<char>,
> {
    let firsts = Seq::new(count as nat, |i: int| values[i][0]);
    if forward_extra {
        firsts + values[count]
    } else {
        firsts
    }
}

/// The script that calls the function `name` of a script called as
/// `program`: the rendered script, the strict mode of the shell, the name of
/// the program, and the call on all arguments.
pub open spec fn invocation(items: Seq<ItemView>, program: Seq<char>, name: Seq<char>) -> Seq<
    char,
> {
    rendered(items) + "\n\nset -euo pipefail\nBASH_ARGV0=\""@ + program + "\"\n\n"@ + name
        + " \"$@\""@
}

/// What is to be done for a match: the rendered script if its flag was given;
/// else, for the function that the call is for, its script if the debug flag
/// was given and the call itself if not; else the help.
pub open spec fn resolve(script: ScriptView, program: Seq<char>, matched: MatchedView)
    -> ActionView {
    if matched.show_script {
        ActionView::ShowScript
    } else {
        match target(script.items, matched) {
            Some(k) => {
                let item = script.items[k];
                if matched.debug {
                    ActionView::ShowDebug {
                        script: invocation(script.items, program, item.signature.name),
                    }
                } else {
                    ActionView::Invoke {
                        name: item.signature.name,
                        args: bound(
                            matched.values,
                            item.signature.args.len() as int,
                            item.signature.forward is Some,
                        ),
                    }
                }
            },
            None => ActionView::Help,
        }
    }
}

/// The parameters against which the values of a call are matched: those of
/// the program itself for a call without a subcommand, else those of the first
/// command with the name of the subcommand, if there is one.
pub open spec fn parameters_for(surface: SurfaceView, command: Option<Seq<char>>) -> Option<
    Seq<ParameterView>,
> {
    match command {
        None => Some(surface.parameters),
        Some(name) => match first_named(surface.commands, name) {
            Some(k) => Some(surface.commands[k].parameters),
            None => None,
        },
    }
}

/// Index of the first command called `name`, if there is one.
pub open spec fn first_named(commands: Seq<CommandView>, name: Seq<char>) -> Option<int>
    decreases commands.len(),
{
    if commands.len() == 0 {
        None
    } else {
        match first_named(commands.drop_last(), name) {
            Some(k) => Some(k),
            None => if commands.last().name == name {
                Some(commands.len() - 1)
            } else {
                None
            },
        }
    }
}

/// Whether two texts are the same.
fn same_text(a: &str, b: &str) -> (out: bool)
    ensures
        out == (a@ == b@),
{
    a.to_owned() == b.to_owned()
}

fn parameter(name: &str, required: bool, multiple: bool, description: &Description) -> (out:
    Parameter)
    ensures
        out@ == (ParameterView { name: name@, required, multiple, description: description@ }),
{
    Parameter {
        name: name.to_owned(),
        required,
        multiple,
        short: description.short().to_owned(),
        long: description.long().to_owned(),
    }
}

/// The flags of a script called as `program`.
fn flags(program: &str) -> (out: Vec<Flag>)
    ensures
        flag_views(out@) == flags_of(program@),
{
    let mut long_help =
        "Generate shell completions. To generate bash completions:\n\nsource <(\"".to_owned();
    long_help.append(program);
    long_help.append("\" --shell-completions bash)\n");
    let mut out: Vec<Flag> = Vec::new();
    out.push(
        Flag {
            name: SHOW_SCRIPT_FLAG.to_owned(),
            help: "Show the generated bash script (without subcommand code)".to_owned(),
            long_help: None,
            exclusive: false,
            takes_shell: false,
        },
    );
    out.push(
        Flag {
            name: DEBUG_FLAG.to_owned(),
            help: "Show the generated bash script for a subcommand".to_owned(),
            long_help: None,
            exclusive: true,
            takes_shell: false,
        },
    );
    out.push(
        Flag {
            name: SHELL_COMPLETIONS.to_owned(),
            help: "Generate shell completions".to_owned(),
            long_help: Some(long_help),
            exclusive: true,
            takes_shell: true,
        },
    );
    assert(flag_views(out@) =~= flags_of(program@));
    out
}

/// The command for `item`, and the names under which the values of its
/// arguments are matched.
pub fn item_arg_spec(item: &Item) -> (out: (Command, ItemArgNames))
    ensures
        out.0@ == command_of(item@),
        out.1.names.deep_view() == item@.signature.args.map_values(|a: ArgView| a.name),
        out.1.forward_extra == item@.signature.forward is Some,
{
    let signature = item.fn_signature();
    let list = signature.arguments();
    let ghost views = item@.signature.args;
    let mut parameters: Vec<Parameter> = Vec::new();
    let mut names: Vec<String> = Vec::new();
    let mut i: usize = 0;
    while i < list.len()
        invariant
            i <= list.len(),
            arg_views(list@) == views,
            parameter_views(parameters@) == views.take(i as int).map_values(
                |a: ArgView| named_parameter(a),
            ),
            names.deep_view() == views.take(i as int).map_values(|a: ArgView| a.name),
        decreases list.len() - i,
    {
        let arg = &list[i];
        let ghost before = parameter_views(parameters@);
        let ghost names_before = names.deep_view();
        parameters.push(parameter(arg.name(), true, false, arg.description()));
        names.push(arg.name().to_owned());
        proof {
            assert(views[i as int] == list@[i as int]@);
            assert(parameter_views(parameters@) =~= before.push(named_parameter(views[i as int])));
            assert(names.deep_view() =~= names_before.push(views[i as int].name));
            assert(views.take(i + 1) =~= views.take(i as int).push(views[i as int]));
            assert(views.take(i + 1).map_values(|a: ArgView| named_parameter(a)) =~= before.push(
                named_parameter(views[i as int]),
            ));
            assert(views.take(i + 1).map_values(|a: ArgView| a.name) =~= names_before.push(
                views[i as int].name,
            ));
        }
        i += 1;
    }
    proof {
        assert(views.take(list.len() as int) =~= views);
    }
    let forward = signature.forward_extra_args();
    let forward_extra = forward.is_some();
    match forward {
        Some(description) => {
            let ghost before = parameter_views(parameters@);
            parameters.push(parameter(FORWARDED_ARGS_NAME, false, true, description));
            assert(parameter_views(parameters@) =~= before.push(forward_parameter(description@)));
        },
        None => {},
    }
    let command = Command {
        name: signature.name().to_owned(),
        short: item.description().short().to_owned(),
        long: item.description().long().to_owned(),
        parameters,
    };
    (command, ItemArgNames { names, forward_extra })
}

/// The arguments that a call binds, taken out of what was matched.
pub fn extract_args(matched: &Matched, item_args: &ItemArgNames) -> (out: Vec<String>)
    requires
        fits_parameters(matched@.values, item_args.names.len() as int, item_args.forward_extra),
    ensures
        out.deep_view() == bound(
            matched@.values,
            item_args.names.len() as int,
            item_args.forward_extra,
        ),
{
    let count = item_args.names.len();
    let ghost values = matched@.values;
    let ghost firsts = Seq::new(count as nat, |i: int| values[i][0]);
    let mut out: Vec<String> = Vec::new();
    let mut i: usize = 0;
    while i < count
        invariant
            i <= count <= matched.values.len(),
            values == matched.values.deep_view(),
            forall|j: int| 0 <= j < count ==> (#[trigger] values[j]).len() == 1,
            firsts == Seq::new(count as nat, |i: int| values[i][0]),
            out.deep_view() == firsts.take(i as int),
        decreases count - i,
    {
        let ghost before = out.deep_view();
        assert(values[i as int].len() == 1);
        assert(values[i as int] == matched.values[i as int].deep_view());
        out.push(matched.values[i][0].clone());
        proof {
            assert(out.deep_view() =~= before.push(values[i as int][0]));
            assert(firsts.take(i + 1) =~= firsts.take(i as int).push(firsts[i as int]));
        }
        i += 1;
    }
    proof {
        assert(firsts.take(count as int) =~= firsts);
    }
    if item_args.forward_extra {
        let rest = &matched.values[count];
        let ghost forwarded = values[count as int];
        assert(forwarded == rest.deep_view());
        let mut j: usize = 0;
        while j < rest.len()
            invariant
                j <= rest.len(),
                forwarded == rest.deep_view(),
                out.deep_view() == firsts + forwarded.take(j as int),
            decreases rest.len() - j,
        {
            let ghost before = out.deep_view();
            out.push(rest[j].clone());
            proof {
                assert(out.deep_view() =~= before.push(forwarded[j as int]));
                assert(forwarded.take(j + 1) =~= forwarded.take(j as int).push(
                    forwarded[j as int],
                ));
            }
            j += 1;
        }
        proof {
            assert(forwarded.take(rest.len() as int) =~= forwarded);
        }
    }
    out
}

/// Whether each of the first `count` entries holds exactly one value.
fn all_single(values: &Vec<Vec<String>>, count: usize) -> (out: bool)
    requires
        count <= values.len(),
    ensures
        out == forall|i: int| 0 <= i < count ==> (#[trigger] values.deep_view()[i]).len() == 1,
{
    let ghost views = values.deep_view();
    let mut i: usize = 0;
    while i < count
        invariant
            i <= count <= values.len(),
            views == values.deep_view(),
            forall|j: int| 0 <= j < i ==> (#[trigger] views[j]).len() == 1,
        decreases count - i,
    {
        assert(views[i as int] == values[i as int].deep_view());
        if values[i].len() != 1 {
            assert(views[i as int].len() != 1);
            return false;
        }
        i += 1;
    }
    true
}

/// Number of public functions, and the index of the last of them.
fn count_public(items: &Vec<Item>) -> (out: (usize, usize))
    ensures
        out.0 == public_items(item_views(items@)).len(),
        out.0 > 0 ==> out.1 < items.len() && public_items(item_views(items@)).last()
            == items@[out.1 as int]@,
{
    let ghost views = item_views(items@);
    let mut count: usize = 0;
    let mut last: usize = 0;
    let mut k: usize = 0;
    while k < items.len()
        invariant
            k <= items.len(),
            views == item_views(items@),
            count == public_items(views.take(k as int)).len(),
            count <= k,
            count > 0 ==> last < k && public_items(views.take(k as int)).last()
                == views[last as int],
        decreases items.len() - k,
    {
        proof {
            assert(views.take(k + 1).drop_last() =~= views.take(k as int));
            assert(views.take(k + 1).last() == views[k as int]);
            assert(views[k as int] == items@[k as int]@);
        }
        if items[k].is_pub() {
            count += 1;
            last = k;
        }
        k += 1;
    }
    proof {
        assert(views.take(items.len() as int) =~= views);
    }
    (count, last)
}

/// Index of the first public function called `name`.
fn index_of_public(items: &Vec<Item>, name: &str) -> (out: Option<usize>)
    ensures
        match out {
            Some(k) => k < items.len() && find_public(item_views(items@), name@) == Some(k as int),
            None => find_public(item_views(items@), name@) is None,
        },
{
    let ghost views = item_views(items@);
    let mut k: usize = 0;
    while k < items.len()
        invariant
            k <= items.len(),
            views == item_views(items@),
            find_public(views.take(k as int), name@) is None,
        decreases items.len() - k,
    {
        proof {
            assert(views.take(k + 1).drop_last() =~= views.take(k as int));
            assert(views.take(k + 1).last() == views[k as int]);
            assert(views[k as int] == items@[k as int]@);
        }
        if items[k].is_pub() && same_text(items[k].fn_signature().name(), name) {
            proof {
                lemma_find_public_stays(views, name@, k + 1, k as int);
            }
            return Some(k);
        }
        k += 1;
    }
    proof {
        assert(views.take(items.len() as int) =~= views);
    }
    None
}

/// A public function found among the first `n` is the one found among all.
proof fn lemma_find_public_stays(items: Seq<ItemView>, name: Seq<char>, n: int, k: int)
    requires
        0 <= n <= items.len(),
        find_public(items.take(n), name) == Some(k),
    ensures
        find_public(items, name) == Some(k),
    decreases items.len() - n,
{
    if n == items.len() {
        assert(items.take(n) =~= items);
    } else {
        assert(items.take(n + 1).drop_last() =~= items.take(n));
        lemma_find_public_stays(items, name, n + 1, k);
    }
}

/// A command found among the first `n` is the one found among all.
proof fn lemma_first_named_stays(commands: Seq<CommandView>, name: Seq<char>, n: int, k: int)
    requires
        0 <= n <= commands.len(),
        first_named(commands.take(n), name) == Some(k),
    ensures
        first_named(commands, name) == Some(k),
    decreases commands.len() - n,
{
    if n == commands.len() {
        assert(commands.take(n) =~= commands);
    } else {
        assert(commands.take(n + 1).drop_last() =~= commands.take(n));
        lemma_first_named_stays(commands, name, n + 1, k);
    }
}

impl Surface {
    /// The parameters against which the values of a call are matched: those
    /// of the program itself for a call without a subcommand, else those of
    /// the command that the subcommand names.
    pub fn parameters(&self, command: Option<&str>) -> (out: Option<&Vec<Parameter>>)
        ensures
            match out {
                Some(list) => parameters_for(
                    self@,
                    match command {
                        Some(name) => Some(name@),
                        None => None,
                    },
                ) == Some(parameter_views(list@)),
                None => parameters_for(
                    self@,
                    match command {
                        Some(name) => Some(name@),
                        None => None,
                    },
                ) is None,
            },
    {
        let name = match command {
            None => {
                return Some(&self.parameters);
            },
            Some(name) => name,
        };
        let ghost views = command_views(self.commands@);
        let mut k: usize = 0;
        while k < self.commands.len()
            invariant
                k <= self.commands.len(),
                command == Some(name),
                views == command_views(self.commands@),
                first_named(views.take(k as int), name@) is None,
            decreases self.commands.len() - k,
        {
            proof {
                assert(views.take(k + 1).drop_last() =~= views.take(k as int));
                assert(views.take(k + 1).last() == views[k as int]);
                assert(views[k as int] == self.commands@[k as int]@);
            }
            if same_text(self.commands[k].name.as_str(), name) {
                proof {
                    lemma_first_named_stays(views, name@, k + 1, k as int);
                }
                return Some(&self.commands[k].parameters);
            }
            k += 1;
        }
        proof {
            assert(views.take(self.commands.len() as int) =~= views);
        }
        None
    }
}

impl Script {
    /// Whether the program stands for its one public function.
    pub fn has_shortcut(&self) -> (out: bool)
        ensures
            out == shortcut(self@.items),
    {
        let items = self.items();
        let (count, last) = count_public(items);
        proof {
            if count == 1 {
                assert(public_items(self@.items).last() == public_items(self@.items)[0]);
            }
        }
        count == 1 && same_text(items[last].fn_signature().name(), ENTRY_NAME)
    }

    /// Index of the function that a call with this match is for.
    fn target_of(&self, matched: &Matched) -> (out: Option<usize>)
        ensures
            match out {
                Some(k) => k < self@.items.len() && target(self@.items, matched@) == Some(k as int),
                None => target(self@.items, matched@) is None,
            },
    {
        let items = self.items();
        if self.has_shortcut() {
            index_of_public(items, ENTRY_NAME)
        } else {
            match &matched.command {
                Some(name) => index_of_public(items, name.as_str()),
                None => None,
            }
        }
    }

    /// The command line of this script when it is called as `program`.
    pub fn surface(&self, program: &str) -> (out: Surface)
        ensures
            out@ == surface_of(self@, program@),
    {
        let items = self.items();
        let ghost views = self@.items;
        let shortcut = self.has_shortcut();
        let mut parameters: Vec<Parameter> = Vec::new();
        let mut commands: Vec<Command> = Vec::new();
        let mut k: usize = 0;
        while k < items.len()
            invariant
                k <= items.len(),
                views == item_views(items@),
                shortcut == crate::cli::shortcut(views),
                !shortcut ==> parameters@.len() == 0,
                !shortcut ==> command_views(commands@) == public_items(
                    views.take(k as int),
                ).map_values(|i: ItemView| command_of(i)),
                shortcut ==> commands@.len() == 0,
                shortcut ==> public_items(views.take(k as int)).len() <= 1,
                shortcut ==> parameter_views(parameters@) == if public_items(
                    views.take(k as int),
                ).len() == 1 {
                    parameters_of(public_items(views.take(k as int))[0].signature)
                } else {
                    Seq::empty()
                },
            decreases items.len() - k,
        {
            proof {
                assert(views.take(k + 1).drop_last() =~= views.take(k as int));
                assert(views.take(k + 1).last() == views[k as int]);
                assert(views[k as int] == items@[k as int]@);
                lemma_public_grows(views, k as int);
                lemma_public_prefix(views, k + 1);
            }
            if items[k].is_pub() {
                let (command, _names) = item_arg_spec(&items[k]);
                if shortcut {
                    parameters = command.parameters;
                } else {
                    let ghost before = command_views(commands@);
                    commands.push(command);
                    proof {
                        let public = public_items(views.take(k as int));
                        assert(command_views(commands@) =~= before.push(
                            command_of(views[k as int]),
                        ));
                        assert(public.push(views[k as int]).map_values(|i: ItemView| command_of(i))
                            =~= before.push(command_of(views[k as int])));
                    }
                }
            }
            k += 1;
        }
        proof {
            assert(views.take(items.len() as int) =~= views);
            assert(parameter_views(parameters@) =~= surface_of(self@, program@).parameters);
            assert(command_views(commands@) =~= surface_of(self@, program@).commands);
        }
        Surface {
            program: program.to_owned(),
            short: self.description().short().to_owned(),
            long: self.description().long().to_owned(),
            flags: flags(program),
            parameters,
            commands,
        }
    }

    /// The script that calls the function `name` when this script is called
    /// as `script_file`.
    pub fn invocation(&self, script_file: &str, name: &str) -> (out: String)
        ensures
            out@ == invocation(self@.items, script_file@, name@),
    {
        let mut out = self.render();
        out.append("\n\nset -euo pipefail\nBASH_ARGV0=\"");
        out.append(script_file);
        out.append("\"\n\n");
        out.append(name);
        out.append(" \"$@\"");
        out
    }

    /// Whether `matched` is a match that the command line of this script allows.
    pub fn accepts(&self, matched: &Matched) -> (out: bool)
        ensures
            out == fits(self@, matched@),
    {
        if matched.show_script {
            return true;
        }
        let items = self.items();
        match self.target_of(matched) {
            Some(k) => {
                let signature = items[k].fn_signature();
                let list = signature.arguments();
                let count = list.len();
                let forward_extra = signature.forward_extra_args().is_some();
                proof {
                    assert(self@.items[k as int] == items@[k as int]@);
                    assert(arg_views(list@).len() == count);
                }
                let expected = if forward_extra {
                    if count == usize::MAX {
                        assert(matched@.values.len() == matched.values.len());
                        return false;
                    }
                    count + 1
                } else {
                    count
                };
                matched.values.len() == expected && all_single(&matched.values, count)
            },
            None => self.has_shortcut() || matched.command.is_none(),
        }
    }

    /// Decides what is to be done for a call of this script as `script_file`
    /// whose arguments were matched as `matched`.
    pub fn parse_args(&self, script_file: &str, matched: &Matched) -> (out: Action)
        requires
            fits(self@, matched@),
        ensures
            out@ == resolve(self@, script_file@, matched@),
    {
        if matched.show_script {
            return Action::ShowScript;
        }
        match self.target_of(matched) {
            Some(k) => {
                let item = &self.items()[k];
                proof {
                    assert(self@.items[k as int] == item@);
                }
                let name = item.fn_signature().name();
                if matched.debug {
                    Action::ShowDebug { script: self.invocation(script_file, name) }
                } else {
                    let (_command, names) = item_arg_spec(item);
                    proof {
                        assert(names.names.deep_view().len() == item@.signature.args.len());
                    }
                    Action::Invoke { name: name.to_owned(), args: extract_args(matched, &names) }
                }
            },
            None => Action::Help,
        }
    }
}

/// The public functions among the first `k + 1` are those among the first
/// `k`, and function `k` if it is public.
proof fn lemma_public_grows(items: Seq<ItemView>, k: int)
    requires
        0 <= k < items.len(),
    ensures
        public_items(items.take(k + 1)) == if items[k].is_pub {
            public_items(items.take(k)).push(items[k])
        } else {
            public_items(items.take(k))
        },
{
    assert(items.take(k + 1).drop_last() =~= items.take(k));
}

/// The public functions among the first `k` open the public functions of all.
proof fn lemma_public_prefix(items: Seq<ItemView>, k: int)
    requires
        0 <= k <= items.len(),
    ensures
        public_items(items.take(k)).len() <= public_items(items).len(),
        public_items(items.take(k)).len() > 0 ==> public_items(items.take(k))[0] == public_items(
            items,
        )[0],
    decreases items.len() - k,
{
    if k == items.len() {
        assert(items.take(k) =~= items);
    } else {
        lemma_public_grows(items, k);
        lemma_public_prefix(items, k + 1);
    }
}

/// The forward marker on the command line: a function that has it gets, after
/// one parameter that takes exactly one value for each argument with a name, a
/// last parameter that takes any number of values, none included; and a call
/// binds all values that were matched for it, in their order, after the others.
pub proof fn lemma_forward_parameter(signature: SignatureView, values: Seq<Seq<Seq<char>>>)
    requires
        signature.forward is Some,
        fits_parameters(values, signature.args.len() as int, true),
    ensures
        parameters_of(signature).len() == signature.args.len() + 1,
        forall|i: int|
            0 <= i < signature.args.len() ==> (#[trigger] parameters_of(signature)[i]).required
                && !parameters_of(signature)[i].multiple,
        !parameters_of(signature).last().required,
        parameters_of(signature).last().multiple,
        parameters_of(signature).last().name == FORWARDED_ARGS_NAME@,
        bound(values, signature.args.len() as int, true).len() == signature.args.len()
            + values.last().len(),
        bound(values, signature.args.len() as int, true).skip(signature.args.len() as int)
            == values.last(),
        forall|i: int|
            0 <= i < signature.args.len() ==> #[trigger] bound(
                values,
                signature.args.len() as int,
                true,
            )[i] == values[i][0],
{
    assert(bound(values, signature.args.len() as int, true).skip(signature.args.len() as int)
        =~= values.last());
}

/// Where exactly one function is public, that is the public function that is
/// found under its name.
proof fn lemma_only_public(items: Seq<ItemView>)
    requires
        public_items(items).len() == 1,
    ensures
        find_public(items, public_items(items)[0].signature.name) matches Some(k) && 0 <= k
            < items.len() && items[k] == public_items(items)[0],
    decreases items.len(),
{
    let name = public_items(items)[0].signature.name;
    if items.last().is_pub {
        assert(public_items(items.drop_last()).len() == 0);
        lemma_none_public(items.drop_last(), name);
    } else {
        lemma_only_public(items.drop_last());
    }
}

proof fn lemma_none_public(items: Seq<ItemView>, name: Seq<char>)
    requires
        public_items(items).len() == 0,
    ensures
        find_public(items, name) is None,
    decreases items.len(),
{
    if items.len() > 0 {
        lemma_none_public(items.drop_last(), name);
    }
}

/// A function that is found under a name is public and has that name.
pub proof fn lemma_find_public_is_public(items: Seq<ItemView>, name: Seq<char>)
    ensures
        find_public(items, name) matches Some(k) ==> 0 <= k < items.len() && items[k].is_pub
            && items[k].signature.name == name,
    decreases items.len(),
{
    if items.len() > 0 {
        lemma_find_public_is_public(items.drop_last(), name);
    }
}

/// The shortcut of a single public entry function: a script whose only
/// public function has the entry name is called without a subcommand, never
/// answers with the help, and binds the values of a call as a script does that
/// has the same function among several public ones and is called with the
/// entry name as the subcommand.
pub proof fn lemma_shortcut_binds_alike(
    alone: ScriptView,
    among: ScriptView,
    program: Seq<char>,
    values: Seq<Seq<Seq<char>>>,
)
    requires
        shortcut(alone.items),
        !shortcut(among.items),
        find_public(among.items, ENTRY_NAME@) matches Some(j) && among.items[j].signature
            == public_items(alone.items)[0].signature,
    ensures
        ({
            let direct = MatchedView { show_script: false, debug: false, command: None, values };
            let named = MatchedView { command: Some(ENTRY_NAME@), ..direct };
            let entry = public_items(alone.items)[0].signature;
            &&& fits(alone, direct) == fits(among, named)
            &&& resolve(alone, program, direct) == resolve(among, program, named)
            &&& resolve(alone, program, direct) == ActionView::Invoke {
                name: ENTRY_NAME@,
                args: bound(values, entry.args.len() as int, entry.forward is Some),
            }
        }),
{
    lemma_only_public(alone.items);
    lemma_find_public_is_public(among.items, ENTRY_NAME@);
}

} // verus!
