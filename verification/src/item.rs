//! The functions of a script and their arguments, as the parser hands them
//! to the renderer and to the command line.

use vstd::prelude::*;
use crate::description::{Description, DescriptionView};

verus! {

/// What an [`ItemArg`] holds.
pub ghost struct ArgView {
    pub name: Seq<char>,
    pub description: DescriptionView,
}

/// What a [`FnSignature`] holds.
pub ghost struct SignatureView {
    pub name: Seq<char>,
    /// The arguments that are bound to a variable each, in declared order.
    pub args: Seq<ArgView>,
    /// The description of the trailing parameter that forwards all remaining
    /// arguments, where the function declares one.
    pub forward: Option<DescriptionView>,
}

/// What an [`Item`] holds.
pub ghost struct ItemView {
    pub description: DescriptionView,
    pub is_pub: bool,
    pub is_inline: bool,
    pub signature: SignatureView,
    pub body: Seq<char>,
    /// One-based line of the source on which the body begins.
    pub body_line: nat,
}

/// One argument of a function.
#[derive(Debug)]
pub struct ItemArg {
    name: String,
    description: Description,
}

impl View for ItemArg {
    type V = ArgView;

    closed spec fn view(&self) -> ArgView {
        ArgView { name: self.name@, description: self.description@ }
    }
}

impl ItemArg {
    /// An argument called `name`.
    pub(crate) fn new(name: String, description: Description) -> (out: ItemArg)
        ensures
            out@ == (ArgView { name: name@, description: description@ }),
    {
        ItemArg { name, description }
    }

    /// The name of the argument.
    pub fn name(&self) -> (out: &str)
        ensures
            out@ == self@.name,
    {
        self.name.as_str()
    }

    /// What the doc comments say of the argument.
    pub fn description(&self) -> (out: &Description)
        ensures
            out@ == self@.description,
    {
        &self.description
    }
}

/// The views of a sequence of arguments.
pub open spec fn arg_views(args: Seq<ItemArg>) -> Seq<ArgView> {
    args.map_values(|a: ItemArg| a@)
}

/// Name and parameters of a function.
#[derive(Debug)]
pub struct FnSignature {
    name: String,
    args: Vec<ItemArg>,
    forward_extra_args: Option<Description>,
}

impl View for FnSignature {
    type V = SignatureView;

    closed spec fn view(&self) -> SignatureView {
        SignatureView {
            name: self.name@,
            args: arg_views(self.args@),
            forward: match self.forward_extra_args {
                Some(d) => Some(d@),
                None => None,
            },
        }
    }
}

impl FnSignature {
    /// A signature with the given name and parameters.
    pub(crate) fn new(
        name: String,
        args: Vec<ItemArg>,
        forward_extra_args: Option<Description>,
    ) -> (out: FnSignature)
        ensures
            out@.name == name@,
            out@.args == arg_views(args@),
            out@.forward == match forward_extra_args {
                Some(d) => Some(d@),
                None => None,
            },
    {
        FnSignature { name, args, forward_extra_args }
    }

    /// The name of the function.
    pub fn name(&self) -> (out: &str)
        ensures
            out@ == self@.name,
    {
        self.name.as_str()
    }

    /// Whether `other` has the same name.
    pub fn same_name(&self, other: &FnSignature) -> (out: bool)
        ensures
            out == (self@.name == other@.name),
    {
        self.name == other.name
    }

    /// The arguments that are bound to a variable each, in declared order.
    pub fn arguments(&self) -> (out: &Vec<ItemArg>)
        ensures
            arg_views(out@) == self@.args,
    {
        &self.args
    }

    /// The description of the parameter that forwards all remaining
    /// arguments, where the function declares one.
    pub fn forward_extra_args(&self) -> (out: Option<&Description>)
        ensures
            match out {
                Some(d) => self@.forward == Some(d@),
                None => self@.forward is None,
            },
    {
        self.forward_extra_args.as_ref()
    }
}

/// One function of a script.
#[derive(Debug)]
pub struct Item {
    description: Description,
    is_pub: bool,
    is_inline: bool,
    fn_signature: FnSignature,
    body: String,
    body_line_number: usize,
}

impl View for Item {
    type V = ItemView;

    closed spec fn view(&self) -> ItemView {
        ItemView {
            description: self.description@,
            is_pub: self.is_pub,
            is_inline: self.is_inline,
            signature: self.fn_signature@,
            body: self.body@,
            body_line: self.body_line_number as nat,
        }
    }
}

impl Item {
    /// A function with the given parts.
    pub(crate) fn new(
        description: Description,
        is_pub: bool,
        is_inline: bool,
        fn_signature: FnSignature,
        body: String,
        body_line_number: usize,
    ) -> (out: Item)
        ensures
            out@ == (ItemView {
                description: description@,
                is_pub,
                is_inline,
                signature: fn_signature@,
                body: body@,
                body_line: body_line_number as nat,
            }),
    {
        Item { description, is_pub, is_inline, fn_signature, body, body_line_number }
    }

    /// What the doc comments say of the function.
    pub fn description(&self) -> (out: &Description)
        ensures
            out@ == self@.description,
    {
        &self.description
    }

    /// Whether the function is a command of the script.
    pub fn is_pub(&self) -> (out: bool)
        ensures
            out == self@.is_pub,
    {
        self.is_pub
    }

    /// Whether the body runs in the shell of the caller.
    pub fn is_inline(&self) -> (out: bool)
        ensures
            out == self@.is_inline,
    {
        self.is_inline
    }

    /// Name and parameters of the function.
    pub fn fn_signature(&self) -> (out: &FnSignature)
        ensures
            out@ == self@.signature,
    {
        &self.fn_signature
    }

    /// The body, without its indent.
    pub fn body(&self) -> (out: &str)
        ensures
            out@ == self@.body,
    {
        self.body.as_str()
    }

    /// One-based line of the source on which the body begins.
    pub fn body_line_number(&self) -> (out: usize)
        ensures
            out == self@.body_line,
    {
        self.body_line_number
    }
}

/// The views of a sequence of functions.
pub open spec fn item_views(items: Seq<Item>) -> Seq<ItemView> {
    items.map_values(|i: Item| i@)
}

} // verus!
