//! A decoded command: its name and its arguments.

use vstd::prelude::*;

use smallvec::SmallVec;
use vstd::string::StringSliceAdditionalSpecFns;

use crate::util::utf8_text;

verus! {

/// A command's arguments, held in a `SmallVec` with room for three inline.
#[verifier::external_body]
#[derive(Debug)]
pub struct Args {
    inner: SmallVec<[Vec<u8>; 3]>,
}

/// The arguments that an argument list holds, each by its bytes, in order.
pub uninterp spec fn arg_items(v: Args) -> Seq<Seq<u8>>;

/// Makes an empty argument list with `SmallVec::new`.
#[verifier::external_body]
pub(crate) fn args_new() -> (r: Args)
    ensures
        arg_items(r) == Seq::<Seq<u8>>::empty(),
{
    Args { inner: SmallVec::new() }
}

/// Appends an argument with `SmallVec::push`, which keeps the items before it.
/// `push` panics only when the new capacity overflows, which would need more
/// elements than memory can hold; that case is left unsaid.
#[verifier::external_body]
pub(crate) fn args_push(v: &mut Args, x: Vec<u8>)
    ensures
        arg_items(*final(v)) == arg_items(*old(v)).push(x@),
{
    v.inner.push(x)
}

/// The number of arguments, from `SmallVec::len`.
#[verifier::external_body]
pub(crate) fn args_len(v: &Args) -> (r: usize)
    ensures
        r == arg_items(*v).len(),
{
    v.inner.len()
}

/// Removes and returns the first argument with `SmallVec::remove(0)`, which
/// shifts the others down by one.
#[verifier::external_body]
pub(crate) fn args_remove_first(v: &mut Args) -> (r: Vec<u8>)
    requires
        arg_items(*old(v)).len() > 0,
    ensures
        r@ == arg_items(*old(v))[0],
        arg_items(*final(v)) == arg_items(*old(v)).drop_first(),
{
    v.inner.remove(0)
}

/// The arguments as a slice, from `SmallVec::as_slice`.
#[verifier::external_body]
pub(crate) fn args_slice(v: &Args) -> (r: &[Vec<u8>])
    ensures
        r@.len() == arg_items(*v).len(),
        forall|i: int| 0 <= i < r@.len() ==> (#[trigger] r@[i])@ == arg_items(*v)[i],
{
    v.inner.as_slice()
}

impl Args {
    /// No arguments.
    pub fn new() -> (r: Args)
        ensures
            arg_items(r) == Seq::<Seq<u8>>::empty(),
    {
        args_new()
    }

    /// Appends an argument.
    pub fn push(&mut self, arg: Vec<u8>)
        ensures
            arg_items(*final(self)) == arg_items(*old(self)).push(arg@),
    {
        args_push(self, arg)
    }

    pub fn len(&self) -> (r: usize)
        ensures
            r == arg_items(*self).len(),
    {
        args_len(self)
    }

    /// The arguments, in order.
    pub fn as_slice(&self) -> (r: &[Vec<u8>])
        ensures
            r@.len() == arg_items(*self).len(),
            forall|i: int| 0 <= i < r@.len() ==> (#[trigger] r@[i])@ == arg_items(*self)[i],
    {
        args_slice(self)
    }
}

/// The abstract value of a command.
pub struct CommandView {
    pub name: Seq<u8>,
    pub args: Seq<Seq<u8>>,
}

/// A decoded command.
#[derive(Debug)]
pub struct Command {
    pub name: Vec<u8>,
    pub args: Args,
}

impl View for Command {
    type V = CommandView;

    open spec fn view(&self) -> CommandView {
        CommandView { name: self.name@, args: arg_items(self.args) }
    }
}

impl Command {
    pub fn new(name: Vec<u8>, args: Args) -> (r: Command)
        ensures
            r@ == (CommandView { name: name@, args: arg_items(args) }),
    {
        Command { name, args }
    }

    pub fn name(&self) -> (r: &Vec<u8>)
        ensures
            r@ == self@.name,
    {
        &self.name
    }

    pub fn arg_len(&self) -> (r: usize)
        ensures
            r == self@.args.len(),
    {
        args_len(&self.args)
    }

    /// The name as text, or `"?"` when it is not valid UTF-8.
    pub fn name_str(&self) -> (r: &str)
        ensures
            vstd::utf8::valid_utf8(self@.name) ==> r.spec_bytes() == self@.name,
            !vstd::utf8::valid_utf8(self@.name) ==> r@ == "?"@,
    {
        match utf8_text(self.name.as_slice()) {
            Some(s) => s,
            None => "?",
        }
    }

    /// The arguments, in order.
    pub fn arg_list(&self) -> (r: &[Vec<u8>])
        ensures
            r@.len() == self@.args.len(),
            forall|i: int| 0 <= i < r@.len() ==> (#[trigger] r@[i])@ == self@.args[i],
    {
        args_slice(&self.args)
    }
}

} // verus!
