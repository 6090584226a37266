//! Mapping a raw command onto a closed list of command names.
//!
//! Names are compared without regard to case. A command that none of the
//! declared names matches is kept whole in a fallback variant, so nothing of
//! the line is lost.

use vstd::prelude::*;
use vstd::std_specs::convert::FromSpecImpl;
use crate::error::{ErrorKind, Failure};
use crate::grammar::{parse_line, RawCommandView};
use crate::parser::{texts, Parser, RawCommand};

verus! {

/// The lower-case form of `text` that `str::to_lowercase` gives.
pub uninterp spec fn lowercase(text: Seq<char>) -> Seq<char>;

/// Whether two names are the same but for case.
pub open spec fn same_name(a: Seq<char>, b: Seq<char>) -> bool {
    lowercase(a) == lowercase(b)
}

/// Whether `index` is the first of `names` that is `name` but for case.
pub open spec fn is_first_match(names: Seq<Seq<char>>, name: Seq<char>, index: int) -> bool {
    &&& 0 <= index < names.len()
    &&& same_name(names[index], name)
    &&& forall|earlier: int| 0 <= earlier < index ==> !same_name(#[trigger] names[earlier], name)
}

/// Whether none of `names` is `name` but for case.
pub open spec fn no_match(names: Seq<Seq<char>>, name: Seq<char>) -> bool {
    forall|index: int| 0 <= index < names.len() ==> !same_name(#[trigger] names[index], name)
}

/// Calls `str::to_lowercase`.
///
/// Trusted: the result is the lower-case form of the argument, a function of
/// its characters alone.
#[verifier::external_body]
fn to_lowercase(text: &str) -> (lower: String)
    ensures
        lower@ == lowercase(text@),
{
    text.to_lowercase()
}

/// A command of a closed set, or one that the set does not know.
#[derive(Clone, PartialEq, Debug)]
pub enum Command {
    /// The command whose name stands at this place of the set's declaration.
    Named(usize),
    /// A command which doesn't currently have a variant.
    UnrecognisedCommand(Option<u32>, String, Vec<String>),
}

/// The names of a closed set of commands, in the order of their declaration.
pub struct CommandSet {
    names: Vec<String>,
}

impl CommandSet {
    /// The declared names.
    pub closed spec fn names(self) -> Seq<Seq<char>> {
        texts(self.names@)
    }

    /// What `raw` maps to: the first declared name that is its name but for
    /// case, or else the fallback variant with the fields of `raw`.
    pub open spec fn maps(self, raw: RawCommand, command: Command) -> bool {
        match command {
            Command::Named(index) => is_first_match(self.names(), raw.name@, index as int),
            Command::UnrecognisedCommand(count, name, args) => {
                &&& no_match(self.names(), raw.name@)
                &&& count == raw.count
                &&& name == raw.name
                &&& args == raw.args
            },
        }
    }

    /// Declares a set of commands by their names.
    pub fn new(names: Vec<String>) -> (set: CommandSet)
        ensures
            set.names() == texts(names@),
    {
        CommandSet { names }
    }

    /// Converts a raw command into a command of this set.
    pub fn convert(&self, raw: RawCommand) -> (command: Command)
        ensures
            self.maps(raw, command),
    {
        let name_as_lower = to_lowercase(raw.name.as_str());
        let mut index: usize = 0;
        while index < self.names.len()
            invariant
                index <= self.names@.len(),
                name_as_lower@ == lowercase(raw.name@),
                forall|earlier: int|
                    0 <= earlier < index ==> !same_name(
                        #[trigger] self.names()[earlier],
                        raw.name@,
                    ),
            decreases self.names@.len() - index,
        {
            if name_as_lower == to_lowercase(self.names[index].as_str()) {
                return Command::Named(index);
            }
            index += 1;
        }
        // If we got this far then there were no matches
        Command::UnrecognisedCommand(raw.count, raw.name, raw.args)
    }

    /// Parses a line into a command of this set.
    pub fn parse(&self, line: &str) -> (r: Result<Command, ErrorKind>)
        ensures
            r matches Ok(command) ==> exists|raw: RawCommand|
                parse_line(line@) == Ok::<RawCommandView, Failure>(raw@) && #[trigger] self.maps(
                    raw,
                    command,
                ),
            r matches Err(e) ==> parse_line(line@) == Err::<RawCommandView, Failure>(e.failure()),
    {
        match Parser::new(line).parse() {
            Ok(raw) => Ok(self.convert(raw)),
            Err(e) => Err(e),
        }
    }
}

/// A raw command maps to one command of a set only.
pub proof fn lemma_maps_one(set: CommandSet, raw: RawCommand, first: Command, second: Command)
    requires
        set.maps(raw, first),
        set.maps(raw, second),
    ensures
        first == second,
{
}

/// A command that the set does not know comes back whole: the fallback
/// variant holds its count, its name as it was written, and its arguments.
pub proof fn lemma_fallback_keeps_fields(set: CommandSet, raw: RawCommand, command: Command)
    requires
        set.maps(raw, command),
    ensures
        command matches Command::UnrecognisedCommand(count, name, args) ==> {
            &&& count == raw.count
            &&& name == raw.name
            &&& args == raw.args
        },
        command is UnrecognisedCommand <==> no_match(set.names(), raw.name@),
{
}

/// Two commands whose names differ in case only map to the same declared
/// name, or both to none.
pub proof fn lemma_case_insensitive(set: CommandSet, a: RawCommand, b: RawCommand, index: usize)
    requires
        same_name(a.name@, b.name@),
    ensures
        set.maps(a, Command::Named(index)) == set.maps(b, Command::Named(index)),
        no_match(set.names(), a.name@) == no_match(set.names(), b.name@),
{
}

/// A command whose name is a declared name in any case maps to that name's
/// place, provided that no earlier declared name is the same but for case.
pub proof fn lemma_declared_name_maps(set: CommandSet, raw: RawCommand, index: usize)
    requires
        index < set.names().len(),
        same_name(set.names()[index as int], raw.name@),
        forall|earlier: int|
            0 <= earlier < index ==> !same_name(
                #[trigger] set.names()[earlier],
                set.names()[index as int],
            ),
    ensures
        set.maps(raw, Command::Named(index)),
{
}

/// My custom command
#[derive(Clone, PartialEq, Hash, Debug)]
pub enum MyCommand {
    Foo,
    /// A command which doesn't currently have a variant.
    UnrecognisedCommand(Option<u32>, String, Vec<String>),
}

impl From<RawCommand> for MyCommand {
    fn from(raw: RawCommand) -> (command: Self) {
        let name_as_lower = to_lowercase(raw.name.as_str());

        if name_as_lower == to_lowercase("Foo") {
            return MyCommand::Foo;
        }
        // If we got this far then there were no matches

        MyCommand::UnrecognisedCommand(raw.count, raw.name, raw.args)
    }
}

impl FromSpecImpl<RawCommand> for MyCommand {
    open spec fn obeys_from_spec() -> bool {
        true
    }

    open spec fn from_spec(raw: RawCommand) -> Self {
        if same_name(raw.name@, "Foo"@) {
            MyCommand::Foo
        } else {
            MyCommand::UnrecognisedCommand(raw.count, raw.name, raw.args)
        }
    }
}

} // verus!
