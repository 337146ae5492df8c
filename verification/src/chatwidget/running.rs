//! The table of the commands that are running.

use crate::chatwidget::copy_strings;
use crate::text::strings;
use vstd::hash_map::StringHashMap;
use vstd::prelude::*;

verus! {

/// A command that is running.
#[derive(Debug, PartialEq, Eq)]
pub struct RunningCommand {
    /// The words of the command.
    pub command: Vec<String>,
    /// The parsed forms of the command.
    pub parsed_cmd: Vec<String>,
}

/// The mathematical value of a running command.
#[verifier::ext_equal]
pub ghost struct RunningCommandView {
    pub command: Seq<Seq<char>>,
    pub parsed_cmd: Seq<Seq<char>>,
}

impl View for RunningCommand {
    type V = RunningCommandView;

    open spec fn view(&self) -> RunningCommandView {
        RunningCommandView {
            command: strings(self.command@),
            parsed_cmd: strings(self.parsed_cmd@),
        }
    }
}

/// The commands that are running, by call id.
pub struct RunningCommands {
    pub table: StringHashMap<RunningCommand>,
}

impl View for RunningCommands {
    type V = Map<Seq<char>, RunningCommandView>;

    open spec fn view(&self) -> Map<Seq<char>, RunningCommandView> {
        self.table@.map_values(|c: RunningCommand| c@)
    }
}

impl RunningCommands {
    /// The table without commands.
    pub fn new() -> (r: RunningCommands)
        ensures
            r@ == Map::<Seq<char>, RunningCommandView>::empty(),
    {
        let r = RunningCommands { table: StringHashMap::new() };
        assert(r@ =~= Map::<Seq<char>, RunningCommandView>::empty());
        r
    }

    /// Puts a command into the table, in the place of the one that the call
    /// id had.
    pub fn insert(&mut self, call_id: String, command: RunningCommand)
        ensures
            final(self)@ == old(self)@.insert(call_id@, command@),
    {
        self.table.insert(call_id, command);
        assert(self@ =~= old(self)@.insert(call_id@, command@));
    }

    /// Takes the command of a call id out of the table.
    pub fn remove(&mut self, call_id: &str) -> (r: Option<RunningCommand>)
        ensures
            final(self)@ == old(self)@.remove(call_id@),
            r is Some == old(self)@.contains_key(call_id@),
            r matches Some(c) ==> c@ == old(self)@[call_id@],
    {
        let found = match self.table.get(call_id) {
            Some(c) => Some(
                RunningCommand {
                    command: copy_strings(&c.command),
                    parsed_cmd: copy_strings(&c.parsed_cmd),
                },
            ),
            None => None,
        };
        self.table.remove(call_id);
        assert(self@ =~= old(self)@.remove(call_id@));
        found
    }

    /// Whether no command is running.
    pub fn is_empty(&self) -> (r: bool)
        ensures
            r == (self@ == Map::<Seq<char>, RunningCommandView>::empty()),
    {
        let r = self.table.is_empty();
        proof {
            if r {
                assert(self@ =~= Map::<Seq<char>, RunningCommandView>::empty());
            } else {
                assert(self@.dom() =~= self.table@.dom());
            }
        }
        r
    }

    /// Takes all commands out of the table.
    pub fn clear(&mut self)
        ensures
            final(self)@ == Map::<Seq<char>, RunningCommandView>::empty(),
    {
        self.table.clear();
        assert(self@ =~= Map::<Seq<char>, RunningCommandView>::empty());
    }
}

} // verus!
