//! The command words a sender can use, and their help texts.

use vstd::prelude::*;
use vstd::string::*;
use crate::text::str_eq;

verus! {

#[derive(Clone, Copy, PartialEq, Eq, Structural, Debug)]
pub enum Command {
    Help,
    Name,
    Stop,
    Info,
    Contacts,
    Delete,
    Confirm,
    Pick,
}

/// The command that a word names; words match exactly, case included.
pub open spec fn parse_spec(w: Seq<char>) -> Option<Command> {
    if w == "h"@ {
        Some(Command::Help)
    } else if w == "name"@ {
        Some(Command::Name)
    } else if w == "stop"@ {
        Some(Command::Stop)
    } else if w == "info"@ {
        Some(Command::Info)
    } else if w == "contacts"@ {
        Some(Command::Contacts)
    } else if w == "delete"@ {
        Some(Command::Delete)
    } else if w == "confirm"@ {
        Some(Command::Confirm)
    } else if w == "pick"@ {
        Some(Command::Pick)
    } else {
        None
    }
}

/// Every command, in the order of the help listing.
pub open spec fn all_commands_spec() -> Seq<Command> {
    seq![
        Command::Help,
        Command::Name,
        Command::Stop,
        Command::Info,
        Command::Contacts,
        Command::Delete,
        Command::Confirm,
        Command::Pick,
    ]
}

pub fn all_commands() -> (r: Vec<Command>)
    ensures
        r@ == all_commands_spec(),
{
    let r = vec![
        Command::Help,
        Command::Name,
        Command::Stop,
        Command::Info,
        Command::Contacts,
        Command::Delete,
        Command::Confirm,
        Command::Pick,
    ];
    assert(r@ =~= all_commands_spec());
    r
}

impl Command {
    pub open spec fn word_spec(self) -> Seq<char> {
        match self {
            Command::Help => "h"@,
            Command::Name => "name"@,
            Command::Stop => "stop"@,
            Command::Info => "info"@,
            Command::Contacts => "contacts"@,
            Command::Delete => "delete"@,
            Command::Confirm => "confirm"@,
            Command::Pick => "pick"@,
        }
    }

    pub open spec fn usage_spec(self) -> Seq<char> {
        match self {
            Command::Help => "h"@,
            Command::Name => "name NAME"@,
            Command::Stop => "stop"@,
            Command::Info => "info COMMAND"@,
            Command::Contacts => "contacts"@,
            Command::Delete => "delete NAME"@,
            Command::Confirm => "confirm NUM1, NUM2, ..."@,
            Command::Pick => "pick NA, MB, ..."@,
        }
    }

    pub open spec fn description_spec(self) -> Seq<char> {
        match self {
            Command::Help => "list the available commands"@,
            Command::Name => "set your name"@,
            Command::Stop => "stop using the service and forget your data"@,
            Command::Info => "get details about one command"@,
            Command::Contacts => "list your contacts"@,
            Command::Delete => "find contacts to delete by name"@,
            Command::Confirm => "delete contacts listed by the delete command"@,
            Command::Pick => "choose numbers for contacts that have several"@,
        }
    }

    pub open spec fn example_spec(self) -> Seq<char> {
        match self {
            Command::Help => "\nExample: h"@,
            Command::Name => "\nExample: name Alice Smith"@,
            Command::Stop => "\nExample: stop"@,
            Command::Info => "\nExample: info name"@,
            Command::Contacts => "\nExample: contacts"@,
            Command::Delete => "\nExample: delete Bob"@,
            Command::Confirm => "\nExample: confirm 1, 3"@,
            Command::Pick => "\nExample: pick 1a, 2b"@,
        }
    }

    /// The one-line nudge towards this command.
    pub open spec fn hint_spec(self) -> Seq<char> {
        "Reply \""@ + self.usage_spec() + "\" to "@ + self.description_spec() + "."@
    }

    pub fn word(&self) -> (r: &'static str)
        ensures
            r@ == self.word_spec(),
    {
        match self {
            Command::Help => "h",
            Command::Name => "name",
            Command::Stop => "stop",
            Command::Info => "info",
            Command::Contacts => "contacts",
            Command::Delete => "delete",
            Command::Confirm => "confirm",
            Command::Pick => "pick",
        }
    }

    pub fn usage(&self) -> (r: &'static str)
        ensures
            r@ == self.usage_spec(),
    {
        match self {
            Command::Help => "h",
            Command::Name => "name NAME",
            Command::Stop => "stop",
            Command::Info => "info COMMAND",
            Command::Contacts => "contacts",
            Command::Delete => "delete NAME",
            Command::Confirm => "confirm NUM1, NUM2, ...",
            Command::Pick => "pick NA, MB, ...",
        }
    }

    pub fn description(&self) -> (r: &'static str)
        ensures
            r@ == self.description_spec(),
    {
        match self {
            Command::Help => "list the available commands",
            Command::Name => "set your name",
            Command::Stop => "stop using the service and forget your data",
            Command::Info => "get details about one command",
            Command::Contacts => "list your contacts",
            Command::Delete => "find contacts to delete by name",
            Command::Confirm => "delete contacts listed by the delete command",
            Command::Pick => "choose numbers for contacts that have several",
        }
    }

    pub fn example(&self) -> (r: &'static str)
        ensures
            r@ == self.example_spec(),
    {
        match self {
            Command::Help => "\nExample: h",
            Command::Name => "\nExample: name Alice Smith",
            Command::Stop => "\nExample: stop",
            Command::Info => "\nExample: info name",
            Command::Contacts => "\nExample: contacts",
            Command::Delete => "\nExample: delete Bob",
            Command::Confirm => "\nExample: confirm 1, 3",
            Command::Pick => "\nExample: pick 1a, 2b",
        }
    }

    pub fn hint(&self) -> (r: String)
        ensures
            r@ == self.hint_spec(),
    {
        let mut r = String::from_str("Reply \"");
        r.append(self.usage());
        r.append("\" to ");
        r.append(self.description());
        r.append(".");
        r
    }

    /// Reads a command word.
    pub fn parse(w: &str) -> (r: Option<Command>)
        ensures
            r == parse_spec(w@),
    {
        if str_eq(w, "h") {
            Some(Command::Help)
        } else if str_eq(w, "name") {
            Some(Command::Name)
        } else if str_eq(w, "stop") {
            Some(Command::Stop)
        } else if str_eq(w, "info") {
            Some(Command::Info)
        } else if str_eq(w, "contacts") {
            Some(Command::Contacts)
        } else if str_eq(w, "delete") {
            Some(Command::Delete)
        } else if str_eq(w, "confirm") {
            Some(Command::Confirm)
        } else if str_eq(w, "pick") {
            Some(Command::Pick)
        } else {
            None
        }
    }
}

} // verus!
