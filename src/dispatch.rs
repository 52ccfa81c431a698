//! Routing of a text message: onboarding for unknown senders, the command
//! word for known ones.

use vstd::prelude::*;
use vstd::string::*;
use crate::command::{all_commands, parse_spec, Command};
use crate::engine::Engine;
use crate::deletion::{confirm_post, delete_post, numbered, push_area};
use crate::pick::pick_post;
use crate::store::{keep, of_submitter, sorted_by_name, view_contacts, view_users, ContactView};
use crate::text::{decimal, join_from, join_spaced, push_decimal, split_words, trimmed, words};

verus! {

/// The longest name a user may set, in characters.
pub const MAX_NAME_LEN: usize = 20;

/// The help line of a command.
pub open spec fn help_line(c: Command) -> Seq<char> {
    "- "@ + c.word_spec() + ": "@ + c.description_spec()
}

/// The first `n` help lines of `cs`, joined by newlines.
pub open spec fn help_lines(cs: Seq<Command>, n: nat) -> Seq<char>
    decreases n,
{
    if n == 0 {
        Seq::empty()
    } else if n == 1 {
        help_line(cs[0])
    } else {
        help_lines(cs, (n - 1) as nat) + "\n"@ + help_line(cs[n - 1])
    }
}

/// The reply to `h`: every command with its description, then the nudge
/// towards `info`.
pub open spec fn help_reply() -> Seq<char> {
    "Available commands:\n"@ + help_lines(crate::command::all_commands_spec(), 8) + "\n\n"@ + Command::Info.hint_spec()
}

/// Why a name is refused.
pub open spec fn name_refusal(name: Seq<char>) -> Seq<char> {
    if name.len() == 0 {
        Command::Name.usage_spec()
    } else {
        "That name is "@ + decimal(name.len()) + " characters long.\nPlease shorten it to 20 characters or less."@
    }
}

/// The reply to `info`, given the words of the message.
pub open spec fn info_reply(ws: Seq<Seq<char>>) -> Seq<char> {
    if ws.len() < 2 {
        Command::Info.hint_spec()
    } else {
        match parse_spec(ws[1]) {
            Some(c) => c.usage_spec() + ", to "@ + c.description_spec() + "."@ + c.example_spec(),
            None => "Command \""@ + ws[1] + "\" not recognized"@,
        }
    }
}

/// The reply listing `from`'s contacts in `store`.
pub open spec fn contacts_reply(store: crate::store::ContactStore, from: Seq<char>, r: Seq<char>) -> bool {
    let mine = keep(view_contacts(store.contacts@), of_submitter(from));
    &&& mine.len() == 0 ==> r == "You don't have any contacts."@
    &&& mine.len() > 0 ==> exists|listed: Seq<ContactView>| #[trigger] listed.to_multiset() == mine.to_multiset()
        && sorted_by_name(listed) && listed.len() == mine.len()
        && r == "Your contacts:\n"@ + numbered(listed, listed.len())
}

pub open spec fn onboarding_reply() -> Seq<char> {
    "Greetings! This is Decision Bot (https://github.com/samcarey/decisionbot).\nTo participate:\n"@
        + Command::Name.hint_spec()
}

pub open spec fn unknown_word_reply(w: Seq<char>) -> Seq<char> {
    "We didn't recognize that command word: \""@ + w + "\".\n"@ + Command::Help.hint_spec()
}

/// A name is accepted when it is not empty and has at most
/// `MAX_NAME_LEN` characters.
pub open spec fn name_ok(name: Seq<char>) -> bool {
    0 < name.len() <= MAX_NAME_LEN
}

/// Reads a name from `ws[from..]`: the words joined by single spaces, or the
/// reply that says why it is refused.
pub fn process_name(ws: &Vec<String>, from: usize) -> (r: Result<String, String>)
    requires
        from <= ws@.len(),
    ensures
        ({
            let name = join_spaced(ws@.subrange(from as int, ws@.len() as int).map_values(|w: String| w@));
            match r {
                Ok(n) => n@ == name && name_ok(name),
                Err(m) => !name_ok(name) && m@ == name_refusal(name),
            }
        }),
{
    let name = join_from(ws, from);
    let n = name.as_str().unicode_len();
    if n == 0 {
        return Err(String::from_str(Command::Name.usage()));
    }
    if n > MAX_NAME_LEN {
        proof {
            reveal_strlit("name NAME");
        }
        let mut m = String::from_str("That name is ");
        push_decimal(&mut m, n as u64);
        m.append(" characters long.\nPlease shorten it to 20 characters or less.");
        assert(m@ =~= "That name is "@ + decimal(n as nat) + " characters long.\nPlease shorten it to 20 characters or less."@);
        return Err(m);
    }
    Ok(name)
}

proof fn lemma_args_view(ws: Seq<String>)
    requires
        ws.len() > 0,
    ensures
        ws.subrange(1, ws.len() as int).map_values(|w: String| w@) == ws.map_values(|w: String| w@).drop_first(),
{
    assert(ws.subrange(1, ws.len() as int).map_values(|w: String| w@) =~= ws.map_values(|w: String| w@).drop_first());
}

impl Engine {
    /// The first exchange with a sender who is not a user yet: only a valid
    /// `name <text>` is heard, and creates the user; anything else gets the
    /// onboarding prompt.
    pub fn onboard_new_user(&mut self, cmd: Option<Command>, ws: &Vec<String>, from: &str) -> (r: String)
        requires
            old(self).wf(),
            !old(self).store.has_user(from@),
            ws@.len() > 0 || cmd is None,
        ensures
            final(self).wf(),
            final(self).flows == old(self).flows,
            ({
                let name = join_spaced(ws@.map_values(|w: String| w@).drop_first());
                if cmd == Some(Command::Name) && name_ok(name) {
                    &&& r@ == "Hello, "@ + name + "! "@ + Command::Help.hint_spec()
                    &&& view_users(final(self).store.users@) == view_users(old(self).store.users@).push((from@, name))
                    &&& final(self).store.contacts@ == old(self).store.contacts@
                    &&& final(self).store.next_id == old(self).store.next_id
                    &&& final(self).store.has_user(from@)
                } else {
                    r@ == onboarding_reply() && *final(self) == *old(self)
                }
            }),
    {
        if cmd == Some(Command::Name) {
            proof {
                lemma_args_view(ws@);
            }
            if let Ok(name) = process_name(ws, 1) {
                self.store.set_user_name(from, name.as_str());
                proof {
                    let us = view_users(self.store.users@);
                    assert(us[us.len() - 1].0 == from@);
                }
                let mut r = String::from_str("Hello, ");
                r.append(name.as_str());
                r.append("! ");
                r.append(Command::Help.hint().as_str());
                return r;
            }
        }
        let mut r = String::from_str("Greetings! This is Decision Bot (https://github.com/samcarey/decisionbot).\nTo participate:\n");
        r.append(Command::Name.hint().as_str());
        r
    }

    /// Lists the contacts of `from` ordered by name, each with its area code.
    pub fn list_contacts(&self, from: &str) -> (r: String)
        ensures
            contacts_reply(self.store, from@, r@),
    {
        broadcast use vstd::seq_lib::group_to_multiset_ensures;
        let mine = self.store.contacts_of(from);
        let cs = crate::store::sort_by_name(&mine);
        assert(view_contacts(cs@).to_multiset().len() == view_contacts(cs@).len());
        assert(view_contacts(mine@).to_multiset().len() == view_contacts(mine@).len());
        assert(cs@.len() == mine@.len());
        if cs.len() == 0 {
            return String::from_str("You don't have any contacts.");
        }
        let ghost fv = view_contacts(cs@);
        let mut r = String::from_str("Your contacts:\n");
        let ghost head = r@;
        let mut i: usize = 0;
        while i < cs.len()
            invariant
                fv == view_contacts(cs@),
                i <= cs@.len(),
                r@ == head + numbered(fv, i as nat),
            decreases cs@.len() - i,
        {
            if i > 0 {
                r.append("\n");
            }
            push_decimal(&mut r, i as u64 + 1);
            r.append(". ");
            r.append(cs[i].contact_name.as_str());
            r.append(" (");
            push_area(&mut r, cs[i].contact_user_number.as_str());
            r.append(")");
            assert(r@ =~= head + numbered(fv, (i + 1) as nat));
            i = i + 1;
        }
        assert(fv.to_multiset() == view_contacts(mine@).to_multiset());
        r
    }

    /// Answers one text message from `from`.
    pub fn handle_text(&mut self, from: &str, body: &str, now: u64) -> (r: String)
        requires
            old(self).wf(),
        ensures
            final(self).wf(),
            old(self).store.has_user(from@) && words(trimmed(body@)).len() == 0 ==> r@ == Command::Help.hint_spec()
                && *final(self) == *old(self),
            !old(self).store.has_user(from@) && !(words(trimmed(body@)).len() > 0 && parse_spec(words(trimmed(body@))[0]) == Some(Command::Name)
                && name_ok(join_spaced(words(trimmed(body@)).drop_first())))
                ==> r@ == onboarding_reply() && *final(self) == *old(self),
            !old(self).store.has_user(from@) && words(trimmed(body@)).len() > 0 && parse_spec(words(trimmed(body@))[0]) == Some(Command::Name)
                && name_ok(join_spaced(words(trimmed(body@)).drop_first())) ==> {
                &&& r@ == "Hello, "@ + join_spaced(words(trimmed(body@)).drop_first()) + "! "@ + Command::Help.hint_spec()
                &&& view_users(final(self).store.users@) == view_users(old(self).store.users@).push(
                    (from@, join_spaced(words(trimmed(body@)).drop_first())))
                &&& final(self).store.contacts@ == old(self).store.contacts@
            },
            !old(self).store.has_user(from@) ==> final(self).flows == old(self).flows,
            old(self).store.has_user(from@) && words(trimmed(body@)).len() > 0 && parse_spec(words(trimmed(body@))[0]) is None
                ==> r@ == unknown_word_reply(words(trimmed(body@))[0]) && *final(self) == *old(self),
            old(self).store.has_user(from@) && words(trimmed(body@)).len() > 0 && parse_spec(words(trimmed(body@))[0]) == Some(Command::Stop)
                ==> !final(self).store.has_user(from@),
            forall|c: Command| #![auto] old(self).store.has_user(from@) && words(trimmed(body@)).len() == 1
                && parse_spec(words(trimmed(body@))[0]) == Some(c) && (c == Command::Delete || c == Command::Confirm || c == Command::Pick)
                ==> r@ == c.hint_spec() && *final(self) == *old(self),
            old(self).store.has_user(from@) && words(trimmed(body@)).len() > 0 && parse_spec(words(trimmed(body@))[0]) == Some(Command::Name)
                && name_ok(join_spaced(words(trimmed(body@)).drop_first()))
                ==> view_users(final(self).store.users@) == crate::store::renamed_user(
                    view_users(old(self).store.users@), from@, join_spaced(words(trimmed(body@)).drop_first())),
            old(self).store.has_user(from@) && words(trimmed(body@)).len() > 0 && join_spaced(words(trimmed(body@)).drop_first()).len() > 0
                ==> {
                let args = join_spaced(words(trimmed(body@)).drop_first());
                let c = parse_spec(words(trimmed(body@))[0]);
                &&& c == Some(Command::Delete) ==> delete_post(*old(self), *final(self), from@, args, now, r@)
                &&& c == Some(Command::Confirm) ==> confirm_post(*old(self), *final(self), from@, args, now, r@)
                &&& c == Some(Command::Pick) ==> pick_post(*old(self), *final(self), from@, args, now, r@)
            },
            old(self).store.has_user(from@) && words(trimmed(body@)).len() > 0 && parse_spec(words(trimmed(body@))[0]) == Some(Command::Help)
                ==> r@ == help_reply() && *final(self) == *old(self),
            old(self).store.has_user(from@) && words(trimmed(body@)).len() > 0 && parse_spec(words(trimmed(body@))[0]) == Some(Command::Stop)
                ==> r@ == "You've been unsubscribed. Goodbye!"@
                && view_contacts(final(self).store.contacts@) == keep(view_contacts(old(self).store.contacts@), crate::store::not_of_submitter(from@)),
            old(self).store.has_user(from@) && words(trimmed(body@)).len() > 0 && parse_spec(words(trimmed(body@))[0]) == Some(Command::Name)
                && name_ok(join_spaced(words(trimmed(body@)).drop_first()))
                ==> r@ == "Your name has been updated to \""@ + join_spaced(words(trimmed(body@)).drop_first()) + "\""@
                && final(self).store.contacts@ == old(self).store.contacts@,
            old(self).store.has_user(from@) && words(trimmed(body@)).len() > 0 && parse_spec(words(trimmed(body@))[0]) == Some(Command::Name)
                && !name_ok(join_spaced(words(trimmed(body@)).drop_first()))
                ==> *final(self) == *old(self) && r@ == name_refusal(join_spaced(words(trimmed(body@)).drop_first())),
            old(self).store.has_user(from@) && words(trimmed(body@)).len() > 0 && parse_spec(words(trimmed(body@))[0]) == Some(Command::Info)
                ==> *final(self) == *old(self) && r@ == info_reply(words(trimmed(body@))),
            old(self).store.has_user(from@) && words(trimmed(body@)).len() > 0 && parse_spec(words(trimmed(body@))[0]) == Some(Command::Contacts)
                ==> *final(self) == *old(self) && contacts_reply(old(self).store, from@, r@),
            old(self).store.has_user(from@) && words(trimmed(body@)).len() > 0 && parse_spec(words(trimmed(body@))[0]) == Some(Command::Stop)
                ==> forall|n: Seq<char>| n != from@ ==> (#[trigger] final(self).store.has_user(n) == old(self).store.has_user(n)),
    {
        let body_trimmed = crate::text::trim(body);
        let ws = split_words(body_trimmed.as_str());
        assert(ws@.map_values(|w: String| w@) =~= words(trimmed(body@)));
        let cmd = if ws.len() > 0 { Command::parse(ws[0].as_str()) } else { None };
        if !self.store.is_user(from) {
            return self.onboard_new_user(cmd, &ws, from);
        }
        if ws.len() == 0 {
            return Command::Help.hint();
        }
        let c = match cmd {
            None => {
                let mut r = String::from_str("We didn't recognize that command word: \"");
                r.append(ws[0].as_str());
                r.append("\".\n");
                r.append(Command::Help.hint().as_str());
                return r;
            },
            Some(c) => c,
        };
        proof {
            lemma_args_view(ws@);
        }
        match c {
            Command::Help => {
                let cmds = all_commands();
                let mut r = String::from_str("Available commands:\n");
                let ghost head = r@;
                let mut i: usize = 0;
                while i < cmds.len()
                    invariant
                        cmds@ == crate::command::all_commands_spec(),
                        i <= cmds@.len(),
                        r@ == head + help_lines(cmds@, i as nat),
                    decreases cmds@.len() - i,
                {
                    if i > 0 {
                        r.append("\n");
                    }
                    r.append("- ");
                    r.append(cmds[i].word());
                    r.append(": ");
                    r.append(cmds[i].description());
                    assert(r@ =~= head + help_lines(cmds@, (i + 1) as nat));
                    i = i + 1;
                }
                r.append("\n\n");
                r.append(Command::Info.hint().as_str());
                assert(r@ =~= help_reply());
                r
            },
            Command::Name => match process_name(&ws, 1) {
                Ok(name) => {
                    self.store.set_user_name(from, name.as_str());
                    let mut r = String::from_str("Your name has been updated to \"");
                    r.append(name.as_str());
                    r.append("\"");
                    assert(r@ =~= "Your name has been updated to \""@ + name@ + "\""@);
                    r
                },
                Err(m) => m,
            },
            Command::Stop => {
                self.store.delete_user(from);
                String::from_str("You've been unsubscribed. Goodbye!")
            },
            Command::Info => {
                if ws.len() < 2 {
                    return Command::Info.hint();
                }
                match Command::parse(ws[1].as_str()) {
                    Some(other) => {
                        let mut r = String::from_str(other.usage());
                        r.append(", to ");
                        r.append(other.description());
                        r.append(".");
                        r.append(other.example());
                        assert(r@ =~= info_reply(words(trimmed(body@))));
                        r
                    },
                    None => {
                        let mut r = String::from_str("Command \"");
                        r.append(ws[1].as_str());
                        r.append("\" not recognized");
                        assert(r@ =~= info_reply(words(trimmed(body@))));
                        r
                    },
                }
            },
            Command::Contacts => self.list_contacts(from),
            Command::Delete => {
                let text = join_from(&ws, 1);
                assert(ws@.len() == 1 ==> ws@.subrange(1, 1).map_values(|w: String| w@) =~= Seq::<Seq<char>>::empty());
                if text.as_str().unicode_len() == 0 {
                    Command::Delete.hint()
                } else {
                    self.handle_delete(from, text.as_str(), now)
                }
            },
            Command::Confirm => {
                let text = join_from(&ws, 1);
                assert(ws@.len() == 1 ==> ws@.subrange(1, 1).map_values(|w: String| w@) =~= Seq::<Seq<char>>::empty());
                if text.as_str().unicode_len() == 0 {
                    Command::Confirm.hint()
                } else {
                    self.handle_confirm(from, text.as_str(), now)
                }
            },
            Command::Pick => {
                let text = join_from(&ws, 1);
                assert(ws@.len() == 1 ==> ws@.subrange(1, 1).map_values(|w: String| w@) =~= Seq::<Seq<char>>::empty());
                if text.as_str().unicode_len() == 0 {
                    Command::Pick.hint()
                } else {
                    self.handle_pick(from, text.as_str(), now)
                }
            },
        }
    }
}

} // verus!
