//! The `delete` and `confirm` commands: a name search records numbered
//! deletion candidates; a confirmation deletes the chosen ones together.

use vstd::prelude::*;
use vstd::string::*;
use crate::engine::Engine;
use crate::phone::{area_code, area_code_spec, canonical_spec, canonicalize};
use crate::store::{has_id, keep, not_in_ids, sort_by_name, sorted_by_name, view_contacts, Contact, ContactView};
use crate::text::{decimal, parse_usize, parsed_usize, push_decimal, split_commas, split_trimmed, trimmed};
use crate::workflow::{pending_live, pending_not_for, token_lookup, token_record, view_pending, PendingView};

verus! {

/// What `str::to_lowercase` makes of a text.
pub uninterp spec fn lower_of(s: Seq<char>) -> Seq<char>;

/// Relies on `str::to_lowercase`: the result depends on the characters alone.
#[verifier::external_body]
fn lowercase(s: &str) -> (r: String)
    ensures
        r@ == lower_of(s@),
{
    s.to_lowercase()
}

/// `n` occurs in `h` as a run of consecutive characters.
pub open spec fn has_infix(h: Seq<char>, n: Seq<char>) -> bool {
    exists|i: int| 0 <= i && i + n.len() <= h.len() && #[trigger] h.subrange(i, i + n.len()) == n
}

pub fn contains_infix(h: &str, n: &str) -> (r: bool)
    ensures
        r == has_infix(h@, n@),
{
    let hl = h.unicode_len();
    let nl = n.unicode_len();
    if nl > hl {
        return false;
    }
    let mut i: usize = 0;
    while i <= hl - nl
        invariant
            hl == h@.len(),
            nl == n@.len(),
            nl <= hl,
            i <= hl - nl + 1,
            forall|k: int| 0 <= k < i ==> #[trigger] h@.subrange(k, k + nl) != n@,
        decreases hl - i,
    {
        let mut j: usize = 0;
        let mut same = true;
        assert(h@.subrange(i as int, i as int) =~= n@.subrange(0, 0));
        while j < nl
            invariant
                hl == h@.len(),
                nl == n@.len(),
                i + nl <= hl,
                j <= nl,
                same == (h@.subrange(i as int, i + j) == n@.subrange(0, j as int)),
            decreases nl - j,
        {
            if same && h.get_char(i + j) != n.get_char(j) {
                assert(h@.subrange(i as int, i + j + 1)[j as int] != n@.subrange(0, j + 1)[j as int]);
                same = false;
            } else if same {
                assert(h@.subrange(i as int, i + j + 1) =~= h@.subrange(i as int, i + j).push(h@[i + j]));
                assert(n@.subrange(0, j + 1) =~= n@.subrange(0, j as int).push(n@[j as int]));
            } else {
                proof {
                    assert(h@.subrange(i as int, i + j) != n@.subrange(0, j as int));
                    if h@.subrange(i as int, i + j + 1) == n@.subrange(0, j + 1) {
                        assert(h@.subrange(i as int, i + j) =~= h@.subrange(i as int, i + j + 1).subrange(0, j as int));
                        assert(n@.subrange(0, j as int) =~= n@.subrange(0, j + 1).subrange(0, j as int));
                    }
                }
            }
            j = j + 1;
        }
        assert(n@.subrange(0, nl as int) =~= n@);
        if same {
            return true;
        }
        i = i + 1;
    }
    false
}

/// A contact matches a search when its lowered name holds the lowered text.
pub open spec fn name_matches(c: ContactView, q: Seq<char>) -> bool {
    has_infix(lower_of(c.name), lower_of(q))
}

pub open spec fn matching(submitter: Seq<char>, q: Seq<char>) -> spec_fn(ContactView) -> bool {
    |c: ContactView| c.submitter == submitter && name_matches(c, q)
}

/// The area code shown beside a contact number, or `???` for a number
/// without a canonical form.
pub fn push_area(out: &mut String, number: &str)
    ensures
        final(out)@ == old(out)@ + area_text(number@),
{
    match canonicalize(number) {
        Some(c) => out.append(area_code(c.as_str()).as_str()),
        None => out.append("???"),
    }
}

/// The area code of a written number, or `???` where it has no canonical form.
pub open spec fn area_text(number: Seq<char>) -> Seq<char> {
    match canonical_spec(number) {
        Some(c) => area_code_spec(c),
        None => "???"@,
    }
}

/// The `k`-th line (from 0) of a numbered contact list.
pub open spec fn listing_line(k: nat, c: ContactView) -> Seq<char> {
    decimal(k + 1) + ". "@ + c.name + " ("@ + area_text(c.number) + ")"@
}

/// The first `n` lines of a numbered contact list, joined by newlines.
pub open spec fn numbered(cs: Seq<ContactView>, n: nat) -> Seq<char>
    decreases n,
{
    if n == 0 {
        Seq::empty()
    } else if n == 1 {
        listing_line(0, cs[0])
    } else {
        numbered(cs, (n - 1) as nat) + "\n"@ + listing_line((n - 1) as nat, cs[n - 1])
    }
}

pub open spec fn delete_reply(name: Seq<char>, listed: Seq<ContactView>) -> Seq<char> {
    "Found these contacts matching \""@ + name + "\":\n"@ + numbered(listed, listed.len())
        + "\n\nTo delete contacts, reply \"confirm NUM1, NUM2, ...\", where NUM1, NUM2, etc. are numbers from the list above."@
}

/// The contact ids that confirmation tokens name, in order; tokens that
/// are no positive number, name no pending token, or name a contact that
/// is gone, are skipped.
pub open spec fn confirm_ids(toks: Seq<Seq<char>>, ps: Seq<crate::workflow::PendingView>, from: Seq<char>, cs: Seq<ContactView>) -> Seq<u64>
    decreases toks.len(),
{
    if toks.len() == 0 {
        Seq::empty()
    } else {
        let r = confirm_ids(toks.drop_last(), ps, from, cs);
        match parsed_usize(toks.last()) {
            Some(n) => if n > 0 {
                match token_lookup(ps, from, n as usize) {
                    Some(id) => if has_id(cs, id) { r.push(id) } else { r },
                    None => r,
                }
            } else {
                r
            },
            None => r,
        }
    }
}

/// The error lines for the confirmation tokens that name nothing (or a
/// contact that is gone), in order.
pub open spec fn confirm_errors(toks: Seq<Seq<char>>, ps: Seq<crate::workflow::PendingView>, from: Seq<char>, cs: Seq<ContactView>) -> Seq<Seq<char>>
    decreases toks.len(),
{
    if toks.len() == 0 {
        Seq::empty()
    } else {
        let r = confirm_errors(toks.drop_last(), ps, from, cs);
        let t = toks.last();
        match parsed_usize(t) {
            Some(n) => if n > 0 {
                match token_lookup(ps, from, n as usize) {
                    Some(id) => if has_id(cs, id) { r } else { r.push("Invalid selection: "@ + decimal(n)) },
                    None => r.push("Invalid selection: "@ + decimal(n)),
                }
            } else {
                r.push("Invalid number: "@ + t)
            },
            None => r.push("Invalid number: "@ + t),
        }
    }
}

/// Each line preceded by a newline.
pub open spec fn prefixed_lines(ls: Seq<Seq<char>>) -> Seq<char>
    decreases ls.len(),
{
    if ls.len() == 0 {
        Seq::empty()
    } else {
        prefixed_lines(ls.drop_last()) + "\n"@ + ls.last()
    }
}

/// The reply when no token names a pending deletion.
pub open spec fn no_selection_reply(errs: Seq<Seq<char>>) -> Seq<char> {
    if errs.len() == 0 {
        "No valid selections provided."@
    } else {
        "Errors:"@ + prefixed_lines(errs)
    }
}

/// The contact that has this id.
pub open spec fn id_contact(cs: Seq<ContactView>, id: u64) -> ContactView {
    choose|c: ContactView| #[trigger] cs.contains(c) && c.id == id
}

/// One bullet line per deleted contact: name and area code.
pub open spec fn deleted_lines(cs: Seq<ContactView>, ids: Seq<u64>) -> Seq<char>
    decreases ids.len(),
{
    if ids.len() == 0 {
        Seq::empty()
    } else {
        let c = id_contact(cs, ids.last());
        deleted_lines(cs, ids.drop_last()) + "• "@ + c.name + " ("@ + area_text(c.number) + ")\n"@
    }
}

/// The lines joined by newlines.
pub open spec fn joined(ls: Seq<Seq<char>>) -> Seq<char>
    decreases ls.len(),
{
    if ls.len() == 0 {
        Seq::empty()
    } else if ls.len() == 1 {
        ls[0]
    } else {
        joined(ls.drop_last()) + "\n"@ + ls.last()
    }
}

/// The whole reply after a deletion.
pub open spec fn deleted_reply(cs: Seq<ContactView>, ids: Seq<u64>, errs: Seq<Seq<char>>) -> Seq<char> {
    deleted_head(ids.len()) + deleted_lines(cs, ids) + (if errs.len() > 0 { "\nErrors:\n"@ + joined(errs) } else { Seq::empty() })
}

/// The first line of the reply after a deletion of `n` contacts.
pub open spec fn deleted_head(n: nat) -> Seq<char> {
    "Deleted "@ + decimal(n) + (if n == 1 { " contact:\n"@ } else { " contacts:\n"@ })
}

pub open spec fn view_strings(v: Seq<String>) -> Seq<Seq<char>> {
    v.map_values(|x: String| x@)
}

pub open spec fn confirm_tokens(selections: Seq<char>) -> Seq<Seq<char>> {
    split_commas(selections).map_values(|t: Seq<char>| trimmed(t))
}

/// `listed` holds the found contacts ordered by name, and the token of
/// each ordinal (from 1) holds a record, made at `now`, of the contact
/// listed there; every other token is as the sweep left it.
pub open spec fn listing_recorded(listed: Seq<ContactView>, found: Seq<ContactView>, ps: Seq<PendingView>,
    swept: Seq<PendingView>, from: Seq<char>, name: Seq<char>, now: u64, reply: Seq<char>) -> bool {
    &&& reply == delete_reply(name, listed)
    &&& forall|s: Seq<char>, o: usize| !(s == from && 1 <= o <= listed.len()) ==>
        #[trigger] token_record(ps, s, o) == token_record(swept, s, o)
    &&& listed.to_multiset() == found.to_multiset()
    &&& sorted_by_name(listed)
    &&& forall|k: int| 0 <= k < listed.len() && k + 1 <= usize::MAX ==>
        token_record(ps, from, (k + 1) as usize)
            == Some((PendingView { submitter: from, ordinal: (k + 1) as usize, contact_id: (#[trigger] listed[k]).id, created_at: now }))
}

/// What `Engine::handle_delete` does, from engine `o` to engine `f` with reply `r`.
pub open spec fn delete_post(o: Engine, f: Engine, from: Seq<char>, name: Seq<char>, now: u64, r: Seq<char>) -> bool {
    &&& f.wf()
    &&& f.store == o.store
    &&& f.flows.deferred == o.flows.deferred
    &&& exists|listed: Seq<ContactView>| #[trigger] listing_recorded(
            listed,
            keep(view_contacts(o.store.contacts@), matching(from, name)),
            view_pending(f.flows.pending@),
            keep(view_pending(o.flows.pending@), pending_live(now)),
            from,
            name,
            now,
            r,
        )
}

/// What `Engine::handle_confirm` does, from engine `o` to engine `f` with reply `r`.
pub open spec fn confirm_post(o: Engine, f: Engine, from: Seq<char>, selections: Seq<char>, now: u64, r: Seq<char>) -> bool {
    &&& f.wf()
    &&& f.flows.deferred == o.flows.deferred
    &&& ({
            let ps = keep(view_pending(o.flows.pending@), pending_live(now));
            let cs = view_contacts(o.store.contacts@);
            let ids = confirm_ids(confirm_tokens(selections), ps, from, cs);
            let errs = confirm_errors(confirm_tokens(selections), ps, from, cs);
            if ids.len() == 0 {
                &&& f.store == o.store
                &&& view_pending(f.flows.pending@) == ps
                &&& r == no_selection_reply(errs)
            } else {
                &&& view_contacts(f.store.contacts@) == keep(cs, not_in_ids(ids))
                &&& f.store.users@ == o.store.users@
                &&& view_pending(f.flows.pending@) == keep(ps, pending_not_for(ids))
                &&& r == deleted_reply(cs, ids, errs)
            }
        })
}

impl Engine {
    /// The contacts of `from` whose name holds `q`, in any case, ordered by
    /// name.
    pub fn find_contacts(&self, from: &str, q: &str) -> (r: Vec<Contact>)
        ensures
            sorted_by_name(view_contacts(r@)),
            view_contacts(r@).to_multiset() == keep(view_contacts(self.store.contacts@), matching(from@, q@)).to_multiset(),
    {
        let ghost cs = view_contacts(self.store.contacts@);
        let ghost p = matching(from@, q@);
        let lq = lowercase(q);
        let mut out: Vec<Contact> = Vec::new();
        let mut i: usize = 0;
        while i < self.store.contacts.len()
            invariant
                cs == view_contacts(self.store.contacts@),
                i <= cs.len(),
                view_contacts(out@) == keep(cs.take(i as int), p),
                p == matching(from@, q@),
                lq@ == lower_of(q@),
            decreases cs.len() - i,
        {
            assert(cs.take(i + 1).drop_last() =~= cs.take(i as int));
            let c = &self.store.contacts[i];
            if crate::text::str_eq(c.submitter_number.as_str(), from)
                && contains_infix(lowercase(c.contact_name.as_str()).as_str(), lq.as_str()) {
                out.push(c.duplicate());
                assert(view_contacts(out@) =~= keep(cs.take(i + 1), p));
            }
            i = i + 1;
        }
        assert(cs.take(cs.len() as int) =~= cs);
        sort_by_name(&out)
    }

    /// Lists the contacts of `from` matching `name` and records each under
    /// the token `from:ordinal`, ordinals from 1.
    pub fn handle_delete(&mut self, from: &str, name: &str, now: u64) -> (r: String)
        requires
            old(self).wf(),
        ensures
            delete_post(*old(self), *final(self), from@, name@, now, r@),
    {
        self.flows.cleanup_pending_deletions(now);
        let ghost swept = view_pending(self.flows.pending@);
        let found = self.find_contacts(from, name);
        let mut reply = String::from_str("Found these contacts matching \"");
        reply.append(name);
        reply.append("\":\n");
        let ghost head = reply@;
        let ghost fv = view_contacts(found@);
        let mut i: usize = 0;
        while i < found.len()
            invariant
                self.wf(),
                self.store == old(self).store,
                self.flows.deferred == old(self).flows.deferred,
                fv == view_contacts(found@),
                i <= found@.len(),
                forall|k: int| 0 <= k < i ==>
                    token_record(view_pending(self.flows.pending@), from@, (k + 1) as usize)
                        == Some((PendingView { submitter: from@, ordinal: (k + 1) as usize, contact_id: (#[trigger] fv[k]).id, created_at: now })),
                forall|s: Seq<char>, o: usize| !(s == from@ && 1 <= o <= i) ==>
                    #[trigger] token_record(view_pending(self.flows.pending@), s, o) == token_record(swept, s, o),
                reply@ == head + numbered(fv, i as nat),
            decreases found@.len() - i,
        {
            let ghost before = reply@;
            if i > 0 {
                reply.append("\n");
            }
            push_decimal(&mut reply, i as u64 + 1);
            reply.append(". ");
            reply.append(found[i].contact_name.as_str());
            reply.append(" (");
            push_area(&mut reply, found[i].contact_user_number.as_str());
            reply.append(")");
            assert(reply@ =~= head + numbered(fv, (i + 1) as nat));
            self.flows.record_deletion(from, i + 1, found[i].id, now);
            assert(fv[i as int].id == found@[i as int].id);
            i = i + 1;
        }
        reply.append("\n\nTo delete contacts, reply \"confirm NUM1, NUM2, ...\", where NUM1, NUM2, etc. are numbers from the list above.");
        assert(reply@ =~= delete_reply(name@, fv));
        assert(listing_recorded(fv, keep(view_contacts(old(self).store.contacts@), matching(from@, name@)),
            view_pending(self.flows.pending@), swept, from@, name@, now, reply@));
        reply
    }

    /// Deletes, in one all-or-nothing write, the contacts that `from`'s
    /// tokens name among the live pending deletions.
    pub fn handle_confirm(&mut self, from: &str, selections: &str, now: u64) -> (r: String)
        requires
            old(self).wf(),
        ensures
            confirm_post(*old(self), *final(self), from@, selections@, now, r@),
    {
        self.flows.cleanup_pending_deletions(now);
        let ghost ps = view_pending(self.flows.pending@);
        let toks = split_trimmed(selections);
        let ghost tv = confirm_tokens(selections@);
        assert(toks@.len() == tv.len());
        let mut ids: Vec<u64> = Vec::new();
        let mut invalid: Vec<String> = Vec::new();
        let mut i: usize = 0;
        while i < toks.len()
            invariant
                self.wf(),
                ps == view_pending(self.flows.pending@),
                self.store == old(self).store,
                self.flows.deferred == old(self).flows.deferred,
                toks@.len() == tv.len(),
                forall|k: int| 0 <= k < toks@.len() ==> #[trigger] toks@[k]@ == tv[k],
                i <= toks@.len(),
                ids@ == confirm_ids(tv.take(i as int), ps, from@, view_contacts(old(self).store.contacts@)),
                view_strings(invalid@) == confirm_errors(tv.take(i as int), ps, from@, view_contacts(old(self).store.contacts@)),
                forall|k: int| 0 <= k < ids@.len() ==> has_id(view_contacts(old(self).store.contacts@), #[trigger] ids@[k]),
            decreases toks@.len() - i,
        {
            assert(tv.take(i + 1).drop_last() =~= tv.take(i as int));
            assert(tv.take(i + 1).last() == toks@[i as int]@);
            let tok = toks[i].as_str();
            match parse_usize(tok) {
                Some(n) => {
                    if n > 0 {
                        match self.flows.lookup_deletion(from, n) {
                            Some(id) => {
                                if self.store.find_contact(id).is_some() {
                                    ids.push(id);
                                } else {
                                    let mut line = String::from_str("Invalid selection: ");
                                    push_decimal(&mut line, n as u64);
                                    invalid.push(line);
                                }
                            },
                            None => {
                                let mut line = String::from_str("Invalid selection: ");
                                push_decimal(&mut line, n as u64);
                                invalid.push(line);
                            },
                        }
                    } else {
                        let mut line = String::from_str("Invalid number: ");
                        line.append(tok);
                        invalid.push(line);
                    }
                },
                None => {
                    let mut line = String::from_str("Invalid number: ");
                    line.append(tok);
                    invalid.push(line);
                },
            }
            i = i + 1;
        }
        assert(tv.take(toks@.len() as int) =~= tv);
        if ids.len() == 0 {
            if invalid.len() == 0 {
                return String::from_str("No valid selections provided.");
            }
            let ghost errs = view_strings(invalid@);
            let mut reply = String::from_str("Errors:");
            let mut k: usize = 0;
            while k < invalid.len()
                invariant
                    k <= invalid@.len(),
                    errs == view_strings(invalid@),
                    reply@ == "Errors:"@ + prefixed_lines(errs.take(k as int)),
                decreases invalid@.len() - k,
            {
                reply.append("\n");
                reply.append(invalid[k].as_str());
                assert(errs.take(k + 1).drop_last() =~= errs.take(k as int));
                assert(reply@ =~= "Errors:"@ + prefixed_lines(errs.take(k + 1)));
                k = k + 1;
            }
            assert(errs.take(k as int) =~= errs);
            return reply;
        }
        let mut shown: Vec<Contact> = Vec::new();
        let ghost cs = view_contacts(self.store.contacts@);
        let ghost errs = view_strings(invalid@);
        let mut k: usize = 0;
        while k < ids.len()
            invariant
                k <= ids@.len(),
                cs == view_contacts(self.store.contacts@),
                crate::store::contacts_ok(cs, self.store.next_id),
                shown@.len() <= k,
                (forall|j: int| 0 <= j < k ==> has_id(cs, #[trigger] ids@[j])) ==> shown@.len() == k
                    && forall|j: int| 0 <= j < k ==> #[trigger] shown@[j]@ == id_contact(cs, ids@[j]),
            decreases ids@.len() - k,
        {
            if let Some(c) = self.store.find_contact(ids[k]) {
                proof {
                    let c2 = id_contact(cs, ids@[k as int]);
                    assert(cs.contains(c@) && c@.id == ids@[k as int]);
                    assert(cs.contains(c2) && c2.id == ids@[k as int]);
                    let i1 = choose|i1: int| 0 <= i1 < cs.len() && cs[i1] == c@;
                    let i2 = choose|i2: int| 0 <= i2 < cs.len() && cs[i2] == c2;
                    if i1 < i2 {
                        assert(cs[i1].id != cs[i2].id);
                    } else if i2 < i1 {
                        assert(cs[i2].id != cs[i1].id);
                    }
                }
                shown.push(c);
            }
            k = k + 1;
        }
        match self.store.delete_contacts(&ids) {
            Err(_) => {
                return String::from_str("Internal Server Error!");
            },
            Ok(()) => {},
        }
        self.flows.forget_deleted(&ids);
        assert(shown@.len() == ids@.len());
        let mut reply = String::from_str("Deleted ");
        push_decimal(&mut reply, shown.len() as u64);
        if shown.len() != 1 {
            reply.append(" contacts:\n");
        } else {
            reply.append(" contact:\n");
        }
        let ghost h = reply@;
        assert(h =~= deleted_head(ids@.len()));
        let mut k: usize = 0;
        while k < shown.len()
            invariant
                k <= shown@.len(),
                shown@.len() == ids@.len(),
                forall|j: int| 0 <= j < ids@.len() ==> #[trigger] shown@[j]@ == id_contact(cs, ids@[j]),
                reply@ == h + deleted_lines(cs, ids@.take(k as int)),
            decreases shown@.len() - k,
        {
            reply.append("• ");
            reply.append(shown[k].contact_name.as_str());
            reply.append(" (");
            push_area(&mut reply, shown[k].contact_user_number.as_str());
            reply.append(")\n");
            assert(ids@.take(k + 1).drop_last() =~= ids@.take(k as int));
            assert(shown@[k as int]@ == id_contact(cs, ids@[k as int]));
            assert(reply@ =~= h + deleted_lines(cs, ids@.take(k + 1)));
            k = k + 1;
        }
        assert(ids@.take(k as int) =~= ids@);
        let ghost body = reply@;
        if invalid.len() > 0 {
            reply.append("\nErrors:\n");
            let ghost b1 = reply@;
            let mut k: usize = 0;
            while k < invalid.len()
                invariant
                    k <= invalid@.len(),
                    errs == view_strings(invalid@),
                    reply@ == b1 + joined(errs.take(k as int)),
                decreases invalid@.len() - k,
            {
                if k > 0 {
                    reply.append("\n");
                }
                reply.append(invalid[k].as_str());
                assert(errs.take(k + 1).drop_last() =~= errs.take(k as int));
                assert(reply@ =~= b1 + joined(errs.take(k + 1)));
                k = k + 1;
            }
            assert(errs.take(k as int) =~= errs);
        }
        assert(reply@ =~= deleted_reply(cs, ids@, errs));
        reply
    }
}

} // verus!
