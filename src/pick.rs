//! The `pick` command: choosing numbers for cards that had several.

use vstd::prelude::*;
use vstd::string::*;
use crate::engine::Engine;
use crate::deletion::{confirm_tokens, view_strings};
use crate::store::{has_pair, keep, lemma_keep_none, lemma_keep_sub_any, view_contacts, StoreError};
use crate::text::{decimal, parse_usize, parsed_usize, push_char, push_decimal, split_trimmed};
use crate::workflow::{deferred_live, deferred_not_of, deferred_of, view_deferred, DeferredView};

verus! {

/// Why a pick token was refused before it was looked up.
#[derive(Clone, Copy, PartialEq, Eq, Structural, Debug)]
pub enum PickFault {
    /// Fewer than two characters.
    Format,
    /// What stands before the letter is no positive number.
    ContactNumber,
    /// The last character is no lowercase letter.
    Letter,
}

/// A token `<ordinal><letter>` read as a 0-based card index and a 0-based
/// number index (`a` is 0).
pub open spec fn pick_token_spec(t: Seq<char>) -> Result<(nat, nat), PickFault> {
    if t.len() < 2 {
        Err(PickFault::Format)
    } else {
        let letter = t.last();
        match parsed_usize(t.drop_last()) {
            Some(n) => if n > 0 {
                if 'a' <= letter <= 'z' {
                    Ok(((n - 1) as nat, (letter as nat - 'a' as nat) as nat))
                } else {
                    Err(PickFault::Letter)
                }
            } else {
                Err(PickFault::ContactNumber)
            },
            None => Err(PickFault::ContactNumber),
        }
    }
}

pub fn parse_pick_token(t: &str) -> (r: Result<(usize, usize), PickFault>)
    ensures
        match r {
            Ok((c, l)) => pick_token_spec(t@) == Ok::<(nat, nat), PickFault>((c as nat, l as nat)),
            Err(f) => pick_token_spec(t@) == Err::<(nat, nat), PickFault>(f),
        },
{
    let n = t.unicode_len();
    if n < 2 {
        return Err(PickFault::Format);
    }
    let num = t.substring_char(0, n - 1);
    let letter = t.get_char(n - 1);
    assert(num@ =~= t@.drop_last());
    match parse_usize(num) {
        Some(v) => {
            if v > 0 {
                if 'a' <= letter && letter <= 'z' {
                    Ok((v - 1, (letter as u32 - 'a' as u32) as usize))
                } else {
                    Err(PickFault::Letter)
                }
            } else {
                Err(PickFault::ContactNumber)
            }
        },
        None => Err(PickFault::ContactNumber),
    }
}

/// What a sender is told of a store error.
pub open spec fn store_error_text(e: StoreError) -> Seq<char> {
    match e {
        StoreError::DuplicateContact => "already a contact"@,
        StoreError::IdsExhausted => "no room for more contacts"@,
        StoreError::MissingContact => "contact not found"@,
    }
}

/// Appends the text of a store error.
fn push_store_error(out: &mut String, e: StoreError)
    ensures
        final(out)@ == old(out)@ + store_error_text(e),
{
    match e {
        StoreError::DuplicateContact => out.append("already a contact"),
        StoreError::IdsExhausted => out.append("no room for more contacts"),
        StoreError::MissingContact => out.append("contact not found"),
    }
}

/// `out` is a line that the token may give: a success line `name (number)`
/// or a failure line, each as the pick reply lists it.
pub open spec fn token_outcome_ok(tok: Seq<char>, pend: Seq<DeferredView>, out: Result<Seq<char>, Seq<char>>) -> bool {
    match pick_token_spec(tok) {
        Err(PickFault::Format) => out == Err::<Seq<char>, Seq<char>>("Invalid selection format: "@ + tok),
        Err(PickFault::ContactNumber) => out == Err::<Seq<char>, Seq<char>>("Invalid contact number: "@ + tok.drop_last()),
        Err(PickFault::Letter) => out == Err::<Seq<char>, Seq<char>>("Invalid letter selection: "@ + seq![tok.last()]),
        Ok((c, l)) => if c >= pend.len() {
            out == Err::<Seq<char>, Seq<char>>("Contact number "@ + decimal(c + 1) + " not found"@)
        } else if l >= pend[c as int].numbers.len() {
            out == Err::<Seq<char>, Seq<char>>("Number "@ + seq![tok.last()] + " not found for contact "@ + decimal(c + 1))
        } else {
            let nm = pend[c as int].name;
            let num = pend[c as int].numbers[l as int];
            out == Ok::<Seq<char>, Seq<char>>(nm + " ("@ + num + ")"@) || exists|e: StoreError|
                out == Err::<Seq<char>, Seq<char>>("Failed to add "@ + nm + " ("@ + num + "): "@ + #[trigger] store_error_text(e))
        },
    }
}

/// A picked number that the sender did not have before, and that no
/// earlier token picked, is added when ids are to spare.
/// The token picks a number that the sender did not have and that no
/// earlier token picked, with ids to spare.
pub open spec fn fresh_cond(toks: Seq<Seq<char>>, pend: Seq<DeferredView>, cs0: Seq<crate::store::ContactView>, from: Seq<char>,
    room: bool, k: int) -> bool {
    room && pick_target(toks[k], pend) is Some && !has_pair(cs0, from, (pick_target(toks[k], pend)->0).1)
        && !(exists|j: int| 0 <= j < k && #[trigger] pick_target(toks[j], pend) is Some
            && (pick_target(toks[j], pend)->0).1 == (pick_target(toks[k], pend)->0).1)
}

pub open spec fn fresh_pick_added(toks: Seq<Seq<char>>, pend: Seq<DeferredView>, cs0: Seq<crate::store::ContactView>, from: Seq<char>,
    room: bool, k: int, out: Result<Seq<char>, Seq<char>>) -> bool {
    fresh_cond(toks, pend, cs0, from, room, k) ==> out is Ok
}

/// The outcomes of the first `outs.len()` tokens.
pub open spec fn pick_outcomes(outs: Seq<Result<Seq<char>, Seq<char>>>, toks: Seq<Seq<char>>, pend: Seq<DeferredView>,
    cs0: Seq<crate::store::ContactView>, from: Seq<char>, room: bool) -> bool {
    &&& outs.len() <= toks.len()
    &&& forall|k: int| 0 <= k < outs.len() ==> token_outcome_ok(toks[k], pend, #[trigger] outs[k])
    &&& forall|k: int| 0 <= k < outs.len() ==> fresh_pick_added(toks, pend, cs0, from, room, k, #[trigger] outs[k])
}

/// The success lines, in order.
pub open spec fn oks(outs: Seq<Result<Seq<char>, Seq<char>>>) -> Seq<Seq<char>>
    decreases outs.len(),
{
    if outs.len() == 0 {
        Seq::empty()
    } else {
        match outs.last() {
            Ok(l) => oks(outs.drop_last()).push(l),
            Err(_) => oks(outs.drop_last()),
        }
    }
}

/// The failure lines, in order.
pub open spec fn errs(outs: Seq<Result<Seq<char>, Seq<char>>>) -> Seq<Seq<char>>
    decreases outs.len(),
{
    if outs.len() == 0 {
        Seq::empty()
    } else {
        match outs.last() {
            Ok(_) => errs(outs.drop_last()),
            Err(l) => errs(outs.drop_last()).push(l),
        }
    }
}

/// Each line as a bullet, ending in a newline.
pub open spec fn bullets(ls: Seq<Seq<char>>) -> Seq<char>
    decreases ls.len(),
{
    if ls.len() == 0 {
        Seq::empty()
    } else {
        bullets(ls.drop_last()) + "• "@ + ls.last() + "\n"@
    }
}

/// The pick reply: the successes, then the failures.
pub open spec fn pick_reply(outs: Seq<Result<Seq<char>, Seq<char>>>) -> Seq<char> {
    let a = oks(outs);
    let f = errs(outs);
    (if a.len() > 0 {
        "Successfully added "@ + decimal(a.len()) + (if a.len() == 1 { " contact:\n"@ } else { " contacts:\n"@ }) + bullets(a)
    } else {
        Seq::empty()
    }) + (if f.len() > 0 {
        (if a.len() > 0 { "\n"@ } else { Seq::empty() }) + "Failed to process:\n"@ + bullets(f)
    } else {
        Seq::empty()
    })
}

/// The (name, number) that a token picks among the pending cards, if it
/// picks one.
pub open spec fn pick_target(tok: Seq<char>, pend: Seq<DeferredView>) -> Option<(Seq<char>, Seq<char>)> {
    match pick_token_spec(tok) {
        Ok((c, l)) => if c < pend.len() && l < pend[c as int].numbers.len() {
            Some((pend[c as int].name, pend[c as int].numbers[l as int]))
        } else {
            None
        },
        Err(_) => None,
    }
}

/// One of the first `upto` tokens picks the contact's name and number.
pub open spec fn picked_by(c: crate::store::ContactView, toks: Seq<Seq<char>>, pend: Seq<DeferredView>, upto: int) -> bool {
    exists|k: int| 0 <= k < upto && k < toks.len() && #[trigger] pick_target(toks[k], pend) == Some((c.name, c.number))
}

pub open spec fn nothing_pending_reply() -> Seq<char> {
    "No pending contacts to pick from."@
}

/// What `Engine::handle_pick` does, from engine `o` to engine `f` with reply `r`.
pub open spec fn pick_post(o: Engine, f: Engine, from: Seq<char>, selections: Seq<char>, now: u64, r: Seq<char>) -> bool {
    &&& f.wf()
    &&& keep(view_deferred(f.flows.deferred@), deferred_of(from)).len() == 0
    &&& view_deferred(f.flows.deferred@) == keep(keep(view_deferred(o.flows.deferred@), deferred_live(now)), deferred_not_of(from))
    &&& f.flows.pending == o.flows.pending
    &&& keep(keep(view_deferred(o.flows.deferred@), deferred_live(now)), deferred_of(from)).len() == 0 ==> {
            &&& r == nothing_pending_reply()
            &&& f.store == o.store
        }
    &&& view_contacts(f.store.contacts@).subrange(0, o.store.contacts@.len() as int) == view_contacts(o.store.contacts@)
    &&& f.store.contacts@.len() >= o.store.contacts@.len()
    &&& forall|k: int| o.store.contacts@.len() <= k < f.store.contacts@.len() ==>
            (#[trigger] view_contacts(f.store.contacts@)[k]).submitter == from
    &&& ({
            let pend = keep(keep(view_deferred(o.flows.deferred@), deferred_live(now)), deferred_of(from));
            let toks = confirm_tokens(selections);
            let cs = view_contacts(f.store.contacts@);
            &&& pend.len() > 0 && o.store.next_id + toks.len() < u64::MAX ==> forall|k: int| 0 <= k < toks.len()
                && #[trigger] pick_target(toks[k], pend) is Some ==> has_pair(cs, from, (pick_target(toks[k], pend)->0).1)
            &&& forall|j: int| o.store.contacts@.len() <= j < cs.len() ==> picked_by(#[trigger] cs[j], toks, pend, toks.len() as int)
            &&& pend.len() > 0 ==> exists|outs: Seq<Result<Seq<char>, Seq<char>>>| pick_outcomes(outs, toks, pend,
                view_contacts(o.store.contacts@), from, o.store.next_id + toks.len() < u64::MAX)
                && outs.len() == toks.len() && r == #[trigger] pick_reply(outs)
        })
}

impl Engine {
    /// Adds the numbers that `from` picks among their deferred cards, then
    /// forgets all of `from`'s deferred cards, whatever the tokens held.
    pub fn handle_pick(&mut self, from: &str, selections: &str, now: u64) -> (r: String)
        requires
            old(self).wf(),
        ensures
            pick_post(*old(self), *final(self), from@, selections@, now, r@),
    {
        self.flows.purge_deferred(now);
        let pend = self.flows.deferred_for(from);
        if pend.len() == 0 {
            proof {
                assert(view_deferred(pend@).len() == 0);
            }
            let ghost live = view_deferred(self.flows.deferred@);
            self.flows.clear_deferred(from);
            proof {
                lemma_keep_sub_any(live, deferred_not_of(from@));
                let kept = keep(live, deferred_not_of(from@));
                assert forall|k: int| 0 <= k < kept.len() implies !deferred_of(from@)(#[trigger] kept[k]) by {}
                lemma_keep_none(kept, deferred_of(from@));
            }
            assert(view_contacts(self.store.contacts@).subrange(0, self.store.contacts@.len() as int) =~= view_contacts(self.store.contacts@));
            return String::from_str("No pending contacts to pick from.");
        }
        let ghost mid = self.flows.deferred@;
        let tokens = split_trimmed(selections);
        let ghost tv = confirm_tokens(selections@);
        let ghost pv = view_deferred(pend@);
        assert(tokens@.len() == tv.len());
        let mut added: Vec<String> = Vec::new();
        let mut failed: Vec<String> = Vec::new();
        let ghost cs0 = view_contacts(self.store.contacts@);
        let ghost n0 = self.store.contacts@.len();
        let ghost room = old(self).store.next_id + tv.len() < u64::MAX;
        let ghost mut outs: Seq<Result<Seq<char>, Seq<char>>> = Seq::empty();
        let mut i: usize = 0;
        while i < tokens.len()
            invariant
                self.wf(),
                self.flows.pending == old(self).flows.pending,
                cs0 == view_contacts(old(self).store.contacts@),
                n0 == old(self).store.contacts@.len(),
                self.store.contacts@.len() >= n0,
                view_contacts(self.store.contacts@).subrange(0, n0 as int) == cs0,
                forall|k: int| n0 <= k < self.store.contacts@.len() ==> (#[trigger] view_contacts(self.store.contacts@)[k]).submitter == from@,
                pv == view_deferred(pend@),
                tokens@.len() == tv.len(),
                forall|k: int| 0 <= k < tokens@.len() ==> #[trigger] tokens@[k]@ == tv[k],
                i <= tokens@.len(),
                self.store.next_id >= old(self).store.next_id,
                self.store.next_id <= old(self).store.next_id + i,
                self.flows.deferred@ == mid,
                self.store.next_id < u64::MAX ==> forall|k: int| 0 <= k < i && #[trigger] pick_target(tv[k], pv) is Some
                    ==> has_pair(view_contacts(self.store.contacts@), from@, (pick_target(tv[k], pv)->0).1),
                forall|j: int| n0 <= j < self.store.contacts@.len() ==> picked_by(#[trigger] view_contacts(self.store.contacts@)[j], tv, pv, i as int),
                room == (old(self).store.next_id + tv.len() < u64::MAX),
                outs.len() == i,
                pick_outcomes(outs, tv, pv, cs0, from@, room),
                view_strings(added@) == oks(outs),
                view_strings(failed@) == errs(outs),
            decreases tokens@.len() - i,
        {
            let tok = tokens[i].as_str();
            assert(tok@ == tv[i as int]);
            let mut line = String::new();
            let ghost o2: Result<Seq<char>, Seq<char>>;
            match parse_pick_token(tok) {
                Err(PickFault::Format) => {
                    line.append("Invalid selection format: ");
                    line.append(tok);
                    proof { o2 = Err(line@); }
                    failed.push(line);
                },
                Err(PickFault::ContactNumber) => {
                    line.append("Invalid contact number: ");
                    line.append(tok.substring_char(0, tok.unicode_len() - 1));
                    assert(tok@.subrange(0, tok@.len() - 1) =~= tok@.drop_last());
                    proof { o2 = Err(line@); }
                    failed.push(line);
                },
                Err(PickFault::Letter) => {
                    line.append("Invalid letter selection: ");
                    push_char(&mut line, tok.get_char(tok.unicode_len() - 1));
                    assert(line@ =~= "Invalid letter selection: "@ + seq![tok@.last()]);
                    proof { o2 = Err(line@); }
                    failed.push(line);
                },
                Ok((ci, li)) => {
                    if ci >= pend.len() {
                        line.append("Contact number ");
                        push_decimal(&mut line, ci as u64 + 1);
                        line.append(" not found");
                        proof { o2 = Err(line@); }
                        failed.push(line);
                    } else if li >= pend[ci].numbers.len() {
                        line.append("Number ");
                        push_char(&mut line, tok.get_char(tok.unicode_len() - 1));
                        line.append(" not found for contact ");
                        push_decimal(&mut line, ci as u64 + 1);
                        assert(line@ =~= "Number "@ + seq![tok@.last()] + " not found for contact "@ + decimal((ci + 1) as nat));
                        proof { o2 = Err(line@); }
                        failed.push(line);
                    } else {
                        let name = pend[ci].name.as_str();
                        let number = pend[ci].numbers[li].number.as_str();
                        assert(pick_target(tv[i as int], pv) == Some((name@, number@)));
                        let ghost before = view_contacts(self.store.contacts@);
                        let ghost next_before = self.store.next_id;
                        proof {
                            if fresh_cond(tv, pv, cs0, from@, room, i as int) {
                                assert(!has_pair(before, from@, number@)) by {
                                    if has_pair(before, from@, number@) {
                                        let w = choose|w: int| 0 <= w < before.len() && #[trigger] before[w].submitter == from@ && before[w].number == number@;
                                        if w < n0 {
                                            assert(before.subrange(0, n0 as int)[w] == cs0[w]);
                                            assert(cs0[w].submitter == from@ && cs0[w].number == number@);
                                        } else {
                                            assert(picked_by(before[w], tv, pv, i as int));
                                            let j = choose|j: int| 0 <= j < i && j < tv.len() && #[trigger] pick_target(tv[j], pv) == Some((before[w].name, before[w].number));
                                            assert(pick_target(tv[j], pv) is Some);
                                        }
                                    }
                                }
                            }
                        }
                        match self.store.insert_contact(from, name, number) {
                            Ok(_) => {
                                assert(view_contacts(self.store.contacts@) == before.push(
                                    (crate::store::ContactView { id: next_before, submitter: from@, name: name@, number: number@ })));
                                assert(view_contacts(self.store.contacts@).subrange(0, n0 as int) =~= before.subrange(0, n0 as int));
                                let ghost now_cs = view_contacts(self.store.contacts@);
                                assert forall|k: int| n0 <= k < self.store.contacts@.len() implies (#[trigger] view_contacts(self.store.contacts@)[k]).submitter == from@ by {
                                    if k < self.store.contacts@.len() - 1 {
                                        assert(view_contacts(self.store.contacts@)[k] == before[k]);
                                    }
                                }
                                assert forall|j: int| n0 <= j < now_cs.len() implies picked_by(#[trigger] now_cs[j], tv, pv, i + 1) by {
                                    if j < now_cs.len() - 1 {
                                        assert(now_cs[j] == before[j]);
                                        assert(picked_by(before[j], tv, pv, i as int));
                                    } else {
                                        assert(pick_target(tv[i as int], pv) == Some((now_cs[j].name, now_cs[j].number)));
                                    }
                                }
                                assert forall|k: int| 0 <= k < i + 1 && #[trigger] pick_target(tv[k], pv) is Some implies
                                    has_pair(now_cs, from@, (pick_target(tv[k], pv)->0).1) by {
                                    if k == i {
                                        assert(now_cs[now_cs.len() - 1].submitter == from@ && now_cs[now_cs.len() - 1].number == number@);
                                    } else {
                                        assert(next_before < u64::MAX);
                                        let w = choose|w: int| 0 <= w < before.len() && #[trigger] before[w].submitter == from@ && before[w].number == (pick_target(tv[k], pv)->0).1;
                                        assert(now_cs[w] == before[w]);
                                    }
                                }
                                line.append(name);
                                line.append(" (");
                                line.append(number);
                                line.append(")");
                                assert(line@ =~= name@ + " ("@ + number@ + ")"@);
                                proof { o2 = Ok(line@); }
                                added.push(line);
                            },
                            Err(e) => {
                                line.append("Failed to add ");
                                line.append(name);
                                line.append(" (");
                                line.append(number);
                                line.append("): ");
                                push_store_error(&mut line, e);
                                assert(line@ =~= "Failed to add "@ + name@ + " ("@ + number@ + "): "@ + store_error_text(e));
                                proof { o2 = Err(line@); }
                                failed.push(line);
                            },
                        }
                    }
                },
            }
            proof {
                assert(token_outcome_ok(tv[i as int], pv, o2));
                assert(fresh_pick_added(tv, pv, cs0, from@, room, i as int, o2));
                let outs2 = outs.push(o2);
                assert(outs2.drop_last() =~= outs);
                assert forall|k: int| 0 <= k < outs2.len() implies token_outcome_ok(tv[k], pv, #[trigger] outs2[k])
                    && fresh_pick_added(tv, pv, cs0, from@, room, k, outs2[k]) by {
                    if k < i {
                        assert(outs2[k] == outs[k]);
                    }
                }
                outs = outs2;
            }
            i = i + 1;
        }
        let ghost live = view_deferred(self.flows.deferred@);
        self.flows.clear_deferred(from);
        proof {
            lemma_keep_sub_any(live, deferred_not_of(from@));
            let kept = keep(live, deferred_not_of(from@));
            assert forall|k: int| 0 <= k < kept.len() implies !deferred_of(from@)(#[trigger] kept[k]) by {}
            lemma_keep_none(kept, deferred_of(from@));
        }
        let ghost av = view_strings(added@);
        let ghost fv = view_strings(failed@);
        let mut reply = String::new();
        if added.len() > 0 {
            reply.append("Successfully added ");
            push_decimal(&mut reply, added.len() as u64);
            if added.len() != 1 {
                reply.append(" contacts:\n");
            } else {
                reply.append(" contact:\n");
            }
            let ghost head = reply@;
            let mut k: usize = 0;
            while k < added.len()
                invariant
                    k <= added@.len(),
                    av == view_strings(added@),
                    reply@ == head + bullets(av.take(k as int)),
                decreases added@.len() - k,
            {
                reply.append("• ");
                reply.append(added[k].as_str());
                reply.append("\n");
                assert(av.take(k + 1).drop_last() =~= av.take(k as int));
                assert(reply@ =~= head + bullets(av.take(k + 1)));
                k = k + 1;
            }
            assert(av.take(k as int) =~= av);
        }
        let ghost part_a = reply@;
        assert(part_a == (if av.len() > 0 {
            "Successfully added "@ + decimal(av.len()) + (if av.len() == 1 { " contact:\n"@ } else { " contacts:\n"@ }) + bullets(av)
        } else {
            Seq::<char>::empty()
        }));
        if failed.len() > 0 {
            if added.len() > 0 {
                reply.append("\n");
            }
            reply.append("Failed to process:\n");
            let ghost head = reply@;
            let mut k: usize = 0;
            while k < failed.len()
                invariant
                    k <= failed@.len(),
                    fv == view_strings(failed@),
                    reply@ == head + bullets(fv.take(k as int)),
                decreases failed@.len() - k,
            {
                reply.append("• ");
                reply.append(failed[k].as_str());
                reply.append("\n");
                assert(fv.take(k + 1).drop_last() =~= fv.take(k as int));
                assert(reply@ =~= head + bullets(fv.take(k + 1)));
                k = k + 1;
            }
            assert(fv.take(k as int) =~= fv);
        }
        assert(reply@ =~= pick_reply(outs));
        reply
    }
}

} // verus!
