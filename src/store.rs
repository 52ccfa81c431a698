//! The contact store: users and the contacts each user has submitted.
//! Every write either completes or leaves the store as it was.

use vstd::prelude::*;
use vstd::string::*;
use crate::text::str_eq;

verus! {

pub struct User {
    pub number: String,
    pub name: String,
}

pub struct Contact {
    pub id: u64,
    pub submitter_number: String,
    pub contact_name: String,
    pub contact_user_number: String,
}

/// What a contact holds, as plain values.
pub struct ContactView {
    pub id: u64,
    pub submitter: Seq<char>,
    pub name: Seq<char>,
    pub number: Seq<char>,
}

impl View for Contact {
    type V = ContactView;

    open spec fn view(&self) -> ContactView {
        ContactView {
            id: self.id,
            submitter: self.submitter_number@,
            name: self.contact_name@,
            number: self.contact_user_number@,
        }
    }
}

/// The elements of `cs` that satisfy `p`, in order.
pub open spec fn keep<A>(cs: Seq<A>, p: spec_fn(A) -> bool) -> Seq<A>
    decreases cs.len(),
{
    if cs.len() == 0 {
        Seq::empty()
    } else {
        let r = keep(cs.drop_last(), p);
        if p(cs.last()) {
            r.push(cs.last())
        } else {
            r
        }
    }
}

pub open spec fn view_contacts(cs: Seq<Contact>) -> Seq<ContactView> {
    cs.map_values(|c: Contact| c@)
}

impl Contact {
    pub fn duplicate(&self) -> (r: Contact)
        ensures
            r@ == self@,
    {
        Contact {
            id: self.id,
            submitter_number: self.submitter_number.clone(),
            contact_name: self.contact_name.clone(),
            contact_user_number: self.contact_user_number.clone(),
        }
    }
}

#[derive(Clone, Copy, PartialEq, Eq, Structural, Debug)]
pub enum StoreError {
    /// The submitter already has a contact with this number.
    DuplicateContact,
    /// No identifier is left for a new contact.
    IdsExhausted,
    /// A contact named in the write does not exist.
    MissingContact,
}

pub struct ContactStore {
    pub users: Vec<User>,
    pub contacts: Vec<Contact>,
    pub next_id: u64,
}

impl View for User {
    type V = (Seq<char>, Seq<char>);

    open spec fn view(&self) -> (Seq<char>, Seq<char>) {
        (self.number@, self.name@)
    }
}

pub open spec fn view_users(us: Seq<User>) -> Seq<(Seq<char>, Seq<char>)> {
    us.map_values(|u: User| u@)
}

/// No two users share a number.
pub open spec fn users_unique(us: Seq<(Seq<char>, Seq<char>)>) -> bool {
    forall|i: int, j: int| 0 <= i < j < us.len() ==> #[trigger] us[i].0 != #[trigger] us[j].0
}

/// Ids are distinct and below `next_id`; no two contacts share a
/// (submitter, number) pair.
pub open spec fn contacts_ok(cs: Seq<ContactView>, next_id: u64) -> bool {
    &&& forall|i: int| 0 <= i < cs.len() ==> #[trigger] cs[i].id < next_id
    &&& forall|i: int, j: int| 0 <= i < j < cs.len() ==> #[trigger] cs[i].id != #[trigger] cs[j].id
    &&& forall|i: int, j: int|
        0 <= i < j < cs.len() ==> !(#[trigger] cs[i].submitter == #[trigger] cs[j].submitter
            && cs[i].number == cs[j].number)
}

pub open spec fn has_pair(cs: Seq<ContactView>, submitter: Seq<char>, number: Seq<char>) -> bool {
    exists|i: int| 0 <= i < cs.len() && #[trigger] cs[i].submitter == submitter && cs[i].number == number
}

pub open spec fn has_id(cs: Seq<ContactView>, id: u64) -> bool {
    exists|i: int| 0 <= i < cs.len() && #[trigger] cs[i].id == id
}

pub open spec fn has_number(us: Seq<(Seq<char>, Seq<char>)>, number: Seq<char>) -> bool {
    exists|i: int| 0 <= i < us.len() && #[trigger] us[i].0 == number
}

pub proof fn lemma_keep_complete<A>(xs: Seq<A>, p: spec_fn(A) -> bool, k: int)
    requires
        0 <= k < xs.len(),
        p(xs[k]),
    ensures
        keep(xs, p).len() > 0,
    decreases xs.len(),
{
    if k < xs.len() - 1 {
        lemma_keep_complete(xs.drop_last(), p, k);
    }
}

pub proof fn lemma_keep_none<A>(xs: Seq<A>, p: spec_fn(A) -> bool)
    requires
        forall|k: int| 0 <= k < xs.len() ==> !p(#[trigger] xs[k]),
    ensures
        keep(xs, p).len() == 0,
    decreases xs.len(),
{
    if xs.len() > 0 {
        lemma_keep_none(xs.drop_last(), p);
    }
}

/// A kept element appears among the kept ones.
pub proof fn lemma_keep_index<A>(xs: Seq<A>, p: spec_fn(A) -> bool, k: int)
    requires
        0 <= k < xs.len(),
        p(xs[k]),
    ensures
        keep(xs, p).contains(xs[k]),
    decreases xs.len(),
{
    if k < xs.len() - 1 {
        lemma_keep_index(xs.drop_last(), p, k);
        let r = keep(xs.drop_last(), p);
        let m = choose|m: int| 0 <= m < r.len() && r[m] == xs[k];
        assert(keep(xs, p)[m] == xs[k]);
    } else {
        assert(keep(xs, p).last() == xs[k]);
    }
}

/// Every element kept satisfies the predicate.
pub proof fn lemma_keep_sub_any<A>(cs: Seq<A>, p: spec_fn(A) -> bool)
    ensures
        forall|k: int| 0 <= k < keep(cs, p).len() ==> p(#[trigger] keep(cs, p)[k]),
    decreases cs.len(),
{
    if cs.len() > 0 {
        lemma_keep_sub_any(cs.drop_last(), p);
        let r = keep(cs.drop_last(), p);
        assert forall|k: int| 0 <= k < keep(cs, p).len() implies p(#[trigger] keep(cs, p)[k]) by {
            if k < r.len() {
                assert(keep(cs, p)[k] == r[k]);
            }
        }
    }
}

pub proof fn lemma_keep_sub(cs: Seq<ContactView>, p: spec_fn(ContactView) -> bool)
    ensures
        keep(cs, p).len() <= cs.len(),
        forall|k: int| 0 <= k < keep(cs, p).len() ==> cs.contains(#[trigger] keep(cs, p)[k]),
        forall|k: int| 0 <= k < keep(cs, p).len() ==> p(#[trigger] keep(cs, p)[k]),
        forall|n: u64| contacts_ok(cs, n) ==> #[trigger] contacts_ok(keep(cs, p), n),
    decreases cs.len(),
{
    if cs.len() > 0 {
        let t = cs.drop_last();
        lemma_keep_sub(t, p);
        let r = keep(t, p);
        assert forall|k: int| 0 <= k < keep(cs, p).len() implies cs.contains(#[trigger] keep(cs, p)[k]) by {
            if k < r.len() {
                let m = choose|m: int| 0 <= m < t.len() && t[m] == r[k];
                assert(cs[m] == r[k]);
            } else {
                assert(cs[cs.len() - 1] == cs.last());
            }
        }
        assert forall|n: u64| contacts_ok(cs, n) implies #[trigger] contacts_ok(keep(cs, p), n) by {
            assert(contacts_ok(t, n)) by {
                assert forall|i: int, j: int| 0 <= i < j < t.len() implies #[trigger] t[i].id != #[trigger] t[j].id by {
                    assert(t[i] == cs[i] && t[j] == cs[j]);
                }
                assert forall|i: int, j: int| 0 <= i < j < t.len() implies !(#[trigger] t[i].submitter == #[trigger] t[j].submitter
                    && t[i].number == t[j].number) by {
                    assert(t[i] == cs[i] && t[j] == cs[j]);
                }
            }
            assert(contacts_ok(r, n));
            if p(cs.last()) {
                let k2 = keep(cs, p);
                assert forall|i: int, j: int| 0 <= i < j < k2.len() implies #[trigger] k2[i].id != #[trigger] k2[j].id
                    && !(k2[i].submitter == k2[j].submitter && k2[i].number == k2[j].number) by {
                    if j == k2.len() - 1 {
                        assert(k2[i] == r[i]);
                        assert(t.contains(r[i]));
                        let m = choose|m: int| 0 <= m < t.len() && t[m] == r[i];
                        assert(t[m] == cs[m]);
                        assert(cs[m] == k2[i]);
                        assert(cs[cs.len() - 1] == k2[j]);
                        assert(cs[m].id != cs[cs.len() - 1].id);
                        assert(!(cs[m].submitter == cs[cs.len() - 1].submitter && cs[m].number == cs[cs.len() - 1].number));
                    } else {
                        assert(contacts_ok(r, n));
                        assert(k2[i] == r[i] && k2[j] == r[j]);
                        assert(r[i].id != r[j].id);
                        assert(!(r[i].submitter == r[j].submitter && r[i].number == r[j].number));
                    }
                }
                assert forall|i: int| 0 <= i < k2.len() implies #[trigger] k2[i].id < n by {
                    if i < r.len() {
                        assert(k2[i] == r[i]);
                    } else {
                        assert(cs[cs.len() - 1] == k2[i]);
                    }
                }
            }
        }
    }
}

/// The users with the name of the one whose number is `number` replaced.
pub open spec fn renamed_user(us: Seq<(Seq<char>, Seq<char>)>, number: Seq<char>, name: Seq<char>) -> Seq<(Seq<char>, Seq<char>)> {
    Seq::new(us.len(), |k: int| if us[k].0 == number { (number, name) } else { us[k] })
}

impl ContactStore {
    pub open spec fn wf(&self) -> bool {
        users_unique(view_users(self.users@)) && contacts_ok(view_contacts(self.contacts@), self.next_id)
    }

    pub open spec fn has_user(&self, number: Seq<char>) -> bool {
        has_number(view_users(self.users@), number)
    }

    pub fn new() -> (r: ContactStore)
        ensures
            r.wf(),
            r.next_id == 1,
            r.users@.len() == 0,
            r.contacts@.len() == 0,
    {
        ContactStore { users: Vec::new(), contacts: Vec::new(), next_id: 1 }
    }

    pub fn find_user(&self, number: &str) -> (r: Option<usize>)
        ensures
            match r {
                Some(i) => i < self.users@.len() && self.users@[i as int].number@ == number@,
                None => !self.has_user(number@),
            },
    {
        let mut i: usize = 0;
        while i < self.users.len()
            invariant
                forall|k: int| 0 <= k < i ==> #[trigger] self.users@[k].number@ != number@,
            decreases self.users@.len() - i,
        {
            if str_eq(self.users[i].number.as_str(), number) {
                return Some(i);
            }
            i = i + 1;
        }
        proof {
            if self.has_user(number@) {
                let k = choose|k: int| 0 <= k < view_users(self.users@).len() && #[trigger] view_users(self.users@)[k].0 == number@;
                assert(self.users@[k].number@ == number@);
            }
        }
        None
    }

    pub fn is_user(&self, number: &str) -> (r: bool)
        ensures
            r == self.has_user(number@),
    {
        match self.find_user(number) {
            Some(i) => {
                assert(view_users(self.users@)[i as int].0 == number@);
                true
            },
            None => false,
        }
    }

    /// Sets the name of the user with this number, creating the user if absent.
    pub fn set_user_name(&mut self, number: &str, name: &str)
        requires
            old(self).wf(),
        ensures
            final(self).wf(),
            final(self).contacts@ == old(self).contacts@,
            final(self).next_id == old(self).next_id,
            view_users(final(self).users@) == (if old(self).has_user(number@) {
                renamed_user(view_users(old(self).users@), number@, name@)
            } else {
                view_users(old(self).users@).push((number@, name@))
            }),
    {
        let ghost before = view_users(self.users@);
        let user = User { number: String::from_str(number), name: String::from_str(name) };
        match self.find_user(number) {
            Some(i) => {
                assert(before[i as int].0 == number@);
                assert forall|k: int| 0 <= k < before.len() && k != i implies before[k].0 != number@ by {
                    if k < i {
                        assert(before[k].0 != before[i as int].0);
                    } else {
                        assert(before[i as int].0 != before[k].0);
                    }
                }
                self.users.set(i, user);
                assert(view_users(self.users@) =~= renamed_user(before, number@, name@));
            },
            None => {
                self.users.push(user);
                assert(view_users(self.users@) =~= before.push((number@, name@)));
                assert forall|k: int| 0 <= k < before.len() implies before[k].0 != number@ by {}
            },
        }
    }

    /// Where `submitter`'s contact for `number` stands, if there is one.
    pub fn find_pair_index(&self, submitter: &str, number: &str) -> (r: Option<usize>)
        ensures
            match r {
                Some(i) => i < self.contacts@.len() && self.contacts@[i as int].submitter_number@ == submitter@
                    && self.contacts@[i as int].contact_user_number@ == number@,
                None => !has_pair(view_contacts(self.contacts@), submitter@, number@),
            },
    {
        let ghost cs = view_contacts(self.contacts@);
        let mut i: usize = 0;
        while i < self.contacts.len()
            invariant
                cs == view_contacts(self.contacts@),
                forall|k: int| 0 <= k < i ==> !(#[trigger] cs[k].submitter == submitter@ && cs[k].number == number@),
            decreases self.contacts@.len() - i,
        {
            let c = &self.contacts[i];
            if str_eq(c.submitter_number.as_str(), submitter) && str_eq(c.contact_user_number.as_str(), number) {
                return Some(i);
            }
            i = i + 1;
        }
        None
    }

    pub fn find_pair(&self, submitter: &str, number: &str) -> (r: bool)
        ensures
            r == has_pair(view_contacts(self.contacts@), submitter@, number@),
    {
        match self.find_pair_index(submitter, number) {
            Some(i) => {
                assert(view_contacts(self.contacts@)[i as int].submitter == submitter@);
                true
            },
            None => false,
        }
    }

    /// Adds a contact for `submitter`, first creating a user for the number
    /// (named like the contact) where none exists. Returns the new id.
    pub fn insert_contact(&mut self, submitter: &str, name: &str, number: &str) -> (r: Result<u64, StoreError>)
        requires
            old(self).wf(),
        ensures
            final(self).wf(),
            has_pair(view_contacts(old(self).contacts@), submitter@, number@) ==> r == Err::<u64, StoreError>(StoreError::DuplicateContact),
            !has_pair(view_contacts(old(self).contacts@), submitter@, number@) && old(self).next_id == u64::MAX
                ==> r == Err::<u64, StoreError>(StoreError::IdsExhausted),
            !has_pair(view_contacts(old(self).contacts@), submitter@, number@) && old(self).next_id < u64::MAX
                ==> r == Ok::<u64, StoreError>(old(self).next_id),
            r is Err ==> *final(self) == *old(self),
            r is Ok ==> {
                &&& view_contacts(final(self).contacts@) == view_contacts(old(self).contacts@).push(
                    (ContactView { id: old(self).next_id, submitter: submitter@, name: name@, number: number@ }),
                )
                &&& final(self).next_id == old(self).next_id + 1
                &&& view_users(final(self).users@) == (if old(self).has_user(number@) {
                    view_users(old(self).users@)
                } else {
                    view_users(old(self).users@).push((number@, name@))
                })
            },
    {
        if self.find_pair(submitter, number) {
            return Err(StoreError::DuplicateContact);
        }
        if self.next_id == u64::MAX {
            return Err(StoreError::IdsExhausted);
        }
        let ghost cs = view_contacts(self.contacts@);
        let ghost us = view_users(self.users@);
        match self.find_user(number) {
            None => {
                self.users.push(User { number: String::from_str(number), name: String::from_str(name) });
                assert(view_users(self.users@) =~= us.push((number@, name@)));
                assert forall|k: int| 0 <= k < us.len() implies us[k].0 != number@ by {}
            },
            Some(ui) => {
                assert(us[ui as int].0 == number@);
            },
        }
        let id = self.next_id;
        self.contacts.push(
            Contact {
                id,
                submitter_number: String::from_str(submitter),
                contact_name: String::from_str(name),
                contact_user_number: String::from_str(number),
            },
        );
        self.next_id = id + 1;
        let ghost nc = ContactView { id, submitter: submitter@, name: name@, number: number@ };
        assert(view_contacts(self.contacts@) =~= cs.push(nc));
        assert forall|a: int| 0 <= a < cs.len() implies #[trigger] cs[a].id != id
            && !(cs[a].submitter == submitter@ && cs[a].number == number@) by {}
        Ok(id)
    }

    /// Gives `name` to `submitter`'s contact for `number`.
    pub fn rename_contact(&mut self, submitter: &str, number: &str, name: &str)
        requires
            old(self).wf(),
        ensures
            final(self).wf(),
            final(self).users@ == old(self).users@,
            final(self).next_id == old(self).next_id,
            view_contacts(final(self).contacts@) == renamed_contacts(view_contacts(old(self).contacts@), submitter@, number@, name@),
    {
        let ghost cs = view_contacts(self.contacts@);
        let mut i: usize = 0;
        while i < self.contacts.len()
            invariant
                cs.len() == self.contacts@.len(),
                contacts_ok(cs, self.next_id),
                self.users == old(self).users,
                self.next_id == old(self).next_id,
                cs == view_contacts(old(self).contacts@),
                forall|k: int| 0 <= k < i ==> view_contacts(self.contacts@)[k] == #[trigger] renamed_contacts(cs, submitter@, number@, name@)[k],
                forall|k: int| i <= k < cs.len() ==> view_contacts(self.contacts@)[k] == #[trigger] cs[k],
            decreases cs.len() - i,
        {
            if str_eq(self.contacts[i].submitter_number.as_str(), submitter)
                && str_eq(self.contacts[i].contact_user_number.as_str(), number) {
                let c = Contact {
                    id: self.contacts[i].id,
                    submitter_number: String::from_str(submitter),
                    contact_name: String::from_str(name),
                    contact_user_number: String::from_str(number),
                };
                self.contacts.set(i, c);
            }
            i = i + 1;
        }
        assert(view_contacts(self.contacts@) =~= renamed_contacts(cs, submitter@, number@, name@));
        assert forall|a: int, b: int| 0 <= a < b < cs.len() implies
            #[trigger] view_contacts(self.contacts@)[a].id != #[trigger] view_contacts(self.contacts@)[b].id
            && !(view_contacts(self.contacts@)[a].submitter == view_contacts(self.contacts@)[b].submitter
            && view_contacts(self.contacts@)[a].number == view_contacts(self.contacts@)[b].number) by {
            assert(cs[a].id != cs[b].id);
            assert(!(cs[a].submitter == cs[b].submitter && cs[a].number == cs[b].number));
        }
        assert forall|a: int| 0 <= a < cs.len() implies #[trigger] view_contacts(self.contacts@)[a].id < self.next_id by {
            assert(cs[a].id < self.next_id);
        }
    }

    /// Deletes every contact whose id is in `ids`, or none of them where one
    /// of the ids names no contact.
    pub fn delete_contacts(&mut self, ids: &Vec<u64>) -> (r: Result<(), StoreError>)
        requires
            old(self).wf(),
        ensures
            final(self).wf(),
            r is Err <==> exists|k: int| 0 <= k < ids@.len() && !has_id(view_contacts(old(self).contacts@), #[trigger] ids@[k]),
            r is Err ==> r == Err::<(), StoreError>(StoreError::MissingContact) && *final(self) == *old(self),
            r is Ok ==> {
                &&& view_contacts(final(self).contacts@) == keep(view_contacts(old(self).contacts@), not_in_ids(ids@))
                &&& final(self).users@ == old(self).users@
                &&& final(self).next_id == old(self).next_id
            },
    {
        let ghost cs = view_contacts(self.contacts@);
        let mut k: usize = 0;
        while k < ids.len()
            invariant
                cs == view_contacts(self.contacts@),
                *self == *old(self),
                self.wf(),
                forall|j: int| 0 <= j < k ==> has_id(cs, #[trigger] ids@[j]),
            decreases ids@.len() - k,
        {
            if self.find_contact(ids[k]).is_none() {
                return Err(StoreError::MissingContact);
            }
            assert(has_id(cs, ids@[k as int]));
            k = k + 1;
        }
        let ghost p = not_in_ids(ids@);
        let mut out: Vec<Contact> = Vec::new();
        let mut i: usize = 0;
        while i < self.contacts.len()
            invariant
                cs == view_contacts(self.contacts@),
                i <= cs.len(),
                view_contacts(out@) == keep(cs.take(i as int), p),
                p == not_in_ids(ids@),
                self.users == old(self).users,
                self.next_id == old(self).next_id,
                self.wf(),
            decreases cs.len() - i,
        {
            assert(cs.take(i + 1).drop_last() =~= cs.take(i as int));
            let id = self.contacts[i].id;
            if !contains_id(ids, id) {
                out.push(self.contacts[i].duplicate());
                assert(view_contacts(out@) =~= keep(cs.take(i + 1), p));
            }
            i = i + 1;
        }
        assert(cs.take(cs.len() as int) =~= cs);
        proof {
            lemma_keep_sub(cs, p);
            assert(contacts_ok(keep(cs, p), self.next_id));
        }
        self.contacts = out;
        Ok(())
    }

    /// Removes the user with this number and every contact they submitted.
    pub fn delete_user(&mut self, number: &str)
        requires
            old(self).wf(),
        ensures
            final(self).wf(),
            !final(self).has_user(number@),
            view_contacts(final(self).contacts@) == keep(view_contacts(old(self).contacts@), not_of_submitter(number@)),
            forall|n: Seq<char>| n != number@ ==> (#[trigger] final(self).has_user(n) == old(self).has_user(n)),
    {
        let ghost us = view_users(self.users@);
        if let Some(i) = self.find_user(number) {
            proof {
                assert(us[i as int].0 == number@);
            }
            self.users.remove(i);
            let ghost vs = view_users(self.users@);
            assert(vs =~= us.remove(i as int));
            assert(users_unique(vs)) by {
                assert forall|a: int, b: int| 0 <= a < b < vs.len() implies #[trigger] vs[a].0 != #[trigger] vs[b].0 by {
                    let a2 = if a < i { a } else { a + 1 };
                    let b2 = if b < i { b } else { b + 1 };
                    assert(vs[a] == us[a2] && vs[b] == us[b2]);
                }
            }
            assert forall|n: Seq<char>| n != number@ implies (#[trigger] has_number(vs, n) == has_number(us, n)) by {
                if has_number(us, n) {
                    let k = choose|k: int| 0 <= k < us.len() && #[trigger] us[k].0 == n;
                    assert(k != i);
                    let k2 = if k < i { k } else { k - 1 };
                    assert(vs[k2] == us[k]);
                }
                if has_number(vs, n) {
                    let k = choose|k: int| 0 <= k < vs.len() && #[trigger] vs[k].0 == n;
                    let k2 = if k < i { k } else { k + 1 };
                    assert(vs[k] == us[k2]);
                }
            }
            assert(!has_number(vs, number@)) by {
                if has_number(vs, number@) {
                    let k = choose|k: int| 0 <= k < vs.len() && #[trigger] vs[k].0 == number@;
                    let k2 = if k < i { k } else { k + 1 };
                    assert(vs[k] == us[k2]);
                    if k2 < i {
                        assert(us[k2].0 != us[i as int].0);
                    } else {
                        assert(us[i as int].0 != us[k2].0);
                    }
                }
            }
        }
        let ghost cs = view_contacts(self.contacts@);
        let ghost p = not_of_submitter(number@);
        let ghost us2 = view_users(self.users@);
        let mut out: Vec<Contact> = Vec::new();
        let mut i: usize = 0;
        while i < self.contacts.len()
            invariant
                cs == view_contacts(self.contacts@),
                i <= cs.len(),
                view_contacts(out@) == keep(cs.take(i as int), p),
                p == not_of_submitter(number@),
                self.wf(),
                us2 == view_users(self.users@),
            decreases cs.len() - i,
        {
            assert(cs.take(i + 1).drop_last() =~= cs.take(i as int));
            if !str_eq(self.contacts[i].submitter_number.as_str(), number) {
                out.push(self.contacts[i].duplicate());
                assert(view_contacts(out@) =~= keep(cs.take(i + 1), p));
            }
            i = i + 1;
        }
        assert(cs.take(cs.len() as int) =~= cs);
        proof {
            lemma_keep_sub(cs, p);
        }
        self.contacts = out;
    }

    pub fn find_contact(&self, id: u64) -> (r: Option<Contact>)
        ensures
            r is None <==> !has_id(view_contacts(self.contacts@), id),
            r matches Some(c) ==> c.id == id && view_contacts(self.contacts@).contains(c@),
    {
        let ghost cs = view_contacts(self.contacts@);
        let mut i: usize = 0;
        while i < self.contacts.len()
            invariant
                cs == view_contacts(self.contacts@),
                forall|k: int| 0 <= k < i ==> #[trigger] cs[k].id != id,
            decreases cs.len() - i,
        {
            if self.contacts[i].id == id {
                let c = self.contacts[i].duplicate();
                assert(cs[i as int] == c@);
                assert(cs[i as int].id == id);
                return Some(c);
            }
            i = i + 1;
        }
        None
    }

    /// The contacts of `submitter`, in store order.
    pub fn contacts_of(&self, submitter: &str) -> (r: Vec<Contact>)
        ensures
            view_contacts(r@) == keep(view_contacts(self.contacts@), of_submitter(submitter@)),
    {
        let ghost cs = view_contacts(self.contacts@);
        let ghost p = of_submitter(submitter@);
        let mut out: Vec<Contact> = Vec::new();
        let mut i: usize = 0;
        while i < self.contacts.len()
            invariant
                cs == view_contacts(self.contacts@),
                i <= cs.len(),
                view_contacts(out@) == keep(cs.take(i as int), p),
                p == of_submitter(submitter@),
            decreases cs.len() - i,
        {
            assert(cs.take(i + 1).drop_last() =~= cs.take(i as int));
            if str_eq(self.contacts[i].submitter_number.as_str(), submitter) {
                out.push(self.contacts[i].duplicate());
                assert(view_contacts(out@) =~= keep(cs.take(i + 1), p));
            }
            i = i + 1;
        }
        assert(cs.take(cs.len() as int) =~= cs);
        out
    }
}

pub open spec fn not_in_ids(ids: Seq<u64>) -> spec_fn(ContactView) -> bool {
    |c: ContactView| !ids.contains(c.id)
}

pub open spec fn of_submitter(submitter: Seq<char>) -> spec_fn(ContactView) -> bool {
    |c: ContactView| c.submitter == submitter
}

/// `a` comes no later than `b` in dictionary order of character codes.
pub open spec fn name_le(a: Seq<char>, b: Seq<char>) -> bool
    decreases a.len(),
{
    if a.len() == 0 {
        true
    } else if b.len() == 0 {
        false
    } else if a[0] != b[0] {
        a[0] < b[0]
    } else {
        name_le(a.drop_first(), b.drop_first())
    }
}

pub proof fn lemma_name_le_total(a: Seq<char>, b: Seq<char>)
    ensures
        name_le(a, b) || name_le(b, a),
    decreases a.len(),
{
    if a.len() > 0 && b.len() > 0 && a[0] == b[0] {
        lemma_name_le_total(a.drop_first(), b.drop_first());
    }
}

/// Each contact's name comes no later than the next one's.
pub open spec fn sorted_by_name(cs: Seq<ContactView>) -> bool {
    forall|i: int| 0 <= i < cs.len() - 1 ==> name_le(#[trigger] cs[i].name, cs[i + 1].name)
}

pub fn name_le_exec(a: &str, b: &str) -> (r: bool)
    ensures
        r == name_le(a@, b@),
{
    let n = a.unicode_len();
    let m = b.unicode_len();
    let mut i: usize = 0;
    assert(a@.skip(0) =~= a@);
    assert(b@.skip(0) =~= b@);
    loop
        invariant
            n == a@.len(),
            m == b@.len(),
            i <= n,
            i <= m,
            name_le(a@, b@) == name_le(a@.skip(i as int), b@.skip(i as int)),
        decreases n - i,
    {
        if i == n {
            return true;
        }
        if i == m {
            return false;
        }
        let x = a.get_char(i);
        let y = b.get_char(i);
        assert(a@.skip(i as int)[0] == x);
        assert(b@.skip(i as int)[0] == y);
        if x != y {
            return x < y;
        }
        assert(a@.skip(i as int).drop_first() =~= a@.skip(i + 1));
        assert(b@.skip(i as int).drop_first() =~= b@.skip(i + 1));
        i = i + 1;
    }
}

/// The contacts ordered by name; contacts with equal names keep their order.
pub fn sort_by_name(v: &Vec<Contact>) -> (r: Vec<Contact>)
    ensures
        sorted_by_name(view_contacts(r@)),
        view_contacts(r@).to_multiset() == view_contacts(v@).to_multiset(),
{
    broadcast use vstd::seq_lib::group_to_multiset_ensures;
    let mut out: Vec<Contact> = Vec::new();
    let mut i: usize = 0;
    assert(view_contacts(out@) =~= view_contacts(v@).take(0));
    while i < v.len()
        invariant
            i <= v@.len(),
            sorted_by_name(view_contacts(out@)),
            view_contacts(out@).to_multiset() == view_contacts(v@).take(i as int).to_multiset(),
        decreases v@.len() - i,
    {
        let x = v[i].duplicate();
        let ghost ov = view_contacts(out@);
        let mut p: usize = 0;
        while p < out.len() && name_le_exec(out[p].contact_name.as_str(), x.contact_name.as_str())
            invariant
                p <= out@.len(),
                ov == view_contacts(out@),
                forall|k: int| 0 <= k < p ==> name_le(#[trigger] ov[k].name, x@.name),
            decreases out@.len() - p,
        {
            p = p + 1;
        }
        proof {
            if p < ov.len() {
                lemma_name_le_total(ov[p as int].name, x@.name);
            }
        }
        out.insert(p, x);
        let ghost nv = view_contacts(out@);
        assert(nv =~= ov.insert(p as int, x@));
        assert(sorted_by_name(nv)) by {
            assert forall|k: int| 0 <= k < nv.len() - 1 implies name_le(#[trigger] nv[k].name, nv[k + 1].name) by {
                if k + 1 < p {
                    assert(nv[k] == ov[k] && nv[k + 1] == ov[k + 1]);
                } else if k + 1 == p {
                    assert(nv[k] == ov[k]);
                } else if k == p {
                    assert(nv[k + 1] == ov[k]);
                } else {
                    assert(nv[k] == ov[k - 1] && nv[k + 1] == ov[k]);
                }
            }
        }
        proof {
            let vv = view_contacts(v@);
            assert(vv.take(i + 1) =~= vv.take(i as int).push(x@));
            assert(ov.insert(p as int, x@) =~= ov.take(p as int) + (seq![x@] + ov.skip(p as int)));
            assert(ov =~= ov.take(p as int) + ov.skip(p as int));
            vstd::seq_lib::lemma_multiset_commutative(ov.take(p as int), seq![x@] + ov.skip(p as int));
            vstd::seq_lib::lemma_multiset_commutative(seq![x@], ov.skip(p as int));
            vstd::seq_lib::lemma_multiset_commutative(ov.take(p as int), ov.skip(p as int));
            vstd::seq_lib::lemma_multiset_commutative(vv.take(i as int), seq![x@]);
            let a = ov.take(p as int).to_multiset();
            let b = ov.skip(p as int).to_multiset();
            let c = seq![x@].to_multiset();
            assert(vv.take(i + 1) == vv.take(i as int) + seq![x@]);
            assert(nv.to_multiset() == a.add(c.add(b)));
            assert(ov.to_multiset() == a.add(b));
            assert(vv.take(i + 1).to_multiset() == vv.take(i as int).to_multiset().add(c));
            assert(nv.to_multiset() =~= vv.take(i + 1).to_multiset());
        }
        i = i + 1;
    }
    assert(view_contacts(v@).take(v@.len() as int) =~= view_contacts(v@));
    out
}

pub open spec fn not_of_submitter(submitter: Seq<char>) -> spec_fn(ContactView) -> bool {
    |c: ContactView| c.submitter != submitter
}

pub fn contains_id(ids: &Vec<u64>, id: u64) -> (r: bool)
    ensures
        r == ids@.contains(id),
{
    let mut i: usize = 0;
    while i < ids.len()
        invariant
            forall|k: int| 0 <= k < i ==> ids@[k] != id,
        decreases ids@.len() - i,
    {
        if ids[i] == id {
            return true;
        }
        i = i + 1;
    }
    false
}

/// The contacts with the one of `submitter` for `number` renamed.
pub open spec fn renamed_contacts(cs: Seq<ContactView>, submitter: Seq<char>, number: Seq<char>, name: Seq<char>) -> Seq<ContactView> {
    Seq::new(cs.len(), |k: int| if cs[k].submitter == submitter && cs[k].number == number {
        ContactView { name: name, ..cs[k] }
    } else {
        cs[k]
    })
}

} // verus!
