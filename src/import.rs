//! Importing decoded contact cards: each card adds, renames, skips, or
//! waits for the submitter to pick among several new numbers.

use vstd::prelude::*;
use vstd::string::*;
use crate::phone::{canonical_spec, canonicalize, is_canonical};
use crate::store::{view_users, has_pair, keep, lemma_keep_complete, lemma_keep_index, lemma_keep_none, view_contacts, ContactView, StoreError};
use crate::text::str_eq;
use crate::engine::Engine;
use crate::workflow::{label_view, deferred_live, view_deferred, DeferredContact, DeferredView, NumberChoice};

verus! {

/// One property of a decoded card: `FN`, `TEL`, and so on.
pub struct CardProperty {
    pub name: String,
    pub value: Option<String>,
    pub params: Vec<(String, Vec<String>)>,
}

pub struct Card {
    pub properties: Vec<CardProperty>,
}

pub open spec fn prop_value(p: CardProperty) -> Option<Seq<char>> {
    match p.value {
        Some(v) => Some(v@),
        None => None,
    }
}

/// The display name of a card: the value of its first `FN` property.
pub open spec fn card_name(ps: Seq<CardProperty>) -> Option<Seq<char>>
    decreases ps.len(),
{
    if ps.len() == 0 {
        None
    } else if ps[0].name@ == "FN"@ {
        prop_value(ps[0])
    } else {
        card_name(ps.drop_first())
    }
}

/// The canonical forms of the card's `TEL` values that have one, in order.
pub open spec fn card_numbers(ps: Seq<CardProperty>) -> Seq<Seq<char>>
    decreases ps.len(),
{
    if ps.len() == 0 {
        Seq::empty()
    } else {
        let rest = card_numbers(ps.drop_last());
        let p = ps.last();
        if p.name@ == "TEL"@ && prop_value(p) is Some && canonical_spec(prop_value(p)->0) is Some {
            rest.push(canonical_spec(prop_value(p)->0)->0)
        } else {
            rest
        }
    }
}

/// The labels of the card's numbers (as `card_numbers` lists them): the
/// first value of each `TEL` property's `TYPE` parameter.
pub open spec fn card_labels(ps: Seq<CardProperty>) -> Seq<Option<Seq<char>>>
    decreases ps.len(),
{
    if ps.len() == 0 {
        Seq::empty()
    } else {
        let rest = card_labels(ps.drop_last());
        let p = ps.last();
        if p.name@ == "TEL"@ && prop_value(p) is Some && canonical_spec(prop_value(p)->0) is Some {
            rest.push(type_label(p.params@))
        } else {
            rest
        }
    }
}

/// The labels that go with the numbers of `nums` that satisfy `p`.
pub open spec fn keep_labels(nums: Seq<Seq<char>>, labels: Seq<Option<Seq<char>>>, p: spec_fn(Seq<char>) -> bool) -> Seq<Option<Seq<char>>>
    decreases nums.len(),
{
    if nums.len() == 0 || labels.len() != nums.len() {
        Seq::empty()
    } else {
        let r = keep_labels(nums.drop_last(), labels.drop_last(), p);
        if p(nums.last()) {
            r.push(labels.last())
        } else {
            r
        }
    }
}

/// The labels of the numbers that `submitter` has no contact for.
pub open spec fn fresh_labels(cs: Seq<ContactView>, submitter: Seq<char>, numbers: Seq<Seq<char>>, labels: Seq<Option<Seq<char>>>) -> Seq<Option<Seq<char>>> {
    keep_labels(numbers, labels, |n: Seq<char>| !has_pair(cs, submitter, n))
}

#[derive(Clone, Copy, PartialEq, Eq, Structural, Debug)]
pub enum ImportResult {
    Added,
    Updated,
    Unchanged,
    Deferred,
}

#[derive(PartialEq, Eq, Debug)]
pub enum ImportError {
    /// The submitter has not set a name yet.
    NotRegistered,
    /// The card could not be decoded; the decoder's message.
    Decode(String),
    NoName,
    NoNumbers,
    Store(StoreError),
}

/// `submitter`'s contacts whose number is in `numbers` all carry `name`.
pub open spec fn rename_all(cs: Seq<ContactView>, submitter: Seq<char>, numbers: Seq<Seq<char>>, name: Seq<char>) -> Seq<ContactView> {
    Seq::new(cs.len(), |k: int| if cs[k].submitter == submitter && numbers.contains(cs[k].number) {
        ContactView { name: name, ..cs[k] }
    } else {
        cs[k]
    })
}

/// The numbers that `submitter` has no contact for.
pub open spec fn fresh_numbers(cs: Seq<ContactView>, submitter: Seq<char>, numbers: Seq<Seq<char>>) -> Seq<Seq<char>> {
    keep(numbers, |n: Seq<char>| !has_pair(cs, submitter, n))
}

/// Some contact of `submitter` for one of `numbers` carries another name.
pub open spec fn any_renamed(cs: Seq<ContactView>, submitter: Seq<char>, numbers: Seq<Seq<char>>, name: Seq<char>) -> bool {
    exists|i: int| 0 <= i < cs.len() && #[trigger] cs[i].submitter == submitter && numbers.contains(cs[i].number) && cs[i].name != name
}

/// What importing a card with these numbers and name does.
pub open spec fn import_outcome(cs: Seq<ContactView>, submitter: Seq<char>, numbers: Seq<Seq<char>>, name: Seq<char>) -> ImportResult {
    let fresh = fresh_numbers(cs, submitter, numbers);
    if fresh.len() == 0 {
        if any_renamed(cs, submitter, numbers, name) {
            ImportResult::Updated
        } else {
            ImportResult::Unchanged
        }
    } else if fresh.len() == 1 {
        ImportResult::Added
    } else {
        ImportResult::Deferred
    }
}

/// The parameter key is `TYPE`, in any case.
pub open spec fn is_type_key_spec(k: Seq<char>) -> bool {
    k.len() == 4 && (k[0] == 'T' || k[0] == 't') && (k[1] == 'Y' || k[1] == 'y') && (k[2] == 'P' || k[2] == 'p')
        && (k[3] == 'E' || k[3] == 'e')
}

/// The first value of the first `TYPE` parameter, if it has one.
pub open spec fn type_label(ps: Seq<(String, Vec<String>)>) -> Option<Seq<char>>
    decreases ps.len(),
{
    if ps.len() == 0 {
        None
    } else if is_type_key_spec(ps[0].0@) {
        if ps[0].1@.len() > 0 {
            Some(ps[0].1@[0]@)
        } else {
            None
        }
    } else {
        type_label(ps.drop_first())
    }
}

fn is_type_key(k: &str) -> (r: bool)
    ensures
        r == is_type_key_spec(k@),
{
    if k.unicode_len() != 4 {
        return false;
    }
    let a = k.get_char(0);
    let b = k.get_char(1);
    let c = k.get_char(2);
    let d = k.get_char(3);
    (a == 'T' || a == 't') && (b == 'Y' || b == 'y') && (c == 'P' || c == 'p') && (d == 'E' || d == 'e')
}

/// The first value of the property's `TYPE` parameter, as a label.
fn number_label(p: &CardProperty) -> (r: Option<String>)
    ensures
        match r {
            Some(l) => type_label(p.params@) == Some(l@),
            None => type_label(p.params@) is None,
        },
{
    let ghost ps = p.params@;
    assert(ps.subrange(0, ps.len() as int) =~= ps);
    let mut i: usize = 0;
    while i < p.params.len()
        invariant
            ps == p.params@,
            i <= ps.len(),
            type_label(ps) == type_label(ps.subrange(i as int, ps.len() as int)),
        decreases p.params@.len() - i,
    {
        assert(ps.subrange(i as int, ps.len() as int).drop_first() =~= ps.subrange(i + 1, ps.len() as int));
        assert(ps.subrange(i as int, ps.len() as int)[0] == ps[i as int]);
        if is_type_key(p.params[i].0.as_str()) {
            if p.params[i].1.len() > 0 {
                return Some(p.params[i].1[0].clone());
            }
            return None;
        }
        i = i + 1;
    }
    None
}

/// The display name of the card.
pub fn extract_name(card: &Card) -> (r: Option<String>)
    ensures
        match r {
            Some(s) => card_name(card.properties@) == Some(s@),
            None => card_name(card.properties@) is None,
        },
{
    let ghost ps = card.properties@;
    assert(ps.subrange(0, ps.len() as int) =~= ps);
    let mut i: usize = 0;
    while i < card.properties.len()
        invariant
            ps == card.properties@,
            i <= ps.len(),
            card_name(ps) == card_name(ps.subrange(i as int, ps.len() as int)),
        decreases ps.len() - i,
    {
        assert(ps.subrange(i as int, ps.len() as int).drop_first() =~= ps.subrange(i + 1, ps.len() as int));
        let p = &card.properties[i];
        if str_eq(p.name.as_str(), "FN") {
            return match &p.value {
                Some(v) => Some(v.clone()),
                None => None,
            };
        }
        i = i + 1;
    }
    None
}

/// The canonical numbers of the card, each with its label.
pub fn extract_numbers(card: &Card) -> (r: Vec<NumberChoice>)
    ensures
        r@.map_values(|c: NumberChoice| c.number@) == card_numbers(card.properties@),
        r@.map_values(|c: NumberChoice| label_view(c.description)) == card_labels(card.properties@),
        forall|k: int| 0 <= k < r@.len() ==> is_canonical(#[trigger] r@[k].number@),
{
    let ghost ps = card.properties@;
    let mut out: Vec<NumberChoice> = Vec::new();
    let mut i: usize = 0;
    while i < card.properties.len()
        invariant
            ps == card.properties@,
            i <= ps.len(),
            out@.map_values(|c: NumberChoice| c.number@) == card_numbers(ps.take(i as int)),
            out@.map_values(|c: NumberChoice| label_view(c.description)) == card_labels(ps.take(i as int)),
            forall|k: int| 0 <= k < out@.len() ==> is_canonical(#[trigger] out@[k].number@),
        decreases ps.len() - i,
    {
        assert(ps.take(i + 1).drop_last() =~= ps.take(i as int));
        let ghost before = out@;
        let p = &card.properties[i];
        if str_eq(p.name.as_str(), "TEL") {
            if let Some(v) = &p.value {
                if let Some(c) = canonicalize(v.as_str()) {
                    out.push(NumberChoice { number: c, description: number_label(p) });
                    assert(out@.map_values(|c: NumberChoice| c.number@) =~= before.map_values(|c: NumberChoice| c.number@).push(canonical_spec(v@)->0));
                    assert(out@.map_values(|c: NumberChoice| label_view(c.description)) =~= before.map_values(|c: NumberChoice| label_view(c.description)).push(type_label(p.params@)));
                }
            }
        }
        i = i + 1;
    }
    assert(ps.take(ps.len() as int) =~= ps);
    out
}

proof fn lemma_rename_all_pairs(cs: Seq<ContactView>, submitter: Seq<char>, numbers: Seq<Seq<char>>, name: Seq<char>, s: Seq<char>, n: Seq<char>)
    ensures
        has_pair(rename_all(cs, submitter, numbers, name), s, n) == has_pair(cs, s, n),
{
    let r = rename_all(cs, submitter, numbers, name);
    if has_pair(cs, s, n) {
        let i = choose|i: int| 0 <= i < cs.len() && #[trigger] cs[i].submitter == s && cs[i].number == n;
        assert(r[i].submitter == s && r[i].number == n);
    }
    if has_pair(r, s, n) {
        let i = choose|i: int| 0 <= i < r.len() && #[trigger] r[i].submitter == s && r[i].number == n;
        assert(cs[i].submitter == s && cs[i].number == n);
    }
}

/// When a card has just been added, importing the same card again for the
/// same submitter changes nothing: every number is now owned, under the
/// card's name.
pub proof fn lemma_import_twice_unchanged(cs: Seq<ContactView>, next_id: u64, submitter: Seq<char>, nums: Seq<Seq<char>>, name: Seq<char>)
    requires
        crate::store::contacts_ok(cs, next_id),
        import_outcome(cs, submitter, nums, name) == ImportResult::Added,
    ensures
        import_outcome(
            rename_all(cs, submitter, nums, name).push(
                (ContactView { id: next_id, submitter, name, number: fresh_numbers(cs, submitter, nums)[0] }),
            ),
            submitter,
            nums,
            name,
        ) == ImportResult::Unchanged,
{
    let fresh = fresh_numbers(cs, submitter, nums);
    let fp = |n: Seq<char>| !has_pair(cs, submitter, n);
    let added = ContactView { id: next_id, submitter, name, number: fresh[0] };
    let cs2 = rename_all(cs, submitter, nums, name).push(added);
    let fp2 = |n: Seq<char>| !has_pair(cs2, submitter, n);
    assert forall|k: int| 0 <= k < nums.len() implies !fp2(#[trigger] nums[k]) by {
        lemma_rename_all_pairs(cs, submitter, nums, name, submitter, nums[k]);
        if has_pair(cs, submitter, nums[k]) {
            let i = choose|i: int| 0 <= i < rename_all(cs, submitter, nums, name).len()
                && #[trigger] rename_all(cs, submitter, nums, name)[i].submitter == submitter
                && rename_all(cs, submitter, nums, name)[i].number == nums[k];
            assert(cs2[i].submitter == submitter && cs2[i].number == nums[k]);
        } else {
            // the only fresh number is the one just added
            assert(fp(nums[k]));
            lemma_keep_index(nums, fp, k);
            assert(fresh.contains(nums[k]));
            assert(nums[k] == fresh[0]);
            assert(cs2[cs2.len() - 1].submitter == submitter && cs2[cs2.len() - 1].number == nums[k]);
        }
    }
    lemma_keep_none(nums, fp2);
    assert(!any_renamed(cs2, submitter, nums, name));
}

/// Once a card has renamed its contacts, importing it again changes
/// nothing.
pub proof fn lemma_rename_once(cs: Seq<ContactView>, submitter: Seq<char>, nums: Seq<Seq<char>>, name: Seq<char>)
    requires
        import_outcome(cs, submitter, nums, name) == ImportResult::Updated,
    ensures
        import_outcome(rename_all(cs, submitter, nums, name), submitter, nums, name) == ImportResult::Unchanged,
{
    let fp = |n: Seq<char>| !has_pair(cs, submitter, n);
    let cs2 = rename_all(cs, submitter, nums, name);
    let fp2 = |n: Seq<char>| !has_pair(cs2, submitter, n);
    assert forall|k: int| 0 <= k < nums.len() implies !fp2(#[trigger] nums[k]) by {
        lemma_rename_all_pairs(cs, submitter, nums, name, submitter, nums[k]);
        if fp(nums[k]) {
            lemma_keep_complete(nums, fp, k);
        }
    }
    lemma_keep_none(nums, fp2);
    assert(!any_renamed(cs2, submitter, nums, name));
}

/// What importing one card does: the contract of `Engine::process_vcard`
/// from engine `o` to engine `f`.
pub open spec fn vcard_post(o: Engine, f: Engine, from: Seq<char>, card: Result<Card, String>, now: u64, r: Result<ImportResult, ImportError>) -> bool {
    &&& f.wf()
    &&& !o.store.has_user(from) ==> r == Err::<ImportResult, ImportError>(ImportError::NotRegistered) && f == o
    &&& o.store.has_user(from) ==> match card {
            Err(m) => (r matches Err(ImportError::Decode(x)) && x@ == m@) && f == o,
            Ok(c) => match card_name(c.properties@) {
                None => r == Err::<ImportResult, ImportError>(ImportError::NoName) && f == o,
                Some(name) => {
                    let nums = card_numbers(c.properties@);
                    let cs = view_contacts(o.store.contacts@);
                    let renamed = rename_all(cs, from, nums, name);
                    let fresh = fresh_numbers(cs, from, nums);
                    if nums.len() == 0 {
                        r == Err::<ImportResult, ImportError>(ImportError::NoNumbers) && f == o
                    } else {
                        match import_outcome(cs, from, nums, name) {
                            ImportResult::Added => if o.store.next_id < u64::MAX {
                                &&& r == Ok::<ImportResult, ImportError>(ImportResult::Added)
                                &&& view_contacts(f.store.contacts@) == renamed.push(
                                    (ContactView { id: o.store.next_id, submitter: from, name: name, number: fresh[0] }))
                                &&& f.flows == o.flows
                                &&& f.store.next_id == o.store.next_id + 1
                                &&& view_users(f.store.users@) == (if o.store.has_user(fresh[0]) {
                                    view_users(o.store.users@)
                                } else {
                                    view_users(o.store.users@).push((fresh[0], name))
                                })
                            } else {
                                &&& r == Err::<ImportResult, ImportError>(ImportError::Store(StoreError::IdsExhausted))
                                &&& view_contacts(f.store.contacts@) == renamed
                                &&& f.store.users@ == o.store.users@
                                &&& f.store.next_id == o.store.next_id
                                &&& f.flows == o.flows
                            },
                            ImportResult::Deferred => {
                                &&& r == Ok::<ImportResult, ImportError>(ImportResult::Deferred)
                                &&& view_contacts(f.store.contacts@) == renamed
                                &&& f.store.users@ == o.store.users@
                                &&& f.store.next_id == o.store.next_id
                                &&& f.flows.pending == o.flows.pending
                                &&& view_deferred(f.flows.deferred@) == keep(view_deferred(o.flows.deferred@), deferred_live(now)).push(
                                    (DeferredView { submitter: from, name: name, numbers: fresh,
                                        labels: fresh_labels(cs, from, nums, card_labels(c.properties@)), created_at: now }))
                            },
                            outcome => {
                                &&& r == Ok::<ImportResult, ImportError>(outcome)
                                &&& view_contacts(f.store.contacts@) == renamed
                                &&& f.store.users@ == o.store.users@
                                &&& f.store.next_id == o.store.next_id
                                &&& f.flows == o.flows
                            },
                        }
                    }
                },
            }
        }
}

/// Adding a number to those a card holds adds the contacts for it to
/// those that would be renamed.
proof fn lemma_any_renamed_push(cs: Seq<ContactView>, from: Seq<char>, nums: Seq<Seq<char>>, name: Seq<char>, n: Seq<char>)
    ensures
        any_renamed(cs, from, nums.push(n), name) == (any_renamed(cs, from, nums, name) || exists|i: int|
            0 <= i < cs.len() && #[trigger] cs[i].submitter == from && cs[i].number == n && cs[i].name != name),
{
    let next = nums.push(n);
    if any_renamed(cs, from, next, name) {
        let i = choose|i: int| 0 <= i < cs.len() && #[trigger] cs[i].submitter == from && next.contains(cs[i].number) && cs[i].name != name;
        let m = choose|m: int| 0 <= m < next.len() && next[m] == cs[i].number;
        if m < nums.len() {
            assert(nums[m] == cs[i].number);
        }
    }
    if any_renamed(cs, from, nums, name) {
        let i = choose|i: int| 0 <= i < cs.len() && #[trigger] cs[i].submitter == from && nums.contains(cs[i].number) && cs[i].name != name;
        let m = choose|m: int| 0 <= m < nums.len() && nums[m] == cs[i].number;
        assert(next[m] == cs[i].number);
    }
    if exists|i: int| 0 <= i < cs.len() && #[trigger] cs[i].submitter == from && cs[i].number == n && cs[i].name != name {
        let i = choose|i: int| 0 <= i < cs.len() && #[trigger] cs[i].submitter == from && cs[i].number == n && cs[i].name != name;
        assert(next[nums.len() as int] == n);
    }
}

impl Engine {
    /// Imports one decoded card sent by `from`.
    pub fn process_vcard(&mut self, from: &str, card: &Result<Card, String>, now: u64) -> (r: Result<ImportResult, ImportError>)
        requires
            old(self).wf(),
        ensures
            vcard_post(*old(self), *final(self), from@, *card, now, r),
    {
        match self.store.find_user(from) {
            None => {
                return Err(ImportError::NotRegistered);
            },
            Some(ui) => {
                assert(crate::store::view_users(self.store.users@)[ui as int].0 == from@);
            },
        }
        let c = match card {
            Err(m) => {
                return Err(ImportError::Decode(m.clone()));
            },
            Ok(c) => c,
        };
        let name = match extract_name(c) {
            None => {
                return Err(ImportError::NoName);
            },
            Some(n) => n,
        };
        let numbers = extract_numbers(c);
        if numbers.len() == 0 {
            return Err(ImportError::NoNumbers);
        }
        let ghost nums = numbers@.map_values(|c: NumberChoice| c.number@);
        let ghost labs = numbers@.map_values(|c: NumberChoice| label_view(c.description));
        let ghost cs = view_contacts(self.store.contacts@);
        let ghost fp = |n: Seq<char>| !has_pair(cs, from@, n);
        let mut fresh: Vec<NumberChoice> = Vec::new();
        let mut updated = false;
        let mut k: usize = 0;
        while k < numbers.len()
            invariant
                self.wf(),
                self.flows == old(self).flows,
                self.store.next_id == old(self).store.next_id,
                self.store.users@ == old(self).store.users@,
                cs == view_contacts(old(self).store.contacts@),
                nums == numbers@.map_values(|c: NumberChoice| c.number@),
                k <= numbers@.len(),
                view_contacts(self.store.contacts@) == rename_all(cs, from@, nums.take(k as int), name@),
                fresh@.map_values(|c: NumberChoice| c.number@) == keep(nums.take(k as int), fp),
                labs == numbers@.map_values(|c: NumberChoice| label_view(c.description)),
                fresh@.map_values(|c: NumberChoice| label_view(c.description)) == keep_labels(nums.take(k as int), labs.take(k as int), fp),
                fp == (|n: Seq<char>| !has_pair(cs, from@, n)),
                updated == any_renamed(cs, from@, nums.take(k as int), name@),
            decreases numbers@.len() - k,
        {
            let ghost before_take = nums.take(k as int);
            let ghost next_take = nums.take(k + 1);
            assert(next_take.drop_last() =~= before_take);
            assert(next_take.last() == numbers@[k as int].number@);
            let num = numbers[k].number.as_str();
            let ghost cur = view_contacts(self.store.contacts@);
            proof {
                lemma_rename_all_pairs(cs, from@, before_take, name@, from@, num@);
            }
            match self.store.find_pair_index(from, num) {
                Some(j) => {
                    assert(cur[j as int].submitter == from@ && cur[j as int].number == num@);
                    assert(has_pair(cur, from@, num@));
                    let differs = !str_eq(self.store.contacts[j].contact_name.as_str(), name.as_str());
                    proof {
                        // the contact at j is the only one of `from` for `num`
                        assert forall|i: int| 0 <= i < cs.len() && #[trigger] cs[i].submitter == from@ && cs[i].number == num@ implies i == j by {
                            assert(cur[i].submitter == from@ && cur[i].number == num@);
                            if i < j {
                                assert(!(cur[i].submitter == cur[j as int].submitter && cur[i].number == cur[j as int].number));
                            } else if i > j {
                                assert(!(cur[j as int].submitter == cur[i].submitter && cur[j as int].number == cur[i].number));
                            }
                        }
                        if before_take.contains(num@) {
                            assert(!differs);
                            assert(any_renamed(cs, from@, next_take, name@) == any_renamed(cs, from@, before_take, name@)) by {
                                lemma_any_renamed_push(cs, from@, before_take, name@, num@);
                                assert(next_take =~= before_take.push(num@));
                            }
                        } else {
                            assert(cur[j as int] == cs[j as int]);
                            assert(any_renamed(cs, from@, next_take, name@) == (any_renamed(cs, from@, before_take, name@) || differs)) by {
                                lemma_any_renamed_push(cs, from@, before_take, name@, num@);
                                assert(next_take =~= before_take.push(num@));
                                if differs {
                                    assert(next_take[k as int] == cs[j as int].number);
                                    assert(cs[j as int].submitter == from@ && next_take.contains(cs[j as int].number) && cs[j as int].name != name@);
                                }
                            }
                        }
                    }
                    if differs {
                        updated = true;
                    }
                    self.store.rename_contact(from, num, name.as_str());
                },
                None => {
                    fresh.push(numbers[k].duplicate());
                    proof {
                        assert forall|i: int| 0 <= i < cs.len() implies !(#[trigger] cs[i].submitter == from@ && cs[i].number == num@) by {
                            if cs[i].submitter == from@ && cs[i].number == num@ {
                                assert(has_pair(cs, from@, num@));
                            }
                        }
                        assert(any_renamed(cs, from@, next_take, name@) == any_renamed(cs, from@, before_take, name@)) by {
                            lemma_any_renamed_push(cs, from@, before_take, name@, num@);
                            assert(next_take =~= before_take.push(num@));
                        }
                    }
                },
            }
            assert(view_contacts(self.store.contacts@) =~= rename_all(cs, from@, next_take, name@)) by {
                assert forall|i: int| 0 <= i < cs.len() implies (#[trigger] next_take.contains(cs[i].number)) == (before_take.contains(cs[i].number) || cs[i].number == num@) by {
                    if next_take.contains(cs[i].number) {
                        let m = choose|m: int| 0 <= m < next_take.len() && next_take[m] == cs[i].number;
                        if m < k {
                            assert(before_take[m] == cs[i].number);
                        }
                    }
                    if before_take.contains(cs[i].number) {
                        let m = choose|m: int| 0 <= m < before_take.len() && before_take[m] == cs[i].number;
                        assert(next_take[m] == cs[i].number);
                    }
                    if cs[i].number == num@ {
                        assert(next_take[k as int] == num@);
                    }
                }
            }
            assert(fresh@.map_values(|c: NumberChoice| c.number@) =~= keep(next_take, fp));
            assert(labs.take(k + 1).drop_last() =~= labs.take(k as int));
            assert(labs.take(k + 1).last() == label_view(numbers@[k as int].description));
            assert(fresh@.map_values(|c: NumberChoice| label_view(c.description)) =~= keep_labels(next_take, labs.take(k + 1), fp));
            k = k + 1;
        }
        assert(nums.take(numbers@.len() as int) =~= nums);
        assert(labs.take(numbers@.len() as int) =~= labs);
        assert(nums == card_numbers(c.properties@));
        if fresh.len() == 0 {
            if updated {
                return Ok(ImportResult::Updated);
            }
            return Ok(ImportResult::Unchanged);
        }
        if fresh.len() > 1 {
            let ghost fv = fresh@.map_values(|c: NumberChoice| c.number@);
            let ghost fl = fresh@.map_values(|c: NumberChoice| label_view(c.description));
            let d = DeferredContact { submitter: String::from_str(from), name, numbers: fresh, created_at: now };
            assert(d@.numbers == fv);
            assert(d@.labels == fl);
            self.flows.defer(d, now);
            return Ok(ImportResult::Deferred);
        }
        assert(fresh@[0].number@ == fresh@.map_values(|c: NumberChoice| c.number@)[0]);
        proof {
            lemma_rename_all_pairs(cs, from@, nums, name@, from@, fresh@[0].number@);
            crate::store::lemma_keep_sub_any(nums, fp);
        }
        match self.store.insert_contact(from, name.as_str(), fresh[0].number.as_str()) {
            Ok(_) => Ok(ImportResult::Added),
            Err(e) => Err(ImportError::Store(e)),
        }
    }
}

} // verus!
