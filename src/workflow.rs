//! The two short dialogues that span several messages: choosing among the
//! numbers of a card, and confirming a deletion. Records older than the
//! time-to-live are unreachable and purged on access.

use vstd::prelude::*;
use vstd::string::*;
use crate::store::{keep, lemma_keep_sub_any};
use crate::text::{decimal, push_decimal, str_eq};

verus! {

/// How long a record stays usable, in seconds.
pub const TTL_SECS: u64 = 300;

/// A record made at `created_at` is past its time at `now`.
pub open spec fn expired(created_at: u64, now: u64) -> bool {
    now > created_at && now - created_at > TTL_SECS
}

pub fn is_expired(created_at: u64, now: u64) -> (r: bool)
    ensures
        r == expired(created_at, now),
{
    now > created_at && now - created_at > TTL_SECS
}

pub struct NumberChoice {
    pub number: String,
    pub description: Option<String>,
}

/// A card with several new numbers, waiting for the submitter to pick.
pub struct DeferredContact {
    pub submitter: String,
    pub name: String,
    pub numbers: Vec<NumberChoice>,
    pub created_at: u64,
}

pub struct DeferredView {
    pub submitter: Seq<char>,
    pub name: Seq<char>,
    pub numbers: Seq<Seq<char>>,
    /// The label of each number (its `TYPE`), where the card gave one.
    pub labels: Seq<Option<Seq<char>>>,
    pub created_at: u64,
}

impl View for DeferredContact {
    type V = DeferredView;

    open spec fn view(&self) -> DeferredView {
        DeferredView {
            submitter: self.submitter@,
            name: self.name@,
            numbers: self.numbers@.map_values(|c: NumberChoice| c.number@),
            labels: self.numbers@.map_values(|c: NumberChoice| label_view(c.description)),
            created_at: self.created_at,
        }
    }
}

pub open spec fn label_view(l: Option<String>) -> Option<Seq<char>> {
    match l {
        Some(s) => Some(s@),
        None => None,
    }
}

pub open spec fn view_deferred(ds: Seq<DeferredContact>) -> Seq<DeferredView> {
    ds.map_values(|d: DeferredContact| d@)
}

/// A contact shown by a deletion search, under the token `submitter:ordinal`.
pub struct PendingDeletion {
    pub submitter: String,
    pub ordinal: usize,
    pub contact_id: u64,
    pub created_at: u64,
}

pub struct PendingView {
    pub submitter: Seq<char>,
    pub ordinal: usize,
    pub contact_id: u64,
    pub created_at: u64,
}

impl View for PendingDeletion {
    type V = PendingView;

    open spec fn view(&self) -> PendingView {
        PendingView {
            submitter: self.submitter@,
            ordinal: self.ordinal,
            contact_id: self.contact_id,
            created_at: self.created_at,
        }
    }
}

pub open spec fn view_pending(ps: Seq<PendingDeletion>) -> Seq<PendingView> {
    ps.map_values(|p: PendingDeletion| p@)
}

pub open spec fn deferred_live(now: u64) -> spec_fn(DeferredView) -> bool {
    |d: DeferredView| !expired(d.created_at, now)
}

pub open spec fn deferred_of(submitter: Seq<char>) -> spec_fn(DeferredView) -> bool {
    |d: DeferredView| d.submitter == submitter
}

pub open spec fn deferred_not_of(submitter: Seq<char>) -> spec_fn(DeferredView) -> bool {
    |d: DeferredView| d.submitter != submitter
}

pub open spec fn pending_live(now: u64) -> spec_fn(PendingView) -> bool {
    |p: PendingView| !expired(p.created_at, now)
}

pub open spec fn pending_not_for(ids: Seq<u64>) -> spec_fn(PendingView) -> bool {
    |p: PendingView| !ids.contains(p.contact_id)
}

/// The pending deletion record under a token, if any.
pub open spec fn token_record(ps: Seq<PendingView>, submitter: Seq<char>, ordinal: usize) -> Option<PendingView> {
    if exists|i: int| 0 <= i < ps.len() && #[trigger] ps[i].submitter == submitter && ps[i].ordinal == ordinal {
        let i = choose|i: int| 0 <= i < ps.len() && #[trigger] ps[i].submitter == submitter && ps[i].ordinal == ordinal;
        Some(ps[i])
    } else {
        None
    }
}

/// The contact that the deletion under a token names, if any.
pub open spec fn token_lookup(ps: Seq<PendingView>, submitter: Seq<char>, ordinal: usize) -> Option<u64> {
    match token_record(ps, submitter, ordinal) {
        Some(p) => Some(p.contact_id),
        None => None,
    }
}

/// Tokens are unique.
pub open spec fn tokens_unique(ps: Seq<PendingView>) -> bool {
    forall|i: int, j: int|
        0 <= i < j < ps.len() ==> !(#[trigger] ps[i].submitter == #[trigger] ps[j].submitter && ps[i].ordinal == ps[j].ordinal)
}

pub proof fn lemma_keep_tokens(ps: Seq<PendingView>, p: spec_fn(PendingView) -> bool)
    requires
        tokens_unique(ps),
    ensures
        tokens_unique(keep(ps, p)),
        forall|k: int| 0 <= k < keep(ps, p).len() ==> ps.contains(#[trigger] keep(ps, p)[k]),
    decreases ps.len(),
{
    if ps.len() > 0 {
        let t = ps.drop_last();
        assert(tokens_unique(t)) by {
            assert forall|a: int, b: int| 0 <= a < b < t.len() implies
                !(#[trigger] t[a].submitter == #[trigger] t[b].submitter && t[a].ordinal == t[b].ordinal) by {
                assert(t[a] == ps[a] && t[b] == ps[b]);
            }
        }
        lemma_keep_tokens(t, p);
        let r = keep(t, p);
        let k2 = keep(ps, p);
        assert forall|k: int| 0 <= k < k2.len() implies ps.contains(#[trigger] k2[k]) by {
            if k < r.len() {
                assert(k2[k] == r[k]);
                assert(t.contains(r[k]));
                let m = choose|m: int| 0 <= m < t.len() && t[m] == r[k];
                assert(ps[m] == t[m]);
            } else {
                assert(ps[ps.len() - 1] == k2[k]);
            }
        }
        if p(ps.last()) {
            assert forall|a: int, b: int| 0 <= a < b < k2.len() implies
                !(#[trigger] k2[a].submitter == #[trigger] k2[b].submitter && k2[a].ordinal == k2[b].ordinal) by {
                if b == k2.len() - 1 {
                    assert(k2[a] == r[a]);
                    assert(t.contains(r[a]));
                    let m = choose|m: int| 0 <= m < t.len() && t[m] == r[a];
                    assert(ps[m] == t[m]);
                    assert(k2[b] == ps[ps.len() - 1]);
                    assert(!(ps[m].submitter == ps[ps.len() - 1].submitter && ps[m].ordinal == ps[ps.len() - 1].ordinal));
                } else {
                    assert(k2[a] == r[a] && k2[b] == r[b]);
                }
            }
        }
    }
}

proof fn lemma_lookup_at(ps: Seq<PendingView>, i: int)
    requires
        tokens_unique(ps),
        0 <= i < ps.len(),
    ensures
        token_record(ps, ps[i].submitter, ps[i].ordinal) == Some(ps[i]),
{
    let s = ps[i].submitter;
    let o = ps[i].ordinal;
    assert(ps[i].submitter == s && ps[i].ordinal == o);
    let c = choose|c: int| 0 <= c < ps.len() && #[trigger] ps[c].submitter == s && ps[c].ordinal == o;
    if c < i {
        assert(!(ps[c].submitter == ps[i].submitter && ps[c].ordinal == ps[i].ordinal));
    } else if c > i {
        assert(!(ps[i].submitter == ps[c].submitter && ps[i].ordinal == ps[c].ordinal));
    }
}

/// `qs` differs from `ps` at most at index `i` (or by one element pushed
/// there), and the token at `i` in `qs` is not `(s, o)`: the lookup of
/// `(s, o)` is the same in both.
proof fn lemma_lookup_same(ps: Seq<PendingView>, qs: Seq<PendingView>, s: Seq<char>, o: usize, i: int)
    requires
        tokens_unique(ps),
        tokens_unique(qs),
        0 <= i < qs.len(),
        qs.len() == ps.len() || (qs.len() == ps.len() + 1 && i == ps.len()),
        forall|k: int| 0 <= k < qs.len() && k != i ==> qs[k] == ps[k],
        i < ps.len() ==> ps[i].submitter == qs[i].submitter && ps[i].ordinal == qs[i].ordinal,
        !(qs[i].submitter == s && qs[i].ordinal == o),
    ensures
        token_record(qs, s, o) == token_record(ps, s, o),
{
    if exists|c: int| 0 <= c < ps.len() && #[trigger] ps[c].submitter == s && ps[c].ordinal == o {
        let c = choose|c: int| 0 <= c < ps.len() && #[trigger] ps[c].submitter == s && ps[c].ordinal == o;
        assert(c != i);
        assert(qs[c] == ps[c]);
        assert(qs[c].submitter == s && qs[c].ordinal == o);
        let d = choose|d: int| 0 <= d < qs.len() && #[trigger] qs[d].submitter == s && qs[d].ordinal == o;
        if d < c {
            assert(!(qs[d].submitter == qs[c].submitter && qs[d].ordinal == qs[c].ordinal));
        } else if d > c {
            assert(!(qs[c].submitter == qs[d].submitter && qs[c].ordinal == qs[d].ordinal));
        }
    } else {
        if exists|d: int| 0 <= d < qs.len() && #[trigger] qs[d].submitter == s && qs[d].ordinal == o {
            let d = choose|d: int| 0 <= d < qs.len() && #[trigger] qs[d].submitter == s && qs[d].ordinal == o;
            assert(d != i);
            assert(ps[d] == qs[d]);
            assert(ps[d].submitter == s && ps[d].ordinal == o);
        }
    }
}

/// After a purge at `now`, no deferred card that is past its time at `now`
/// remains, whoever sent it.
pub proof fn lemma_expired_cards_unreachable(ds: Seq<DeferredView>, now: u64)
    ensures
        forall|k: int| 0 <= k < keep(ds, deferred_live(now)).len() ==>
            !expired(#[trigger] keep(ds, deferred_live(now))[k].created_at, now),
{
    lemma_keep_sub_any(ds, deferred_live(now));
    assert forall|k: int| 0 <= k < keep(ds, deferred_live(now)).len() implies
        !expired(#[trigger] keep(ds, deferred_live(now))[k].created_at, now) by {
        assert(deferred_live(now)(keep(ds, deferred_live(now))[k]));
    }
}

/// After a sweep at `now`, the token of a pending deletion past its time
/// names nothing, whatever other senders hold.
pub proof fn lemma_expired_token_unreachable(ps: Seq<PendingView>, i: int, now: u64)
    requires
        tokens_unique(ps),
        0 <= i < ps.len(),
        expired(ps[i].created_at, now),
    ensures
        token_lookup(keep(ps, pending_live(now)), ps[i].submitter, ps[i].ordinal) is None,
{
    let kept = keep(ps, pending_live(now));
    lemma_keep_tokens(ps, pending_live(now));
    lemma_keep_sub_any(ps, pending_live(now));
    if exists|c: int| 0 <= c < kept.len() && #[trigger] kept[c].submitter == ps[i].submitter && kept[c].ordinal == ps[i].ordinal {
        let c = choose|c: int| 0 <= c < kept.len() && #[trigger] kept[c].submitter == ps[i].submitter && kept[c].ordinal == ps[i].ordinal;
        assert(ps.contains(kept[c]));
        let m = choose|m: int| 0 <= m < ps.len() && ps[m] == kept[c];
        if m < i {
            assert(!(ps[m].submitter == ps[i].submitter && ps[m].ordinal == ps[i].ordinal));
        } else if m > i {
            assert(!(ps[i].submitter == ps[m].submitter && ps[i].ordinal == ps[m].ordinal));
        }
        assert(pending_live(now)(kept[c]));
    }
}

/// A sender with no deferred card has none after a purge either: a pick
/// that follows one that cleared the list finds nothing pending.
pub proof fn lemma_cleared_stays_clear(ds: Seq<DeferredView>, submitter: Seq<char>, now: u64)
    requires
        keep(ds, deferred_of(submitter)).len() == 0,
    ensures
        keep(keep(ds, deferred_live(now)), deferred_of(submitter)).len() == 0,
    decreases ds.len(),
{
    if ds.len() > 0 {
        let dl = ds.drop_last();
        let of = deferred_of(submitter);
        let live = deferred_live(now);
        assert(!of(ds.last()));
        assert(keep(ds, of) == keep(dl, of));
        lemma_cleared_stays_clear(dl, submitter, now);
        let kl = keep(ds, live);
        if live(ds.last()) {
            assert(kl == keep(dl, live).push(ds.last()));
            assert(kl.drop_last() =~= keep(dl, live));
            assert(kl.last() == ds.last());
            assert(keep(kl, of) == keep(kl.drop_last(), of));
        } else {
            assert(kl == keep(dl, live));
        }
    }
}

impl NumberChoice {
    pub fn duplicate(&self) -> (r: NumberChoice)
        ensures
            r.number@ == self.number@,
            label_view(r.description) == label_view(self.description),
    {
        let description = match &self.description {
            Some(d) => Some(d.clone()),
            None => None,
        };
        NumberChoice { number: self.number.clone(), description }
    }
}

impl PendingDeletion {
    /// The token `submitter:ordinal` this record stands under.
    pub fn token(&self) -> (r: String)
        ensures
            r@ == self.submitter@ + seq![':'] + decimal(self.ordinal as nat),
    {
        let mut r = self.submitter.clone();
        crate::text::push_char(&mut r, ':');
        push_decimal(&mut r, self.ordinal as u64);
        r
    }
}

impl DeferredContact {
    pub fn duplicate(&self) -> (r: DeferredContact)
        ensures
            r@ == self@,
    {
        let mut numbers: Vec<NumberChoice> = Vec::new();
        let mut i: usize = 0;
        while i < self.numbers.len()
            invariant
                i <= self.numbers@.len(),
                numbers@.len() == i,
                forall|k: int| 0 <= k < i ==> #[trigger] numbers@[k].number@ == self.numbers@[k].number@,
                forall|k: int| 0 <= k < i ==> #[trigger] label_view(numbers@[k].description) == label_view(self.numbers@[k].description),
            decreases self.numbers@.len() - i,
        {
            numbers.push(self.numbers[i].duplicate());
            i = i + 1;
        }
        let r = DeferredContact {
            submitter: self.submitter.clone(),
            name: self.name.clone(),
            numbers,
            created_at: self.created_at,
        };
        assert(r@.numbers =~= self@.numbers);
        assert forall|k: int| 0 <= k < r@.labels.len() implies r@.labels[k] == self@.labels[k] by {
            assert(label_view(r.numbers@[k].description) == label_view(self.numbers@[k].description));
        }
        assert(r@.labels =~= self@.labels);
        r
    }
}

/// The dialogue state of every sender.
pub struct Workflows {
    pub deferred: Vec<DeferredContact>,
    pub pending: Vec<PendingDeletion>,
}

impl Workflows {
    pub open spec fn wf(&self) -> bool {
        tokens_unique(view_pending(self.pending@))
    }

    pub fn new() -> (r: Workflows)
        ensures
            r.wf(),
            r.deferred@.len() == 0,
            r.pending@.len() == 0,
    {
        Workflows { deferred: Vec::new(), pending: Vec::new() }
    }

    /// Drops every deferred card past its time.
    pub fn purge_deferred(&mut self, now: u64)
        ensures
            view_deferred(final(self).deferred@) == keep(view_deferred(old(self).deferred@), deferred_live(now)),
            final(self).pending == old(self).pending,
    {
        let ghost ds = view_deferred(self.deferred@);
        let ghost p = deferred_live(now);
        let mut out: Vec<DeferredContact> = Vec::new();
        let mut i: usize = 0;
        while i < self.deferred.len()
            invariant
                ds == view_deferred(self.deferred@),
                i <= ds.len(),
                view_deferred(out@) == keep(ds.take(i as int), p),
                p == deferred_live(now),
                self.pending == old(self).pending,
            decreases ds.len() - i,
        {
            assert(ds.take(i + 1).drop_last() =~= ds.take(i as int));
            if !is_expired(self.deferred[i].created_at, now) {
                out.push(self.deferred[i].duplicate());
                assert(view_deferred(out@) =~= keep(ds.take(i + 1), p));
            }
            i = i + 1;
        }
        assert(ds.take(ds.len() as int) =~= ds);
        self.deferred = out;
    }

    /// Drops every deferred card of `submitter`.
    pub fn clear_deferred(&mut self, submitter: &str)
        ensures
            view_deferred(final(self).deferred@) == keep(view_deferred(old(self).deferred@), deferred_not_of(submitter@)),
            final(self).pending == old(self).pending,
    {
        let ghost ds = view_deferred(self.deferred@);
        let ghost p = deferred_not_of(submitter@);
        let mut out: Vec<DeferredContact> = Vec::new();
        let mut i: usize = 0;
        while i < self.deferred.len()
            invariant
                ds == view_deferred(self.deferred@),
                i <= ds.len(),
                view_deferred(out@) == keep(ds.take(i as int), p),
                p == deferred_not_of(submitter@),
                self.pending == old(self).pending,
            decreases ds.len() - i,
        {
            assert(ds.take(i + 1).drop_last() =~= ds.take(i as int));
            if !str_eq(self.deferred[i].submitter.as_str(), submitter) {
                out.push(self.deferred[i].duplicate());
                assert(view_deferred(out@) =~= keep(ds.take(i + 1), p));
            }
            i = i + 1;
        }
        assert(ds.take(ds.len() as int) =~= ds);
        self.deferred = out;
    }

    /// Keeps a card with several new numbers for `submitter`, after dropping
    /// the cards past their time.
    pub fn defer(&mut self, card: DeferredContact, now: u64)
        ensures
            view_deferred(final(self).deferred@) == keep(view_deferred(old(self).deferred@), deferred_live(now)).push(card@),
            final(self).pending == old(self).pending,
    {
        self.purge_deferred(now);
        let ghost before = view_deferred(self.deferred@);
        self.deferred.push(card);
        assert(view_deferred(self.deferred@) =~= before.push(card@));
    }

    /// Drops every pending deletion past its time, for all senders.
    pub fn cleanup_pending_deletions(&mut self, now: u64)
        requires
            old(self).wf(),
        ensures
            final(self).wf(),
            view_pending(final(self).pending@) == keep(view_pending(old(self).pending@), pending_live(now)),
            final(self).deferred == old(self).deferred,
    {
        let ghost ps = view_pending(self.pending@);
        let ghost p = pending_live(now);
        let mut out: Vec<PendingDeletion> = Vec::new();
        let mut i: usize = 0;
        while i < self.pending.len()
            invariant
                ps == view_pending(self.pending@),
                i <= ps.len(),
                view_pending(out@) == keep(ps.take(i as int), p),
                p == pending_live(now),
                self.deferred == old(self).deferred,
                self.wf(),
            decreases ps.len() - i,
        {
            assert(ps.take(i + 1).drop_last() =~= ps.take(i as int));
            if !is_expired(self.pending[i].created_at, now) {
                let d = &self.pending[i];
                out.push(PendingDeletion {
                    submitter: d.submitter.clone(),
                    ordinal: d.ordinal,
                    contact_id: d.contact_id,
                    created_at: d.created_at,
                });
                assert(view_pending(out@) =~= keep(ps.take(i + 1), p));
            }
            i = i + 1;
        }
        assert(ps.take(ps.len() as int) =~= ps);
        proof {
            lemma_keep_tokens(ps, p);
        }
        self.pending = out;
    }

    /// Drops every pending deletion of a contact in `ids`.
    pub fn forget_deleted(&mut self, ids: &Vec<u64>)
        requires
            old(self).wf(),
        ensures
            final(self).wf(),
            view_pending(final(self).pending@) == keep(view_pending(old(self).pending@), pending_not_for(ids@)),
            final(self).deferred == old(self).deferred,
    {
        let ghost ps = view_pending(self.pending@);
        let ghost p = pending_not_for(ids@);
        let mut out: Vec<PendingDeletion> = Vec::new();
        let mut i: usize = 0;
        while i < self.pending.len()
            invariant
                ps == view_pending(self.pending@),
                i <= ps.len(),
                view_pending(out@) == keep(ps.take(i as int), p),
                p == pending_not_for(ids@),
                self.deferred == old(self).deferred,
                self.wf(),
            decreases ps.len() - i,
        {
            assert(ps.take(i + 1).drop_last() =~= ps.take(i as int));
            if !crate::store::contains_id(ids, self.pending[i].contact_id) {
                let d = &self.pending[i];
                out.push(PendingDeletion {
                    submitter: d.submitter.clone(),
                    ordinal: d.ordinal,
                    contact_id: d.contact_id,
                    created_at: d.created_at,
                });
                assert(view_pending(out@) =~= keep(ps.take(i + 1), p));
            }
            i = i + 1;
        }
        assert(ps.take(ps.len() as int) =~= ps);
        proof {
            lemma_keep_tokens(ps, p);
        }
        self.pending = out;
    }

    /// Where the token `submitter:ordinal` stands, if it does.
    pub fn find_token(&self, submitter: &str, ordinal: usize) -> (r: Option<usize>)
        requires
            self.wf(),
        ensures
            match r {
                Some(i) => i < self.pending@.len() && self.pending@[i as int].submitter@ == submitter@
                    && self.pending@[i as int].ordinal == ordinal
                    && token_lookup(view_pending(self.pending@), submitter@, ordinal) == Some(self.pending@[i as int].contact_id),
                None => token_lookup(view_pending(self.pending@), submitter@, ordinal) is None,
            },
    {
        let ghost ps = view_pending(self.pending@);
        let mut i: usize = 0;
        while i < self.pending.len()
            invariant
                ps == view_pending(self.pending@),
                i <= ps.len(),
                tokens_unique(ps),
                forall|k: int| 0 <= k < i ==> !(#[trigger] ps[k].submitter == submitter@ && ps[k].ordinal == ordinal),
            decreases ps.len() - i,
        {
            if self.pending[i].ordinal == ordinal && str_eq(self.pending[i].submitter.as_str(), submitter) {
                assert(ps[i as int].submitter == submitter@ && ps[i as int].ordinal == ordinal);
                let ghost c = choose|c: int| 0 <= c < ps.len() && #[trigger] ps[c].submitter == submitter@ && ps[c].ordinal == ordinal;
                assert(c == i) by {
                    if c < i {
                        assert(!(ps[c].submitter == ps[i as int].submitter && ps[c].ordinal == ps[i as int].ordinal));
                    } else if c > i {
                        assert(!(ps[i as int].submitter == ps[c].submitter && ps[i as int].ordinal == ps[c].ordinal));
                    }
                }
                return Some(i);
            }
            i = i + 1;
        }
        None
    }

    /// The contact that the token `submitter:ordinal` names, if it is pending.
    pub fn lookup_deletion(&self, submitter: &str, ordinal: usize) -> (r: Option<u64>)
        requires
            self.wf(),
        ensures
            r == token_lookup(view_pending(self.pending@), submitter@, ordinal),
    {
        match self.find_token(submitter, ordinal) {
            Some(i) => Some(self.pending[i].contact_id),
            None => None,
        }
    }

    /// Records `contact_id` under the token `submitter:ordinal`, replacing
    /// what the token held.
    pub fn record_deletion(&mut self, submitter: &str, ordinal: usize, contact_id: u64, now: u64)
        requires
            old(self).wf(),
        ensures
            final(self).wf(),
            final(self).deferred == old(self).deferred,
            token_record(view_pending(final(self).pending@), submitter@, ordinal)
                == Some((PendingView { submitter: submitter@, ordinal, contact_id, created_at: now })),
            forall|s: Seq<char>, o: usize| !(s == submitter@ && o == ordinal) ==>
                #[trigger] token_record(view_pending(final(self).pending@), s, o) == token_record(view_pending(old(self).pending@), s, o),
    {
        let ghost ps = view_pending(self.pending@);
        let rec = PendingDeletion {
            submitter: String::from_str(submitter),
            ordinal,
            contact_id,
            created_at: now,
        };
        let ghost nv = rec@;
        match self.find_token(submitter, ordinal) {
            Some(i) => {
                self.pending.set(i, rec);
                let ghost qs = view_pending(self.pending@);
                assert(qs =~= ps.update(i as int, nv));
                assert(tokens_unique(qs)) by {
                    assert forall|a: int, b: int| 0 <= a < b < qs.len() implies
                        !(#[trigger] qs[a].submitter == #[trigger] qs[b].submitter && qs[a].ordinal == qs[b].ordinal) by {
                        if a != i && b != i {
                            assert(!(ps[a].submitter == ps[b].submitter && ps[a].ordinal == ps[b].ordinal));
                        } else if a == i {
                            assert(!(ps[a].submitter == ps[b].submitter && ps[a].ordinal == ps[b].ordinal));
                        } else {
                            assert(!(ps[a].submitter == ps[b].submitter && ps[a].ordinal == ps[b].ordinal));
                        }
                    }
                }
                proof {
                    lemma_lookup_at(qs, i as int);
                    assert forall|s: Seq<char>, o: usize| !(s == submitter@ && o == ordinal) implies
                        #[trigger] token_record(qs, s, o) == token_record(ps, s, o) by {
                        lemma_lookup_same(ps, qs, s, o, i as int);
                    }
                }
            },
            None => {
                self.pending.push(rec);
                let ghost qs = view_pending(self.pending@);
                assert(qs =~= ps.push(nv));
                assert forall|k: int| 0 <= k < ps.len() implies !(#[trigger] ps[k].submitter == submitter@ && ps[k].ordinal == ordinal) by {}
                proof {
                    lemma_lookup_at(qs, ps.len() as int);
                    assert forall|s: Seq<char>, o: usize| !(s == submitter@ && o == ordinal) implies
                        #[trigger] token_record(qs, s, o) == token_record(ps, s, o) by {
                        lemma_lookup_same(ps, qs, s, o, ps.len() as int);
                    }
                }
            },
        }
    }

    /// The deferred cards of `submitter`, oldest first.
    pub fn deferred_for(&self, submitter: &str) -> (r: Vec<DeferredContact>)
        ensures
            view_deferred(r@) == keep(view_deferred(self.deferred@), deferred_of(submitter@)),
    {
        let ghost ds = view_deferred(self.deferred@);
        let ghost p = deferred_of(submitter@);
        let mut out: Vec<DeferredContact> = Vec::new();
        let mut i: usize = 0;
        while i < self.deferred.len()
            invariant
                ds == view_deferred(self.deferred@),
                i <= ds.len(),
                view_deferred(out@) == keep(ds.take(i as int), p),
                p == deferred_of(submitter@),
            decreases ds.len() - i,
        {
            assert(ds.take(i + 1).drop_last() =~= ds.take(i as int));
            if str_eq(self.deferred[i].submitter.as_str(), submitter) {
                out.push(self.deferred[i].duplicate());
                assert(view_deferred(out@) =~= keep(ds.take(i + 1), p));
            }
            i = i + 1;
        }
        assert(ds.take(ds.len() as int) =~= ds);
        out
    }
}

} // verus!
