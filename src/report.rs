//! Counting the outcomes of a batch of cards and the reply that sums it up.

use vstd::prelude::*;
use vstd::string::*;
use crate::engine::Engine;
use crate::import::{vcard_post, Card, ImportError, ImportResult};
use crate::text::{decimal, push_char, push_decimal, str_eq};
use crate::workflow::{deferred_of, label_view, view_deferred, DeferredContact, DeferredView};
use crate::store::keep;

verus! {

pub struct ImportStats {
    pub added: usize,
    pub updated: usize,
    pub skipped: usize,
    pub failed: usize,
    pub deferred: usize,
    /// Each distinct error message with how often it came.
    pub errors: Vec<(String, usize)>,
}

pub open spec fn view_errors(es: Seq<(String, usize)>) -> Seq<(Seq<char>, usize)> {
    es.map_values(|e: (String, usize)| (e.0@, e.1))
}

/// The counts after one more error with message `m`.
pub open spec fn counted(es: Seq<(Seq<char>, usize)>, m: Seq<char>) -> Seq<(Seq<char>, usize)> {
    if exists|i: int| 0 <= i < es.len() && #[trigger] es[i].0 == m {
        Seq::new(es.len(), |k: int| if es[k].0 == m { (m, (es[k].1 + 1) as usize) } else { es[k] })
    } else {
        es.push((m, 1usize))
    }
}

/// The first line of the report.
pub open spec fn header(a: nat, u: nat, s: nat, d: nat, f: nat) -> Seq<char> {
    "Processed contacts: "@ + decimal(a) + " added, "@ + decimal(u) + " updated, "@ + decimal(s)
        + " unchanged, "@ + decimal(d) + " deferred, "@ + decimal(f) + " failed"@
}

/// One line per distinct error message, with its count.
pub open spec fn error_lines(es: Seq<(Seq<char>, usize)>) -> Seq<char>
    decreases es.len(),
{
    if es.len() == 0 {
        Seq::empty()
    } else {
        error_lines(es.drop_last()) + "\n- "@ + decimal(es.last().1 as nat) + " × "@ + es.last().0
    }
}

/// The error block of the report: present exactly when there are errors.
pub open spec fn error_block(es: Seq<(Seq<char>, usize)>) -> Seq<char> {
    if es.len() == 0 {
        Seq::empty()
    } else {
        "\nErrors encountered:"@ + error_lines(es)
    }
}

pub open spec fn pick_intro() -> Seq<char> {
    "\n\nThe following contacts have multiple numbers. Reply with \"pick NA, MB, ...\" where N and M are from the list of contacts below and A and B are the letters for the desired phone numbers for each.\n"@
}

pub open spec fn label_text(l: Option<Seq<char>>) -> Seq<char> {
    match l {
        Some(t) => t,
        None => "no description"@,
    }
}

/// The first `n` lettered numbers of a deferred card.
pub open spec fn choice_lines(d: DeferredView, n: nat) -> Seq<char>
    decreases n,
{
    if n == 0 {
        Seq::empty()
    } else {
        choice_lines(d, (n - 1) as nat) + "\n   "@ + seq![letter_spec((n - 1) as nat)] + ". "@ + d.numbers[n - 1] + " ("@
            + label_text(d.labels[n - 1]) + ")"@
    }
}

/// How many numbers of a card are listed: at most one per letter.
pub open spec fn listed_choices(d: DeferredView) -> nat {
    if d.numbers.len() < 26 { d.numbers.len() } else { 26 }
}

/// The first `n` deferred cards, numbered from 1, each with its lettered
/// numbers.
pub open spec fn card_lines(ds: Seq<DeferredView>, n: nat) -> Seq<char>
    decreases n,
{
    if n == 0 {
        Seq::empty()
    } else {
        card_lines(ds, (n - 1) as nat) + "\n"@ + decimal(n) + ". "@ + ds[n - 1].name + choice_lines(ds[n - 1], listed_choices(ds[n - 1]))
    }
}

/// The whole report.
pub open spec fn report_spec(a: nat, u: nat, s: nat, d: nat, f: nat, es: Seq<(Seq<char>, usize)>, pend: Seq<DeferredView>) -> Seq<char> {
    header(a, u, s, d, f) + error_block(es) + (if d > 0 && pend.len() > 0 {
        pick_intro() + card_lines(pend, pend.len())
    } else {
        Seq::empty()
    })
}

impl ImportStats {
    /// Messages are distinct, and no count exceeds the number of failures.
    pub open spec fn wf(&self) -> bool {
        &&& forall|i: int, j: int| 0 <= i < j < self.errors@.len() ==> #[trigger] self.errors@[i].0@ != #[trigger] self.errors@[j].0@
        &&& forall|i: int| 0 <= i < self.errors@.len() ==> #[trigger] self.errors@[i].1 <= self.failed
    }

    pub fn new() -> (r: ImportStats)
        ensures
            r.wf(),
            r.added == 0 && r.updated == 0 && r.skipped == 0 && r.failed == 0 && r.deferred == 0,
            r.errors@.len() == 0,
    {
        ImportStats { added: 0, updated: 0, skipped: 0, failed: 0, deferred: 0, errors: Vec::new() }
    }

    /// Counts one failure with message `error`.
    pub fn add_error(&mut self, error: &str)
        requires
            old(self).wf(),
            old(self).failed < usize::MAX,
        ensures
            final(self).wf(),
            final(self).failed == old(self).failed + 1,
            view_errors(final(self).errors@) == counted(view_errors(old(self).errors@), error@),
            final(self).added == old(self).added,
            final(self).updated == old(self).updated,
            final(self).skipped == old(self).skipped,
            final(self).deferred == old(self).deferred,
    {
        let ghost es = view_errors(self.errors@);
        let mut i: usize = 0;
        while i < self.errors.len()
            invariant
                es == view_errors(self.errors@),
                i <= es.len(),
                *self == *old(self),
                self.wf(),
                self.failed < usize::MAX,
                forall|k: int| 0 <= k < i ==> #[trigger] es[k].0 != error@,
            decreases es.len() - i,
        {
            if str_eq(self.errors[i].0.as_str(), error) {
                let c = self.errors[i].1;
                assert(c <= self.failed);
                assert(es[i as int].0 == error@);
                assert forall|k: int| 0 <= k < es.len() && k != i implies es[k].0 != error@ by {
                    if k < i {
                    } else {
                        assert(self.errors@[i as int].0@ != self.errors@[k].0@);
                    }
                }
                self.errors.set(i, (String::from_str(error), c + 1));
                self.failed = self.failed + 1;
                assert(view_errors(self.errors@) =~= counted(es, error@));
                return;
            }
            i = i + 1;
        }
        assert forall|k: int| 0 <= k < es.len() implies #[trigger] self.errors@[k].0@ != error@ by {
            assert(es[k].0 == self.errors@[k].0@);
        }
        self.errors.push((String::from_str(error), 1));
        self.failed = self.failed + 1;
        assert(view_errors(self.errors@) =~= counted(es, error@));
    }

    /// The summary reply: the counts, the distinct errors, and, where cards
    /// were deferred, the numbers to pick from, lettered per card.
    pub fn format_report(&self, pending: &Vec<DeferredContact>) -> (r: String)
        ensures
            r@ == report_spec(self.added as nat, self.updated as nat, self.skipped as nat, self.deferred as nat, self.failed as nat,
                view_errors(self.errors@), view_deferred(pending@)),
            r@.len() >= header(self.added as nat, self.updated as nat, self.skipped as nat, self.deferred as nat, self.failed as nat).len(),
            r@.subrange(0, header(self.added as nat, self.updated as nat, self.skipped as nat, self.deferred as nat, self.failed as nat).len() as int)
                == header(self.added as nat, self.updated as nat, self.skipped as nat, self.deferred as nat, self.failed as nat),
    {
        let mut r = String::from_str("Processed contacts: ");
        push_decimal(&mut r, self.added as u64);
        r.append(" added, ");
        push_decimal(&mut r, self.updated as u64);
        r.append(" updated, ");
        push_decimal(&mut r, self.skipped as u64);
        r.append(" unchanged, ");
        push_decimal(&mut r, self.deferred as u64);
        r.append(" deferred, ");
        push_decimal(&mut r, self.failed as u64);
        r.append(" failed");
        let ghost h = r@;
        assert(h =~= header(self.added as nat, self.updated as nat, self.skipped as nat, self.deferred as nat, self.failed as nat));
        let ghost es = view_errors(self.errors@);
        if self.errors.len() > 0 {
            r.append("\nErrors encountered:");
            let mut i: usize = 0;
            while i < self.errors.len()
                invariant
                    es == view_errors(self.errors@),
                    i <= es.len(),
                    r@ == h + "\nErrors encountered:"@ + error_lines(es.take(i as int)),
                decreases self.errors@.len() - i,
            {
                r.append("\n- ");
                push_decimal(&mut r, self.errors[i].1 as u64);
                r.append(" × ");
                r.append(self.errors[i].0.as_str());
                assert(es.take(i + 1).drop_last() =~= es.take(i as int));
                assert(r@ =~= h + "\nErrors encountered:"@ + error_lines(es.take(i + 1)));
                i = i + 1;
            }
            assert(es.take(i as int) =~= es);
        }
        let ghost top = r@;
        assert(top =~= h + error_block(es));
        assert(top.subrange(0, h.len() as int) =~= h);
        if self.deferred > 0 && pending.len() > 0 {
            r.append("\n\nThe following contacts have multiple numbers. Reply with \"pick NA, MB, ...\" where N and M are from the list of contacts below and A and B are the letters for the desired phone numbers for each.\n");
            let ghost t2 = r@;
            assert(t2 =~= top + pick_intro());
            let ghost pv = view_deferred(pending@);
            let mut i: usize = 0;
            while i < pending.len()
                invariant
                    i <= pending@.len(),
                    pv == view_deferred(pending@),
                    r@ == t2 + card_lines(pv, i as nat),
                decreases pending@.len() - i,
            {
                r.append("\n");
                push_decimal(&mut r, i as u64 + 1);
                r.append(". ");
                r.append(pending[i].name.as_str());
                let ghost b1 = r@;
                let ghost d = pv[i as int];
                assert(d.numbers.len() == pending@[i as int].numbers@.len());
                let mut j: usize = 0;
                while j < pending[i].numbers.len() && j < 26
                    invariant
                        i < pending@.len(),
                        pv == view_deferred(pending@),
                        d == pv[i as int],
                        d.numbers.len() == pending@[i as int].numbers@.len(),
                        j <= listed_choices(d),
                        r@ == b1 + choice_lines(d, j as nat),
                    decreases pending@[i as int].numbers@.len() - j,
                {
                    r.append("\n   ");
                    push_char(&mut r, letter_of(j));
                    r.append(". ");
                    r.append(pending[i].numbers[j].number.as_str());
                    r.append(" (");
                    match &pending[i].numbers[j].description {
                        Some(dd) => r.append(dd.as_str()),
                        None => r.append("no description"),
                    }
                    r.append(")");
                    assert(d.numbers[j as int] == pending@[i as int].numbers@[j as int].number@);
                    assert(d.labels[j as int] == label_view(pending@[i as int].numbers@[j as int].description));
                    assert(r@ =~= b1 + choice_lines(d, (j + 1) as nat));
                    j = j + 1;
                }
                assert(j == listed_choices(d));
                assert(r@ =~= t2 + card_lines(pv, (i + 1) as nat));
                i = i + 1;
            }
        }
        assert(r@ =~= report_spec(self.added as nat, self.updated as nat, self.skipped as nat, self.deferred as nat, self.failed as nat,
            view_errors(self.errors@), view_deferred(pending@)));
        r
    }
}

/// The letter of the `j`-th number of a card (`a` for 0), for `j < 26`.
pub open spec fn letter_spec(j: nat) -> char {
    "abcdefghijklmnopqrstuvwxyz"@[j as int]
}

/// The letter that names the `j`-th number of a card (`a` for 0).
pub fn letter_of(j: usize) -> (c: char)
    requires
        j < 26,
    ensures
        c == letter_spec(j as nat),
{
    let letters = "abcdefghijklmnopqrstuvwxyz";
    proof {
        reveal_strlit("abcdefghijklmnopqrstuvwxyz");
    }
    letters.get_char(j)
}

/// The text a sender sees for an import failure.
pub open spec fn message_spec(e: ImportError) -> Seq<char> {
    match e {
        ImportError::NotRegistered => "Please set your name first using the 'name' command before adding contacts"@,
        ImportError::Decode(m) => m@,
        ImportError::NoName => "No name provided"@,
        ImportError::NoNumbers => "No valid phone numbers provided"@,
        ImportError::Store(_) => "Internal error"@,
    }
}

/// The error counts that a batch with these outcomes reports.
pub open spec fn errors_of(outs: Seq<Result<ImportResult, ImportError>>) -> Seq<(Seq<char>, usize)>
    decreases outs.len(),
{
    if outs.len() == 0 {
        Seq::empty()
    } else {
        match outs.last() {
            Err(e) => counted(errors_of(outs.drop_last()), message_spec(e)),
            Ok(_) => errors_of(outs.drop_last()),
        }
    }
}

impl ImportError {
    /// The text a sender sees for this failure; store failures are not
    /// shown in detail.
    pub fn message(&self) -> (r: String)
        ensures
            r@ == message_spec(*self),
    {
        match self {
            ImportError::NotRegistered => String::from_str("Please set your name first using the 'name' command before adding contacts"),
            ImportError::Decode(m) => m.clone(),
            ImportError::NoName => String::from_str("No name provided"),
            ImportError::NoNumbers => String::from_str("No valid phone numbers provided"),
            ImportError::Store(_) => String::from_str("Internal error"),
        }
    }
}

/// How many of the outcomes are `Ok(k)`.
pub open spec fn count_ok(outs: Seq<Result<ImportResult, ImportError>>, k: ImportResult) -> nat
    decreases outs.len(),
{
    if outs.len() == 0 {
        0
    } else {
        count_ok(outs.drop_last(), k) + if outs.last() == Ok::<ImportResult, ImportError>(k) { 1nat } else { 0nat }
    }
}

/// How many of the outcomes are errors.
pub open spec fn count_err(outs: Seq<Result<ImportResult, ImportError>>) -> nat
    decreases outs.len(),
{
    if outs.len() == 0 {
        0
    } else {
        count_err(outs.drop_last()) + if outs.last() is Err { 1nat } else { 0nat }
    }
}

/// `trace` runs from `o` to `f`, one import of each card per step, with
/// the outcomes `outs`.
pub open spec fn batch_trace(trace: Seq<Engine>, outs: Seq<Result<ImportResult, ImportError>>, o: Engine, f: Engine,
    from: Seq<char>, cards: Seq<Result<Card, String>>, now: u64) -> bool {
    &&& trace.len() == cards.len() + 1
    &&& outs.len() == cards.len()
    &&& trace[0] == o
    &&& trace[cards.len() as int] == f
    &&& forall|i: int| 0 <= i < cards.len() ==> vcard_post(trace[i], #[trigger] trace[i + 1], from, cards[i], now, outs[i])
}

impl Engine {
    /// Imports every card of one message and sums up the outcomes.
    pub fn handle_card_batch(&mut self, from: &str, cards: &Vec<Result<Card, String>>, now: u64) -> (r: String)
        requires
            old(self).wf(),
        ensures
            final(self).wf(),
            exists|trace: Seq<Engine>, outs: Seq<Result<ImportResult, ImportError>>|
                #[trigger] batch_trace(trace, outs, *old(self), *final(self), from@, cards@, now)
                && r@ == report_spec(count_ok(outs, ImportResult::Added), count_ok(outs, ImportResult::Updated),
                    count_ok(outs, ImportResult::Unchanged), count_ok(outs, ImportResult::Deferred), count_err(outs),
                    errors_of(outs), keep(view_deferred(final(self).flows.deferred@), deferred_of(from@))),
    {
        let mut stats = ImportStats::new();
        let ghost mut trace: Seq<Engine> = seq![*self];
        let ghost mut outs: Seq<Result<ImportResult, ImportError>> = Seq::empty();
        let mut i: usize = 0;
        while i < cards.len()
            invariant
                self.wf(),
                stats.wf(),
                i <= cards@.len(),
                stats.added + stats.updated + stats.skipped + stats.deferred + stats.failed == i,
                trace.len() == i + 1,
                outs.len() == i,
                trace[0] == *old(self),
                trace[i as int] == *self,
                forall|j: int| 0 <= j < i ==> vcard_post(trace[j], #[trigger] trace[j + 1], from@, cards@[j], now, outs[j]),
                stats.added == count_ok(outs, ImportResult::Added),
                stats.updated == count_ok(outs, ImportResult::Updated),
                stats.skipped == count_ok(outs, ImportResult::Unchanged),
                stats.deferred == count_ok(outs, ImportResult::Deferred),
                stats.failed == count_err(outs),
                view_errors(stats.errors@) == errors_of(outs),
            decreases cards@.len() - i,
        {
            let ghost before = *self;
            let res = self.process_vcard(from, &cards[i], now);
            proof {
                let t2 = trace.push(*self);
                assert(t2[i + 1] == *self);
                assert forall|j: int| 0 <= j < i + 1 implies vcard_post(t2[j], #[trigger] t2[j + 1], from@, cards@[j], now, outs.push(res)[j]) by {
                    if j < i {
                        assert(t2[j] == trace[j] && t2[j + 1] == trace[j + 1] && outs.push(res)[j] == outs[j]);
                    } else {
                        assert(t2[j] == before);
                    }
                }
                assert(outs.push(res).drop_last() =~= outs);
                trace = t2;
                outs = outs.push(res);
            }
            match res {
                Ok(ImportResult::Added) => stats.added = stats.added + 1,
                Ok(ImportResult::Updated) => stats.updated = stats.updated + 1,
                Ok(ImportResult::Unchanged) => stats.skipped = stats.skipped + 1,
                Ok(ImportResult::Deferred) => stats.deferred = stats.deferred + 1,
                Err(e) => stats.add_error(e.message().as_str()),
            }
            i = i + 1;
        }
        let pending = self.flows.deferred_for(from);
        let r = stats.format_report(&pending);
        assert(batch_trace(trace, outs, *old(self), *self, from@, cards@, now));
        r
    }
}

} // verus!
