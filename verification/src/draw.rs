//! The fair draw: one winner picked uniformly over the slots of the pool, or
//! many independent draws tallied per participant.

use crate::dedup::{
    first_occurrences, lemma_first_occurrences_contains, lemma_occurrences_push, occurrences,
};
use crate::error::GiveawayError;
use crate::pool::TicketPool;
use crate::ticket::{names, CanonicalTicket};
use rand::rngs::StdRng;
use rand::seq::SliceRandom;
use vstd::prelude::*;

verus! {

/// The random number generator that the draws consume.
#[verifier::external_type_specification]
#[verifier::external_body]
pub struct ExStdRng(StdRng);

/// `SliceRandom::choose` on the slots of a pool: no ticket if there is no
/// slot, else the ticket in one of the slots. Which slot it is depends on the
/// generator, so the contract only says that it is one of them.
#[verifier::external_body]
fn choose_slot<'a>(slots: &'a Vec<CanonicalTicket>, rng: &mut StdRng) -> (choice: Option<&'a CanonicalTicket>)
    ensures
        choice is None <==> slots@.len() == 0,
        choice is Some ==> exists|i: int| 0 <= i < slots@.len() && slots@[i] == *choice->0,
{
    slots.choose(rng)
}

/// One participant with the number of draws won.
#[derive(Debug)]
pub struct TallyEntry {
    pub ticket: CanonicalTicket,
    pub count: u64,
}

/// How often each participant was drawn. No participant has two entries.
#[derive(Debug)]
pub struct Tally {
    entries: Vec<TallyEntry>,
    draws: u64,
}

/// The participants of a sequence of entries.
spec fn entry_keys(entries: Seq<TallyEntry>) -> Seq<Seq<char>> {
    entries.map_values(|e: TallyEntry| e.ticket@)
}

/// The counts of a sequence of entries.
spec fn entry_counts(entries: Seq<TallyEntry>) -> Seq<nat> {
    entries.map_values(|e: TallyEntry| e.count as nat)
}

/// The sum of a sequence of counts.
pub open spec fn sum(counts: Seq<nat>) -> nat
    decreases counts.len(),
{
    if counts.len() == 0 {
        0
    } else {
        sum(counts.drop_last()) + counts.last()
    }
}

/// No count exceeds the sum.
proof fn lemma_sum_bounds(counts: Seq<nat>, k: int)
    requires
        0 <= k < counts.len(),
    ensures
        counts[k] <= sum(counts),
    decreases counts.len(),
{
    if k < counts.len() - 1 {
        lemma_sum_bounds(counts.drop_last(), k);
    }
}

/// Raising one count by one raises the sum by one.
proof fn lemma_sum_update(counts: Seq<nat>, k: int)
    requires
        0 <= k < counts.len(),
    ensures
        sum(counts.update(k, counts[k] + 1)) == sum(counts) + 1,
    decreases counts.len(),
{
    let raised = counts.update(k, counts[k] + 1);
    if k < counts.len() - 1 {
        lemma_sum_update(counts.drop_last(), k);
        assert(raised.drop_last() =~= counts.drop_last().update(k, counts[k] + 1));
    } else {
        assert(raised.drop_last() =~= counts.drop_last());
    }
}

/// The winner that a choice among the slots of a pool stands for.
pub open spec fn outcome(choice: Option<Seq<char>>) -> Result<Seq<char>, GiveawayError> {
    match choice {
        Some(t) => Ok(t),
        None => Err(GiveawayError::EmptyPool),
    }
}

/// The view of a draw's result: the winner's canonical name, or the failure.
pub open spec fn result_view(r: Result<CanonicalTicket, GiveawayError>) -> Result<
    Seq<char>,
    GiveawayError,
> {
    match r {
        Ok(t) => Ok(t@),
        Err(e) => Err(e),
    }
}

/// Turns what was chosen among the slots into the result of the draw: the
/// chosen ticket wins; where nothing could be chosen, the pool was empty.
pub fn winner(choice: Option<&CanonicalTicket>) -> (r: Result<CanonicalTicket, GiveawayError>)
    ensures
        result_view(r) == outcome(
            match choice {
                Some(t) => Some(t@),
                None => None,
            },
        ),
{
    match choice {
        Some(t) => Ok(t.duplicate()),
        None => Err(GiveawayError::EmptyPool),
    }
}

/// Draws one winner. Every slot of the pool is a candidate, so a participant
/// with two tickets is chosen among twice. Fails on the empty pool, and only
/// there.
pub fn draw_one(pool: &TicketPool, rng: &mut StdRng) -> (r: Result<CanonicalTicket, GiveawayError>)
    ensures
        pool@.len() == 0 ==> result_view(r) == Err::<Seq<char>, GiveawayError>(
            GiveawayError::EmptyPool,
        ),
        pool@.len() > 0 ==> r is Ok && pool@.contains(r->Ok_0@),
{
    let choice = choose_slot(&pool.tickets, rng);
    proof {
        if pool@.len() > 0 {
            let i = choose|i: int| 0 <= i < pool.tickets@.len() && pool.tickets@[i] == *choice->0;
            assert(pool@[i] == choice->0@);
        }
    }
    winner(choice)
}

impl Tally {
    /// The participants of the tally, in the order of their entries.
    pub closed spec fn keys(&self) -> Seq<Seq<char>> {
        entry_keys(self.entries@)
    }

    /// The counts of the tally, in the order of their entries.
    pub closed spec fn counts(&self) -> Seq<nat> {
        entry_counts(self.entries@)
    }

    #[verifier::type_invariant]
    spec fn inv(&self) -> bool {
        &&& self.wf()
        &&& self.draws == self.total()
    }

    /// No participant has two entries.
    pub open spec fn wf(&self) -> bool {
        &&& self.keys().no_duplicates()
        &&& self.counts().len() == self.keys().len()
    }

    /// The number of draws that `t` won: the count of its entry, or zero
    /// without one.
    pub open spec fn count_of(&self, t: Seq<char>) -> nat {
        if self.keys().contains(t) {
            self.counts()[self.keys().index_of(t)]
        } else {
            0
        }
    }

    /// The number of draws recorded.
    pub open spec fn total(&self) -> nat {
        sum(self.counts())
    }

    /// The tally without entries.
    pub fn new() -> (tally: Tally)
        ensures
            tally.wf(),
            tally.keys() == Seq::<Seq<char>>::empty(),
            tally.total() == 0,
    {
        let entries: Vec<TallyEntry> = Vec::new();
        assert(entry_keys(entries@) =~= Seq::<Seq<char>>::empty());
        assert(entry_counts(entries@) =~= Seq::<nat>::empty());
        Tally { entries, draws: 0 }
    }

    /// The number of draws recorded.
    pub fn draws(&self) -> (n: u64)
        ensures
            n == self.total(),
    {
        proof {
            use_type_invariant(self);
        }
        self.draws
    }

    /// The number of entries.
    pub fn len(&self) -> (n: usize)
        ensures
            n == self.keys().len(),
    {
        self.entries.len()
    }

    /// The participant of entry `i`.
    pub fn ticket(&self, i: usize) -> (t: &CanonicalTicket)
        requires
            i < self.keys().len(),
        ensures
            t@ == self.keys()[i as int],
    {
        &self.entries[i].ticket
    }

    /// The count of entry `i`.
    pub fn count(&self, i: usize) -> (n: u64)
        requires
            i < self.keys().len(),
        ensures
            n == self.counts()[i as int],
            n == self.count_of(self.keys()[i as int]),
    {
        proof {
            use_type_invariant(self);
            self.lemma_count_of(i as int);
        }
        self.entries[i].count
    }

    /// The count of a participant is the count of its one entry.
    pub proof fn lemma_count_of(&self, i: int)
        requires
            self.wf(),
            0 <= i < self.keys().len(),
        ensures
            self.count_of(self.keys()[i]) == self.counts()[i],
    {
        let t = self.keys()[i];
        assert(self.keys().contains(t));
        let j = self.keys().index_of(t);
        assert(i == j);
    }

    /// The entry of the participant of `ticket`, if there is one.
    fn position(&self, ticket: &CanonicalTicket) -> (found: Option<usize>)
        ensures
            match found {
                Some(i) => i < self.keys().len() && self.keys()[i as int] == ticket@,
                None => !self.keys().contains(ticket@),
            },
    {
        let mut i: usize = 0;
        while i < self.entries.len()
            invariant
                i <= self.entries.len(),
                forall|k: int| 0 <= k < i ==> self.keys()[k] != ticket@,
            decreases self.entries.len() - i,
        {
            if self.entries[i].ticket.same_participant(ticket) {
                return Some(i);
            }
            i = i + 1;
        }
        None
    }

    /// The number of draws that the participant of `ticket` won.
    pub fn wins(&self, ticket: &CanonicalTicket) -> (n: u64)
        ensures
            n == self.count_of(ticket@),
    {
        match self.position(ticket) {
            Some(i) => {
                proof {
                    use_type_invariant(self);
                    self.lemma_count_of(i as int);
                }
                self.entries[i].count
            },
            None => 0,
        }
    }

    /// Gives the participant of `ticket` an entry, with no draw won yet,
    /// unless there is one already.
    pub fn register(&mut self, ticket: &CanonicalTicket)
        ensures
            final(self).wf(),
            final(self).keys() == if old(self).keys().contains(ticket@) {
                old(self).keys()
            } else {
                old(self).keys().push(ticket@)
            },
            forall|t: Seq<char>| final(self).count_of(t) == old(self).count_of(t),
            final(self).total() == old(self).total(),
    {
        proof {
            use_type_invariant(&*self);
        }
        if self.position(ticket).is_none() {
            let ghost keys = self.keys();
            let ghost counts = self.counts();
            let mut taken = Tally::new();
            std::mem::swap(self, &mut taken);
            let mut entries = taken.entries;
            entries.push(TallyEntry { ticket: ticket.duplicate(), count: 0 });
            assert(entry_keys(entries@) =~= keys.push(ticket@));
            assert(entry_counts(entries@) =~= counts.push(0nat));
            assert(entry_counts(entries@).drop_last() =~= counts);
            *self = Tally { entries, draws: taken.draws };
            proof {
                assert(self.keys() =~= keys.push(ticket@));
                assert(self.counts() =~= counts.push(0nat));
                assert(self.counts().drop_last() =~= counts);
                assert forall|t: Seq<char>| self.count_of(t) == old(self).count_of(t) by {
                    if keys.contains(t) {
                        let i = keys.index_of(t);
                        assert(self.keys()[i] == t);
                        self.lemma_count_of(i);
                    } else if t == ticket@ {
                        assert(self.keys()[keys.len() as int] == t);
                        self.lemma_count_of(keys.len() as int);
                    } else {
                        if self.keys().contains(t) {
                            let i = self.keys().index_of(t);
                            assert(keys[i] == t);
                        }
                    }
                }
            }
        }
    }

    /// Records one draw won by the participant of `ticket`.
    pub fn record(&mut self, ticket: &CanonicalTicket)
        requires
            old(self).total() < u64::MAX,
        ensures
            final(self).wf(),
            final(self).keys() == if old(self).keys().contains(ticket@) {
                old(self).keys()
            } else {
                old(self).keys().push(ticket@)
            },
            forall|t: Seq<char>|
                final(self).count_of(t) == old(self).count_of(t) + if t == ticket@ {
                    1nat
                } else {
                    0nat
                },
            final(self).total() == old(self).total() + 1,
    {
        self.register(ticket);
        proof {
            use_type_invariant(&*self);
        }
        let ghost keys = self.keys();
        let ghost counts = self.counts();
        let found = self.position(ticket);
        proof {
            if !old(self).keys().contains(ticket@) {
                assert(keys[keys.len() - 1] == ticket@);
            }
        }
        let i = found.unwrap();
        proof {
            lemma_sum_bounds(counts, i as int);
            lemma_sum_update(counts, i as int);
            self.lemma_count_of(i as int);
        }
        let entry = TallyEntry { ticket: ticket.duplicate(), count: self.entries[i].count + 1 };
        let mut taken = Tally::new();
        std::mem::swap(self, &mut taken);
        let mut entries = taken.entries;
        entries.set(i, entry);
        assert(entry_keys(entries@) =~= keys);
        assert(entry_counts(entries@) =~= counts.update(i as int, counts[i as int] + 1));
        *self = Tally { entries, draws: taken.draws + 1 };
        proof {
            assert(self.keys() =~= keys);
            assert(self.counts() =~= counts.update(i as int, counts[i as int] + 1));
            assert forall|t: Seq<char>|
                self.count_of(t) == old(self).count_of(t) + if t == ticket@ {
                    1nat
                } else {
                    0nat
                } by {
                if keys.contains(t) {
                    let k = keys.index_of(t);
                    if t == ticket@ {
                        assert(k == i);
                    }
                }
            }
        }
    }

    /// The tally for a pool before the first draw: one entry for each
    /// participant, in order of first appearance, and no draw recorded.
    pub fn for_pool(pool: &TicketPool) -> (tally: Tally)
        ensures
            tally.wf(),
            tally.keys() == first_occurrences(pool@),
            forall|t: Seq<char>| tally.count_of(t) == 0,
            tally.total() == 0,
    {
        let mut tally = Tally::new();
        let mut i: usize = 0;
        assert(pool@.take(0) =~= Seq::<Seq<char>>::empty());
        while i < pool.tickets.len()
            invariant
                i <= pool.tickets.len(),
                tally.wf(),
                tally.keys() == first_occurrences(pool@.take(i as int)),
                forall|t: Seq<char>| tally.count_of(t) == 0,
                tally.total() == 0,
            decreases pool.tickets.len() - i,
        {
            proof {
                assert(pool@.take(i + 1).drop_last() =~= pool@.take(i as int));
                lemma_first_occurrences_contains(pool@.take(i as int), pool@[i as int]);
            }
            tally.register(&pool.tickets[i]);
            i = i + 1;
        }
        assert(pool@.take(i as int) =~= pool@);
        tally
    }

    /// The tally of a given sequence of draws from a pool: every participant
    /// of the pool or of the draws has an entry, and its count is the number
    /// of draws it won.
    pub fn of_draws(pool: &TicketPool, draws: &Vec<CanonicalTicket>) -> (tally: Tally)
        ensures
            tally.wf(),
            tally.keys() == first_occurrences(pool@ + names(draws@)),
            forall|t: Seq<char>| tally.count_of(t) == occurrences(names(draws@), t),
            tally.total() == draws@.len(),
    {
        let mut tally = Tally::for_pool(pool);
        let ghost drawn = names(draws@);
        let mut i: usize = 0;
        assert(pool@ + drawn.take(0) =~= pool@);
        while i < draws.len()
            invariant
                i <= draws.len(),
                drawn == names(draws@),
                tally.wf(),
                tally.keys() == first_occurrences(pool@ + drawn.take(i as int)),
                forall|t: Seq<char>| tally.count_of(t) == occurrences(drawn.take(i as int), t),
                tally.total() == i,
            decreases draws.len() - i,
        {
            proof {
                let seen = pool@ + drawn.take(i as int);
                assert(drawn.take(i + 1) =~= drawn.take(i as int).push(drawn[i as int]));
                assert(pool@ + drawn.take(i + 1) =~= seen.push(drawn[i as int]));
                assert(seen.push(drawn[i as int]).drop_last() =~= seen);
                lemma_first_occurrences_contains(seen, drawn[i as int]);
                assert forall|t: Seq<char>|
                    occurrences(drawn.take(i + 1), t) == occurrences(drawn.take(i as int), t)
                        + if t == drawn[i as int] {
                        1nat
                    } else {
                        0nat
                    } by {
                    lemma_occurrences_push(drawn.take(i as int), drawn[i as int], t);
                }
            }
            tally.record(&draws[i]);
            i = i + 1;
        }
        assert(drawn.take(i as int) =~= drawn);
        tally
    }
}

/// The tally of the tickets in a pool: one entry for each participant, in
/// order of first appearance, with the number of tickets held.
pub fn holdings(pool: &TicketPool) -> (tally: Tally)
    ensures
        tally.wf(),
        tally.keys() == first_occurrences(pool@),
        forall|t: Seq<char>| tally.count_of(t) == occurrences(pool@, t),
        tally.total() == pool@.len(),
{
    let nobody = TicketPool::new();
    assert(nobody@ + pool@ =~= pool@);
    Tally::of_draws(&nobody, &pool.tickets)
}

/// Whether `tally` counts the sequence `draws` of winners from `pool`: its
/// entries are the participants of the pool in order of first appearance, the
/// count of each is the number of draws it won, and the counts add up to the
/// number of draws.
pub open spec fn is_tally_of(tally: Tally, pool: Seq<Seq<char>>, draws: Seq<Seq<char>>) -> bool {
    &&& tally.wf()
    &&& tally.keys() == first_occurrences(pool)
    &&& forall|t: Seq<char>| tally.count_of(t) == occurrences(draws, t)
    &&& tally.total() == draws.len()
}

/// Whether every draw of the sequence went to a participant of the pool.
pub open spec fn drawn_from(draws: Seq<Seq<char>>, pool: Seq<Seq<char>>) -> bool {
    forall|i: int| 0 <= i < draws.len() ==> pool.contains(#[trigger] draws[i])
}

/// Draws `trials` times from the same pool, each draw on its own and with
/// all tickets in place, and tallies the winners. Fails where a draw is
/// asked of the empty pool, and only there.
pub fn draw_distribution(pool: &TicketPool, trials: u64, rng: &mut StdRng) -> (r: Result<
    Tally,
    GiveawayError,
>)
    ensures
        match r {
            Ok(tally) => (pool@.len() > 0 || trials == 0) && exists|draws: Seq<Seq<char>>|
                draws.len() == trials && drawn_from(draws, pool@) && is_tally_of(
                    tally,
                    pool@,
                    draws,
                ),
            Err(e) => e == GiveawayError::EmptyPool && pool@.len() == 0 && trials > 0,
        },
{
    let mut tally = Tally::for_pool(pool);
    let ghost mut draws: Seq<Seq<char>> = Seq::empty();
    let mut i: u64 = 0;
    while i < trials
        invariant
            i <= trials,
            draws.len() == i,
            drawn_from(draws, pool@),
            is_tally_of(tally, pool@, draws),
        decreases trials - i,
    {
        match draw_one(pool, rng) {
            Ok(ticket) => {
                proof {
                    lemma_first_occurrences_contains(pool@, ticket@);
                    assert forall|t: Seq<char>|
                        occurrences(draws.push(ticket@), t) == occurrences(draws, t) + if t
                            == ticket@ {
                            1nat
                        } else {
                            0nat
                        } by {
                        lemma_occurrences_push(draws, ticket@, t);
                    }
                }
                tally.record(&ticket);
                proof {
                    draws = draws.push(ticket@);
                }
            },
            Err(e) => {
                return Err(e);
            },
        }
        i = i + 1;
    }
    Ok(tally)
}

} // verus!
