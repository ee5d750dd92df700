//! The exclusion filter: tickets on the discard list leave the pool, and so
//! do the moderators' tickets when moderators are dropped.

use crate::dedup::{lemma_occurrences_filter, occurrences};
use crate::pool::TicketPool;
use crate::text::{pieces_of, split_on, texts};
use crate::ticket::{canonical_forms, names, normalize_all, CanonicalTicket};
use vstd::prelude::*;

verus! {

/// A set of participants, such as the discard list or the moderators.
#[derive(Debug)]
pub struct TicketSet {
    pub tickets: Vec<CanonicalTicket>,
}

/// The participants that never take part in a draw.
pub type DiscardList = TicketSet;

impl View for TicketSet {
    type V = Set<Seq<char>>;

    open spec fn view(&self) -> Set<Seq<char>> {
        names(self.tickets@).to_set()
    }
}

/// The lines of a text: the pieces between its line feeds.
pub open spec fn lines_of(text: Seq<char>) -> Seq<Seq<char>> {
    pieces_of(text, '\n')
}

/// Whether a ticket leaves the pool.
pub open spec fn is_excluded(
    t: Seq<char>,
    discard: Set<Seq<char>>,
    moderators: Set<Seq<char>>,
    drop_moderators: bool,
) -> bool {
    discard.contains(t) || (drop_moderators && moderators.contains(t))
}

/// The predicate that holds of the tickets that stay in the pool.
pub open spec fn stays(
    discard: Set<Seq<char>>,
    moderators: Set<Seq<char>>,
    drop_moderators: bool,
) -> spec_fn(Seq<char>) -> bool {
    |t: Seq<char>| !is_excluded(t, discard, moderators, drop_moderators)
}

/// The pool after filtering: the tickets that stay, in their order.
pub open spec fn filtered(
    pool: Seq<Seq<char>>,
    discard: Set<Seq<char>>,
    moderators: Set<Seq<char>>,
    drop_moderators: bool,
) -> Seq<Seq<char>> {
    pool.filter(stays(discard, moderators, drop_moderators))
}

/// An excluded participant holds no ticket after filtering, whatever the
/// number of copies before; every other participant keeps all tickets.
pub proof fn lemma_filtered_occurrences(
    pool: Seq<Seq<char>>,
    discard: Set<Seq<char>>,
    moderators: Set<Seq<char>>,
    drop_moderators: bool,
    t: Seq<char>,
)
    ensures
        occurrences(filtered(pool, discard, moderators, drop_moderators), t) == if is_excluded(
            t,
            discard,
            moderators,
            drop_moderators,
        ) {
            0
        } else {
            occurrences(pool, t)
        },
{
    lemma_occurrences_filter(pool, stays(discard, moderators, drop_moderators), t);
}

/// Splits a text at its line feeds.
pub fn split_lines(text: &str) -> (lines: Vec<String>)
    ensures
        texts(lines@) == lines_of(text@),
{
    split_on(text, '\n')
}

impl TicketSet {
    /// The set without any participant.
    pub fn empty() -> (set: TicketSet)
        ensures
            set@ == Set::<Seq<char>>::empty(),
    {
        let set = TicketSet { tickets: Vec::new() };
        assert(set@ =~= Set::<Seq<char>>::empty());
        set
    }

    /// The participants that the raw names denote.
    pub fn from_raw(raw: &Vec<String>) -> (set: TicketSet)
        ensures
            set@ == canonical_forms(texts(raw@)).to_set(),
    {
        TicketSet { tickets: normalize_all(raw) }
    }

    /// The participants that a text names, one raw name per line.
    pub fn parse(text: &str) -> (set: TicketSet)
        ensures
            set@ == canonical_forms(lines_of(text@)).to_set(),
    {
        let lines = split_lines(text);
        TicketSet::from_raw(&lines)
    }

    /// Whether the participant of `ticket` is in the set.
    pub fn contains(&self, ticket: &CanonicalTicket) -> (b: bool)
        ensures
            b == self@.contains(ticket@),
    {
        let mut i: usize = 0;
        while i < self.tickets.len()
            invariant
                i <= self.tickets.len(),
                forall|k: int| 0 <= k < i ==> names(self.tickets@)[k] != ticket@,
            decreases self.tickets.len() - i,
        {
            if self.tickets[i].same_participant(ticket) {
                assert(names(self.tickets@)[i as int] == ticket@);
                return true;
            }
            i = i + 1;
        }
        false
    }
}

/// Removes from the pool every ticket of a participant on the discard list
/// and, if moderators are dropped, every ticket of a moderator. The tickets
/// that stay keep their order, and their copies.
pub fn filter_pool(
    pool: &TicketPool,
    discard: &TicketSet,
    moderators: &TicketSet,
    drop_moderators: bool,
) -> (kept: TicketPool)
    ensures
        kept@ == filtered(pool@, discard@, moderators@, drop_moderators),
{
    let ghost keep = stays(discard@, moderators@, drop_moderators);
    let mut tickets: Vec<CanonicalTicket> = Vec::new();
    let mut i: usize = 0;
    assert(names(tickets@) =~= pool@.take(0).filter(keep)) by {
        reveal(Seq::filter);
    }
    while i < pool.tickets.len()
        invariant
            i <= pool.tickets.len(),
            keep == stays(discard@, moderators@, drop_moderators),
            names(tickets@) == pool@.take(i as int).filter(keep),
        decreases pool.tickets.len() - i,
    {
        proof {
            reveal(Seq::filter);
            assert(pool@.take(i + 1).drop_last() =~= pool@.take(i as int));
        }
        let ticket = &pool.tickets[i];
        let excluded = discard.contains(ticket) || (drop_moderators && moderators.contains(ticket));
        if !excluded {
            tickets.push(ticket.duplicate());
            assert(names(tickets@) =~= pool@.take(i as int).filter(keep).push(pool@[i as int]));
        }
        i = i + 1;
    }
    assert(pool@.take(i as int) =~= pool@);
    TicketPool { tickets }
}

} // verus!
