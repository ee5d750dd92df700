//! Building the ticket pool: merge the enabled sources, keep one ticket per
//! participant, and optionally grant chat participants a second one.

use crate::dedup::{
    first_occurrences, first_position, lemma_first_occurrences_contains,
    lemma_first_occurrences_once, lemma_first_occurrences_order, lemma_occurrences_add,
    lemma_occurrences_filter, occurrences,
};
use crate::text::texts;
use crate::ticket::{canonical_forms, names, normalize_all, CanonicalTicket};
use itertools::Itertools;
use vstd::prelude::*;

verus! {

/// Where participant names come from.
#[derive(Clone, Copy, Debug, PartialEq, Eq, Structural)]
pub enum Source {
    Viewers,
    Moderators,
    Followers,
    Subscribers,
}

/// The sources whose participants enter the pool.
#[derive(Clone, Copy, Debug, PartialEq, Eq, Structural)]
pub struct SourceSet {
    pub viewers: bool,
    pub moderators: bool,
    pub followers: bool,
    pub subscribers: bool,
}

/// The raw names that each source returned.
#[derive(Debug)]
pub struct Collected {
    pub viewers: Vec<String>,
    pub moderators: Vec<String>,
    pub followers: Vec<String>,
    pub subscribers: Vec<String>,
}

/// The text of the raw names of each source.
pub ghost struct RawLists {
    pub viewers: Seq<Seq<char>>,
    pub moderators: Seq<Seq<char>>,
    pub followers: Seq<Seq<char>>,
    pub subscribers: Seq<Seq<char>>,
}

impl View for Collected {
    type V = RawLists;

    open spec fn view(&self) -> RawLists {
        RawLists {
            viewers: texts(self.viewers@),
            moderators: texts(self.moderators@),
            followers: texts(self.followers@),
            subscribers: texts(self.subscribers@),
        }
    }
}

/// An ordered sequence of tickets. A participant who holds several tickets
/// occurs several times.
#[derive(Debug)]
pub struct TicketPool {
    pub tickets: Vec<CanonicalTicket>,
}

impl View for TicketPool {
    type V = Seq<Seq<char>>;

    open spec fn view(&self) -> Seq<Seq<char>> {
        names(self.tickets@)
    }
}

/// `list` if `enabled`, nothing otherwise.
pub open spec fn when(enabled: bool, list: Seq<Seq<char>>) -> Seq<Seq<char>> {
    if enabled {
        list
    } else {
        Seq::empty()
    }
}

/// The canonical names of all enabled sources in source precedence: viewers,
/// then moderators, then followers. Subscribers hold no tickets.
pub open spec fn candidates(enabled: SourceSet, lists: RawLists) -> Seq<Seq<char>> {
    canonical_forms(
        when(enabled.viewers, lists.viewers) + when(enabled.moderators, lists.moderators) + when(
            enabled.followers,
            lists.followers,
        ),
    )
}

/// The canonical pool: one ticket per participant, in order of first
/// appearance among the candidates.
pub open spec fn canonical_pool_of(enabled: SourceSet, lists: RawLists) -> Seq<Seq<char>> {
    first_occurrences(candidates(enabled, lists))
}

/// The canonical names of everybody in the chat, viewers first.
pub open spec fn chatters(lists: RawLists) -> Seq<Seq<char>> {
    canonical_forms(lists.viewers + lists.moderators)
}

/// The predicate that holds of the tickets found in `pool`.
pub open spec fn held_in(pool: Seq<Seq<char>>) -> spec_fn(Seq<char>) -> bool {
    |t: Seq<char>| pool.contains(t)
}

/// The extra tickets: one for each chat participant who already holds a
/// ticket in `pool`, in order of first appearance in the chat.
pub open spec fn extra_tickets_of(pool: Seq<Seq<char>>, lists: RawLists) -> Seq<Seq<char>> {
    first_occurrences(chatters(lists)).filter(held_in(pool))
}

/// The pool before filtering: the canonical pool, followed by the extra
/// tickets if they are granted.
pub open spec fn pool_of(enabled: SourceSet, lists: RawLists, extra_tickets: bool) -> Seq<
    Seq<char>,
> {
    let canonical = canonical_pool_of(enabled, lists);
    if extra_tickets {
        canonical + extra_tickets_of(canonical, lists)
    } else {
        canonical
    }
}

/// The canonical pool holds a ticket for exactly the participants among the
/// candidates, and one ticket for each.
pub proof fn lemma_canonical_pool_once(enabled: SourceSet, lists: RawLists, t: Seq<char>)
    ensures
        canonical_pool_of(enabled, lists).contains(t) <==> candidates(enabled, lists).contains(t),
        occurrences(canonical_pool_of(enabled, lists), t) == if candidates(enabled, lists).contains(
            t,
        ) {
            1nat
        } else {
            0nat
        },
{
    lemma_first_occurrences_contains(candidates(enabled, lists), t);
    lemma_first_occurrences_once(candidates(enabled, lists), t);
}

/// The tickets of the canonical pool stand in the order in which their
/// participants first appear among the candidates.
pub proof fn lemma_canonical_pool_order(enabled: SourceSet, lists: RawLists, i: int, j: int)
    requires
        0 <= i < j < canonical_pool_of(enabled, lists).len(),
    ensures
        first_position(candidates(enabled, lists), canonical_pool_of(enabled, lists)[i])
            < first_position(candidates(enabled, lists), canonical_pool_of(enabled, lists)[j]),
{
    lemma_first_occurrences_order(candidates(enabled, lists), i, j);
}

/// How many tickets a participant holds before filtering: none if no enabled
/// source names the participant; two if extra tickets are granted and the
/// participant is in the chat; one otherwise.
pub proof fn lemma_weighting(enabled: SourceSet, lists: RawLists, extra_tickets: bool, t: Seq<char>)
    ensures
        occurrences(pool_of(enabled, lists, extra_tickets), t) == if !candidates(
            enabled,
            lists,
        ).contains(t) {
            0nat
        } else if extra_tickets && chatters(lists).contains(t) {
            2nat
        } else {
            1nat
        },
{
    let canonical = canonical_pool_of(enabled, lists);
    lemma_canonical_pool_once(enabled, lists, t);
    if extra_tickets {
        let extras = extra_tickets_of(canonical, lists);
        lemma_occurrences_add(canonical, extras, t);
        lemma_occurrences_filter(first_occurrences(chatters(lists)), held_in(canonical), t);
        lemma_first_occurrences_once(chatters(lists), t);
    }
}

/// `Itertools::unique` on the tickets' names: yields each name the first time
/// it comes up and skips it from then on, so the result keeps the first
/// occurrences in their order.
#[verifier::external_body]
fn unique(tickets: Vec<CanonicalTicket>) -> (kept: Vec<CanonicalTicket>)
    ensures
        names(kept@) == first_occurrences(names(tickets@)),
{
    tickets.into_iter().map(|t| t.name).unique().map(|name| CanonicalTicket { name }).collect()
}

impl SourceSet {
    /// No source at all.
    pub fn none() -> (set: SourceSet)
        ensures
            set == (SourceSet {
                viewers: false,
                moderators: false,
                followers: false,
                subscribers: false,
            }),
    {
        SourceSet { viewers: false, moderators: false, followers: false, subscribers: false }
    }

    /// Whether `source` is enabled.
    pub open spec fn has(self, source: Source) -> bool {
        match source {
            Source::Viewers => self.viewers,
            Source::Moderators => self.moderators,
            Source::Followers => self.followers,
            Source::Subscribers => self.subscribers,
        }
    }

    /// Whether `source` is enabled.
    pub fn contains(&self, source: Source) -> (b: bool)
        ensures
            b == self.has(source),
    {
        match source {
            Source::Viewers => self.viewers,
            Source::Moderators => self.moderators,
            Source::Followers => self.followers,
            Source::Subscribers => self.subscribers,
        }
    }

    /// This set with `source` enabled as well.
    pub fn with(self, source: Source) -> (set: SourceSet)
        ensures
            set.has(source),
            forall|other: Source| other != source ==> set.has(other) == self.has(other),
    {
        let mut set = self;
        match source {
            Source::Viewers => {
                set.viewers = true;
            },
            Source::Moderators => {
                set.moderators = true;
            },
            Source::Followers => {
                set.followers = true;
            },
            Source::Subscribers => {
                set.subscribers = true;
            },
        }
        set
    }

    /// Whether no source is enabled.
    pub fn is_empty(&self) -> (b: bool)
        ensures
            b == forall|source: Source| !self.has(source),
    {
        let b = !self.viewers && !self.moderators && !self.followers && !self.subscribers;
        proof {
            if b {
                assert forall|source: Source| !self.has(source) by {}
            } else {
                assert(self.has(Source::Viewers) || self.has(Source::Moderators) || self.has(
                    Source::Followers,
                ) || self.has(Source::Subscribers));
            }
        }
        b
    }
}

impl Collected {
    /// Nothing collected from any source.
    pub fn new() -> (collected: Collected)
        ensures
            collected@.viewers.len() == 0,
            collected@.moderators.len() == 0,
            collected@.followers.len() == 0,
            collected@.subscribers.len() == 0,
    {
        Collected {
            viewers: Vec::new(),
            moderators: Vec::new(),
            followers: Vec::new(),
            subscribers: Vec::new(),
        }
    }
}

impl TicketPool {
    /// The pool without any ticket.
    pub fn new() -> (pool: TicketPool)
        ensures
            pool@ == Seq::<Seq<char>>::empty(),
    {
        let pool = TicketPool { tickets: Vec::new() };
        assert(pool@ =~= Seq::<Seq<char>>::empty());
        pool
    }

    /// The pool that holds `tickets` in their order.
    pub fn from_tickets(tickets: Vec<CanonicalTicket>) -> (pool: TicketPool)
        ensures
            pool@ == names(tickets@),
    {
        TicketPool { tickets }
    }

    /// The pool that holds one ticket for each raw name, copies included.
    pub fn from_raw(raw: &Vec<String>) -> (pool: TicketPool)
        ensures
            pool@ == canonical_forms(texts(raw@)),
    {
        TicketPool { tickets: normalize_all(raw) }
    }

    /// The number of tickets, copies included.
    pub fn len(&self) -> (n: usize)
        ensures
            n == self@.len(),
    {
        self.tickets.len()
    }

    /// Whether the pool holds no ticket.
    pub fn is_empty(&self) -> (b: bool)
        ensures
            b == (self@.len() == 0),
    {
        self.tickets.len() == 0
    }

    /// The ticket in slot `i`.
    pub fn get(&self, i: usize) -> (t: &CanonicalTicket)
        requires
            i < self@.len(),
        ensures
            t@ == self@[i as int],
    {
        &self.tickets[i]
    }

    /// Whether the participant of `ticket` holds a ticket in the pool.
    pub fn contains(&self, ticket: &CanonicalTicket) -> (b: bool)
        ensures
            b == self@.contains(ticket@),
    {
        let mut i: usize = 0;
        while i < self.tickets.len()
            invariant
                i <= self.tickets.len(),
                forall|k: int| 0 <= k < i ==> self@[k] != ticket@,
            decreases self.tickets.len() - i,
        {
            if self.tickets[i].same_participant(ticket) {
                assert(self@[i as int] == ticket@);
                return true;
            }
            i = i + 1;
        }
        false
    }

    /// How many tickets the participant of `ticket` holds in the pool.
    pub fn count(&self, ticket: &CanonicalTicket) -> (n: usize)
        ensures
            n == occurrences(self@, ticket@),
    {
        let mut n: usize = 0;
        let mut i: usize = 0;
        while i < self.tickets.len()
            invariant
                i <= self.tickets.len(),
                n <= i,
                n == occurrences(self@.take(i as int), ticket@),
            decreases self.tickets.len() - i,
        {
            proof {
                assert(self@.take(i + 1).drop_last() =~= self@.take(i as int));
            }
            if self.tickets[i].same_participant(ticket) {
                n = n + 1;
            }
            i = i + 1;
        }
        assert(self@.take(i as int) =~= self@);
        n
    }
}

/// Canonical forms are taken name by name, so they distribute over
/// concatenation.
pub proof fn lemma_canonical_forms_add(a: Seq<Seq<char>>, b: Seq<Seq<char>>)
    ensures
        canonical_forms(a + b) == canonical_forms(a) + canonical_forms(b),
{
    assert(canonical_forms(a + b) =~= canonical_forms(a) + canonical_forms(b));
}

/// Appends the tickets of the raw names in `raw` to `tickets`.
fn append_normalized(tickets: &mut Vec<CanonicalTicket>, raw: &Vec<String>)
    ensures
        names(final(tickets)@) == names(old(tickets)@) + canonical_forms(texts(raw@)),
{
    let mut more = normalize_all(raw);
    tickets.append(&mut more);
    assert(names(tickets@) =~= names(old(tickets)@) + canonical_forms(texts(raw@)));
}

/// The canonical pool of the enabled sources: every participant once, in
/// order of first appearance.
pub fn canonical_pool(enabled: &SourceSet, collected: &Collected) -> (pool: TicketPool)
    ensures
        pool@ == canonical_pool_of(*enabled, collected@),
{
    let ghost viewers = when(enabled.viewers, collected@.viewers);
    let ghost moderators = when(enabled.moderators, collected@.moderators);
    let ghost followers = when(enabled.followers, collected@.followers);
    let mut all: Vec<CanonicalTicket> = Vec::new();
    if enabled.viewers {
        append_normalized(&mut all, &collected.viewers);
    }
    assert(names(all@) =~= canonical_forms(viewers));
    if enabled.moderators {
        append_normalized(&mut all, &collected.moderators);
    }
    assert(names(all@) =~= canonical_forms(viewers) + canonical_forms(moderators));
    if enabled.followers {
        append_normalized(&mut all, &collected.followers);
    }
    assert(names(all@) =~= canonical_forms(viewers) + canonical_forms(moderators)
        + canonical_forms(followers));
    proof {
        lemma_canonical_forms_add(viewers, moderators);
        lemma_canonical_forms_add(viewers + moderators, followers);
    }
    TicketPool { tickets: unique(all) }
}

/// The extra tickets for `pool`: one for each chat participant who already
/// holds a ticket in it, however often the chat lists name that participant.
pub fn extra_tickets(pool: &TicketPool, collected: &Collected) -> (extras: Vec<CanonicalTicket>)
    ensures
        names(extras@) == extra_tickets_of(pool@, collected@),
{
    let mut chat = normalize_all(&collected.viewers);
    append_normalized(&mut chat, &collected.moderators);
    proof {
        lemma_canonical_forms_add(collected@.viewers, collected@.moderators);
    }
    let present = unique(chat);
    let ghost distinct = names(present@);
    let ghost held = held_in(pool@);
    let mut extras: Vec<CanonicalTicket> = Vec::new();
    let mut i: usize = 0;
    assert(distinct.take(0).filter(held) =~= Seq::<Seq<char>>::empty()) by {
        reveal(Seq::filter);
    }
    assert(names(extras@) =~= Seq::<Seq<char>>::empty());
    while i < present.len()
        invariant
            i <= present.len(),
            distinct == names(present@),
            held == held_in(pool@),
            names(extras@) == distinct.take(i as int).filter(held),
        decreases present.len() - i,
    {
        proof {
            reveal(Seq::filter);
            assert(distinct.take(i + 1).drop_last() =~= distinct.take(i as int));
        }
        if pool.contains(&present[i]) {
            extras.push(present[i].duplicate());
            assert(names(extras@) =~= distinct.take(i as int).filter(held).push(distinct[i as int]));
        }
        i = i + 1;
    }
    assert(distinct.take(i as int) =~= distinct);
    extras
}

/// The pool before filtering. Every participant of an enabled source gets
/// one ticket; with `extra_tickets`, those of them who are in the chat get a
/// second one.
pub fn build_pool(enabled: &SourceSet, collected: &Collected, extra_tickets: bool) -> (pool:
    TicketPool)
    ensures
        pool@ == pool_of(*enabled, collected@, extra_tickets),
{
    let mut pool = canonical_pool(enabled, collected);
    if extra_tickets {
        let mut extras = self::extra_tickets(&pool, collected);
        let ghost before = pool@;
        pool.tickets.append(&mut extras);
        assert(pool@ =~= before + extra_tickets_of(before, collected@));
    }
    pool
}

} // verus!
