//! A giveaway run from its options to the pool that is drawn from.

use crate::exclusion::{filter_pool, filtered, TicketSet};
use crate::pool::{build_pool, pool_of, Collected, RawLists, SourceSet, TicketPool};
use crate::ticket::canonical_forms;
use vstd::prelude::*;

verus! {

/// The number of draws of a diagnostic run.
pub const DIAGNOSTIC_TRIALS: u64 = 999;

/// What the operator asked for.
#[derive(Clone, Copy, Debug, PartialEq, Eq, Structural)]
pub struct Options {
    /// Followers take part.
    pub followers: bool,
    /// Everybody in the chat takes part, viewers and moderators alike.
    pub viewers: bool,
    /// Subscribers take part.
    pub subscribers: bool,
    /// Moderators are removed from the pool.
    pub drop_moderators: bool,
    /// Chat participants who hold a ticket get a second one.
    pub extra_tickets: bool,
}

/// The sources that the options enable.
pub open spec fn sources_of(options: Options) -> SourceSet {
    SourceSet {
        viewers: options.viewers,
        moderators: options.viewers,
        followers: options.followers,
        subscribers: options.subscribers,
    }
}

/// The pool that a run draws from: built from the enabled sources, weighted
/// if asked for, then filtered against the discard list and, if asked for,
/// against the moderators in the chat.
pub open spec fn eligible_of(options: Options, lists: RawLists, discard: Set<Seq<char>>) -> Seq<
    Seq<char>,
> {
    filtered(
        pool_of(sources_of(options), lists, options.extra_tickets),
        discard,
        canonical_forms(lists.moderators).to_set(),
        options.drop_moderators,
    )
}

impl Options {
    /// The sources that the options enable.
    pub fn sources(&self) -> (set: SourceSet)
        ensures
            set == sources_of(*self),
    {
        SourceSet {
            viewers: self.viewers,
            moderators: self.viewers,
            followers: self.followers,
            subscribers: self.subscribers,
        }
    }

    /// Whether the options name at least one source of participants.
    pub fn names_a_source(&self) -> (b: bool)
        ensures
            b == (self.followers || self.viewers || self.subscribers),
    {
        self.followers || self.viewers || self.subscribers
    }

    /// Whether the run needs the chat lists: as a source, to tell who gets
    /// an extra ticket, or to tell who is a moderator.
    pub fn needs_chat(&self) -> (b: bool)
        ensures
            b == (self.viewers || self.extra_tickets || self.drop_moderators),
    {
        self.extra_tickets || self.drop_moderators || self.viewers
    }
}

/// Builds the pool that a run draws from.
pub fn eligible_pool(options: &Options, collected: &Collected, discard: &TicketSet) -> (pool:
    TicketPool)
    ensures
        pool@ == eligible_of(*options, collected@, discard@),
{
    let sources = options.sources();
    let pool = build_pool(&sources, collected, options.extra_tickets);
    let moderators = TicketSet::from_raw(&collected.moderators);
    filter_pool(&pool, discard, &moderators, options.drop_moderators)
}

} // verus!
