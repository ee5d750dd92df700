use giveaway::draw::draw_one;
use giveaway::error::GiveawayError;
use giveaway::exclusion::TicketSet;
use giveaway::giveaway::{eligible_pool, Options, DIAGNOSTIC_TRIALS};
use giveaway::pool::{Collected, Source, TicketPool};
use rand::rngs::StdRng;
use rand::SeedableRng;

fn strings(names: &[&str]) -> Vec<String> {
    names.iter().map(|n| n.to_string()).collect()
}

fn names(pool: &TicketPool) -> Vec<String> {
    pool.tickets.iter().map(|t| t.as_str().to_string()).collect()
}

fn options() -> Options {
    Options { followers: false, viewers: false, subscribers: false, drop_moderators: false, extra_tickets: false }
}

fn collected() -> Collected {
    let mut collected = Collected::new();
    collected.viewers = strings(&["alice", "Bob "]);
    collected.moderators = strings(&["mod", "bob"]);
    collected.followers = strings(&["carol", "ALICE", "dave", "mod"]);
    collected
}

#[test]
fn viewers_flag_brings_in_the_whole_chat() {
    let sources = Options { viewers: true, ..options() }.sources();
    assert!(sources.contains(Source::Viewers));
    assert!(sources.contains(Source::Moderators));
    assert!(!sources.contains(Source::Followers));
    assert!(!sources.contains(Source::Subscribers));
    let sources = Options { followers: true, subscribers: true, ..options() }.sources();
    assert!(!sources.contains(Source::Viewers));
    assert!(!sources.contains(Source::Moderators));
    assert!(sources.contains(Source::Followers));
    assert!(sources.contains(Source::Subscribers));
}

#[test]
fn at_least_one_source_is_asked_for() {
    assert!(!options().names_a_source());
    assert!(!Options { extra_tickets: true, drop_moderators: true, ..options() }.names_a_source());
    assert!(Options { followers: true, ..options() }.names_a_source());
    assert!(Options { viewers: true, ..options() }.names_a_source());
    assert!(Options { subscribers: true, ..options() }.names_a_source());
}

#[test]
fn chat_is_needed_for_viewers_extras_and_dropping() {
    assert!(!options().needs_chat());
    assert!(!Options { followers: true, subscribers: true, ..options() }.needs_chat());
    assert!(Options { viewers: true, ..options() }.needs_chat());
    assert!(Options { extra_tickets: true, ..options() }.needs_chat());
    assert!(Options { drop_moderators: true, ..options() }.needs_chat());
}

#[test]
fn diagnostic_run_has_999_trials() {
    assert_eq!(DIAGNOSTIC_TRIALS, 999);
}

#[test]
fn eligible_pool_of_everything() {
    let opts = Options { followers: true, viewers: true, ..options() };
    let pool = eligible_pool(&opts, &collected(), &TicketSet::empty());
    assert_eq!(names(&pool), vec!["ALICE", "BOB", "MOD", "CAROL", "DAVE"]);
}

#[test]
fn eligible_pool_with_extras_discards_and_dropped_moderators() {
    let opts = Options { followers: true, viewers: true, drop_moderators: true, extra_tickets: true, ..options() };
    let discard = TicketSet::parse("dave\nalice ");
    let pool = eligible_pool(&opts, &collected(), &discard);
    assert_eq!(names(&pool), vec!["CAROL"]);
    let opts = Options { drop_moderators: false, ..opts };
    let pool = eligible_pool(&opts, &collected(), &discard);
    assert_eq!(names(&pool), vec!["BOB", "MOD", "CAROL", "BOB", "MOD"]);
}

#[test]
fn followers_in_the_chat_get_extras() {
    let opts = Options { followers: true, extra_tickets: true, ..options() };
    let pool = eligible_pool(&opts, &collected(), &TicketSet::empty());
    assert_eq!(names(&pool), vec!["CAROL", "ALICE", "DAVE", "MOD", "ALICE", "MOD"]);
}

#[test]
fn no_source_no_winner() {
    let pool = eligible_pool(&options(), &collected(), &TicketSet::empty());
    let mut rng = StdRng::seed_from_u64(11);
    assert!(matches!(draw_one(&pool, &mut rng), Err(GiveawayError::EmptyPool)));
}
