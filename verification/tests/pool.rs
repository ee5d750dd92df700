use giveaway::pool::{build_pool, canonical_pool, extra_tickets, Collected, Source, SourceSet, TicketPool};
use giveaway::ticket::normalize;

fn strings(names: &[&str]) -> Vec<String> {
    names.iter().map(|n| n.to_string()).collect()
}

fn names(pool: &TicketPool) -> Vec<String> {
    pool.tickets.iter().map(|t| t.as_str().to_string()).collect()
}

fn chat(viewers: &[&str], moderators: &[&str], followers: &[&str]) -> Collected {
    let mut collected = Collected::new();
    collected.viewers = strings(viewers);
    collected.moderators = strings(moderators);
    collected.followers = strings(followers);
    collected
}

fn chat_sources() -> SourceSet {
    SourceSet::none().with(Source::Viewers).with(Source::Moderators)
}

#[test]
fn scenario_viewers_and_moderators_without_extras() {
    let collected = chat(&["alice", "Bob "], &["bob"], &[]);
    let pool = build_pool(&chat_sources(), &collected, false);
    assert_eq!(names(&pool), vec!["ALICE", "BOB"]);
}

#[test]
fn scenario_viewers_and_moderators_with_extras() {
    let collected = chat(&["alice", "Bob "], &["bob"], &[]);
    let pool = build_pool(&chat_sources(), &collected, true);
    assert_eq!(names(&pool), vec!["ALICE", "BOB", "ALICE", "BOB"]);
}

#[test]
fn dedup_keeps_first_occurrences_in_order() {
    let collected = chat(&["c", "a", "C ", "b", "a"], &["b", "d", "A"], &["e", "d", "c"]);
    let all = chat_sources().with(Source::Followers);
    let pool = canonical_pool(&all, &collected);
    assert_eq!(names(&pool), vec!["C", "A", "B", "D", "E"]);
    for name in ["a", "b", "c", "d", "e"] {
        assert_eq!(pool.count(&normalize(name)), 1);
    }
    assert_eq!(pool.count(&normalize("f")), 0);
}

#[test]
fn source_precedence_is_viewers_moderators_followers() {
    let collected = chat(&["v"], &["m"], &["f"]);
    let all = chat_sources().with(Source::Followers);
    assert_eq!(names(&canonical_pool(&all, &collected)), vec!["V", "M", "F"]);
}

#[test]
fn disabled_sources_stay_out() {
    let collected = chat(&["v"], &["m"], &["f"]);
    let followers = SourceSet::none().with(Source::Followers);
    assert_eq!(names(&canonical_pool(&followers, &collected)), vec!["F"]);
    let moderators = SourceSet::none().with(Source::Moderators);
    assert_eq!(names(&canonical_pool(&moderators, &collected)), vec!["M"]);
    assert_eq!(names(&canonical_pool(&SourceSet::none(), &collected)), Vec::<String>::new());
}

#[test]
fn subscribers_hold_no_tickets() {
    let mut collected = chat(&[], &[], &["f"]);
    collected.subscribers = strings(&["s"]);
    let sources = SourceSet::none().with(Source::Subscribers);
    assert!(build_pool(&sources, &collected, true).is_empty());
    let both = sources.with(Source::Followers);
    assert_eq!(names(&build_pool(&both, &collected, true)), vec!["F"]);
}

#[test]
fn weighting_gives_chat_participants_two_tickets() {
    let collected = chat(&["a", "b", "A "], &["b", "m"], &["f", "a", "g"]);
    let all = chat_sources().with(Source::Followers);
    let pool = build_pool(&all, &collected, true);
    assert_eq!(names(&pool), vec!["A", "B", "M", "F", "G", "A", "B", "M"]);
    for name in ["a", "b", "m"] {
        assert_eq!(pool.count(&normalize(name)), 2);
    }
    for name in ["f", "g"] {
        assert_eq!(pool.count(&normalize(name)), 1);
    }
    assert_eq!(pool.count(&normalize("nobody")), 0);
}

#[test]
fn without_weighting_everybody_holds_one_ticket() {
    let collected = chat(&["a", "b", "A "], &["b", "m"], &["f", "a", "g"]);
    let all = chat_sources().with(Source::Followers);
    let pool = build_pool(&all, &collected, false);
    for name in ["a", "b", "m", "f", "g"] {
        assert_eq!(pool.count(&normalize(name)), 1);
    }
}

#[test]
fn extras_go_only_to_chat_participants_in_the_pool() {
    let collected = chat(&["a", "x"], &["m"], &["a", "f"]);
    let followers = SourceSet::none().with(Source::Followers);
    let pool = build_pool(&followers, &collected, true);
    assert_eq!(names(&pool), vec!["A", "F", "A"]);
    assert_eq!(pool.count(&normalize("x")), 0);
    assert_eq!(pool.count(&normalize("m")), 0);
}

#[test]
fn a_name_in_both_chat_lists_gets_one_extra() {
    let collected = chat(&["bob", "bob"], &["BOB ", "bob"], &[]);
    let pool = build_pool(&chat_sources(), &collected, true);
    assert_eq!(names(&pool), vec!["BOB", "BOB"]);
}

#[test]
fn extra_tickets_follow_first_appearance_in_the_chat() {
    let collected = chat(&["b", "a"], &["c", "a"], &[]);
    let pool = TicketPool::from_raw(&strings(&["a", "c", "b", "z"]));
    let extras: Vec<String> = extra_tickets(&pool, &collected).iter().map(|t| t.as_str().to_string()).collect();
    assert_eq!(extras, vec!["B", "A", "C"]);
}

#[test]
fn empty_input_gives_the_empty_pool() {
    let pool = build_pool(&chat_sources().with(Source::Followers), &Collected::new(), true);
    assert!(pool.is_empty());
    assert_eq!(pool.len(), 0);
}

#[test]
fn pool_accessors() {
    let pool = TicketPool::from_raw(&strings(&["a", "b ", "A"]));
    assert_eq!(pool.len(), 3);
    assert!(!pool.is_empty());
    assert_eq!(pool.get(1).as_str(), "B");
    assert!(pool.contains(&normalize("b")));
    assert!(!pool.contains(&normalize("c")));
    assert_eq!(pool.count(&normalize("a")), 2);
    assert!(TicketPool::new().is_empty());
    let tickets = vec![normalize("x"), normalize("y")];
    assert_eq!(names(&TicketPool::from_tickets(tickets)), vec!["X", "Y"]);
}

#[test]
fn source_set_accessors() {
    let none = SourceSet::none();
    assert!(none.is_empty());
    assert!(!none.contains(Source::Viewers));
    let set = none.with(Source::Followers).with(Source::Subscribers);
    assert!(!set.is_empty());
    assert!(set.contains(Source::Followers));
    assert!(set.contains(Source::Subscribers));
    assert!(!set.contains(Source::Viewers));
    assert!(!set.contains(Source::Moderators));
    assert_eq!(set.with(Source::Followers), set);
}
