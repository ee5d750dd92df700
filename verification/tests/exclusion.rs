use giveaway::exclusion::{filter_pool, DiscardList, TicketSet};
use giveaway::pool::TicketPool;
use giveaway::ticket::normalize;

fn strings(names: &[&str]) -> Vec<String> {
    names.iter().map(|n| n.to_string()).collect()
}

fn names(pool: &TicketPool) -> Vec<String> {
    pool.tickets.iter().map(|t| t.as_str().to_string()).collect()
}

#[test]
fn scenario_discarded_name_leaves_the_pool() {
    let pool = TicketPool::from_raw(&strings(&["ALICE", "BOB"]));
    let discard = DiscardList::from_raw(&strings(&["alice"]));
    let kept = filter_pool(&pool, &discard, &TicketSet::empty(), false);
    assert_eq!(names(&kept), vec!["BOB"]);
}

#[test]
fn all_copies_of_a_discarded_ticket_leave() {
    let pool = TicketPool::from_raw(&strings(&["a", "b", "c", "a", "b"]));
    let discard = TicketSet::from_raw(&strings(&["A "]));
    let kept = filter_pool(&pool, &discard, &TicketSet::empty(), false);
    assert_eq!(names(&kept), vec!["B", "C", "B"]);
    assert_eq!(kept.count(&normalize("a")), 0);
    assert_eq!(kept.count(&normalize("b")), 2);
}

#[test]
fn moderators_leave_only_when_dropped() {
    let pool = TicketPool::from_raw(&strings(&["a", "m", "b", "m"]));
    let moderators = TicketSet::from_raw(&strings(&["m"]));
    let discard = TicketSet::empty();
    assert_eq!(names(&filter_pool(&pool, &discard, &moderators, false)), vec!["A", "M", "B", "M"]);
    assert_eq!(names(&filter_pool(&pool, &discard, &moderators, true)), vec!["A", "B"]);
}

#[test]
fn discard_list_and_moderators_add_up() {
    let pool = TicketPool::from_raw(&strings(&["a", "m", "b", "d", "m", "d"]));
    let moderators = TicketSet::from_raw(&strings(&["m", "d"]));
    let discard = TicketSet::from_raw(&strings(&["d", "zed"]));
    assert_eq!(names(&filter_pool(&pool, &discard, &moderators, true)), vec!["A", "B"]);
    assert_eq!(names(&filter_pool(&pool, &discard, &moderators, false)), vec!["A", "M", "B", "M"]);
}

#[test]
fn nothing_excluded_keeps_the_pool() {
    let pool = TicketPool::from_raw(&strings(&["a", "b", "a"]));
    let kept = filter_pool(&pool, &TicketSet::empty(), &TicketSet::empty(), true);
    assert_eq!(names(&kept), vec!["A", "B", "A"]);
}

#[test]
fn everything_excluded_empties_the_pool() {
    let pool = TicketPool::from_raw(&strings(&["a", "b", "a"]));
    let discard = TicketSet::from_raw(&strings(&["b", "a"]));
    assert!(filter_pool(&pool, &discard, &TicketSet::empty(), false).is_empty());
}

#[test]
fn discard_list_is_read_one_name_per_line() {
    let discard = DiscardList::parse("alice \r\nBob\ncarol");
    assert!(discard.contains(&normalize("ALICE")));
    assert!(discard.contains(&normalize("bob")));
    assert!(discard.contains(&normalize("Carol ")));
    assert!(!discard.contains(&normalize("dave")));
    assert!(!discard.contains(&normalize("alice bob")));
}

#[test]
fn empty_discard_list_holds_nobody() {
    let discard = DiscardList::empty();
    assert!(!discard.contains(&normalize("alice")));
    assert!(!discard.contains(&normalize("")));
}

#[test]
fn ticket_set_membership() {
    let set = TicketSet::from_raw(&strings(&["a", "B ", "a"]));
    assert!(set.contains(&normalize("A")));
    assert!(set.contains(&normalize("b")));
    assert!(!set.contains(&normalize("c")));
}
