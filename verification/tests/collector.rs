use giveaway::collector::{Action, Collector, Page};
use giveaway::error::GiveawayError;

fn page(names: &[&str], cursor: Option<&str>) -> Page {
    Page { names: names.iter().map(|n| n.to_string()).collect(), cursor: cursor.map(String::from) }
}

fn requested(collector: &Collector) -> Option<Option<String>> {
    match collector.action() {
        Action::Request { cursor } => Some(cursor),
        Action::Finish => None,
    }
}

#[test]
fn first_request_has_no_cursor() {
    let collector = Collector::start();
    assert_eq!(requested(&collector), Some(None));
    assert!(collector.finish().is_none());
}

#[test]
fn single_page_without_cursor_ends_retrieval() {
    let collector = Collector::start().step(Ok(page(&["a", "b"], None)));
    assert_eq!(requested(&collector), None);
    assert_eq!(collector.finish(), Some(Ok(vec!["a".to_string(), "b".to_string()])));
}

#[test]
fn empty_cursor_ends_retrieval() {
    let collector = Collector::start().step(Ok(page(&["a"], Some(""))));
    assert_eq!(requested(&collector), None);
    assert_eq!(collector.finish(), Some(Ok(vec!["a".to_string()])));
}

#[test]
fn cursor_is_handed_to_the_next_request() {
    let collector = Collector::start().step(Ok(page(&["a"], Some("c1"))));
    assert_eq!(requested(&collector), Some(Some("c1".to_string())));
    let collector = collector.step(Ok(page(&["b"], Some("c2"))));
    assert_eq!(requested(&collector), Some(Some("c2".to_string())));
    assert!(collector.finish().is_none());
}

#[test]
fn pages_are_joined_in_request_order() {
    let collector = Collector::start()
        .step(Ok(page(&["c", "a"], Some("x"))))
        .step(Ok(page(&[], Some("y"))))
        .step(Ok(page(&["b", "a "], None)));
    let expected: Vec<String> = ["c", "a", "b", "a "].iter().map(|n| n.to_string()).collect();
    assert_eq!(collector.finish(), Some(Ok(expected)));
}

#[test]
fn pages_after_the_last_one_are_ignored() {
    let collector = Collector::start()
        .step(Ok(page(&["a"], None)))
        .step(Ok(page(&["b"], Some("x"))))
        .step(Err(GiveawayError::Transport));
    assert_eq!(requested(&collector), None);
    assert_eq!(collector.finish(), Some(Ok(vec!["a".to_string()])));
}

#[test]
fn transport_failure_aborts_without_names() {
    let collector = Collector::start()
        .step(Ok(page(&["a"], Some("x"))))
        .step(Err(GiveawayError::Transport));
    assert_eq!(requested(&collector), None);
    assert_eq!(collector.finish(), Some(Err(GiveawayError::Transport)));
}

#[test]
fn decode_failure_aborts_without_names() {
    let collector = Collector::start().step(Err(GiveawayError::Decode));
    assert_eq!(collector.finish(), Some(Err(GiveawayError::Decode)));
}

#[test]
fn upstream_failure_keeps_its_status() {
    let collector = Collector::start()
        .step(Err(GiveawayError::Upstream { status: 503 }))
        .step(Ok(page(&["late"], None)));
    assert_eq!(collector.finish(), Some(Err(GiveawayError::Upstream { status: 503 })));
}

#[test]
fn auth_failure_is_passed_on() {
    let collector = Collector::start().step(Err(GiveawayError::Auth));
    assert_eq!(collector.finish(), Some(Err(GiveawayError::Auth)));
}
