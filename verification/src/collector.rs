//! Collecting a paginated source: pages are requested one after the other,
//! each with the cursor that the previous page carried, until a page carries
//! none.

use crate::error::GiveawayError;
use crate::text::texts;
use vstd::prelude::*;

verus! {

/// One page of a source: its names and, if more pages follow, the cursor at
/// which the next one starts.
#[derive(Debug)]
pub struct Page {
    pub names: Vec<String>,
    pub cursor: Option<String>,
}

/// The text of a page.
pub ghost struct PageView {
    pub names: Seq<Seq<char>>,
    pub cursor: Option<Seq<char>>,
}

/// The text of an optional cursor.
pub open spec fn cursor_view(cursor: Option<String>) -> Option<Seq<char>> {
    match cursor {
        Some(c) => Some(c@),
        None => None,
    }
}

impl View for Page {
    type V = PageView;

    open spec fn view(&self) -> PageView {
        PageView { names: texts(self.names@), cursor: cursor_view(self.cursor) }
    }
}

/// Where the retrieval of one source stands.
#[derive(Debug)]
pub enum Collector {
    /// A page is to be requested: the first one without a cursor, any later
    /// one with the cursor of the page before it.
    Waiting { names: Vec<String>, cursor: Option<String> },
    /// The last page carried no cursor: the names are complete.
    Exhausted { names: Vec<String> },
    /// A page request failed: there are no names.
    Failed { error: GiveawayError },
}

/// The text of a collector's state.
pub ghost enum CollectorView {
    Waiting { names: Seq<Seq<char>>, cursor: Option<Seq<char>> },
    Exhausted { names: Seq<Seq<char>> },
    Failed { error: GiveawayError },
}

impl View for Collector {
    type V = CollectorView;

    open spec fn view(&self) -> CollectorView {
        match *self {
            Collector::Waiting { names, cursor } => CollectorView::Waiting {
                names: texts(names@),
                cursor: cursor_view(cursor),
            },
            Collector::Exhausted { names } => CollectorView::Exhausted { names: texts(names@) },
            Collector::Failed { error } => CollectorView::Failed { error },
        }
    }
}

/// What a page request came to: a page, or the failure.
pub open spec fn event_view(event: Result<Page, GiveawayError>) -> Result<PageView, GiveawayError> {
    match event {
        Ok(page) => Ok(page@),
        Err(e) => Err(e),
    }
}

/// The cursor at which retrieval goes on after a page: the page's cursor,
/// unless it is absent or empty.
pub open spec fn continuation(cursor: Option<Seq<char>>) -> Option<Seq<char>> {
    match cursor {
        Some(c) => if c.len() > 0 {
            Some(c)
        } else {
            None
        },
        None => None,
    }
}

/// The state before the first request.
pub open spec fn initial() -> CollectorView {
    CollectorView::Waiting { names: Seq::empty(), cursor: None }
}

/// The state after one event. While a page is awaited, a page adds its names
/// behind those already there and decides whether another request follows;
/// a failure drops everything. Once retrieval has ended, nothing changes any
/// more.
pub open spec fn step_of(state: CollectorView, event: Result<PageView, GiveawayError>) -> CollectorView {
    match state {
        CollectorView::Waiting { names, cursor } => match event {
            Ok(page) => match continuation(page.cursor) {
                Some(c) => CollectorView::Waiting { names: names + page.names, cursor: Some(c) },
                None => CollectorView::Exhausted { names: names + page.names },
            },
            Err(error) => CollectorView::Failed { error },
        },
        _ => state,
    }
}

/// The state after a sequence of events.
pub open spec fn run_of(state: CollectorView, events: Seq<Result<PageView, GiveawayError>>) -> CollectorView
    decreases events.len(),
{
    if events.len() == 0 {
        state
    } else {
        step_of(run_of(state, events.drop_last()), events.last())
    }
}

/// The names of a sequence of pages, page after page.
pub open spec fn names_of_pages(pages: Seq<PageView>) -> Seq<Seq<char>>
    decreases pages.len(),
{
    if pages.len() == 0 {
        Seq::empty()
    } else {
        names_of_pages(pages.drop_last()) + pages.last().names
    }
}

/// The pages of a sequence as the events of their arrival.
pub open spec fn arrivals(pages: Seq<PageView>) -> Seq<Result<PageView, GiveawayError>> {
    pages.map_values(|p: PageView| Ok::<PageView, GiveawayError>(p))
}

/// While every page carries a cursor, the collector keeps waiting: it holds
/// the names of all pages so far in page order and asks for the next page
/// with the cursor of the last one.
pub proof fn lemma_pages_with_cursor(pages: Seq<PageView>)
    requires
        pages.len() > 0,
        forall|i: int| 0 <= i < pages.len() ==> continuation(#[trigger] pages[i].cursor) is Some,
    ensures
        run_of(initial(), arrivals(pages)) == (CollectorView::Waiting {
            names: names_of_pages(pages),
            cursor: continuation(pages.last().cursor),
        }),
    decreases pages.len(),
{
    let before = pages.drop_last();
    assert(arrivals(pages).drop_last() =~= arrivals(before));
    if before.len() > 0 {
        lemma_pages_with_cursor(before);
    } else {
        assert(names_of_pages(pages) =~= Seq::<Seq<char>>::empty() + pages.last().names);
    }
}

/// The first page without a cursor ends the retrieval: the collector then
/// holds the names of all pages up to and including it, in page order.
pub proof fn lemma_last_page(pages: Seq<PageView>)
    requires
        pages.len() > 0,
        forall|i: int|
            0 <= i < pages.len() - 1 ==> continuation(#[trigger] pages[i].cursor) is Some,
        continuation(pages.last().cursor) is None,
    ensures
        run_of(initial(), arrivals(pages)) == (CollectorView::Exhausted {
            names: names_of_pages(pages),
        }),
{
    let before = pages.drop_last();
    assert(arrivals(pages).drop_last() =~= arrivals(before));
    if before.len() > 0 {
        lemma_pages_with_cursor(before);
    } else {
        assert(names_of_pages(pages) =~= Seq::<Seq<char>>::empty() + pages.last().names);
    }
}

/// A page that arrives while one is awaited is followed by exactly one more
/// request if it carries a cursor, and that request carries the same cursor;
/// a page without a cursor is followed by none.
pub proof fn lemma_cursor_is_requested(state: CollectorView, page: PageView)
    requires
        state is Waiting,
    ensures
        action_of(step_of(state, Ok(page))) == match continuation(page.cursor) {
            Some(c) => ActionView::Request { cursor: Some(c) },
            None => ActionView::Finish,
        },
{
}

/// Once retrieval has ended, with the names or with a failure, later events
/// change nothing.
pub proof fn lemma_ended_stays(state: CollectorView, events: Seq<Result<PageView, GiveawayError>>)
    requires
        !(state is Waiting),
    ensures
        run_of(state, events) == state,
    decreases events.len(),
{
    if events.len() > 0 {
        lemma_ended_stays(state, events.drop_last());
    }
}

/// A failed request ends the retrieval without names, whatever was
/// collected before.
pub proof fn lemma_failure_aborts(pages: Seq<PageView>, error: GiveawayError)
    requires
        forall|i: int| 0 <= i < pages.len() ==> continuation(#[trigger] pages[i].cursor) is Some,
    ensures
        run_of(initial(), arrivals(pages).push(Err(error))) == (CollectorView::Failed { error }),
{
    assert(arrivals(pages).push(Err(error)).drop_last() =~= arrivals(pages));
    if pages.len() > 0 {
        lemma_pages_with_cursor(pages);
    }
}

/// What the caller is to do next.
#[derive(Debug)]
pub enum Action {
    /// Request a page, with this cursor if there is one.
    Request { cursor: Option<String> },
    /// Retrieval has ended: take the result.
    Finish,
}

/// The text of an action.
pub ghost enum ActionView {
    Request { cursor: Option<Seq<char>> },
    Finish,
}

impl View for Action {
    type V = ActionView;

    open spec fn view(&self) -> ActionView {
        match *self {
            Action::Request { cursor } => ActionView::Request { cursor: cursor_view(cursor) },
            Action::Finish => ActionView::Finish,
        }
    }
}

/// The action that a state calls for.
pub open spec fn action_of(state: CollectorView) -> ActionView {
    match state {
        CollectorView::Waiting { names, cursor } => ActionView::Request { cursor },
        _ => ActionView::Finish,
    }
}

/// The result of a retrieval that has ended; nothing while it is under way.
pub open spec fn result_of(state: CollectorView) -> Option<Result<Seq<Seq<char>>, GiveawayError>> {
    match state {
        CollectorView::Waiting { names, cursor } => None,
        CollectorView::Exhausted { names } => Some(Ok(names)),
        CollectorView::Failed { error } => Some(Err(error)),
    }
}

/// The text of a retrieval's result.
pub open spec fn names_view(r: Option<Result<Vec<String>, GiveawayError>>) -> Option<
    Result<Seq<Seq<char>>, GiveawayError>,
> {
    match r {
        Some(Ok(names)) => Some(Ok(texts(names@))),
        Some(Err(e)) => Some(Err(e)),
        None => None,
    }
}

impl Collector {
    /// The collector before the first request.
    pub fn start() -> (collector: Collector)
        ensures
            collector@ == initial(),
    {
        let collector = Collector::Waiting { names: Vec::new(), cursor: None };
        assert(texts(Seq::<String>::empty()) =~= Seq::<Seq<char>>::empty());
        collector
    }

    /// What is to be done next.
    pub fn action(&self) -> (action: Action)
        ensures
            action@ == action_of(self@),
    {
        match self {
            Collector::Waiting { names, cursor } => Action::Request { cursor: cursor.clone() },
            _ => Action::Finish,
        }
    }

    /// Takes in what the outstanding request came to.
    pub fn step(self, event: Result<Page, GiveawayError>) -> (next: Collector)
        ensures
            next@ == step_of(self@, event_view(event)),
    {
        match self {
            Collector::Waiting { names, cursor } => match event {
                Ok(page) => {
                    let ghost before = texts(names@);
                    let mut names = names;
                    let mut more = page.names;
                    names.append(&mut more);
                    assert(texts(names@) =~= before + page@.names);
                    match page.cursor {
                        Some(c) => {
                            if !c.as_str().is_empty() {
                                Collector::Waiting { names, cursor: Some(c) }
                            } else {
                                Collector::Exhausted { names }
                            }
                        },
                        None => Collector::Exhausted { names },
                    }
                },
                Err(error) => Collector::Failed { error },
            },
            Collector::Exhausted { names } => Collector::Exhausted { names },
            Collector::Failed { error } => Collector::Failed { error },
        }
    }

    /// The names of the source once retrieval has ended, or the failure that
    /// ended it. Nothing while a page is outstanding: no partial list is
    /// handed out.
    pub fn finish(self) -> (r: Option<Result<Vec<String>, GiveawayError>>)
        ensures
            names_view(r) == result_of(self@),
    {
        match self {
            Collector::Waiting { names, cursor } => None,
            Collector::Exhausted { names } => Some(Ok(names)),
            Collector::Failed { error } => Some(Err(error)),
        }
    }
}

} // verus!
