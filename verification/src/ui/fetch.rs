//! The course of a request: what a page shows while it waits for an answer, and
//! once it has one.

use vstd::prelude::*;

use crate::text::opt_text;

verus! {

/// What happens to a request.
pub enum FetchEvent {
    /// It is sent.
    Sent,
    /// The service answered it.
    Answered,
    /// It failed.
    Failed { message: String },
}

/// How far the request of a page has come.
#[derive(Clone, Debug)]
pub struct Fetch {
    /// An answer is awaited.
    pub loading: bool,
    /// The last request was answered or failed.
    pub done: bool,
    /// Why a request failed since the last one was sent.
    pub error: Option<String>,
}

/// What the course of a request stands for.
#[verifier::ext_equal]
pub struct FetchView {
    pub loading: bool,
    pub done: bool,
    pub error: Option<Seq<char>>,
}

/// What an event stands for: that a request is sent, or how it ends.
#[verifier::ext_equal]
pub enum FetchEventView {
    Sent,
    Answered,
    Failed(Seq<char>),
}

impl FetchEvent {
    pub open spec fn view(&self) -> FetchEventView {
        match *self {
            FetchEvent::Sent => FetchEventView::Sent,
            FetchEvent::Answered => FetchEventView::Answered,
            FetchEvent::Failed { message } => FetchEventView::Failed(message@),
        }
    }
}

/// The state after an event. An answer does not take back what failed before it.
pub open spec fn next(f: FetchView, e: FetchEventView) -> FetchView {
    match e {
        FetchEventView::Sent => FetchView { loading: true, done: false, error: None },
        FetchEventView::Answered => FetchView { loading: false, done: true, error: f.error },
        FetchEventView::Failed(m) => FetchView { loading: false, done: true, error: Some(m) },
    }
}

/// What a page shows of its request.
#[derive(Clone, Copy, Debug, PartialEq, Eq, Structural)]
pub enum Stage {
    /// That it waits.
    Waiting,
    /// That nothing was asked yet.
    Unasked,
    /// That nothing was found.
    Nothing,
    /// What was found.
    Found,
}

/// What a page shows, given how many things it has.
pub open spec fn stage_of(f: FetchView, count: nat) -> Stage {
    if f.loading {
        Stage::Waiting
    } else if !f.done {
        Stage::Unasked
    } else if count == 0 {
        Stage::Nothing
    } else {
        Stage::Found
    }
}

impl Fetch {
    pub open spec fn view(&self) -> FetchView {
        FetchView { loading: self.loading, done: self.done, error: opt_text(self.error) }
    }

    /// No request was sent yet. A page that sends one at once waits from the
    /// start.
    pub fn new(waits: bool) -> (f: Fetch)
        ensures
            f@ == (FetchView { loading: waits, done: false, error: None }),
    {
        Fetch { loading: waits, done: false, error: None }
    }

    /// The state after an event.
    pub fn step(&mut self, event: FetchEvent)
        ensures
            final(self)@ == next(old(self)@, event@),
    {
        match event {
            FetchEvent::Sent => {
                self.loading = true;
                self.done = false;
                self.error = None;
            },
            FetchEvent::Answered => {
                self.loading = false;
                self.done = true;
            },
            FetchEvent::Failed { message } => {
                self.loading = false;
                self.done = true;
                self.error = Some(message);
            },
        }
    }

    /// What the page shows, given how many things it has.
    pub fn stage(&self, count: usize) -> (s: Stage)
        ensures
            s == stage_of(self@, count as nat),
    {
        if self.loading {
            Stage::Waiting
        } else if !self.done {
            Stage::Unasked
        } else if count == 0 {
            Stage::Nothing
        } else {
            Stage::Found
        }
    }
}

// ---------------------------------------------------------------------------
// Laws
// ---------------------------------------------------------------------------

/// The state after events, one after the other.
pub open spec fn after(f: FetchView, events: Seq<FetchEventView>) -> FetchView
    decreases events.len(),
{
    if events.len() == 0 {
        f
    } else {
        next(after(f, events.drop_last()), events.last())
    }
}

/// A page waits exactly while the last thing that happened is that a request was
/// sent.
pub proof fn law_waits_for_the_last_request(f: FetchView, events: Seq<FetchEventView>, count: nat)
    requires
        events.len() > 0,
    ensures
        stage_of(after(f, events), count) == Stage::Waiting <==> events.last() is Sent,
        stage_of(after(f, events), count) != Stage::Unasked,
{
}

/// A page reports the last failure since it sent a request, and none where there
/// was none.
pub proof fn law_reports_the_last_failure(f: FetchView, events: Seq<FetchEventView>, sent: int)
    requires
        0 <= sent < events.len(),
        events[sent] is Sent,
        forall|i: int| sent < i < events.len() ==> !((#[trigger] events[i]) is Sent),
    ensures
        match after(f, events).error {
            Some(m) => exists|k: int|
                sent < k < events.len() && #[trigger] events[k] == FetchEventView::Failed(m) && forall|i: int|
                    k < i < events.len() ==> (#[trigger] events[i]) is Answered,
            None => forall|i: int| sent < i < events.len() ==> (#[trigger] events[i]) is Answered,
        },
    decreases events.len(),
{
    let n = events.len() - 1;
    let before = events.drop_last();
    assert(events.last() == events[n]);
    if sent < n {
        assert(before[sent] == events[sent]);
        assert forall|i: int| sent < i < before.len() implies !((#[trigger] before[i]) is Sent) by {
            assert(before[i] == events[i]);
        }
        law_reports_the_last_failure(f, before, sent);
        match events.last() {
            FetchEventView::Failed(m) => {
                assert(events[n] == FetchEventView::Failed(m));
            },
            _ => {
                assert(events[n] is Answered);
                match after(f, before).error {
                    Some(m) => {
                        let k = choose|k: int|
                            sent < k < before.len() && #[trigger] before[k] == FetchEventView::Failed(m) && forall|i: int|
                                k < i < before.len() ==> (#[trigger] before[i]) is Answered;
                        assert(events[k] == before[k]);
                        assert forall|i: int| k < i < events.len() implies (#[trigger] events[i]) is Answered by {
                            if i < n {
                                assert(before[i] == events[i]);
                            }
                        }
                    },
                    None => {
                        assert forall|i: int| sent < i < events.len() implies (#[trigger] events[i]) is Answered by {
                            if i < n {
                                assert(before[i] == events[i]);
                            }
                        }
                    },
                }
            },
        }
    }
}

} // verus!
