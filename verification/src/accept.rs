//! The decisions of the loop that accepts connections, and of the wait for the clients that
//! follows it.

use vstd::prelude::*;

use crate::client::ClientId;
use crate::message::{task_failed, task_failed_message};
use crate::text::string_of;

verus! {

/// What the loop has waited for.
pub enum Event {
    /// A client has connected.
    Accepted,
    /// No further client can be accepted.
    AcceptFailed,
    /// The request to shut down was changed.
    ShutdownChanged { requested: bool },
    /// Nobody can request a shutdown any more.
    ShutdownLost,
}

/// What the loop does next.
pub enum Action {
    /// Serve the new client under this number, and go on.
    Serve(ClientId),
    /// Go on.
    Continue,
    /// End, and wait for the clients.
    Stop,
    /// End with the error.
    Fail,
}

/// The clients are numbered in the order in which they connect.
pub struct Acceptor {
    pub next_client_id: ClientId,
}

/// The action on an event, where `next` is the number of the next client.
pub open spec fn action_on(next: ClientId, event: Event) -> Action {
    match event {
        Event::Accepted => Action::Serve(next),
        Event::AcceptFailed => Action::Fail,
        Event::ShutdownChanged { requested } => if requested {
            Action::Stop
        } else {
            Action::Continue
        },
        Event::ShutdownLost => Action::Fail,
    }
}

/// The number of the next client after an event.
pub open spec fn next_after(next: ClientId, event: Event) -> int {
    if event is Accepted {
        next + 1
    } else {
        next as int
    }
}

impl Acceptor {
    /// The first client has the number 1.
    pub fn new() -> (acceptor: Self)
        ensures
            acceptor.next_client_id == 1,
    {
        Self { next_client_id: 1 }
    }

    /// Decides on an event.
    pub fn decide(&mut self, event: Event) -> (action: Action)
        requires
            event is Accepted ==> old(self).next_client_id < ClientId::MAX,
        ensures
            action == action_on(old(self).next_client_id, event),
            final(self).next_client_id == next_after(old(self).next_client_id, event),
            event is Accepted ==> action == Action::Serve(old(self).next_client_id)
                && final(self).next_client_id == old(self).next_client_id + 1,
            !(event is Accepted) ==> final(self).next_client_id == old(self).next_client_id,
            event is AcceptFailed || event is ShutdownLost ==> action is Fail,
            event matches Event::ShutdownChanged { requested } ==> (if requested {
                action is Stop
            } else {
                action is Continue
            }),
    {
        match event {
            Event::Accepted => {
                let client_id: ClientId = self.next_client_id;
                self.next_client_id = client_id + 1;
                Action::Serve(client_id)
            },
            Event::AcceptFailed => Action::Fail,
            Event::ShutdownChanged { requested } => {
                if requested {
                    Action::Stop
                } else {
                    Action::Continue
                }
            },
            Event::ShutdownLost => Action::Fail,
        }
    }
}

/// The numbers that the loop gives out on a run of events that starts with `next`.
pub open spec fn served(next: ClientId, events: Seq<Event>) -> Seq<ClientId>
    decreases events.len(),
{
    if events.len() == 0 {
        Seq::empty()
    } else {
        match action_on(next, events[0]) {
            Action::Serve(id) => seq![id] + served(
                next_after(next, events[0]) as ClientId,
                events.drop_first(),
            ),
            Action::Continue => served(next, events.drop_first()),
            Action::Stop => Seq::empty(),
            Action::Fail => Seq::empty(),
        }
    }
}

/// Whether the loop ends on an event.
pub open spec fn is_last(event: Event) -> bool {
    !(event is Accepted) && !(event matches Event::ShutdownChanged { requested: false })
}

/// How many clients connect before the loop ends.
pub open spec fn accepted(events: Seq<Event>) -> nat
    decreases events.len(),
{
    if events.len() == 0 || is_last(events[0]) {
        0
    } else if events[0] is Accepted {
        1 + accepted(events.drop_first())
    } else {
        accepted(events.drop_first())
    }
}

/// The clients get consecutive numbers, so that no two have the same.
pub proof fn law_numbers_are_consecutive(next: ClientId, events: Seq<Event>)
    requires
        next + accepted(events) <= ClientId::MAX,
    ensures
        served(next, events).len() == accepted(events),
        forall|i: int| 0 <= i < served(next, events).len() ==> #[trigger] served(next, events)[i]
            == next + i,
        served(next, events).no_duplicates(),
    decreases events.len(),
{
    if events.len() > 0 {
        let rest = events.drop_first();
        match action_on(next, events[0]) {
            Action::Serve(id) => {
                law_numbers_are_consecutive((next + 1) as ClientId, rest);
                let later = served((next + 1) as ClientId, rest);
                let all = served(next, events);
                assert(all =~= seq![id] + later);
                assert forall|i: int| 0 <= i < all.len() implies #[trigger] all[i] == next + i by {
                    if i > 0 {
                        assert(all[i] == later[i - 1]);
                    }
                }
            },
            Action::Continue => {
                law_numbers_are_consecutive(next, rest);
            },
            _ => {},
        }
    }
}

/// Nobody is served once a shutdown was requested, or an error has ended the loop.
pub proof fn law_nobody_is_served_after_the_end(
    next: ClientId,
    before: Seq<Event>,
    last: Event,
    after: Seq<Event>,
)
    requires
        is_last(last),
    ensures
        served(next, before.push(last) + after) == served(next, before),
    decreases before.len(),
{
    let all = before.push(last) + after;
    if before.len() > 0 {
        assert(all[0] == before[0]);
        assert(all.drop_first() =~= before.drop_first().push(last) + after);
        law_nobody_is_served_after_the_end(
            next_after(next, before[0]) as ClientId,
            before.drop_first(),
            last,
            after,
        );
    }
}

/// The action with which the loop ends on a run of events, where it ends on one of them.
pub open spec fn end_of(next: ClientId, events: Seq<Event>) -> Option<Action>
    decreases events.len(),
{
    if events.len() == 0 {
        None
    } else {
        match action_on(next, events[0]) {
            Action::Serve(_) => end_of(
                next_after(next, events[0]) as ClientId,
                events.drop_first(),
            ),
            Action::Continue => end_of(next, events.drop_first()),
            action => Some(action),
        }
    }
}

/// Whether the event at `i` is the first on which the loop ends.
pub open spec fn ends_at(events: Seq<Event>, i: int) -> bool {
    &&& 0 <= i < events.len()
    &&& is_last(events[i])
    &&& forall|j: int| 0 <= j < i ==> !is_last(#[trigger] events[j])
}

/// The first event on which the loop can end decides how it ends: it stops on a request to shut
/// down and fails on an error. Without such an event it goes on.
pub proof fn law_first_last_event_decides(next: ClientId, events: Seq<Event>)
    ensures
        end_of(next, events) == Some(Action::Stop) <==> exists|i: int| #[trigger]
            ends_at(events, i) && events[i] == (Event::ShutdownChanged { requested: true }),
        end_of(next, events) == Some(Action::Fail) <==> exists|i: int| #[trigger]
            ends_at(events, i) && (events[i] is AcceptFailed || events[i] is ShutdownLost),
        end_of(next, events) is None <==> forall|i: int|
            0 <= i < events.len() ==> !is_last(#[trigger] events[i]),
    decreases events.len(),
{
    if events.len() > 0 {
        let rest = events.drop_first();
        if is_last(events[0]) {
            assert(ends_at(events, 0));
            assert forall|i: int| #[trigger] ends_at(events, i) implies i == 0 by {}
        } else {
            law_first_last_event_decides(next_after(next, events[0]) as ClientId, rest);
            assert forall|i: int| #[trigger] ends_at(rest, i) implies ends_at(events, i + 1)
                && events[i + 1] == rest[i] by {
                assert forall|j: int| 0 <= j < i + 1 implies !is_last(#[trigger] events[j]) by {
                    if j > 0 {
                        assert(!is_last(rest[j - 1]));
                    }
                }
            }
            assert forall|i: int| #[trigger] ends_at(events, i) implies ends_at(rest, i - 1)
                && rest[i - 1] == events[i] by {
                assert forall|j: int| 0 <= j < i - 1 implies !is_last(#[trigger] rest[j]) by {
                    assert(!is_last(events[j + 1]));
                }
            }
            if forall|i: int| 0 <= i < rest.len() ==> !is_last(#[trigger] rest[i]) {
                assert forall|i: int| 0 <= i < events.len() implies !is_last(
                    #[trigger] events[i],
                ) by {
                    if i > 0 {
                        assert(!is_last(rest[i - 1]));
                    }
                }
            }
            if forall|i: int| 0 <= i < events.len() ==> !is_last(#[trigger] events[i]) {
                assert forall|i: int| 0 <= i < rest.len() implies !is_last(#[trigger] rest[i]) by {
                    assert(!is_last(events[i + 1]));
                }
            }
        }
    }
}

/// How the task of a client has ended.
pub enum TaskEnd {
    /// The client was served until it was gone.
    Served,
    /// Serving the client has failed, which concerns this client alone; it holds the error.
    ClientFailed(String),
    /// The task itself has broken off; it holds the error.
    JoinFailed(String),
}

/// The error that the end of a task is for the server.
pub open spec fn join_error_of(end: TaskEnd) -> Option<Seq<char>> {
    match end {
        TaskEnd::JoinFailed(error) => Some(error@),
        _ => None,
    }
}

impl TaskEnd {
    /// The error that this end is for the server. The error of a client is none.
    pub fn join_error(self) -> (error: Option<String>)
        ensures
            string_of(error) == join_error_of(self),
            self matches TaskEnd::JoinFailed(text) ==> (error matches Some(given) && given@
                == text@),
            !(self is JoinFailed) ==> error is None,
    {
        match self {
            TaskEnd::JoinFailed(error) => Some(error),
            _ => None,
        }
    }
}

/// How the server goes on while it waits for its clients.
#[derive(Debug)]
pub enum Ending {
    /// Wait for the next task.
    Wait,
    /// End well.
    Done,
    /// End with this error.
    Fail(String),
}

/// An [`Ending`] with its text as a sequence of characters.
pub enum EndingView {
    Wait,
    Done,
    Fail(Seq<char>),
}

impl View for Ending {
    type V = EndingView;

    open spec fn view(&self) -> EndingView {
        match *self {
            Ending::Wait => EndingView::Wait,
            Ending::Done => EndingView::Done,
            Ending::Fail(message) => EndingView::Fail(message@),
        }
    }
}

/// How the server goes on when a task has ended with `error` and `left` tasks remain.
pub open spec fn ending_on(left: nat, error: Option<Seq<char>>) -> EndingView {
    match error {
        Some(text) => EndingView::Fail(task_failed(text)),
        None => if left == 0 {
            EndingView::Done
        } else {
            EndingView::Wait
        },
    }
}

/// Decides how to go on when a task has ended and `left` tasks remain. At the start, when no task
/// has ended yet, there is no error.
pub fn on_join(left: usize, error: Option<String>) -> (ending: Ending)
    ensures
        ending@ == ending_on(left as nat, string_of(error)),
        error matches Some(text) ==> (ending matches Ending::Fail(message) && message@
            == task_failed(text@)),
        error is None && left == 0 ==> ending is Done,
        error is None && left > 0 ==> ending is Wait,
{
    match error {
        Some(text) => Ending::Fail(task_failed_message(text.as_str())),
        None => {
            if left == 0 {
                Ending::Done
            } else {
                Ending::Wait
            }
        },
    }
}

/// How the wait ends, where `error` is that of the last task and `later` are the errors of those
/// that remain, in the order in which the clients were accepted.
pub open spec fn wait_from(error: Option<Seq<char>>, later: Seq<Option<Seq<char>>>) -> EndingView
    decreases later.len(),
{
    match ending_on(later.len(), error) {
        EndingView::Wait => if later.len() > 0 {
            wait_from(later[0], later.drop_first())
        } else {
            EndingView::Wait
        },
        ending => ending,
    }
}

/// How many of the remaining tasks the server waits for.
pub open spec fn waits_from(error: Option<Seq<char>>, later: Seq<Option<Seq<char>>>) -> nat
    decreases later.len(),
{
    if ending_on(later.len(), error) is Wait && later.len() > 0 {
        1 + waits_from(later[0], later.drop_first())
    } else {
        0
    }
}

/// The errors that the ends of the tasks are for the server.
pub open spec fn join_errors_of(ends: Seq<TaskEnd>) -> Seq<Option<Seq<char>>> {
    ends.map_values(|end: TaskEnd| join_error_of(end))
}

/// How many tasks the server waits for, where they end in these ways.
pub open spec fn waits_of(ends: Seq<TaskEnd>) -> nat {
    waits_from(None, join_errors_of(ends))
}

/// How the server ends, where its tasks end in these ways.
pub open spec fn ending_of(ends: Seq<TaskEnd>) -> EndingView {
    wait_from(None, join_errors_of(ends))
}

/// The server ends well exactly where no task has broken off, whatever errors its clients had, and
/// only after it has waited for every task; else it ends with the error of the first task, in the
/// order of acceptance, that has broken off.
pub proof fn law_first_join_error_is_reported(ends: Seq<TaskEnd>)
    ensures
        !(ending_of(ends) is Wait),
        ending_of(ends) is Done ==> waits_of(ends) == ends.len(),
        ending_of(ends) is Done <==> (forall|i: int|
            0 <= i < ends.len() ==> !(#[trigger] ends[i] is JoinFailed)),
        forall|i: int|
            0 <= i < ends.len() && #[trigger] ends[i] is JoinFailed && (forall|j: int|
                0 <= j < i ==> !(#[trigger] ends[j] is JoinFailed)) ==> ending_of(ends)
                == EndingView::Fail(task_failed(ends[i]->JoinFailed_0@)),
{
    let errors = join_errors_of(ends);
    assert forall|i: int| 0 <= i < ends.len() implies (#[trigger] errors[i] is Some
        <==> ends[i] is JoinFailed) by {}
    lemma_wait(None, errors);
    assert forall|i: int|
        0 <= i < ends.len() && #[trigger] ends[i] is JoinFailed && (forall|j: int|
            0 <= j < i ==> !(#[trigger] ends[j] is JoinFailed)) implies ending_of(ends)
        == EndingView::Fail(task_failed(ends[i]->JoinFailed_0@)) by {
        assert(errors[i] is Some);
        assert forall|j: int| 0 <= j < i implies #[trigger] errors[j] is None by {
            assert(!(ends[j] is JoinFailed));
        }
    }
    if ending_of(ends) is Done {
        assert forall|i: int| 0 <= i < ends.len() implies !(#[trigger] ends[i] is JoinFailed) by {
            assert(errors[i] is None);
        }
    }
    if forall|i: int| 0 <= i < ends.len() ==> !(#[trigger] ends[i] is JoinFailed) {
        assert forall|i: int| 0 <= i < errors.len() implies #[trigger] errors[i] is None by {
            assert(!(ends[i] is JoinFailed));
        }
    }
}

proof fn lemma_wait(error: Option<Seq<char>>, later: Seq<Option<Seq<char>>>)
    ensures
        !(wait_from(error, later) is Wait),
        wait_from(error, later) is Done ==> waits_from(error, later) == later.len(),
        error matches Some(text) ==> wait_from(error, later) == EndingView::Fail(
            task_failed(text),
        ),
        wait_from(error, later) is Done <==> error is None && (forall|i: int|
            0 <= i < later.len() ==> #[trigger] later[i] is None),
        error is None ==> forall|i: int|
            0 <= i < later.len() && #[trigger] later[i] is Some && (forall|j: int|
                0 <= j < i ==> #[trigger] later[j] is None) ==> wait_from(error, later)
                == EndingView::Fail(task_failed(later[i]->0)),
    decreases later.len(),
{
    if error is None && later.len() > 0 {
        let rest = later.drop_first();
        lemma_wait(later[0], rest);
        if wait_from(error, later) is Done {
            assert forall|i: int| 0 <= i < later.len() implies #[trigger] later[i] is None by {
                if i > 0 {
                    assert(rest[i - 1] is None);
                }
            }
        }
        if forall|i: int| 0 <= i < later.len() ==> #[trigger] later[i] is None {
            assert forall|i: int| 0 <= i < rest.len() implies #[trigger] rest[i] is None by {
                assert(later[i + 1] is None);
            }
        }
        assert forall|i: int|
            0 <= i < later.len() && #[trigger] later[i] is Some && (forall|j: int|
                0 <= j < i ==> #[trigger] later[j] is None) implies wait_from(error, later)
            == EndingView::Fail(task_failed(later[i]->0)) by {
            if i > 0 {
                assert(later[0] is None);
                assert(rest[i - 1] is Some);
                assert forall|j: int| 0 <= j < i - 1 implies #[trigger] rest[j] is None by {
                    assert(later[j + 1] is None);
                }
            }
        }
    }
}

} // verus!
