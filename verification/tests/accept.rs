use kirc_server::accept::{on_join, Acceptor, Action, Ending, Event, TaskEnd};
use kirc_server::message::task_failed_message;

#[test]
fn clients_are_numbered_from_one() {
    let mut acceptor = Acceptor::new();

    assert!(matches!(acceptor.decide(Event::Accepted), Action::Serve(1)));
    assert!(matches!(acceptor.decide(Event::Accepted), Action::Serve(2)));
    assert!(matches!(
        acceptor.decide(Event::ShutdownChanged { requested: false }),
        Action::Continue
    ));
    assert!(matches!(acceptor.decide(Event::Accepted), Action::Serve(3)));
    assert_eq!(acceptor.next_client_id, 4);
}

#[test]
fn shutdown_request_stops_the_loop() {
    let mut acceptor = Acceptor::new();

    assert!(matches!(
        acceptor.decide(Event::ShutdownChanged { requested: true }),
        Action::Stop
    ));
    assert_eq!(acceptor.next_client_id, 1);
}

#[test]
fn errors_end_the_loop() {
    let mut acceptor = Acceptor::new();

    assert!(matches!(acceptor.decide(Event::AcceptFailed), Action::Fail));
    assert!(matches!(acceptor.decide(Event::ShutdownLost), Action::Fail));
}

#[test]
fn task_failure_names_the_error() {
    assert_eq!(task_failed_message("panic"), "Client task failed: panic");
}

/// Waits for tasks that end in these ways; returns the ending and how many were waited for.
fn wait_for(ends: Vec<TaskEnd>) -> (Ending, usize) {
    let mut tasks = ends.into_iter();
    let mut error = None;
    let mut waits = 0;

    loop {
        match on_join(tasks.len(), error) {
            Ending::Wait => {
                error = tasks.next().unwrap().join_error();
                waits += 1;
            }
            ending => return (ending, waits),
        }
    }
}

#[test]
fn joining_decides_on_error_and_rest() {
    assert!(matches!(on_join(0, None), Ending::Done));
    assert!(matches!(on_join(2, None), Ending::Wait));
    assert!(
        matches!(on_join(2, Some("panic".to_string())), Ending::Fail(message) if message == "Client task failed: panic")
    );
    assert!(
        matches!(on_join(0, Some("panic".to_string())), Ending::Fail(message) if message == "Client task failed: panic")
    );
}

#[test]
fn the_end_waits_for_every_task() {
    assert!(matches!(wait_for(vec![]), (Ending::Done, 0)));
    assert!(matches!(
        wait_for(vec![
            TaskEnd::Served,
            TaskEnd::ClientFailed("reset".to_string()),
            TaskEnd::Served,
        ]),
        (Ending::Done, 3)
    ));
}

#[test]
fn the_first_join_error_is_reported() {
    let (ending, waits) = wait_for(vec![
        TaskEnd::ClientFailed("reset".to_string()),
        TaskEnd::JoinFailed("first".to_string()),
        TaskEnd::JoinFailed("second".to_string()),
    ]);

    assert!(matches!(ending, Ending::Fail(message) if message == "Client task failed: first"));
    assert_eq!(waits, 2);
}

#[test]
fn the_first_last_event_decides() {
    let mut acceptor = Acceptor::new();
    let mut actions = Vec::new();

    for event in [
        Event::Accepted,
        Event::ShutdownChanged { requested: false },
        Event::AcceptFailed,
        Event::ShutdownChanged { requested: true },
    ] {
        let action = acceptor.decide(event);
        let ends = matches!(action, Action::Stop | Action::Fail);
        actions.push(action);
        if ends {
            break;
        }
    }

    assert_eq!(actions.len(), 3);
    assert!(matches!(actions[2], Action::Fail));
}
