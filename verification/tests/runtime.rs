use movie::actor;
use movie::runtime::Action;
use movie::runtime::Actor;
use movie::runtime::Phase;

fn chars(s: &str) -> Vec<char> {
    s.chars().collect()
}

#[derive(Debug, PartialEq, Eq, Clone)]
enum Input {
    Ping,
}

#[derive(Debug, PartialEq, Eq, Clone)]
enum StreamInput {
    ChangeSource(String),
    SendState,
}

#[test]
fn test_simple_actor() {
    // Create and spawn the actor
    let mut actor = Actor::new(100).start::<Input>();

    actor.send(Input::Ping);
    let log = actor.stop(); // Will block, waiting for actor.

    assert_eq!(
        vec![
            Action::RunInit,
            Action::Deliver(Input::Ping),
            Action::RunStop,
        ],
        log
    );
}

#[test]
fn test_stream_parsing_actor() {
    let spec = chars(
        "StreamParsingActor input: ChangeSource(String), SendState, input_derive: Debug, PartialEq, data: pub device: String, on_message: SendState => (), tick_interval: 5, on_tick: lines_parsed += 1;",
    );
    let def = actor(&spec).unwrap();
    assert_eq!(5, def.tick_interval);

    let mut h = Actor::from_definition(&def).start::<StreamInput>();
    let mut lines_parsed: u64 = 0;

    // let on_init run
    for a in h.step() {
        assert_eq!(Action::RunInit, a);
    }

    // 100ms of simulated time: one iteration per 5ms tick interval
    let mut slept: u64 = 0;
    while slept < 100 {
        for a in h.step() {
            match a {
                Action::RunTick => lines_parsed += 1,
                Action::Sleep(ms) => slept += ms,
                _ => panic!("unexpected action"),
            }
        }
    }

    h.send(StreamInput::SendState);
    let iteration = h.step();
    // the query message is answered before the tick of the same iteration
    let reported = match &iteration[0] {
        Action::Deliver(StreamInput::SendState) => lines_parsed,
        other => panic!("expected the delivery first, got {:?}", other),
    };
    println!("Ticked {} times in 100ms", reported); // 20

    assert_eq!(20, reported);
    h.stop();
}

#[test]
fn test_two_sends_then_stop() {
    let mut h = Actor::new(100).start::<Input>();
    h.send(Input::Ping);
    h.send(Input::Ping);
    let log = h.stop();
    // both messages are processed, in send order, before on_stop runs,
    // and stop does not return before the actor has fully terminated
    assert_eq!(
        vec![
            Action::RunInit,
            Action::Deliver(Input::Ping),
            Action::Deliver(Input::Ping),
            Action::RunStop,
        ],
        log
    );
}

#[test]
fn test_send_then_stop_delivers_before_on_stop() {
    let mut h = Actor::new(100).start::<StreamInput>();
    for a in h.step() {
        assert_eq!(Action::RunInit, a);
    }
    h.send(StreamInput::ChangeSource(String::from("video1")));
    let log = h.stop();
    let deliver_at = log
        .iter()
        .position(|a| matches!(a, Action::Deliver(_)))
        .unwrap();
    let stop_at = log.iter().position(|a| matches!(a, Action::RunStop)).unwrap();
    assert!(deliver_at < stop_at);
    assert_eq!(
        vec![
            Action::Deliver(StreamInput::ChangeSource(String::from("video1"))),
            Action::RunStop,
        ],
        log
    );
}

#[test]
fn test_messages_precede_tick_in_one_iteration() {
    let mut h = Actor::new(7).start::<Input>();
    h.step();
    h.send(Input::Ping);
    h.send(Input::Ping);
    let actions = h.step();
    assert_eq!(
        vec![
            Action::Deliver(Input::Ping),
            Action::Deliver(Input::Ping),
            Action::RunTick,
            Action::Sleep(7),
        ],
        actions
    );
}

#[test]
fn test_stop_request_skips_tick() {
    let mut h = Actor::new(100).start::<Input>();
    h.step();
    h.send(Input::Ping);
    h.request_stop();
    let drained = h.step();
    // the pending stop suppresses the tick of the same iteration
    assert_eq!(vec![Action::Deliver(Input::Ping)], drained);
    assert_eq!(Phase::Stopping, h.current_phase());
    let stopped = h.step();
    assert_eq!(vec![Action::RunStop], stopped);
    assert_eq!(Phase::Terminated, h.current_phase());
}

#[test]
fn test_phases_in_order() {
    let mut h = Actor::new(100).start::<Input>();
    assert_eq!(Phase::Initializing, h.current_phase());
    let init = h.step();
    assert_eq!(vec![Action::RunInit], init);
    assert_eq!(Phase::Looping, h.current_phase());
    let idle = h.step();
    assert_eq!(vec![Action::RunTick, Action::Sleep(100)], idle);
    assert_eq!(Phase::Looping, h.current_phase());
}

#[test]
fn test_terminated_actor_does_nothing() {
    let mut h = Actor::new(100).start::<Input>();
    h.request_stop();
    h.step(); // init
    h.step(); // drain (empty), stop polled
    h.step(); // on_stop
    assert_eq!(Phase::Terminated, h.current_phase());
    // sends still succeed, but nothing is ever collected
    h.send(Input::Ping);
    assert_eq!(Vec::<Action<Input>>::new(), h.step());
    assert_eq!(Phase::Terminated, h.current_phase());
}

#[test]
fn test_stop_on_fresh_handle_runs_init_first() {
    let h = Actor::new(42).start::<Input>();
    let log = h.stop();
    assert_eq!(vec![Action::RunInit, Action::RunStop], log);
}
