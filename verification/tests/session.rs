use cxxrtl_debug::codec::FramingError;
use cxxrtl_debug::design::{Attributes, Design, Item, ItemEntry, ScopeKind};
use cxxrtl_debug::message::{Command, EventKind, Request, ValueEncoding};
use cxxrtl_debug::session::{
    Action, ErrorKind, Phase, Reply, Response, Session, SimStatus, Simulation, PROTOCOL_VERSION,
};

const GREETING: &str = "{\"type\":\"greeting\",\"version\":0}";
const LIST_SCOPES: &str = "{\"type\":\"command\",\"command\":\"list_scopes\"}";
const STATUS: &str = "{\"type\":\"command\",\"command\":\"get_simulation_status\"}";
const PAUSE: &str = "{\"type\":\"command\",\"command\":\"pause_simulation\"}";
const RUN: &str = "{\"type\":\"command\",\"command\":\"run_simulation\"}";

fn active() -> Session {
    Session { phase: Phase::Active, peer_version: 0 }
}

fn is_error(reply: &Reply, wanted: ErrorKind) -> bool {
    match &reply.response {
        Response::Error { kind } => *kind == wanted && reply.event.is_none(),
        _ => false,
    }
}

fn summary(reply: &Reply) -> String {
    match &reply.response {
        Response::Greeting(g) => format!("greeting {}", g.version),
        Response::ListScopes { scopes } => format!("scopes {}", scopes.len()),
        Response::ListItems { items } => format!("items {}", items.len()),
        Response::SimulationStatus { status, latest_time } => {
            format!("status {:?} {}", status, latest_time)
        }
        Response::RunSimulation => String::from("run"),
        Response::PauseSimulation => String::from("pause"),
        Response::UnsupportedCommand { command } => format!("unsupported {}", command),
        Response::Error { kind } => format!("error {:?}", kind),
    }
}

#[test]
fn a_greeting_is_answered_with_the_servers_greeting() {
    let mut session = Session::new();
    let mut sim = Simulation::new();
    let design = Design::new();
    let reply = session.handle_message(&mut sim, &design, GREETING).unwrap();
    match &reply.response {
        Response::Greeting(g) => {
            assert_eq!(g.version, 0);
            assert_eq!(g.version, PROTOCOL_VERSION);
            assert!(g.commands.contains(&Command::ListScopes));
            assert!(g.commands.contains(&Command::ListItems));
            assert!(g.commands.contains(&Command::GetSimulationStatus));
            assert_eq!(
                g.commands,
                vec![
                    Command::ListScopes,
                    Command::ListItems,
                    Command::ReferenceItems,
                    Command::QueryInterval,
                    Command::GetSimulationStatus,
                    Command::RunSimulation,
                    Command::PauseSimulation,
                ]
            );
            assert_eq!(
                g.events,
                vec![EventKind::SimulationPaused, EventKind::SimulationFinished]
            );
            assert_eq!(g.item_values_encoding, vec![ValueEncoding::Base64U32]);
        }
        _ => panic!("no greeting"),
    }
    assert!(reply.event.is_none());
    assert_eq!(reply.action, Action::Nothing);
    assert_eq!(session.phase, Phase::Active);
}

#[test]
fn a_greeting_records_the_version_of_the_peer() {
    let mut session = Session::new();
    let mut sim = Simulation::new();
    let design = Design::new();
    let reply = session.dispatch(&mut sim, &design, &Request::Greeting { version: 3 }).unwrap();
    assert_eq!(summary(&reply), "greeting 0");
    assert_eq!(session.phase, Phase::Active);
    assert_eq!(session.peer_version, 3);
    let reply = session.dispatch(&mut sim, &design, &Request::Greeting { version: 9 }).unwrap();
    assert_eq!(summary(&reply), "greeting 0");
    assert_eq!(session.phase, Phase::Active);
    assert_eq!(session.peer_version, 9);
}

#[test]
fn list_scopes_on_an_empty_design_gives_the_root() {
    let mut session = active();
    let mut sim = Simulation::new();
    let design = Design::new();
    let reply = session.handle_message(&mut sim, &design, LIST_SCOPES).unwrap();
    match &reply.response {
        Response::ListScopes { scopes } => {
            assert_eq!(scopes.len(), 1);
            assert_eq!(scopes[0].path, "");
            assert_eq!(scopes[0].scope.kind, ScopeKind::Module);
        }
        _ => panic!("no scopes"),
    }
}

#[test]
fn the_status_before_the_start_is_paused_at_zero() {
    let mut session = active();
    let mut sim = Simulation::new();
    let design = Design::new();
    let reply = session.handle_message(&mut sim, &design, STATUS).unwrap();
    match &reply.response {
        Response::SimulationStatus { status, latest_time } => {
            assert_eq!(*status, SimStatus::Paused);
            assert_eq!(latest_time, "0.000000000000000");
        }
        _ => panic!("no status"),
    }
}

#[test]
fn the_status_is_that_of_the_moment() {
    let mut session = active();
    let mut sim = Simulation { status: SimStatus::Running, time: 125_000_000_000_000 };
    let design = Design::new();
    let reply = session.handle_message(&mut sim, &design, STATUS).unwrap();
    assert_eq!(summary(&reply), "status Running 0.125000000000000");
    sim = Simulation { status: SimStatus::Finished, time: 2_000_000_000_000_000 };
    let reply = session.handle_message(&mut sim, &design, STATUS).unwrap();
    assert_eq!(summary(&reply), "status Finished 2.000000000000000");
}

#[test]
fn a_command_before_the_greeting_is_a_sequencing_error() {
    let design = Design::new();
    for text in [LIST_SCOPES, STATUS, PAUSE, RUN, "{\"type\":\"command\",\"command\":\"nop\"}"] {
        let mut session = Session::new();
        let mut sim = Simulation { status: SimStatus::Running, time: 5 };
        let reply = session.handle_message(&mut sim, &design, text).unwrap();
        assert!(is_error(&reply, ErrorKind::Sequencing));
        assert_eq!(reply.action, Action::Nothing);
        assert_eq!(session.phase, Phase::AwaitingGreeting);
        assert_eq!(sim, Simulation { status: SimStatus::Running, time: 5 });
    }
}

#[test]
fn pausing_twice_sends_one_event() {
    let mut session = active();
    let mut sim = Simulation { status: SimStatus::Running, time: 1_500_000_000_000_000 };
    let design = Design::new();
    let first = session.handle_message(&mut sim, &design, PAUSE).unwrap();
    assert!(matches!(first.response, Response::PauseSimulation));
    let event = first.event.expect("the pause event");
    assert_eq!(event.kind, EventKind::SimulationPaused);
    assert_eq!(event.time, "1.500000000000000");
    assert_eq!(first.action, Action::Pause);
    assert_eq!(sim.status, SimStatus::Paused);
    let second = session.handle_message(&mut sim, &design, PAUSE).unwrap();
    assert!(matches!(second.response, Response::PauseSimulation));
    assert!(second.event.is_none());
    assert_eq!(second.action, Action::Nothing);
    assert_eq!(sim.status, SimStatus::Paused);
}

#[test]
fn running_starts_a_paused_simulation_once() {
    let mut session = active();
    let mut sim = Simulation::new();
    let design = Design::new();
    let first = session.handle_message(&mut sim, &design, RUN).unwrap();
    assert!(matches!(first.response, Response::RunSimulation));
    assert!(first.event.is_none());
    assert_eq!(first.action, Action::Run);
    assert_eq!(sim.status, SimStatus::Running);
    let second = session.handle_message(&mut sim, &design, RUN).unwrap();
    assert!(matches!(second.response, Response::RunSimulation));
    assert_eq!(second.action, Action::Nothing);
    assert_eq!(sim.status, SimStatus::Running);
    sim = Simulation { status: SimStatus::Finished, time: 9 };
    let third = session.handle_message(&mut sim, &design, RUN).unwrap();
    assert!(matches!(third.response, Response::RunSimulation));
    assert_eq!(third.action, Action::Nothing);
    assert_eq!(sim, Simulation { status: SimStatus::Finished, time: 9 });
}

#[test]
fn a_stop_of_the_simulator_is_told_once() {
    let mut sim = Simulation { status: SimStatus::Running, time: 0 };
    let event = sim.stopped(3_000_000_000_000_007, false).expect("the event");
    assert_eq!(event.kind, EventKind::SimulationPaused);
    assert_eq!(event.time, "3.000000000000007");
    assert_eq!(sim, Simulation { status: SimStatus::Paused, time: 3_000_000_000_000_007 });
    assert!(sim.stopped(4_000_000_000_000_000, false).is_none());
    assert_eq!(sim, Simulation { status: SimStatus::Paused, time: 3_000_000_000_000_007 });

    let mut sim = Simulation { status: SimStatus::Running, time: 0 };
    let event = sim.stopped(10, true).expect("the event");
    assert_eq!(event.kind, EventKind::SimulationFinished);
    assert_eq!(event.time, "0.000000000000010");
    assert_eq!(sim.status, SimStatus::Finished);
    assert!(sim.stopped(11, true).is_none());
}

#[test]
fn commands_without_a_handler_are_unsupported() {
    let mut session = active();
    let mut sim = Simulation::new();
    let design = Design::new();
    for name in ["reference_items", "query_interval", "reset_design", ""] {
        let text = format!("{{\"type\":\"command\",\"command\":\"{}\"}}", name);
        let reply = session.handle_message(&mut sim, &design, &text).unwrap();
        match &reply.response {
            Response::UnsupportedCommand { command } => assert_eq!(command, name),
            _ => panic!("not refused as unsupported"),
        }
        assert!(reply.event.is_none());
        assert_eq!(reply.action, Action::Nothing);
        assert_eq!(session.phase, Phase::Active);
    }
}

#[test]
fn what_is_no_request_is_answered_and_changes_nothing() {
    let design = Design::new();
    for phase in [Phase::AwaitingGreeting, Phase::Active] {
        let mut session = Session { phase, peer_version: 2 };
        let mut sim = Simulation::new();
        let reply = session.handle_message(&mut sim, &design, "{\"type\":").unwrap();
        assert!(is_error(&reply, ErrorKind::Decode));
        let reply = session.handle_message(&mut sim, &design, "{\"type\":\"event\"}").unwrap();
        assert!(is_error(&reply, ErrorKind::Decode));
        let reply = session
            .handle_frame(&mut sim, &design, &Err(FramingError::InvalidUtf8))
            .unwrap();
        assert!(is_error(&reply, ErrorKind::Framing));
        assert_eq!(session, Session { phase, peer_version: 2 });
    }
}

#[test]
fn a_closed_session_answers_nothing() {
    let mut session = active();
    session.close();
    assert_eq!(session.phase, Phase::Closed);
    let mut sim = Simulation { status: SimStatus::Running, time: 1 };
    let design = Design::new();
    assert!(session.handle_message(&mut sim, &design, GREETING).is_none());
    assert!(session.handle_message(&mut sim, &design, PAUSE).is_none());
    assert!(session.handle_message(&mut sim, &design, "junk").is_none());
    assert!(session.handle_frame(&mut sim, &design, &Err(FramingError::InvalidUtf8)).is_none());
    assert!(session
        .dispatch(&mut sim, &design, &Request::Greeting { version: 0 })
        .is_none());
    assert_eq!(session.phase, Phase::Closed);
    assert_eq!(sim, Simulation { status: SimStatus::Running, time: 1 });
    let mut buffer = Vec::new();
    let replies = session.receive(&mut sim, &design, &mut buffer, b"{}\0{}\0rest");
    assert!(replies.is_empty());
    assert_eq!(buffer, b"rest".to_vec());
}

#[test]
fn list_items_gives_the_items_of_the_scope() {
    let mut design = Design::new();
    let clk = ItemEntry {
        scope: String::from("top"),
        name: String::from("clk"),
        item: Item::Node {
            src: String::from("top.v:1"),
            width: 1,
            lsb_at: 0,
            settable: false,
            input: true,
            output: false,
            attributes: Attributes::new(),
        },
    };
    assert!(design.insert_item(clk).is_ok());
    let mut session = active();
    let mut sim = Simulation::new();
    let text = "{\"type\":\"command\",\"command\":\"list_items\",\"scope\":\"top\"}";
    let reply = session.handle_message(&mut sim, &design, text).unwrap();
    match &reply.response {
        Response::ListItems { items } => {
            assert_eq!(items.len(), 1);
            assert_eq!(items[0].name, "clk");
        }
        _ => panic!("no items"),
    }
    let text = "{\"type\":\"command\",\"command\":\"list_items\"}";
    let reply = session.handle_message(&mut sim, &design, text).unwrap();
    assert_eq!(summary(&reply), "items 0");
    let text = "{\"type\":\"command\",\"command\":\"list_items\",\"scope\":\"nowhere\"}";
    let reply = session.handle_message(&mut sim, &design, text).unwrap();
    assert_eq!(summary(&reply), "items 0");
}

#[test]
fn a_frame_cut_in_two_is_dispatched_once_after_both_reads() {
    let mut session = Session::new();
    let mut sim = Simulation::new();
    let design = Design::new();
    let mut buffer = Vec::new();
    let wire = format!("{}\0", GREETING).into_bytes();
    let (head, tail) = wire.split_at(12);
    let replies = session.receive(&mut sim, &design, &mut buffer, head);
    assert!(replies.is_empty());
    assert_eq!(buffer, head.to_vec());
    assert_eq!(session.phase, Phase::AwaitingGreeting);
    let replies = session.receive(&mut sim, &design, &mut buffer, tail);
    assert_eq!(replies.len(), 1);
    assert_eq!(summary(&replies[0]), "greeting 0");
    assert!(buffer.is_empty());
    assert_eq!(session.phase, Phase::Active);
}

#[test]
fn the_replies_do_not_depend_on_where_the_stream_is_cut() {
    let design = Design::with_root_instance("top", None);
    let wire = format!(
        "{}\0{}\0{}\0\u{ff}\0{}\0{}\0{}\0{}\0{{\"type\"",
        LIST_SCOPES, GREETING, LIST_SCOPES, RUN, PAUSE, PAUSE, STATUS
    );
    let mut wire = wire.into_bytes();
    wire[LIST_SCOPES.len() * 2 + GREETING.len() + 3] = 0xff;
    wire.remove(LIST_SCOPES.len() * 2 + GREETING.len() + 4);

    let mut session = Session::new();
    let mut sim = Simulation::new();
    let mut buffer = Vec::new();
    let whole: Vec<String> = session
        .receive(&mut sim, &design, &mut buffer, &wire)
        .iter()
        .map(|r| format!("{} {:?} {}", summary(r), r.action, r.event.is_some()))
        .collect();
    assert_eq!(
        whole,
        vec![
            "error Sequencing Nothing false",
            "greeting 0 Nothing false",
            "scopes 2 Nothing false",
            "error Framing Nothing false",
            "run Run false",
            "pause Pause true",
            "pause Nothing false",
            "status Paused 0.000000000000000 Nothing false",
        ]
    );
    assert_eq!(buffer, b"{\"type\"".to_vec());

    for cut in 0..=wire.len() {
        let mut session = Session::new();
        let mut sim = Simulation::new();
        let mut buffer = Vec::new();
        let mut got: Vec<String> = Vec::new();
        for part in [&wire[..cut], &wire[cut..]] {
            for r in session.receive(&mut sim, &design, &mut buffer, part) {
                got.push(format!("{} {:?} {}", summary(&r), r.action, r.event.is_some()));
            }
        }
        assert_eq!(got, whole);
        assert_eq!(buffer, b"{\"type\"".to_vec());
        assert_eq!(session.phase, Phase::Active);
        assert_eq!(sim.status, SimStatus::Paused);
    }

    let mut session = Session::new();
    let mut sim = Simulation::new();
    let mut buffer = Vec::new();
    let mut got: Vec<String> = Vec::new();
    for byte in wire.iter() {
        for r in session.receive(&mut sim, &design, &mut buffer, &[*byte]) {
            got.push(format!("{} {:?} {}", summary(&r), r.action, r.event.is_some()));
        }
    }
    assert_eq!(got, whole);
}

#[test]
fn the_end_of_the_stream_closes_the_session() {
    let design = Design::new();
    let mut session = Session::new();
    let mut sim = Simulation::new();
    let mut buffer = Vec::new();
    let wire = format!("{}\0{}", GREETING, "{\"ty");
    let replies = session.on_read(&mut sim, &design, &mut buffer, Some(wire.as_bytes()));
    assert_eq!(replies.len(), 1);
    assert_eq!(session.phase, Phase::Active);
    assert_eq!(buffer, b"{\"ty".to_vec());
    let replies = session.on_read(&mut sim, &design, &mut buffer, Some(&[]));
    assert!(replies.is_empty());
    assert_eq!(session.phase, Phase::Closed);
    assert_eq!(buffer, b"{\"ty".to_vec());

    let mut session = active();
    let replies = session.on_read(&mut sim, &design, &mut buffer, None);
    assert!(replies.is_empty());
    assert_eq!(session.phase, Phase::Closed);
    let replies = session.on_read(&mut sim, &design, &mut buffer, Some(b"pe\":1}\0"));
    assert!(replies.is_empty());
    assert!(buffer.is_empty());
}
