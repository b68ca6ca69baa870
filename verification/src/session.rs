//! The dispatcher: one session greets first, then answers each command with
//! exactly one response.

use vstd::prelude::*;
use crate::codec::{
    after_first, decoded, first_payload, frame_view, frames, has_frame, lemma_payload_len,
    lemma_split_invariance, pending, read_null_terminated_message, FramingError,
};
use crate::design::{
    distinct_paths, is_anonymous_root, items_of, lemma_scopes_of, scopes_of, lemma_items_of, sound_items, Design, ItemEntry, ScopeEntry,
};
use crate::message::{
    decode, decode_spec, text_view, Command, EventKind, Request, RequestView, ValueEncoding,
};
use crate::text::{format_time, time_text};

verus! {

/// The protocol version that the server speaks.
pub const PROTOCOL_VERSION: u32 = 0;

/// Where a session stands.
#[derive(Clone, Copy, Debug, PartialEq, Eq, Structural)]
pub enum Phase {
    AwaitingGreeting,
    Active,
    Closed,
}

/// What the simulator is doing.
#[derive(Clone, Copy, Debug, PartialEq, Eq, Structural)]
pub enum SimStatus {
    Running,
    Paused,
    Finished,
}

/// The state of the simulation as the session knows it; the time is in
/// femtoseconds.
#[derive(Clone, Copy, Debug, PartialEq, Eq, Structural)]
pub struct Simulation {
    pub status: SimStatus,
    pub time: u64,
}

/// The kinds of error that are answered and leave the session open.
#[derive(Clone, Copy, Debug, PartialEq, Eq, Structural)]
pub enum ErrorKind {
    /// a frame that is not UTF-8
    Framing,
    /// a frame that is no known message
    Decode,
    /// a command in front of the greeting
    Sequencing,
}

/// What the host has to do to the simulator after a reply.
#[derive(Clone, Copy, Debug, PartialEq, Eq, Structural)]
pub enum Action {
    Nothing,
    Run,
    Pause,
}

/// What the server announces of itself.
pub struct Greeting {
    pub version: u32,
    pub commands: Vec<Command>,
    pub events: Vec<EventKind>,
    pub item_values_encoding: Vec<ValueEncoding>,
}

/// A message that the server sends unasked; the time is written as text.
pub struct Event {
    pub kind: EventKind,
    pub time: String,
}

/// The answer to one message.
pub enum Response<'a> {
    Greeting(Greeting),
    ListScopes { scopes: Vec<&'a ScopeEntry> },
    ListItems { items: Vec<&'a ItemEntry> },
    SimulationStatus { status: SimStatus, latest_time: String },
    RunSimulation,
    PauseSimulation,
    /// the command of that name is not carried out
    UnsupportedCommand { command: String },
    Error { kind: ErrorKind },
}

/// All that follows from one message: the response, the event that goes out
/// behind it, and what the host does to the simulator.
pub struct Reply<'a> {
    pub response: Response<'a>,
    pub event: Option<Event>,
    pub action: Action,
}

/// A response as the contracts speak of it: lists as sequences, strings as
/// sequences of characters, listed entries by value.
pub enum ResponseView {
    Greeting {
        version: u32,
        commands: Seq<Command>,
        events: Seq<EventKind>,
        item_values_encoding: Seq<ValueEncoding>,
    },
    ListScopes { scopes: Seq<ScopeEntry> },
    ListItems { items: Seq<ItemEntry> },
    SimulationStatus { status: SimStatus, latest_time: Seq<char> },
    RunSimulation,
    PauseSimulation,
    UnsupportedCommand { command: Seq<char> },
    Error { kind: ErrorKind },
}

/// A reply as the contracts speak of it.
pub struct ReplyView {
    pub response: ResponseView,
    pub event: Option<(EventKind, Seq<char>)>,
    pub action: Action,
}

impl<'a> View for Response<'a> {
    type V = ResponseView;

    open spec fn view(&self) -> ResponseView {
        match *self {
            Response::Greeting(g) => ResponseView::Greeting {
                version: g.version,
                commands: g.commands@,
                events: g.events@,
                item_values_encoding: g.item_values_encoding@,
            },
            Response::ListScopes { scopes } => ResponseView::ListScopes {
                scopes: Seq::new(scopes@.len(), |k: int| *scopes@[k]),
            },
            Response::ListItems { items } => ResponseView::ListItems {
                items: Seq::new(items@.len(), |k: int| *items@[k]),
            },
            Response::SimulationStatus { status, latest_time } => ResponseView::SimulationStatus {
                status,
                latest_time: latest_time@,
            },
            Response::RunSimulation => ResponseView::RunSimulation,
            Response::PauseSimulation => ResponseView::PauseSimulation,
            Response::UnsupportedCommand { command } => ResponseView::UnsupportedCommand {
                command: command@,
            },
            Response::Error { kind } => ResponseView::Error { kind },
        }
    }
}

impl<'a> View for Reply<'a> {
    type V = ReplyView;

    open spec fn view(&self) -> ReplyView {
        ReplyView {
            response: self.response@,
            event: match self.event {
                Some(e) => Some((e.kind, e.time@)),
                None => None,
            },
            action: self.action,
        }
    }
}

/// The commands that the server announces.
pub open spec fn announced_commands() -> Seq<Command> {
    seq![
        Command::ListScopes,
        Command::ListItems,
        Command::ReferenceItems,
        Command::QueryInterval,
        Command::GetSimulationStatus,
        Command::RunSimulation,
        Command::PauseSimulation,
    ]
}

/// The greeting of the server.
pub open spec fn server_greeting() -> ResponseView {
    ResponseView::Greeting {
        version: PROTOCOL_VERSION,
        commands: announced_commands(),
        events: seq![EventKind::SimulationPaused, EventKind::SimulationFinished],
        item_values_encoding: seq![ValueEncoding::Base64U32],
    }
}

/// A reply that is a response and nothing more.
pub open spec fn plain(response: ResponseView) -> ReplyView {
    ReplyView { response, event: None, action: Action::Nothing }
}

/// The path that a command without a scope speaks of: the root.
pub open spec fn scope_or_root(scope: Option<Seq<char>>) -> Seq<char> {
    match scope {
        Some(s) => s,
        None => Seq::empty(),
    }
}

/// The phase behind a request.
pub open spec fn next_phase(phase: Phase, request: RequestView) -> Phase {
    if phase == Phase::AwaitingGreeting && request is Greeting {
        Phase::Active
    } else {
        phase
    }
}

/// The simulation behind a request: an active session starts a paused
/// simulation and pauses a running one, and nothing else changes it.
pub open spec fn next_simulation(phase: Phase, sim: Simulation, request: RequestView) -> Simulation {
    if phase == Phase::Active && request == (RequestView::Command {
        command: Command::RunSimulation,
        scope: request->scope,
    }) && sim.status == SimStatus::Paused {
        Simulation { status: SimStatus::Running, time: sim.time }
    } else if phase == Phase::Active && request == (RequestView::Command {
        command: Command::PauseSimulation,
        scope: request->scope,
    }) && sim.status == SimStatus::Running {
        Simulation { status: SimStatus::Paused, time: sim.time }
    } else {
        sim
    }
}

/// The reply of an active session to a command.
pub open spec fn command_reply(
    sim: Simulation,
    scopes: Seq<ScopeEntry>,
    items: Seq<ItemEntry>,
    command: Command,
    scope: Option<Seq<char>>,
) -> ReplyView {
    match command {
        Command::ListScopes => plain(
            ResponseView::ListScopes { scopes: scopes_of(scopes, scope) },
        ),
        Command::ListItems => plain(
            ResponseView::ListItems { items: items_of(items, scope_or_root(scope)) },
        ),
        Command::GetSimulationStatus => plain(
            ResponseView::SimulationStatus {
                status: sim.status,
                latest_time: time_text(sim.time),
            },
        ),
        Command::RunSimulation => ReplyView {
            response: ResponseView::RunSimulation,
            event: None,
            action: if sim.status == SimStatus::Paused {
                Action::Run
            } else {
                Action::Nothing
            },
        },
        Command::PauseSimulation => if sim.status == SimStatus::Running {
            ReplyView {
                response: ResponseView::PauseSimulation,
                event: Some((EventKind::SimulationPaused, time_text(sim.time))),
                action: Action::Pause,
            }
        } else {
            plain(ResponseView::PauseSimulation)
        },
        Command::ReferenceItems | Command::QueryInterval => plain(
            ResponseView::UnsupportedCommand { command: command.spec_name() },
        ),
    }
}

/// The reply of an open session to a request.
pub open spec fn reply_to(
    phase: Phase,
    sim: Simulation,
    scopes: Seq<ScopeEntry>,
    items: Seq<ItemEntry>,
    request: RequestView,
) -> ReplyView {
    match request {
        RequestView::Greeting { .. } => plain(server_greeting()),
        RequestView::Command { command, scope } => if phase == Phase::Active {
            command_reply(sim, scopes, items, command, scope)
        } else {
            plain(ResponseView::Error { kind: ErrorKind::Sequencing })
        },
        RequestView::UnknownCommand { name } => if phase == Phase::Active {
            plain(ResponseView::UnsupportedCommand { command: name })
        } else {
            plain(ResponseView::Error { kind: ErrorKind::Sequencing })
        },
    }
}

/// The state of one connection.
#[derive(Clone, Copy, Debug, PartialEq, Eq, Structural)]
pub struct Session {
    pub phase: Phase,
    /// the version that the client announced in its last greeting
    pub peer_version: u32,
}

/// Session and simulation behind one message, and the reply to it.
pub struct Outcome {
    pub session: Session,
    pub sim: Simulation,
    pub reply: Option<ReplyView>,
}

/// Session and simulation behind a run of frames, and the replies in order.
pub struct Outcomes {
    pub session: Session,
    pub sim: Simulation,
    pub replies: Seq<ReplyView>,
}

/// What one request does. A closed session answers nothing and changes
/// nothing; an open one records the version of a greeting.
pub open spec fn after_request(
    session: Session,
    sim: Simulation,
    scopes: Seq<ScopeEntry>,
    items: Seq<ItemEntry>,
    request: RequestView,
) -> Outcome {
    if session.phase == Phase::Closed {
        Outcome { session, sim, reply: None }
    } else {
        Outcome {
            session: Session {
                phase: next_phase(session.phase, request),
                peer_version: match request {
                    RequestView::Greeting { version } => version,
                    _ => session.peer_version,
                },
            },
            sim: next_simulation(session.phase, sim, request),
            reply: Some(reply_to(session.phase, sim, scopes, items, request)),
        }
    }
}

/// What one frame does: a frame that is not UTF-8 is answered with a framing
/// error, a text that is no request with a decode error, and neither changes
/// anything.
pub open spec fn after_message(
    session: Session,
    sim: Simulation,
    scopes: Seq<ScopeEntry>,
    items: Seq<ItemEntry>,
    message: Result<Seq<char>, FramingError>,
) -> Outcome {
    if session.phase == Phase::Closed {
        Outcome { session, sim, reply: None }
    } else {
        match message {
            Err(_) => Outcome {
                session,
                sim,
                reply: Some(plain(ResponseView::Error { kind: ErrorKind::Framing })),
            },
            Ok(text) => match decode_spec(text) {
                Ok(request) => after_request(session, sim, scopes, items, request),
                Err(_) => Outcome {
                    session,
                    sim,
                    reply: Some(plain(ResponseView::Error { kind: ErrorKind::Decode })),
                },
            },
        }
    }
}

/// The replies that one outcome adds to the stream.
pub open spec fn sent(reply: Option<ReplyView>) -> Seq<ReplyView> {
    match reply {
        Some(r) => seq![r],
        None => Seq::empty(),
    }
}

/// What a run of frames does, one after the other.
pub open spec fn after_frames(
    session: Session,
    sim: Simulation,
    scopes: Seq<ScopeEntry>,
    items: Seq<ItemEntry>,
    payloads: Seq<Seq<u8>>,
) -> Outcomes
    decreases payloads.len(),
{
    if payloads.len() == 0 {
        Outcomes { session, sim, replies: Seq::empty() }
    } else {
        let first = after_message(session, sim, scopes, items, decoded(payloads[0]));
        let rest = after_frames(first.session, first.sim, scopes, items, payloads.drop_first());
        Outcomes { session: rest.session, sim: rest.sim, replies: sent(first.reply) + rest.replies }
    }
}

/// Whether a read says that the connection is over: it failed, or it gave no
/// bytes.
pub open spec fn connection_lost(read: Option<&[u8]>) -> bool {
    match read {
        Some(bytes) => bytes@.len() == 0,
        None => true,
    }
}

/// The view of an optional reply.
pub open spec fn reply_view(r: Option<Reply>) -> Option<ReplyView> {
    match r {
        Some(reply) => Some(reply@),
        None => None,
    }
}

fn greeting_response<'a>() -> (r: Response<'a>)
    ensures
        r@ == server_greeting(),
{
    let mut commands: Vec<Command> = Vec::new();
    commands.push(Command::ListScopes);
    commands.push(Command::ListItems);
    commands.push(Command::ReferenceItems);
    commands.push(Command::QueryInterval);
    commands.push(Command::GetSimulationStatus);
    commands.push(Command::RunSimulation);
    commands.push(Command::PauseSimulation);
    let mut events: Vec<EventKind> = Vec::new();
    events.push(EventKind::SimulationPaused);
    events.push(EventKind::SimulationFinished);
    let mut item_values_encoding: Vec<ValueEncoding> = Vec::new();
    item_values_encoding.push(ValueEncoding::Base64U32);
    proof {
        assert(commands@ =~= announced_commands());
        assert(events@ =~= seq![EventKind::SimulationPaused, EventKind::SimulationFinished]);
        assert(item_values_encoding@ =~= seq![ValueEncoding::Base64U32]);
    }
    Response::Greeting(Greeting { version: PROTOCOL_VERSION, commands, events, item_values_encoding })
}

fn plain_reply<'a>(response: Response<'a>) -> (r: Reply<'a>)
    ensures
        r@ == plain(response@),
{
    Reply { response, event: None, action: Action::Nothing }
}

impl Simulation {
    /// A simulation that has not started: paused at time zero.
    pub fn new() -> (s: Simulation)
        ensures
            s.status == SimStatus::Paused,
            s.time == 0,
    {
        Simulation { status: SimStatus::Paused, time: 0 }
    }

    /// The simulator has stopped by itself at `time`. A running simulation
    /// becomes paused, or finished, and the event of that goes out; a
    /// simulation that was not running stays as it was and nothing goes out.
    pub fn stopped(&mut self, time: u64, finished: bool) -> (r: Option<Event>)
        ensures
            old(self).status != SimStatus::Running ==> r is None && *final(self) == *old(self),
            old(self).status == SimStatus::Running ==> {
                &&& final(self).time == time
                &&& final(self).status == if finished {
                    SimStatus::Finished
                } else {
                    SimStatus::Paused
                }
                &&& r matches Some(e) && e.time@ == time_text(time) && e.kind == if finished {
                    EventKind::SimulationFinished
                } else {
                    EventKind::SimulationPaused
                }
            },
    {
        match self.status {
            SimStatus::Running => {
                self.time = time;
                if finished {
                    self.status = SimStatus::Finished;
                    Some(Event { kind: EventKind::SimulationFinished, time: format_time(time) })
                } else {
                    self.status = SimStatus::Paused;
                    Some(Event { kind: EventKind::SimulationPaused, time: format_time(time) })
                }
            },
            _ => None,
        }
    }
}

impl Session {
    /// A session that waits for the greeting.
    pub fn new() -> (s: Session)
        ensures
            s.phase == Phase::AwaitingGreeting,
            s.peer_version == 0,
    {
        Session { phase: Phase::AwaitingGreeting, peer_version: 0 }
    }

    /// Ends the session: the peer has gone, or the connection has failed.
    pub fn close(&mut self)
        ensures
            final(self).phase == Phase::Closed,
            final(self).peer_version == old(self).peer_version,
    {
        self.phase = Phase::Closed;
    }

    /// Answers one request. A closed session answers nothing and changes
    /// nothing.
    pub fn dispatch<'a>(
        &mut self,
        sim: &mut Simulation,
        design: &'a Design,
        request: &Request,
    ) -> (r: Option<Reply<'a>>)
        requires
            design.wf(),
        ensures
            after_request(*old(self), *old(sim), design.scopes(), design.items(), request@) == (
            Outcome { session: *final(self), sim: *final(sim), reply: reply_view(r) }),
    {
        match self.phase {
            Phase::Closed => None,
            Phase::AwaitingGreeting => match request {
                Request::Greeting { version } => {
                    self.phase = Phase::Active;
                    self.peer_version = *version;
                    Some(plain_reply(greeting_response()))
                },
                _ => Some(plain_reply(Response::Error { kind: ErrorKind::Sequencing })),
            },
            Phase::Active => match request {
                Request::Greeting { version } => {
                    self.peer_version = *version;
                    Some(plain_reply(greeting_response()))
                },
                Request::UnknownCommand { name } => Some(
                    plain_reply(Response::UnsupportedCommand { command: name.clone() }),
                ),
                Request::Command { command, scope } => Some(
                    run_command(sim, design, *command, scope),
                ),
            },
        }
    }

    /// Answers one frame as the codec hands it on: a request is dispatched,
    /// anything else is answered with the error that names what is wrong with
    /// it.
    pub fn handle_frame<'a>(
        &mut self,
        sim: &mut Simulation,
        design: &'a Design,
        frame: &Result<String, FramingError>,
    ) -> (r: Option<Reply<'a>>)
        requires
            design.wf(),
        ensures
            after_message(
                *old(self),
                *old(sim),
                design.scopes(),
                design.items(),
                frame_view(*frame),
            ) == (Outcome { session: *final(self), sim: *final(sim), reply: reply_view(r) }),
    {
        match frame {
            Ok(text) => self.handle_message(sim, design, text.as_str()),
            Err(_) => match self.phase {
                Phase::Closed => None,
                _ => Some(plain_reply(Response::Error { kind: ErrorKind::Framing })),
            },
        }
    }

    /// Answers one message text.
    pub fn handle_message<'a>(
        &mut self,
        sim: &mut Simulation,
        design: &'a Design,
        msg: &str,
    ) -> (r: Option<Reply<'a>>)
        requires
            design.wf(),
        ensures
            after_message(
                *old(self),
                *old(sim),
                design.scopes(),
                design.items(),
                Ok::<Seq<char>, FramingError>(msg@),
            ) == (Outcome { session: *final(self), sim: *final(sim), reply: reply_view(r) }),
    {
        match self.phase {
            Phase::Closed => None,
            _ => match decode(msg) {
                Ok(request) => self.dispatch(sim, design, &request),
                Err(_) => Some(plain_reply(Response::Error { kind: ErrorKind::Decode })),
            },
        }
    }

    /// Takes newly arrived bytes: every frame that they complete is answered
    /// in wire order, and the bytes behind the last delimiter wait in `buffer`
    /// for the next call.
    pub fn receive<'a>(
        &mut self,
        sim: &mut Simulation,
        design: &'a Design,
        buffer: &mut Vec<u8>,
        bytes: &[u8],
    ) -> (replies: Vec<Reply<'a>>)
        requires
            design.wf(),
        ensures
            final(buffer)@ == pending(old(buffer)@ + bytes@),
            ({
                let all = after_frames(
                    *old(self),
                    *old(sim),
                    design.scopes(),
                    design.items(),
                    frames(old(buffer)@ + bytes@),
                );
                &&& *final(self) == all.session
                &&& *final(sim) == all.sim
                &&& replies@.len() == all.replies.len()
                &&& forall|k: int| 0 <= k < replies@.len() ==> replies@[k]@ == all.replies[k]
            }),
    {
        buffer.extend_from_slice(bytes);
        let ghost all = after_frames(
            *self,
            *sim,
            design.scopes(),
            design.items(),
            frames(buffer@),
        );
        let ghost start = buffer@;
        let ghost mut done: Seq<ReplyView> = Seq::empty();
        let mut replies: Vec<Reply<'a>> = Vec::new();
        loop
            invariant
                design.wf(),
                start == old(buffer)@ + bytes@,
                all == after_frames(
                    *old(self),
                    *old(sim),
                    design.scopes(),
                    design.items(),
                    frames(start),
                ),
                pending(buffer@) == pending(start),
                replies@.len() == done.len(),
                forall|k: int| 0 <= k < replies@.len() ==> replies@[k]@ == done[k],
                ({
                    let rest = after_frames(
                        *self,
                        *sim,
                        design.scopes(),
                        design.items(),
                        frames(buffer@),
                    );
                    &&& rest.session == all.session
                    &&& rest.sim == all.sim
                    &&& done + rest.replies == all.replies
                }),
            ensures
                !has_frame(buffer@),
                frames(buffer@).len() == 0,
            decreases buffer@.len(),
        {
            let ghost before = buffer@;
            let ghost session0 = *self;
            let ghost sim0 = *sim;
            proof {
                lemma_payload_len(before);
            }
            match read_null_terminated_message(buffer) {
                None => {
                    break ;
                },
                Some(frame) => {
                    let reply = self.handle_frame(sim, design, &frame);
                    proof {
                        let first = after_message(
                            session0,
                            sim0,
                            design.scopes(),
                            design.items(),
                            decoded(frames(before)[0]),
                        );
                        assert(frames(before)[0] == first_payload(before));
                        assert(frames(before).drop_first() =~= frames(after_first(before)));
                        let rest = after_frames(
                            *self,
                            *sim,
                            design.scopes(),
                            design.items(),
                            frames(buffer@),
                        );
                        assert((done + sent(first.reply)) + rest.replies =~= done + (sent(
                            first.reply,
                        ) + rest.replies));
                        done = done + sent(first.reply);
                    }
                    match reply {
                        Some(r) => {
                            replies.push(r);
                        },
                        None => {},
                    }
                },
            }
        }
        proof {
            assert(done + Seq::<ReplyView>::empty() =~= done);
        }
        replies
    }

    /// Takes the outcome of one read on the connection. A failed read, and a
    /// read of no bytes, which means that the peer has gone, close the
    /// session and answer nothing; any other read is received.
    pub fn on_read<'a>(
        &mut self,
        sim: &mut Simulation,
        design: &'a Design,
        buffer: &mut Vec<u8>,
        read: Option<&[u8]>,
    ) -> (replies: Vec<Reply<'a>>)
        requires
            design.wf(),
        ensures
            connection_lost(read) ==> {
                &&& final(self).phase == Phase::Closed
                &&& final(self).peer_version == old(self).peer_version
                &&& *final(sim) == *old(sim)
                &&& final(buffer)@ == old(buffer)@
                &&& replies@.len() == 0
            },
            !connection_lost(read) ==> {
                let all = after_frames(
                    *old(self),
                    *old(sim),
                    design.scopes(),
                    design.items(),
                    frames(old(buffer)@ + read->0@),
                );
                &&& final(buffer)@ == pending(old(buffer)@ + read->0@)
                &&& *final(self) == all.session
                &&& *final(sim) == all.sim
                &&& replies@.len() == all.replies.len()
                &&& forall|k: int| 0 <= k < replies@.len() ==> replies@[k]@ == all.replies[k]
            },
    {
        match read {
            Some(bytes) => {
                if bytes.len() == 0 {
                    self.close();
                    Vec::new()
                } else {
                    self.receive(sim, design, buffer, bytes)
                }
            },
            None => {
                self.close();
                Vec::new()
            },
        }
    }
}

/// A command in front of the greeting is answered with a sequencing error,
/// whatever the command, and the session goes on waiting for the greeting.
pub proof fn lemma_command_before_greeting(
    session: Session,
    sim: Simulation,
    scopes: Seq<ScopeEntry>,
    items: Seq<ItemEntry>,
    request: RequestView,
)
    requires
        session.phase == Phase::AwaitingGreeting,
        !(request is Greeting),
    ensures
        after_request(session, sim, scopes, items, request) == (Outcome {
            session,
            sim,
            reply: Some(plain(ResponseView::Error { kind: ErrorKind::Sequencing })),
        }),
{
}

/// Pausing twice in a row answers both commands with success. The first
/// sends the pause event exactly when the simulation was running, the second
/// never sends one, and behind both the simulation is as behind the first.
pub proof fn lemma_pause_twice(
    session: Session,
    sim: Simulation,
    scopes: Seq<ScopeEntry>,
    items: Seq<ItemEntry>,
    scope: Option<Seq<char>>,
)
    requires
        session.phase == Phase::Active,
    ensures
        ({
            let pause = RequestView::Command { command: Command::PauseSimulation, scope };
            let first = after_request(session, sim, scopes, items, pause);
            let second = after_request(first.session, first.sim, scopes, items, pause);
            &&& first.reply is Some && first.reply->0.response == ResponseView::PauseSimulation
            &&& second.reply is Some && second.reply->0.response == ResponseView::PauseSimulation
            &&& sim.status == SimStatus::Running ==> first.reply->0.event == Some(
                (EventKind::SimulationPaused, time_text(sim.time)),
            )
            &&& sim.status != SimStatus::Running ==> first.reply->0.event is None
            &&& second.reply->0.event is None
            &&& second.reply->0.action == Action::Nothing
            &&& second.sim == first.sim
            &&& second.session == first.session
        }),
{
}

/// The scopes that an active session lists repeat no path, and where no
/// scope is given they start with the anonymous root under the empty path.
pub proof fn lemma_listed_scopes(design: Design, sim: Simulation, scope: Option<Seq<char>>)
    requires
        design.wf(),
    ensures
        reply_to(
            Phase::Active,
            sim,
            design.scopes(),
            design.items(),
            RequestView::Command { command: Command::ListScopes, scope },
        ).response matches ResponseView::ListScopes { scopes } && distinct_paths(scopes) && (scope
            is None ==> scopes.len() > 0 && is_anonymous_root(scopes[0])),
{
    lemma_scopes_of(design.scopes(), scope);
}

/// Every item that an active session lists has at least one bit, and every
/// memory at least one row.
pub proof fn lemma_listed_items(design: Design, sim: Simulation, scope: Option<Seq<char>>)
    requires
        design.wf(),
    ensures
        reply_to(
            Phase::Active,
            sim,
            design.scopes(),
            design.items(),
            RequestView::Command { command: Command::ListItems, scope },
        ).response matches ResponseView::ListItems { items } && sound_items(items),
{
    let items = items_of(design.items(), scope_or_root(scope));
    lemma_items_of(design.items(), scope_or_root(scope));
    assert forall|k: int| 0 <= k < items.len() implies (#[trigger] items[k]).item.wf() by {
        assert(design.items().contains(items[k]));
    }
}

/// A session answers the same whether the bytes of the stream come at once
/// or cut in two at any place.
pub proof fn lemma_receive_split(
    session: Session,
    sim: Simulation,
    scopes: Seq<ScopeEntry>,
    items: Seq<ItemEntry>,
    a: Seq<u8>,
    b: Seq<u8>,
)
    ensures
        ({
            let whole = after_frames(session, sim, scopes, items, frames(a + b));
            let head = after_frames(session, sim, scopes, items, frames(a));
            let tail = after_frames(head.session, head.sim, scopes, items, frames(pending(a) + b));
            &&& whole.session == tail.session
            &&& whole.sim == tail.sim
            &&& whole.replies == head.replies + tail.replies
        }),
{
    lemma_split_invariance(a, b);
    lemma_after_frames_concat(session, sim, scopes, items, frames(a), frames(pending(a) + b));
}

/// Answering a run of frames is answering its front part and then the rest.
pub proof fn lemma_after_frames_concat(
    session: Session,
    sim: Simulation,
    scopes: Seq<ScopeEntry>,
    items: Seq<ItemEntry>,
    front: Seq<Seq<u8>>,
    back: Seq<Seq<u8>>,
)
    ensures
        ({
            let whole = after_frames(session, sim, scopes, items, front + back);
            let head = after_frames(session, sim, scopes, items, front);
            let tail = after_frames(head.session, head.sim, scopes, items, back);
            &&& whole.session == tail.session
            &&& whole.sim == tail.sim
            &&& whole.replies == head.replies + tail.replies
        }),
    decreases front.len(),
{
    if front.len() == 0 {
        assert(front + back =~= back);
        let tail = after_frames(session, sim, scopes, items, back);
        assert(Seq::<ReplyView>::empty() + tail.replies =~= tail.replies);
    } else {
        let first = after_message(session, sim, scopes, items, decoded(front[0]));
        assert((front + back)[0] == front[0]);
        assert((front + back).drop_first() =~= front.drop_first() + back);
        lemma_after_frames_concat(first.session, first.sim, scopes, items, front.drop_first(), back);
        let head = after_frames(session, sim, scopes, items, front);
        let head_rest = after_frames(first.session, first.sim, scopes, items, front.drop_first());
        let tail = after_frames(head.session, head.sim, scopes, items, back);
        assert(sent(first.reply) + (head_rest.replies + tail.replies) =~= (sent(first.reply)
            + head_rest.replies) + tail.replies);
    }
}

/// Carries out one command of an active session.
fn run_command<'a>(
    sim: &mut Simulation,
    design: &'a Design,
    command: Command,
    scope: &Option<String>,
) -> (r: Reply<'a>)
    requires
        design.wf(),
    ensures
        r@ == command_reply(*old(sim), design.scopes(), design.items(), command, text_view(*scope)),
        *final(sim) == next_simulation(
            Phase::Active,
            *old(sim),
            RequestView::Command { command, scope: text_view(*scope) },
        ),
{
    match command {
        Command::ListScopes => {
            let scopes = design.list_scopes(scope);
            proof {
                let want = scopes_of(design.scopes(), text_view(*scope));
                assert(Seq::new(scopes@.len(), |k: int| *scopes@[k]) =~= want);
            }
            plain_reply(Response::ListScopes { scopes })
        },
        Command::ListItems => {
            let items = match scope {
                Some(path) => design.list_items(path.as_str()),
                None => design.list_items(""),
            };
            proof {
                reveal_strlit("");
                assert(""@ =~= Seq::<char>::empty());
                let want = items_of(design.items(), scope_or_root(text_view(*scope)));
                assert(Seq::new(items@.len(), |k: int| *items@[k]) =~= want);
            }
            plain_reply(Response::ListItems { items })
        },
        Command::GetSimulationStatus => plain_reply(
            Response::SimulationStatus { status: sim.status, latest_time: format_time(sim.time) },
        ),
        Command::RunSimulation => {
            let action = match sim.status {
                SimStatus::Paused => {
                    sim.status = SimStatus::Running;
                    Action::Run
                },
                _ => Action::Nothing,
            };
            Reply { response: Response::RunSimulation, event: None, action }
        },
        Command::PauseSimulation => match sim.status {
            SimStatus::Running => {
                sim.status = SimStatus::Paused;
                Reply {
                    response: Response::PauseSimulation,
                    event: Some(
                        Event { kind: EventKind::SimulationPaused, time: format_time(sim.time) },
                    ),
                    action: Action::Pause,
                }
            },
            _ => plain_reply(Response::PauseSimulation),
        },
        Command::ReferenceItems | Command::QueryInterval => plain_reply(
            Response::UnsupportedCommand { command: command.name().to_owned() },
        ),
    }
}

} // verus!
