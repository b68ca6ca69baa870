//! The message vocabulary: every message is tagged by `type`, and a command
//! by `command` as well.

use vstd::prelude::*;
use crate::json::{as_text, as_unsigned, is_null, json_document, json_member, json_null, json_string, json_unsigned, member, parse_document};
use crate::text::same_text;

verus! {

/// The commands that the protocol names.
#[derive(Clone, Copy, Debug, PartialEq, Eq, Structural)]
pub enum Command {
    ListScopes,
    ListItems,
    ReferenceItems,
    QueryInterval,
    GetSimulationStatus,
    RunSimulation,
    PauseSimulation,
}

/// The events that the server sends unasked.
#[derive(Clone, Copy, Debug, PartialEq, Eq, Structural)]
pub enum EventKind {
    SimulationPaused,
    SimulationFinished,
}

/// How item values are written in a response.
#[derive(Clone, Copy, Debug, PartialEq, Eq, Structural)]
pub enum ValueEncoding {
    /// base64 of little-endian 32-bit words
    Base64U32,
}

impl Command {
    /// The name of a command on the wire.
    pub open spec fn spec_name(self) -> Seq<char> {
        match self {
            Command::ListScopes => "list_scopes"@,
            Command::ListItems => "list_items"@,
            Command::ReferenceItems => "reference_items"@,
            Command::QueryInterval => "query_interval"@,
            Command::GetSimulationStatus => "get_simulation_status"@,
            Command::RunSimulation => "run_simulation"@,
            Command::PauseSimulation => "pause_simulation"@,
        }
    }

    /// The command that a wire name stands for, if any.
    pub open spec fn spec_from_name(name: Seq<char>) -> Option<Command> {
        if name == "list_scopes"@ {
            Some(Command::ListScopes)
        } else if name == "list_items"@ {
            Some(Command::ListItems)
        } else if name == "reference_items"@ {
            Some(Command::ReferenceItems)
        } else if name == "query_interval"@ {
            Some(Command::QueryInterval)
        } else if name == "get_simulation_status"@ {
            Some(Command::GetSimulationStatus)
        } else if name == "run_simulation"@ {
            Some(Command::RunSimulation)
        } else if name == "pause_simulation"@ {
            Some(Command::PauseSimulation)
        } else {
            None
        }
    }

    /// The name of the command on the wire.
    pub fn name(self) -> (r: &'static str)
        ensures
            r@ == self.spec_name(),
    {
        match self {
            Command::ListScopes => "list_scopes",
            Command::ListItems => "list_items",
            Command::ReferenceItems => "reference_items",
            Command::QueryInterval => "query_interval",
            Command::GetSimulationStatus => "get_simulation_status",
            Command::RunSimulation => "run_simulation",
            Command::PauseSimulation => "pause_simulation",
        }
    }

    /// Looks a command up by its wire name.
    pub fn from_name(name: &String) -> (r: Option<Command>)
        ensures
            r == Command::spec_from_name(name@),
    {
        if same_text(name, "list_scopes") {
            Some(Command::ListScopes)
        } else if same_text(name, "list_items") {
            Some(Command::ListItems)
        } else if same_text(name, "reference_items") {
            Some(Command::ReferenceItems)
        } else if same_text(name, "query_interval") {
            Some(Command::QueryInterval)
        } else if same_text(name, "get_simulation_status") {
            Some(Command::GetSimulationStatus)
        } else if same_text(name, "run_simulation") {
            Some(Command::RunSimulation)
        } else if same_text(name, "pause_simulation") {
            Some(Command::PauseSimulation)
        } else {
            None
        }
    }

    /// Every command is found again under its own name.
    pub proof fn lemma_name_round_trip(self)
        ensures
            Command::spec_from_name(self.spec_name()) == Some(self),
    {
        reveal_strlit("list_scopes");
        reveal_strlit("list_items");
        reveal_strlit("reference_items");
        reveal_strlit("query_interval");
        reveal_strlit("get_simulation_status");
        reveal_strlit("run_simulation");
        reveal_strlit("pause_simulation");
        assert("list_scopes"@.len() == 11);
        assert("list_items"@.len() == 10);
        assert("reference_items"@.len() == 15);
        assert("query_interval"@.len() == 14);
        assert("get_simulation_status"@.len() == 21);
        assert("run_simulation"@.len() == 14);
        assert("pause_simulation"@.len() == 16);
        assert("query_interval"@[0] == 'q');
        assert("run_simulation"@[0] == 'r');
    }
}

impl EventKind {
    /// The name of an event on the wire.
    pub open spec fn spec_name(self) -> Seq<char> {
        match self {
            EventKind::SimulationPaused => "simulation_paused"@,
            EventKind::SimulationFinished => "simulation_finished"@,
        }
    }

    /// The name of the event on the wire.
    pub fn name(self) -> (r: &'static str)
        ensures
            r@ == self.spec_name(),
    {
        match self {
            EventKind::SimulationPaused => "simulation_paused",
            EventKind::SimulationFinished => "simulation_finished",
        }
    }
}

impl ValueEncoding {
    /// The name of an encoding on the wire.
    pub open spec fn spec_name(self) -> Seq<char> {
        match self {
            ValueEncoding::Base64U32 => "base64(u32)"@,
        }
    }

    /// The name of the encoding on the wire.
    pub fn name(self) -> (r: &'static str)
        ensures
            r@ == self.spec_name(),
    {
        match self {
            ValueEncoding::Base64U32 => "base64(u32)",
        }
    }
}

/// The members of a JSON message that decide its shape.
pub struct Envelope {
    /// `type`, where it is a string
    pub msg_type: Option<String>,
    /// `command`, where it is a string
    pub command: Option<String>,
    /// `version`, where it is an unsigned integer
    pub version: Option<u64>,
    /// `scope`, where it is a string
    pub scope: Option<String>,
    /// whether `scope` is there and is neither a string nor null
    pub scope_malformed: bool,
}

/// An envelope with its strings as sequences of characters.
pub struct EnvelopeView {
    pub msg_type: Option<Seq<char>>,
    pub command: Option<Seq<char>>,
    pub version: Option<u64>,
    pub scope: Option<Seq<char>>,
    pub scope_malformed: bool,
}

/// The view of an optional string.
pub open spec fn text_view(s: Option<String>) -> Option<Seq<char>> {
    match s {
        Some(t) => Some(t@),
        None => None,
    }
}

impl View for Envelope {
    type V = EnvelopeView;

    open spec fn view(&self) -> EnvelopeView {
        EnvelopeView {
            msg_type: text_view(self.msg_type),
            command: text_view(self.command),
            version: self.version,
            scope: text_view(self.scope),
            scope_malformed: self.scope_malformed,
        }
    }
}

/// A request of the client.
pub enum Request {
    Greeting { version: u32 },
    Command { command: Command, scope: Option<String> },
    /// a well-formed command whose name the protocol does not know
    UnknownCommand { name: String },
}

/// A request with its strings as sequences of characters.
pub enum RequestView {
    Greeting { version: u32 },
    Command { command: Command, scope: Option<Seq<char>> },
    UnknownCommand { name: Seq<char> },
}

impl View for Request {
    type V = RequestView;

    open spec fn view(&self) -> RequestView {
        match *self {
            Request::Greeting { version } => RequestView::Greeting { version },
            Request::Command { command, scope } => RequestView::Command {
                command,
                scope: text_view(scope),
            },
            Request::UnknownCommand { name } => RequestView::UnknownCommand { name: name@ },
        }
    }
}

/// Why a well-framed message is no request.
#[derive(Clone, Copy, Debug, PartialEq, Eq, Structural)]
pub enum DecodeError {
    /// the text is not JSON
    InvalidJson,
    /// the text is JSON, and no message shape matches it
    UnknownShape,
}

/// The string member `key` of a document.
pub open spec fn member_text(doc: serde_json::Value, key: Seq<char>) -> Option<Seq<char>> {
    match json_member(doc, key) {
        Some(v) => json_string(v),
        None => None,
    }
}

/// The envelope of a parsed document.
pub open spec fn envelope_of(doc: serde_json::Value) -> EnvelopeView {
    EnvelopeView {
        msg_type: member_text(doc, "type"@),
        command: member_text(doc, "command"@),
        version: match json_member(doc, "version"@) {
            Some(v) => json_unsigned(v),
            None => None,
        },
        scope: member_text(doc, "scope"@),
        scope_malformed: match json_member(doc, "scope"@) {
            Some(v) => json_string(v) is None && !json_null(v),
            None => false,
        },
    }
}

/// The request that an envelope stands for.
///
/// A greeting carries a version that fits 32 bits. A command carries a name,
/// and a scope that is a string, null or absent.
pub open spec fn decode_envelope_spec(e: EnvelopeView) -> Result<RequestView, DecodeError> {
    if e.msg_type == Some("greeting"@) {
        match e.version {
            Some(v) if v <= u32::MAX => Ok(RequestView::Greeting { version: v as u32 }),
            _ => Err(DecodeError::UnknownShape),
        }
    } else if e.msg_type == Some("command"@) {
        match e.command {
            Some(name) if !e.scope_malformed => match Command::spec_from_name(name) {
                Some(command) => Ok(RequestView::Command { command, scope: e.scope }),
                None => Ok(RequestView::UnknownCommand { name }),
            },
            _ => Err(DecodeError::UnknownShape),
        }
    } else {
        Err(DecodeError::UnknownShape)
    }
}

/// The request that a text stands for.
pub open spec fn decode_spec(text: Seq<char>) -> Result<RequestView, DecodeError> {
    match json_document(text) {
        Some(doc) => decode_envelope_spec(envelope_of(doc)),
        None => Err(DecodeError::InvalidJson),
    }
}

/// The view of a decoding result.
pub open spec fn decoded_view(r: Result<Request, DecodeError>) -> Result<RequestView, DecodeError> {
    match r {
        Ok(req) => Ok(req@),
        Err(e) => Err(e),
    }
}

/// The envelope that a request is written as.
pub open spec fn encode_spec(r: RequestView) -> EnvelopeView {
    match r {
        RequestView::Greeting { version } => EnvelopeView {
            msg_type: Some("greeting"@),
            command: None,
            version: Some(version as u64),
            scope: None,
            scope_malformed: false,
        },
        RequestView::Command { command, scope } => EnvelopeView {
            msg_type: Some("command"@),
            command: Some(command.spec_name()),
            version: None,
            scope,
            scope_malformed: false,
        },
        RequestView::UnknownCommand { name } => EnvelopeView {
            msg_type: Some("command"@),
            command: Some(name),
            version: None,
            scope: None,
            scope_malformed: false,
        },
    }
}

/// Whether a request is one that decoding can yield: an unknown command does
/// not bear the name of a known one.
pub open spec fn canonical(r: RequestView) -> bool {
    r matches RequestView::UnknownCommand { name } ==> Command::spec_from_name(name) is None
}

/// Reads the string member `key` of a document.
fn read_text(doc: &serde_json::Value, key: &str) -> (r: Option<String>)
    ensures
        text_view(r) == member_text(*doc, key@),
{
    match member(doc, key) {
        Some(v) => as_text(v),
        None => None,
    }
}

/// Reads the members of a document that decide the shape of a message.
pub fn read_envelope(doc: &serde_json::Value) -> (e: Envelope)
    ensures
        e@ == envelope_of(*doc),
{
    let msg_type = read_text(doc, "type");
    let command = read_text(doc, "command");
    let version = match member(doc, "version") {
        Some(v) => as_unsigned(v),
        None => None,
    };
    let (scope, scope_malformed) = match member(doc, "scope") {
        Some(v) => {
            let s = as_text(v);
            let bad = s.is_none() && !is_null(v);
            (s, bad)
        },
        None => (None, false),
    };
    Envelope { msg_type, command, version, scope, scope_malformed }
}

/// Whether an optional string is there and reads as `other`.
fn holds_text(s: &Option<String>, other: &str) -> (r: bool)
    ensures
        r == (text_view(*s) == Some(other@)),
{
    match s {
        Some(t) => same_text(t, other),
        None => false,
    }
}

/// Decides which request an envelope stands for.
pub fn decode_envelope(e: Envelope) -> (r: Result<Request, DecodeError>)
    ensures
        decoded_view(r) == decode_envelope_spec(e@),
{
    if holds_text(&e.msg_type, "greeting") {
        match e.version {
            Some(v) => {
                if v <= 0xffff_ffffu64 {
                    Ok(Request::Greeting { version: v as u32 })
                } else {
                    Err(DecodeError::UnknownShape)
                }
            },
            None => Err(DecodeError::UnknownShape),
        }
    } else if holds_text(&e.msg_type, "command") {
        match e.command {
            Some(name) => {
                if e.scope_malformed {
                    Err(DecodeError::UnknownShape)
                } else {
                    match Command::from_name(&name) {
                        Some(command) => Ok(Request::Command { command, scope: e.scope }),
                        None => Ok(Request::UnknownCommand { name }),
                    }
                }
            },
            None => Err(DecodeError::UnknownShape),
        }
    } else {
        Err(DecodeError::UnknownShape)
    }
}

/// Decodes one message text into a request.
pub fn decode(text: &str) -> (r: Result<Request, DecodeError>)
    ensures
        decoded_view(r) == decode_spec(text@),
{
    match parse_document(text) {
        Some(doc) => decode_envelope(read_envelope(&doc)),
        None => Err(DecodeError::InvalidJson),
    }
}

/// Writes a request as the envelope that decodes to it.
pub fn encode(request: &Request) -> (e: Envelope)
    ensures
        e@ == encode_spec(request@),
{
    match request {
        Request::Greeting { version } => Envelope {
            msg_type: Some("greeting".to_owned()),
            command: None,
            version: Some(*version as u64),
            scope: None,
            scope_malformed: false,
        },
        Request::Command { command, scope } => Envelope {
            msg_type: Some("command".to_owned()),
            command: Some(command.name().to_owned()),
            version: None,
            scope: scope.clone(),
            scope_malformed: false,
        },
        Request::UnknownCommand { name } => Envelope {
            msg_type: Some("command".to_owned()),
            command: Some(name.clone()),
            version: None,
            scope: None,
            scope_malformed: false,
        },
    }
}

/// Decoding undoes encoding: every request that decoding can yield comes back
/// from its own envelope.
pub proof fn lemma_decode_encode(r: RequestView)
    requires
        canonical(r),
    ensures
        decode_envelope_spec(encode_spec(r)) == Ok::<RequestView, DecodeError>(r),
{
    reveal_strlit("greeting");
    reveal_strlit("command");
    assert("greeting"@.len() == 8);
    assert("command"@.len() == 7);
    match r {
        RequestView::Greeting { version } => {},
        RequestView::Command { command, scope } => {
            command.lemma_name_round_trip();
        },
        RequestView::UnknownCommand { name } => {},
    }
}

/// Encoding a decoded message and decoding it again gives the same request.
pub proof fn lemma_encode_decode(e: EnvelopeView)
    ensures
        decode_envelope_spec(e) matches Ok(r) ==> canonical(r) && decode_envelope_spec(
            encode_spec(r),
        ) == decode_envelope_spec(e),
{
    if let Ok(r) = decode_envelope_spec(e) {
        reveal_strlit("greeting");
        reveal_strlit("command");
        assert(canonical(r));
        lemma_decode_encode(r);
    }
}

} // verus!
