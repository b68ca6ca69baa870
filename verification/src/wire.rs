//! The JSON text of what the server sends: one compact object per message.

use vstd::prelude::*;
use vstd::string::StringSliceAdditionalSpecFns;
use vstd::utf8::encode_utf8;
use crate::codec::frame_message;
use crate::design::{Attribute, AttributeValue, Item, ItemEntry, ScopeEntry};
use crate::json::{json_quoted, quote};
use crate::message::{Command, EventKind, Request, RequestView, ValueEncoding};
use crate::session::{
    ErrorKind, Event, Greeting, Reply, ReplyView, Response, ResponseView, SimStatus,
};
use crate::text::{decimal, push_decimal, push_text};

verus! {

/// A string member that may be missing: the quoted string, or `null`.
pub open spec fn optional_text(s: Option<String>) -> Seq<char> {
    match s {
        Some(t) => json_quoted(t@),
        None => "null"@,
    }
}

/// A flag as JSON.
pub open spec fn flag_text(b: bool) -> Seq<char> {
    if b {
        "true"@
    } else {
        "false"@
    }
}

/// A whole number in decimal, with a minus sign in front where it is
/// negative.
pub open spec fn signed_decimal(n: int) -> Seq<char> {
    if n < 0 {
        "-"@ + decimal((-n) as nat)
    } else {
        decimal(n as nat)
    }
}

/// The value of an attribute as a JSON object: its kind, and the value as
/// the JSON number, string or boolean of that kind.
pub open spec fn attribute_value_text(v: AttributeValue) -> Seq<char> {
    match v {
        AttributeValue::UnsignedInt(n) => "{\"type\":\"unsigned_int\",\"value\":"@ + decimal(
            n as nat,
        ) + "}"@,
        AttributeValue::SignedInt(n) => "{\"type\":\"signed_int\",\"value\":"@ + signed_decimal(
            n as int,
        ) + "}"@,
        AttributeValue::Text(t) => "{\"type\":\"string\",\"value\":"@ + json_quoted(t@) + "}"@,
        AttributeValue::Boolean(b) => "{\"type\":\"boolean\",\"value\":"@ + flag_text(b) + "}"@,
    }
}

/// A simulation status as a JSON string.
pub open spec fn status_text(status: SimStatus) -> Seq<char> {
    match status {
        SimStatus::Running => "\"running\""@,
        SimStatus::Paused => "\"paused\""@,
        SimStatus::Finished => "\"finished\""@,
    }
}

/// The whole message that answers with an error of a kind. None of them
/// belongs to a command that could be named.
pub open spec fn error_text(kind: ErrorKind) -> Seq<char> {
    match kind {
        ErrorKind::Framing =>
            "{\"type\":\"error\",\"error\":\"invalid_frame\",\"message\":\"the frame is not UTF-8\"}"@,
        ErrorKind::Decode =>
            "{\"type\":\"error\",\"error\":\"invalid_message\",\"message\":\"the frame is no known message\"}"@,
        ErrorKind::Sequencing =>
            "{\"type\":\"error\",\"error\":\"protocol_error\",\"message\":\"a command was sent before the greeting\"}"@,
    }
}

/// One attribute as a member of its object: the name, then kind and value.
pub open spec fn attribute_text(a: Attribute) -> Seq<char> {
    json_quoted(a.name@) + ":"@ + attribute_value_text(a.value)
}

/// The members of an attribute object, with commas between them.
pub open spec fn attribute_list(attrs: Seq<Attribute>) -> Seq<char>
    decreases attrs.len(),
{
    if attrs.len() == 0 {
        Seq::empty()
    } else if attrs.len() == 1 {
        attribute_text(attrs[0])
    } else {
        attribute_list(attrs.drop_last()) + ","@ + attribute_text(attrs.last())
    }
}

/// A list of attributes as a JSON object keyed by name.
pub open spec fn attributes_text(attrs: Seq<Attribute>) -> Seq<char> {
    "{"@ + attribute_list(attrs) + "}"@
}

/// One scope as a member of `scopes`: the path, then what the scope is.
pub open spec fn scope_text(e: ScopeEntry) -> Seq<char> {
    json_quoted(e.path@) + ":{\"type\":\"module\",\"definition\":{\"src\":"@ + optional_text(
        e.scope.definition.src,
    ) + ",\"name\":"@ + optional_text(e.scope.definition.name) + ",\"attributes\":"@
        + attributes_text(e.scope.definition.attributes@) + "},\"instantiation\":{\"src\":"@
        + optional_text(e.scope.instantiation.src) + ",\"attributes\":"@ + attributes_text(
        e.scope.instantiation.attributes@,
    ) + "}}"@
}

/// The members of `scopes`, with commas between them.
pub open spec fn scope_list(scopes: Seq<ScopeEntry>) -> Seq<char>
    decreases scopes.len(),
{
    if scopes.len() == 0 {
        Seq::empty()
    } else if scopes.len() == 1 {
        scope_text(scopes[0])
    } else {
        scope_list(scopes.drop_last()) + ","@ + scope_text(scopes.last())
    }
}

/// The path of an item: the path of its scope, a blank, and its name; the
/// name alone for an item of the root.
pub open spec fn item_path(e: ItemEntry) -> Seq<char> {
    if e.scope@.len() == 0 {
        e.name@
    } else {
        e.scope@ + " "@ + e.name@
    }
}

/// What an item is, as a JSON object tagged `node` or `memory`.
pub open spec fn item_body_text(item: Item) -> Seq<char> {
    match item {
        Item::Node { src, width, lsb_at, settable, input, output, attributes } =>
            "{\"type\":\"node\",\"src\":"@ + json_quoted(src@) + ",\"width\":"@ + decimal(
                width as nat,
            ) + ",\"lsb_at\":"@ + decimal(lsb_at as nat) + ",\"settable\":"@ + flag_text(settable)
                + ",\"input\":"@ + flag_text(input) + ",\"output\":"@ + flag_text(output)
                + ",\"attributes\":"@ + attributes_text(attributes@) + "}"@,
        Item::Memory { src, width, lsb_at, depth, zero_at, settable, attributes } =>
            "{\"type\":\"memory\",\"src\":"@ + optional_text(src) + ",\"width\":"@ + decimal(
                width as nat,
            ) + ",\"lsb_at\":"@ + decimal(lsb_at as nat) + ",\"depth\":"@ + decimal(depth as nat)
                + ",\"zero_at\":"@ + decimal(zero_at as nat) + ",\"settable\":"@ + flag_text(
                settable,
            ) + ",\"attributes\":"@ + attributes_text(attributes@) + "}"@,
    }
}

/// One item as a member of `items`.
pub open spec fn item_text(e: ItemEntry) -> Seq<char> {
    json_quoted(item_path(e)) + ":"@ + item_body_text(e.item)
}

/// The members of `items`, with commas between them.
pub open spec fn item_list(items: Seq<ItemEntry>) -> Seq<char>
    decreases items.len(),
{
    if items.len() == 0 {
        Seq::empty()
    } else if items.len() == 1 {
        item_text(items[0])
    } else {
        item_list(items.drop_last()) + ","@ + item_text(items.last())
    }
}

/// Names between double quotes, with commas between them. The names of the
/// protocol need no escape.
pub open spec fn name_list(names: Seq<Seq<char>>) -> Seq<char>
    decreases names.len(),
{
    if names.len() == 0 {
        Seq::empty()
    } else if names.len() == 1 {
        "\""@ + names[0] + "\""@
    } else {
        name_list(names.drop_last()) + ",\""@ + names.last() + "\""@
    }
}

/// The JSON text of a response.
pub open spec fn response_text(r: ResponseView) -> Seq<char> {
    match r {
        ResponseView::Greeting { version, commands, events, item_values_encoding } =>
            "{\"type\":\"greeting\",\"version\":"@ + decimal(version as nat) + ",\"commands\":["@
                + name_list(Seq::new(commands.len(), |i: int| commands[i].spec_name()))
                + "],\"events\":["@ + name_list(
                Seq::new(events.len(), |i: int| events[i].spec_name()),
            ) + "],\"features\":{\"item_values_encoding\":["@ + name_list(
                Seq::new(item_values_encoding.len(), |i: int| item_values_encoding[i].spec_name()),
            ) + "]}}"@,
        ResponseView::ListScopes { scopes } =>
            "{\"type\":\"response\",\"command\":\"list_scopes\",\"scopes\":{"@ + scope_list(scopes)
                + "}}"@,
        ResponseView::ListItems { items } =>
            "{\"type\":\"response\",\"command\":\"list_items\",\"items\":{"@ + item_list(items)
                + "}}"@,
        ResponseView::SimulationStatus { status, latest_time } =>
            "{\"type\":\"response\",\"command\":\"get_simulation_status\",\"status\":"@
                + status_text(status) + ",\"latest_time\":"@ + json_quoted(latest_time) + "}"@,
        ResponseView::RunSimulation => "{\"type\":\"response\",\"command\":\"run_simulation\"}"@,
        ResponseView::PauseSimulation =>
            "{\"type\":\"response\",\"command\":\"pause_simulation\"}"@,
        ResponseView::UnsupportedCommand { command } =>
            "{\"type\":\"error\",\"error\":\"invalid_command\",\"command\":"@ + json_quoted(command)
                + ",\"message\":\"the command is not supported\"}"@,
        ResponseView::Error { kind } => error_text(kind),
    }
}

/// The JSON text of an event.
pub open spec fn event_text(kind: EventKind, time: Seq<char>) -> Seq<char> {
    "{\"type\":\"event\",\"event\":\""@ + kind.spec_name() + "\",\"time\":"@ + json_quoted(time)
        + "}"@
}

fn push_quoted(s: &mut String, t: &str)
    ensures
        final(s)@ == old(s)@ + json_quoted(t@),
{
    let q = quote(t);
    push_text(s, q.as_str());
}

fn push_optional(s: &mut String, t: &Option<String>)
    ensures
        final(s)@ == old(s)@ + optional_text(*t),
{
    match t {
        Some(text) => push_quoted(s, text.as_str()),
        None => push_text(s, "null"),
    }
}

fn push_flag(s: &mut String, b: bool)
    ensures
        final(s)@ == old(s)@ + flag_text(b),
{
    if b {
        push_text(s, "true");
    } else {
        push_text(s, "false");
    }
}

fn push_number(s: &mut String, n: u32)
    ensures
        final(s)@ == old(s)@ + decimal(n as nat),
{
    push_decimal(s, n as u64);
}

fn push_signed(s: &mut String, n: i64)
    ensures
        final(s)@ == old(s)@ + signed_decimal(n as int),
{
    if n < 0 {
        let magnitude: u64 = ((-(n + 1)) as u64) + 1;
        assert(magnitude as int == -(n as int));
        push_text(s, "-");
        push_decimal(s, magnitude);
        assert(final(s)@ =~= old(s)@ + signed_decimal(n as int));
    } else {
        push_decimal(s, n as u64);
    }
}

fn attribute_value(v: &AttributeValue) -> (t: String)
    ensures
        t@ == attribute_value_text(*v),
{
    let mut t = String::new();
    match v {
        AttributeValue::UnsignedInt(n) => {
            push_text(&mut t, "{\"type\":\"unsigned_int\",\"value\":");
            assert(t@ =~= "{\"type\":\"unsigned_int\",\"value\":"@);
            push_decimal(&mut t, *n);
        },
        AttributeValue::SignedInt(n) => {
            push_text(&mut t, "{\"type\":\"signed_int\",\"value\":");
            assert(t@ =~= "{\"type\":\"signed_int\",\"value\":"@);
            push_signed(&mut t, *n);
        },
        AttributeValue::Text(text) => {
            push_text(&mut t, "{\"type\":\"string\",\"value\":");
            assert(t@ =~= "{\"type\":\"string\",\"value\":"@);
            push_quoted(&mut t, text.as_str());
        },
        AttributeValue::Boolean(b) => {
            push_text(&mut t, "{\"type\":\"boolean\",\"value\":");
            assert(t@ =~= "{\"type\":\"boolean\",\"value\":"@);
            push_flag(&mut t, *b);
        },
    }
    push_text(&mut t, "}");
    t
}

fn push_attribute(s: &mut String, a: &Attribute)
    ensures
        final(s)@ == old(s)@ + attribute_text(*a),
{
    push_quoted(s, a.name.as_str());
    push_text(s, ":");
    let value = attribute_value(&a.value);
    push_text(s, value.as_str());
    assert(final(s)@ =~= old(s)@ + attribute_text(*a));
}

fn push_attributes(s: &mut String, attrs: &Vec<Attribute>)
    ensures
        final(s)@ == old(s)@ + attributes_text(attrs@),
{
    let ghost base = s@;
    push_text(s, "{");
    let mut i: usize = 0;
    while i < attrs.len()
        invariant
            0 <= i <= attrs@.len(),
            s@ == base + "{"@ + attribute_list(attrs@.take(i as int)),
        decreases attrs@.len() - i,
    {
        if i > 0 {
            push_text(s, ",");
        }
        push_attribute(s, &attrs[i]);
        proof {
            assert(attrs@.take(i + 1).drop_last() =~= attrs@.take(i as int));
            assert(s@ =~= base + "{"@ + attribute_list(attrs@.take(i + 1)));
        }
        i += 1;
    }
    push_text(s, "}");
    proof {
        assert(attrs@.take(i as int) =~= attrs@);
        assert(s@ =~= base + attributes_text(attrs@));
    }
}

fn push_scope(s: &mut String, e: &ScopeEntry)
    ensures
        final(s)@ == old(s)@ + scope_text(*e),
{
    push_quoted(s, e.path.as_str());
    push_text(s, ":{\"type\":\"module\",\"definition\":{\"src\":");
    push_optional(s, &e.scope.definition.src);
    push_text(s, ",\"name\":");
    push_optional(s, &e.scope.definition.name);
    push_text(s, ",\"attributes\":");
    push_attributes(s, e.scope.definition.attributes.entries());
    push_text(s, "},\"instantiation\":{\"src\":");
    push_optional(s, &e.scope.instantiation.src);
    push_text(s, ",\"attributes\":");
    push_attributes(s, e.scope.instantiation.attributes.entries());
    push_text(s, "}}");
    assert(final(s)@ =~= old(s)@ + scope_text(*e));
}

fn item_body(item: &Item) -> (t: String)
    ensures
        t@ == item_body_text(*item),
{
    let mut t = String::new();
    match item {
        Item::Node { src, width, lsb_at, settable, input, output, attributes } => {
            push_text(&mut t, "{\"type\":\"node\",\"src\":");
            assert(t@ =~= "{\"type\":\"node\",\"src\":"@);
            push_quoted(&mut t, src.as_str());
            push_text(&mut t, ",\"width\":");
            push_number(&mut t, *width);
            push_text(&mut t, ",\"lsb_at\":");
            push_number(&mut t, *lsb_at);
            push_text(&mut t, ",\"settable\":");
            push_flag(&mut t, *settable);
            push_text(&mut t, ",\"input\":");
            push_flag(&mut t, *input);
            push_text(&mut t, ",\"output\":");
            push_flag(&mut t, *output);
            push_text(&mut t, ",\"attributes\":");
            push_attributes(&mut t, attributes.entries());
            push_text(&mut t, "}");
        },
        Item::Memory { src, width, lsb_at, depth, zero_at, settable, attributes } => {
            push_text(&mut t, "{\"type\":\"memory\",\"src\":");
            assert(t@ =~= "{\"type\":\"memory\",\"src\":"@);
            push_optional(&mut t, src);
            push_text(&mut t, ",\"width\":");
            push_number(&mut t, *width);
            push_text(&mut t, ",\"lsb_at\":");
            push_number(&mut t, *lsb_at);
            push_text(&mut t, ",\"depth\":");
            push_number(&mut t, *depth);
            push_text(&mut t, ",\"zero_at\":");
            push_number(&mut t, *zero_at);
            push_text(&mut t, ",\"settable\":");
            push_flag(&mut t, *settable);
            push_text(&mut t, ",\"attributes\":");
            push_attributes(&mut t, attributes.entries());
            push_text(&mut t, "}");
        },
    }
    t
}

fn push_item(s: &mut String, e: &ItemEntry)
    ensures
        final(s)@ == old(s)@ + item_text(*e),
{
    let mut path = String::new();
    if e.scope.as_str().is_empty() {
        push_text(&mut path, e.name.as_str());
    } else {
        push_text(&mut path, e.scope.as_str());
        push_text(&mut path, " ");
        push_text(&mut path, e.name.as_str());
    }
    assert(path@ =~= item_path(*e));
    push_quoted(s, path.as_str());
    push_text(s, ":");
    let body = item_body(&e.item);
    push_text(s, body.as_str());
    assert(final(s)@ =~= old(s)@ + item_text(*e));
}

fn push_names(s: &mut String, names: &Vec<&'static str>)
    ensures
        final(s)@ == old(s)@ + name_list(Seq::new(names@.len(), |i: int| names@[i]@)),
{
    let ghost base = s@;
    let ghost texts = Seq::new(names@.len(), |i: int| names@[i]@);
    let mut i: usize = 0;
    while i < names.len()
        invariant
            0 <= i <= names@.len(),
            texts == Seq::new(names@.len(), |i: int| names@[i]@),
            s@ == base + name_list(texts.take(i as int)),
        decreases names@.len() - i,
    {
        if i > 0 {
            push_text(s, ",\"");
        } else {
            push_text(s, "\"");
        }
        push_text(s, names[i]);
        push_text(s, "\"");
        proof {
            assert(texts.take(i + 1).drop_last() =~= texts.take(i as int));
            assert(texts.take(i + 1).last() == names@[i as int]@);
            assert(s@ =~= base + name_list(texts.take(i + 1)));
        }
        i += 1;
    }
    proof {
        assert(texts.take(i as int) =~= texts);
        assert(base + Seq::<char>::empty() =~= base);
    }
}

fn push_greeting(s: &mut String, g: &Greeting)
    ensures
        final(s)@ == old(s)@ + response_text(
            ResponseView::Greeting {
                version: g.version,
                commands: g.commands@,
                events: g.events@,
                item_values_encoding: g.item_values_encoding@,
            },
        ),
{
    let mut commands: Vec<&'static str> = Vec::new();
    let mut i: usize = 0;
    while i < g.commands.len()
        invariant
            0 <= i <= g.commands@.len(),
            commands@.len() == i,
            forall|k: int| 0 <= k < i ==> commands@[k]@ == g.commands@[k].spec_name(),
        decreases g.commands@.len() - i,
    {
        commands.push(g.commands[i].name());
        i += 1;
    }
    let mut events: Vec<&'static str> = Vec::new();
    let mut j: usize = 0;
    while j < g.events.len()
        invariant
            0 <= j <= g.events@.len(),
            events@.len() == j,
            forall|k: int| 0 <= k < j ==> events@[k]@ == g.events@[k].spec_name(),
        decreases g.events@.len() - j,
    {
        events.push(g.events[j].name());
        j += 1;
    }
    let mut encodings: Vec<&'static str> = Vec::new();
    let mut n: usize = 0;
    while n < g.item_values_encoding.len()
        invariant
            0 <= n <= g.item_values_encoding@.len(),
            encodings@.len() == n,
            forall|k: int|
                0 <= k < n ==> encodings@[k]@ == g.item_values_encoding@[k].spec_name(),
        decreases g.item_values_encoding@.len() - n,
    {
        encodings.push(g.item_values_encoding[n].name());
        n += 1;
    }
    proof {
        assert(Seq::new(commands@.len(), |i: int| commands@[i]@) =~= Seq::new(
            g.commands@.len(),
            |i: int| g.commands@[i].spec_name(),
        ));
        assert(Seq::new(events@.len(), |i: int| events@[i]@) =~= Seq::new(
            g.events@.len(),
            |i: int| g.events@[i].spec_name(),
        ));
        assert(Seq::new(encodings@.len(), |i: int| encodings@[i]@) =~= Seq::new(
            g.item_values_encoding@.len(),
            |i: int| g.item_values_encoding@[i].spec_name(),
        ));
    }
    push_text(s, "{\"type\":\"greeting\",\"version\":");
    push_number(s, g.version);
    push_text(s, ",\"commands\":[");
    push_names(s, &commands);
    push_text(s, "],\"events\":[");
    push_names(s, &events);
    push_text(s, "],\"features\":{\"item_values_encoding\":[");
    push_names(s, &encodings);
    push_text(s, "]}}");
    assert(final(s)@ =~= old(s)@ + response_text(
        ResponseView::Greeting {
            version: g.version,
            commands: g.commands@,
            events: g.events@,
            item_values_encoding: g.item_values_encoding@,
        },
    ));
}

fn push_scopes(s: &mut String, scopes: &Vec<&ScopeEntry>)
    ensures
        final(s)@ == old(s)@ + scope_list(Seq::new(scopes@.len(), |k: int| *scopes@[k])),
{
    let ghost base = s@;
    let ghost entries = Seq::new(scopes@.len(), |k: int| *scopes@[k]);
    let mut i: usize = 0;
    while i < scopes.len()
        invariant
            0 <= i <= scopes@.len(),
            entries == Seq::new(scopes@.len(), |k: int| *scopes@[k]),
            s@ == base + scope_list(entries.take(i as int)),
        decreases scopes@.len() - i,
    {
        if i > 0 {
            push_text(s, ",");
        }
        push_scope(s, scopes[i]);
        proof {
            assert(entries.take(i + 1).drop_last() =~= entries.take(i as int));
            assert(entries.take(i + 1).last() == *scopes@[i as int]);
            assert(s@ =~= base + scope_list(entries.take(i + 1)));
        }
        i += 1;
    }
    proof {
        assert(entries.take(i as int) =~= entries);
        assert(base + Seq::<char>::empty() =~= base);
    }
}

fn push_items(s: &mut String, items: &Vec<&ItemEntry>)
    ensures
        final(s)@ == old(s)@ + item_list(Seq::new(items@.len(), |k: int| *items@[k])),
{
    let ghost base = s@;
    let ghost entries = Seq::new(items@.len(), |k: int| *items@[k]);
    let mut i: usize = 0;
    while i < items.len()
        invariant
            0 <= i <= items@.len(),
            entries == Seq::new(items@.len(), |k: int| *items@[k]),
            s@ == base + item_list(entries.take(i as int)),
        decreases items@.len() - i,
    {
        if i > 0 {
            push_text(s, ",");
        }
        push_item(s, items[i]);
        proof {
            assert(entries.take(i + 1).drop_last() =~= entries.take(i as int));
            assert(entries.take(i + 1).last() == *items@[i as int]);
            assert(s@ =~= base + item_list(entries.take(i + 1)));
        }
        i += 1;
    }
    proof {
        assert(entries.take(i as int) =~= entries);
        assert(base + Seq::<char>::empty() =~= base);
    }
}

/// Writes a response as compact JSON.
pub fn render_response(response: &Response) -> (r: String)
    ensures
        r@ == response_text(response@),
{
    let mut s = String::new();
    match response {
        Response::Greeting(g) => {
            push_greeting(&mut s, g);
        },
        Response::ListScopes { scopes } => {
            push_text(&mut s, "{\"type\":\"response\",\"command\":\"list_scopes\",\"scopes\":{");
            push_scopes(&mut s, scopes);
            push_text(&mut s, "}}");
        },
        Response::ListItems { items } => {
            push_text(&mut s, "{\"type\":\"response\",\"command\":\"list_items\",\"items\":{");
            push_items(&mut s, items);
            push_text(&mut s, "}}");
        },
        Response::SimulationStatus { status, latest_time } => {
            push_text(
                &mut s,
                "{\"type\":\"response\",\"command\":\"get_simulation_status\",\"status\":",
            );
            match status {
                SimStatus::Running => push_text(&mut s, "\"running\""),
                SimStatus::Paused => push_text(&mut s, "\"paused\""),
                SimStatus::Finished => push_text(&mut s, "\"finished\""),
            }
            push_text(&mut s, ",\"latest_time\":");
            push_quoted(&mut s, latest_time.as_str());
            push_text(&mut s, "}");
        },
        Response::RunSimulation => {
            push_text(&mut s, "{\"type\":\"response\",\"command\":\"run_simulation\"}");
        },
        Response::PauseSimulation => {
            push_text(&mut s, "{\"type\":\"response\",\"command\":\"pause_simulation\"}");
        },
        Response::UnsupportedCommand { command } => {
            push_text(&mut s, "{\"type\":\"error\",\"error\":\"invalid_command\",\"command\":");
            push_quoted(&mut s, command.as_str());
            push_text(&mut s, ",\"message\":\"the command is not supported\"}");
        },
        Response::Error { kind } => match kind {
            ErrorKind::Framing => push_text(
                &mut s,
                "{\"type\":\"error\",\"error\":\"invalid_frame\",\"message\":\"the frame is not UTF-8\"}",
            ),
            ErrorKind::Decode => push_text(
                &mut s,
                "{\"type\":\"error\",\"error\":\"invalid_message\",\"message\":\"the frame is no known message\"}",
            ),
            ErrorKind::Sequencing => push_text(
                &mut s,
                "{\"type\":\"error\",\"error\":\"protocol_error\",\"message\":\"a command was sent before the greeting\"}",
            ),
        },
    }
    assert(s@ =~= response_text(response@));
    s
}

/// Writes an event as compact JSON.
pub fn render_event(event: &Event) -> (r: String)
    ensures
        r@ == event_text(event.kind, event.time@),
{
    let mut s = String::new();
    push_text(&mut s, "{\"type\":\"event\",\"event\":\"");
    push_text(&mut s, event.kind.name());
    push_text(&mut s, "\",\"time\":");
    push_quoted(&mut s, event.time.as_str());
    push_text(&mut s, "}");
    assert(s@ =~= event_text(event.kind, event.time@));
    s
}

/// The JSON text of a request, as a client writes it.
pub open spec fn request_text(r: RequestView) -> Seq<char> {
    match r {
        RequestView::Greeting { version } => "{\"type\":\"greeting\",\"version\":"@ + decimal(
            version as nat,
        ) + "}"@,
        RequestView::Command { command, scope } => "{\"type\":\"command\",\"command\":\""@
            + command.spec_name() + "\",\"scope\":"@ + match scope {
            Some(path) => json_quoted(path),
            None => "null"@,
        } + "}"@,
        RequestView::UnknownCommand { name } => "{\"type\":\"command\",\"command\":"@
            + json_quoted(name) + "}"@,
    }
}

/// Writes a request as compact JSON.
pub fn render_request(request: &Request) -> (r: String)
    ensures
        r@ == request_text(request@),
{
    let mut s = String::new();
    match request {
        Request::Greeting { version } => {
            push_text(&mut s, "{\"type\":\"greeting\",\"version\":");
            assert(s@ =~= "{\"type\":\"greeting\",\"version\":"@);
            push_number(&mut s, *version);
        },
        Request::Command { command, scope } => {
            push_text(&mut s, "{\"type\":\"command\",\"command\":\"");
            assert(s@ =~= "{\"type\":\"command\",\"command\":\""@);
            push_text(&mut s, command.name());
            push_text(&mut s, "\",\"scope\":");
            match scope {
                Some(path) => push_quoted(&mut s, path.as_str()),
                None => push_text(&mut s, "null"),
            }
        },
        Request::UnknownCommand { name } => {
            push_text(&mut s, "{\"type\":\"command\",\"command\":");
            assert(s@ =~= "{\"type\":\"command\",\"command\":"@);
            push_quoted(&mut s, name.as_str());
        },
    }
    push_text(&mut s, "}");
    s
}

/// The bytes that a reply puts on the wire: the response as one frame, and
/// behind it the event, if there is one, as a frame of its own.
pub open spec fn reply_bytes(reply: ReplyView) -> Seq<u8> {
    encode_utf8(response_text(reply.response)).push(0u8) + match reply.event {
        Some((kind, time)) => encode_utf8(event_text(kind, time)).push(0u8),
        None => Seq::empty(),
    }
}

/// Writes a reply as the frames that go out for it.
pub fn frame_reply(reply: &Reply) -> (r: Vec<u8>)
    ensures
        r@ == reply_bytes(reply@),
{
    let text = render_response(&reply.response);
    let mut out = frame_message(text.as_str());
    match &reply.event {
        Some(event) => {
            let text = render_event(event);
            let frame = frame_message(text.as_str());
            out.extend_from_slice(frame.as_slice());
        },
        None => {
            assert(out@ + Seq::<u8>::empty() =~= out@);
        },
    }
    out
}

} // verus!
