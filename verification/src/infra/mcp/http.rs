//! A server reached over HTTP: one request carries one message, and its answer comes back in
//! the response body.
use crate::dict::{entry_keys, Dict};
use crate::json;
use crate::json::{array_view, parsed_json, Json, JsonView};
use crate::text;
use crate::text::{lines_from, opt_text, pairs, starts_with, trim};
use vstd::prelude::*;

verus! {

// ── Bodies ────────────────────────────────────────────────────────────────────

/// What has been read of a stream: the data of the events that ended, and that of the event
/// being read.
#[verifier::ext_equal]
pub struct StreamView {
    pub events: Seq<Seq<char>>,
    pub data: Seq<char>,
}

/// The end of an event. One without data is none.
pub open spec fn event_ended(s: StreamView) -> StreamView {
    StreamView {
        events: if trim(s.data).len() == 0 {
            s.events
        } else {
            s.events.push(s.data)
        },
        data: Seq::empty(),
    }
}

/// What a line of data holds: what stands behind the field's name, without one space.
pub open spec fn data_of(line: Seq<char>) -> Seq<char> {
    let rest = line.skip("data:"@.len() as int);
    if starts_with(rest, " "@) {
        rest.skip(" "@.len() as int)
    } else {
        rest
    }
}

/// What has been read after one more line: an empty one ends an event, a line of data adds to
/// it, and any other is read past.
pub open spec fn line_read(s: StreamView, line: Seq<char>) -> StreamView {
    if line.len() == 0 {
        event_ended(s)
    } else if starts_with(line, "data:"@) {
        StreamView {
            data: if s.data.len() > 0 {
                s.data.push('\n') + data_of(line)
            } else {
                s.data + data_of(line)
            },
            ..s
        }
    } else {
        s
    }
}

/// What has been read after several lines.
pub open spec fn lines_read(lines: Seq<Seq<char>>) -> StreamView
    decreases lines.len(),
{
    if lines.len() == 0 {
        StreamView { events: Seq::empty(), data: Seq::empty() }
    } else {
        line_read(lines_read(lines.drop_last()), lines.last())
    }
}

/// The data of the events of a stream. The last event needs no blank line behind it.
pub open spec fn stream_events(body: Seq<char>) -> Seq<Seq<char>> {
    event_ended(lines_read(lines_from(body, 0))).events
}

/// The messages that several events are. One that is not JSON is none.
pub open spec fn event_messages(events: Seq<Seq<char>>) -> Seq<JsonView>
    decreases events.len(),
{
    if events.len() == 0 {
        Seq::empty()
    } else {
        match parsed_json(events.last()) {
            Ok(v) => event_messages(events.drop_last()).push(v),
            Err(_) => event_messages(events.drop_last()),
        }
    }
}

/// The messages of a stream of events.
pub open spec fn stream_messages(body: Seq<char>) -> Seq<JsonView> {
    event_messages(stream_events(body))
}

/// Ends an event.
pub fn end_of_event(events: &mut Vec<String>, data: &mut String)
    ensures
        (StreamView { events: text::texts(final(events)@), data: final(data)@ }) == event_ended(
            StreamView { events: text::texts(old(events)@), data: old(data)@ },
        ),
{
    if !text::blank(data.as_str()) {
        let ghost before = text::texts(events@);
        let ghost dv = data@;
        events.push(data.clone());
        assert(text::texts(events@) =~= before.push(dv));
    }
    *data = String::new();
}

/// The data of the events in a stream.
pub fn sse_events(body: &str) -> (r: Vec<String>)
    ensures
        text::texts(r@) == stream_events(body@),
{
    let mut events: Vec<String> = Vec::new();
    let mut data = String::new();
    let lines = text::lines(body);
    let ghost all = text::texts(lines@);
    assert((StreamView { events: text::texts(events@), data: data@ }) =~= lines_read(all.take(0)));
    for i in 0..lines.len()
        invariant
            all == text::texts(lines@),
            (StreamView { events: text::texts(events@), data: data@ }) == lines_read(
                all.take(i as int),
            ),
    {
        assert(all.take(i + 1).drop_last() =~= all.take(i as int));
        assert(all.take(i + 1).last() == lines@[i as int]@);
        let line = lines[i].as_str();
        if text::empty(line) {
            end_of_event(&mut events, &mut data);
        } else if let Some(rest) = text::after_prefix(line, "data:") {
            if !text::empty(data.as_str()) {
                data.push('\n');
            }
            match text::after_prefix(rest.as_str(), " ") {
                Some(behind) => data.append(behind.as_str()),
                None => data.append(rest.as_str()),
            }
        }
    }
    assert(all.take(all.len() as int) =~= all);
    end_of_event(&mut events, &mut data);
    events
}

/// The messages in a stream of events. An event that is not JSON is dropped rather than
/// failing the call: a server may send things this client does not know about.
pub fn sse_messages(body: &str) -> (r: Vec<Json>)
    ensures
        array_view(r@) == stream_messages(body@),
{
    let events = sse_events(body);
    let ghost all = text::texts(events@);
    let mut messages: Vec<Json> = Vec::new();
    assert(array_view(messages@) =~= event_messages(all.take(0)));
    for i in 0..events.len()
        invariant
            all == text::texts(events@),
            array_view(messages@) == event_messages(all.take(i as int)),
    {
        assert(all.take(i + 1).drop_last() =~= all.take(i as int));
        assert(all.take(i + 1).last() == events@[i as int]@);
        if let Ok(v) = json::parse(events[i].as_str()) {
            let ghost before = messages@;
            let ghost vv = v@;
            messages.push(v);
            assert(array_view(messages@) =~= array_view(before).push(vv));
        }
    }
    assert(all.take(all.len() as int) =~= all);
    messages
}

/// The messages of a response body, or why it has none: a stream, one value, or a batch of
/// them.
pub open spec fn body_messages(content_type: Seq<char>, body: Seq<char>) -> Result<
    Seq<JsonView>,
    Seq<char>,
> {
    if trim(body).len() == 0 {
        Ok(Seq::empty())
    } else if starts_with(content_type, "text/event-stream"@) {
        Ok(stream_messages(body))
    } else {
        match parsed_json(body) {
            Ok(JsonView::Array(values)) => Ok(values),
            Ok(one) => Ok(seq![one]),
            Err(_) => Err("Failed to parse MCP JSON-RPC response: "@ + trim(body)),
        }
    }
}

/// The messages a response body carries, in the order the server sent them.
pub fn parse_body(content_type: &str, body: &str) -> (r: Result<Vec<Json>, String>)
    ensures
        match r {
            Ok(messages) => body_messages(content_type@, body@) == Ok::<Seq<JsonView>, Seq<char>>(
                array_view(messages@),
            ),
            Err(e) => body_messages(content_type@, body@) == Err::<Seq<JsonView>, Seq<char>>(e@),
        },
{
    if text::blank(body) {
        let none: Vec<Json> = Vec::new();
        assert(array_view(none@) =~= Seq::<JsonView>::empty());
        return Ok(none);
    }
    if text::begins(content_type, "text/event-stream") {
        return Ok(sse_messages(body));
    }
    match json::parse(body) {
        Ok(v) => Ok(messages_of(v)),
        Err(_) => {
            let mut e = "Failed to parse MCP JSON-RPC response: ".to_owned();
            e.append(text::trimmed(body).as_str());
            Err(e)
        },
    }
}

/// The messages a value is: a batch is flattened.
pub fn messages_of(v: Json) -> (r: Vec<Json>)
    ensures
        array_view(r@) == match v@ {
            JsonView::Array(values) => values,
            one => seq![one],
        },
{
    match v {
        Json::Array(values) => values,
        one => {
            let mut out: Vec<Json> = Vec::new();
            let ghost ov = one@;
            out.push(one);
            assert(array_view(out@) =~= seq![ov]);
            out
        },
    }
}

// ── The exchange ──────────────────────────────────────────────────────────────

/// A conversation with a server over HTTP.
#[derive(Debug)]
pub struct Http {
    pub url: String,
    /// Sent with every request. How a server is authenticated.
    pub headers: Dict<String>,
    /// The session the server assigned, if it assigned one.
    pub session: Option<String>,
    /// The version the server answered with, echoed on every later request.
    pub protocol: Option<String>,
    /// What the last response carried and no caller has taken yet.
    pub pending: Vec<Json>,
}

/// The headers of several names.
pub open spec fn named_headers(names: Seq<Seq<char>>, values: Map<Seq<char>, Seq<char>>) -> Seq<
    (Seq<char>, Seq<char>),
> {
    names.map_values(|k: Seq<char>| (k, values[k]))
}

/// A header that is sent where there is a value for it.
pub open spec fn header_where_set(name: Seq<char>, value: Option<String>) -> Seq<
    (Seq<char>, Seq<char>),
> {
    match value {
        Some(v) => seq![(name, v@)],
        None => Seq::empty(),
    }
}

/// What goes with a request: what it is and what may come back, the definition's own headers,
/// and then the session and the protocol version, each once the server has named one.
pub open spec fn headers_sent(http: Http) -> Seq<(Seq<char>, Seq<char>)> {
    seq![
        ("content-type"@, "application/json"@),
        ("accept"@, "application/json, text/event-stream"@),
    ] + named_headers(entry_keys(http.headers.entries@), http.headers.texts())
        + header_where_set("mcp-session-id"@, http.session)
        + header_where_set("mcp-protocol-version"@, http.protocol)
}

/// What came back of one request.
#[derive(Debug)]
pub struct HttpReply {
    /// The session the response names, where it names one.
    pub session: Option<String>,
    pub status: u16,
    /// The status, as it is shown to a person.
    pub shown: String,
    pub content_type: String,
    pub body: String,
}

/// The session once a response has come: the one it names, or the one there was.
pub open spec fn session_after(old_session: Option<String>, reply: HttpReply) -> Option<Seq<char>> {
    match reply.session {
        Some(s) => Some(s@),
        None => opt_text(old_session),
    }
}

/// Whether a response says that the server has forgotten the session.
pub open spec fn is_forgotten(old_session: Option<String>, reply: HttpReply) -> bool {
    reply.status == 404 && session_after(old_session, reply) is Some
}

/// Why nothing came back of a request, where that is so.
pub open spec fn exchange_problem(
    url: Seq<char>,
    old_session: Option<String>,
    reply: HttpReply,
) -> Option<Seq<char>> {
    if is_forgotten(old_session, reply) {
        Some(
            "MCP server at "@ + url
                + " no longer knows this session; it ended the conversation"@,
        )
    } else if !(200 <= reply.status <= 299) {
        Some(
            "MCP server at "@ + url + " answered "@ + reply.shown@ + ": "@ + trim(reply.body@),
        )
    } else {
        match body_messages(reply.content_type@, reply.body@) {
            Ok(_) => None,
            Err(e) => Some(e),
        }
    }
}

impl Http {
    /// A conversation that has not begun.
    pub fn new(url: String, headers: Dict<String>) -> (r: Http)
        ensures
            r.url == url,
            r.headers == headers,
            r.session is None,
            r.protocol is None,
            r.pending@.len() == 0,
    {
        Http { url, headers, session: None, protocol: None, pending: Vec::new() }
    }

    /// The headers of a request. Both kinds of body are accepted, because the server chooses
    /// which to send.
    pub fn request_headers(&self) -> (r: Vec<(String, String)>)
        ensures
            pairs(r@) == headers_sent(*self),
    {
        let mut out: Vec<(String, String)> = Vec::new();
        out.push(("content-type".to_owned(), "application/json".to_owned()));
        out.push(("accept".to_owned(), "application/json, text/event-stream".to_owned()));
        let ghost fixed = pairs(out@);
        assert(fixed =~= seq![
            ("content-type"@, "application/json"@),
            ("accept"@, "application/json, text/event-stream"@),
        ]);
        let names = self.headers.keys();
        let ghost all = text::texts(names@);
        let ghost own = named_headers(all, self.headers.texts());
        proof {
            crate::dict::lemma_entry_keys(self.headers.entries@);
        }
        assert(pairs(out@) =~= fixed + own.take(0));
        for i in 0..names.len()
            invariant
                all == text::texts(names@),
                all == entry_keys(self.headers.entries@),
                forall|k: Seq<char>|
                    all.contains(k) <==> #[trigger] self.headers@.contains_key(k),
                own == named_headers(all, self.headers.texts()),
                pairs(out@) == fixed + own.take(i as int),
        {
            let ghost key = all[i as int];
            assert(all.contains(key));
            assert(self.headers@.contains_key(key));
            if let Some(value) = self.headers.get_text(names[i].as_str()) {
                let ghost before = pairs(out@);
                out.push((names[i].clone(), value.to_owned()));
                assert(pairs(out@) =~= before.push((key, self.headers.texts()[key])));
                assert(pairs(out@) =~= fixed + own.take(i + 1));
            }
        }
        assert(own.take(own.len() as int) =~= own);
        let ghost so_far = pairs(out@);
        if let Some(session) = &self.session {
            out.push(("mcp-session-id".to_owned(), session.clone()));
        }
        assert(pairs(out@) =~= so_far + header_where_set("mcp-session-id"@, self.session));
        let ghost so_far = pairs(out@);
        if let Some(protocol) = &self.protocol {
            out.push(("mcp-protocol-version".to_owned(), protocol.clone()));
        }
        assert(pairs(out@) =~= so_far + header_where_set("mcp-protocol-version"@, self.protocol));
        out
    }

    /// Remember the protocol version the server answered with.
    pub fn negotiated(&mut self, version: &str)
        ensures
            final(self).protocol is Some,
            final(self).protocol->0@ == version@,
            *final(self) == (Http { protocol: final(self).protocol, ..*old(self) }),
    {
        self.protocol = Some(version.to_owned());
    }

    /// Takes what came back of a request: what the body carries waits to be taken, and a
    /// session is remembered, or forgotten where the server has forgotten it.
    pub fn on_reply(&mut self, reply: &HttpReply) -> (r: Result<(), String>)
        ensures
            opt_text(final(self).session) == if is_forgotten(old(self).session, *reply) {
                None
            } else {
                session_after(old(self).session, *reply)
            },
            final(self).url == old(self).url,
            final(self).headers == old(self).headers,
            final(self).protocol == old(self).protocol,
            match r {
                Ok(()) => exchange_problem(old(self).url@, old(self).session, *reply) is None
                    && array_view(final(self).pending@) == array_view(old(self).pending@)
                    + body_messages(reply.content_type@, reply.body@)->Ok_0,
                Err(e) => exchange_problem(old(self).url@, old(self).session, *reply) == Some(e@)
                    && final(self).pending == old(self).pending,
            },
    {
        if let Some(s) = &reply.session {
            self.session = Some(s.clone());
        }
        if reply.status == 404 && self.session.is_some() {
            self.session = None;
            let mut e = "MCP server at ".to_owned();
            e.append(self.url.as_str());
            e.append(" no longer knows this session; it ended the conversation");
            return Err(e);
        }
        if reply.status < 200 || reply.status > 299 {
            let mut e = "MCP server at ".to_owned();
            e.append(self.url.as_str());
            e.append(" answered ");
            e.append(reply.shown.as_str());
            e.append(": ");
            e.append(text::trimmed(reply.body.as_str()).as_str());
            return Err(e);
        }
        match parse_body(reply.content_type.as_str(), reply.body.as_str()) {
            Ok(messages) => {
                let ghost before = self.pending@;
                let mut more = messages;
                let ghost mv = more@;
                self.pending.append(&mut more);
                assert(array_view(self.pending@) =~= array_view(before) + array_view(mv));
                Ok(())
            },
            Err(e) => Err(e),
        }
    }

    /// The next message the server sent, in the order it sent them.
    pub fn next_message(&mut self) -> (r: Result<Json, String>)
        ensures
            match r {
                Ok(v) => {
                    &&& old(self).pending@.len() > 0
                    &&& v == old(self).pending@[0]
                    &&& final(self).pending@ == old(self).pending@.drop_first()
                },
                Err(e) => old(self).pending@.len() == 0 && final(self).pending == old(self).pending
                    && e@ == "MCP server at "@ + old(self).url@
                    + " sent no response to the request"@,
            },
            *final(self) == (Http { pending: final(self).pending, ..*old(self) }),
    {
        if self.pending.len() == 0 {
            let mut e = "MCP server at ".to_owned();
            e.append(self.url.as_str());
            e.append(" sent no response to the request");
            return Err(e);
        }
        let v = self.pending.remove(0);
        assert(self.pending@ =~= old(self).pending@.drop_first());
        Ok(v)
    }
}

// ── What an exchange promises ─────────────────────────────────────────────────

/// A stream is read line by line: a line of data adds itself to its event, whole and on a line
/// of its own; an empty line ends the event; and any other line is read past.
pub proof fn law_a_stream_is_read_line_by_line(s: StreamView, data: Seq<char>, line: Seq<char>)
    ensures
        ({
            let after = line_read(s, "data: "@ + data);
            &&& after.events == s.events
            &&& s.data.len() == 0 ==> after.data == data
            &&& s.data.len() > 0 ==> after.data == s.data.push('\n') + data
        }),
        data.len() == 0 || data[0] != ' ' ==> line_read(s, "data:"@ + data) == line_read(
            s,
            "data: "@ + data,
        ),
        ({
            let after = line_read(s, Seq::empty());
            &&& after.data.len() == 0
            &&& trim(s.data).len() > 0 ==> after.events == s.events.push(s.data)
            &&& trim(s.data).len() == 0 ==> after.events == s.events
        }),
        line.len() > 0 && !starts_with(line, "data:"@) ==> line_read(s, line) == s,
{
    reveal_strlit("data:");
    reveal_strlit("data: ");
    reveal_strlit(" ");
    let a = "data: "@ + data;
    let b = "data:"@ + data;
    assert(a.subrange(0, 5) =~= "data:"@);
    assert(b.subrange(0, 5) =~= "data:"@);
    assert(a.skip(5).subrange(0, 1) =~= " "@);
    assert(a.skip(5).skip(1) =~= data);
    assert(b.skip(5) =~= data);
    if starts_with(data, " "@) {
        assert(data.subrange(0, 1)[0] == data[0]);
        assert(" "@[0] == ' ');
    }
    assert(s.data + data =~= if s.data.len() == 0 {
        data
    } else {
        s.data + data
    });
}

/// The lines of a stream are read one after the other, and what has not ended when the stream
/// does is an event too.
pub proof fn law_every_line_of_a_stream_is_read(lines: Seq<Seq<char>>, line: Seq<char>)
    ensures
        lines_read(Seq::empty()).events.len() == 0,
        lines_read(Seq::empty()).data.len() == 0,
        lines_read(lines.push(line)) == line_read(lines_read(lines), line),
        trim(lines_read(lines).data).len() > 0 ==> event_ended(lines_read(lines)).events
            == lines_read(lines).events.push(lines_read(lines).data),
        trim(lines_read(lines).data).len() == 0 ==> event_ended(lines_read(lines)).events
            == lines_read(lines).events,
{
    assert(lines.push(line).drop_last() =~= lines);
}

/// Every event that is JSON is a message, in its order, and no other is.
pub proof fn law_every_event_that_is_json_is_a_message(events: Seq<Seq<char>>, event: Seq<char>)
    ensures
        event_messages(Seq::empty()).len() == 0,
        match parsed_json(event) {
            Ok(v) => event_messages(events.push(event)) == event_messages(events).push(v),
            Err(_) => event_messages(events.push(event)) == event_messages(events),
        },
{
    assert(events.push(event).drop_last() =~= events);
}

/// A body carries the messages of its stream, or its one value, or each value of its batch; an
/// empty one carries none; and only one that is neither stream nor JSON is a problem.
pub proof fn law_a_body_carries_its_messages(
    content_type: Seq<char>,
    body: Seq<char>,
    values: Seq<JsonView>,
)
    ensures
        trim(body).len() == 0 ==> body_messages(content_type, body) == Ok::<
            Seq<JsonView>,
            Seq<char>,
        >(Seq::empty()),
        trim(body).len() > 0 && starts_with(content_type, "text/event-stream"@) ==> body_messages(
            content_type,
            body,
        ) == Ok::<Seq<JsonView>, Seq<char>>(stream_messages(body)),
        trim(body).len() > 0 && !starts_with(content_type, "text/event-stream"@) ==> {
            &&& body_messages(content_type, body) is Err <==> parsed_json(body) is Err
            &&& parsed_json(body) == Ok::<JsonView, (Seq<char>, bool)>(JsonView::Array(values))
                ==> body_messages(content_type, body)->Ok_0 == values
            &&& parsed_json(body) is Ok && !(parsed_json(body)->Ok_0 is Array) ==> body_messages(
                content_type,
                body,
            )->Ok_0 == seq![parsed_json(body)->Ok_0]
        },
        stream_messages(body) == event_messages(event_ended(lines_read(lines_from(body, 0))).events),
{
}

/// A session is the one the last response named; it is forgotten exactly where the server does
/// not find it; and a request came to something exactly where its status says so and its body
/// can be read.
pub proof fn law_an_exchange_came_to_what_the_server_says(
    url: Seq<char>,
    old_session: Option<String>,
    reply: HttpReply,
)
    ensures
        reply.session is Some ==> session_after(old_session, reply) == Some(reply.session->0@),
        reply.session is None ==> session_after(old_session, reply) == opt_text(old_session),
        is_forgotten(old_session, reply) <==> reply.status == 404 && (reply.session is Some
            || old_session is Some),
        exchange_problem(url, old_session, reply) is None <==> reply.status >= 200 && reply.status
            < 300 && body_messages(reply.content_type@, reply.body@) is Ok,
{
}

/// A request says what it carries and what it takes, and carries every header of its server's
/// definition; and it names the session and the protocol exactly where the server has.
pub proof fn law_a_request_carries_its_headers(http: Http, i: int)
    ensures
        ({
            let sent = headers_sent(http);
            let keys = entry_keys(http.headers.entries@);
            let session: int = if http.session is Some { 1 } else { 0 };
            let protocol: int = if http.protocol is Some { 1 } else { 0 };
            &&& sent.len() == 2 + keys.len() + session + protocol
            &&& sent[0] == ("content-type"@, "application/json"@)
            &&& sent[1] == ("accept"@, "application/json, text/event-stream"@)
            &&& 0 <= i < keys.len() ==> sent[2 + i] == (keys[i], http.headers.texts()[keys[i]])
            &&& http.session is Some ==> sent[2 + keys.len() as int] == (
                "mcp-session-id"@,
                http.session->0@,
            )
            &&& http.protocol is Some ==> sent.last() == (
                "mcp-protocol-version"@,
                http.protocol->0@,
            )
        }),
{
}

} // verus!
