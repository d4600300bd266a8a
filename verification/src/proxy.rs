//! The proxy between a client and a running server: health, forwarding,
//! retries and reconnecting.
use vstd::prelude::*;

use crate::json;
use crate::json::{as_tool_result, member, parse};
use crate::numbers;
use crate::numbers::{parse_number, to_decimal};
use crate::sorting;
use crate::text;
use crate::text::{
    chars_of, concat, lines, owned, starts_with, str_contains, str_eq, string_of, trim,
};

verus! {

/// The port of the server, where nothing else is set.
pub const DEFAULT_SERVE_PORT: u16 = 39725;

/// The base address of a server on a port of this machine.
pub open spec fn serve_url_text(port: nat) -> Seq<char> {
    "http://127.0.0.1:"@ + numbers::decimal(port)
}

/// The base address of the server: on the port that the setting names, or on
/// the default one where it names none.
pub fn serve_url_from_env(port_setting: Option<&str>) -> (r: String)
    ensures
        r@ == serve_url_text(
            match port_setting {
                Some(s) => match numbers::parsed(s@, u16::MAX as nat) {
                    Some(p) => p,
                    None => DEFAULT_SERVE_PORT as nat,
                },
                None => DEFAULT_SERVE_PORT as nat,
            },
        ),
{
    let port: u64 = match port_setting {
        Some(s) => match parse_number(chars_of(s).as_slice(), u16::MAX as u64) {
            Some(p) => p,
            None => DEFAULT_SERVE_PORT as u64,
        },
        None => DEFAULT_SERVE_PORT as u64,
    };
    concat("http://127.0.0.1:", string_of(to_decimal(port).as_slice()).as_str())
}

// ---------------------------------------------------------------------------
// Health
// ---------------------------------------------------------------------------

/// What a health check answered.
#[derive(Debug)]
pub struct HealthBody {
    pub codesearch_server: bool,
    pub version: String,
}

/// What is made of the answer to a health check.
pub open spec fn judged(
    server: bool,
    version: Seq<char>,
    my_version: Seq<char>,
    r: Result<bool, String>,
) -> bool {
    if !server {
        r == Ok::<bool, String>(false)
    } else if version == my_version {
        r == Ok::<bool, String>(true)
    } else {
        r matches Err(m) && m@ == "codesearch serve version mismatch: serve="@ + version + " mcp="@
            + my_version + ". Restart serve or update the mcp binary."@
    }
}

/// What to make of a health check: whether the server can be used, or an error
/// where it has another version. `None` stands for no answer, or a bad one.
pub fn check_health(body: &Option<HealthBody>, my_version: &str) -> (r: Result<bool, String>)
    ensures
        match *body {
            None => r == Ok::<bool, String>(false),
            Some(b) => judged(b.codesearch_server, b.version@, my_version@, r),
        },
{
    match body {
        None => Ok(false),
        Some(b) => {
            if !b.codesearch_server {
                Ok(false)
            } else if str_eq(b.version.as_str(), my_version) {
                Ok(true)
            } else {
                let x = concat("codesearch serve version mismatch: serve=", b.version.as_str());
                let y = concat(concat(x.as_str(), " mcp=").as_str(), my_version);
                Err(concat(y.as_str(), ". Restart serve or update the mcp binary."))
            }
        },
    }
}

// ---------------------------------------------------------------------------
// Forwarding
// ---------------------------------------------------------------------------

/// What a session is told whose server is gone.
pub open spec fn dead_text(url: Seq<char>) -> Seq<char> {
    "codesearch serve is no longer reachable at "@ + url
        + ". This MCP session cannot recover. Restart the MCP client to reconnect, or restart `codesearch serve` first."@
}

/// What a session is told whose server is gone.
pub fn dead_session_text(url: &str) -> (r: String)
    ensures
        r@ == dead_text(url@),
{
    concat(
        concat("codesearch serve is no longer reachable at ", url).as_str(),
        ". This MCP session cannot recover. Restart the MCP client to reconnect, or restart `codesearch serve` first.",
    )
}

/// What became of a request that was sent to the server.
#[derive(Clone, Copy, PartialEq, Eq, Structural, Debug)]
pub enum ServerReply {
    /// The request did not get through, or its answer could not be read.
    Broken,
    /// A stream of events; whether one of them holds a result.
    Events { has_result: bool },
    /// A JSON document without a result.
    NoResult,
    /// A JSON document with a result; whether it can be used.
    Result { usable: bool },
}

/// What the client is answered.
#[derive(Debug)]
pub enum Answer {
    /// The result of the server, unchanged.
    PassOn,
    /// This text in its place.
    Text(String),
}

/// The reply carries a result that can be passed on.
pub open spec fn carries_result(reply: ServerReply) -> bool {
    reply == (ServerReply::Events { has_result: true }) || reply == (ServerReply::Result {
        usable: true,
    })
}

/// Whether the session is dead after a reply: a reply that cannot be used ends
/// it, unless it is a document without a result.
pub open spec fn lost_step(lost: bool, reply: ServerReply) -> bool {
    lost || !(carries_result(reply) || reply is NoResult)
}

/// Whether the session is dead after a number of replies.
pub open spec fn lost_after(lost: bool, replies: Seq<ServerReply>) -> bool
    decreases replies.len(),
{
    if replies.len() == 0 {
        lost
    } else {
        lost_step(lost_after(lost, replies.drop_last()), replies.last())
    }
}

/// A session with a server. Once the server has been lost, the session stays
/// dead.
#[derive(Debug)]
pub struct McpProxy {
    base_url: String,
    dead: bool,
}

impl McpProxy {
    /// The address of the server.
    pub closed spec fn url(&self) -> Seq<char> {
        self.base_url@
    }

    /// The server has been lost.
    pub closed spec fn lost(&self) -> bool {
        self.dead
    }

    /// A session with the server at an address.
    pub fn new(base_url: String) -> (r: McpProxy)
        ensures
            r.url() == base_url@,
            !r.lost(),
    {
        McpProxy { base_url, dead: false }
    }

    /// Whether the server has been lost.
    pub fn is_dead(&self) -> (r: bool)
        ensures
            r == self.lost(),
    {
        self.dead
    }

    /// The address of the server.
    pub fn base_url(&self) -> (r: &str)
        ensures
            r@ == self.url(),
    {
        self.base_url.as_str()
    }

    /// Whether a request is sent at all: a dead session answers at once.
    pub fn before_forward(&self) -> (r: Option<Answer>)
        ensures
            self.lost() ==> (r matches Some(Answer::Text(t)) && t@ == dead_text(self.url())),
            !self.lost() ==> r is None,
    {
        if self.dead {
            Some(Answer::Text(dead_session_text(self.base_url.as_str())))
        } else {
            None
        }
    }

    /// What the client is answered to a reply of the server. A reply that cannot
    /// be used ends the session, unless it is a document without a result.
    pub fn after_forward(&mut self, reply: ServerReply) -> (r: Answer)
        ensures
            final(self).url() == old(self).url(),
            final(self).lost() == lost_step(old(self).lost(), reply),
            carries_result(reply) ==> r is PassOn,
            !carries_result(reply) ==> (r matches Answer::Text(t) && t@ == dead_text(
                old(self).url(),
            )),
    {
        let usable = match reply {
            ServerReply::Broken => false,
            ServerReply::Events { has_result } => has_result,
            ServerReply::NoResult => false,
            ServerReply::Result { usable } => usable,
        };
        let harmless = match reply {
            ServerReply::NoResult => true,
            _ => false,
        };
        if usable {
            Answer::PassOn
        } else {
            if !harmless {
                self.dead = true;
            }
            Answer::Text(dead_session_text(self.base_url.as_str()))
        }
    }
}

/// The data of the events in a stream, one after the other.
pub open spec fn event_data(all: Seq<Seq<char>>) -> Seq<Seq<char>>
    decreases all.len(),
{
    if all.len() == 0 {
        Seq::empty()
    } else {
        let before = event_data(all.drop_last());
        let line = all.last();
        if text::begins_with(line, "data: "@) {
            before.push(text::trimmed(line.skip("data: "@.len() as int)))
        } else {
            before
        }
    }
}

/// The data of the events in a stream: what follows `data: ` on its lines.
pub fn sse_data(body: &str) -> (r: Vec<String>)
    ensures
        text::views(r@) == event_data(text::text_lines(body@)),
{
    let all = lines(chars_of(body).as_slice());
    let ghost ls = text::text_lines(body@);
    let prefix = chars_of("data: ");
    let mut out: Vec<String> = Vec::new();
    let mut i: usize = 0;
    proof {
        assert(text::views(out@) =~= event_data(ls.take(0)));
    }
    while i < all.len()
        invariant
            i <= all.len(),
            text::views(all@) == ls,
            prefix@ == "data: "@,
            text::views(out@) == event_data(ls.take(i as int)),
        decreases all.len() - i,
    {
        let ghost before = text::views(out@);
        let line = all[i].as_slice();
        proof {
            assert(ls.take(i + 1).drop_last() =~= ls.take(i as int));
            assert(ls.take(i + 1).last() == line@);
        }
        if starts_with(line, prefix.as_slice()) {
            let rest = vstd::slice::slice_subrange(line, prefix.len(), line.len());
            proof {
                assert(rest@ =~= line@.skip(prefix@.len() as int));
            }
            out.push(string_of(trim(rest)));
            proof {
                assert(text::views(out@) =~= before.push(text::trimmed(rest@)));
            }
        }
        i += 1;
    }
    proof {
        assert(ls.take(ls.len() as int) =~= ls);
    }
    out
}

/// The result of a tool call in a document.
pub open spec fn result_in(document: serde_json::Value) -> Option<rmcp::model::CallToolResult> {
    match json::json_member(document, "result"@) {
        Some(v) => json::json_tool_result(v),
        None => None,
    }
}

/// The first result of a tool call among the data of events, from the `i`th on.
pub open spec fn first_event_result(data: Seq<Seq<char>>, i: int) -> Option<
    rmcp::model::CallToolResult,
>
    decreases data.len() - i,
{
    if i < 0 || i >= data.len() {
        None
    } else {
        match json::json_document(data[i]) {
            Some(d) => match result_in(d) {
                Some(x) => Some(x),
                None => first_event_result(data, i + 1),
            },
            None => first_event_result(data, i + 1),
        }
    }
}

/// The first result of a tool call among the data of events.
fn find_event_result(data: &Vec<String>) -> (r: Option<rmcp::model::CallToolResult>)
    ensures
        r == first_event_result(text::views(data@), 0),
{
    let ghost ds = text::views(data@);
    let mut i: usize = 0;
    while i < data.len()
        invariant
            i <= data.len(),
            ds == text::views(data@),
            first_event_result(ds, 0) == first_event_result(ds, i as int),
        decreases data.len() - i,
    {
        proof {
            assert(ds[i as int] == data@[i as int]@);
        }
        match parse(data[i].as_str()) {
            Some(d) => match member(&d, "result") {
                Some(v) => match as_tool_result(&v) {
                    Some(x) => {
                        return Some(x);
                    },
                    None => {},
                },
                None => {},
            },
            None => {},
        }
        i += 1;
    }
    None
}

/// The answer of a server, and the result in it.
#[derive(Debug)]
pub struct ReadReply {
    pub reply: ServerReply,
    pub result: Option<rmcp::model::CallToolResult>,
}

/// What an answer of the server holds: `body` is nothing where it could not be
/// read.
pub open spec fn read_as(content_type: Seq<char>, body: Option<Seq<char>>, r: ReadReply) -> bool {
    match body {
        None => r.reply is Broken && r.result is None,
        Some(b) => if text::has_text(content_type, "text/event-stream"@) {
            let x = first_event_result(event_data(text::text_lines(b)), 0);
            r.result == x && r.reply == (ServerReply::Events { has_result: x is Some })
        } else {
            match json::json_document(b) {
                None => r.reply is Broken && r.result is None,
                Some(d) => if json::json_member(d, "result"@) is None {
                    r.reply is NoResult && r.result is None
                } else {
                    r.result == result_in(d) && r.reply == (ServerReply::Result {
                        usable: result_in(d) is Some,
                    })
                },
            }
        },
    }
}

/// Reads an answer of the server: a stream of events, or a JSON document.
pub fn read_reply(content_type: &str, body: Option<&str>) -> (r: ReadReply)
    ensures
        read_as(
            content_type@,
            match body {
                Some(b) => Some(b@),
                None => None,
            },
            r,
        ),
{
    let b = match body {
        Some(b) => b,
        None => {
            return ReadReply { reply: ServerReply::Broken, result: None };
        },
    };
    if str_contains(content_type, "text/event-stream") {
        let result = find_event_result(&sse_data(b));
        return ReadReply {
            reply: ServerReply::Events { has_result: result.is_some() },
            result,
        };
    }
    match parse(b) {
        None => ReadReply { reply: ServerReply::Broken, result: None },
        Some(d) => match member(&d, "result") {
            None => ReadReply { reply: ServerReply::NoResult, result: None },
            Some(v) => {
                let result = as_tool_result(&v);
                ReadReply { reply: ServerReply::Result { usable: result.is_some() }, result }
            },
        },
    }
}

/// A result can be passed on exactly where the answer carries one.
pub proof fn law_results_are_passed_on(content_type: Seq<char>, body: Option<Seq<char>>, r: ReadReply)
    requires
        read_as(content_type, body, r),
    ensures
        r.result is Some <==> carries_result(r.reply),
{
}

/// Once a session is dead it stays dead, whatever replies still come in; and a
/// session that is alive has seen no reply that ends one.
pub proof fn law_dead_stays_dead(lost: bool, replies: Seq<ServerReply>)
    ensures
        lost ==> lost_after(lost, replies),
        !lost ==> (lost_after(lost, replies) <==> exists|i: int|
            0 <= i < replies.len() && lost_step(false, #[trigger] replies[i])),
    decreases replies.len(),
{
    if replies.len() > 0 {
        let front = replies.drop_last();
        law_dead_stays_dead(lost, front);
        assert forall|i: int| 0 <= i < front.len() implies #[trigger] front[i] == replies[i] by {}
        assert(replies.last() == replies[replies.len() - 1]);
        if exists|i: int| 0 <= i < front.len() && lost_step(false, #[trigger] front[i]) {
            let i = choose|i: int| 0 <= i < front.len() && lost_step(false, #[trigger] front[i]);
            assert(replies[i] == front[i]);
        }
        if exists|i: int| 0 <= i < replies.len() && lost_step(false, #[trigger] replies[i]) {
            let i = choose|i: int|
                0 <= i < replies.len() && lost_step(false, #[trigger] replies[i]);
            if i < front.len() {
                assert(front[i] == replies[i]);
            }
        }
    }
}

// ---------------------------------------------------------------------------
// Retries
// ---------------------------------------------------------------------------

/// How often a request is tried.
pub const PROXY_MAX_RETRY_ATTEMPTS: u32 = 3;

/// The pause between two tries, in milliseconds.
pub const PROXY_RETRY_BACKOFF_MS: u64 = 500;

/// The message tells of a broken connection and not of a failed tool.
pub open spec fn is_transport_error(msg: Seq<char>) -> bool {
    ||| text::has_text(msg, "Transport send error"@)
    ||| text::has_text(msg, "error sending request"@)
    ||| text::has_text(msg, "Transport error"@)
    ||| text::has_text(msg, "connection closed"@)
    ||| text::has_text(msg, "error decoding response body"@)
    ||| text::has_text(msg, "Session not found"@)
    ||| text::has_text(msg, "404"@)
}

/// Whether a message tells of a broken connection, for which it is worth
/// reconnecting, and not of a failed tool.
pub fn is_transport_error_msg(msg: &str) -> (r: bool)
    ensures
        r == is_transport_error(msg@),
{
    str_contains(msg, "Transport send error") || str_contains(msg, "error sending request")
        || str_contains(msg, "Transport error") || str_contains(msg, "connection closed")
        || str_contains(msg, "error decoding response body") || str_contains(
        msg,
        "Session not found",
    ) || str_contains(msg, "404")
}

/// What happened to one try.
#[derive(Debug)]
pub enum TryEvent {
    /// There is no connection at the moment.
    NoPeer,
    /// The server answered.
    Answered,
    /// The try failed with this message.
    Failed(String),
}

/// What is done next.
#[derive(Debug)]
pub enum TryAction {
    /// Return the answer of the server.
    Return,
    /// Return this error.
    Fail(String),
    /// Drop the connection, wait for a new one, and try again.
    Reconnect,
    /// Wait, and try again.
    Wait,
}

/// What a request is told that finds no connection to the last.
pub open spec fn reconnecting_text() -> Seq<char> {
    "codesearch serve is reconnecting — please retry in a moment"@
}

/// Another try follows.
pub open spec fn goes_on(attempt: nat, event: TryEvent) -> bool {
    attempt < PROXY_MAX_RETRY_ATTEMPTS - 1 && match event {
        TryEvent::Answered => false,
        TryEvent::Failed(msg) => is_transport_error(msg@),
        TryEvent::NoPeer => true,
    }
}

/// What is done after a try; the tries are counted from 0.
pub fn after_try(attempt: u32, event: TryEvent) -> (r: TryAction)
    requires
        attempt < PROXY_MAX_RETRY_ATTEMPTS,
    ensures
        (r is Reconnect || r is Wait) == goes_on(attempt as nat, event),
        ({
            let last = attempt == PROXY_MAX_RETRY_ATTEMPTS - 1;
            match event {
                TryEvent::Answered => r is Return,
                TryEvent::Failed(msg) => if is_transport_error(msg@) && !last {
                    r is Reconnect
                } else {
                    r matches TryAction::Fail(m) && m@ == msg@
                },
                TryEvent::NoPeer => if last {
                    r matches TryAction::Fail(m) && m@ == reconnecting_text()
                } else {
                    r is Wait
                },
            }
        }),
{
    let last = attempt >= PROXY_MAX_RETRY_ATTEMPTS - 1;
    match event {
        TryEvent::Answered => TryAction::Return,
        TryEvent::Failed(msg) => {
            if is_transport_error_msg(msg.as_str()) && !last {
                TryAction::Reconnect
            } else {
                TryAction::Fail(msg)
            }
        },
        TryEvent::NoPeer => {
            if last {
                TryAction::Fail(
                    owned("codesearch serve is reconnecting — please retry in a moment"),
                )
            } else {
                TryAction::Wait
            }
        },
    }
}

/// A request is tried three times at most, and again only for want of a
/// connection.
pub proof fn law_three_tries(attempt: nat, event: TryEvent)
    ensures
        goes_on(attempt, event) ==> attempt < 2,
        goes_on(attempt, event) ==> event is NoPeer || (event matches TryEvent::Failed(m)
            && is_transport_error(m@)),
{
}

// ---------------------------------------------------------------------------
// Reconnecting
// ---------------------------------------------------------------------------

/// The pause before a new connection is tried, in seconds.
pub const RECONNECT_INTERVAL_SECS: u64 = 3;

/// How long the server may be gone before the proxy gives up, in seconds.
pub const RECONNECT_MAX_SECS: u64 = 300;

/// What the main loop of the proxy is told; times are seconds of a clock that
/// does not run backwards.
#[derive(Clone, Copy, PartialEq, Eq, Structural, Debug)]
pub enum LoopEvent {
    /// The client closed its side.
    ClientClosed,
    /// The process is to end.
    Cancelled,
    /// The server is not connected.
    Disconnected { now: u64 },
    /// A connection was made.
    Connected,
    /// A connection could not be made.
    ConnectFailed { now: u64 },
}

/// What the main loop does next.
#[derive(Clone, Copy, PartialEq, Eq, Structural, Debug)]
pub enum LoopAction {
    /// End cleanly.
    Exit,
    /// The server has been gone for too long; end cleanly.
    GiveUp,
    /// Drop the connection, pause, and try to connect.
    Retry,
    /// Wait for the next event.
    Wait,
    /// Report a disconnection to itself after a moment.
    Requeue,
}

/// The main loop of the proxy: since when the server has been gone.
#[derive(Clone, Copy, PartialEq, Eq, Structural, Debug)]
pub struct ReconnectLoop {
    pub down_since: Option<u64>,
}

/// The state and the action that follow an event.
pub open spec fn loop_step(s: ReconnectLoop, event: LoopEvent) -> (ReconnectLoop, LoopAction) {
    match event {
        LoopEvent::ClientClosed => (s, LoopAction::Exit),
        LoopEvent::Cancelled => (s, LoopAction::Exit),
        LoopEvent::Disconnected { now } => {
            let since = match s.down_since {
                Some(t) => t,
                None => now,
            };
            (
                ReconnectLoop { down_since: Some(since) },
                if now - since > RECONNECT_MAX_SECS {
                    LoopAction::GiveUp
                } else {
                    LoopAction::Retry
                },
            )
        },
        LoopEvent::Connected => (ReconnectLoop { down_since: None }, LoopAction::Wait),
        LoopEvent::ConnectFailed { now } => (
            ReconnectLoop {
                down_since: match s.down_since {
                    Some(t) => Some(t),
                    None => Some(now),
                },
            },
            LoopAction::Requeue,
        ),
    }
}

impl ReconnectLoop {
    /// Before the first connection.
    pub fn new() -> (r: ReconnectLoop)
        ensures
            r.down_since is None,
    {
        ReconnectLoop { down_since: None }
    }

    /// What follows an event.
    pub fn on_event(&mut self, event: LoopEvent) -> (r: LoopAction)
        ensures
            (*final(self), r) == loop_step(*old(self), event),
    {
        match event {
            LoopEvent::ClientClosed => LoopAction::Exit,
            LoopEvent::Cancelled => LoopAction::Exit,
            LoopEvent::Disconnected { now } => {
                let since: u64 = match self.down_since {
                    Some(t) => t,
                    None => now,
                };
                self.down_since = Some(since);
                if now > since && now - since > RECONNECT_MAX_SECS {
                    LoopAction::GiveUp
                } else {
                    LoopAction::Retry
                }
            },
            LoopEvent::Connected => {
                self.down_since = None;
                LoopAction::Wait
            },
            LoopEvent::ConnectFailed { now } => {
                if self.down_since.is_none() {
                    self.down_since = Some(now);
                }
                LoopAction::Requeue
            },
        }
    }
}

/// The states that the loop goes through.
pub open spec fn loop_state(s: ReconnectLoop, events: Seq<LoopEvent>) -> ReconnectLoop
    decreases events.len(),
{
    if events.len() == 0 {
        s
    } else {
        loop_step(loop_state(s, events.drop_last()), events.last()).0
    }
}

/// An event of a server that does not come back, reported no earlier than
/// `start`.
pub open spec fn is_outage_event(e: LoopEvent, start: u64) -> bool {
    match e {
        LoopEvent::Disconnected { now } => now >= start,
        LoopEvent::ConnectFailed { now } => now >= start,
        _ => false,
    }
}

/// While the server stays away, the loop remembers when it was first missed:
/// it gives up once five minutes have gone by since, and not before.
pub proof fn law_gives_up_after_five_minutes(start: u64, events: Seq<LoopEvent>, now: u64)
    requires
        forall|i: int| 0 <= i < events.len() ==> is_outage_event(#[trigger] events[i], start),
    ensures
        loop_state(ReconnectLoop { down_since: Some(start) }, events).down_since == Some(start),
        loop_step(
            loop_state(ReconnectLoop { down_since: Some(start) }, events),
            LoopEvent::Disconnected { now },
        ).1 == (if now - start > 300 {
            LoopAction::GiveUp
        } else {
            LoopAction::Retry
        }),
    decreases events.len(),
{
    if events.len() > 0 {
        let front = events.drop_last();
        assert forall|i: int| 0 <= i < front.len() implies is_outage_event(
            #[trigger] front[i],
            start,
        ) by {
            assert(front[i] == events[i]);
        }
        law_gives_up_after_five_minutes(start, front, now);
        assert(is_outage_event(events[events.len() - 1], start));
    }
}

/// The address of a server on this machine ends with its port.
pub proof fn law_address_of_the_server(port: nat)
    ensures
        DEFAULT_SERVE_PORT == 39725,
        serve_url_text(port) == "http://127.0.0.1:"@ + numbers::decimal(port),
{
}

/// Only a server of this program counts, and only with the same version; another
/// version is an error that names both.
pub proof fn law_same_version(
    server: bool,
    version: Seq<char>,
    my_version: Seq<char>,
    r: Result<bool, String>,
)
    requires
        judged(server, version, my_version, r),
    ensures
        r is Err <==> server && version != my_version,
        r is Ok ==> (r->Ok_0 <==> server && version == my_version),
        r is Err ==> text::has_text(r->Err_0@, version) && text::has_text(r->Err_0@, my_version),
{
    if r is Err {
        let a = "codesearch serve version mismatch: serve="@;
        let b = " mcp="@;
        let c = ". Restart serve or update the mcp binary."@;
        let m = a + version + b + my_version + c;
        assert(m =~= a + version + (b + my_version + c));
        text::law_text_is_found(a, version, b + my_version + c);
        text::law_text_is_found(a + version + b, my_version, c);
    }
}

/// A session is lost by a reply that cannot be read, by events without a result
/// and by a result of another form, and by nothing else.
pub proof fn law_what_loses_a_session(reply: ServerReply)
    ensures
        lost_step(true, reply),
        lost_step(false, ServerReply::Broken),
        lost_step(false, ServerReply::Events { has_result: false }),
        lost_step(false, ServerReply::Result { usable: false }),
        !lost_step(false, ServerReply::NoResult),
        !lost_step(false, ServerReply::Events { has_result: true }),
        !lost_step(false, ServerReply::Result { usable: true }),
        carries_result(reply) <==> reply == (ServerReply::Events { has_result: true }) || reply
            == (ServerReply::Result { usable: true }),
{
}

/// The data of events are what stands behind `data: ` on the lines that begin so,
/// without white space around it, in their order.
pub proof fn law_data_of_events(all: Seq<Seq<char>>) -> (places: Seq<int>)
    ensures
        sorting::selects(
            places,
            all.len() as int,
            |i: int| all[i].len() >= 6 && all[i].take(6) == "data: "@,
        ),
        event_data(all).len() == places.len(),
        forall|k: int|
            0 <= k < places.len() ==> #[trigger] event_data(all)[k] == text::trimmed(
                all[places[k]].skip(6),
            ),
    decreases all.len(),
{
    reveal_strlit("data: ");
    let wanted = |i: int| all[i].len() >= 6 && all[i].take(6) == "data: "@;
    if all.len() == 0 {
        Seq::empty()
    } else {
        let front = all.drop_last();
        let before = law_data_of_events(front);
        let first = event_data(front);
        let data = event_data(all);
        let places = sorting::lemma_selects_step(
            before,
            all.len() - 1,
            |i: int| front[i].len() >= 6 && front[i].take(6) == "data: "@,
            wanted,
        );
        text::law_ends_of_text(all.last(), "data: "@);
        assert(wanted(all.len() - 1) == text::begins_with(all.last(), "data: "@));
        assert forall|k: int| 0 <= k < places.len() implies #[trigger] data[k] == text::trimmed(
            all[places[k]].skip(6),
        ) by {
            if k < before.len() {
                assert(data[k] == first[k]);
                assert(front[before[k]] == all[places[k]]);
            }
        }
        places
    }
}

/// The result of events is that of the first event with one.
pub proof fn law_first_event_with_a_result(data: Seq<Seq<char>>, i: int, k: int)
    requires
        0 <= k <= i <= data.len(),
        forall|j: int|
            k <= j < i ==> json::json_document(#[trigger] data[j]) is None || result_in(
                json::json_document(data[j])->0,
            ) is None,
    ensures
        i < data.len() && json::json_document(data[i]) is Some && result_in(
            json::json_document(data[i])->0,
        ) is Some ==> first_event_result(data, k) == result_in(json::json_document(data[i])->0),
        i == data.len() ==> first_event_result(data, k) is None,
    decreases i - k,
{
    if k < i {
        assert(json::json_document(data[k]) is None || result_in(json::json_document(data[k])->0) is None);
        law_first_event_with_a_result(data, i, k + 1);
    }
}

/// A body that could not be read or is no document breaks the session; a stream
/// of events is read event by event, any other reply as one document.
pub proof fn law_how_a_reply_is_read(content_type: Seq<char>, b: Seq<char>, r: ReadReply)
    ensures
        read_as(content_type, None, r) ==> r.reply is Broken && r.result is None,
        read_as(content_type, Some(b), r) && text::has_text(content_type, "text/event-stream"@)
            ==> r.reply is Events && r.result == first_event_result(
            event_data(text::text_lines(b)),
            0,
        ),
        read_as(content_type, Some(b), r) && !text::has_text(content_type, "text/event-stream"@)
            && json::json_document(b) is None ==> r.reply is Broken,
        read_as(content_type, Some(b), r) && !text::has_text(content_type, "text/event-stream"@)
            && json::json_document(b) is Some && json::json_member(
            json::json_document(b)->0,
            "result"@,
        ) is None ==> r.reply is NoResult,
        read_as(content_type, Some(b), r) && !text::has_text(content_type, "text/event-stream"@)
            && json::json_document(b) is Some && json::json_member(
            json::json_document(b)->0,
            "result"@,
        ) is Some ==> r.reply is Result && r.result == json::json_tool_result(
            json::json_member(json::json_document(b)->0, "result"@)->0,
        ),
{
}

/// An error that speaks of the transport, of a session that is gone or of a page
/// that is not found is one of the transport, whatever stands around.
pub proof fn law_transport_errors(before: Seq<char>, words: Seq<char>, behind: Seq<char>)
    requires
        words == "Transport send error"@ || words == "error sending request"@ || words
            == "Transport error"@ || words == "connection closed"@ || words
            == "error decoding response body"@ || words == "Session not found"@ || words == "404"@,
    ensures
        is_transport_error(before + words + behind),
        !is_transport_error(Seq::empty()),
{
    text::law_text_is_found(before, words, behind);
    reveal_strlit("Transport send error");
    reveal_strlit("error sending request");
    reveal_strlit("Transport error");
    reveal_strlit("connection closed");
    reveal_strlit("error decoding response body");
    reveal_strlit("Session not found");
    reveal_strlit("404");
}

/// A call is tried again after an error of the transport and where no peer is
/// there, in the first two of three tries.
pub proof fn law_when_a_call_is_tried_again(attempt: nat, message: String)
    ensures
        PROXY_MAX_RETRY_ATTEMPTS == 3,
        PROXY_RETRY_BACKOFF_MS == 500,
        goes_on(attempt, TryEvent::NoPeer) <==> attempt < 2,
        goes_on(attempt, TryEvent::Failed(message)) <==> attempt < 2 && is_transport_error(message@),
        !goes_on(attempt, TryEvent::Answered),
{
}

/// The loop ends with its client or a cancellation, goes on to wait once it is
/// connected, and counts an outage from its first sign.
pub proof fn law_reconnecting(s: ReconnectLoop, now: u64)
    ensures
        RECONNECT_INTERVAL_SECS == 3,
        RECONNECT_MAX_SECS == 300,
        loop_step(s, LoopEvent::ClientClosed) == (s, LoopAction::Exit),
        loop_step(s, LoopEvent::Cancelled) == (s, LoopAction::Exit),
        loop_step(s, LoopEvent::Connected).0.down_since is None,
        loop_step(s, LoopEvent::Connected).1 == LoopAction::Wait,
        loop_step(s, LoopEvent::ConnectFailed { now }).1 == LoopAction::Requeue,
        s.down_since is None ==> loop_step(s, LoopEvent::ConnectFailed { now }).0.down_since == Some(
            now,
        ),
        s.down_since is Some ==> loop_step(s, LoopEvent::ConnectFailed { now }).0 == s,
        s.down_since is None ==> loop_step(s, LoopEvent::Disconnected { now }).0.down_since == Some(
            now,
        ) && loop_step(s, LoopEvent::Disconnected { now }).1 == LoopAction::Retry,
{
}

/// A server is alive where its health says that it is one of this program with
/// the same version, and a call ends, is tried again or waits as its tries went.
pub proof fn law_health_and_tries(
    body: &Option<HealthBody>,
    my_version: &str,
    h: Result<bool, String>,
    attempt: u32,
    event: TryEvent,
    r: TryAction,
)
    requires
        call_ensures(check_health, (body, my_version), h),
        attempt < 3,
        call_ensures(after_try, (attempt, event), r),
    ensures
        body is None ==> h is Ok && !h->Ok_0,
        body is Some && !body->0.codesearch_server ==> h is Ok && !h->Ok_0,
        body is Some && body->0.codesearch_server && body->0.version@ == my_version@ ==> h is Ok
            && h->Ok_0,
        body is Some && body->0.codesearch_server && body->0.version@ != my_version@ ==> h is Err,
        event is Answered <==> r is Return,
        event is NoPeer && attempt < 2 ==> r is Wait,
        event is NoPeer && attempt == 2 ==> r is Fail,
        event is Failed && is_transport_error(event->0@) && attempt < 2 ==> r is Reconnect,
        event is Failed && !is_transport_error(event->0@) ==> r is Fail && r->0@ == event->0@,
        event is Failed && attempt == 2 ==> r is Fail && r->0@ == event->0@,
{
}

/// The port of the server is the one that is set where that is a port, else the
/// usual one.
pub proof fn law_port_of_the_server(port_setting: Option<&str>, r: String)
    requires
        call_ensures(serve_url_from_env, (port_setting,), r),
    ensures
        port_setting is None ==> r@ == "http://127.0.0.1:"@ + numbers::decimal(39725),
        port_setting is Some && numbers::parsed(port_setting->0@, 65535) is None ==> r@
            == "http://127.0.0.1:"@ + numbers::decimal(39725),
        port_setting is Some && numbers::parsed(port_setting->0@, 65535) is Some ==> r@
            == "http://127.0.0.1:"@ + numbers::decimal(numbers::parsed(port_setting->0@, 65535)->0),
{
}

/// What is said of a session that is lost, with the address of the server, and of
/// a server that is about to be there again.
pub proof fn law_words_of_the_proxy(url: Seq<char>)
    ensures
        text::has_text(dead_text(url), url),
        text::begins_with(dead_text(url), "codesearch serve is no longer reachable at "@),
        reconnecting_text() == "codesearch serve is reconnecting — please retry in a moment"@,
{
    let a = "codesearch serve is no longer reachable at "@;
    let b =
        ". This MCP session cannot recover. Restart the MCP client to reconnect, or restart `codesearch serve` first."@;
    text::law_text_is_found(a, url, b);
    text::law_ends_of_text(dead_text(url), a);
    assert(dead_text(url).take(a.len() as int) =~= a);
}

} // verus!
