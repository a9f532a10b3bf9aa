//! Liveness, readiness, and Prometheus metrics over HTTP.
//!
//! Routes (GET only):
//!   - `/health`, `/healthz` -> 200 while the process is running
//!   - `/ready`,  `/readyz`  -> 200 if at least one upstream is online, else 503
//!   - `/metrics`            -> Prometheus text exposition of upstream state

use vstd::prelude::*;
use vstd::string::StringExecFns;

use crate::models::{ServerState, ServerStateDb};
use crate::text::{
    push_decimal, same_text, take_line, take_word, text_from_utf8_lossy, to_chars,
};

verus! {

/// How much of a request is read at most.
pub const REQUEST_BUFFER_BYTES: usize = 1024;

/// How long, in seconds, reading a request may take.
pub const REQUEST_TIMEOUT_SECS: u64 = 5;

// ---------------------------------------------------------------------------
// Requests
// ---------------------------------------------------------------------------

/// Whether the request line is complete: a line feed (10) has come.
pub open spec fn has_line(bytes: Seq<u8>) -> bool {
    exists|i: int| 0 <= i < bytes.len() && #[trigger] bytes[i] == 10
}

/// Whether more of a request should be read: its request line is not complete, and the
/// buffer is not full.
pub fn keep_reading(bytes: &[u8]) -> (r: bool)
    ensures
        r == (bytes@.len() < REQUEST_BUFFER_BYTES && !has_line(bytes@)),
{
    let n: usize = bytes.len();
    let mut i: usize = 0;
    while i < n
        invariant
            i <= n == bytes@.len(),
            forall|j: int| 0 <= j < i ==> #[trigger] bytes@[j] != 10,
        decreases n - i,
    {
        if bytes[i] == 10 {
            assert(bytes@[i as int] == 10);
            return false;
        }
        i += 1;
    }
    n < REQUEST_BUFFER_BYTES
}

/// The method of a request: the first word of its first line.
pub open spec fn method_of(head: Seq<char>) -> Seq<char> {
    crate::text::first_word(crate::text::first_line(head))
}

/// The path of a request: the second word of its first line.
pub open spec fn path_of(head: Seq<char>) -> Seq<char> {
    crate::text::first_word(crate::text::after_first_word(crate::text::first_line(head)))
}

/// The method and the path of a request; empty where they are missing.
pub fn parse_request(head: &str) -> (r: (String, String))
    ensures
        r.0@ == method_of(head@),
        r.1@ == path_of(head@),
{
    let line = take_line(&to_chars(head));
    let (method, at): (String, usize) = take_word(&line, 0);
    assert(line@.skip(0) =~= line@);
    let (path, _): (String, usize) = take_word(&line, at);
    (method, path)
}

// ---------------------------------------------------------------------------
// Metrics
// ---------------------------------------------------------------------------

/// The text with `\` and `"` escaped by a `\`.
pub open spec fn escaped(s: Seq<char>) -> Seq<char>
    decreases s.len(),
{
    if s.len() == 0 {
        Seq::empty()
    } else if s.last() == '\\' || s.last() == '"' {
        escaped(s.drop_last()).push('\\').push(s.last())
    } else {
        escaped(s.drop_last()).push(s.last())
    }
}

/// What a reader of a label makes of it: a `\` stands for the character behind it.
pub open spec fn unescaped(s: Seq<char>) -> Seq<char>
    decreases s.len(),
{
    if s.len() == 0 {
        Seq::empty()
    } else if s[0] == '\\' && s.len() >= 2 {
        seq![s[1]] + unescaped(s.skip(2))
    } else {
        seq![s[0]] + unescaped(s.skip(1))
    }
}

proof fn lemma_escaped_front(s: Seq<char>)
    requires
        s.len() > 0,
    ensures
        escaped(s) == (if s[0] == '\\' || s[0] == '"' {
            seq!['\\', s[0]]
        } else {
            seq![s[0]]
        }) + escaped(s.drop_first()),
    decreases s.len(),
{
    let lead = if s[0] == '\\' || s[0] == '"' {
        seq!['\\', s[0]]
    } else {
        seq![s[0]]
    };
    if s.len() == 1 {
        reveal_with_fuel(escaped, 2);
        assert(s.drop_last() =~= Seq::empty());
        assert(s.drop_first() =~= Seq::empty());
        assert(escaped(s) =~= lead + Seq::empty());
    } else {
        lemma_escaped_front(s.drop_last());
        assert(s.drop_last().drop_first() =~= s.drop_first().drop_last());
        assert(s.drop_first().last() == s.last());
        assert(escaped(s) =~= lead + escaped(s.drop_first()));
    }
}

/// An escaped label reads back as the text that was escaped.
pub proof fn law_unescape_undoes_escape(s: Seq<char>)
    ensures
        unescaped(escaped(s)) == s,
    decreases s.len(),
{
    if s.len() > 0 {
        lemma_escaped_front(s);
        law_unescape_undoes_escape(s.drop_first());
        let e = escaped(s);
        let rest = escaped(s.drop_first());
        if s[0] == '\\' || s[0] == '"' {
            assert(e.skip(2) =~= rest);
            assert(e[0] == '\\' && e[1] == s[0]);
        } else {
            assert(e.skip(1) =~= rest);
            assert(e[0] == s[0]);
        }
        assert(seq![s[0]] + s.drop_first() =~= s);
    }
}

/// Escapes a label of a metric.
pub fn escape(s: &str) -> (out: String)
    ensures
        out@ == escaped(s@),
{
    let chars = to_chars(s);
    let mut out = String::new();
    let mut i: usize = 0;
    assert(chars@.take(0) =~= Seq::empty());
    while i < chars.len()
        invariant
            i <= chars.len(),
            out@ == escaped(chars@.take(i as int)),
        decreases chars.len() - i,
    {
        proof {
            assert(chars@.take(i + 1).drop_last() =~= chars@.take(i as int));
            assert(chars@.take(i + 1).last() == chars@[i as int]);
        }
        if chars[i] == '\\' || chars[i] == '"' {
            out.push('\\');
        }
        out.push(chars[i]);
        i += 1;
    }
    assert(chars@.take(chars@.len() as int) =~= s@);
    out
}

/// A per-upstream gauge.
#[derive(Debug, Clone, Copy, PartialEq, Eq)]
pub enum Gauge {
    Up,
    Stale,
    Connections,
    ChainStateEndBlock,
}

/// The name of a gauge.
pub open spec fn gauge_name(gauge: Gauge) -> Seq<char> {
    match gauge {
        Gauge::Up => "fleet_router_upstream_up"@,
        Gauge::Stale => "fleet_router_upstream_stale"@,
        Gauge::Connections => "fleet_router_active_connections"@,
        Gauge::ChainStateEndBlock => "fleet_router_upstream_chain_state_end_block"@,
    }
}

/// What a gauge says of itself.
pub open spec fn gauge_help(gauge: Gauge) -> Seq<char> {
    match gauge {
        Gauge::Up => "Whether an upstream is online (1) or offline (0)."@,
        Gauge::Stale => "Whether an upstream has stopped advancing (1) or not (0)."@,
        Gauge::Connections => "Active client connections routed to an upstream."@,
        Gauge::ChainStateEndBlock => "Last chain-state block reported by an upstream."@,
    }
}

/// The value of a gauge for an upstream.
pub open spec fn gauge_value(gauge: Gauge, state: ServerState) -> nat {
    match gauge {
        Gauge::Up => if state.online {
            1
        } else {
            0
        },
        Gauge::Stale => if state.stale {
            1
        } else {
            0
        },
        Gauge::Connections => state.connections as nat,
        Gauge::ChainStateEndBlock => state.chain_state_end_block as nat,
    }
}

/// The two lines that introduce a metric.
pub open spec fn metric_header(name: Seq<char>, help: Seq<char>) -> Seq<char> {
    "# HELP "@ + name + " "@ + help + "\n"@ + "# TYPE "@ + name + " gauge\n"@
}

/// The line of a gauge for an upstream.
pub open spec fn metric_line(gauge: Gauge, endpoint: Seq<char>, state: ServerState) -> Seq<char> {
    gauge_name(gauge) + "{endpoint=\""@ + escaped(endpoint) + "\"} "@ + crate::text::decimal(
        gauge_value(gauge, state),
    ) + "\n"@
}

/// The lines of a gauge for the first `n` upstreams.
pub open spec fn metric_lines(
    gauge: Gauge,
    endpoints: Seq<Seq<char>>,
    states: Map<Seq<char>, ServerState>,
    n: int,
) -> Seq<char>
    decreases n,
{
    if n <= 0 {
        Seq::empty()
    } else {
        metric_lines(gauge, endpoints, states, n - 1) + metric_line(
            gauge,
            endpoints[n - 1],
            states[endpoints[n - 1]],
        )
    }
}

/// The header and the lines of a gauge.
pub open spec fn metric_section(
    gauge: Gauge,
    endpoints: Seq<Seq<char>>,
    states: Map<Seq<char>, ServerState>,
) -> Seq<char> {
    metric_header(gauge_name(gauge), gauge_help(gauge)) + metric_lines(
        gauge,
        endpoints,
        states,
        endpoints.len() as int,
    )
}

/// All metrics: that the router is up, then each gauge for each upstream.
pub open spec fn metrics(
    endpoints: Seq<Seq<char>>,
    states: Map<Seq<char>, ServerState>,
) -> Seq<char> {
    metric_header("fleet_router_up"@, "Whether the router process is up."@)
        + "fleet_router_up 1\n"@ + metric_section(Gauge::Up, endpoints, states) + metric_section(
        Gauge::Stale,
        endpoints,
        states,
    ) + metric_section(Gauge::Connections, endpoints, states) + metric_section(
        Gauge::ChainStateEndBlock,
        endpoints,
        states,
    )
}

fn name_of_gauge(gauge: Gauge) -> (name: &'static str)
    ensures
        name@ == gauge_name(gauge),
{
    match gauge {
        Gauge::Up => "fleet_router_upstream_up",
        Gauge::Stale => "fleet_router_upstream_stale",
        Gauge::Connections => "fleet_router_active_connections",
        Gauge::ChainStateEndBlock => "fleet_router_upstream_chain_state_end_block",
    }
}

fn help_of_gauge(gauge: Gauge) -> (help: &'static str)
    ensures
        help@ == gauge_help(gauge),
{
    match gauge {
        Gauge::Up => "Whether an upstream is online (1) or offline (0).",
        Gauge::Stale => "Whether an upstream has stopped advancing (1) or not (0).",
        Gauge::Connections => "Active client connections routed to an upstream.",
        Gauge::ChainStateEndBlock => "Last chain-state block reported by an upstream.",
    }
}

fn value_of_gauge(gauge: Gauge, state: &ServerState) -> (value: u128)
    ensures
        value == gauge_value(gauge, *state),
{
    match gauge {
        Gauge::Up => if state.online {
            1
        } else {
            0
        },
        Gauge::Stale => if state.stale {
            1
        } else {
            0
        },
        Gauge::Connections => state.connections as u128,
        Gauge::ChainStateEndBlock => state.chain_state_end_block as u128,
    }
}

fn push_header(out: &mut String, name: &str, help: &str)
    ensures
        final(out)@ == old(out)@ + metric_header(name@, help@),
{
    out.append("# HELP ");
    out.append(name);
    out.append(" ");
    out.append(help);
    out.append("\n");
    out.append("# TYPE ");
    out.append(name);
    out.append(" gauge\n");
    assert(out@ =~= old(out)@ + metric_header(name@, help@));
}

fn push_line(out: &mut String, gauge: Gauge, endpoint: &str, state: &ServerState)
    ensures
        final(out)@ == old(out)@ + metric_line(gauge, endpoint@, *state),
{
    out.append(name_of_gauge(gauge));
    out.append("{endpoint=\"");
    out.append(&escape(endpoint));
    out.append("\"} ");
    push_decimal(out, value_of_gauge(gauge, state));
    out.append("\n");
    assert(out@ =~= old(out)@ + metric_line(gauge, endpoint@, *state));
}

fn push_section(out: &mut String, gauge: Gauge, states: &ServerStateDb)
    ensures
        final(out)@ == old(out)@ + metric_section(gauge, states.keys(), states@),
{
    push_header(out, name_of_gauge(gauge), help_of_gauge(gauge));
    let ghost header = out@;
    let n: usize = states.len();
    let mut i: usize = 0;
    while i < n
        invariant
            i <= n == states.keys().len(),
            out@ == header + metric_lines(gauge, states.keys(), states@, i as int),
        decreases n - i,
    {
        let ghost before = out@;
        push_line(out, gauge, states.key_at(i), states.value_at(i));
        assert(out@ =~= header + metric_lines(gauge, states.keys(), states@, i + 1));
        i += 1;
    }
    assert(out@ =~= old(out)@ + metric_section(gauge, states.keys(), states@));
}

/// The Prometheus text exposition of the upstream states.
pub fn render_metrics(states: &ServerStateDb) -> (out: String)
    ensures
        out@ == metrics(states.keys(), states@),
{
    let mut out = String::new();
    push_header(&mut out, "fleet_router_up", "Whether the router process is up.");
    out.append("fleet_router_up 1\n");
    push_section(&mut out, Gauge::Up, states);
    push_section(&mut out, Gauge::Stale, states);
    push_section(&mut out, Gauge::Connections, states);
    push_section(&mut out, Gauge::ChainStateEndBlock, states);
    assert(out@ =~= metrics(states.keys(), states@));
    out
}

/// How many of the first `n` upstreams are online.
pub open spec fn online_count(
    endpoints: Seq<Seq<char>>,
    states: Map<Seq<char>, ServerState>,
    n: int,
) -> nat
    decreases n,
{
    if n <= 0 {
        0
    } else {
        online_count(endpoints, states, n - 1) + if states[endpoints[n - 1]].online {
            1nat
        } else {
            0
        }
    }
}

/// Some upstream is counted exactly where some upstream is online.
pub proof fn law_counts_online(
    endpoints: Seq<Seq<char>>,
    states: Map<Seq<char>, ServerState>,
    n: int,
)
    requires
        0 <= n <= endpoints.len(),
    ensures
        online_count(endpoints, states, n) > 0 <==> exists|i: int|
            0 <= i < n && states[#[trigger] endpoints[i]].online,
        online_count(endpoints, states, n) <= n,
    decreases n,
{
    if n > 0 {
        law_counts_online(endpoints, states, n - 1);
        if states[endpoints[n - 1]].online {
            assert(states[endpoints[n - 1]].online);
        }
        if online_count(endpoints, states, n - 1) > 0 {
            let i = choose|i: int| 0 <= i < n - 1 && states[#[trigger] endpoints[i]].online;
            assert(states[endpoints[i]].online);
        }
    }
}

/// The number of upstreams that are online.
pub fn count_online(states: &ServerStateDb) -> (count: usize)
    ensures
        count == online_count(states.keys(), states@, states.keys().len() as int),
{
    let n: usize = states.len();
    let mut count: usize = 0;
    let mut i: usize = 0;
    while i < n
        invariant
            i <= n == states.keys().len(),
            count <= i,
            count == online_count(states.keys(), states@, i as int),
        decreases n - i,
    {
        if states.value_at(i).online {
            count += 1;
        }
        i += 1;
    }
    count
}

// ---------------------------------------------------------------------------
// Responses
// ---------------------------------------------------------------------------

/// An HTTP response.
#[derive(Debug)]
pub struct Response {
    pub status: &'static str,
    pub content_type: &'static str,
    pub body: String,
}

/// The model of a `Response`.
#[verifier::ext_equal]
pub struct ResponseModel {
    pub status: Seq<char>,
    pub content_type: Seq<char>,
    pub body: Seq<char>,
}

impl View for Response {
    type V = ResponseModel;

    open spec fn view(&self) -> ResponseModel {
        ResponseModel {
            status: self.status@,
            content_type: self.content_type@,
            body: self.body@,
        }
    }
}

/// A plain text response.
pub open spec fn plain(status: Seq<char>, body: Seq<char>) -> ResponseModel {
    ResponseModel { status, content_type: "text/plain"@, body }
}

/// The answer to a readiness request, with `online` upstreams online.
pub open spec fn readiness(online: nat) -> ResponseModel {
    if online > 0 {
        plain(
            "200 OK"@,
            "ready: "@ + crate::text::decimal(online) + " upstream(s) online\n"@,
        )
    } else {
        plain("503 Service Unavailable"@, "not ready: no upstreams online\n"@)
    }
}

/// The answer to a request.
pub open spec fn routed(
    method: Seq<char>,
    path: Seq<char>,
    endpoints: Seq<Seq<char>>,
    states: Map<Seq<char>, ServerState>,
) -> ResponseModel {
    if method != "GET"@ {
        plain("405 Method Not Allowed"@, "method not allowed\n"@)
    } else if path == "/health"@ || path == "/healthz"@ {
        plain("200 OK"@, "ok\n"@)
    } else if path == "/ready"@ || path == "/readyz"@ {
        readiness(online_count(endpoints, states, endpoints.len() as int))
    } else if path == "/metrics"@ {
        ResponseModel {
            status: "200 OK"@,
            content_type: "text/plain; version=0.0.4"@,
            body: metrics(endpoints, states),
        }
    } else {
        plain("404 Not Found"@, "not found\n"@)
    }
}

/// A response as it is sent. `Content-Length` counts the bytes of the body.
pub open spec fn http_text(response: ResponseModel) -> Seq<char> {
    "HTTP/1.1 "@ + response.status + "\r\nContent-Type: "@ + response.content_type
        + "\r\nContent-Length: "@ + crate::text::decimal(
        vstd::utf8::encode_utf8(response.body).len(),
    ) + "\r\nConnection: close\r\n\r\n"@ + response.body
}

fn plain_response(status: &'static str, body: &str) -> (response: Response)
    ensures
        response@ == plain(status@, body@),
{
    Response { status, content_type: "text/plain", body: body.to_owned() }
}

/// The answer to a readiness request.
fn ready_response(online: usize) -> (response: Response)
    ensures
        response@ == readiness(online as nat),
{
    if online > 0 {
        let mut body = "ready: ".to_owned();
        push_decimal(&mut body, online as u128);
        body.append(" upstream(s) online\n");
        Response { status: "200 OK", content_type: "text/plain", body }
    } else {
        plain_response("503 Service Unavailable", "not ready: no upstreams online\n")
    }
}

/// Answers a request.
pub fn route(method: &str, path: &str, states: &ServerStateDb) -> (response: Response)
    ensures
        response@ == routed(method@, path@, states.keys(), states@),
{
    if !same_text(method, "GET") {
        plain_response("405 Method Not Allowed", "method not allowed\n")
    } else if same_text(path, "/health") || same_text(path, "/healthz") {
        plain_response("200 OK", "ok\n")
    } else if same_text(path, "/ready") || same_text(path, "/readyz") {
        ready_response(count_online(states))
    } else if same_text(path, "/metrics") {
        Response {
            status: "200 OK",
            content_type: "text/plain; version=0.0.4",
            body: render_metrics(states),
        }
    } else {
        plain_response("404 Not Found", "not found\n")
    }
}

impl Response {
    /// The response as it is sent.
    pub fn render(&self) -> (text: String)
        ensures
            text@ == http_text(self@),
    {
        let mut text = "HTTP/1.1 ".to_owned();
        text.append(self.status);
        text.append("\r\nContent-Type: ");
        text.append(self.content_type);
        text.append("\r\nContent-Length: ");
        let length: usize = self.body.as_str().as_bytes().len();
        push_decimal(&mut text, length as u128);
        text.append("\r\nConnection: close\r\n\r\n");
        text.append(&self.body);
        assert(text@ =~= http_text(self@));
        text
    }
}

/// The answer to the text of a request.
pub open spec fn answer(
    head: Seq<char>,
    endpoints: Seq<Seq<char>>,
    states: Map<Seq<char>, ServerState>,
) -> Seq<char> {
    http_text(routed(method_of(head), path_of(head), endpoints, states))
}

/// Answers the text of a request.
pub fn answer_text(head: &str, states: &ServerStateDb) -> (text: String)
    ensures
        text@ == answer(head@, states.keys(), states@),
{
    let (method, path): (String, String) = parse_request(head);
    route(&method, &path, states).render()
}

/// Answers a request, as far as it was read.
pub fn handle_request(request: &[u8], states: &ServerStateDb) -> (text: String)
    ensures
        text@ == answer(crate::text::utf8_lossy(request@), states.keys(), states@),
{
    let head = text_from_utf8_lossy(request);
    answer_text(&head, states)
}

/// A readiness request is answered with 200 exactly where some upstream is online, and
/// with 503 otherwise.
pub proof fn law_ready_iff_online(
    path: Seq<char>,
    endpoints: Seq<Seq<char>>,
    states: Map<Seq<char>, ServerState>,
)
    requires
        path == "/ready"@ || path == "/readyz"@,
    ensures
        ({
            let status = routed("GET"@, path, endpoints, states).status;
            let online = exists|i: int|
                0 <= i < endpoints.len() && states[#[trigger] endpoints[i]].online;
            &&& online ==> status == "200 OK"@
            &&& !online ==> status == "503 Service Unavailable"@
        }),
{
    law_counts_online(endpoints, states, endpoints.len() as int);
    reveal_strlit("/health");
    reveal_strlit("/healthz");
    reveal_strlit("/ready");
    reveal_strlit("/readyz");
    assert("/health"@.len() == 7 && "/healthz"@.len() == 8);
    assert("/ready"@.len() == 6 && "/readyz"@.len() == 7);
    assert("/health"@[1] == 'h' && "/readyz"@[1] == 'r');
}

/// Whatever is asked, a request with another method than GET is refused.
pub proof fn law_get_only(
    method: Seq<char>,
    path: Seq<char>,
    endpoints: Seq<Seq<char>>,
    states: Map<Seq<char>, ServerState>,
)
    requires
        method != "GET"@,
    ensures
        routed(method, path, endpoints, states).status == "405 Method Not Allowed"@,
{
}

// ---------------------------------------------------------------------------
// What a reader of the answers can rely on
// ---------------------------------------------------------------------------

/// Escaping goes character by character: a backslash and a double quote get a backslash
/// before them, and every other character stays as it is.
pub proof fn law_escape_by_character(a: Seq<char>, b: Seq<char>, c: char)
    ensures
        escaped(a + b) == escaped(a) + escaped(b),
        escaped(seq!['"']) == seq!['\\', '"'],
        escaped(seq!['\\']) == seq!['\\', '\\'],
        c != '"' && c != '\\' ==> escaped(seq![c]) == seq![c],
    decreases b.len(),
{
    reveal_with_fuel(escaped, 2);
    assert(seq!['"'].drop_last() =~= Seq::<char>::empty());
    assert(seq!['\\'].drop_last() =~= Seq::<char>::empty());
    assert(seq![c].drop_last() =~= Seq::<char>::empty());
    assert(escaped(seq!['"']) =~= seq!['\\', '"']);
    assert(escaped(seq!['\\']) =~= seq!['\\', '\\']);
    if b.len() == 0 {
        assert(a + b =~= a);
        assert(escaped(a) + escaped(b) =~= escaped(a));
    } else {
        law_escape_by_character(a, b.drop_last(), c);
        assert((a + b).drop_last() =~= a + b.drop_last());
        assert((a + b).last() == b.last());
        assert(escaped(a + b) =~= escaped(a) + escaped(b));
    }
}

/// What the gauges say of an upstream, each by one field and whatever the others are: 1
/// where it is online, 1 where it is stale, its connections, and the end of its chain state.
pub proof fn law_gauges(state: ServerState)
    ensures
        gauge_value(Gauge::Up, state) == 1 <==> state.online,
        gauge_value(Gauge::Up, state) == 0 <==> !state.online,
        gauge_value(Gauge::Stale, state) == 1 <==> state.stale,
        gauge_value(Gauge::Stale, state) == 0 <==> !state.stale,
        gauge_value(Gauge::Connections, state) == state.connections,
        gauge_value(Gauge::ChainStateEndBlock, state) == state.chain_state_end_block,
{
}

/// A line of the metrics: a name, the endpoint as its label, and a value.
pub open spec fn labelled(name: Seq<char>, endpoint: Seq<char>, value: Seq<char>) -> Seq<char> {
    name + "{endpoint=\""@ + escaped(endpoint) + "\"} "@ + value + "\n"@
}

/// The line that says whether an upstream is online.
pub open spec fn up_line(endpoint: Seq<char>, state: ServerState) -> Seq<char> {
    labelled(
        "fleet_router_upstream_up"@,
        endpoint,
        if state.online {
            "1"@
        } else {
            "0"@
        },
    )
}

/// The line that says whether an upstream is stale.
pub open spec fn stale_line(endpoint: Seq<char>, state: ServerState) -> Seq<char> {
    labelled(
        "fleet_router_upstream_stale"@,
        endpoint,
        if state.stale {
            "1"@
        } else {
            "0"@
        },
    )
}

/// The line with the connections of an upstream.
pub open spec fn connections_line(endpoint: Seq<char>, state: ServerState) -> Seq<char> {
    labelled(
        "fleet_router_active_connections"@,
        endpoint,
        crate::text::decimal(state.connections as nat),
    )
}

/// The line with the end of the chain state of an upstream.
pub open spec fn chain_state_line(endpoint: Seq<char>, state: ServerState) -> Seq<char> {
    labelled(
        "fleet_router_upstream_chain_state_end_block"@,
        endpoint,
        crate::text::decimal(state.chain_state_end_block as nat),
    )
}

proof fn lemma_metric_line(endpoint: Seq<char>, state: ServerState)
    ensures
        metric_line(Gauge::Up, endpoint, state) == up_line(endpoint, state),
        metric_line(Gauge::Stale, endpoint, state) == stale_line(endpoint, state),
        metric_line(Gauge::Connections, endpoint, state) == connections_line(endpoint, state),
        metric_line(Gauge::ChainStateEndBlock, endpoint, state) == chain_state_line(
            endpoint,
            state,
        ),
{
    reveal_strlit("0");
    reveal_strlit("1");
    assert(crate::text::decimal(0) =~= "0"@);
    assert(crate::text::decimal(1) =~= "1"@);
}

proof fn lemma_line_among_lines(
    gauge: Gauge,
    endpoints: Seq<Seq<char>>,
    states: Map<Seq<char>, ServerState>,
    n: int,
    i: int,
)
    requires
        0 <= i < n,
    ensures
        crate::text::occurs(
            metric_lines(gauge, endpoints, states, n),
            metric_line(gauge, endpoints[i], states[endpoints[i]]),
        ),
    decreases n,
{
    let before = metric_lines(gauge, endpoints, states, n - 1);
    let last = metric_line(gauge, endpoints[n - 1], states[endpoints[n - 1]]);
    let line = metric_line(gauge, endpoints[i], states[endpoints[i]]);
    let none = Seq::<char>::empty();
    let all = metric_lines(gauge, endpoints, states, n);
    if i == n - 1 {
        crate::text::law_occurs(all, line);
        assert(all =~= before + line + none);
    } else {
        lemma_line_among_lines(gauge, endpoints, states, n - 1, i);
        crate::text::lemma_occurs_in_part(none, before, last, line);
        assert(all =~= none + before + last);
    }
}

proof fn lemma_line_in_section(
    gauge: Gauge,
    endpoints: Seq<Seq<char>>,
    states: Map<Seq<char>, ServerState>,
    i: int,
)
    requires
        0 <= i < endpoints.len(),
    ensures
        crate::text::occurs(
            metric_section(gauge, endpoints, states),
            metric_line(gauge, endpoints[i], states[endpoints[i]]),
        ),
{
    let n = endpoints.len() as int;
    let none = Seq::<char>::empty();
    let header = metric_header(gauge_name(gauge), gauge_help(gauge));
    let lines = metric_lines(gauge, endpoints, states, n);
    let line = metric_line(gauge, endpoints[i], states[endpoints[i]]);
    lemma_line_among_lines(gauge, endpoints, states, n, i);
    crate::text::lemma_occurs_in_part(header, lines, none, line);
    assert(metric_section(gauge, endpoints, states) =~= header + lines + none);
}

/// The body of a metrics request holds, for every upstream, the four lines that tell
/// whether it is online, whether it is stale, how many connections it has and where its
/// chain state ends.
pub proof fn law_metrics_tell_every_upstream(
    endpoints: Seq<Seq<char>>,
    states: Map<Seq<char>, ServerState>,
    i: int,
)
    requires
        0 <= i < endpoints.len(),
    ensures
        ({
            let body = routed("GET"@, "/metrics"@, endpoints, states).body;
            let (endpoint, state) = (endpoints[i], states[endpoints[i]]);
            &&& crate::text::occurs(body, up_line(endpoint, state))
            &&& crate::text::occurs(body, stale_line(endpoint, state))
            &&& crate::text::occurs(body, connections_line(endpoint, state))
            &&& crate::text::occurs(body, chain_state_line(endpoint, state))
        }),
{
    law_metrics_route(endpoints, states);
    let (endpoint, state) = (endpoints[i], states[endpoints[i]]);
    lemma_metric_line(endpoint, state);
    lemma_line_in_section(Gauge::Up, endpoints, states, i);
    lemma_line_in_section(Gauge::Stale, endpoints, states, i);
    lemma_line_in_section(Gauge::Connections, endpoints, states, i);
    lemma_line_in_section(Gauge::ChainStateEndBlock, endpoints, states, i);
    let head = metric_header("fleet_router_up"@, "Whether the router process is up."@)
        + "fleet_router_up 1\n"@;
    let up = metric_section(Gauge::Up, endpoints, states);
    let stale = metric_section(Gauge::Stale, endpoints, states);
    let connections = metric_section(Gauge::Connections, endpoints, states);
    let chain_state = metric_section(Gauge::ChainStateEndBlock, endpoints, states);
    let none = Seq::<char>::empty();
    let all = metrics(endpoints, states);
    crate::text::lemma_occurs_in_part(
        head,
        up,
        stale + connections + chain_state,
        up_line(endpoint, state),
    );
    assert(all =~= head + up + (stale + connections + chain_state));
    crate::text::lemma_occurs_in_part(
        head + up,
        stale,
        connections + chain_state,
        stale_line(endpoint, state),
    );
    assert(all =~= head + up + stale + (connections + chain_state));
    crate::text::lemma_occurs_in_part(
        head + up + stale,
        connections,
        chain_state,
        connections_line(endpoint, state),
    );
    assert(all =~= head + up + stale + connections + chain_state);
    crate::text::lemma_occurs_in_part(
        head + up + stale + connections,
        chain_state,
        none,
        chain_state_line(endpoint, state),
    );
    assert(all =~= head + up + stale + connections + chain_state + none);
}

/// How many characters the lines of the first `n` upstreams have.
pub open spec fn lines_len(
    endpoints: Seq<Seq<char>>,
    states: Map<Seq<char>, ServerState>,
    n: int,
) -> nat
    decreases n,
{
    if n <= 0 {
        0
    } else {
        let (endpoint, state) = (endpoints[n - 1], states[endpoints[n - 1]]);
        lines_len(endpoints, states, n - 1) + up_line(endpoint, state).len() + stale_line(
            endpoint,
            state,
        ).len() + connections_line(endpoint, state).len() + chain_state_line(endpoint, state).len()
    }
}

proof fn lemma_lines_len(
    endpoints: Seq<Seq<char>>,
    states: Map<Seq<char>, ServerState>,
    n: int,
)
    ensures
        lines_len(endpoints, states, n) == metric_lines(Gauge::Up, endpoints, states, n).len()
            + metric_lines(Gauge::Stale, endpoints, states, n).len() + metric_lines(
            Gauge::Connections,
            endpoints,
            states,
            n,
        ).len() + metric_lines(Gauge::ChainStateEndBlock, endpoints, states, n).len(),
    decreases n,
{
    if n > 0 {
        lemma_lines_len(endpoints, states, n - 1);
        lemma_metric_line(endpoints[n - 1], states[endpoints[n - 1]]);
    }
}

/// The two lines above the values of a metric.
pub open spec fn introduction(name: Seq<char>, help: Seq<char>) -> Seq<char> {
    "# HELP "@ + name + " "@ + help + "\n"@ + "# TYPE "@ + name + " gauge\n"@
}

/// The metrics hold nothing but those lines and, for each metric, the two above them, with
/// the line that the router is up.
pub proof fn law_metrics_hold_nothing_else(
    endpoints: Seq<Seq<char>>,
    states: Map<Seq<char>, ServerState>,
)
    ensures
        metrics(Seq::empty(), states) == introduction(
            "fleet_router_up"@,
            "Whether the router process is up."@,
        ) + "fleet_router_up 1\n"@ + introduction(
            "fleet_router_upstream_up"@,
            "Whether an upstream is online (1) or offline (0)."@,
        ) + introduction(
            "fleet_router_upstream_stale"@,
            "Whether an upstream has stopped advancing (1) or not (0)."@,
        ) + introduction(
            "fleet_router_active_connections"@,
            "Active client connections routed to an upstream."@,
        ) + introduction(
            "fleet_router_upstream_chain_state_end_block"@,
            "Last chain-state block reported by an upstream."@,
        ),
        metrics(endpoints, states).len() == metrics(Seq::empty(), states).len() + lines_len(
            endpoints,
            states,
            endpoints.len() as int,
        ),
{
    lemma_lines_len(endpoints, states, endpoints.len() as int);
    let none = Seq::<Seq<char>>::empty();
    assert(metric_section(Gauge::Up, none, states) =~= metric_header(
        gauge_name(Gauge::Up),
        gauge_help(Gauge::Up),
    ));
    assert(metric_section(Gauge::Stale, none, states) =~= metric_header(
        gauge_name(Gauge::Stale),
        gauge_help(Gauge::Stale),
    ));
    assert(metric_section(Gauge::Connections, none, states) =~= metric_header(
        gauge_name(Gauge::Connections),
        gauge_help(Gauge::Connections),
    ));
    assert(metric_section(Gauge::ChainStateEndBlock, none, states) =~= metric_header(
        gauge_name(Gauge::ChainStateEndBlock),
        gauge_help(Gauge::ChainStateEndBlock),
    ));
}

/// As many upstreams are counted as are online, whatever else is known of them.
pub proof fn law_counts_each_online(
    endpoints: Seq<Seq<char>>,
    states: Map<Seq<char>, ServerState>,
    n: int,
)
    requires
        0 <= n <= endpoints.len(),
    ensures
        online_count(endpoints, states, n) == endpoints.take(n).filter(
            |e: Seq<char>| states[e].online,
        ).len(),
    decreases n,
{
    reveal(Seq::filter);
    if n > 0 {
        law_counts_each_online(endpoints, states, n - 1);
        assert(endpoints.take(n).drop_last() =~= endpoints.take(n - 1));
        assert(endpoints.take(n).last() == endpoints[n - 1]);
    } else {
        assert(endpoints.take(0).len() == 0);
    }
}

proof fn lemma_paths()
    ensures
        "/health"@ != "/metrics"@,
        "/healthz"@ != "/metrics"@,
        "/ready"@ != "/metrics"@,
        "/readyz"@ != "/metrics"@,
        "/health"@ != "/readyz"@,
        "/health"@ != "/ready"@,
        "/healthz"@ != "/ready"@,
        "/healthz"@ != "/readyz"@,
{
    reveal_strlit("/health");
    reveal_strlit("/healthz");
    reveal_strlit("/ready");
    reveal_strlit("/readyz");
    reveal_strlit("/metrics");
    assert("/health"@[1] == 'h' && "/healthz"@[1] == 'h');
    assert("/ready"@[1] == 'r' && "/readyz"@[1] == 'r');
    assert("/metrics"@[1] == 'm');
    assert("/health"@.len() == 7 && "/healthz"@.len() == 8);
}

/// While the process runs it says that it is healthy, whatever the upstreams do.
pub proof fn law_health_route(
    path: Seq<char>,
    endpoints: Seq<Seq<char>>,
    states: Map<Seq<char>, ServerState>,
)
    requires
        path == "/health"@ || path == "/healthz"@,
    ensures
        ({
            let response = routed("GET"@, path, endpoints, states);
            &&& response.status == "200 OK"@
            &&& response.content_type == "text/plain"@
            &&& response.body == "ok\n"@
        }),
{
}

/// The router is ready exactly where some upstream is online, and then says how many are.
pub proof fn law_ready_route(
    path: Seq<char>,
    endpoints: Seq<Seq<char>>,
    states: Map<Seq<char>, ServerState>,
)
    requires
        path == "/ready"@ || path == "/readyz"@,
    ensures
        ({
            let response = routed("GET"@, path, endpoints, states);
            let online = endpoints.filter(|e: Seq<char>| states[e].online).len();
            &&& response.content_type == "text/plain"@
            &&& online > 0 ==> response.status == "200 OK"@ && response.body == "ready: "@
                + crate::text::decimal(online) + " upstream(s) online\n"@
            &&& online == 0 ==> response.status == "503 Service Unavailable"@ && response.body
                == "not ready: no upstreams online\n"@
        }),
{
    lemma_paths();
    law_counts_each_online(endpoints, states, endpoints.len() as int);
    assert(endpoints.take(endpoints.len() as int) =~= endpoints);
}

/// A metrics request is answered with the metrics, as Prometheus reads them.
pub proof fn law_metrics_route(endpoints: Seq<Seq<char>>, states: Map<Seq<char>, ServerState>)
    ensures
        ({
            let response = routed("GET"@, "/metrics"@, endpoints, states);
            &&& response.status == "200 OK"@
            &&& response.content_type == "text/plain; version=0.0.4"@
            &&& response.body == metrics(endpoints, states)
        }),
{
    lemma_paths();
}

/// Other paths are not found, and other methods than GET are refused on every path.
pub proof fn law_other_requests(
    method: Seq<char>,
    path: Seq<char>,
    endpoints: Seq<Seq<char>>,
    states: Map<Seq<char>, ServerState>,
)
    ensures
        ({
            let response = routed(method, path, endpoints, states);
            &&& method != "GET"@ ==> response.status == "405 Method Not Allowed"@ && response.body
                == "method not allowed\n"@ && response.content_type == "text/plain"@
            &&& method == "GET"@ && path != "/health"@ && path != "/healthz"@ && path != "/ready"@
                && path != "/readyz"@ && path != "/metrics"@ ==> response.status
                == "404 Not Found"@ && response.body == "not found\n"@ && response.content_type
                == "text/plain"@
        }),
{
}

/// The method and the path of a request are the first two words of its first line, however
/// much white space stands around them and whatever follows.
pub proof fn law_method_and_path(
    method: Seq<char>,
    gap: Seq<char>,
    path: Seq<char>,
    rest: Seq<char>,
    more: Seq<char>,
)
    requires
        method.len() > 0,
        gap.len() > 0,
        path.len() > 0,
        forall|i: int|
            0 <= i < method.len() ==> !crate::text::white_space(#[trigger] method[i]),
        forall|i: int| 0 <= i < path.len() ==> !crate::text::white_space(#[trigger] path[i]),
        forall|i: int| 0 <= i < gap.len() ==> crate::text::white_space(#[trigger] gap[i]),
        forall|i: int| 0 <= i < gap.len() ==> #[trigger] gap[i] != '\n',
        forall|i: int| 0 <= i < rest.len() ==> #[trigger] rest[i] != '\n',
        rest.len() > 0 ==> crate::text::white_space(rest[0]),
        more.len() > 0 ==> more[0] == '\n',
    ensures
        method_of(method + gap + path + rest + more) == method,
        path_of(method + gap + path + rest + more) == path,
{
    let line = method + gap + path + rest;
    assert forall|i: int| 0 <= i < line.len() implies #[trigger] line[i] != '\n' by {
        let (a, b, c) = (
            method.len() as int,
            (method.len() + gap.len()) as int,
            (method.len() + gap.len() + path.len()) as int,
        );
        if i < a {
            assert(line[i] == method[i]);
        } else if i < b {
            assert(line[i] == gap[i - a]);
        } else if i < c {
            assert(line[i] == path[i - b]);
        } else {
            assert(line[i] == rest[i - c]);
        }
    }
    crate::text::law_first_line(line, more);
    let none = Seq::<char>::empty();
    let behind = gap + path + rest;
    assert(behind[0] == gap[0]);
    crate::text::law_first_word(none, method, behind);
    assert(none + method + behind =~= line);
    crate::text::law_first_word(gap, path, rest);
}

/// A response starts with its status, tells the type and the number of bytes of its body,
/// says that the connection closes, and ends with the body behind an empty line.
pub proof fn law_response_text(response: ResponseModel)
    ensures
        ({
            let text = http_text(response);
            let start = "HTTP/1.1 "@ + response.status + "\r\n"@;
            let end = "\r\n\r\n"@ + response.body;
            &&& start.is_prefix_of(text)
            &&& end.is_suffix_of(text)
            &&& crate::text::occurs(
                text,
                "\r\nContent-Type: "@ + response.content_type + "\r\n"@,
            )
            &&& crate::text::occurs(
                text,
                "\r\nContent-Length: "@ + crate::text::decimal(
                    vstd::utf8::encode_utf8(response.body).len(),
                ) + "\r\n"@,
            )
        }),
{
    let text = http_text(response);
    let length = crate::text::decimal(vstd::utf8::encode_utf8(response.body).len());
    reveal_strlit("\r\n");
    reveal_strlit("\r\n\r\n");
    reveal_strlit("\r\nContent-Type: ");
    reveal_strlit("\r\nContent-Length: ");
    reveal_strlit("\r\nConnection: close\r\n\r\n");
    let feed = "\r\n"@;
    let t = "\r\nContent-Type: "@;
    let l = "\r\nContent-Length: "@;
    let c = "\r\nConnection: close\r\n\r\n"@;
    assert(t =~= feed + t.skip(2));
    assert(l =~= feed + l.skip(2));
    assert(c =~= feed + c.skip(2));
    assert(c =~= c.take(19) + "\r\n\r\n"@);
    let head = "HTTP/1.1 "@ + response.status;
    let tail = response.content_type + l + length + c + response.body;
    assert(text =~= (head + feed) + (t.skip(2) + tail));
    assert(text =~= (head + t + response.content_type + l + length + c.take(19))
        + ("\r\n\r\n"@ + response.body));
    let kind = t + response.content_type + feed;
    crate::text::law_occurs(text, kind);
    assert(text =~= head + kind + (l.skip(2) + length + c + response.body));
    let size = l + length + feed;
    crate::text::law_occurs(text, size);
    assert(text =~= (head + t + response.content_type) + size + (c.skip(2) + response.body));
}

/// The request line is complete once a line feed has come.
pub proof fn law_has_line(bytes: Seq<u8>)
    ensures
        has_line(bytes) <==> bytes.contains(10u8),
{
    if bytes.contains(10u8) {
        let i = bytes.index_of(10u8);
        assert(bytes[i] == 10);
    }
}

/// A request is answered by its method and its path, whatever else it says: the answer
/// starts with the status of that route and ends with its body.
pub proof fn law_answers_what_is_asked(
    head: Seq<char>,
    endpoints: Seq<Seq<char>>,
    states: Map<Seq<char>, ServerState>,
)
    ensures
        ({
            let response = routed(method_of(head), path_of(head), endpoints, states);
            let text = answer(head, endpoints, states);
            &&& ("HTTP/1.1 "@ + response.status + "\r\n"@).is_prefix_of(text)
            &&& ("\r\n\r\n"@ + response.body).is_suffix_of(text)
        }),
{
    law_response_text(routed(method_of(head), path_of(head), endpoints, states));
}

} // verus!
