//! Requests to a gateway, and what its replies say.
use vstd::prelude::*;
use vstd::string::*;

use crate::json;
use crate::json::{Json, JsonView};
use crate::text;

verus! {

/// The ids of the requests of one process.
#[derive(Debug, PartialEq, Eq)]
pub struct RequestIds {
    next: i64,
}

/// The id that follows another. Behind the largest comes the smallest.
pub open spec fn id_after(id: i64) -> i64 {
    if id == i64::MAX {
        i64::MIN
    } else {
        (id + 1) as i64
    }
}

/// The id that is given out after `calls` others, where the first one is `first`.
pub open spec fn nth_id(first: i64, calls: nat) -> i64
    decreases calls,
{
    if calls == 0 {
        first
    } else {
        id_after(nth_id(first, (calls - 1) as nat))
    }
}

impl RequestIds {
    /// The id that the next request gets.
    pub closed spec fn next(self) -> i64 {
        self.next
    }

    /// The ids of a process that has sent no request yet.
    pub fn new() -> (ids: RequestIds)
        ensures
            ids.next() == 1,
    {
        RequestIds { next: 1 }
    }
}

/// Gives out the id of the next request.
pub fn next_id(ids: &mut RequestIds) -> (id: i64)
    ensures
        id == old(ids).next(),
        final(ids).next() == id_after(id),
{
    let id = ids.next;
    ids.next = id.wrapping_add(1);
    id
}

/// Where an id stands in the order in which they are given out.
proof fn lemma_nth_id(first: i64, calls: nat)
    requires
        calls < 0x1_0000_0000_0000_0000,
    ensures
        nth_id(first, calls) == first + calls || nth_id(first, calls) == first + calls
            - 0x1_0000_0000_0000_0000,
    decreases calls,
{
    if calls > 0 {
        lemma_nth_id(first, (calls - 1) as nat);
    }
}

/// No two of the requests of a process have the same id, before all the ids are used up.
pub proof fn ids_differ(first: i64, earlier: nat, later: nat)
    requires
        earlier < later < 0x1_0000_0000_0000_0000,
    ensures
        nth_id(first, earlier) != nth_id(first, later),
{
    lemma_nth_id(first, earlier);
    lemma_nth_id(first, later);
}

/// The requests of a process are numbered 1, 2, 3 and so on: the one that follows `calls` others gets
/// the number `calls + 1`.
pub proof fn ids_count_up(calls: nat)
    requires
        calls < i64::MAX,
    ensures
        nth_id(1, calls) == calls + 1,
    decreases calls,
{
    if calls > 0 {
        ids_count_up((calls - 1) as nat);
    }
}

/// A JSON-RPC request.
pub open spec fn request_view(id: i64, method: Seq<char>, params: JsonView) -> JsonView {
    JsonView::Object(
        map![
            "jsonrpc"@ => JsonView::Text("2.0"@),
            "id"@ => JsonView::Int(id),
            "method"@ => JsonView::Text(method),
            "params"@ => params,
        ],
    )
}

/// A JSON-RPC request.
pub fn request(id: i64, method: &str, params: Json) -> (message: Json)
    ensures
        message@ == request_view(id, method@, params@),
{
    let mut fields = json::no_fields();
    json::put(&mut fields, "jsonrpc", Json::text("2.0"));
    json::put(&mut fields, "id", Json::Int(id));
    json::put(&mut fields, "method", Json::text(method));
    json::put(&mut fields, "params", params);
    Json::Object(fields)
}

/// The words of an error that brings none.
pub open spec fn message_or(error: JsonView, default: Seq<char>) -> Seq<char> {
    match error.text_at("message"@) {
        Some(message) => message,
        None => default,
    }
}

/// The code and the words of the error in a reply, where it holds one other than `null`.
pub open spec fn error_in(reply: JsonView) -> Option<(i64, Seq<char>)> {
    match reply.get("error"@) {
        Some(error) => if error == JsonView::Null {
            None
        } else {
            Some(
                (
                    match error.int_at("code"@) {
                        Some(code) => code,
                        None => 0,
                    },
                    message_or(error, "Unknown error"@),
                ),
            )
        },
        None => None,
    }
}

/// An error that a gateway answered with.
#[derive(Debug, PartialEq, Eq)]
pub struct RpcError {
    pub code: i64,
    pub message: String,
}

impl View for RpcError {
    type V = (i64, Seq<char>);

    open spec fn view(&self) -> (i64, Seq<char>) {
        (self.code, self.message@)
    }
}

/// An error that may be missing, as its code and its words.
pub open spec fn opt_error(error: Option<RpcError>) -> Option<(i64, Seq<char>)> {
    match error {
        Some(e) => Some(e@),
        None => None,
    }
}

/// What is told of an error: its code and its words.
pub open spec fn error_text(error: (i64, Seq<char>)) -> Seq<char> {
    "Error ("@ + text::signed_decimal(error.0 as int) + "): "@ + error.1
}

impl RpcError {
    /// What is told of the error: its code and its words.
    pub fn text(&self) -> (told: String)
        ensures
            told@ == error_text(self@),
    {
        let mut told = "Error (".to_string();
        told.append(text::signed_decimal_of(self.code).as_str());
        told.append("): ");
        told.append(self.message.as_str());
        told
    }
}

/// The text under a key, and a default where there is none.
fn text_or(value: &Json, key: &str, default: &str) -> (found: String)
    ensures
        found@ == (match value@.text_at(key@) {
            Some(t) => t,
            None => default@,
        }),
{
    match value.text_at(key) {
        Some(t) => t.to_string(),
        None => default.to_string(),
    }
}

/// The error in a reply, where it holds one other than `null`.
pub fn reply_error(reply: &Json) -> (error: Option<RpcError>)
    ensures
        opt_error(error) == error_in(reply@),
{
    match reply.get("error") {
        Some(error) => if error.is_null() {
            None
        } else {
            let code: i64 = match error.int_at("code") {
                Some(code) => code,
                None => 0,
            };
            Some(RpcError { code, message: text_or(error, "message", "Unknown error") })
        },
        None => None,
    }
}

/// The parameters of the handshake, with the token where there is one.
pub open spec fn initialize_params(token: Option<Seq<char>>) -> JsonView {
    let bare = map![
        "protocolVersion"@ => JsonView::Text("0.1.0"@),
        "clientInfo"@ => JsonView::Object(
            map!["name"@ => JsonView::Text("agc"@), "version"@ => JsonView::Text("0.2.0"@)],
        ),
    ];
    match token {
        Some(t) => JsonView::Object(
            bare.insert("_meta"@, JsonView::Object(map!["authToken"@ => JsonView::Text(t)])),
        ),
        None => JsonView::Object(bare),
    }
}

/// The request of the handshake, with the token where there is one.
pub fn initialize_request(id: i64, token: Option<&str>) -> (message: Json)
    ensures
        message@ == request_view(id, "initialize"@, initialize_params(text::opt_text(token))),
{
    let mut client = json::no_fields();
    json::put(&mut client, "name", Json::text("agc"));
    json::put(&mut client, "version", Json::text("0.2.0"));
    let mut params = json::no_fields();
    json::put(&mut params, "protocolVersion", Json::text("0.1.0"));
    json::put(&mut params, "clientInfo", Json::Object(client));
    match token {
        Some(t) => {
            let mut meta = json::no_fields();
            json::put(&mut meta, "authToken", Json::text(t));
            json::put(&mut params, "_meta", Json::Object(meta));
        },
        None => {},
    }
    request(id, "initialize", Json::Object(params))
}

/// What the handshake's reply comes to: the reply itself, or what is told of its error.
pub fn initialize_reply(reply: Json) -> (accepted: Result<Json, String>)
    ensures
        match accepted {
            Ok(r) => error_in(reply@) is None && r == reply,
            Err(told) => error_in(reply@) matches Some(error) && told@ == "Initialize error: "@
                + error.1,
        },
{
    match reply_error(&reply) {
        Some(error) => {
            let mut told = "Initialize error: ".to_string();
            told.append(error.message.as_str());
            Err(told)
        },
        None => Ok(reply),
    }
}

/// Whether the handshake's reply says that the token was accepted.
pub open spec fn authenticated_view(reply: JsonView) -> bool {
    match reply.get("result"@) {
        Some(result) => match result.get("authenticated"@) {
            Some(flag) => flag == JsonView::Bool(true),
            None => false,
        },
        None => false,
    }
}

/// Whether the handshake's reply says that the token was accepted.
pub fn authenticated(reply: &Json) -> (accepted: bool)
    ensures
        accepted == authenticated_view(reply@),
{
    match reply.get("result") {
        Some(result) => match result.get("authenticated") {
            Some(flag) => match flag.as_bool() {
                Some(b) => b,
                None => false,
            },
            None => false,
        },
        None => false,
    }
}

/// What one message means to a request that waits for its reply.
#[derive(Debug, PartialEq, Eq)]
pub enum RpcStep {
    /// It is no reply to this request.
    Wait,
    /// The reply, with its result.
    Done(Json),
    /// The reply, with its error.
    Failed(RpcError),
}

/// What one message means to a request that waits for its reply.
#[verifier::ext_equal]
pub enum RpcStepView {
    Wait,
    Done(JsonView),
    Failed((i64, Seq<char>)),
}

impl View for RpcStep {
    type V = RpcStepView;

    open spec fn view(&self) -> RpcStepView {
        match self {
            RpcStep::Wait => RpcStepView::Wait,
            RpcStep::Done(result) => RpcStepView::Done(result@),
            RpcStep::Failed(error) => RpcStepView::Failed(error@),
        }
    }
}

/// The result in a reply; an object with no field where there is none.
pub open spec fn result_of(reply: JsonView) -> JsonView {
    match reply.get("result"@) {
        Some(result) => result,
        None => JsonView::Object(Map::empty()),
    }
}

/// What a message means to the request with this id: only a message with the same id is its reply.
pub open spec fn rpc_step_view(id: i64, message: JsonView) -> RpcStepView {
    if message.int_at("id"@) == Some(id) {
        match error_in(message) {
            Some(error) => RpcStepView::Failed(error),
            None => RpcStepView::Done(result_of(message)),
        }
    } else {
        RpcStepView::Wait
    }
}

/// The result in a reply; an object with no field where there is none.
pub fn take_result(reply: Json) -> (result: Json)
    ensures
        result@ == result_of(reply@),
{
    let mut reply = reply;
    match reply.take("result") {
        Some(result) => result,
        None => Json::empty(),
    }
}

/// What a message means to the request with this id.
pub fn rpc_step(id: i64, message: Json) -> (step: RpcStep)
    ensures
        step@ == rpc_step_view(id, message@),
{
    match message.int_at("id") {
        Some(answered) => if answered == id {
            match reply_error(&message) {
                Some(error) => RpcStep::Failed(error),
                None => RpcStep::Done(take_result(message)),
            }
        } else {
            RpcStep::Wait
        },
        None => RpcStep::Wait,
    }
}

/// The relay is asked to connect to a gateway, with the relay's secret where there is one.
pub open spec fn connect_view(target: Seq<char>, token: Option<Seq<char>>) -> JsonView {
    let bare = map![
        "type"@ => JsonView::Text("connect"@),
        "target"@ => JsonView::Text(target),
    ];
    match token {
        Some(t) => JsonView::Object(bare.insert("token"@, JsonView::Text(t))),
        None => JsonView::Object(bare),
    }
}

/// Asks the relay to connect to a gateway.
pub fn connect_message(target: &str, token: Option<&str>) -> (message: Json)
    ensures
        message@ == connect_view(target@, text::opt_text(token)),
{
    let mut fields = json::no_fields();
    json::put(&mut fields, "type", Json::text("connect"));
    json::put(&mut fields, "target", Json::text(target));
    match token {
        Some(t) => {
            json::put(&mut fields, "token", Json::text(t));
        },
        None => {},
    }
    Json::Object(fields)
}

/// Why the relay did not connect.
#[derive(Debug, PartialEq, Eq)]
pub enum RelayError {
    /// The relay says why.
    Refused(String),
    /// A reply of another type.
    Unexpected(Option<String>),
}

/// Why the relay did not connect.
#[verifier::ext_equal]
pub enum RelayErrorView {
    Refused(Seq<char>),
    Unexpected(Option<Seq<char>>),
}

impl View for RelayError {
    type V = RelayErrorView;

    open spec fn view(&self) -> RelayErrorView {
        match self {
            RelayError::Refused(message) => RelayErrorView::Refused(message@),
            RelayError::Unexpected(kind) => RelayErrorView::Unexpected(text::opt_string(*kind)),
        }
    }
}

/// What is told of a relay that did not connect.
pub open spec fn relay_error_text(error: RelayErrorView) -> Seq<char> {
    match error {
        RelayErrorView::Refused(message) => "Relay error: "@ + message,
        RelayErrorView::Unexpected(kind) => "Unexpected relay response: "@ + text::debug_text(kind),
    }
}

impl RelayError {
    /// What is told of the error.
    pub fn text(&self) -> (told: String)
        ensures
            told@ == relay_error_text(self@),
    {
        match self {
            RelayError::Refused(message) => {
                let mut told = "Relay error: ".to_string();
                told.append(message.as_str());
                told
            },
            RelayError::Unexpected(kind) => {
                let mut told = "Unexpected relay response: ".to_string();
                told.append(text::debug_of(kind).as_str());
                told
            },
        }
    }
}

/// What the relay's reply comes to.
pub open spec fn relay_outcome(reply: JsonView) -> Result<(), RelayErrorView> {
    let kind = reply.text_at("type"@);
    if kind == Some("connected"@) {
        Ok(())
    } else if kind == Some("error"@) {
        Err(RelayErrorView::Refused(message_or(reply, "Unknown relay error"@)))
    } else {
        Err(RelayErrorView::Unexpected(kind))
    }
}

/// What the relay's reply comes to.
pub fn relay_reply(reply: &Json) -> (connected: Result<(), RelayError>)
    ensures
        relay_outcome(reply@) == (match connected {
            Ok(()) => Ok::<(), RelayErrorView>(()),
            Err(e) => Err::<(), RelayErrorView>(e@),
        }),
{
    let kind = reply.text_at("type");
    if text::is_text(kind, "connected") {
        Ok(())
    } else if text::is_text(kind, "error") {
        Err(RelayError::Refused(text_or(reply, "message", "Unknown relay error")))
    } else {
        Err(RelayError::Unexpected(text::owned(kind)))
    }
}

/// The parameters that bind a device with a pairing code.
pub open spec fn bind_view(pair_code: Seq<char>, device_name: Seq<char>) -> JsonView {
    JsonView::Object(
        map![
            "pairCode"@ => JsonView::Text(pair_code),
            "deviceName"@ => JsonView::Text(device_name),
        ],
    )
}

/// The parameters that bind a device with a pairing code.
pub fn bind_params(pair_code: &str, device_name: &str) -> (params: Json)
    ensures
        params@ == bind_view(pair_code@, device_name@),
{
    let mut fields = json::no_fields();
    json::put(&mut fields, "pairCode", Json::text(pair_code));
    json::put(&mut fields, "deviceName", Json::text(device_name));
    Json::Object(fields)
}

/// The request that binds a device with a pairing code.
pub fn bind_request(id: i64, pair_code: &str, device_name: &str) -> (message: Json)
    ensures
        message@ == request_view(id, "bindDevice"@, bind_view(pair_code@, device_name@)),
{
    request(id, "bindDevice", bind_params(pair_code, device_name))
}

/// The name and the token that a device was bound with, from the gateway's result: the name that was
/// asked for where the gateway gives none.
pub fn bound_device(result: &Json, device_name: &str) -> (bound: Option<(String, String)>)
    ensures
        match bound {
            Some(b) => {
                &&& result@.text_at("token"@) == Some(b.1@)
                &&& b.0@ == (match result@.text_at("deviceName"@) {
                    Some(name) => name,
                    None => device_name@,
                })
            },
            None => result@.text_at("token"@) is None,
        },
{
    match result.text_at("token") {
        Some(token) => Some((text_or(result, "deviceName", device_name), token.to_string())),
        None => None,
    }
}

/// The parameters with which a visitor asks for access, to one agent where it is named.
pub open spec fn access_view(client_name: Seq<char>, agent: Option<Seq<char>>) -> JsonView {
    let bare = map!["clientName"@ => JsonView::Text(client_name)];
    match agent {
        Some(a) => JsonView::Object(bare.insert("agent"@, JsonView::Text(a))),
        None => JsonView::Object(bare),
    }
}

/// The parameters with which a visitor asks for access.
pub fn access_params(client_name: &str, agent: Option<&str>) -> (params: Json)
    ensures
        params@ == access_view(client_name@, text::opt_text(agent)),
{
    let mut fields = json::no_fields();
    json::put(&mut fields, "clientName", Json::text(client_name));
    match agent {
        Some(a) => {
            json::put(&mut fields, "agent", Json::text(a));
        },
        None => {},
    }
    Json::Object(fields)
}

/// The request with which a visitor asks for access.
pub fn access_request(id: i64, client_name: &str, agent: Option<&str>) -> (message: Json)
    ensures
        message@ == request_view(
            id,
            "requestAccess"@,
            access_view(client_name@, text::opt_text(agent)),
        ),
{
    request(id, "requestAccess", access_params(client_name, agent))
}

/// The parameters with which a visitor asks what became of a request.
pub open spec fn check_view(request_id: Seq<char>) -> JsonView {
    JsonView::Object(map!["requestId"@ => JsonView::Text(request_id)])
}

/// The parameters with which a visitor asks what became of a request.
pub fn check_params(request_id: &str) -> (params: Json)
    ensures
        params@ == check_view(request_id@),
{
    let mut fields = json::no_fields();
    json::put(&mut fields, "requestId", Json::text(request_id));
    Json::Object(fields)
}

/// The request with which a visitor asks what became of an earlier one.
pub fn check_request(id: i64, request_id: &str) -> (message: Json)
    ensures
        message@ == request_view(id, "checkAccess"@, check_view(request_id@)),
{
    request(id, "checkAccess", check_params(request_id))
}

/// The request for the list of the gateway's agents.
pub fn agents_request(id: i64) -> (message: Json)
    ensures
        message@ == request_view(id, "listAgents"@, JsonView::Object(Map::empty())),
{
    request(id, "listAgents", Json::empty())
}

/// The id and the name of an agent in a list: its id for its name where it has none. What has no id
/// is no agent.
pub open spec fn agent_view(entry: JsonView) -> Option<(Seq<char>, Seq<char>)> {
    match entry.text_at("id"@) {
        Some(id) => Some(
            (
                id,
                match entry.text_at("name"@) {
                    Some(name) => name,
                    None => id,
                },
            ),
        ),
        None => None,
    }
}

/// The agents that a gateway lists, in its order.
pub open spec fn agents_view(result: JsonView) -> Seq<(Seq<char>, Seq<char>)> {
    match result.get("agents"@) {
        Some(JsonView::List(entries)) => entries.filter_map(|entry: JsonView| agent_view(entry)),
        _ => Seq::empty(),
    }
}

/// Pairs of texts as their characters.
pub open spec fn pairs_view(pairs: Seq<(String, String)>) -> Seq<(Seq<char>, Seq<char>)> {
    Seq::new(pairs.len(), |i: int| (pairs[i].0@, pairs[i].1@))
}

/// The ids and the names of the agents that a gateway lists, in its order.
pub fn listed_agents(result: &Json) -> (agents: Vec<(String, String)>)
    ensures
        pairs_view(agents@) == agents_view(result@),
{
    let mut agents: Vec<(String, String)> = Vec::new();
    match result.get("agents") {
        Some(Json::List(entries)) => {
            let ghost views = json::items_view(entries@);
            let ghost pick = |entry: JsonView| agent_view(entry);
            proof {
                json::lemma_items_view(entries@);
            }
            for i in 0..entries.len()
                invariant
                    views == json::items_view(entries@),
                    views.len() == entries@.len(),
                    forall|j: int| 0 <= j < entries@.len() ==> #[trigger] views[j] == entries@[j]@,
                    pick == (|entry: JsonView| agent_view(entry)),
                    pairs_view(agents@) == views.take(i as int).filter_map(pick),
            {
                let entry = &entries[i];
                let ghost before = agents@;
                match entry.text_at("id") {
                    Some(id) => {
                        agents.push((id.to_string(), text_or(entry, "name", id)));
                    },
                    None => {},
                }
                proof {
                    let longer = views.take(i + 1);
                    assert(longer.drop_last() =~= views.take(i as int));
                    assert(longer.last() == entry@);
                    assert(pairs_view(agents@) =~= longer.filter_map(pick));
                }
            }
            proof {
                assert(views.take(views.len() as int) =~= views);
            }
        },
        _ => {
            assert(pairs_view(agents@) =~= Seq::empty());
        },
    }
    agents
}

/// A message that is not the reply to a request, be it a notification or an error, does not end the
/// wait for it.
pub proof fn only_the_reply_ends_a_wait(id: i64, message: JsonView)
    requires
        message.int_at("id"@) != Some(id),
    ensures
        rpc_step_view(id, message) == RpcStepView::Wait,
{
}

/// What the messages that have come mean to the request with this id: what the first of them means that
/// does not leave it waiting.
pub open spec fn rpc_outcome(id: i64, messages: Seq<JsonView>) -> RpcStepView
    decreases messages.len(),
{
    if messages.len() == 0 {
        RpcStepView::Wait
    } else {
        match rpc_step_view(id, messages[0]) {
            RpcStepView::Wait => rpc_outcome(id, messages.drop_first()),
            step => step,
        }
    }
}

/// While no message has the request's id, the request waits.
pub proof fn request_waits_for_its_id(id: i64, messages: Seq<JsonView>)
    requires
        forall|j: int| 0 <= j < messages.len() ==> (#[trigger] messages[j]).int_at("id"@) != Some(id),
    ensures
        rpc_outcome(id, messages) == RpcStepView::Wait,
    decreases messages.len(),
{
    if messages.len() > 0 {
        only_the_reply_ends_a_wait(id, messages[0]);
        assert forall|j: int| 0 <= j < messages.drop_first().len() implies (
        #[trigger] messages.drop_first()[j]).int_at("id"@) != Some(id) by {
            assert(messages.drop_first()[j] == messages[j + 1]);
        }
        request_waits_for_its_id(id, messages.drop_first());
    }
}

/// The first message with the request's id decides, whatever comes before it or after it.
pub proof fn first_reply_decides(id: i64, messages: Seq<JsonView>, i: int)
    requires
        0 <= i < messages.len(),
        messages[i].int_at("id"@) == Some(id),
        forall|j: int| 0 <= j < i ==> (#[trigger] messages[j]).int_at("id"@) != Some(id),
    ensures
        rpc_outcome(id, messages) == rpc_step_view(id, messages[i]),
        !(rpc_outcome(id, messages) is Wait),
    decreases i,
{
    if i > 0 {
        let rest = messages.drop_first();
        only_the_reply_ends_a_wait(id, messages[0]);
        assert forall|j: int| 0 <= j < i - 1 implies (#[trigger] rest[j]).int_at("id"@) != Some(id) by {
            assert(rest[j] == messages[j + 1]);
        }
        first_reply_decides(id, rest, i - 1);
    }
}

/// The token goes with the handshake where there is one, and nothing stands in its place where there
/// is none.
pub proof fn token_goes_with_the_handshake(token: Option<Seq<char>>)
    ensures
        match initialize_params(token).get("_meta"@) {
            Some(meta) => token is Some && meta.text_at("authToken"@) == token,
            None => token is None,
        },
{
    reveal_strlit("_meta");
    reveal_strlit("protocolVersion");
    reveal_strlit("clientInfo");
    assert("_meta"@.len() == 5 && "protocolVersion"@.len() == 15 && "clientInfo"@.len() == 10);
}

/// Every id is one more than the id before it, and behind the largest of 64 bits with a sign the
/// smallest comes.
pub proof fn ids_go_up_by_one(first: i64, calls: nat)
    ensures
        nth_id(first, 0) == first,
        nth_id(first, calls) < i64::MAX ==> nth_id(first, calls + 1) == nth_id(first, calls) + 1,
        nth_id(first, calls) == i64::MAX ==> nth_id(first, calls + 1) == i64::MIN,
{
}

/// A request has the version 2.0, its id, its method and its parameters, and nothing else.
pub proof fn requests_carry_their_parts(
    id: i64,
    method: Seq<char>,
    params: JsonView,
    other: Seq<char>,
)
    ensures
        ({
            let message = request_view(id, method, params);
            &&& message.text_at("jsonrpc"@) == Some("2.0"@)
            &&& message.int_at("id"@) == Some(id)
            &&& message.text_at("method"@) == Some(method)
            &&& message.get("params"@) == Some(params)
            &&& other != "jsonrpc"@ && other != "id"@ && other != "method"@ && other != "params"@
                ==> message.get(other) is None
        }),
{
    reveal_strlit("jsonrpc");
    reveal_strlit("id");
    reveal_strlit("method");
    reveal_strlit("params");
    assert("jsonrpc"@.len() == 7);
    assert("id"@.len() == 2);
    assert("method"@.len() == 6);
    assert("params"@.len() == 6);
    assert("method"@[0] != "params"@[0]);
}

/// A reply without an error, or whose error is `null`, has none. Any other error has a code, which is
/// zero where the reply gives none, and words, which are `Unknown error` where it gives none.
pub proof fn errors_have_a_code_and_words(
    reply: JsonView,
    error: JsonView,
    code: i64,
    words: Seq<char>,
)
    ensures
        reply.get("error"@) is None ==> error_in(reply) is None,
        reply.get("error"@) == Some(JsonView::Null) ==> error_in(reply) is None,
        reply.get("error"@) == Some(error) && error != JsonView::Null ==> {
            &&& error_in(reply) matches Some(e)
            &&& error.int_at("code"@) == Some(code) ==> e.0 == code
            &&& error.int_at("code"@) is None ==> e.0 == 0
            &&& error.text_at("message"@) == Some(words) ==> e.1 == words
            &&& error.text_at("message"@) is None ==> e.1 == "Unknown error"@
        },
{
}

/// What is told of an error is its code in decimal digits and its words.
pub proof fn errors_are_told_with_code_and_words(code: i64, digits: Seq<char>, words: Seq<char>)
    requires
        text::all_digits(digits),
        digits[0] == '0' ==> digits.len() == 1,
    ensures
        code >= 0 && text::number_of(digits) == code ==> error_text((code, words)) == "Error ("@ + digits
            + "): "@ + words,
        code < 0 && text::number_of(digits) == -code ==> error_text((code, words)) == "Error (-"@
            + digits + "): "@ + words,
{
    text::digits_are_those_of_their_number(digits);
    reveal_strlit("Error (");
    reveal_strlit("Error (-");
    reveal_strlit("-");
    assert("Error (-"@ =~= "Error ("@ + "-"@);
    if code < 0 && text::number_of(digits) == -code {
        text::sign_is_written_for_negative_numbers((-code) as nat);
        assert(error_text((code, words)) =~= "Error (-"@ + digits + "): "@ + words);
    }
}

/// The handshake names the protocol's version and this client, and nothing but a token besides.
pub proof fn handshakes_name_this_client(token: Option<Seq<char>>, other: Seq<char>)
    ensures
        ({
            let params = initialize_params(token);
            &&& params.text_at("protocolVersion"@) == Some("0.1.0"@)
            &&& params.get("clientInfo"@) matches Some(client) && client.text_at("name"@) == Some(
                "agc"@,
            ) && client.text_at("version"@) == Some("0.2.0"@)
            &&& token matches Some(t) ==> params.get("_meta"@) matches Some(meta) && meta.text_at(
                "authToken"@,
            ) == Some(t)
            &&& token is None ==> params.get("_meta"@) is None
            &&& other != "protocolVersion"@ && other != "clientInfo"@ && other != "_meta"@ ==> params.get(
                other,
            ) is None
        }),
{
    reveal_strlit("protocolVersion");
    reveal_strlit("clientInfo");
    reveal_strlit("_meta");
    assert("protocolVersion"@.len() == 15);
    assert("clientInfo"@.len() == 10);
    assert("_meta"@.len() == 5);
    reveal_strlit("name");
    reveal_strlit("version");
    assert("name"@.len() == 4);
    assert("version"@.len() == 7);
}

/// A token was accepted where the result says `authenticated: true`, and nowhere else.
pub proof fn acceptance_is_told_in_the_result(reply: JsonView, result: JsonView)
    ensures
        reply.get("result"@) is None ==> !authenticated_view(reply),
        reply.get("result"@) == Some(result) ==> (authenticated_view(reply) <==> result.get(
            "authenticated"@,
        ) == Some(JsonView::Bool(true))),
{
}

/// A message with the request's id is its reply: it fails with the error that it brings, or else gives
/// its result, which is an object with no field where it brings none. A message with another id, or
/// with none, means nothing to the request.
pub proof fn replies_bring_their_result(id: i64, message: JsonView, result: JsonView)
    ensures
        message.int_at("id"@) != Some(id) ==> rpc_step_view(id, message) == RpcStepView::Wait,
        message.int_at("id"@) == Some(id) ==> {
            &&& error_in(message) matches Some(error) ==> rpc_step_view(id, message)
                == RpcStepView::Failed(error)
            &&& error_in(message) is None && message.get("result"@) == Some(result) ==> rpc_step_view(
                id,
                message,
            ) == RpcStepView::Done(result)
            &&& error_in(message) is None && message.get("result"@) is None ==> rpc_step_view(id, message)
                == RpcStepView::Done(JsonView::Object(Map::empty()))
        },
{
}

/// The result of a reply is the field of that name, or an object with no field.
pub proof fn results_are_taken_whole(reply: JsonView, result: JsonView)
    ensures
        reply.get("result"@) == Some(result) ==> result_of(reply) == result,
        reply.get("result"@) is None ==> result_of(reply) == JsonView::Object(Map::empty()),
{
}

/// The relay is told the target, and the secret where there is one, and nothing else.
pub proof fn connect_messages_name_the_target(
    target: Seq<char>,
    token: Option<Seq<char>>,
    other: Seq<char>,
)
    ensures
        ({
            let message = connect_view(target, token);
            &&& message.text_at("type"@) == Some("connect"@)
            &&& message.text_at("target"@) == Some(target)
            &&& token is Some ==> message.text_at("token"@) == token
            &&& token is None ==> message.get("token"@) is None
            &&& other != "type"@ && other != "target"@ && other != "token"@ ==> message.get(other) is None
        }),
{
    reveal_strlit("type");
    reveal_strlit("target");
    reveal_strlit("token");
    assert("type"@.len() == 4);
    assert("target"@.len() == 6);
    assert("token"@.len() == 5);
}

/// The relay has connected where its reply has the type `connected`. A reply of the type `error` is
/// told in its own words, or as an unknown error, and any other with the type that it has.
pub proof fn relay_replies_are_told_by_their_type(reply: JsonView, words: Seq<char>)
    ensures
        reply.text_at("type"@) == Some("connected"@) <==> relay_outcome(reply) is Ok,
        reply.text_at("type"@) == Some("error"@) && reply.text_at("message"@) == Some(words) ==> (
        relay_outcome(reply) matches Err(e) && relay_error_text(e) == "Relay error: "@ + words),
        reply.text_at("type"@) == Some("error"@) && reply.text_at("message"@) is None ==> (relay_outcome(
            reply,
        ) matches Err(e) && relay_error_text(e) == "Relay error: Unknown relay error"@),
        reply.text_at("type"@) != Some("connected"@) && reply.text_at("type"@) != Some("error"@) ==> (
        relay_outcome(reply) matches Err(e) && relay_error_text(e) == "Unexpected relay response: "@
            + text::debug_text(reply.text_at("type"@))),
        reply.text_at("type"@) == Some("error"@) ==> relay_outcome(reply) matches Err(
            RelayErrorView::Refused(_),
        ),
{
    reveal_strlit("connected");
    reveal_strlit("error");
    assert("connected"@.len() == 9 && "error"@.len() == 5);
    reveal_strlit("Relay error: ");
    reveal_strlit("Unknown relay error");
    reveal_strlit("Relay error: Unknown relay error");
    assert("Relay error: Unknown relay error"@ =~= "Relay error: "@ + "Unknown relay error"@);
}

/// A device is bound with the pairing code and its name, access is asked for with the visitor's name and
/// the agent where one is named, and a request is asked about with its id; nothing else goes with them.
pub proof fn admin_params_carry_their_parts(
    a: Seq<char>,
    b: Seq<char>,
    agent: Option<Seq<char>>,
    other: Seq<char>,
)
    ensures
        bind_view(a, b).text_at("pairCode"@) == Some(a),
        bind_view(a, b).text_at("deviceName"@) == Some(b),
        other != "pairCode"@ && other != "deviceName"@ ==> bind_view(a, b).get(other) is None,
        access_view(a, agent).text_at("clientName"@) == Some(a),
        agent is Some ==> access_view(a, agent).text_at("agent"@) == agent,
        agent is None ==> access_view(a, agent).get("agent"@) is None,
        other != "clientName"@ && other != "agent"@ ==> access_view(a, agent).get(other) is None,
        check_view(a).text_at("requestId"@) == Some(a),
        other != "requestId"@ ==> check_view(a).get(other) is None,
{
    reveal_strlit("pairCode");
    reveal_strlit("deviceName");
    assert("pairCode"@.len() == 8);
    assert("deviceName"@.len() == 10);
    reveal_strlit("clientName");
    reveal_strlit("agent");
    assert("clientName"@.len() == 10);
    assert("agent"@.len() == 5);
}

/// An agent is listed with its id and its name, and with its id for its name where it has none. What
/// has no id is not listed.
pub proof fn agents_are_listed_by_id(entry: JsonView, id: Seq<char>, name: Seq<char>)
    ensures
        entry.text_at("id"@) is None ==> agent_view(entry) is None,
        entry.text_at("id"@) == Some(id) && entry.text_at("name"@) == Some(name) ==> agent_view(entry)
            == Some((id, name)),
        entry.text_at("id"@) == Some(id) && entry.text_at("name"@) is None ==> agent_view(entry) == Some(
            (id, id),
        ),
{
}

/// One more entry at the end of the list adds its agent at the end, where it is one, and changes nothing
/// before it. No entries list no agents, nor does anything that is no list.
pub proof fn lists_grow_entry_by_entry(
    result: JsonView,
    longer: JsonView,
    entries: Seq<JsonView>,
    entry: JsonView,
)
    requires
        result.get("agents"@) == Some(JsonView::List(entries)),
        longer.get("agents"@) == Some(JsonView::List(entries.push(entry))),
    ensures
        agents_view(longer) == agents_view(result) + (match agent_view(entry) {
            Some(agent) => seq![agent],
            None => Seq::empty(),
        }),
        entries.len() == 0 ==> agents_view(result).len() == 0,
{
    let all = entries.push(entry);
    assert(all.drop_last() =~= entries);
    assert(agents_view(longer) =~= agents_view(result) + (match agent_view(entry) {
        Some(agent) => seq![agent],
        None => Seq::empty(),
    }));
}

/// A result without a list of agents lists none.
pub proof fn no_list_lists_no_agents(result: JsonView)
    requires
        !(result.get("agents"@) matches Some(JsonView::List(_))),
    ensures
        agents_view(result).len() == 0,
{
}

/// Errors, steps and pairs of texts say what they hold.
pub proof fn replies_say_what_they_hold(
    error: RpcError,
    result: Json,
    words: String,
    kind: Option<String>,
    pairs: Seq<(String, String)>,
    i: int,
)
    ensures
        error@.0 == error.code,
        error@.1 == error.message@,
        opt_error(Some(error)) == Some(error@),
        opt_error(None) is None,
        RpcStep::Wait@ == RpcStepView::Wait,
        RpcStep::Done(result)@ == RpcStepView::Done(result@),
        RpcStep::Failed(error)@ == RpcStepView::Failed(error@),
        RelayError::Refused(words)@ == RelayErrorView::Refused(words@),
        RelayError::Unexpected(kind)@ == RelayErrorView::Unexpected(text::opt_string(kind)),
        pairs_view(pairs).len() == pairs.len(),
        0 <= i < pairs.len() ==> pairs_view(pairs)[i] == (pairs[i].0@, pairs[i].1@),
{
}

}
