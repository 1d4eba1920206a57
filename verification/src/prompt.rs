//! A prompt: the request that carries it, and the stream of messages that answers it.
use vstd::prelude::*;
use vstd::string::*;

use crate::base64;
use crate::codec;
use crate::json;
use crate::json::{Json, JsonView};
use crate::rpc;
use crate::rpc::RpcError;
use crate::text;

verus! {

/// A prompt and what goes with it.
#[derive(Debug, PartialEq, Eq)]
pub struct Prompt {
    pub agent: Option<String>,
    pub message: String,
    /// The working directory of the session.
    pub cwd: Option<String>,
    /// The session to resume.
    pub session_id: Option<String>,
    /// The ticket of a borrowed session.
    pub ticket: Option<Json>,
    /// The materials of a borrowed session.
    pub materials: Vec<Json>,
    pub flow: Option<String>,
    pub borrower: Option<String>,
}

/// What a prompt says.
#[verifier::ext_equal]
pub struct PromptView {
    pub agent: Option<Seq<char>>,
    pub message: Seq<char>,
    pub cwd: Option<Seq<char>>,
    pub session_id: Option<Seq<char>>,
    pub ticket: Option<JsonView>,
    pub materials: Seq<JsonView>,
    pub flow: Option<Seq<char>>,
    pub borrower: Option<Seq<char>>,
}

impl View for Prompt {
    type V = PromptView;

    open spec fn view(&self) -> PromptView {
        PromptView {
            agent: text::opt_string(self.agent),
            message: self.message@,
            cwd: text::opt_string(self.cwd),
            session_id: text::opt_string(self.session_id),
            ticket: match self.ticket {
                Some(t) => Some(t@),
                None => None,
            },
            materials: json::items_view(self.materials@),
            flow: text::opt_string(self.flow),
            borrower: text::opt_string(self.borrower),
        }
    }
}

/// The parameters of a prompt: its message, and of the rest what there is.
pub open spec fn prompt_params(prompt: PromptView) -> Map<Seq<char>, JsonView> {
    let fields = map!["message"@ => JsonView::Text(prompt.message)];
    let fields = json::with_field(fields, "agent"@, json::text_json(prompt.agent));
    let fields = json::with_field(fields, "cwd"@, json::text_json(prompt.cwd));
    let fields = json::with_field(fields, "sessionId"@, json::text_json(prompt.session_id));
    let fields = json::with_field(fields, "sessionTicket"@, prompt.ticket);
    let fields = json::with_field(
        fields,
        "materials"@,
        if prompt.materials.len() > 0 {
            Some(JsonView::List(prompt.materials))
        } else {
            None
        },
    );
    let fields = json::with_field(fields, "activeFlow"@, json::text_json(prompt.flow));
    json::with_field(fields, "borrower"@, json::text_json(prompt.borrower))
}

/// The request that carries a prompt.
pub fn prompt_request(id: i64, prompt: Prompt) -> (message: Json)
    ensures
        message@ == rpc::request_view(
            id,
            "prompt"@,
            JsonView::Object(prompt_params(prompt@)),
        ),
{
    proof {
        json::lemma_items_view(prompt.materials@);
    }
    let mut fields = json::no_fields();
    json::put(&mut fields, "message", Json::Text(prompt.message));
    json::put_text(&mut fields, "agent", prompt.agent);
    json::put_text(&mut fields, "cwd", prompt.cwd);
    json::put_text(&mut fields, "sessionId", prompt.session_id);
    match prompt.ticket {
        Some(ticket) => {
            json::put(&mut fields, "sessionTicket", ticket);
        },
        None => {},
    }
    if prompt.materials.len() > 0 {
        json::put(&mut fields, "materials", Json::List(prompt.materials));
    }
    json::put_text(&mut fields, "activeFlow", prompt.flow);
    json::put_text(&mut fields, "borrower", prompt.borrower);
    rpc::request(id, "prompt", Json::Object(fields))
}

/// A material of a borrowed session: its name, and its bytes as Base64 text.
pub open spec fn material_view(name: Seq<char>, content: Seq<u8>) -> JsonView {
    JsonView::Object(
        map![
            "name"@ => JsonView::Text(name),
            "contentBase64"@ => JsonView::Text(base64::encoded(content)),
        ],
    )
}

/// A material of a borrowed session: its name, and its bytes as Base64 text.
pub fn material(name: &str, content: &[u8]) -> (entry: Json)
    ensures
        entry@ == material_view(name@, content@),
{
    let mut fields = json::no_fields();
    json::put(&mut fields, "name", Json::text(name));
    json::put(&mut fields, "contentBase64", Json::Text(base64::base64_encode(content)));
    Json::Object(fields)
}

/// A character that a session id may hold: an ASCII letter or digit, a hyphen or an underscore.
pub open spec fn session_char(c: char) -> bool {
    'a' <= c <= 'z' || 'A' <= c <= 'Z' || '0' <= c <= '9' || c == '-' || c == '_'
}

/// A text that may be handed back as a session id.
pub open spec fn session_id_view(id: Seq<char>) -> bool {
    id.len() > 0 && forall|i: int| 0 <= i < id.len() ==> session_char(#[trigger] id[i])
}

/// Whether a text may be handed back as a session id: the gateway takes no other.
pub fn valid_session_id(sid: &str) -> (valid: bool)
    ensures
        valid == session_id_view(sid@),
{
    let chars = text::chars_of(sid);
    if chars.len() == 0 {
        return false;
    }
    for i in 0..chars.len()
        invariant
            chars@ == sid@,
            forall|j: int| 0 <= j < i ==> session_char(#[trigger] chars@[j]),
    {
        let c = chars[i];
        if !(('a' <= c && c <= 'z') || ('A' <= c && c <= 'Z') || ('0' <= c && c <= '9') || c == '-'
            || c == '_') {
            assert(!session_char(sid@[i as int]));
            return false;
        }
    }
    true
}

/// The session id in a line of the agent's own output, from what the parser made of it: that of a
/// result, where it may be handed back.
pub open spec fn harvested(parsed: Result<JsonView, Seq<char>>) -> Option<Seq<char>> {
    match parsed {
        Ok(line) => match line.text_at("session_id"@) {
            Some(id) => if line.text_at("type"@) == Some("result"@) && session_id_view(id) {
                Some(id)
            } else {
                None
            },
            None => None,
        },
        Err(_) => None,
    }
}

/// The session id in a line of the agent's own output, from what the parser made of it.
pub fn harvest(parsed: Result<Json, String>) -> (id: Option<String>)
    ensures
        text::opt_string(id) == harvested(codec::outcome(parsed)),
{
    match parsed {
        Ok(line) => match line.text_at("session_id") {
            Some(id) => if text::is_text(line.text_at("type"), "result") && valid_session_id(id) {
                Some(id.to_string())
            } else {
                None
            },
            None => None,
        },
        Err(_) => None,
    }
}

/// A prompt that waits for its answer.
#[derive(Debug, PartialEq, Eq)]
pub struct PromptRun {
    /// The id of the request.
    pub id: i64,
    /// The text that has come so far.
    pub text: String,
    /// The session id that the agent's output gave.
    pub session_id: Option<String>,
}

/// A prompt that waits for its answer.
#[verifier::ext_equal]
pub struct RunView {
    pub id: i64,
    pub text: Seq<char>,
    pub session_id: Option<Seq<char>>,
}

impl View for PromptRun {
    type V = RunView;

    open spec fn view(&self) -> RunView {
        RunView { id: self.id, text: self.text@, session_id: text::opt_string(self.session_id) }
    }
}

/// What a message means to a prompt that waits for its answer.
#[derive(Debug, PartialEq, Eq)]
pub enum PromptStep {
    /// The message brings nothing.
    Wait,
    /// More of the answer's text.
    Show(String),
    /// The end of the answer.
    Done(Json),
    Failed(RpcError),
}

/// What a message means to a prompt that waits for its answer.
#[verifier::ext_equal]
pub enum StepView {
    Wait,
    Show(Seq<char>),
    Done(JsonView),
    Failed((i64, Seq<char>)),
}

impl View for PromptStep {
    type V = StepView;

    open spec fn view(&self) -> StepView {
        match self {
            PromptStep::Wait => StepView::Wait,
            PromptStep::Show(t) => StepView::Show(t@),
            PromptStep::Done(out) => StepView::Done(out@),
            PromptStep::Failed(e) => StepView::Failed(e@),
        }
    }
}

/// The field behind a path of keys.
pub open spec fn at_path(value: JsonView, path: Seq<Seq<char>>) -> Option<JsonView>
    decreases path.len(),
{
    if path.len() == 0 {
        Some(value)
    } else {
        match value.get(path[0]) {
            Some(field) => at_path(field, path.drop_first()),
            None => None,
        }
    }
}

/// The text behind a path of keys.
pub open spec fn text_at_path(value: JsonView, path: Seq<Seq<char>>) -> Option<Seq<char>> {
    match at_path(value, path) {
        Some(field) => field.text(),
        None => None,
    }
}

/// A message ends the answer where its result gives a reason for stopping, or where it has the
/// request's id and is no chunk: a chunk may be tagged with the id of the request that it belongs to.
pub open spec fn is_final_view(id: i64, message: JsonView) -> bool {
    at_path(message, seq!["result"@, "stopReason"@]) is Some || (message.int_at("id"@) == Some(id)
        && message.text_at("method"@) != Some("chunk"@))
}

/// The session id of an answer: the one in the agent's output, or else the gateway's.
pub open spec fn final_session(run: RunView, result: JsonView) -> Option<Seq<char>> {
    match run.session_id {
        Some(id) => Some(id),
        None => result.text_at("sessionId"@),
    }
}

/// An answer: why it ended, its text, its session id, and the ticket and the files where the gateway
/// sends them back.
pub open spec fn answer_view(run: RunView, result: JsonView) -> JsonView {
    let fields = map![
        "stopReason"@ => match result.get("stopReason"@) {
            Some(reason) => reason,
            None => JsonView::Text("endTurn"@),
        },
        "text"@ => JsonView::Text(run.text),
        "sessionId"@ => match final_session(run, result) {
            Some(id) => JsonView::Text(id),
            None => JsonView::Null,
        },
    ];
    let fields = json::with_field(fields, "sessionTicket"@, result.get("sessionTicket"@));
    let fields = json::with_field(fields, "files"@, result.get("files"@));
    JsonView::Object(fields)
}

/// The text that a message adds to the answer of the request with this id.
pub open spec fn added_text(id: i64, message: JsonView) -> Option<Seq<char>> {
    if message.text_at("method"@) == Some("sessionUpdate"@) {
        text_at_path(message, seq!["params"@, "update"@, "content"@, "text"@])
    } else if message.text_at("method"@) == Some("chunk"@) && (message.int_at("id"@) is None
        || message.int_at("id"@) == Some(id)) {
        text_at_path(message, seq!["params"@, "text"@])
    } else {
        None
    }
}

/// The session id after a message that adds a text: the one that was known, or else, in a chunk, the
/// one that the text holds.
pub open spec fn session_after(run: RunView, message: JsonView, added: Seq<char>) -> Option<
    Seq<char>,
> {
    match run.session_id {
        Some(id) => Some(id),
        None => if message.text_at("method"@) == Some("chunk"@) {
            harvested(codec::json_text(added))
        } else {
            None
        },
    }
}

/// What a message means to a prompt that waits for its answer, and how the wait goes on.
pub open spec fn step_view(run: RunView, message: JsonView) -> (RunView, StepView) {
    match rpc::error_in(message) {
        Some(error) => (run, StepView::Failed(error)),
        None => if is_final_view(run.id, message) {
            (run, StepView::Done(answer_view(run, rpc::result_of(message))))
        } else {
            match added_text(run.id, message) {
                Some(added) => (
                    RunView {
                        id: run.id,
                        text: run.text + added,
                        session_id: session_after(run, message, added),
                    },
                    StepView::Show(added),
                ),
                None => (run, StepView::Wait),
            }
        },
    }
}

/// The field behind two keys.
fn field_at2<'a>(value: &'a Json, first: &str, second: &str) -> (field: Option<&'a Json>)
    ensures
        json::opt_json(field) == at_path(value@, seq![first@, second@]),
{
    proof {
        let path = seq![first@, second@];
        reveal_with_fuel(at_path, 3);
        assert(path.drop_first() =~= seq![second@]);
        assert(path.drop_first().drop_first() =~= Seq::empty());
    }
    match value.get(first) {
        Some(field) => field.get(second),
        None => None,
    }
}

/// The text that an update of the session brings.
fn update_text(message: &Json) -> (t: Option<&str>)
    ensures
        text::opt_text(t) == text_at_path(
            message@,
            seq!["params"@, "update"@, "content"@, "text"@],
        ),
{
    proof {
        let path = seq!["params"@, "update"@, "content"@, "text"@];
        reveal_with_fuel(at_path, 5);
        assert(path.drop_first() =~= seq!["update"@, "content"@, "text"@]);
        assert(path.drop_first().drop_first() =~= seq!["content"@, "text"@]);
        assert(path.drop_first().drop_first().drop_first() =~= seq!["text"@]);
        assert(path.drop_first().drop_first().drop_first().drop_first() =~= Seq::empty());
        assert(seq!["content"@, "text"@].drop_first() =~= seq!["text"@]);
        assert(seq!["text"@].drop_first() =~= Seq::empty());
    }
    match field_at2(message, "params", "update") {
        Some(update) => match field_at2(update, "content", "text") {
            Some(t) => t.as_str(),
            None => None,
        },
        None => None,
    }
}

/// The text that a chunk brings.
fn chunk_text(message: &Json) -> (t: Option<&str>)
    ensures
        text::opt_text(t) == text_at_path(message@, seq!["params"@, "text"@]),
{
    match field_at2(message, "params", "text") {
        Some(t) => t.as_str(),
        None => None,
    }
}

/// An answer, from the text and the session id of the run and the gateway's result.
fn answer(run: &PromptRun, result: Json) -> (out: Json)
    ensures
        out@ == answer_view(run@, result@),
{
    proof {
        reveal_strlit("stopReason");
        reveal_strlit("sessionTicket");
        reveal_strlit("files");
        assert("stopReason"@.len() != "sessionTicket"@.len());
        assert("stopReason"@.len() != "files"@.len());
        assert("sessionTicket"@.len() != "files"@.len());
    }
    let mut result = result;
    let session_id = match &run.session_id {
        Some(id) => Some(id.clone()),
        None => text::owned(result.text_at("sessionId")),
    };
    let mut fields = json::no_fields();
    let reason = match result.take("stopReason") {
        Some(reason) => reason,
        None => Json::text("endTurn"),
    };
    json::put(&mut fields, "stopReason", reason);
    json::put(&mut fields, "text", Json::Text(run.text.clone()));
    let session = match session_id {
        Some(id) => Json::Text(id),
        None => Json::Null,
    };
    json::put(&mut fields, "sessionId", session);
    match result.take("sessionTicket") {
        Some(ticket) => {
            json::put(&mut fields, "sessionTicket", ticket);
        },
        None => {},
    }
    match result.take("files") {
        Some(files) => {
            json::put(&mut fields, "files", files);
        },
        None => {},
    }
    Json::Object(fields)
}

impl PromptRun {
    /// A prompt whose request has just been sent.
    pub fn new(id: i64) -> (run: PromptRun)
        ensures
            run@ == (RunView { id, text: Seq::empty(), session_id: None }),
    {
        PromptRun { id, text: String::new(), session_id: None }
    }

    /// Whether a message ends the answer.
    pub fn is_final(&self, message: &Json) -> (last: bool)
        ensures
            last == is_final_view(self.id, message@),
    {
        if field_at2(message, "result", "stopReason").is_some() {
            return true;
        }
        match message.int_at("id") {
            Some(id) => id == self.id && !text::is_text(message.text_at("method"), "chunk"),
            None => false,
        }
    }

    /// Takes in a message that has come while the prompt waits.
    pub fn step(&mut self, message: Json) -> (step: PromptStep)
        ensures
            (final(self)@, step@) == step_view(old(self)@, message@),
    {
        match rpc::reply_error(&message) {
            Some(error) => return PromptStep::Failed(error),
            None => {},
        }
        if self.is_final(&message) {
            return PromptStep::Done(answer(self, rpc::take_result(message)));
        }
        let method = message.text_at("method");
        if text::is_text(method, "sessionUpdate") {
            proof {
                reveal_strlit("sessionUpdate");
                reveal_strlit("chunk");
                assert("sessionUpdate"@.len() != "chunk"@.len());
            }
            match update_text(&message) {
                Some(t) => {
                    self.text.append(t);
                    PromptStep::Show(t.to_string())
                },
                None => PromptStep::Wait,
            }
        } else if text::is_text(method, "chunk") {
            let ours = match message.int_at("id") {
                Some(id) => id == self.id,
                None => true,
            };
            if !ours {
                return PromptStep::Wait;
            }
            match chunk_text(&message) {
                Some(t) => {
                    if self.session_id.is_none() {
                        self.session_id = harvest(codec::parse(t));
                    }
                    self.text.append(t);
                    PromptStep::Show(t.to_string())
                },
                None => PromptStep::Wait,
            }
        } else {
            PromptStep::Wait
        }
    }
}

/// The parameters of a prompt have names of their own.
proof fn lemma_param_names()
    ensures
        "message"@ != "agent"@,
        "message"@ != "cwd"@,
        "message"@ != "sessionId"@,
        "message"@ != "sessionTicket"@,
        "message"@ != "materials"@,
        "message"@ != "activeFlow"@,
        "message"@ != "borrower"@,
        "agent"@ != "cwd"@,
        "agent"@ != "sessionId"@,
        "agent"@ != "sessionTicket"@,
        "agent"@ != "materials"@,
        "agent"@ != "activeFlow"@,
        "agent"@ != "borrower"@,
        "cwd"@ != "sessionId"@,
        "cwd"@ != "sessionTicket"@,
        "cwd"@ != "materials"@,
        "cwd"@ != "activeFlow"@,
        "cwd"@ != "borrower"@,
        "sessionId"@ != "sessionTicket"@,
        "sessionId"@ != "materials"@,
        "sessionId"@ != "activeFlow"@,
        "sessionId"@ != "borrower"@,
        "sessionTicket"@ != "materials"@,
        "sessionTicket"@ != "activeFlow"@,
        "sessionTicket"@ != "borrower"@,
        "materials"@ != "activeFlow"@,
        "materials"@ != "borrower"@,
        "activeFlow"@ != "borrower"@,
{
    reveal_strlit("message");
    reveal_strlit("agent");
    reveal_strlit("cwd");
    reveal_strlit("sessionId");
    reveal_strlit("sessionTicket");
    reveal_strlit("materials");
    reveal_strlit("activeFlow");
    reveal_strlit("borrower");
    assert("message"@.len() == 7 && "agent"@.len() == 5 && "cwd"@.len() == 3);
    assert("sessionId"@.len() == 9 && "sessionTicket"@.len() == 13 && "materials"@.len() == 9);
    assert("activeFlow"@.len() == 10 && "borrower"@.len() == 8);
    assert("sessionId"@[0] == 's' && "materials"@[0] == 'm');
}

/// Each parameter of a prompt goes under its own name, and is there only where the prompt has it. So a
/// prompt of a borrowed session names its ticket, its materials, its flow and its borrower, and any
/// other prompt names none of them.
pub proof fn params_are_what_the_prompt_has(prompt: PromptView)
    ensures
        ({
            let params = JsonView::Object(prompt_params(prompt));
            &&& params.get("message"@) == Some(JsonView::Text(prompt.message))
            &&& params.get("agent"@) == json::text_json(prompt.agent)
            &&& params.get("cwd"@) == json::text_json(prompt.cwd)
            &&& params.get("sessionId"@) == json::text_json(prompt.session_id)
            &&& params.get("sessionTicket"@) == prompt.ticket
            &&& params.get("materials"@) == (if prompt.materials.len() > 0 {
                Some(JsonView::List(prompt.materials))
            } else {
                None
            })
            &&& params.get("activeFlow"@) == json::text_json(prompt.flow)
            &&& params.get("borrower"@) == json::text_json(prompt.borrower)
        }),
{
    lemma_param_names();
}

/// A material carries its name, and its bytes are read back from the text that it carries.
pub proof fn material_carries_its_bytes(name: Seq<char>, content: Seq<u8>)
    ensures
        material_view(name, content).text_at("name"@) == Some(name),
        material_view(name, content).text_at("contentBase64"@) matches Some(t) && base64::decoded(
            vstd::utf8::encode_utf8(t),
        ) == Ok::<Seq<u8>, base64::DecodeError>(content),
{
    reveal_strlit("name");
    reveal_strlit("contentBase64");
    assert("name"@.len() != "contentBase64"@.len());
    base64::decoding_undoes_encoding(content);
}

/// A result that gives a reason for stopping ends the answer, though it has no id.
pub proof fn reason_for_stopping_is_final(id: i64, message: JsonView)
    requires
        message.get("result"@) matches Some(result) && result.get("stopReason"@) is Some,
    ensures
        is_final_view(id, message),
{
    let path = seq!["result"@, "stopReason"@];
    reveal_with_fuel(at_path, 3);
    assert(path.drop_first() =~= seq!["stopReason"@]);
    assert(path.drop_first().drop_first() =~= Seq::empty());
}

/// A chunk that is tagged with the request's own id adds its text to the answer and is shown, as one
/// that has no id is, unless it brings an error or a reason for stopping.
pub proof fn chunk_of_this_request_adds_its_text(run: RunView, message: JsonView, added: Seq<char>)
    requires
        message.text_at("method"@) == Some("chunk"@),
        message.int_at("id"@) == Some(run.id) || message.int_at("id"@) is None,
        text_at_path(message, seq!["params"@, "text"@]) == Some(added),
        rpc::error_in(message) is None,
        at_path(message, seq!["result"@, "stopReason"@]) is None,
    ensures
        step_view(run, message).0.text == run.text + added,
        step_view(run, message).1 == StepView::Show(added),
{
    reveal_strlit("sessionUpdate");
    reveal_strlit("chunk");
    assert("sessionUpdate"@.len() != "chunk"@.len());
}

/// While a prompt waits, its text grows by what is shown and by nothing else, and a session id that was
/// found in the agent's output stays.
pub proof fn text_is_what_was_shown(run: RunView, message: JsonView)
    ensures
        ({
            let (after, step) = step_view(run, message);
            &&& after.id == run.id
            &&& after.text == (match step {
                StepView::Show(t) => run.text + t,
                _ => run.text,
            })
            &&& run.session_id is Some ==> after.session_id == run.session_id
            &&& !(step is Show) ==> after == run
        }),
{
}

/// A session id that was found in the agent's output is one that the gateway takes.
pub open spec fn sound(run: RunView) -> bool {
    run.session_id matches Some(id) ==> session_id_view(id)
}

/// The run after some messages.
pub open spec fn run_after(run: RunView, messages: Seq<JsonView>) -> RunView
    decreases messages.len(),
{
    if messages.len() == 0 {
        run
    } else {
        step_view(run_after(run, messages.drop_last()), messages.last()).0
    }
}

/// All that some messages show.
pub open spec fn shown_by(run: RunView, messages: Seq<JsonView>) -> Seq<char>
    decreases messages.len(),
{
    if messages.len() == 0 {
        Seq::empty()
    } else {
        let before = messages.drop_last();
        shown_by(run, before) + (match step_view(run_after(run, before), messages.last()).1 {
            StepView::Show(t) => t,
            _ => Seq::empty(),
        })
    }
}

/// Whatever messages come, the text of a run is all that was shown, in its order, and a session id that
/// it has found is one that the gateway takes.
pub proof fn run_collects_what_was_shown(run: RunView, messages: Seq<JsonView>)
    ensures
        run_after(run, messages).id == run.id,
        run_after(run, messages).text == run.text + shown_by(run, messages),
        sound(run) ==> sound(run_after(run, messages)),
    decreases messages.len(),
{
    if messages.len() == 0 {
        assert(run.text + Seq::<char>::empty() =~= run.text);
    } else {
        let before = messages.drop_last();
        run_collects_what_was_shown(run, before);
        text_is_what_was_shown(run_after(run, before), messages.last());
        assert(run_after(run, messages).text =~= run.text + shown_by(run, messages));
    }
}

/// A run whose id was found in the agent's output answers with it, whatever the gateway says.
pub proof fn found_session_id_wins(run: RunView, result: JsonView)
    ensures
        answer_view(run, result).text_at("sessionId"@) == final_session(run, result),
        run.session_id is Some ==> answer_view(run, result).text_at("sessionId"@) == run.session_id,
{
    reveal_strlit("sessionId");
    reveal_strlit("sessionTicket");
    reveal_strlit("files");
    reveal_strlit("text");
    reveal_strlit("stopReason");
    assert("sessionId"@.len() == 9 && "sessionTicket"@.len() == 13 && "files"@.len() == 5);
    assert("text"@.len() == 4 && "stopReason"@.len() == 10);
}

/// The characters of a session id, one by one.
proof fn lemma_session_char(v: int)
    requires
        0 <= v < 64,
    ensures
        "ABCDEFGHIJKLMNOPQRSTUVWXYZabcdefghijklmnopqrstuvwxyz0123456789-_"@.len() == 64,
        session_char("ABCDEFGHIJKLMNOPQRSTUVWXYZabcdefghijklmnopqrstuvwxyz0123456789-_"@[v]),
        v < 26 ==> "ABCDEFGHIJKLMNOPQRSTUVWXYZabcdefghijklmnopqrstuvwxyz0123456789-_"@[v] as int == 65 + v,
        26 <= v < 52 ==> "ABCDEFGHIJKLMNOPQRSTUVWXYZabcdefghijklmnopqrstuvwxyz0123456789-_"@[v] as int == 71 + v,
        52 <= v < 62 ==> "ABCDEFGHIJKLMNOPQRSTUVWXYZabcdefghijklmnopqrstuvwxyz0123456789-_"@[v] as int == v - 4,
        v == 62 ==> "ABCDEFGHIJKLMNOPQRSTUVWXYZabcdefghijklmnopqrstuvwxyz0123456789-_"@[v] == '-',
        v == 63 ==> "ABCDEFGHIJKLMNOPQRSTUVWXYZabcdefghijklmnopqrstuvwxyz0123456789-_"@[v] == '_',
{
    reveal_strlit("ABCDEFGHIJKLMNOPQRSTUVWXYZabcdefghijklmnopqrstuvwxyz0123456789-_");
    let s = "ABCDEFGHIJKLMNOPQRSTUVWXYZabcdefghijklmnopqrstuvwxyz0123456789-_"@;
    if v == 0 {
        assert(s[0] == 'A');
    } else if v == 1 {
        assert(s[1] == 'B');
    } else if v == 2 {
        assert(s[2] == 'C');
    } else if v == 3 {
        assert(s[3] == 'D');
    } else if v == 4 {
        assert(s[4] == 'E');
    } else if v == 5 {
        assert(s[5] == 'F');
    } else if v == 6 {
        assert(s[6] == 'G');
    } else if v == 7 {
        assert(s[7] == 'H');
    } else if v == 8 {
        assert(s[8] == 'I');
    } else if v == 9 {
        assert(s[9] == 'J');
    } else if v == 10 {
        assert(s[10] == 'K');
    } else if v == 11 {
        assert(s[11] == 'L');
    } else if v == 12 {
        assert(s[12] == 'M');
    } else if v == 13 {
        assert(s[13] == 'N');
    } else if v == 14 {
        assert(s[14] == 'O');
    } else if v == 15 {
        assert(s[15] == 'P');
    } else if v == 16 {
        assert(s[16] == 'Q');
    } else if v == 17 {
        assert(s[17] == 'R');
    } else if v == 18 {
        assert(s[18] == 'S');
    } else if v == 19 {
        assert(s[19] == 'T');
    } else if v == 20 {
        assert(s[20] == 'U');
    } else if v == 21 {
        assert(s[21] == 'V');
    } else if v == 22 {
        assert(s[22] == 'W');
    } else if v == 23 {
        assert(s[23] == 'X');
    } else if v == 24 {
        assert(s[24] == 'Y');
    } else if v == 25 {
        assert(s[25] == 'Z');
    } else if v == 26 {
        assert(s[26] == 'a');
    } else if v == 27 {
        assert(s[27] == 'b');
    } else if v == 28 {
        assert(s[28] == 'c');
    } else if v == 29 {
        assert(s[29] == 'd');
    } else if v == 30 {
        assert(s[30] == 'e');
    } else if v == 31 {
        assert(s[31] == 'f');
    } else if v == 32 {
        assert(s[32] == 'g');
    } else if v == 33 {
        assert(s[33] == 'h');
    } else if v == 34 {
        assert(s[34] == 'i');
    } else if v == 35 {
        assert(s[35] == 'j');
    } else if v == 36 {
        assert(s[36] == 'k');
    } else if v == 37 {
        assert(s[37] == 'l');
    } else if v == 38 {
        assert(s[38] == 'm');
    } else if v == 39 {
        assert(s[39] == 'n');
    } else if v == 40 {
        assert(s[40] == 'o');
    } else if v == 41 {
        assert(s[41] == 'p');
    } else if v == 42 {
        assert(s[42] == 'q');
    } else if v == 43 {
        assert(s[43] == 'r');
    } else if v == 44 {
        assert(s[44] == 's');
    } else if v == 45 {
        assert(s[45] == 't');
    } else if v == 46 {
        assert(s[46] == 'u');
    } else if v == 47 {
        assert(s[47] == 'v');
    } else if v == 48 {
        assert(s[48] == 'w');
    } else if v == 49 {
        assert(s[49] == 'x');
    } else if v == 50 {
        assert(s[50] == 'y');
    } else if v == 51 {
        assert(s[51] == 'z');
    } else if v == 52 {
        assert(s[52] == '0');
    } else if v == 53 {
        assert(s[53] == '1');
    } else if v == 54 {
        assert(s[54] == '2');
    } else if v == 55 {
        assert(s[55] == '3');
    } else if v == 56 {
        assert(s[56] == '4');
    } else if v == 57 {
        assert(s[57] == '5');
    } else if v == 58 {
        assert(s[58] == '6');
    } else if v == 59 {
        assert(s[59] == '7');
    } else if v == 60 {
        assert(s[60] == '8');
    } else if v == 61 {
        assert(s[61] == '9');
    } else if v == 62 {
        assert(s[62] == '-');
    } else if v == 63 {
        assert(s[63] == '_');
    }
}

/// A session id is made of ASCII letters, digits, hyphens and underscores, and of at least one of them.
pub proof fn session_ids_are_made_of_safe_characters(id: Seq<char>)
    ensures
        session_id_view(id) <==> id.len() > 0 && forall|i: int|
            0 <= i < id.len() ==> "ABCDEFGHIJKLMNOPQRSTUVWXYZabcdefghijklmnopqrstuvwxyz0123456789-_"@.contains(#[trigger] id[i]),
{
    lemma_session_char(0);
    let safe = "ABCDEFGHIJKLMNOPQRSTUVWXYZabcdefghijklmnopqrstuvwxyz0123456789-_"@;
    assert forall|c: char| #[trigger] safe.contains(c) <==> session_char(c) by {
        if session_char(c) {
            let v = if 'A' <= c <= 'Z' {
                c as int - 65
            } else if 'a' <= c <= 'z' {
                c as int - 71
            } else if '0' <= c <= '9' {
                c as int + 4
            } else if c == '-' {
                62
            } else {
                63
            };
            lemma_session_char(v);
            assert(safe[v] == c);
        }
        if safe.contains(c) {
            let v = choose|v: int| 0 <= v < safe.len() && safe[v] == c;
            lemma_session_char(v);
        }
    }
}

/// A session id is found in a line of the type `result` that names one which the gateway takes, and
/// nowhere else.
pub proof fn session_ids_are_found_in_results(line: JsonView, id: Seq<char>, words: Seq<char>)
    ensures
        line.text_at("type"@) == Some("result"@) && line.text_at("session_id"@) == Some(id)
            && session_id_view(id) ==> harvested(Ok(line)) == Some(id),
        line.text_at("type"@) != Some("result"@) ==> harvested(Ok(line)) is None,
        line.text_at("session_id"@) is None ==> harvested(Ok(line)) is None,
        line.text_at("session_id"@) == Some(id) && !session_id_view(id) ==> harvested(Ok(line)) is None,
        harvested(Err(words)) is None,
{
}

/// A session update without an error that does not end the answer shows its text, and the text of the
/// run goes on with it, whatever has come already. It changes nothing else.
pub proof fn updates_add_their_text(
    run: RunView,
    message: JsonView,
    params: JsonView,
    update: JsonView,
    content: JsonView,
    t: Seq<char>,
)
    requires
        message.get("error"@) is None || message.get("error"@) == Some(JsonView::Null),
        message.int_at("id"@) != Some(run.id),
        message.get("result"@) matches Some(result) ==> result.get("stopReason"@) is None,
        message.text_at("method"@) == Some("sessionUpdate"@),
        message.get("params"@) == Some(params),
        params.get("update"@) == Some(update),
        update.get("content"@) == Some(content),
        content.text_at("text"@) == Some(t),
    ensures
        step_view(run, message).1 == StepView::Show(t),
        step_view(run, message).0.text == run.text + t,
        step_view(run, message).0.id == run.id,
        step_view(run, message).0.session_id == run.session_id,
{
    lemma_not_stopped(message);
    reveal_strlit("sessionUpdate");
    reveal_strlit("chunk");
    assert("sessionUpdate"@.len() != "chunk"@.len());
    let path = seq!["params"@, "update"@, "content"@, "text"@];
    reveal_with_fuel(at_path, 5);
    assert(path.drop_first() =~= seq!["update"@, "content"@, "text"@]);
    assert(path.drop_first().drop_first() =~= seq!["content"@, "text"@]);
    assert(path.drop_first().drop_first().drop_first() =~= seq!["text"@]);
    assert(path.drop_first().drop_first().drop_first().drop_first() =~= Seq::empty());
}

/// The path to the reason for stopping.
proof fn lemma_not_stopped(message: JsonView)
    ensures
        at_path(message, seq!["result"@, "stopReason"@]) == (match message.get("result"@) {
            Some(result) => result.get("stopReason"@),
            None => None,
        }),
{
    let path = seq!["result"@, "stopReason"@];
    reveal_with_fuel(at_path, 3);
    assert(path.drop_first() =~= seq!["stopReason"@]);
    assert(path.drop_first().drop_first() =~= Seq::empty());
}

/// The path to the text of a chunk.
proof fn lemma_chunk_text(message: JsonView)
    ensures
        text_at_path(message, seq!["params"@, "text"@]) == (match message.get("params"@) {
            Some(params) => params.text_at("text"@),
            None => None,
        }),
{
    let path = seq!["params"@, "text"@];
    reveal_with_fuel(at_path, 3);
    assert(path.drop_first() =~= seq!["text"@]);
    assert(path.drop_first().drop_first() =~= Seq::empty());
}

/// A chunk without an error that does not end the answer, and that has no id or the request's own, shows
/// its text, and the text of the run goes on with it, whatever has come already. A session id that was
/// found stays; where none was found, the one that the parser finds in the text counts.
pub proof fn chunks_add_their_text(run: RunView, message: JsonView, params: JsonView, t: Seq<char>)
    requires
        message.get("error"@) is None || message.get("error"@) == Some(JsonView::Null),
        message.get("result"@) matches Some(result) ==> result.get("stopReason"@) is None,
        message.text_at("method"@) == Some("chunk"@),
        message.int_at("id"@) is None || message.int_at("id"@) == Some(run.id),
        message.get("params"@) == Some(params),
        params.text_at("text"@) == Some(t),
    ensures
        step_view(run, message).1 == StepView::Show(t),
        step_view(run, message).0.text == run.text + t,
        step_view(run, message).0.id == run.id,
        run.session_id is Some ==> step_view(run, message).0.session_id == run.session_id,
        run.session_id is None ==> step_view(run, message).0.session_id == harvested(
            codec::json_text(t),
        ),
{
    lemma_not_stopped(message);
    lemma_chunk_text(message);
    reveal_strlit("sessionUpdate");
    reveal_strlit("chunk");
    assert("sessionUpdate"@.len() != "chunk"@.len());
}

/// A message without an error that does not end the answer changes nothing and shows nothing where it is
/// a chunk of another request, a chunk without a text, or neither an update nor a chunk.
pub proof fn other_messages_are_passed_over(run: RunView, message: JsonView)
    requires
        message.get("error"@) is None || message.get("error"@) == Some(JsonView::Null),
        message.get("result"@) matches Some(result) ==> result.get("stopReason"@) is None,
        message.int_at("id"@) != Some(run.id) || message.text_at("method"@) == Some("chunk"@),
        ({
            ||| message.text_at("method"@) != Some("chunk"@) && message.text_at("method"@) != Some(
                "sessionUpdate"@,
            )
            ||| message.text_at("method"@) == Some("chunk"@) && message.int_at("id"@) is Some
                && message.int_at("id"@) != Some(run.id)
            ||| message.text_at("method"@) == Some("chunk"@) && (message.get("params"@) matches Some(
                params,
            ) ==> params.text_at("text"@) is None)
        }),
    ensures
        step_view(run, message) == (run, StepView::Wait),
{
    lemma_not_stopped(message);
    lemma_chunk_text(message);
    reveal_strlit("sessionUpdate");
    reveal_strlit("chunk");
    assert("sessionUpdate"@.len() != "chunk"@.len());
}

/// An update that has no text at its place changes nothing and shows nothing.
pub proof fn updates_without_text_are_passed_over(run: RunView, message: JsonView)
    requires
        message.get("error"@) is None || message.get("error"@) == Some(JsonView::Null),
        message.get("result"@) matches Some(result) ==> result.get("stopReason"@) is None,
        message.int_at("id"@) != Some(run.id),
        message.text_at("method"@) == Some("sessionUpdate"@),
        !(message.get("params"@) matches Some(params) && params.get("update"@) matches Some(update)
            && update.get("content"@) matches Some(content) && content.text_at("text"@) is Some),
    ensures
        step_view(run, message) == (run, StepView::Wait),
{
    lemma_not_stopped(message);
    let path = seq!["params"@, "update"@, "content"@, "text"@];
    reveal_with_fuel(at_path, 5);
    assert(path.drop_first() =~= seq!["update"@, "content"@, "text"@]);
    assert(path.drop_first().drop_first() =~= seq!["content"@, "text"@]);
    assert(path.drop_first().drop_first().drop_first() =~= seq!["text"@]);
    assert(path.drop_first().drop_first().drop_first().drop_first() =~= Seq::empty());
}

/// A message with an error fails the prompt, whatever else it brings, with the code and the words of the
/// error.
pub proof fn errors_fail_the_prompt(run: RunView, message: JsonView, error: JsonView)
    requires
        message.get("error"@) == Some(error),
        error != JsonView::Null,
    ensures
        step_view(run, message).0 == run,
        step_view(run, message).1 matches StepView::Failed(e) && {
            &&& error.int_at("code"@) matches Some(code) ==> e.0 == code
            &&& error.int_at("code"@) is None ==> e.0 == 0
            &&& error.text_at("message"@) matches Some(words) ==> e.1 == words
            &&& error.text_at("message"@) is None ==> e.1 == "Unknown error"@
        },
{
}

/// The answer ends with a message without an error whose result gives a reason for stopping, or that has
/// the request's id and is no chunk: then it has the run's text, the reason for stopping, the ticket and
/// the files of the result, each where the result has it.
pub proof fn last_messages_end_the_answer(run: RunView, message: JsonView, result: JsonView)
    requires
        message.get("error"@) is None || message.get("error"@) == Some(JsonView::Null),
        message.get("result"@) == Some(result),
        result.get("stopReason"@) is Some || (message.int_at("id"@) == Some(run.id) && message.text_at(
            "method"@,
        ) != Some("chunk"@)),
    ensures
        step_view(run, message).0 == run,
        step_view(run, message).1 matches StepView::Done(out) && {
            &&& out.text_at("text"@) == Some(run.text)
            &&& out.get("sessionTicket"@) == result.get("sessionTicket"@)
            &&& out.get("files"@) == result.get("files"@)
            &&& result.get("stopReason"@) is Some ==> out.get("stopReason"@) == result.get("stopReason"@)
            &&& result.get("stopReason"@) is None ==> out.text_at("stopReason"@) == Some("endTurn"@)
            &&& run.session_id is Some ==> out.text_at("sessionId"@) == run.session_id
            &&& run.session_id is None ==> out.text_at("sessionId"@) == result.text_at("sessionId"@)
        },
{
    lemma_not_stopped(message);
    answers_bring_back_the_result(run, result, "text"@);
}

/// A reply with the request's id that has no result ends the answer too, with the run's text.
pub proof fn bare_replies_end_the_answer(run: RunView, message: JsonView)
    requires
        message.get("error"@) is None || message.get("error"@) == Some(JsonView::Null),
        message.get("result"@) is None,
        message.int_at("id"@) == Some(run.id),
        message.text_at("method"@) != Some("chunk"@),
    ensures
        step_view(run, message).0 == run,
        step_view(run, message).1 matches StepView::Done(out) && {
            &&& out.text_at("text"@) == Some(run.text)
            &&& out.get("sessionTicket"@) is None
            &&& out.get("files"@) is None
            &&& out.text_at("stopReason"@) == Some("endTurn"@)
            &&& out.text_at("sessionId"@) == run.session_id
        },
{
    lemma_not_stopped(message);
    answers_bring_back_the_result(run, JsonView::Object(Map::empty()), "text"@);
}

/// An answer has the ticket and the files of the result exactly where the result has them, the text of
/// the run, the reason for stopping of the result or else `endTurn`, and the session id of the run, or
/// else of the result, or else `null`. It has nothing else.
pub proof fn answers_bring_back_the_result(run: RunView, result: JsonView, other: Seq<char>)
    ensures
        ({
            let out = answer_view(run, result);
            &&& out.get("sessionTicket"@) == result.get("sessionTicket"@)
            &&& out.get("files"@) == result.get("files"@)
            &&& out.get("text"@) == Some(JsonView::Text(run.text))
            &&& result.get("stopReason"@) is Some ==> out.get("stopReason"@) == result.get("stopReason"@)
            &&& result.get("stopReason"@) is None ==> out.get("stopReason"@) == Some(
                JsonView::Text("endTurn"@),
            )
            &&& run.session_id matches Some(id) ==> out.get("sessionId"@) == Some(JsonView::Text(id))
            &&& run.session_id is None ==> (match result.text_at("sessionId"@) {
                Some(id) => out.get("sessionId"@) == Some(JsonView::Text(id)),
                None => out.get("sessionId"@) == Some(JsonView::Null),
            })
            &&& other != "sessionTicket"@ && other != "files"@ && other != "text"@ && other
                != "stopReason"@ && other != "sessionId"@ ==> out.get(other) is None
        }),
{
    reveal_strlit("sessionTicket");
    reveal_strlit("files");
    reveal_strlit("text");
    reveal_strlit("stopReason");
    reveal_strlit("sessionId");
    assert("sessionTicket"@.len() == 13);
    assert("files"@.len() == 5);
    assert("text"@.len() == 4);
    assert("stopReason"@.len() == 10);
    assert("sessionId"@.len() == 9);
}

/// A material is its name and its Base64 text, and nothing else.
pub proof fn materials_are_name_and_content(name: Seq<char>, content: Seq<u8>, other: Seq<char>)
    ensures
        material_view(name, content).text_at("name"@) == Some(name),
        material_view(name, content).text_at("contentBase64"@) == Some(base64::encoded(content)),
        other != "name"@ && other != "contentBase64"@ ==> material_view(name, content).get(other) is None,
{
    reveal_strlit("name");
    reveal_strlit("contentBase64");
    assert("name"@.len() != "contentBase64"@.len());
}

/// The parameters of a prompt are the eight that have names, and no others.
pub proof fn params_have_no_other_names(prompt: PromptView, other: Seq<char>)
    requires
        other != "message"@ && other != "agent"@ && other != "cwd"@ && other != "sessionId"@,
        other != "sessionTicket"@ && other != "materials"@ && other != "activeFlow"@ && other
            != "borrower"@,
    ensures
        !prompt_params(prompt).contains_key(other),
{
}

/// A prompt, a run and a step say what they hold.
pub proof fn prompts_say_what_they_hold(p: Prompt, run: PromptRun, t: String, out: Json, e: RpcError, i: int)
    ensures
        p@.agent == text::opt_string(p.agent),
        p@.message == p.message@,
        p@.cwd == text::opt_string(p.cwd),
        p@.session_id == text::opt_string(p.session_id),
        p@.ticket is Some <==> p.ticket is Some,
        p.ticket matches Some(ticket) ==> p@.ticket == Some(ticket@),
        p@.materials.len() == p.materials@.len(),
        0 <= i < p.materials@.len() ==> p@.materials[i] == p.materials@[i]@,
        p@.flow == text::opt_string(p.flow),
        p@.borrower == text::opt_string(p.borrower),
        run@.id == run.id,
        run@.text == run.text@,
        run@.session_id == text::opt_string(run.session_id),
        PromptStep::Wait@ == StepView::Wait,
        PromptStep::Show(t)@ == StepView::Show(t@),
        PromptStep::Done(out)@ == StepView::Done(out@),
        PromptStep::Failed(e)@ == StepView::Failed((e.code, e.message@)),
{
    json::lemma_items_view(p.materials@);
}

}
