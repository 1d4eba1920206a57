//! One run of the client: what its command line asks for, and what becomes of the answer.
use vstd::prelude::*;
use vstd::string::*;

use crate::base64;
use crate::base64::DecodeError;
use crate::codec;
use crate::consent;
use crate::json;
use crate::json::{Json, JsonView};
use crate::keyring::{IdentityView, StoredIdentity};
use crate::rpc;
use crate::text;

verus! {

/// The words of a command line without an `ask` in front of the URL.
pub open spec fn without_ask(argv: Seq<String>) -> Seq<String> {
    if argv.len() > 1 && argv[1]@ == "ask"@ {
        argv.remove(1)
    } else {
        argv
    }
}

/// The words of a command line without an `ask` in front of the URL: `agc ask <url>` is `agc <url>`.
pub fn strip_ask(argv: Vec<String>) -> (rest: Vec<String>)
    ensures
        rest@ == without_ask(argv@),
{
    let mut rest = argv;
    if rest.len() > 1 && text::same_text(rest[1].as_str(), "ask") {
        rest.remove(1);
    }
    rest
}

/// A text that counts only where it is not empty.
pub open spec fn filled(t: Option<Seq<char>>) -> Option<Seq<char>> {
    match t {
        Some(s) => if s.len() > 0 {
            Some(s)
        } else {
            None
        },
        None => None,
    }
}

/// A copy of a text that counts only where it is not empty.
fn owned_if_filled(t: Option<&str>) -> (copy: Option<String>)
    ensures
        text::opt_string(copy) == filled(text::opt_text(t)),
{
    match t {
        Some(s) => if s.is_empty() {
            None
        } else {
            Some(s.to_string())
        },
        None => None,
    }
}

/// The first of two texts that is there.
pub open spec fn either(first: Option<Seq<char>>, second: Option<Seq<char>>) -> Option<Seq<char>> {
    match first {
        Some(_) => first,
        None => second,
    }
}

/// The relay's secret: that of the environment, where it is not empty, or else that of the command
/// line, or else the one that was there.
pub fn relay_secret(
    env: Option<&str>,
    flag: Option<&str>,
    current: Option<String>,
) -> (secret: Option<String>)
    ensures
        text::opt_string(secret) == either(
            filled(text::opt_text(env)),
            either(text::opt_text(flag), text::opt_string(current)),
        ),
{
    match owned_if_filled(env) {
        Some(secret) => Some(secret),
        None => match flag {
            Some(secret) => Some(secret.to_string()),
            None => current,
        },
    }
}

/// The token that a run is given: what its file holds, without the white space around it; or else the
/// environment's, which counts as none where it is empty; or else that of the command line.
pub open spec fn explicit_token_view(
    file: Option<Seq<char>>,
    env: Option<Seq<char>>,
    flag: Option<Seq<char>>,
) -> Option<Seq<char>> {
    match file {
        Some(content) => Some(text::trimmed(content)),
        None => match env {
            Some(_) => filled(env),
            None => flag,
        },
    }
}

/// The token that a run is given.
pub fn explicit_token(file: Option<&str>, env: Option<&str>, flag: Option<&str>) -> (token: Option<
    String,
>)
    ensures
        text::opt_string(token) == explicit_token_view(
            text::opt_text(file),
            text::opt_text(env),
            text::opt_text(flag),
        ),
{
    match file {
        Some(content) => Some(text::trim(content)),
        None => match env {
            Some(_) => owned_if_filled(env),
            None => text::owned(flag),
        },
    }
}

/// What a run does.
#[derive(Clone, Copy, Debug, PartialEq, Eq, Structural)]
pub enum Mode {
    /// Forgets the gateway's identity.
    Logout,
    /// Nothing: it was asked both to bind a device and to ask for access.
    Conflict,
    /// Binds a device.
    Bind,
    /// Asks for access.
    RequestAccess,
    /// Sends a prompt.
    Talk,
}

/// What a run does.
pub fn mode(logout: bool, bind: bool, request_access: bool) -> (mode: Mode)
    ensures
        mode == (if logout {
            Mode::Logout
        } else if bind && request_access {
            Mode::Conflict
        } else if bind {
            Mode::Bind
        } else if request_access {
            Mode::RequestAccess
        } else {
            Mode::Talk
        }),
{
    if logout {
        Mode::Logout
    } else if bind && request_access {
        Mode::Conflict
    } else if bind {
        Mode::Bind
    } else if request_access {
        Mode::RequestAccess
    } else {
        Mode::Talk
    }
}

/// The token of an identity that may be missing.
pub open spec fn token_of(kept: Option<IdentityView>) -> Option<Seq<char>> {
    match kept {
        Some(identity) => identity.token,
        None => None,
    }
}

/// The token that a prompt goes with: the one that the run was given, or else the one that is kept for
/// the gateway; and whether it is the kept one.
pub fn talk_token(explicit: Option<String>, kept: Option<&StoredIdentity>) -> (token: (
    Option<String>,
    bool,
))
    ensures
        ({
            let stored = token_of(
                match kept {
                    Some(identity) => Some(identity@),
                    None => None,
                },
            );
            &&& text::opt_string(token.0) == either(text::opt_string(explicit), stored)
            &&& token.1 == (explicit is None && stored is Some)
        }),
{
    match explicit {
        Some(t) => (Some(t), false),
        None => match kept {
            Some(identity) => match &identity.token {
                Some(t) => (Some(t.clone()), true),
                None => (None, false),
            },
            None => (None, false),
        },
    }
}

/// The prompt's message: that of the command line as it stands, or else what was read, without the
/// white space around it. `None` where it is empty.
pub fn message(argument: Option<String>, read: &str) -> (message: Option<String>)
    ensures
        text::opt_string(message) == filled(
            Some(
                match argument {
                    Some(a) => a@,
                    None => text::trimmed(read@),
                },
            ),
        ),
{
    let message = match argument {
        Some(a) => a,
        None => text::trim(read),
    };
    if message.as_str().is_empty() {
        None
    } else {
        Some(message)
    }
}

/// The ticket that opens a borrowed session.
pub open spec fn opening_ticket_view() -> JsonView {
    JsonView::Object(
        map![
            "version"@ => JsonView::Int(1),
            "label"@ => JsonView::Null,
            "messages"@ => JsonView::List(Seq::empty()),
            "turnSummaries"@ => JsonView::List(Seq::empty()),
        ],
    )
}

/// The ticket that opens a borrowed session.
pub fn opening_ticket() -> (ticket: Json)
    ensures
        ticket@ == opening_ticket_view(),
{
    let mut fields = json::no_fields();
    json::put(&mut fields, "version", Json::Int(1));
    json::put(&mut fields, "label", Json::Null);
    json::put(&mut fields, "messages", Json::List(Vec::new()));
    json::put(&mut fields, "turnSummaries", Json::List(Vec::new()));
    Json::Object(fields)
}

/// The ticket that a prompt goes with where it is given none: the opening one, where there is a sign
/// that the session is borrowed, so that not even its first round is kept by the gateway.
pub fn default_ticket(borrower: Option<&str>, env_borrower: Option<&str>, materials: bool) -> (ticket:
    Option<Json>)
    ensures
        match ticket {
            Some(t) => t@ == opening_ticket_view(),
            None => true,
        },
        ticket is Some <==> borrower is Some || filled(text::opt_text(env_borrower)) is Some
            || materials,
{
    let env = match env_borrower {
        Some(b) => !b.is_empty(),
        None => false,
    };
    if borrower.is_some() || env || materials {
        Some(opening_ticket())
    } else {
        None
    }
}

/// The ticket that a prompt goes with: the one in its file, or what is told of a file that is no JSON;
/// and the default one where there is no file.
pub fn ticket(
    file: Option<&str>,
    borrower: Option<&str>,
    env_borrower: Option<&str>,
    materials: bool,
) -> (ticket: Result<Option<Json>, String>)
    ensures
        match file {
            Some(raw) => match ticket {
                Ok(Some(t)) => codec::spells(raw@, t@),
                Ok(None) => false,
                Err(e) => codec::json_text(raw@) == Err::<JsonView, Seq<char>>(e@),
            },
            None => {
                let borrowed = borrower is Some || filled(text::opt_text(env_borrower)) is Some
                    || materials;
                match ticket {
                    Ok(Some(t)) => borrowed && t@ == opening_ticket_view(),
                    Ok(None) => !borrowed,
                    Err(_) => false,
                }
            },
        },
{
    match file {
        Some(raw) => match codec::parse(raw) {
            Ok(t) => Ok(Some(t)),
            Err(e) => Err(e),
        },
        None => Ok(default_ticket(borrower, env_borrower, materials)),
    }
}

/// The text of the file that keeps the ticket of an answer. `None` where the answer brings none. A
/// plain ticket is read back from it, to go with the next prompt.
pub fn saved_ticket(answer: &Json) -> (raw: Option<String>)
    ensures
        match raw {
            Some(t) => answer@.get("sessionTicket"@) matches Some(ticket) && t@ == codec::json_pretty(
                ticket,
            ) && (codec::plain(ticket, 127) ==> codec::spells(t@, ticket)),
            None => answer@.get("sessionTicket"@) is None,
        },
{
    match answer.get("sessionTicket") {
        Some(ticket) => Some(codec::pretty_of(ticket)),
        None => None,
    }
}

/// Who borrows: as the command line says, or else the environment, where it is not empty.
pub fn borrower(flag: Option<&str>, env: Option<&str>) -> (name: Option<String>)
    ensures
        text::opt_string(name) == either(text::opt_text(flag), filled(text::opt_text(env))),
{
    match flag {
        Some(b) => Some(b.to_string()),
        None => owned_if_filled(env),
    }
}

/// The name and the path of a material, which the first `=` keeps apart. `None` where there is none.
pub fn material_spec(spec: &str) -> (parts: Option<(String, String)>)
    ensures
        match parts {
            Some(p) => text::cut_at(spec@, '=') == (p.0@, Some(p.1@)),
            None => text::cut_at(spec@, '=').1 is None,
        },
{
    let (name, path) = text::cut(spec, '=');
    match path {
        Some(path) => Some((name, path)),
        None => None,
    }
}

/// Whether what is told of a failed prompt means that the gateway asks for credentials.
pub fn asks_for_credentials(told: &str) -> (asks: bool)
    ensures
        asks == text::occurs("Authentication required"@, told@),
{
    text::contains(told, "Authentication required")
}

/// A file name that could lead out of the directory that the files go to: one that climbs up, starts
/// at the root or holds a backslash.
pub open spec fn unsafe_name(name: Seq<char>) -> bool {
    text::occurs(".."@, name) || text::begins_with(name, "/"@) || name.contains('\\')
}

/// Whether a file name could lead out of the directory that the files go to.
pub fn is_unsafe_name(name: &str) -> (risky: bool)
    ensures
        risky == unsafe_name(name@),
{
    text::contains(name, "..") || text::after(name, "/").is_some() || text::contains_char(name, '\\')
}

/// What becomes of a file that comes with an answer.
#[derive(Debug, PartialEq, Eq)]
pub enum ReturnedFile {
    /// It is passed over for its name.
    Unsafe(String),
    /// It is written under its name.
    Write(String, Vec<u8>),
    /// Its content is no Base64 text.
    Undecodable(String, DecodeError),
}

/// What becomes of a file that comes with an answer.
#[verifier::ext_equal]
pub enum FileView {
    Unsafe(Seq<char>),
    Write(Seq<char>, Seq<u8>),
    Undecodable(Seq<char>, DecodeError),
}

impl View for ReturnedFile {
    type V = FileView;

    open spec fn view(&self) -> FileView {
        match self {
            ReturnedFile::Unsafe(name) => FileView::Unsafe(name@),
            ReturnedFile::Write(name, data) => FileView::Write(name@, data@),
            ReturnedFile::Undecodable(name, error) => FileView::Undecodable(name@, *error),
        }
    }
}

/// What becomes of an entry among the files of an answer. One without a name or a content is passed
/// over in silence.
pub open spec fn file_view(entry: JsonView) -> Option<FileView> {
    match (entry.text_at("name"@), entry.text_at("contentBase64"@)) {
        (Some(name), Some(content)) => Some(
            if unsafe_name(name) {
                FileView::Unsafe(name)
            } else {
                match base64::decoded(vstd::utf8::encode_utf8(content)) {
                    Ok(data) => FileView::Write(name, data),
                    Err(error) => FileView::Undecodable(name, error),
                }
            },
        ),
        _ => None,
    }
}

/// The files of an answer, as what they say.
pub open spec fn file_views(files: Seq<ReturnedFile>) -> Seq<FileView> {
    files.map_values(|file: ReturnedFile| file@)
}

/// What becomes of an entry among the files of an answer.
fn returned_file(entry: &Json) -> (file: Option<ReturnedFile>)
    ensures
        file_view(entry@) == (match file {
            Some(f) => Some(f@),
            None => None,
        }),
{
    match (entry.text_at("name"), entry.text_at("contentBase64")) {
        (Some(name), Some(content)) => {
            if is_unsafe_name(name) {
                return Some(ReturnedFile::Unsafe(name.to_string()));
            }
            match base64::base64_decode(content) {
                Ok(data) => Some(ReturnedFile::Write(name.to_string(), data)),
                Err(error) => Some(ReturnedFile::Undecodable(name.to_string(), error)),
            }
        },
        _ => None,
    }
}

/// What becomes of the files that come with an answer, in their order. `None` where the answer holds
/// no list of files.
pub fn returned_files(answer: &Json) -> (files: Option<Vec<ReturnedFile>>)
    ensures
        match files {
            Some(f) => answer@.get("files"@) matches Some(JsonView::List(entries)) && file_views(f@)
                == entries.filter_map(|entry: JsonView| file_view(entry)),
            None => !(answer@.get("files"@) matches Some(JsonView::List(_))),
        },
{
    match answer.get("files") {
        Some(Json::List(entries)) => {
            let mut files: Vec<ReturnedFile> = Vec::new();
            let ghost views = json::items_view(entries@);
            let ghost pick = |entry: JsonView| file_view(entry);
            proof {
                json::lemma_items_view(entries@);
            }
            for i in 0..entries.len()
                invariant
                    views.len() == entries@.len(),
                    forall|j: int| 0 <= j < entries@.len() ==> #[trigger] views[j] == entries@[j]@,
                    pick == (|entry: JsonView| file_view(entry)),
                    file_views(files@) == views.take(i as int).filter_map(pick),
            {
                match returned_file(&entries[i]) {
                    Some(file) => {
                        files.push(file);
                    },
                    None => {},
                }
                proof {
                    let longer = views.take(i + 1);
                    assert(longer.drop_last() =~= views.take(i as int));
                    assert(longer.last() == entries@[i as int]@);
                    assert(file_views(files@) =~= longer.filter_map(pick));
                }
            }
            proof {
                assert(views.take(views.len() as int) =~= views);
            }
            Some(files)
        },
        _ => None,
    }
}

/// The session id to continue an answer's conversation with. `None` where it is missing or empty.
pub fn resume_id(answer: &Json) -> (id: Option<String>)
    ensures
        text::opt_string(id) == filled(answer@.text_at("sessionId"@)),
{
    owned_if_filled(answer.text_at("sessionId"))
}

/// Whether a line feed is still due after an answer's text.
pub fn line_feed_due(answer: &Json) -> (due: bool)
    ensures
        due == (match answer@.text_at("text"@) {
            Some(t) => t.len() == 0 || t.last() != '\n',
            None => true,
        }),
{
    match answer.text_at("text") {
        Some(t) => {
            let chars = text::chars_of(t);
            chars.len() == 0 || chars[chars.len() - 1] != '\n'
        },
        None => true,
    }
}

/// Whether the gateway has turned down the token that was kept for it, from its answer to the
/// handshake.
pub fn kept_token_is_stale(used_kept: bool, reply: &Json) -> (stale: bool)
    ensures
        stale == (used_kept && !rpc::authenticated_view(reply@)),
{
    used_kept && !rpc::authenticated(reply)
}

/// `agc ask <url> ...` is read as `agc <url> ...`.
pub proof fn ask_changes_nothing(program: String, ask: String, rest: Seq<String>)
    requires
        ask@ == "ask"@,
    ensures
        without_ask(seq![program, ask] + rest) == seq![program] + rest,
{
    assert((seq![program, ask] + rest).remove(1) =~= seq![program] + rest);
}

/// A file that is written has a name that stays inside the directory.
pub proof fn written_files_stay_inside(entry: JsonView)
    ensures
        file_view(entry) matches Some(FileView::Write(name, _)) ==> !unsafe_name(name),
{
}

/// A file that was encoded as materials are is written with the bytes it was made from.
pub proof fn returned_bytes_are_written(entry: JsonView, name: Seq<char>, data: Seq<u8>)
    requires
        entry.text_at("name"@) == Some(name),
        entry.text_at("contentBase64"@) == Some(base64::encoded(data)),
        !unsafe_name(name),
    ensures
        file_view(entry) == Some(FileView::Write(name, data)),
{
    base64::decoding_undoes_encoding(data);
}

/// An error of the gateway whose words ask for credentials is told in words that ask for them.
pub proof fn request_for_credentials_is_told(code: i64, message: Seq<char>)
    requires
        text::occurs("Authentication required"@, message),
    ensures
        text::occurs("Authentication required"@, rpc::error_text((code, message))),
{
    text::lemma_occurs_in_tail(
        "Authentication required"@,
        "Error ("@ + text::signed_decimal(code as int) + "): "@,
        message,
    );
}

/// A prompt that is given no token goes with the one that is kept for its gateway, and with none once
/// the gateway's identity is forgotten.
pub proof fn kept_token_is_used(
    store: Map<Seq<char>, IdentityView>,
    key: Seq<char>,
    identity: IdentityView,
)
    ensures
        either(None, token_of(consent::kept_for(store.insert(key, identity), key))) == identity.token,
        either(None, token_of(consent::kept_for(store.remove(key), key))) is None,
{
}

/// A command line whose first word behind the program is not `ask` is left as it is.
pub proof fn other_words_stay(argv: Seq<String>)
    requires
        argv.len() > 1 ==> argv[1]@ != "ask"@,
    ensures
        without_ask(argv) == argv,
{
}

/// A text counts where it has a character, and of two texts the first counts where it is there.
pub proof fn first_filled_text_counts(t: Seq<char>, second: Option<Seq<char>>)
    ensures
        t.len() > 0 ==> filled(Some(t)) == Some(t),
        t.len() == 0 ==> filled(Some(t)) is None,
        filled(None) is None,
        either(Some(t), second) == Some(t),
        either(None, second) == second,
{
}

/// A token file goes before the environment, and the environment before the command line. White space
/// around what the file holds does not count. An environment that is set but empty leaves no token.
pub proof fn token_files_go_first(
    before: Seq<char>,
    token: Seq<char>,
    after: Seq<char>,
    env: Option<Seq<char>>,
    set: Seq<char>,
    flag: Option<Seq<char>>,
)
    requires
        forall|i: int| 0 <= i < before.len() ==> text::white_space(#[trigger] before[i]),
        forall|i: int| 0 <= i < after.len() ==> text::white_space(#[trigger] after[i]),
        token.len() > 0 ==> !text::white_space(token[0]) && !text::white_space(token.last()),
    ensures
        explicit_token_view(Some(before + token + after), env, flag) == Some(token),
        set.len() > 0 ==> explicit_token_view(None, Some(set), flag) == Some(set),
        set.len() == 0 ==> explicit_token_view(None, Some(set), flag) is None,
        explicit_token_view(None, None, flag) == flag,
{
    text::trimming_undoes_padding(before, token, after);
}

/// The token of an identity is the one that it has, and of none there is none.
pub proof fn tokens_come_from_the_identity(identity: IdentityView)
    ensures
        token_of(Some(identity)) == identity.token,
        token_of(None) is None,
{
}

/// The ticket that opens a borrowed session is of version 1, has no label, and has no messages and no
/// summaries yet. It has nothing else.
pub proof fn opening_tickets_are_empty(other: Seq<char>)
    ensures
        ({
            let ticket = opening_ticket_view();
            &&& ticket.int_at("version"@) == Some(1i64)
            &&& ticket.get("label"@) == Some(JsonView::Null)
            &&& ticket.get("messages"@) == Some(JsonView::List(Seq::empty()))
            &&& ticket.get("turnSummaries"@) == Some(JsonView::List(Seq::empty()))
            &&& other != "version"@ && other != "label"@ && other != "messages"@ && other
                != "turnSummaries"@ ==> ticket.get(other) is None
        }),
{
    reveal_strlit("version");
    reveal_strlit("label");
    reveal_strlit("messages");
    reveal_strlit("turnSummaries");
    assert("version"@.len() == 7 && "label"@.len() == 5 && "messages"@.len() == 8);
    assert("turnSummaries"@.len() == 13);
}

/// A file name is unsafe where two dots stand in it, where it begins with a slash or where a backslash
/// stands in it, and only there.
pub proof fn unsafe_names_climb_or_start_at_the_root(
    a: Seq<char>,
    b: Seq<char>,
    name: Seq<char>,
)
    ensures
        unsafe_name(a + ".."@ + b),
        unsafe_name("/"@ + b),
        unsafe_name(a + "\\"@ + b),
        unsafe_name(name) ==> {
            ||| exists|x: Seq<char>, y: Seq<char>| name == #[trigger] (x + ".."@ + y)
            ||| exists|y: Seq<char>| name == #[trigger] ("/"@ + y)
            ||| exists|x: Seq<char>, y: Seq<char>| name == #[trigger] (x + "\\"@ + y)
        },
{
    reveal_strlit("\\");
    assert("\\"@ =~= seq!['\\']);
    text::occurrence_is_between_two_texts(".."@, name, a, b);
    text::beginning_is_followed_by_the_rest(name, "/"@, b);
    assert((a + "\\"@ + b)[a.len() as int] == '\\');
    if name.contains('\\') {
        let i = choose|i: int| 0 <= i < name.len() && name[i] == '\\';
        let (x, y) = (name.take(i), name.skip(i + 1));
        assert(name =~= x + "\\"@ + y);
        assert(name == x + "\\"@ + y);
    }
    if text::begins_with(name, "/"@) {
        let y = name.skip("/"@.len() as int);
        assert(name == "/"@ + y);
    }
}

/// A returned file with a name and a content is passed over where its name is unsafe, written under its
/// name with the bytes that its content spells where it spells some, and told of where it does not. A
/// file without a name or a content counts for nothing.
pub proof fn returned_files_are_written_or_told(
    entry: JsonView,
    name: Seq<char>,
    content: Seq<char>,
    data: Seq<u8>,
    error: DecodeError,
)
    ensures
        entry.text_at("name"@) is None || entry.text_at("contentBase64"@) is None ==> file_view(
            entry,
        ) is None,
        entry.text_at("name"@) == Some(name) && entry.text_at("contentBase64"@) == Some(content) ==> {
            &&& unsafe_name(name) ==> file_view(entry) == Some(FileView::Unsafe(name))
            &&& !unsafe_name(name) && base64::decoded(vstd::utf8::encode_utf8(content)) == Ok::<
                Seq<u8>,
                DecodeError,
            >(data) ==> file_view(entry) == Some(FileView::Write(name, data))
            &&& !unsafe_name(name) && base64::decoded(vstd::utf8::encode_utf8(content)) == Err::<
                Seq<u8>,
                DecodeError,
            >(error) ==> file_view(entry) == Some(FileView::Undecodable(name, error))
        },
{
}

/// Returned files say what they hold.
pub proof fn returned_files_say_what_they_hold(
    name: String,
    data: Vec<u8>,
    error: DecodeError,
    files: Seq<ReturnedFile>,
    i: int,
)
    ensures
        ReturnedFile::Unsafe(name)@ == FileView::Unsafe(name@),
        ReturnedFile::Write(name, data)@ == FileView::Write(name@, data@),
        ReturnedFile::Undecodable(name, error)@ == FileView::Undecodable(name@, error),
        file_views(files).len() == files.len(),
        0 <= i < files.len() ==> file_views(files)[i] == files[i]@,
{
}

}
