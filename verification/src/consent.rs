//! A visitor's way to a token: asking for access, and waiting until the owner agrees.
use vstd::prelude::*;
use vstd::string::*;

use crate::json::{Json, JsonView};
use crate::keyring::{IdentityView, StoredIdentity, TokenStore};
use crate::text;

verus! {

/// What a visitor has just asked the gateway, or asks it next.
#[derive(Debug, PartialEq, Eq)]
pub enum Consent {
    /// What became of a request that an earlier run left open.
    Resume(String),
    /// For access.
    Ask,
    /// What became of the request that this run waits for.
    Wait(String),
}

/// What a visitor has just asked the gateway, or asks it next.
#[verifier::ext_equal]
pub enum ConsentView {
    Resume(Seq<char>),
    Ask,
    Wait(Seq<char>),
}

impl View for Consent {
    type V = ConsentView;

    open spec fn view(&self) -> ConsentView {
        match self {
            Consent::Resume(id) => ConsentView::Resume(id@),
            Consent::Ask => ConsentView::Ask,
            Consent::Wait(id) => ConsentView::Wait(id@),
        }
    }
}

/// Why a visitor gets no token.
#[derive(Debug, PartialEq, Eq)]
pub enum ConsentError {
    ApprovedWithoutToken,
    PendingWithoutRequestId,
    /// A request for access got this status.
    UnknownRequestStatus(Option<String>),
    /// The question what became of a request got this status.
    UnknownCheckStatus(Option<String>),
    /// The request was refused, or is too old: the gateway does not tell which.
    Gone,
    /// The owner has not agreed within so many seconds.
    TimedOut(u64),
}

/// Why a visitor gets no token.
#[verifier::ext_equal]
pub enum ConsentErrorView {
    ApprovedWithoutToken,
    PendingWithoutRequestId,
    UnknownRequestStatus(Option<Seq<char>>),
    UnknownCheckStatus(Option<Seq<char>>),
    Gone,
    TimedOut(u64),
}

impl View for ConsentError {
    type V = ConsentErrorView;

    open spec fn view(&self) -> ConsentErrorView {
        match self {
            ConsentError::ApprovedWithoutToken => ConsentErrorView::ApprovedWithoutToken,
            ConsentError::PendingWithoutRequestId => ConsentErrorView::PendingWithoutRequestId,
            ConsentError::UnknownRequestStatus(s) => ConsentErrorView::UnknownRequestStatus(
                text::opt_string(*s),
            ),
            ConsentError::UnknownCheckStatus(s) => ConsentErrorView::UnknownCheckStatus(
                text::opt_string(*s),
            ),
            ConsentError::Gone => ConsentErrorView::Gone,
            ConsentError::TimedOut(seconds) => ConsentErrorView::TimedOut(*seconds),
        }
    }
}

/// What is told of a visitor who gets no token.
pub open spec fn consent_error_text(error: ConsentErrorView) -> Seq<char> {
    match error {
        ConsentErrorView::ApprovedWithoutToken => "approved 响应缺 token"@,
        ConsentErrorView::PendingWithoutRequestId => "pending 响应缺 requestId"@,
        ConsentErrorView::UnknownRequestStatus(s) => "requestAccess 未知状态: "@
            + text::debug_text(s),
        ConsentErrorView::UnknownCheckStatus(s) => "checkAccess 未知状态: "@ + text::debug_text(s),
        ConsentErrorView::Gone => "申请被拒或已过期（网关不区分两者）"@,
        ConsentErrorView::TimedOut(seconds) => "等待超时（"@ + text::decimal(seconds as nat)
            + "s）。挂单仍在——主人同意后重跑本命令取票"@,
    }
}

impl ConsentError {
    /// What is told of the error.
    pub fn text(&self) -> (told: String)
        ensures
            told@ == consent_error_text(self@),
    {
        match self {
            ConsentError::ApprovedWithoutToken => "approved 响应缺 token".to_string(),
            ConsentError::PendingWithoutRequestId => "pending 响应缺 requestId".to_string(),
            ConsentError::UnknownRequestStatus(s) => {
                let mut told = "requestAccess 未知状态: ".to_string();
                told.append(text::debug_of(s).as_str());
                told
            },
            ConsentError::UnknownCheckStatus(s) => {
                let mut told = "checkAccess 未知状态: ".to_string();
                told.append(text::debug_of(s).as_str());
                told
            },
            ConsentError::Gone => "申请被拒或已过期（网关不区分两者）".to_string(),
            ConsentError::TimedOut(seconds) => {
                let mut told = "等待超时（".to_string();
                told.append(text::decimal_of(*seconds).as_str());
                told.append("s）。挂单仍在——主人同意后重跑本命令取票");
                told
            },
        }
    }
}

/// Where the gateway's answer takes a visitor.
#[derive(Debug, PartialEq, Eq)]
pub enum ConsentStep {
    /// There is more to ask.
    Next(Consent),
    /// The owner has agreed: the answer holds the token that was waited for.
    Finish,
    /// Access was granted at once, with this token.
    Granted(Option<String>),
    Failed(ConsentError),
}

/// Where the gateway's answer takes a visitor.
#[verifier::ext_equal]
pub enum ConsentStepView {
    Next(ConsentView),
    Finish,
    Granted(Option<Seq<char>>),
    Failed(ConsentErrorView),
}

impl View for ConsentStep {
    type V = ConsentStepView;

    open spec fn view(&self) -> ConsentStepView {
        match self {
            ConsentStep::Next(c) => ConsentStepView::Next(c@),
            ConsentStep::Finish => ConsentStepView::Finish,
            ConsentStep::Granted(t) => ConsentStepView::Granted(text::opt_string(*t)),
            ConsentStep::Failed(e) => ConsentStepView::Failed(e@),
        }
    }
}

/// How a visitor of this name begins: with the request that the same visitor left open at this
/// gateway, where there is one.
pub open spec fn begin_view(kept: Option<IdentityView>, name: Seq<char>) -> ConsentView {
    match kept {
        Some(identity) => match identity.pending_request_id {
            Some(id) => if identity.role == "visitor"@ && identity.name == name {
                ConsentView::Resume(id)
            } else {
                ConsentView::Ask
            },
            None => ConsentView::Ask,
        },
        None => ConsentView::Ask,
    }
}

/// How a visitor of this name begins, from the identity that is kept for the gateway.
pub fn begin(kept: Option<&StoredIdentity>, name: &str) -> (consent: Consent)
    ensures
        consent@ == begin_view(
            match kept {
                Some(identity) => Some(identity@),
                None => None,
            },
            name@,
        ),
{
    match kept {
        Some(identity) => match &identity.pending_request_id {
            Some(id) => if text::same_text(identity.role.as_str(), "visitor") && text::same_text(
                identity.name.as_str(),
                name,
            ) {
                Consent::Resume(id.clone())
            } else {
                Consent::Ask
            },
            None => Consent::Ask,
        },
        None => Consent::Ask,
    }
}

/// Where the gateway's answer takes a visitor. An open request of an earlier run that is no longer
/// open is made anew. One that this run waits for is then at its end.
pub open spec fn consent_step_view(asked: ConsentView, answer: JsonView) -> ConsentStepView {
    let status = answer.text_at("status"@);
    match asked {
        ConsentView::Resume(id) => if status == Some("approved"@) {
            ConsentStepView::Finish
        } else if status == Some("pending"@) {
            ConsentStepView::Next(ConsentView::Wait(id))
        } else {
            ConsentStepView::Next(ConsentView::Ask)
        },
        ConsentView::Ask => if status == Some("approved"@) {
            ConsentStepView::Granted(answer.text_at("token"@))
        } else if status == Some("pending"@) {
            match answer.text_at("requestId"@) {
                Some(id) => ConsentStepView::Next(ConsentView::Wait(id)),
                None => ConsentStepView::Failed(ConsentErrorView::PendingWithoutRequestId),
            }
        } else {
            ConsentStepView::Failed(ConsentErrorView::UnknownRequestStatus(status))
        },
        ConsentView::Wait(id) => if status == Some("approved"@) {
            ConsentStepView::Finish
        } else if status == Some("pending"@) {
            ConsentStepView::Next(ConsentView::Wait(id))
        } else if status == Some("notFound"@) {
            ConsentStepView::Failed(ConsentErrorView::Gone)
        } else {
            ConsentStepView::Failed(ConsentErrorView::UnknownCheckStatus(status))
        },
    }
}

/// Where the gateway's answer takes a visitor.
pub fn consent_step(asked: Consent, answer: &Json) -> (step: ConsentStep)
    ensures
        step@ == consent_step_view(asked@, answer@),
{
    let status = answer.text_at("status");
    let approved = text::is_text(status, "approved");
    let pending = text::is_text(status, "pending");
    match asked {
        Consent::Resume(id) => if approved {
            ConsentStep::Finish
        } else if pending {
            ConsentStep::Next(Consent::Wait(id))
        } else {
            ConsentStep::Next(Consent::Ask)
        },
        Consent::Ask => if approved {
            ConsentStep::Granted(text::owned(answer.text_at("token")))
        } else if pending {
            match answer.text_at("requestId") {
                Some(id) => ConsentStep::Next(Consent::Wait(id.to_string())),
                None => ConsentStep::Failed(ConsentError::PendingWithoutRequestId),
            }
        } else {
            ConsentStep::Failed(ConsentError::UnknownRequestStatus(text::owned(status)))
        },
        Consent::Wait(id) => if approved {
            ConsentStep::Finish
        } else if pending {
            ConsentStep::Next(Consent::Wait(id))
        } else if text::is_text(status, "notFound") {
            ConsentStep::Failed(ConsentError::Gone)
        } else {
            ConsentStep::Failed(ConsentError::UnknownCheckStatus(text::owned(status)))
        },
    }
}

/// What a visitor with an open request does.
#[derive(Clone, Copy, Debug, PartialEq, Eq, Structural)]
pub enum Waiting {
    /// Leaves the request open, and does not wait at all.
    Leave,
    /// Leaves the request open, the time being over.
    GiveUp,
    /// Asks again what became of it, a little later.
    Poll,
}

/// What a visitor does who wants to wait so many seconds, and has waited so many.
pub fn waiting(wait_secs: u64, waited: u64) -> (action: Waiting)
    ensures
        action == (if wait_secs == 0 {
            Waiting::Leave
        } else if waited >= wait_secs {
            Waiting::GiveUp
        } else {
            Waiting::Poll
        }),
{
    if wait_secs == 0 {
        Waiting::Leave
    } else if waited >= wait_secs {
        Waiting::GiveUp
    } else {
        Waiting::Poll
    }
}

/// A visitor as it is kept.
pub open spec fn visitor_view(
    name: Seq<char>,
    token: Option<Seq<char>>,
    pending: Option<Seq<char>>,
    saved_at: i64,
) -> IdentityView {
    IdentityView { token, name, role: "visitor"@, pending_request_id: pending, saved_at }
}

/// A visitor as it is kept.
fn visitor(
    name: &str,
    token: Option<String>,
    pending: Option<String>,
    saved_at: i64,
) -> (identity: StoredIdentity)
    ensures
        identity@ == visitor_view(
            name@,
            text::opt_string(token),
            text::opt_string(pending),
            saved_at,
        ),
{
    StoredIdentity {
        token,
        name: name.to_string(),
        role: "visitor".to_string(),
        pending_request_id: pending,
        saved_at,
    }
}

/// Keeps the token that a visitor was granted.
pub fn keep_visitor(
    store: &mut TokenStore,
    gw_key: &str,
    name: &str,
    token: Option<String>,
    saved_at: i64,
)
    ensures
        final(store)@ == old(store)@.insert(
            gw_key@,
            visitor_view(name@, text::opt_string(token), None, saved_at),
        ),
{
    store.remember(gw_key, visitor(name, token, None, saved_at));
}

/// Keeps a request that is still open, for a later run.
pub fn leave_open(
    store: &mut TokenStore,
    gw_key: &str,
    name: &str,
    request_id: String,
    saved_at: i64,
)
    ensures
        final(store)@ == old(store)@.insert(
            gw_key@,
            visitor_view(name@, None, Some(request_id@), saved_at),
        ),
{
    store.remember(gw_key, visitor(name, None, Some(request_id), saved_at));
}

/// The owner has agreed: keeps the token in the answer. The request is then no longer open. Where the
/// answer holds no token, nothing is kept.
pub fn finish_consent(
    store: &mut TokenStore,
    gw_key: &str,
    name: &str,
    res: &Json,
    saved_at: i64,
) -> (kept: Result<(), ConsentError>)
    ensures
        match kept {
            Ok(()) => res@.text_at("token"@) is Some && final(store)@ == old(store)@.insert(
                gw_key@,
                visitor_view(name@, res@.text_at("token"@), None, saved_at),
            ),
            Err(e) => res@.text_at("token"@) is None && e@ == ConsentErrorView::ApprovedWithoutToken
                && final(store)@ == old(store)@,
        },
{
    match res.text_at("token") {
        Some(token) => {
            keep_visitor(store, gw_key, name, Some(token.to_string()), saved_at);
            Ok(())
        },
        None => Err(ConsentError::ApprovedWithoutToken),
    }
}

/// What a store keeps for a gateway.
pub open spec fn kept_for(store: Map<Seq<char>, IdentityView>, gw_key: Seq<char>) -> Option<
    IdentityView,
> {
    if store.contains_key(gw_key) {
        Some(store[gw_key])
    } else {
        None
    }
}

/// A request that was left open is taken up again by the next run of the same visitor at the same
/// gateway, and by no other visitor.
pub proof fn open_request_is_resumed(
    store: Map<Seq<char>, IdentityView>,
    gw_key: Seq<char>,
    name: Seq<char>,
    request_id: Seq<char>,
    saved_at: i64,
    later: Seq<char>,
)
    ensures
        begin_view(
            kept_for(
                store.insert(gw_key, visitor_view(name, None, Some(request_id), saved_at)),
                gw_key,
            ),
            later,
        ) == (if later == name {
            ConsentView::Resume(request_id)
        } else {
            ConsentView::Ask
        }),
{
}

/// Once a token is kept, no request is open any more: the next run asks anew.
pub proof fn granted_request_is_closed(
    store: Map<Seq<char>, IdentityView>,
    gw_key: Seq<char>,
    name: Seq<char>,
    token: Option<Seq<char>>,
    saved_at: i64,
    later: Seq<char>,
)
    ensures
        begin_view(
            kept_for(store.insert(gw_key, visitor_view(name, token, None, saved_at)), gw_key),
            later,
        ) == ConsentView::Ask,
{
}

/// An open request is asked about first, access is asked for once, and from then on one and the same
/// request is waited for.
pub proof fn consent_moves_on(asked: ConsentView, answer: JsonView)
    ensures
        consent_step_view(asked, answer) matches ConsentStepView::Next(next) ==> match asked {
            ConsentView::Resume(id) => next == ConsentView::Ask || next == ConsentView::Wait(id),
            ConsentView::Ask => next is Wait,
            ConsentView::Wait(_) => next == asked,
        },
{
}

/// A visitor takes up the open request of the identity that is kept for the gateway where that identity
/// is a visitor of the same name, and else asks anew.
pub proof fn only_the_same_visitor_resumes(identity: IdentityView, name: Seq<char>, id: Seq<char>)
    ensures
        identity.role == "visitor"@ && identity.name == name && identity.pending_request_id == Some(id)
            ==> begin_view(Some(identity), name) == ConsentView::Resume(id),
        identity.role != "visitor"@ ==> begin_view(Some(identity), name) == ConsentView::Ask,
        identity.name != name ==> begin_view(Some(identity), name) == ConsentView::Ask,
        identity.pending_request_id is None ==> begin_view(Some(identity), name) == ConsentView::Ask,
        begin_view(None, name) == ConsentView::Ask,
{
}

/// The statuses are different texts.
proof fn lemma_statuses()
    ensures
        "approved"@ != "pending"@,
        "approved"@ != "notFound"@,
        "pending"@ != "notFound"@,
{
    reveal_strlit("approved");
    reveal_strlit("pending");
    reveal_strlit("notFound");
    assert("approved"@.len() == 8 && "pending"@.len() == 7 && "notFound"@.len() == 8);
    assert("approved"@[0] == 'a' && "notFound"@[0] == 'n');
}

/// What becomes of a request of an earlier run: approved, its token is taken; pending, it is waited for;
/// anything else, access is asked for anew.
pub proof fn earlier_requests_are_taken_up(id: Seq<char>, answer: JsonView)
    ensures
        answer.text_at("status"@) == Some("approved"@) ==> consent_step_view(
            ConsentView::Resume(id),
            answer,
        ) == ConsentStepView::Finish,
        answer.text_at("status"@) == Some("pending"@) ==> consent_step_view(
            ConsentView::Resume(id),
            answer,
        ) == ConsentStepView::Next(ConsentView::Wait(id)),
        answer.text_at("status"@) != Some("approved"@) && answer.text_at("status"@) != Some("pending"@)
            ==> consent_step_view(ConsentView::Resume(id), answer) == ConsentStepView::Next(
            ConsentView::Ask,
        ),
{
    lemma_statuses();
}

/// What becomes of a request for access: approved, its token is there at once; pending, the request that
/// the answer names is waited for, and it is an error where it names none; anything else is an error with
/// the status.
pub proof fn new_requests_are_answered(answer: JsonView, id: Seq<char>)
    ensures
        answer.text_at("status"@) == Some("approved"@) ==> consent_step_view(ConsentView::Ask, answer)
            == ConsentStepView::Granted(answer.text_at("token"@)),
        answer.text_at("status"@) == Some("pending"@) && answer.text_at("requestId"@) == Some(id)
            ==> consent_step_view(ConsentView::Ask, answer) == ConsentStepView::Next(
            ConsentView::Wait(id),
        ),
        answer.text_at("status"@) == Some("pending"@) && answer.text_at("requestId"@) is None
            ==> consent_step_view(ConsentView::Ask, answer) == ConsentStepView::Failed(
            ConsentErrorView::PendingWithoutRequestId,
        ),
        answer.text_at("status"@) != Some("approved"@) && answer.text_at("status"@) != Some("pending"@)
            ==> consent_step_view(ConsentView::Ask, answer) == ConsentStepView::Failed(
            ConsentErrorView::UnknownRequestStatus(answer.text_at("status"@)),
        ),
{
    lemma_statuses();
}

/// What becomes of the request that is waited for: approved, its token is taken; pending, the same one is
/// waited for; not found, it is gone; anything else is an error with the status.
pub proof fn open_requests_are_waited_for(id: Seq<char>, answer: JsonView)
    ensures
        answer.text_at("status"@) == Some("approved"@) ==> consent_step_view(
            ConsentView::Wait(id),
            answer,
        ) == ConsentStepView::Finish,
        answer.text_at("status"@) == Some("pending"@) ==> consent_step_view(
            ConsentView::Wait(id),
            answer,
        ) == ConsentStepView::Next(ConsentView::Wait(id)),
        answer.text_at("status"@) == Some("notFound"@) ==> consent_step_view(
            ConsentView::Wait(id),
            answer,
        ) == ConsentStepView::Failed(ConsentErrorView::Gone),
        answer.text_at("status"@) != Some("approved"@) && answer.text_at("status"@) != Some("pending"@)
            && answer.text_at("status"@) != Some("notFound"@) ==> consent_step_view(
            ConsentView::Wait(id),
            answer,
        ) == ConsentStepView::Failed(
            ConsentErrorView::UnknownCheckStatus(answer.text_at("status"@)),
        ),
{
    lemma_statuses();
}

/// What is told of each error.
pub proof fn consent_errors_are_told(status: Option<Seq<char>>, seconds: u64, digits: Seq<char>)
    requires
        text::all_digits(digits),
        digits[0] == '0' ==> digits.len() == 1,
        text::number_of(digits) == seconds,
    ensures
        consent_error_text(ConsentErrorView::ApprovedWithoutToken) == "approved 响应缺 token"@,
        consent_error_text(ConsentErrorView::PendingWithoutRequestId) == "pending 响应缺 requestId"@,
        consent_error_text(ConsentErrorView::UnknownRequestStatus(status)) == "requestAccess 未知状态: "@
            + text::debug_text(status),
        consent_error_text(ConsentErrorView::UnknownCheckStatus(status)) == "checkAccess 未知状态: "@
            + text::debug_text(status),
        consent_error_text(ConsentErrorView::Gone) == "申请被拒或已过期（网关不区分两者）"@,
        consent_error_text(ConsentErrorView::TimedOut(seconds)) == "等待超时（"@ + digits
            + "s）。挂单仍在——主人同意后重跑本命令取票"@,
{
    text::digits_are_those_of_their_number(digits);
}

/// A visitor is kept with the role `visitor` and with what was given of it.
pub proof fn visitors_are_kept_as_given(
    name: Seq<char>,
    token: Option<Seq<char>>,
    pending: Option<Seq<char>>,
    saved_at: i64,
)
    ensures
        ({
            let identity = visitor_view(name, token, pending, saved_at);
            &&& identity.role == "visitor"@
            &&& identity.name == name
            &&& identity.token == token
            &&& identity.pending_request_id == pending
            &&& identity.saved_at == saved_at
        }),
{
}

/// What is kept for a gateway is what the store holds under its key.
pub proof fn kept_is_what_the_store_holds(
    store: Map<Seq<char>, IdentityView>,
    key: Seq<char>,
    identity: IdentityView,
)
    ensures
        kept_for(store.insert(key, identity), key) == Some(identity),
        kept_for(store.remove(key), key) is None,
{
}

/// Questions, steps and errors say what they hold.
pub proof fn consent_says_what_it_holds(
    id: String,
    consent: Consent,
    token: Option<String>,
    error: ConsentError,
    status: Option<String>,
    seconds: u64,
)
    ensures
        Consent::Resume(id)@ == ConsentView::Resume(id@),
        Consent::Ask@ == ConsentView::Ask,
        Consent::Wait(id)@ == ConsentView::Wait(id@),
        ConsentStep::Next(consent)@ == ConsentStepView::Next(consent@),
        ConsentStep::Finish@ == ConsentStepView::Finish,
        ConsentStep::Granted(token)@ == ConsentStepView::Granted(text::opt_string(token)),
        ConsentStep::Failed(error)@ == ConsentStepView::Failed(error@),
        ConsentError::ApprovedWithoutToken@ == ConsentErrorView::ApprovedWithoutToken,
        ConsentError::PendingWithoutRequestId@ == ConsentErrorView::PendingWithoutRequestId,
        ConsentError::UnknownRequestStatus(status)@ == ConsentErrorView::UnknownRequestStatus(
            text::opt_string(status),
        ),
        ConsentError::UnknownCheckStatus(status)@ == ConsentErrorView::UnknownCheckStatus(
            text::opt_string(status),
        ),
        ConsentError::Gone@ == ConsentErrorView::Gone,
        ConsentError::TimedOut(seconds)@ == ConsentErrorView::TimedOut(seconds),
{
}

}
