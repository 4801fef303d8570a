use vstd::prelude::*;
use crate::codec::{b64_decode, b64_decoded};
use crate::protocol::{InitAuthRequest, InitAuthResponse, PollAuthRequest, PollAuthResponse};

verus! {

/// Seconds to wait before each poll of the remote service.
pub const POLL_DELAY_SECS: u64 = 3;

/// Which remote call went wrong.
#[derive(Debug, Clone, Copy, PartialEq, Eq, Structural)]
pub enum Phase {
    Init,
    Poll,
}

/// Why a signing request failed.
#[derive(Debug, Clone, Copy, PartialEq, Eq, Structural)]
pub enum SignError {
    /// No known identity has the requested public key.
    InvalidKey,
    /// The request could not be sent or no answer came back.
    SendFailed(Phase),
    /// The remote service answered with a non-success HTTP status.
    ErrorStatus(Phase, u16),
    /// The answer's body could not be read or decoded.
    BadBody(Phase),
    /// The returned signature is not valid base64.
    InvalidSignature,
}

/// What came back from one HTTP exchange with the remote service, as seen
/// by the transport: nothing, or a status and the decoded body (`None`
/// where the body could not be read or decoded).
#[derive(Debug)]
pub enum Exchange<T> {
    SendFailed,
    Answered { status: u16, body: Option<T> },
}

/// A successful signature, labelled with the identity's key type.
#[derive(Debug)]
pub struct SignResponse {
    pub algo_name: String,
    pub signature: Vec<u8>,
}

/// Where one signing request stands.
#[derive(Debug)]
pub enum SignState {
    /// Waiting for the answer to the init call.
    AwaitingInit { key_type: String, key_id: String, api_prefix: String },
    /// Waiting for the answer to a poll call.
    Polling { key_type: String, key_id: String, api_prefix: String, request_id: String },
    /// Resolved, one way or the other.
    Done,
}

/// What the transport is to do next for a signing request.
#[derive(Debug)]
#[allow(inconsistent_fields)]
pub enum SignAction {
    /// Send the init call.
    Init { url: String, request: InitAuthRequest },
    /// Wait `delay_secs`, then send a poll call.
    Poll { delay_secs: u64, url: String, request: PollAuthRequest },
    /// Report this outcome to the requester.
    Finish(Result<SignResponse, SignError>),
}

pub enum ExchangeModel<T> {
    SendFailed,
    Answered { status: u16, body: Option<T> },
}

pub enum StateModel {
    AwaitingInit { key_type: Seq<char>, key_id: Seq<char>, api_prefix: Seq<char> },
    Polling {
        key_type: Seq<char>,
        key_id: Seq<char>,
        api_prefix: Seq<char>,
        request_id: Seq<char>,
    },
    Done,
}

pub enum ActionModel {
    Init { url: Seq<char>, key_id: Seq<char>, challenge: Seq<char> },
    Poll { delay_secs: u64, url: Seq<char>, key_id: Seq<char>, request_id: Seq<char> },
    Finish(Result<(Seq<char>, Seq<u8>), SignError>),
}

impl<T: View> View for Exchange<T> {
    type V = ExchangeModel<T::V>;

    open spec fn view(&self) -> ExchangeModel<T::V> {
        match self {
            Exchange::SendFailed => ExchangeModel::SendFailed,
            Exchange::Answered { status, body } => ExchangeModel::Answered {
                status: *status,
                body: match body {
                    Some(b) => Some(b@),
                    None => None,
                },
            },
        }
    }
}

impl View for SignState {
    type V = StateModel;

    open spec fn view(&self) -> StateModel {
        match self {
            SignState::AwaitingInit { key_type, key_id, api_prefix } => StateModel::AwaitingInit {
                key_type: key_type@,
                key_id: key_id@,
                api_prefix: api_prefix@,
            },
            SignState::Polling { key_type, key_id, api_prefix, request_id } => StateModel::Polling {
                key_type: key_type@,
                key_id: key_id@,
                api_prefix: api_prefix@,
                request_id: request_id@,
            },
            SignState::Done => StateModel::Done,
        }
    }
}

/// The model of a signing outcome.
pub open spec fn outcome_view(r: Result<SignResponse, SignError>) -> Result<
    (Seq<char>, Seq<u8>),
    SignError,
> {
    match r {
        Ok(s) => Ok((s.algo_name@, s.signature@)),
        Err(e) => Err(e),
    }
}

impl View for SignAction {
    type V = ActionModel;

    open spec fn view(&self) -> ActionModel {
        match self {
            SignAction::Init { url, request } => ActionModel::Init {
                url: url@,
                key_id: request.key_id@,
                challenge: request.challenge@,
            },
            SignAction::Poll { delay_secs, url, request } => ActionModel::Poll {
                delay_secs: *delay_secs,
                url: url@,
                key_id: request.key_id@,
                request_id: request.request_id@,
            },
            SignAction::Finish(r) => ActionModel::Finish(outcome_view(*r)),
        }
    }
}

pub open spec fn is_success(status: u16) -> bool {
    200 <= status <= 299
}

pub open spec fn init_url(api_prefix: Seq<char>) -> Seq<char> {
    api_prefix + "/v1/auth/init"@
}

pub open spec fn poll_url(api_prefix: Seq<char>) -> Seq<char> {
    api_prefix + "/v1/auth/poll"@
}

/// The body of an exchange that succeeded, or `None`.
pub open spec fn exchange_body<T>(ex: ExchangeModel<T>) -> Option<T> {
    match ex {
        ExchangeModel::Answered { status, body: Some(b) } => if is_success(status) {
            Some(b)
        } else {
            None
        },
        _ => None,
    }
}

/// The error of an exchange that did not succeed.
pub open spec fn exchange_error<T>(ex: ExchangeModel<T>, phase: Phase) -> SignError {
    match ex {
        ExchangeModel::SendFailed => SignError::SendFailed(phase),
        ExchangeModel::Answered { status, body } => if !is_success(status) {
            SignError::ErrorStatus(phase, status)
        } else {
            SignError::BadBody(phase)
        },
    }
}

/// The poll that follows, for a request being polled.
pub open spec fn next_poll(api_prefix: Seq<char>, key_id: Seq<char>, request_id: Seq<char>) -> ActionModel {
    ActionModel::Poll {
        delay_secs: POLL_DELAY_SECS,
        url: poll_url(api_prefix),
        key_id,
        request_id,
    }
}

/// The outcome once a signature came back and was decoded (or not).
pub open spec fn signature_outcome_spec(key_type: Seq<char>, decoded: Option<Seq<u8>>) -> Result<
    (Seq<char>, Seq<u8>),
    SignError,
> {
    match decoded {
        Some(b) => Ok((key_type, b)),
        None => Err(SignError::InvalidSignature),
    }
}

/// The step taken on the answer to the init call.
pub open spec fn init_step(st: StateModel, ex: ExchangeModel<Seq<char>>) -> (StateModel, ActionModel) {
    match st {
        StateModel::AwaitingInit { key_type, key_id, api_prefix } => match exchange_body(ex) {
            Some(request_id) => (
                StateModel::Polling { key_type, key_id, api_prefix, request_id },
                next_poll(api_prefix, key_id, request_id),
            ),
            None => (StateModel::Done, ActionModel::Finish(Err(exchange_error(ex, Phase::Init)))),
        },
        _ => (StateModel::Done, ActionModel::Finish(Err(exchange_error(ex, Phase::Init)))),
    }
}

/// The step taken on the answer to a poll call.
pub open spec fn poll_step(st: StateModel, ex: ExchangeModel<Option<Seq<char>>>) -> (
    StateModel,
    ActionModel,
) {
    match st {
        StateModel::Polling { key_type, key_id, api_prefix, request_id } => match exchange_body(
            ex,
        ) {
            Some(None) => (st, next_poll(api_prefix, key_id, request_id)),
            Some(Some(sig)) => (
                StateModel::Done,
                ActionModel::Finish(signature_outcome_spec(key_type, b64_decoded(sig))),
            ),
            None => (StateModel::Done, ActionModel::Finish(Err(exchange_error(ex, Phase::Poll)))),
        },
        _ => (StateModel::Done, ActionModel::Finish(Err(exchange_error(ex, Phase::Poll)))),
    }
}

/// The outcome of a request once the remote service returned a signature,
/// from the decoder's answer on it.
pub fn signature_outcome(key_type: String, decoded: Option<Vec<u8>>) -> (r: Result<
    SignResponse,
    SignError,
>)
    ensures
        outcome_view(r) == signature_outcome_spec(
            key_type@,
            match decoded {
                Some(b) => Some(b@),
                None => None,
            },
        ),
{
    match decoded {
        Some(signature) => Ok(SignResponse { algo_name: key_type, signature }),
        None => Err(SignError::InvalidSignature),
    }
}

fn check_exchange<T: View>(ex: Exchange<T>, phase: Phase) -> (r: Result<T, SignError>)
    ensures
        match r {
            Ok(b) => ex matches Exchange::Answered { status, body: Some(b0) } && is_success(status)
                && b == b0,
            Err(e) => exchange_body(ex@) is None && e == exchange_error(ex@, phase),
        },
{
    match ex {
        Exchange::SendFailed => Err(SignError::SendFailed(phase)),
        Exchange::Answered { status, body } => {
            if status < 200 || status > 299 {
                Err(SignError::ErrorStatus(phase, status))
            } else {
                match body {
                    Some(b) => Ok(b),
                    None => Err(SignError::BadBody(phase)),
                }
            }
        },
    }
}

pub(crate) fn url_of(api_prefix: &String, path: &str) -> (r: String)
    ensures
        r@ == api_prefix@ + path@,
{
    let mut url = api_prefix.clone();
    url.append(path);
    url
}

fn poll_action(api_prefix: &String, key_id: &String, request_id: &String) -> (r: SignAction)
    ensures
        r@ == next_poll(api_prefix@, key_id@, request_id@),
{
    let url = url_of(api_prefix, "/v1/auth/poll");
    SignAction::Poll {
        delay_secs: POLL_DELAY_SECS,
        url,
        request: PollAuthRequest { key_id: key_id.clone(), request_id: request_id.clone() },
    }
}

impl SignState {
    /// Moves on from the answer to the init call: poll on success, else fail.
    pub fn on_init_reply(self, reply: Exchange<InitAuthResponse>) -> (r: (SignState, SignAction))
        requires
            self is AwaitingInit,
        ensures
            (r.0@, r.1@) == init_step(self@, reply@),
    {
        match self {
            SignState::AwaitingInit { key_type, key_id, api_prefix } => {
                match check_exchange(reply, Phase::Init) {
                    Ok(resp) => {
                        let action = poll_action(&api_prefix, &key_id, &resp.request_id);
                        (
                            SignState::Polling {
                                key_type,
                                key_id,
                                api_prefix,
                                request_id: resp.request_id,
                            },
                            action,
                        )
                    },
                    Err(e) => (SignState::Done, SignAction::Finish(Err(e))),
                }
            },
            _ => (SignState::Done, SignAction::Finish(Err(SignError::BadBody(Phase::Init)))),
        }
    }

    /// Moves on from the answer to a poll call: poll again while no
    /// signature is there, finish with the decoded signature once it is,
    /// and fail on any error.
    pub fn on_poll_reply(self, reply: Exchange<PollAuthResponse>) -> (r: (SignState, SignAction))
        requires
            self is Polling,
        ensures
            (r.0@, r.1@) == poll_step(self@, reply@),
    {
        match self {
            SignState::Polling { key_type, key_id, api_prefix, request_id } => {
                match check_exchange(reply, Phase::Poll) {
                    Ok(resp) => match resp.signature {
                        None => {
                            let action = poll_action(&api_prefix, &key_id, &request_id);
                            (SignState::Polling { key_type, key_id, api_prefix, request_id }, action)
                        },
                        Some(sig) => {
                            let decoded = b64_decode(sig.as_str());
                            let outcome = signature_outcome(key_type, decoded);
                            (SignState::Done, SignAction::Finish(outcome))
                        },
                    },
                    Err(e) => (SignState::Done, SignAction::Finish(Err(e))),
                }
            },
            _ => (SignState::Done, SignAction::Finish(Err(SignError::BadBody(Phase::Poll)))),
        }
    }
}

/// The state reached and the actions taken when the poll answers come in
/// the given order.
pub open spec fn run_polls(st: StateModel, replies: Seq<ExchangeModel<Option<Seq<char>>>>) -> (
    StateModel,
    Seq<ActionModel>,
)
    decreases replies.len(),
{
    if replies.len() == 0 {
        (st, Seq::empty())
    } else {
        let (mid, acts) = run_polls(st, replies.drop_last());
        let (next, act) = poll_step(mid, replies.last());
        (next, acts.push(act))
    }
}

/// A successful poll answer without a signature yet.
pub open spec fn pending_reply() -> ExchangeModel<Option<Seq<char>>> {
    ExchangeModel::Answered { status: 200, body: Some(None) }
}

/// A successful poll answer that carries a signature.
pub open spec fn signed_reply(sig: Seq<char>) -> ExchangeModel<Option<Seq<char>>> {
    ExchangeModel::Answered { status: 200, body: Some(Some(sig)) }
}

proof fn lemma_pending_polls(
    key_type: Seq<char>,
    key_id: Seq<char>,
    api_prefix: Seq<char>,
    request_id: Seq<char>,
    n: nat,
)
    ensures
        run_polls(
            StateModel::Polling { key_type, key_id, api_prefix, request_id },
            Seq::new(n, |_i: int| pending_reply()),
        ) == (
            StateModel::Polling { key_type, key_id, api_prefix, request_id },
            Seq::new(n, |_i: int| next_poll(api_prefix, key_id, request_id)),
        ),
    decreases n,
{
    let st = StateModel::Polling { key_type, key_id, api_prefix, request_id };
    if n == 0 {
        assert(Seq::new(0, |_i: int| next_poll(api_prefix, key_id, request_id)) =~= Seq::empty());
    } else {
        let replies = Seq::new(n, |_i: int| pending_reply());
        assert(replies.drop_last() =~= Seq::new((n - 1) as nat, |_i: int| pending_reply()));
        lemma_pending_polls(key_type, key_id, api_prefix, request_id, (n - 1) as nat);
        assert(Seq::new((n - 1) as nat, |_i: int| next_poll(api_prefix, key_id, request_id)).push(
            next_poll(api_prefix, key_id, request_id),
        ) =~= Seq::new(n, |_i: int| next_poll(api_prefix, key_id, request_id)));
    }
}

/// Polling ends exactly on the first answer that carries a signature: after
/// `n` answers without one, each followed by another delayed poll, an answer
/// with a valid signature finishes the request with that decoded signature.
pub proof fn lemma_polling_terminates(
    key_type: Seq<char>,
    key_id: Seq<char>,
    api_prefix: Seq<char>,
    request_id: Seq<char>,
    n: nat,
    sig: Seq<char>,
)
    requires
        b64_decoded(sig) is Some,
    ensures
        run_polls(
            StateModel::Polling { key_type, key_id, api_prefix, request_id },
            Seq::new(n, |_i: int| pending_reply()).push(signed_reply(sig)),
        ) == (
            StateModel::Done,
            Seq::new(n, |_i: int| next_poll(api_prefix, key_id, request_id)).push(
                ActionModel::Finish(Ok((key_type, b64_decoded(sig)->0))),
            ),
        ),
{
    let replies = Seq::new(n, |_i: int| pending_reply()).push(signed_reply(sig));
    assert(replies.drop_last() =~= Seq::new(n, |_i: int| pending_reply()));
    lemma_pending_polls(key_type, key_id, api_prefix, request_id, n);
}

} // verus!
