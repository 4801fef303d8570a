use vstd::prelude::*;

verus! {

/// Body of `POST {prefix}/v1/auth/init`.
#[derive(Debug)]
pub struct InitAuthRequest {
    pub key_id: String,
    pub challenge: String,
}

/// Answer to an init call: the handle of the new approval request.
#[derive(Debug)]
pub struct InitAuthResponse {
    pub request_id: String,
}

/// Body of `POST {prefix}/v1/auth/poll`.
#[derive(Debug)]
pub struct PollAuthRequest {
    pub key_id: String,
    pub request_id: String,
}

/// Answer to a poll call: the base64 signature once approved, else nothing.
#[derive(Debug)]
pub struct PollAuthResponse {
    pub signature: Option<String>,
}

impl View for InitAuthResponse {
    type V = Seq<char>;

    open spec fn view(&self) -> Seq<char> {
        self.request_id@
    }
}

impl View for PollAuthResponse {
    type V = Option<Seq<char>>;

    open spec fn view(&self) -> Option<Seq<char>> {
        match self.signature {
            Some(s) => Some(s@),
            None => None,
        }
    }
}

} // verus!
