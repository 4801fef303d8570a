//! A signing agent whose private keys stay with a remote approval service.
//!
//! `ssh` loads the identity file and answers the agent's two questions
//! (which identities, and sign with which key); `session` is the state
//! machine that carries one signing request through the remote init and
//! poll calls; `protocol` holds the bodies of those calls; `text` models
//! the line and token structure of the identity file; `codec` holds the
//! base64 and SHA-256 calls the logic relies on.
use vstd::prelude::*;

verus! {

} // verus!

pub mod codec;
pub mod protocol;
pub mod session;
pub mod ssh;
pub mod text;
