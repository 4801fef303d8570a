use shellkey_authd::protocol::{InitAuthResponse, PollAuthResponse};
use shellkey_authd::session::{
    signature_outcome, Exchange, Phase, SignAction, SignError, SignState, POLL_DELAY_SECS,
};
use shellkey_authd::ssh::{key_id, set_config, Handler, SshConfig, SshIdentity};

const EMPTY_KEY_ID: &str = "47DEQpj8HBSa+/TImW+5JCeuQeRkm5NMpJWZG3hSuFU=";

fn blob() -> Vec<u8> {
    (0u8..32).collect()
}

fn handler() -> Handler {
    let mut h = Handler::new();
    set_config(
        &mut h,
        SshConfig {
            api_prefix: "https://auth.example".to_string(),
            identities: vec![
                SshIdentity { key_type: "ssh-ed25519".to_string(), key_blob: blob() },
                SshIdentity { key_type: "ssh-rsa".to_string(), key_blob: vec![1, 2, 3] },
            ],
        },
    );
    h
}

fn polling() -> SignState {
    SignState::Polling {
        key_type: "ssh-ed25519".to_string(),
        key_id: "kid".to_string(),
        api_prefix: "http://p".to_string(),
        request_id: "r1".to_string(),
    }
}

fn ok_poll(sig: Option<&str>) -> Exchange<PollAuthResponse> {
    Exchange::Answered {
        status: 200,
        body: Some(PollAuthResponse { signature: sig.map(|s| s.to_string()) }),
    }
}

#[test]
fn key_id_is_base64_of_sha256() {
    assert_eq!(key_id(&[]), EMPTY_KEY_ID);
    assert_eq!(key_id(b"abc"), "ungWv48Bz+pBQUDeXa4iI7ADYaOWF3qctBD/YfIAFa0=");
    assert_eq!(key_id(b"abc"), key_id(b"abc"));
    assert_ne!(key_id(b"abc"), key_id(b"abd"));
}

#[test]
fn lists_identities_in_order() {
    let ids = handler().identities();
    assert_eq!(ids.len(), 2);
    assert_eq!(ids[0].key_blob, blob());
    assert_eq!(ids[0].key_comment, "ssh-ed25519");
    assert_eq!(ids[1].key_blob, vec![1, 2, 3]);
    assert_eq!(ids[1].key_comment, "ssh-rsa");
}

#[test]
fn unknown_key_fails_without_remote_call() {
    let (state, action) = handler().sign_request(vec![9, 9], b"data".to_vec(), 0);
    assert!(matches!(state, SignState::Done));
    assert!(matches!(action, SignAction::Finish(Err(SignError::InvalidKey))));
}

#[test]
fn known_key_starts_init_call() {
    let (state, action) = handler().sign_request(vec![1, 2, 3], b"hello".to_vec(), 0);
    match action {
        SignAction::Init { url, request } => {
            assert_eq!(url, "https://auth.example/v1/auth/init");
            assert_eq!(request.key_id, key_id(&[1, 2, 3]));
            assert_eq!(request.challenge, "aGVsbG8=");
        }
        _ => panic!("expected the init call"),
    }
    match state {
        SignState::AwaitingInit { key_type, key_id: kid, api_prefix } => {
            assert_eq!(key_type, "ssh-rsa");
            assert_eq!(kid, key_id(&[1, 2, 3]));
            assert_eq!(api_prefix, "https://auth.example");
        }
        _ => panic!("expected to await the init answer"),
    }
}

#[test]
fn every_listed_key_reaches_init() {
    let h = handler();
    for id in h.identities() {
        let (_, action) = h.sign_request(id.key_blob.clone(), vec![], 0);
        assert!(matches!(action, SignAction::Init { .. }));
    }
}

#[test]
fn init_answer_leads_to_delayed_poll() {
    let (state, _) = handler().sign_request(blob(), vec![1], 0);
    let reply = Exchange::Answered {
        status: 200,
        body: Some(InitAuthResponse { request_id: "req-7".to_string() }),
    };
    let (state, action) = state.on_init_reply(reply);
    assert!(matches!(state, SignState::Polling { .. }));
    match action {
        SignAction::Poll { delay_secs, url, request } => {
            assert_eq!(delay_secs, 3);
            assert_eq!(delay_secs, POLL_DELAY_SECS);
            assert_eq!(url, "https://auth.example/v1/auth/poll");
            assert_eq!(request.request_id, "req-7");
            assert_eq!(request.key_id, key_id(&blob()));
        }
        _ => panic!("expected a poll"),
    }
}

#[test]
fn init_errors() {
    let start = || handler().sign_request(blob(), vec![1], 0).0;
    let (_, a) = start().on_init_reply(Exchange::SendFailed);
    assert!(matches!(a, SignAction::Finish(Err(SignError::SendFailed(Phase::Init)))));
    let (_, a) = start().on_init_reply(Exchange::Answered { status: 404, body: None });
    assert!(matches!(a, SignAction::Finish(Err(SignError::ErrorStatus(Phase::Init, 404)))));
    let (s, a) = start().on_init_reply(Exchange::Answered { status: 200, body: None });
    assert!(matches!(s, SignState::Done));
    assert!(matches!(a, SignAction::Finish(Err(SignError::BadBody(Phase::Init)))));
}

#[test]
fn polls_until_signature() {
    let mut state = polling();
    let mut polls = 0;
    for _ in 0..2 {
        let (s, a) = state.on_poll_reply(ok_poll(None));
        assert!(matches!(a, SignAction::Poll { delay_secs: 3, .. }));
        polls += 1;
        state = s;
    }
    let (s, a) = state.on_poll_reply(ok_poll(Some("AQID")));
    assert_eq!(polls, 2);
    assert!(matches!(s, SignState::Done));
    match a {
        SignAction::Finish(Ok(resp)) => {
            assert_eq!(resp.algo_name, "ssh-ed25519");
            assert_eq!(resp.signature, vec![1, 2, 3]);
        }
        _ => panic!("expected the signature"),
    }
}

#[test]
fn poll_errors() {
    let (_, a) = polling().on_poll_reply(ok_poll(Some("***")));
    assert!(matches!(a, SignAction::Finish(Err(SignError::InvalidSignature))));
    let (_, a) = polling().on_poll_reply(Exchange::Answered { status: 500, body: None });
    assert!(matches!(a, SignAction::Finish(Err(SignError::ErrorStatus(Phase::Poll, 500)))));
    let (_, a) = polling().on_poll_reply(Exchange::SendFailed);
    assert!(matches!(a, SignAction::Finish(Err(SignError::SendFailed(Phase::Poll)))));
    let (_, a) = polling().on_poll_reply(Exchange::Answered { status: 204, body: None });
    assert!(matches!(a, SignAction::Finish(Err(SignError::BadBody(Phase::Poll)))));
}

#[test]
fn signature_outcome_from_decoder_answer() {
    let r = signature_outcome("ssh-rsa".to_string(), Some(vec![7])).unwrap();
    assert_eq!(r.algo_name, "ssh-rsa");
    assert_eq!(r.signature, vec![7]);
    assert_eq!(
        signature_outcome("ssh-rsa".to_string(), None).unwrap_err(),
        SignError::InvalidSignature
    );
}

#[test]
fn one_line_file_scenario() {
    let text = "ssh-ed25519 AAECAwQFBgcICQoLDA0ODxAREhMUFRYXGBkaGxwdHh8=\n";
    let identities = shellkey_authd::ssh::parse_identities(text).unwrap();
    let mut h = Handler::new();
    set_config(&mut h, SshConfig { api_prefix: "http://p".to_string(), identities });
    let listed = h.identities();
    assert_eq!(listed.len(), 1);
    assert_eq!(listed[0].key_blob, blob());
    assert_eq!(listed[0].key_comment, "ssh-ed25519");
    let mut other = blob();
    other[0] = 1;
    let (state, action) = h.sign_request(other, b"challenge".to_vec(), 0);
    assert!(matches!(state, SignState::Done));
    assert!(matches!(action, SignAction::Finish(Err(SignError::InvalidKey))));
}
