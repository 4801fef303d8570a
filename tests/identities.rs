use shellkey_authd::ssh::{
    identities_to_text, identity_from_decoded, parse_identities, SshError, SshIdentity,
};

fn ed25519_blob() -> Vec<u8> {
    (0u8..32).collect()
}

#[test]
fn single_ed25519_line() {
    let text = "ssh-ed25519 AAECAwQFBgcICQoLDA0ODxAREhMUFRYXGBkaGxwdHh8=";
    let ids = parse_identities(text).unwrap();
    assert_eq!(ids.len(), 1);
    assert_eq!(ids[0].key_type, "ssh-ed25519");
    assert_eq!(ids[0].key_blob, ed25519_blob());
}

#[test]
fn order_kept_and_comments_ignored() {
    let text = "ssh-rsa AQID first comment\nssh-ed25519 BAUG\n";
    let ids = parse_identities(text).unwrap();
    assert_eq!(ids.len(), 2);
    assert_eq!(ids[0].key_type, "ssh-rsa");
    assert_eq!(ids[0].key_blob, vec![1, 2, 3]);
    assert_eq!(ids[1].key_type, "ssh-ed25519");
    assert_eq!(ids[1].key_blob, vec![4, 5, 6]);
}

#[test]
fn surrounding_whitespace_trimmed() {
    let text = "  \tssh-rsa   AQID \r\n";
    let ids = parse_identities(text).unwrap();
    assert_eq!(ids.len(), 1);
    assert_eq!(ids[0].key_type, "ssh-rsa");
    assert_eq!(ids[0].key_blob, vec![1, 2, 3]);
}

#[test]
fn single_token_line_skipped() {
    let text = "ssh-rsa\nssh-ed25519 AQID\n";
    let ids = parse_identities(text).unwrap();
    assert_eq!(ids.len(), 1);
    assert_eq!(ids[0].key_type, "ssh-ed25519");
}

#[test]
fn empty_input_gives_no_identities() {
    assert_eq!(parse_identities("").unwrap().len(), 0);
    assert_eq!(parse_identities("\n\n   \n").unwrap().len(), 0);
}

#[test]
fn bad_blob_reports_its_line() {
    let text = "ssh-rsa AQID\n\n\nssh-rsa not*base64\nssh-rsa !!!\n";
    assert_eq!(parse_identities(text).unwrap_err(), SshError::BadKeyBlobAtLine(4));
}

#[test]
fn bad_blob_on_first_line() {
    assert_eq!(parse_identities("a b").unwrap_err(), SshError::BadKeyBlobAtLine(1));
}

#[test]
fn text_form_round_trips() {
    let ids = vec![
        SshIdentity { key_type: "ssh-ed25519".to_string(), key_blob: ed25519_blob() },
        SshIdentity { key_type: "ssh-rsa".to_string(), key_blob: vec![255, 0, 7] },
    ];
    let text = identities_to_text(&ids);
    assert_eq!(
        text,
        "ssh-ed25519 AAECAwQFBgcICQoLDA0ODxAREhMUFRYXGBkaGxwdHh8=\nssh-rsa /wAH\n"
    );
    let back = parse_identities(&text).unwrap();
    assert_eq!(back.len(), 2);
    for (a, b) in back.iter().zip(ids.iter()) {
        assert_eq!(a.key_type, b.key_type);
        assert_eq!(a.key_blob, b.key_blob);
    }
}

#[test]
fn identity_from_decoder_answer() {
    let id = identity_from_decoded(3, "ssh-rsa".to_string(), Some(vec![9])).unwrap();
    assert_eq!(id.key_type, "ssh-rsa");
    assert_eq!(id.key_blob, vec![9]);
    assert_eq!(
        identity_from_decoded(3, "ssh-rsa".to_string(), None).unwrap_err(),
        SshError::BadKeyBlobAtLine(3)
    );
}

#[test]
fn tab_separated_line_gives_identity() {
    let ids = parse_identities("ssh-rsa\tAQID").unwrap();
    assert_eq!(ids.len(), 1);
    assert_eq!(ids[0].key_type, "ssh-rsa");
    assert_eq!(ids[0].key_blob, vec![1, 2, 3]);
    let ids = parse_identities("ssh-ed25519 \t BAUG\tcomment\n").unwrap();
    assert_eq!(ids.len(), 1);
    assert_eq!(ids[0].key_type, "ssh-ed25519");
    assert_eq!(ids[0].key_blob, vec![4, 5, 6]);
}

#[test]
fn tab_separated_bad_blob_is_an_error() {
    assert_eq!(
        parse_identities("ssh-rsa AQID\nssh-rsa\t!!!").unwrap_err(),
        SshError::BadKeyBlobAtLine(2)
    );
}

#[test]
fn inserted_one_token_line_changes_nothing() {
    let base = parse_identities("ssh-rsa AQID\nssh-ed25519 BAUG").unwrap();
    for text in [
        "!!!!\nssh-rsa AQID\nssh-ed25519 BAUG",
        "ssh-rsa AQID\nssh-rsa\nssh-ed25519 BAUG",
        "ssh-rsa AQID\nssh-ed25519 BAUG\n  !!!!  ",
    ] {
        let ids = parse_identities(text).unwrap();
        assert_eq!(ids.len(), base.len());
        for (a, b) in ids.iter().zip(base.iter()) {
            assert_eq!(a.key_type, b.key_type);
            assert_eq!(a.key_blob, b.key_blob);
        }
    }
}
