use vstd::prelude::*;
use crate::codec::{is_b64_char, b64_decode, b64_decoded, b64_encode, b64_encoded, sha256, sha256_of};
use crate::protocol::InitAuthRequest;
use crate::session::{init_url, url_of, ActionModel, SignAction, SignError, SignState, StateModel};
use crate::text::{
    is_ws, split, split_acc, split_tokens, tokens, tokens_acc, trim, trim_bounds, trim_end, trim_start,
};

verus! {

/// Why the identity file could not be loaded.
#[derive(Debug, Clone, Copy, PartialEq, Eq, Structural)]
pub enum SshError {
    /// The key blob on this line (counted from 1) is not valid base64.
    BadKeyBlobAtLine(usize),
}

/// A known public key: its type label and its wire-encoded blob.
#[derive(Debug)]
pub struct SshIdentity {
    pub key_type: String,
    pub key_blob: Vec<u8>,
}

impl View for SshIdentity {
    type V = (Seq<char>, Seq<u8>);

    open spec fn view(&self) -> (Seq<char>, Seq<u8>) {
        (self.key_type@, self.key_blob@)
    }
}

/// The identities that a sequence of identities stands for.
pub open spec fn identities_view(v: Seq<SshIdentity>) -> Seq<(Seq<char>, Seq<u8>)> {
    v.map_values(|x: SshIdentity| x@)
}

/// What one line (numbered from 1) contributes: nothing when it has fewer
/// than two tokens, an identity when its second token decodes, else the
/// error for that line.
pub open spec fn line_outcome(line: Seq<char>, line_no: nat) -> Result<
    Option<(Seq<char>, Seq<u8>)>,
    nat,
> {
    let t = tokens(trim(line));
    if t.len() < 2 {
        Ok(None)
    } else {
        match b64_decoded(t[1]) {
            Some(b) => Ok(Some((t[0], b))),
            None => Err(line_no),
        }
    }
}

/// The outcome of reading the first `n` lines.
pub open spec fn parse_lines(ls: Seq<Seq<char>>, n: nat) -> Result<
    Seq<(Seq<char>, Seq<u8>)>,
    nat,
>
    decreases n,
{
    if n == 0 {
        Ok(Seq::empty())
    } else {
        match parse_lines(ls, (n - 1) as nat) {
            Err(k) => Err(k),
            Ok(ids) => match line_outcome(ls[n - 1], n) {
                Err(k) => Err(k),
                Ok(None) => Ok(ids),
                Ok(Some(id)) => Ok(ids.push(id)),
            },
        }
    }
}

/// The identities an identity file holds, in file order, or the number of
/// the first line whose key blob does not decode.
pub open spec fn parse_spec(text: Seq<char>) -> Result<Seq<(Seq<char>, Seq<u8>)>, nat> {
    parse_lines(split(text, '\n'), split(text, '\n').len())
}

/// Builds the identity of a line from its key type and the decoder's
/// answer on its key blob.
pub fn identity_from_decoded(line_no: usize, key_type: String, decoded: Option<Vec<u8>>) -> (r:
    Result<SshIdentity, SshError>)
    ensures
        match decoded {
            Some(b) => r matches Ok(id) && id.key_type@ == key_type@ && id.key_blob@ == b@,
            None => r == Err::<SshIdentity, SshError>(SshError::BadKeyBlobAtLine(line_no)),
        },
{
    match decoded {
        Some(b) => Ok(SshIdentity { key_type, key_blob: b }),
        None => Err(SshError::BadKeyBlobAtLine(line_no)),
    }
}

fn parse_line(line: &str, line_no: usize) -> (r: Result<Option<SshIdentity>, SshError>)
    ensures
        match line_outcome(line@, line_no as nat) {
            Ok(None) => r matches Ok(None),
            Ok(Some(id)) => r matches Ok(Some(x)) && x@ == id,
            Err(k) => r == Err::<Option<SshIdentity>, SshError>(
                SshError::BadKeyBlobAtLine(line_no),
            ) && k == line_no,
        },
{
    let (a, b) = trim_bounds(line);
    let toks = split_tokens(line.substring_char(a, b));
    if toks.len() < 2 {
        return Ok(None);
    }
    let key_type = toks[0].clone();
    let decoded = b64_decode(toks[1].as_str());
    match identity_from_decoded(line_no, key_type, decoded) {
        Ok(id) => Ok(Some(id)),
        Err(e) => Err(e),
    }
}

proof fn lemma_parse_lines_prefix(ls: Seq<Seq<char>>, ms: Seq<Seq<char>>, n: nat)
    requires
        n <= ls.len(),
        n <= ms.len(),
        forall|j: int| 0 <= j < n ==> ls[j] == ms[j],
    ensures
        parse_lines(ls, n) == parse_lines(ms, n),
    decreases n,
{
    if n > 0 {
        lemma_parse_lines_prefix(ls, ms, (n - 1) as nat);
    }
}

proof fn lemma_split_acc_len(s: Seq<char>, sep: char)
    ensures
        split_acc(s, sep).0.len() <= s.len(),
    decreases s.len(),
{
    if s.len() > 0 {
        lemma_split_acc_len(s.drop_last(), sep);
    }
}

/// Reads an identity file: one `<key_type> <base64 blob> [ignored...]` per
/// line; lines with fewer than two tokens are skipped, and the first line
/// whose blob does not decode fails the whole file.
pub fn parse_identities(input: &str) -> (r: Result<Vec<SshIdentity>, SshError>)
    requires
        input@.len() < usize::MAX,
    ensures
        match parse_spec(input@) {
            Ok(ids) => r matches Ok(v) && identities_view(v@) == ids,
            Err(k) => r == Err::<Vec<SshIdentity>, SshError>(
                SshError::BadKeyBlobAtLine(k as usize),
            ),
        },
{
    let n = input.unicode_len();
    let mut out: Vec<SshIdentity> = Vec::new();
    let mut failed: Option<usize> = None;
    let ghost mut done: Seq<Seq<char>> = Seq::empty();
    let mut lines: usize = 0;
    let mut start: usize = 0;
    let mut i: usize = 0;
    proof {
        assert(identities_view(out@) =~= Seq::empty());
    }
    while i <= n
        invariant
            n == input@.len(),
            n < usize::MAX,
            start <= i <= n + 1,
            lines == done.len(),
            i <= n ==> split_acc(input@.take(i as int), '\n') == (
                done,
                input@.subrange(start as int, i as int),
            ),
            i > n ==> done == split(input@, '\n'),
            match failed {
                None => parse_lines(done, done.len()) == Ok::<Seq<(Seq<char>, Seq<u8>)>, nat>(
                    identities_view(out@),
                ),
                Some(k) => parse_lines(done, done.len()) == Err::<
                    Seq<(Seq<char>, Seq<u8>)>,
                    nat,
                >(k as nat),
            },
        decreases n + 1 - i,
    {
        proof {
            if i <= n {
                lemma_split_acc_len(input@.take(i as int), '\n');
            }
        }
        if i == n || input.get_char(i) == '\n' {
            let ghost prev = done;
            let line = input.substring_char(start, i);
            lines = lines + 1;
            proof {
                if i < n {
                    assert(input@.take(i + 1).drop_last() =~= input@.take(i as int));
                } else {
                    assert(input@.take(i as int) =~= input@);
                }
                done = done.push(input@.subrange(start as int, i as int));
                lemma_parse_lines_prefix(done, prev, prev.len());
            }
            if failed.is_none() {
                match parse_line(line, lines) {
                    Err(_) => {
                        failed = Some(lines);
                    },
                    Ok(None) => {},
                    Ok(Some(id)) => {
                        let ghost before = out@;
                        out.push(id);
                        proof {
                            assert(identities_view(out@) =~= identities_view(before).push(
                                out@.last()@,
                            ));
                        }
                    },
                }
            }
            start = i + 1;
        } else {
            proof {
                assert(input@.take(i + 1).drop_last() =~= input@.take(i as int));
                assert(input@.subrange(start as int, i as int).push(input@[i as int])
                    =~= input@.subrange(start as int, i + 1));
            }
        }
        i = i + 1;
    }
    match failed {
        Some(k) => Err(SshError::BadKeyBlobAtLine(k)),
        None => Ok(out),
    }
}

/// The process configuration: the remote service's base address and the
/// identities offered to clients.
#[derive(Debug)]
pub struct SshConfig {
    pub api_prefix: String,
    pub identities: Vec<SshIdentity>,
}

/// An identity as listed to agent clients: key blob and comment.
#[derive(Debug)]
pub struct AgentIdentity {
    pub key_blob: Vec<u8>,
    pub key_comment: String,
}

/// The key identifier shared with the remote service: the base64 text of
/// the SHA-256 digest of the public key blob.
pub open spec fn key_id_spec(pubkey: Seq<u8>) -> Seq<char> {
    b64_encoded(sha256_of(pubkey))
}

/// Computes the key identifier of a public key blob.
pub fn key_id(pubkey: &[u8]) -> (r: String)
    ensures
        r@ == key_id_spec(pubkey@),
{
    let digest = sha256(pubkey);
    b64_encode(digest.as_slice())
}

/// The same public key always yields the same key identifier.
pub proof fn lemma_key_id_deterministic(a: Seq<u8>, b: Seq<u8>)
    requires
        a == b,
    ensures
        key_id_spec(a) == key_id_spec(b),
{
}

/// Among the first `n` identities, the index of the first whose blob is
/// `blob`.
pub open spec fn find_first(ids: Seq<(Seq<char>, Seq<u8>)>, blob: Seq<u8>, n: nat) -> Option<int>
    decreases n,
{
    if n == 0 {
        None
    } else {
        match find_first(ids, blob, (n - 1) as nat) {
            Some(i) => Some(i),
            None => if ids[n - 1].1 == blob {
                Some(n - 1)
            } else {
                None
            },
        }
    }
}

/// The index of the first identity whose blob is `blob`.
pub open spec fn lookup(ids: Seq<(Seq<char>, Seq<u8>)>, blob: Seq<u8>) -> Option<int> {
    find_first(ids, blob, ids.len())
}

/// How a signing request starts: with the init call for the first identity
/// whose blob is the requested key, or failing as an invalid key.
pub open spec fn sign_start(
    ids: Seq<(Seq<char>, Seq<u8>)>,
    api_prefix: Seq<char>,
    pubkey: Seq<u8>,
    data: Seq<u8>,
) -> (StateModel, ActionModel) {
    match lookup(ids, pubkey) {
        None => (StateModel::Done, ActionModel::Finish(Err(SignError::InvalidKey))),
        Some(i) => (
            StateModel::AwaitingInit {
                key_type: ids[i].0,
                key_id: key_id_spec(pubkey),
                api_prefix,
            },
            ActionModel::Init {
                url: init_url(api_prefix),
                key_id: key_id_spec(pubkey),
                challenge: b64_encoded(data),
            },
        ),
    }
}

proof fn lemma_find_first(ids: Seq<(Seq<char>, Seq<u8>)>, blob: Seq<u8>, n: nat)
    requires
        n <= ids.len(),
    ensures
        match find_first(ids, blob, n) {
            Some(i) => 0 <= i < n && ids[i].1 == blob && forall|j: int|
                0 <= j < i ==> ids[j].1 != blob,
            None => forall|j: int| 0 <= j < n ==> ids[j].1 != blob,
        },
    decreases n,
{
    if n > 0 {
        lemma_find_first(ids, blob, (n - 1) as nat);
    }
}

/// Every listed identity's blob starts the remote exchange, and a blob
/// that no identity has fails as an invalid key before any remote call.
pub proof fn lemma_lookup_totality(
    ids: Seq<(Seq<char>, Seq<u8>)>,
    api_prefix: Seq<char>,
    pubkey: Seq<u8>,
    data: Seq<u8>,
)
    ensures
        (exists|i: int| 0 <= i < ids.len() && ids[i].1 == pubkey) ==> sign_start(
            ids,
            api_prefix,
            pubkey,
            data,
        ).1 is Init,
        (forall|i: int| 0 <= i < ids.len() ==> ids[i].1 != pubkey) ==> sign_start(
            ids,
            api_prefix,
            pubkey,
            data,
        ) == (StateModel::Done, ActionModel::Finish(Err(SignError::InvalidKey))),
{
    lemma_find_first(ids, pubkey, ids.len());
}

fn same_bytes(a: &[u8], b: &[u8]) -> (r: bool)
    ensures
        r == (a@ == b@),
{
    if a.len() != b.len() {
        return false;
    }
    let mut i: usize = 0;
    while i < a.len()
        invariant
            a@.len() == b@.len(),
            i <= a@.len(),
            forall|j: int| 0 <= j < i ==> a@[j] == b@[j],
        decreases a@.len() - i,
    {
        if a[i] != b[i] {
            return false;
        }
        i = i + 1;
    }
    assert(a@ =~= b@);
    true
}

/// Answers agent requests from a configuration published once, before it
/// serves.
pub struct Handler {
    config: Option<SshConfig>,
}

impl Handler {
    /// A handler whose configuration is not set yet.
    pub fn new() -> (r: Handler)
        ensures
            r.config() is None,
    {
        Handler { config: None }
    }

    /// The configuration, once set.
    pub closed spec fn config(&self) -> Option<SshConfig> {
        self.config
    }

    /// The identities offered to clients, as blob and comment (the key
    /// type), in file order.
    pub fn identities(&self) -> (r: Vec<AgentIdentity>)
        requires
            self.config() is Some,
        ensures
            r@.len() == self.config()->0.identities@.len(),
            forall|i: int|
                0 <= i < r@.len() ==> #[trigger] r@[i].key_blob@
                    == self.config()->0.identities@[i].key_blob@ && r@[i].key_comment@
                    == self.config()->0.identities@[i].key_type@,
    {
        let config = self.config.as_ref().unwrap();
        let mut out: Vec<AgentIdentity> = Vec::new();
        let mut i: usize = 0;
        while i < config.identities.len()
            invariant
                self.config() == Some(*config),
                i <= config.identities@.len(),
                out@.len() == i,
                forall|j: int|
                    0 <= j < i ==> #[trigger] out@[j].key_blob@ == config.identities@[j].key_blob@
                        && out@[j].key_comment@ == config.identities@[j].key_type@,
            decreases config.identities@.len() - i,
        {
            let id = &config.identities[i];
            let blob = id.key_blob.clone();
            proof {
                assert(blob@ =~= id.key_blob@);
            }
            out.push(AgentIdentity { key_blob: blob, key_comment: id.key_type.clone() });
            i = i + 1;
        }
        out
    }

    /// Starts a signing request for `data` with the key `pubkey`: finds
    /// the identity and yields the init call, or fails as an invalid key.
    pub fn sign_request(&self, pubkey: Vec<u8>, data: Vec<u8>, _flags: u32) -> (r: (
        SignState,
        SignAction,
    ))
        requires
            self.config() is Some,
        ensures
            (r.0@, r.1@) == sign_start(
                identities_view(self.config()->0.identities@),
                self.config()->0.api_prefix@,
                pubkey@,
                data@,
            ),
    {
        let config = self.config.as_ref().unwrap();
        let ghost ids = identities_view(config.identities@);
        let mut i: usize = 0;
        while i < config.identities.len()
            invariant
                self.config() == Some(*config),
                ids == identities_view(config.identities@),
                i <= config.identities@.len(),
                find_first(ids, pubkey@, i as nat) is None,
            decreases config.identities@.len() - i,
        {
            if same_bytes(config.identities[i].key_blob.as_slice(), pubkey.as_slice()) {
                let key_type = config.identities[i].key_type.clone();
                let key_id = key_id(pubkey.as_slice());
                let url = url_of(&config.api_prefix, "/v1/auth/init");
                let challenge = b64_encode(data.as_slice());
                proof {
                    assert(find_first(ids, pubkey@, (i + 1) as nat) == Some(i as int));
                    assert(ids[i as int].0 == key_type@);
                    lemma_find_first_stays(ids, pubkey@, (i + 1) as nat, ids.len());
                }
                let action = SignAction::Init {
                    url,
                    request: InitAuthRequest { key_id: key_id.clone(), challenge },
                };
                return (
                    SignState::AwaitingInit {
                        key_type,
                        key_id,
                        api_prefix: config.api_prefix.clone(),
                    },
                    action,
                );
            }
            i = i + 1;
        }
        (SignState::Done, SignAction::Finish(Err(SignError::InvalidKey)))
    }
}

proof fn lemma_find_first_stays(ids: Seq<(Seq<char>, Seq<u8>)>, blob: Seq<u8>, m: nat, n: nat)
    requires
        m <= n,
        find_first(ids, blob, m) is Some,
    ensures
        find_first(ids, blob, n) == find_first(ids, blob, m),
    decreases n - m,
{
    if m < n {
        lemma_find_first_stays(ids, blob, m, (n - 1) as nat);
    }
}

/// Publishes the configuration to the handler, once, before it serves.
pub fn set_config(handler: &mut Handler, config: SshConfig)
    requires
        old(handler).config() is None,
    ensures
        final(handler).config() == Some(config),
{
    handler.config = Some(config);
}

/// An identity that the text form can hold: a non-empty key type without
/// whitespace and a non-empty key blob.
pub open spec fn well_formed(id: (Seq<char>, Seq<u8>)) -> bool {
    &&& id.0.len() > 0
    &&& forall|i: int| 0 <= i < id.0.len() ==> !is_ws(#[trigger] id.0[i])
    &&& id.1.len() > 0
}

/// The text line of an identity: key type, one space, base64 blob.
pub open spec fn identity_line(id: (Seq<char>, Seq<u8>)) -> Seq<char> {
    id.0 + seq![' '] + b64_encoded(id.1)
}

/// The text form of identities: one line each, each ended by a newline.
pub open spec fn identities_text(ids: Seq<(Seq<char>, Seq<u8>)>) -> Seq<char>
    decreases ids.len(),
{
    if ids.len() == 0 {
        Seq::empty()
    } else {
        identities_text(ids.drop_last()) + identity_line(ids.last()) + seq!['\n']
    }
}

/// What the base64 encoder is known to yield for `b`.
spec fn encoding_known(b: Seq<u8>) -> bool {
    &&& b64_decoded(b64_encoded(b)) == Some(b)
    &&& b64_encoded(b).len() == 4 * ((b.len() + 2) / 3)
    &&& forall|k: int| 0 <= k < b64_encoded(b).len() ==> is_b64_char(#[trigger] b64_encoded(b)[k])
}

proof fn lemma_split_acc_append(s: Seq<char>, x: Seq<char>, sep: char)
    requires
        forall|k: int| 0 <= k < x.len() ==> #[trigger] x[k] != sep,
    ensures
        split_acc(s + x, sep) == (split_acc(s, sep).0, split_acc(s, sep).1 + x),
    decreases x.len(),
{
    if x.len() == 0 {
        assert(s + x =~= s);
        assert(split_acc(s, sep).1 + x =~= split_acc(s, sep).1);
    } else {
        assert((s + x).drop_last() =~= s + x.drop_last());
        lemma_split_acc_append(s, x.drop_last(), sep);
        assert(split_acc(s, sep).1 + x.drop_last() + seq![x.last()] =~= split_acc(s, sep).1 + x);
    }
}

proof fn lemma_tokens_acc_append(s: Seq<char>, x: Seq<char>)
    requires
        forall|k: int| 0 <= k < x.len() ==> !is_ws(#[trigger] x[k]),
    ensures
        tokens_acc(s + x) == (tokens_acc(s).0, tokens_acc(s).1 + x),
    decreases x.len(),
{
    if x.len() == 0 {
        assert(s + x =~= s);
        assert(tokens_acc(s).1 + x =~= tokens_acc(s).1);
    } else {
        assert((s + x).drop_last() =~= s + x.drop_last());
        lemma_tokens_acc_append(s, x.drop_last());
        assert(tokens_acc(s).1 + x.drop_last() + seq![x.last()] =~= tokens_acc(s).1 + x);
    }
}

proof fn lemma_line_outcome(id: (Seq<char>, Seq<u8>), line_no: nat)
    requires
        well_formed(id),
        encoding_known(id.1),
    ensures
        line_outcome(identity_line(id), line_no) == Ok::<
            Option<(Seq<char>, Seq<u8>)>,
            nat,
        >(Some(id)),
{
    let t = id.0;
    let e = b64_encoded(id.1);
    let line = identity_line(id);
    assert(e.len() > 0);
    assert(!is_ws(line[0]));
    assert(line.last() == e.last());
    assert(is_b64_char(e[e.len() - 1]));
    assert(trim_start(line) == line);
    assert(trim_end(line) == line);
    assert forall|k: int| 0 <= k < e.len() implies !is_ws(#[trigger] e[k]) by {
        assert(is_b64_char(e[k]));
    }
    lemma_tokens_acc_append(Seq::empty(), t);
    assert(Seq::<char>::empty() + t =~= t);
    let ts = t + seq![' '];
    assert(ts.drop_last() =~= t);
    lemma_tokens_acc_append(ts, e);
    assert(ts + e =~= line);
    assert(tokens(trim(line)) =~= seq![t, e]);
}

proof fn lemma_parse_text(ids: Seq<(Seq<char>, Seq<u8>)>)
    requires
        forall|j: int| 0 <= j < ids.len() ==> well_formed(#[trigger] ids[j]),
        forall|j: int| 0 <= j < ids.len() ==> encoding_known(#[trigger] ids[j].1),
    ensures
        split_acc(identities_text(ids), '\n') == (
            Seq::new(ids.len(), |j: int| identity_line(ids[j])),
            Seq::<char>::empty(),
        ),
        parse_lines(split(identities_text(ids), '\n'), ids.len()) == Ok::<
            Seq<(Seq<char>, Seq<u8>)>,
            nat,
        >(ids),
    decreases ids.len(),
{
    let lines = Seq::new(ids.len(), |j: int| identity_line(ids[j]));
    if ids.len() == 0 {
        assert(lines =~= Seq::empty());
        assert(ids =~= Seq::empty());
    } else {
        let prev = ids.drop_last();
        let id = ids.last();
        assert(well_formed(ids[ids.len() - 1]));
        assert(encoding_known(ids[ids.len() - 1].1));
        lemma_parse_text(prev);
        let pt = identities_text(prev);
        let line = identity_line(id);
        let e = b64_encoded(id.1);
        assert forall|k: int| 0 <= k < line.len() implies #[trigger] line[k] != '\n' by {
            if k < id.0.len() {
                assert(!is_ws(id.0[k]));
            } else if k > id.0.len() {
                assert(is_b64_char(e[k - id.0.len() - 1]));
            }
        }
        lemma_split_acc_append(pt, line, '\n');
        let full = pt + line + seq!['\n'];
        assert(full.drop_last() =~= pt + line);
        assert(Seq::<char>::empty() + line =~= line);
        let plines = Seq::new(prev.len(), |j: int| identity_line(prev[j]));
        assert(plines.push(line) =~= lines);
        let sp = split(identities_text(ids), '\n');
        let sprev = split(pt, '\n');
        assert(sp.len() == ids.len() + 1);
        assert forall|j: int| 0 <= j < prev.len() implies sp[j] == sprev[j] by {}
        lemma_parse_lines_prefix(sp, sprev, prev.len());
        lemma_line_outcome(id, ids.len());
        assert(prev.push(id) =~= ids);
    }
}

proof fn lemma_parse_round_trip(ids: Seq<(Seq<char>, Seq<u8>)>)
    requires
        forall|j: int| 0 <= j < ids.len() ==> well_formed(#[trigger] ids[j]),
        forall|j: int| 0 <= j < ids.len() ==> encoding_known(#[trigger] ids[j].1),
    ensures
        parse_spec(identities_text(ids)) == Ok::<Seq<(Seq<char>, Seq<u8>)>, nat>(ids),
{
    lemma_parse_text(ids);
    let sp = split(identities_text(ids), '\n');
    assert(sp.len() == ids.len() + 1);
    assert(sp[ids.len() as int] == Seq::<char>::empty());
    assert(trim_start(Seq::<char>::empty()) == Seq::<char>::empty());
    assert(trim_end(Seq::<char>::empty()) == Seq::<char>::empty());
    assert(tokens(Seq::<char>::empty()) =~= Seq::<Seq<char>>::empty());
}

/// Writes identities as text, one `<key_type> <base64 blob>` line each;
/// reading that text back gives the same identities wherever each is
/// well formed.
pub fn identities_to_text(ids: &Vec<SshIdentity>) -> (r: String)
    ensures
        r@ == identities_text(identities_view(ids@)),
        (forall|j: int| 0 <= j < ids@.len() ==> well_formed(#[trigger] ids@[j]@)) ==> parse_spec(
            r@,
        ) == Ok::<Seq<(Seq<char>, Seq<u8>)>, nat>(identities_view(ids@)),
{
    let mut out = String::new();
    let mut i: usize = 0;
    while i < ids.len()
        invariant
            i <= ids@.len(),
            out@ == identities_text(identities_view(ids@).take(i as int)),
            forall|j: int| 0 <= j < i ==> encoding_known(#[trigger] ids@[j].key_blob@),
        decreases ids@.len() - i,
    {
        let id = &ids[i];
        let ghost before = out@;
        proof {
            reveal_strlit(" ");
            reveal_strlit("\n");
        }
        out.append(id.key_type.as_str());
        out.append(" ");
        let enc = b64_encode(id.key_blob.as_slice());
        out.append(enc.as_str());
        out.append("\n");
        proof {
            let v = identities_view(ids@);
            assert(v.take(i + 1).drop_last() =~= v.take(i as int));
            assert(v.take(i + 1).last() == id@);
            assert(out@ =~= before + identity_line(id@) + seq!['\n']);
            assert(identities_text(v.take(i + 1)) =~= identities_text(v.take(i as int))
                + identity_line(id@) + seq!['\n']);
        }
        i = i + 1;
    }
    proof {
        let v = identities_view(ids@);
        assert(v.take(ids@.len() as int) =~= v);
        if forall|j: int| 0 <= j < ids@.len() ==> well_formed(#[trigger] ids@[j]@) {
            assert forall|j: int| 0 <= j < v.len() implies well_formed(#[trigger] v[j]) by {
                assert(well_formed(ids@[j]@));
            }
            assert forall|j: int| 0 <= j < v.len() implies encoding_known(#[trigger] v[j].1) by {
                assert(encoding_known(ids@[j].key_blob@));
            }
            lemma_parse_round_trip(v);
        }
    }
    out
}

/// A line with fewer than two tokens adds no identity and no error.
pub proof fn lemma_short_line_skipped(ls: Seq<Seq<char>>, n: nat)
    requires
        1 <= n <= ls.len(),
        tokens(trim(ls[n - 1])).len() < 2,
    ensures
        parse_lines(ls, n) == parse_lines(ls, (n - 1) as nat),
{
}

proof fn lemma_parse_lines_err_stays(ls: Seq<Seq<char>>, m: nat, n: nat, k: nat)
    requires
        m <= n,
        parse_lines(ls, m) == Err::<Seq<(Seq<char>, Seq<u8>)>, nat>(k),
    ensures
        parse_lines(ls, n) == Err::<Seq<(Seq<char>, Seq<u8>)>, nat>(k),
    decreases n - m,
{
    if m < n {
        lemma_parse_lines_err_stays(ls, m, (n - 1) as nat, k);
    }
}

/// When line `k` (counted from 1, blank lines included) is the first whose
/// second token is not valid base64, reading the text fails with `k`.
pub proof fn lemma_line_number_fidelity(text: Seq<char>, k: nat)
    requires
        1 <= k <= split(text, '\n').len(),
        tokens(trim(split(text, '\n')[k - 1])).len() >= 2,
        b64_decoded(tokens(trim(split(text, '\n')[k - 1]))[1]) is None,
        forall|j: int| 0 <= j < k - 1 ==> line_outcome(#[trigger] split(text, '\n')[j], (j + 1) as nat) is Ok,
    ensures
        parse_spec(text) == Err::<Seq<(Seq<char>, Seq<u8>)>, nat>(k),
{
    let ls = split(text, '\n');
    lemma_prefix_ok(ls, (k - 1) as nat);
    lemma_parse_lines_err_stays(ls, k, ls.len(), k);
}

proof fn lemma_prefix_ok(ls: Seq<Seq<char>>, m: nat)
    requires
        m <= ls.len(),
        forall|j: int| 0 <= j < m ==> line_outcome(#[trigger] ls[j], (j + 1) as nat) is Ok,
    ensures
        parse_lines(ls, m) is Ok,
    decreases m,
{
    if m > 0 {
        lemma_prefix_ok(ls, (m - 1) as nat);
        assert(line_outcome(ls[m - 1], m) is Ok);
    }
}

proof fn lemma_ok_prefix(ls: Seq<Seq<char>>, m: nat, n: nat)
    requires
        m <= n,
        parse_lines(ls, n) is Ok,
    ensures
        parse_lines(ls, m) is Ok,
{
    if parse_lines(ls, m) is Err {
        lemma_parse_lines_err_stays(ls, m, n, parse_lines(ls, m)->Err_0);
    }
}

proof fn lemma_inserted_lines(ls: Seq<Seq<char>>, j: int, line: Seq<char>, m: nat)
    requires
        0 <= j <= ls.len(),
        j <= m <= ls.len(),
        tokens(trim(line)).len() < 2,
        parse_lines(ls, m) is Ok,
    ensures
        parse_lines(ls.insert(j, line), m + 1) == parse_lines(ls, m),
    decreases m,
{
    let ls2 = ls.insert(j, line);
    if m == j {
        lemma_parse_lines_prefix(ls2, ls, m);
    } else {
        lemma_ok_prefix(ls, (m - 1) as nat, m);
        lemma_inserted_lines(ls, j, line, (m - 1) as nat);
        assert(ls2[m as int] == ls[m - 1]);
    }
}

/// Inserting a line that holds fewer than two tokens (a lone key type, any
/// single word, or nothing) anywhere in a file that reads without error
/// leaves what it reads unchanged.
pub proof fn lemma_short_line_inserted(s: Seq<char>, s2: Seq<char>, j: int, line: Seq<char>)
    requires
        parse_spec(s) is Ok,
        0 <= j <= split(s, '\n').len(),
        split(s2, '\n') == split(s, '\n').insert(j, line),
        tokens(trim(line)).len() < 2,
    ensures
        parse_spec(s2) == parse_spec(s),
{
    lemma_inserted_lines(split(s, '\n'), j, line, split(s, '\n').len());
}

} // verus!
