//! Events before and after signing, their canonical JSON, and the internal
//! signer that holds a secret key and signs and encrypts through nostr.
use vstd::prelude::*;
use crate::error::CoreError;
use crate::json::{decode_event_extra, decode_event_fields, json_event_extra, json_event_fields, json_quoted, quote_json, raw_tags_view};
use crate::text::{hex_encode, hex_text, int_text, push_int};

verus! {

/// An event to be signed.
#[derive(Debug, Clone)]
pub struct UnsignedEvent {
    pub kind: u16,
    pub content: String,
    pub tags: Vec<Vec<String>>,
    pub created_at: i64,
}

/// A signed event.
#[derive(Debug, Clone)]
pub struct SignedEvent {
    pub id: String,
    pub pubkey: String,
    pub created_at: i64,
    pub kind: u16,
    pub tags: Vec<Vec<String>>,
    pub content: String,
    pub sig: String,
}

pub open spec fn strings_view(v: Seq<String>) -> Seq<Seq<char>> {
    v.map_values(|s: String| s@)
}

pub open spec fn tags_view(t: Seq<Vec<String>>) -> Seq<Seq<Seq<char>>> {
    t.map_values(|v: Vec<String>| strings_view(v@))
}

/// The JSON string literals of `v`, separated by commas.
pub open spec fn quoted_list(v: Seq<Seq<char>>) -> Seq<char>
    decreases v.len(),
{
    if v.len() == 0 {
        Seq::empty()
    } else if v.len() == 1 {
        json_quoted(v[0])
    } else {
        quoted_list(v.drop_last()) + ","@ + json_quoted(v.last())
    }
}

/// The JSON arrays of the tags, separated by commas.
pub open spec fn tag_list(t: Seq<Seq<Seq<char>>>) -> Seq<char>
    decreases t.len(),
{
    if t.len() == 0 {
        Seq::empty()
    } else if t.len() == 1 {
        "["@ + quoted_list(t[0]) + "]"@
    } else {
        tag_list(t.drop_last()) + ","@ + ("["@ + quoted_list(t.last()) + "]"@)
    }
}

/// The JSON array of the tags.
pub open spec fn tags_text(t: Seq<Seq<Seq<char>>>) -> Seq<char> {
    "["@ + tag_list(t) + "]"@
}

/// The JSON object of a signed event, members in sorted order.
pub open spec fn signed_event_text(e: SignedEvent) -> Seq<char> {
    event_text(e.id@, e.pubkey@, e.created_at as int, e.kind as int, tags_view(e.tags@), e.content@, e.sig@)
}

/// The JSON object of a signed event given by its fields.
pub open spec fn event_text(
    id: Seq<char>,
    pubkey: Seq<char>,
    created_at: int,
    kind: int,
    tags: Seq<Seq<Seq<char>>>,
    content: Seq<char>,
    sig: Seq<char>,
) -> Seq<char> {
    "{\"content\":"@ + json_quoted(content)
        + ",\"created_at\":"@ + int_text(created_at)
        + ",\"id\":"@ + json_quoted(id)
        + ",\"kind\":"@ + int_text(kind)
        + ",\"pubkey\":"@ + json_quoted(pubkey)
        + ",\"sig\":"@ + json_quoted(sig)
        + ",\"tags\":"@ + tags_text(tags)
        + "}"@
}

/// Whether the text is 64 lowercase hex digits.
pub open spec fn is_hex64(s: Seq<char>) -> bool {
    s.len() == 64 && forall|i: int| 0 <= i < 64 ==> ('0' <= #[trigger] s[i] <= '9' || 'a' <= s[i] <= 'f')
}

fn push_quoted_list(s: &mut String, v: &Vec<String>)
    ensures
        final(s)@ == old(s)@ + quoted_list(strings_view(v@)),
{
    let ghost start = s@;
    let ghost full = strings_view(v@);
    let mut i: usize = 0;
    while i < v.len()
        invariant
            i <= v@.len(),
            full == strings_view(v@),
            s@ == start + quoted_list(full.take(i as int)),
        decreases v@.len() - i,
    {
        let ghost pre = full.take(i as int);
        let ghost nxt = full.take(i as int + 1);
        assert(nxt.drop_last() =~= pre);
        assert(nxt.last() == v@[i as int]@);
        if i > 0 {
            s.append(",");
        }
        s.append(quote_json(v[i].as_str()).as_str());
        proof {
            if i == 0 {
                assert(pre =~= Seq::empty());
                assert(s@ =~= start + quoted_list(nxt));
            } else {
                assert(s@ =~= start + quoted_list(nxt));
            }
        }
        i += 1;
    }
    assert(full.take(v@.len() as int) =~= full);
}

fn push_tags(s: &mut String, t: &Vec<Vec<String>>)
    ensures
        final(s)@ == old(s)@ + tags_text(tags_view(t@)),
{
    let ghost start = s@;
    let ghost full = tags_view(t@);
    s.append("[");
    let mut i: usize = 0;
    while i < t.len()
        invariant
            i <= t@.len(),
            full == tags_view(t@),
            s@ == start + "["@ + tag_list(full.take(i as int)),
        decreases t@.len() - i,
    {
        let ghost pre = full.take(i as int);
        let ghost nxt = full.take(i as int + 1);
        assert(nxt.drop_last() =~= pre);
        assert(nxt.last() == strings_view(t@[i as int]@));
        if i > 0 {
            s.append(",");
        }
        s.append("[");
        push_quoted_list(s, &t[i]);
        s.append("]");
        proof {
            if i == 0 {
                assert(pre =~= Seq::empty());
                assert(s@ =~= start + "["@ + tag_list(nxt));
            } else {
                assert(s@ =~= start + "["@ + tag_list(nxt));
            }
        }
        i += 1;
    }
    s.append("]");
    assert(full.take(t@.len() as int) =~= full);
    assert(s@ =~= start + tags_text(full));
}

impl SignedEvent {
    /// The event's JSON object, with its members in sorted order.
    pub fn to_json(&self) -> (r: String)
        ensures
            r@ == signed_event_text(*self),
    {
        let mut s = String::from_str("{\"content\":");
        s.append(quote_json(self.content.as_str()).as_str());
        s.append(",\"created_at\":");
        push_int(&mut s, self.created_at);
        s.append(",\"id\":");
        s.append(quote_json(self.id.as_str()).as_str());
        s.append(",\"kind\":");
        push_int(&mut s, self.kind as i64);
        s.append(",\"pubkey\":");
        s.append(quote_json(self.pubkey.as_str()).as_str());
        s.append(",\"sig\":");
        s.append(quote_json(self.sig.as_str()).as_str());
        s.append(",\"tags\":");
        push_tags(&mut s, &self.tags);
        s.append("}");
        s
    }
}

/// Whether the text is a secret key that nostr accepts.
pub uninterp spec fn secret_key_valid(secret_hex: Seq<char>) -> bool;

/// The hex x-only public key of a secret key.
pub uninterp spec fn public_key_hex(secret_hex: Seq<char>) -> Seq<char>;

/// The SHA-256 digest of the UTF-8 encoding of the text.
pub uninterp spec fn sha256_digest(text: Seq<char>) -> Seq<u8>;

/// Whether secp256k1's Schnorr verification (as nostr's
/// Event::verify_signature applies it) accepts the hex signature of the hex
/// id under the hex x-only public key.
pub uninterp spec fn schnorr_verifies(pubkey: Seq<char>, id: Seq<char>, sig: Seq<char>) -> bool;

/// The NIP-01 canonical serialisation of an event: the compact JSON array
/// `[0, pubkey, created_at, kind, tags, content]`.
pub open spec fn canonical_text(pubkey: Seq<char>, created_at: int, kind: int, tags: Seq<Seq<Seq<char>>>, content: Seq<char>) -> Seq<char> {
    "[0,"@ + json_quoted(pubkey) + ","@ + int_text(created_at) + ","@ + int_text(kind) + ","@ + tags_text(tags) + ","@
        + json_quoted(content) + "]"@
}

/// The NIP-01 event id: the hex of SHA-256 of the canonical serialisation.
pub open spec fn event_id_of(pubkey: Seq<char>, created_at: int, kind: int, tags: Seq<Seq<Seq<char>>>, content: Seq<char>) -> Seq<char> {
    hex_text(sha256_digest(canonical_text(pubkey, created_at, kind, tags, content)))
}

/// Whether nip04::encrypt accepts the peer's key: its hex parses and names a
/// point of the curve. This depends on the key alone.
pub uninterp spec fn nip04_peer_accepted(peer: Seq<char>) -> bool;

/// The NIP-04 plaintext of a ciphertext between a secret key and a peer's
/// public key; none when it does not decrypt.
pub uninterp spec fn nip04_plaintext(secret_hex: Seq<char>, peer: Seq<char>, ciphertext: Seq<char>) -> Option<Seq<char>>;

/// Relies on nostr::key::Keys::parse: whether it accepts the text.
#[verifier::external_body]
fn check_secret_key(secret_hex: &str) -> (r: bool)
    ensures
        r == secret_key_valid(secret_hex@),
{
    nostr::key::Keys::parse(secret_hex).is_ok()
}

/// Relies on nostr::key::Keys::generate and SecretKey::to_secret_hex: a random
/// secret key, whose hex Keys::parse accepts.
#[verifier::external_body]
fn generate_secret_key() -> (r: String)
    ensures
        secret_key_valid(r@),
{
    nostr::key::Keys::generate().secret_key().to_secret_hex()
}

/// Relies on nostr::key::Keys::parse, Keys::public_key and PublicKey::to_hex
/// (64 lowercase hex digits).
#[verifier::external_body]
fn derive_public_key(secret_hex: &str) -> (r: String)
    requires
        secret_key_valid(secret_hex@),
    ensures
        r@ == public_key_hex(secret_hex@),
        is_hex64(r@),
{
    nostr::key::Keys::parse(secret_hex).map(|k| k.public_key().to_hex()).unwrap_or_default()
}

/// Relies on bitcoin_hashes::sha256::hash over the text's UTF-8 bytes (the
/// hash nostr uses for event ids): 32 bytes that depend on the text alone.
#[verifier::external_body]
fn sha256_of(text: &str) -> (r: Vec<u8>)
    ensures
        r@ == sha256_digest(text@),
        r@.len() == 32,
{
    bitcoin_hashes::sha256::Hash::hash(text.as_bytes()).to_byte_array().to_vec()
}

/// Relies on nostr::key::Keys::sign_schnorr over the id's bytes (randomised
/// auxiliary data) and Signature::to_hex; none only when the key or the id
/// (EventId::from_hex, which takes any 64 hex digits) does not parse. A
/// signature it makes passes Schnorr verification under the key's public key.
#[verifier::external_body]
fn schnorr_sign(secret_hex: &str, id_hex: &str) -> (r: Option<String>)
    ensures
        secret_key_valid(secret_hex@) && is_hex64(id_hex@) ==> r is Some,
        r is Some && secret_key_valid(secret_hex@) ==> schnorr_verifies(public_key_hex(secret_hex@), id_hex@, r->0@),
{
    let keys = nostr::key::Keys::parse(secret_hex).ok()?;
    let id = nostr::event::EventId::from_hex(id_hex).ok()?;
    Some(keys.sign_schnorr(id.as_bytes()).to_hex())
}

/// Relies on nostr::nips::nip04::encrypt (random IV): it fails only when the
/// peer's key is not accepted, and nip04::decrypt with the same keys undoes
/// it (the shared key is the same and the IV travels after `?iv=`).
#[verifier::external_body]
fn nip04_encrypt_with(secret_hex: &str, peer: &str, plaintext: &str) -> (r: Option<String>)
    requires
        secret_key_valid(secret_hex@),
    ensures
        r is Some <==> nip04_peer_accepted(peer@),
        r is Some ==> nip04_plaintext(secret_hex@, peer@, r->0@) == Some(plaintext@),
{
    let keys = nostr::key::Keys::parse(secret_hex).ok()?;
    let pk = nostr::key::PublicKey::from_hex(peer).ok()?;
    nostr::nips::nip04::encrypt(keys.secret_key(), &pk, plaintext).ok()
}

/// Relies on nostr::nips::nip04::decrypt, which depends on its arguments
/// alone; its shared key (util::generate_shared_key, the x-coordinate of the
/// ECDH point) is the same for either party's secret with the other's public
/// key, so the peer decrypts alike.
#[verifier::external_body]
fn nip04_decrypt_with(secret_hex: &str, peer: &str, ciphertext: &str) -> (r: Option<String>)
    requires
        secret_key_valid(secret_hex@),
    ensures
        r is Some <==> nip04_plaintext(secret_hex@, peer@, ciphertext@) is Some,
        r is Some ==> nip04_plaintext(secret_hex@, peer@, ciphertext@) == Some(r->0@),
        forall|other: Seq<char>| secret_key_valid(other) && peer@ == #[trigger] public_key_hex(other)
            ==> nip04_plaintext(other, public_key_hex(secret_hex@), ciphertext@) == match r {
                Some(p) => Some(p@),
                None => None::<Seq<char>>,
            },
{
    let keys = nostr::key::Keys::parse(secret_hex).ok()?;
    let pk = nostr::key::PublicKey::from_hex(peer).ok()?;
    nostr::nips::nip04::decrypt(keys.secret_key(), &pk, ciphertext).ok()
}

/// A signer that holds its secret key (as hex).
pub struct InternalSigner {
    secret_hex: String,
}

impl InternalSigner {
    pub closed spec fn secret(&self) -> Seq<char> {
        self.secret_hex@
    }

    pub open spec fn wf(&self) -> bool {
        secret_key_valid(self.secret())
    }

    /// A signer with a fresh random key. The passphrase protects the key
    /// when it is stored, which is the embedder's part.
    pub fn generate(_passphrase: &str) -> (r: Result<Self, CoreError>)
        ensures
            r is Ok,
            r->Ok_0.wf(),
    {
        Ok(InternalSigner { secret_hex: generate_secret_key() })
    }

    /// A signer for the 32-byte secret key `secret_key`; a signer error when
    /// nostr does not accept its hex.
    pub fn from_secret_key(secret_key: &[u8]) -> (r: Result<Self, CoreError>)
        ensures
            r is Ok <==> secret_key_valid(hex_text(secret_key@)),
            r is Ok ==> r->Ok_0.wf() && r->Ok_0.secret() == hex_text(secret_key@),
            r is Err ==> r->Err_0 is SignerError,
    {
        let secret_hex = hex_encode(secret_key);
        if check_secret_key(secret_hex.as_str()) {
            Ok(InternalSigner { secret_hex })
        } else {
            Err(CoreError::SignerError("Invalid secret key".to_string()))
        }
    }

    /// The secret key as hex, for the embedder to store encrypted.
    pub fn secret_key_hex(&self) -> (r: String)
        ensures
            r@ == self.secret(),
    {
        self.secret_hex.clone()
    }

    /// The hex x-only public key.
    pub fn get_public_key(&self) -> (r: String)
        requires
            self.wf(),
        ensures
            r@ == public_key_hex(self.secret()),
            is_hex64(r@),
    {
        derive_public_key(self.secret_hex.as_str())
    }

    /// Signs an event: the id is the hex of SHA-256 of its NIP-01 canonical
    /// serialisation under this key, and the signature a Schnorr signature of
    /// that id that verifies under the public key. Signing always succeeds.
    pub fn sign_event(&self, unsigned: UnsignedEvent) -> (r: Result<SignedEvent, CoreError>)
        requires
            self.wf(),
        ensures
            r is Ok,
            ({
                let e = r->Ok_0;
                let pk = public_key_hex(self.secret());
                &&& e.pubkey@ == pk
                &&& e.created_at == unsigned.created_at
                &&& e.kind == unsigned.kind
                &&& tags_view(e.tags@) == tags_view(unsigned.tags@)
                &&& e.content@ == unsigned.content@
                &&& e.id@ == event_id_of(pk, unsigned.created_at as int, unsigned.kind as int, tags_view(unsigned.tags@), unsigned.content@)
                &&& schnorr_verifies(pk, e.id@, e.sig@)
            }),
    {
        let pubkey = self.get_public_key();
        let mut text = String::from_str("[0,");
        text.append(quote_json(pubkey.as_str()).as_str());
        text.append(",");
        push_int(&mut text, unsigned.created_at);
        text.append(",");
        push_int(&mut text, unsigned.kind as i64);
        text.append(",");
        push_tags(&mut text, &unsigned.tags);
        text.append(",");
        text.append(quote_json(unsigned.content.as_str()).as_str());
        text.append("]");
        let digest = sha256_of(text.as_str());
        let id = hex_encode(digest.as_slice());
        proof { lemma_hex_text_is_hex64(digest@); }
        let sig = match schnorr_sign(self.secret_hex.as_str(), id.as_str()) {
            Some(sig) => sig,
            None => String::new(),
        };
        Ok(SignedEvent {
            id,
            pubkey,
            created_at: unsigned.created_at,
            kind: unsigned.kind,
            tags: unsigned.tags,
            content: unsigned.content,
            sig,
        })
    }

    /// NIP-04 encryption of `plaintext` for the holder of `pubkey`, which
    /// decrypts back to the plaintext under the same keys; a signer error
    /// when nostr does not accept the key.
    pub fn nip04_encrypt(&self, pubkey: &str, plaintext: &str) -> (r: Result<String, CoreError>)
        requires
            self.wf(),
        ensures
            r is Ok <==> nip04_peer_accepted(pubkey@),
            r is Ok ==> nip04_plaintext(self.secret(), pubkey@, r->Ok_0@) == Some(plaintext@),
            r is Err ==> r->Err_0 is SignerError,
    {
        match nip04_encrypt_with(self.secret_hex.as_str(), pubkey, plaintext) {
            Some(c) => Ok(c),
            None => Err(CoreError::SignerError("NIP-04 encryption failed".to_string())),
        }
    }

    /// NIP-04 decryption of a ciphertext from the holder of `pubkey`; a
    /// signer error when it does not decrypt. The peer decrypts alike: what
    /// the holder of `pubkey` encrypted for this signer's public key comes
    /// out here unchanged.
    pub fn nip04_decrypt(&self, pubkey: &str, ciphertext: &str) -> (r: Result<String, CoreError>)
        requires
            self.wf(),
        ensures
            r is Ok <==> nip04_plaintext(self.secret(), pubkey@, ciphertext@) is Some,
            r is Ok ==> nip04_plaintext(self.secret(), pubkey@, ciphertext@) == Some(r->Ok_0@),
            forall|other: Seq<char>| secret_key_valid(other) && pubkey@ == #[trigger] public_key_hex(other)
                ==> nip04_plaintext(other, public_key_hex(self.secret()), ciphertext@) == match r {
                    Ok(p) => Some(p@),
                    Err(_) => None::<Seq<char>>,
                },
            r is Err ==> r->Err_0 is SignerError,
    {
        match nip04_decrypt_with(self.secret_hex.as_str(), pubkey, ciphertext) {
            Some(p) => Ok(p),
            None => Err(CoreError::SignerError("NIP-04 decryption failed".to_string())),
        }
    }
}

/// Whether every tag of an event object is an array of strings.
pub open spec fn strict_tags(t: Seq<Option<Seq<Option<Seq<char>>>>>) -> bool {
    forall|i: int| 0 <= i < t.len() ==> (#[trigger] t[i] matches Some(e) && forall|j: int| 0 <= j < e.len() ==> #[trigger] e[j] is Some)
}

/// Whether a JSON text is a signed event object: it parses, its `id`,
/// `pubkey`, `content` and `sig` are strings, its `created_at` a signed and
/// its `kind` a 16-bit integer, and its `tags` an array of arrays of strings.
pub open spec fn is_signed_event_json(json: Seq<char>) -> bool {
    &&& json_event_fields(json) matches Some(f)
    &&& json_event_extra(json) matches Some(x)
    &&& f.id is Some && f.pubkey is Some && f.content is Some && f.created_at is Some
    &&& f.kind is Some && f.kind->0 <= u16::MAX
    &&& x.sig is Some
    &&& x.tags is Some && strict_tags(x.tags->0)
}

fn tags_strict(t: &Vec<Option<Vec<Option<String>>>>) -> (r: bool)
    ensures
        r == strict_tags(raw_tags_view(t@)),
{
    let ghost tv = raw_tags_view(t@);
    let mut i: usize = 0;
    while i < t.len()
        invariant
            i <= t@.len(),
            tv == raw_tags_view(t@),
            forall|k: int| 0 <= k < i ==> (#[trigger] tv[k] matches Some(e) && forall|j: int| 0 <= j < e.len() ==> #[trigger] e[j] is Some),
        decreases t@.len() - i,
    {
        assert(tv[i as int] == match t@[i as int] {
            Some(e) => Some(crate::json::entries_view(e@)),
            None => None::<Seq<Option<Seq<char>>>>,
        });
        match &t[i] {
            Some(entries) => {
                let mut j: usize = 0;
                while j < entries.len()
                    invariant
                        i < t@.len(),
                        tv == raw_tags_view(t@),
                        j <= entries@.len(),
                        tv[i as int] == Some(crate::json::entries_view(entries@)),
                        forall|m: int| 0 <= m < j ==> #[trigger] crate::json::entries_view(entries@)[m] is Some,
                    decreases entries@.len() - j,
                {
                    if entries[j].is_none() {
                        assert(crate::json::entries_view(entries@)[j as int] is None);
                        assert(!strict_tags(tv)) by {
                            if strict_tags(tv) {
                                let e = tv[i as int]->0;
                                assert(tv[i as int] matches Some(e) && forall|m: int| 0 <= m < e.len() ==> #[trigger] e[m] is Some);
                                assert(e[j as int] is Some);
                            }
                        };
                        return false;
                    }
                    j += 1;
                }
            },
            None => {
                assert(!strict_tags(tv)) by {
                    if strict_tags(tv) {
                        assert(tv[i as int] matches Some(_));
                    }
                };
                return false;
            },
        }
        i += 1;
    }
    true
}

/// Reads a signed event from its JSON object (as a signing provider hands it
/// back); a parse error when the text is not a signed event object.
pub fn signed_event_from_json(json: &str) -> (r: Result<SignedEvent, CoreError>)
    ensures
        r is Ok <==> is_signed_event_json(json@),
        r is Err ==> r->Err_0 is ParseError,
        r is Ok ==> ({
            let f = json_event_fields(json@)->0;
            let x = json_event_extra(json@)->0;
            let e = r->Ok_0;
            &&& e.id@ == f.id->0
            &&& e.pubkey@ == f.pubkey->0
            &&& e.created_at == f.created_at->0
            &&& e.kind as u64 == f.kind->0
            &&& tags_view(e.tags@) == crate::storage::tag_lists(x.tags->0)
            &&& e.content@ == f.content->0
            &&& e.sig@ == x.sig->0
        }),
{
    let f = match decode_event_fields(json) {
        Some(f) => f,
        None => return Err(CoreError::ParseError("Malformed event JSON".to_string())),
    };
    let x = match decode_event_extra(json) {
        Some(x) => x,
        None => return Err(CoreError::ParseError("Malformed event JSON".to_string())),
    };
    let tags = match &x.tags {
        Some(t) => {
            if !tags_strict(t) {
                return Err(CoreError::ParseError("Malformed tags".to_string()));
            }
            crate::storage::tag_vectors(t)
        },
        None => return Err(CoreError::ParseError("Missing tags".to_string())),
    };
    let kind: u16 = match f.kind {
        Some(k) => {
            if k > u16::MAX as u64 {
                return Err(CoreError::ParseError("Kind out of range".to_string()));
            }
            k as u16
        },
        None => return Err(CoreError::ParseError("Missing kind".to_string())),
    };
    let created_at = match f.created_at {
        Some(c) => c,
        None => return Err(CoreError::ParseError("Missing created_at".to_string())),
    };
    match (f.id, f.pubkey, f.content, x.sig) {
        (Some(id), Some(pubkey), Some(content), Some(sig)) => Ok(SignedEvent { id, pubkey, created_at, kind, tags, content, sig }),
        _ => Err(CoreError::ParseError("Missing event member".to_string())),
    }
}

proof fn lemma_hex_text_shape(b: Seq<u8>)
    ensures
        hex_text(b).len() == 2 * b.len(),
        forall|i: int| 0 <= i < hex_text(b).len() ==> ('0' <= #[trigger] hex_text(b)[i] <= '9' || 'a' <= hex_text(b)[i] <= 'f'),
    decreases b.len(),
{
    if b.len() > 0 {
        lemma_hex_text_shape(b.drop_last());
        let p = hex_text(b.drop_last());
        let d = seq![crate::text::hex_digit((b.last() / 16) as nat), crate::text::hex_digit((b.last() % 16) as nat)];
        assert(hex_text(b) == p + d);
        assert forall|i: int| 0 <= i < (p + d).len() implies ('0' <= #[trigger] (p + d)[i] <= '9' || 'a' <= (p + d)[i] <= 'f') by {
            if i < p.len() {
                assert((p + d)[i] == p[i]);
            } else {
                assert((p + d)[i] == d[i - p.len()]);
            }
        };
    }
}

proof fn lemma_hex_text_is_hex64(b: Seq<u8>)
    requires
        b.len() == 32,
    ensures
        is_hex64(hex_text(b)),
{
    lemma_hex_text_shape(b);
}

} // verus!
