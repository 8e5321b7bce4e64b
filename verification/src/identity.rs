use vstd::prelude::*;

use nostr_sdk::prelude::ToBech32;

use crate::errors::ServiceError;

verus! {

/// nostr's signing keypair, opaque to this library.
#[verifier::external_type_specification]
#[verifier::external_body]
pub struct ExKeys(nostr_sdk::prelude::Keys);

/// Whether a credential text parses as a secret key (hex or bech32 text).
pub uninterp spec fn credential_parses(s: Seq<char>) -> bool;

/// The displayable public identifier of the keypair a credential token
/// names.
pub uninterp spec fn public_id_of(credential: Seq<char>) -> Seq<char>;

/// The displayable secret encoding of the keypair a credential token names.
pub uninterp spec fn secret_id_of(credential: Seq<char>) -> Seq<char>;

/// A keypair held for signing, together with the ghost credential token
/// that names it in contracts: the credential text it was parsed from, or,
/// for a generated keypair, its canonical secret encoding. Both
/// construction sites keep the token one that the keypair answers to.
pub struct SigningKeys {
    keys: nostr_sdk::prelude::Keys,
    credential: Ghost<Seq<char>>,
}

/// Relies on nostr_sdk's `Keys::parse`: a secret credential text (hex or
/// bech32) either parses to the one keypair it encodes or is rejected, and
/// which of the two happens depends on the text alone.
#[verifier::external_body]
fn parse_keys_raw(credential: &str) -> (r: Option<nostr_sdk::prelude::Keys>)
    ensures
        r is Some <==> credential_parses(credential@),
{
    nostr_sdk::prelude::Keys::parse(credential).ok()
}

/// Relies on nostr_sdk's `Keys::generate`, `Keys::secret_key` and
/// `ToBech32`: a fresh random keypair beside its canonical displayable
/// secret encoding. Nothing is assumed about which keypair comes back;
/// that one comes back is assumed, since generation cannot fail, a
/// generated keypair always holds its secret key, and the bech32 encoding
/// of a 32-byte key writes into a `String` and cannot fail either.
#[verifier::external_body]
fn generate_keys_raw() -> (r: Option<(nostr_sdk::prelude::Keys, String)>)
    ensures
        r is Some,
{
    let keys = nostr_sdk::prelude::Keys::generate();
    let encoded = match keys.secret_key() {
        Ok(secret) => secret.to_bech32().ok(),
        Err(_) => None,
    };
    encoded.map(|canonical| (keys, canonical))
}

/// Relies on nostr_sdk's `ToBech32` for the public key (reached through
/// `Keys::public_key`): the displayable public identifier is a function of
/// the keypair alone, hence of the credential it was derived from; and the
/// bech32 encoding of a 32-byte key writes into a `String` and cannot
/// fail, so a value is always answered.
#[verifier::external_body]
fn encode_public_identifier(sk: &SigningKeys) -> (r: Option<String>)
    ensures
        r is Some,
        r matches Some(p) ==> p@ == public_id_of(sk.credential@),
{
    sk.keys.public_key().to_bech32().ok()
}

/// Relies on nostr_sdk's `Keys::secret_key` and `ToBech32` for the secret
/// key: the displayable secret encoding is a function of the keypair
/// alone, hence of the credential it was derived from. A keypair parsed
/// from a credential or freshly generated always holds its secret key, and
/// the bech32 encoding of a 32-byte key cannot fail, so a value is always
/// answered.
#[verifier::external_body]
fn encode_secret_credential(sk: &SigningKeys) -> (r: Option<String>)
    ensures
        r is Some,
        r matches Some(s) ==> s@ == secret_id_of(sk.credential@),
{
    match sk.keys.secret_key() {
        Ok(secret) => secret.to_bech32().ok(),
        Err(_) => None,
    }
}

/// Parses a credential text and records it as the keypair's token.
fn keys_from_credential(text: &str) -> (r: Option<SigningKeys>)
    ensures
        r is Some <==> credential_parses(text@),
        r matches Some(sk) ==> sk.credential@ == text@,
{
    match parse_keys_raw(text) {
        Some(keys) => Some(SigningKeys { keys, credential: Ghost(text@) }),
        None => None,
    }
}

/// Generates a fresh keypair; its canonical secret encoding serves as its
/// token.
fn fresh_keys() -> (r: SigningKeys) {
    let pair = generate_keys_raw().unwrap();
    let (keys, canonical) = pair;
    let ghost token = canonical@;
    SigningKeys { keys, credential: Ghost(token) }
}

/// A signing identity: the keypair and its two displayable text encodings.
/// The public identifier is always the one derived from the secret
/// credential; the two are never held independently of each other.
pub struct Identity {
    /// The keypair itself, for the relay session to sign with.
    pub signing: SigningKeys,
    /// The credential token of the underlying keypair.
    pub credential: Ghost<Seq<char>>,
    /// Displayable public identifier.
    pub public_identifier: String,
    /// Displayable secret credential.
    pub secret_credential: String,
}

impl Identity {
    /// The credential token of the underlying keypair.
    pub open spec fn credential(self) -> Seq<char> {
        self.credential@
    }

    /// Well-formed: both displayable encodings belong to the one keypair
    /// the credential token names.
    pub open spec fn wf(self) -> bool {
        self.public_identifier@ == public_id_of(self.credential())
            && self.secret_credential@ == secret_id_of(self.credential())
    }

    /// The underlying keypair, for the relay session to sign with.
    pub fn signing_keys(&self) -> &nostr_sdk::prelude::Keys {
        &self.signing.keys
    }
}

/// Derives the two displayable encodings of a keypair; encoding cannot
/// fail, so the identity is always produced.
fn identity_from(signing: SigningKeys) -> (i: Identity)
    ensures
        i.wf(),
        i.credential() == signing.credential@,
{
    let public_identifier = encode_public_identifier(&signing).unwrap();
    let secret_credential = encode_secret_credential(&signing).unwrap();
    let ghost token = signing.credential@;
    Identity { signing, credential: Ghost(token), public_identifier, secret_credential }
}

/// What reading the credential file yielded; the caller that performed the
/// read hands it in as a plain value.
#[derive(Debug)]
pub enum CredentialRead {
    /// The file exists and holds this text.
    Found(String),
    /// The file does not exist.
    Missing,
    /// The file exists but could not be read.
    Unreadable,
}

/// Establishes the process identity from the credential file: a present,
/// valid credential is parsed and its identity derived; an absent file
/// falls back to a freshly generated keypair; an unreadable file or a
/// malformed credential is a fatal configuration error, never a silent
/// fallback. Success is owed on every valid or absent credential.
pub fn load_or_create_identity(read: CredentialRead) -> (r: Result<Identity, ServiceError>)
    ensures
        r matches Ok(i) ==> i.wf(),
        read matches CredentialRead::Found(s) ==> (credential_parses(s@) ==> (r matches Ok(i)
            && i.credential() == s@)),
        read matches CredentialRead::Found(s) && !credential_parses(s@) ==> (r matches Err(e)
            && e is Configuration),
        read is Unreadable ==> (r matches Err(e) && e is Configuration),
        read is Missing ==> r is Ok,
{
    match read {
        CredentialRead::Found(text) => {
            match keys_from_credential(text.as_str()) {
                Some(signing) => Ok(identity_from(signing)),
                None => Err(ServiceError::Configuration),
            }
        },
        CredentialRead::Missing => Ok(identity_from(fresh_keys())),
        CredentialRead::Unreadable => Err(ServiceError::Configuration),
    }
}

/// Mints a brand-new identity, unrelated to any session identity; only its
/// two displayable encodings are meant for the caller. Generation and
/// encoding cannot fail with this backend, so success is owed; the
/// fallible shape is kept because the operation is declared to the caller
/// with a generic, detail-free failure.
pub fn mint_identity() -> (r: Result<Identity, ServiceError>)
    ensures
        r is Ok,
        r matches Ok(i) ==> i.wf(),
{
    Ok(identity_from(fresh_keys()))
}

/// Law: the public identifier is determined by the secret credential alone:
/// identities derived from the same credential display the same public
/// identifier and the same canonical secret encoding.
pub proof fn lemma_identity_deterministic(a: Identity, b: Identity)
    requires
        a.wf(),
        b.wf(),
        a.credential() == b.credential(),
    ensures
        a.public_identifier@ == b.public_identifier@,
        a.secret_credential@ == b.secret_credential@,
{
}

} // verus!

