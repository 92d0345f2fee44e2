//! WebAuthn (passkey) ceremonies of the relying party, done by the
//! `webauthn-rs` crate: registration and authentication, each started and
//! finished. The ceremony state is kept by the caller between the two steps;
//! credentials are stored by the caller as they are.

use vstd::prelude::*;
use webauthn_rs::prelude::{
    AuthenticationResult, CreationChallengeResponse, CredentialID, Passkey, PasskeyAuthentication,
    PasskeyRegistration, PublicKeyCredential, RegisterPublicKeyCredential, RequestChallengeResponse, Uuid,
};
use webauthn_rs::Webauthn;
use crate::auth::error::AuthError;

verus! {

/// A configured relying party (`webauthn_rs::Webauthn`).
#[verifier::external_type_specification]
#[verifier::external_body]
pub struct ExWebauthn(webauthn_rs::Webauthn);

/// A UUID (`uuid::Uuid`).
#[verifier::external_type_specification]
#[verifier::external_body]
pub struct ExUuid(webauthn_rs::prelude::Uuid);

/// A registered passkey, as stored.
#[verifier::external_type_specification]
#[verifier::external_body]
pub struct ExPasskey(webauthn_rs::prelude::Passkey);

/// A credential id.
#[verifier::external_type_specification]
#[verifier::external_body]
pub struct ExCredentialID(webauthn_rs::prelude::CredentialID);

/// The registration challenge sent to the client.
#[verifier::external_type_specification]
#[verifier::external_body]
pub struct ExCreationChallengeResponse(webauthn_rs::prelude::CreationChallengeResponse);

/// The server's state of a registration in progress.
#[verifier::external_type_specification]
#[verifier::external_body]
pub struct ExPasskeyRegistration(webauthn_rs::prelude::PasskeyRegistration);

/// The client's answer to a registration challenge.
#[verifier::external_type_specification]
#[verifier::external_body]
pub struct ExRegisterPublicKeyCredential(webauthn_rs::prelude::RegisterPublicKeyCredential);

/// The authentication challenge sent to the client.
#[verifier::external_type_specification]
#[verifier::external_body]
pub struct ExRequestChallengeResponse(webauthn_rs::prelude::RequestChallengeResponse);

/// The server's state of an authentication in progress.
#[verifier::external_type_specification]
#[verifier::external_body]
pub struct ExPasskeyAuthentication(webauthn_rs::prelude::PasskeyAuthentication);

/// The client's answer to an authentication challenge.
#[verifier::external_type_specification]
#[verifier::external_body]
pub struct ExPublicKeyCredential(webauthn_rs::prelude::PublicKeyCredential);

/// The outcome of a successful authentication (counter, backup state).
#[verifier::external_type_specification]
#[verifier::external_body]
pub struct ExAuthenticationResult(webauthn_rs::prelude::AuthenticationResult);

/// The error text with which `Url::parse(origin)`, then
/// `WebauthnBuilder::new(rp_id, &url)` and `build`, refuse a relying party, or
/// `None` where they accept it. Both steps depend on the two texts alone.
pub uninterp spec fn relying_party_error(rp_id: Seq<char>, origin: Seq<char>) -> Option<Seq<char>>;

/// `Url::parse(origin)`, then `WebauthnBuilder::new(rp_id, &url)` and
/// `build`, with the error's text. The builder refuses an origin whose domain
/// is not `rp_id` or below it; which texts pass is named, not restated.
#[verifier::external_body]
fn build_relying_party(rp_id: &str, origin: &str) -> (r: Result<Webauthn, String>)
    ensures
        r is Ok <==> relying_party_error(rp_id@, origin@) is None,
        r matches Err(m) ==> relying_party_error(rp_id@, origin@) == Some(m@),
{
    let url = webauthn_rs::prelude::Url::parse(origin).map_err(|e| e.to_string())?;
    webauthn_rs::WebauthnBuilder::new(rp_id, &url).and_then(|b| b.build()).map_err(|e| e.to_string())
}

/// The UUID whose 128-bit value is `v` (`Uuid::from_u128`).
pub uninterp spec fn uuid_of(v: u128) -> Uuid;

/// The credential id of a passkey (`Passkey::cred_id`).
pub uninterp spec fn credential_id_of(p: Passkey) -> CredentialID;

/// The bytes of a credential id (its `AsRef<[u8]>`).
pub uninterp spec fn credential_bytes_of(c: CredentialID) -> Seq<u8>;

/// What `Webauthn::finish_passkey_registration` gives for a client's answer
/// and the stored state: the passkey, or the error's text. It runs the
/// registration checks of `webauthn-rs-core` on its arguments alone (no
/// clock, no randomness, no attestation authorities).
pub uninterp spec fn registration_outcome(
    w: Webauthn,
    reg: RegisterPublicKeyCredential,
    state: PasskeyRegistration,
) -> Result<Passkey, Seq<char>>;

/// What `Webauthn::finish_passkey_authentication` gives for a client's
/// answer and the stored state: the checked result, or the error's text. It
/// runs the assertion checks of `webauthn-rs-core` on its arguments alone.
pub uninterp spec fn authentication_outcome(
    w: Webauthn,
    cred: PublicKeyCredential,
    state: PasskeyAuthentication,
) -> Result<AuthenticationResult, Seq<char>>;

/// A result with its error taken as text.
pub open spec fn text_result<T>(r: Result<T, String>) -> Result<T, Seq<char>> {
    match r {
        Ok(v) => Ok(v),
        Err(m) => Err(m@),
    }
}

/// `Uuid::from_u128`.
#[verifier::external_body]
fn uuid_from_u128(v: u128) -> (u: Uuid)
    ensures
        u == uuid_of(v),
{
    Uuid::from_u128(v)
}

/// `Passkey::cred_id`, cloned.
#[verifier::external_body]
fn passkey_cred_id(p: &Passkey) -> (c: CredentialID)
    ensures
        c == credential_id_of(*p),
{
    p.cred_id().clone()
}

/// The bytes of a credential id (`AsRef<[u8]>`), copied.
#[verifier::external_body]
fn credential_bytes(c: &CredentialID) -> (b: Vec<u8>)
    ensures
        b@ == credential_bytes_of(*c),
{
    let bytes: &[u8] = c.as_ref();
    bytes.to_vec()
}

/// `Webauthn::start_passkey_registration`, with the error's text. The
/// challenge is random: nothing is promised of the outcome.
#[verifier::external_body]
fn start_passkey_registration(
    w: &Webauthn,
    user_id: Uuid,
    name: &str,
    display: &str,
    exclude: Option<Vec<CredentialID>>,
) -> (r: Result<(CreationChallengeResponse, PasskeyRegistration), String>) {
    w.start_passkey_registration(user_id, name, display, exclude).map_err(|e| e.to_string())
}

/// `Webauthn::finish_passkey_registration`, with the error's text.
#[verifier::external_body]
fn finish_passkey_registration(
    w: &Webauthn,
    reg: &RegisterPublicKeyCredential,
    state: &PasskeyRegistration,
) -> (r: Result<Passkey, String>)
    ensures
        text_result(r) == registration_outcome(*w, *reg, *state),
{
    w.finish_passkey_registration(reg, state).map_err(|e| e.to_string())
}

/// `Webauthn::start_passkey_authentication`, with the error's text. It always
/// succeeds: with the user-verification policy given, building the challenge
/// cannot fail, and generating it only draws a random challenge (its one
/// `expect`, on a timeout above `u32::MAX` milliseconds, cannot fire for a
/// relying party built here, whose timeout is the default 300 seconds). The
/// challenge is random: nothing more is promised of it.
#[verifier::external_body]
fn start_passkey_authentication(
    w: &Webauthn,
    passkeys: &[Passkey],
) -> (r: Result<(RequestChallengeResponse, PasskeyAuthentication), String>)
    ensures
        r is Ok,
{
    w.start_passkey_authentication(passkeys).map_err(|e| e.to_string())
}

/// `Webauthn::finish_passkey_authentication`, with the error's text.
#[verifier::external_body]
fn finish_passkey_authentication(
    w: &Webauthn,
    cred: &PublicKeyCredential,
    state: &PasskeyAuthentication,
) -> (r: Result<AuthenticationResult, String>)
    ensures
        text_result(r) == authentication_outcome(*w, *cred, *state),
{
    w.finish_passkey_authentication(cred, state).map_err(|e| e.to_string())
}

/// The credential ids of the passkeys, in order.
pub fn credential_ids(passkeys: &[Passkey]) -> (r: Vec<CredentialID>)
    ensures
        r@.len() == passkeys@.len(),
        forall|i: int| 0 <= i < r@.len() ==> #[trigger] r@[i] == credential_id_of(passkeys@[i]),
{
    let mut ids: Vec<CredentialID> = Vec::new();
    let mut i: usize = 0;
    while i < passkeys.len()
        invariant
            i <= passkeys@.len(),
            ids@.len() == i,
            forall|k: int| 0 <= k < i ==> #[trigger] ids@[k] == credential_id_of(passkeys@[k]),
        decreases passkeys@.len() - i,
    {
        ids.push(passkey_cred_id(&passkeys[i]));
        i = i + 1;
    }
    ids
}

/// The credentials to exclude from a registration: none when the list is
/// empty, else the whole list.
pub fn exclusion_list(ids: Vec<CredentialID>) -> (r: Option<Vec<CredentialID>>)
    ensures
        ids@.len() == 0 ==> r is None,
        ids@.len() > 0 ==> r == Some(ids),
{
    if ids.len() == 0 {
        None
    } else {
        Some(ids)
    }
}

/// The relying party of a WebAuthn deployment.
pub struct WebauthnService {
    inner: Webauthn,
}

impl WebauthnService {
    /// The configured relying party.
    pub closed spec fn relying_party(&self) -> Webauthn {
        self.inner
    }

    /// A relying party for the domain `rp_id`, serving clients at the origin
    /// URL `rp_origin`; a URL that does not parse, or an origin outside
    /// `rp_id`, is a `WebAuthn` error with its text.
    pub fn new(rp_id: &str, rp_origin: &str) -> (r: Result<WebauthnService, AuthError>)
        ensures
            r is Ok <==> relying_party_error(rp_id@, rp_origin@) is None,
            r matches Err(e) ==> (e matches AuthError::WebAuthn(m) && relying_party_error(rp_id@, rp_origin@) == Some(
                m@,
            )),
    {
        match build_relying_party(rp_id, rp_origin) {
            Ok(w) => Ok(WebauthnService { inner: w }),
            Err(m) => Err(AuthError::WebAuthn(m)),
        }
    }

    /// Starts a registration, excluding the user's existing credentials
    /// (none are named when there are none).
    pub fn start_register(
        &self,
        user_id: Uuid,
        name: &str,
        display: &str,
        exclude: &[Passkey],
    ) -> (r: Result<(CreationChallengeResponse, PasskeyRegistration), AuthError>)
        ensures
            r matches Err(e) ==> e is WebAuthn,
    {
        let ids = credential_ids(exclude);
        match start_passkey_registration(&self.inner, user_id, name, display, exclusion_list(ids)) {
            Ok(p) => Ok(p),
            Err(m) => Err(AuthError::WebAuthn(m)),
        }
    }

    /// Finishes a registration: the passkey to store.
    pub fn finish_register(
        &self,
        reg: &RegisterPublicKeyCredential,
        state: &PasskeyRegistration,
    ) -> (r: Result<Passkey, AuthError>)
        ensures
            r is Ok <==> registration_outcome(self.relying_party(), *reg, *state) is Ok,
            r matches Ok(p) ==> registration_outcome(self.relying_party(), *reg, *state) == Ok::<Passkey, Seq<char>>(p),
            r matches Err(e) ==> (e matches AuthError::WebAuthn(m) && registration_outcome(self.relying_party(), *reg, *state)
                == Err::<Passkey, Seq<char>>(m@)),
    {
        match finish_passkey_registration(&self.inner, reg, state) {
            Ok(p) => Ok(p),
            Err(m) => Err(AuthError::WebAuthn(m)),
        }
    }

    /// Starts an authentication against the user's registered passkeys; it
    /// always gives a challenge and the state to keep.
    pub fn start_auth(&self, passkeys: &[Passkey]) -> (r: Result<
        (RequestChallengeResponse, PasskeyAuthentication),
        AuthError,
    >)
        ensures
            r is Ok,
            r matches Err(e) ==> e is WebAuthn,
    {
        match start_passkey_authentication(&self.inner, passkeys) {
            Ok(p) => Ok(p),
            Err(m) => Err(AuthError::WebAuthn(m)),
        }
    }

    /// Finishes an authentication: the checked result.
    pub fn finish_auth(
        &self,
        cred: &PublicKeyCredential,
        state: &PasskeyAuthentication,
    ) -> (r: Result<AuthenticationResult, AuthError>)
        ensures
            r is Ok <==> authentication_outcome(self.relying_party(), *cred, *state) is Ok,
            r matches Ok(a) ==> authentication_outcome(self.relying_party(), *cred, *state) == Ok::<
                AuthenticationResult,
                Seq<char>,
            >(a),
            r matches Err(e) ==> (e matches AuthError::WebAuthn(m) && authentication_outcome(self.relying_party(), *cred, *state)
                == Err::<AuthenticationResult, Seq<char>>(m@)),
    {
        match finish_passkey_authentication(&self.inner, cred, state) {
            Ok(p) => Ok(p),
            Err(m) => Err(AuthError::WebAuthn(m)),
        }
    }
}

/// The WebAuthn user handle of a user: the UUID whose 128-bit value is the
/// user's id.
pub fn user_uuid(snowflake: u64) -> (r: Uuid)
    ensures
        r == uuid_of(snowflake as u128),
{
    uuid_from_u128(snowflake as u128)
}

/// The id bytes of a passkey's credential (the key it is stored under).
pub fn cred_id_bytes(p: &Passkey) -> (r: Vec<u8>)
    ensures
        r@ == credential_bytes_of(credential_id_of(*p)),
{
    let c = passkey_cred_id(p);
    credential_bytes(&c)
}

} // verus!
