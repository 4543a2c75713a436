//! Time-based one-time passwords (RFC 6238) for multi-factor sign-in.
use vstd::prelude::*;
use crate::identity::IdentityError;
use crate::messaging_types::now_millis;

verus! {

/// The `totp_rs::TOTP` generator.
#[verifier::external_type_specification]
#[verifier::external_body]
pub struct ExTotp(totp_rs::TOTP);

/// RFC 4648 base32 decoding without padding, as `totp_rs::Secret::Encoded`
/// performs it; `None` when the text is not valid base32.
pub uninterp spec fn base32_decoded(text: Seq<char>) -> Option<Seq<u8>>;

/// Number of digits of a code.
pub const TOTP_DIGITS: usize = 6;

/// Accepted clock skew, in steps.
pub const TOTP_SKEW: u8 = 1;

/// Length of a time step, in seconds.
pub const TOTP_STEP_SECS: u64 = 30;

/// Calls `Secret::Encoded(secret).to_bytes()`: the base32-decoded secret,
/// or the crate's parse error, rendered.
#[verifier::external_body]
fn decode_secret(secret: &str) -> (r: Result<Vec<u8>, String>)
    ensures
        r is Ok <==> base32_decoded(secret@) is Some,
        r is Ok ==> r->Ok_0@ == base32_decoded(secret@)->Some_0,
        r is Err ==> r->Err_0@ == "Could not decode base32 secret."@,
{
    totp_rs::Secret::Encoded(secret.to_string()).to_bytes().map_err(|e| e.to_string())
}

/// Calls `TOTP::new` with SHA-1 and the given parameters. The crate refuses
/// a digit count outside 6..=8, a secret shorter than 16 bytes, and an
/// issuer or account name holding `':'`; the error comes back rendered.
#[verifier::external_body]
fn new_totp_sha1(digits: usize, skew: u8, step: u64, secret: Vec<u8>, issuer: String, account: String) -> (r: Result<totp_rs::TOTP, String>)
    ensures
        r is Ok <==> (digits >= 6 && digits <= 8 && secret@.len() >= 16 && !issuer@.contains(':') && !account@.contains(':')),
{
    totp_rs::TOTP::new(totp_rs::Algorithm::SHA1, digits, skew, step, secret, Some(issuer), account).map_err(
        |e| e.to_string(),
    )
}

/// The provisioning URL that `TOTP::get_url` writes for a SHA-1, 6-digit,
/// 30-second generator over the secret bytes, with that issuer and account
/// name.
pub uninterp spec fn totp_provisioning_url(secret: Seq<u8>, issuer: Seq<char>, account: Seq<char>) -> Seq<char>;

/// Calls `TOTP::get_url` on a SHA-1, 6-digit, 30-second generator over
/// `secret` with one step of skew, `issuer` and `account` (built with
/// `TOTP::new_unchecked`, which stores the fields as given). Claimed: the
/// URL is the named one (`get_url` reads only those fields), and it starts
/// with `otpauth://totp/`.
#[verifier::external_body]
fn totp_url(secret: &Vec<u8>, issuer: &str, account: &str) -> (u: String)
    ensures
        u@ == totp_provisioning_url(secret@, issuer@, account@),
        u@.len() >= 15,
        u@.subrange(0, 15) == "otpauth://totp/"@,
{
    totp_rs::TOTP::new_unchecked(totp_rs::Algorithm::SHA1, 6, 1, 30, secret.clone(), Some(issuer.to_string()), account.to_string())
        .get_url()
}

/// Whether `TOTP::check` accepts `code` at Unix time `time` (seconds) for a
/// SHA-1, 6-digit, 30-second generator with one step of skew over the
/// secret bytes `secret`: `code` is the code of the step holding `time` or
/// of one of its two neighbours.
pub uninterp spec fn totp_accepts_code(secret: Seq<u8>, code: Seq<char>, time: u64) -> bool;

/// Calls `TOTP::check` at `time` on a SHA-1, 6-digit, 30-second generator
/// with one step of skew over `secret` (built with `TOTP::new_unchecked`;
/// issuer and account do not enter the check). Claimed: the answer is the
/// named verdict. `check` subtracts the skew from the step number and
/// multiplies steps back by 30, so the time must be at least one step and
/// leave room for two more.
#[verifier::external_body]
fn totp_check_at(secret: &Vec<u8>, code: &str, time: u64) -> (b: bool)
    requires
        30 <= time <= u64::MAX - 60,
    ensures
        b == totp_accepts_code(secret@, code@, time),
{
    totp_rs::TOTP::new_unchecked(totp_rs::Algorithm::SHA1, 6, 1, 30, secret.clone(), None, String::new()).check(code, time)
}

/// Calls `Secret::generate_secret().to_encoded()`: 160 random bits (20
/// bytes) in unpadded RFC 4648 base32, 32 characters. Claimed: the text
/// decodes back to 20 bytes. Which bytes is not stated: they are random.
#[verifier::external_body]
fn random_base32_secret() -> (s: String)
    ensures
        s@.len() == 32,
        base32_decoded(s@) is Some,
        base32_decoded(s@)->Some_0.len() == 20,
{
    totp_rs::Secret::generate_secret().to_encoded().to_string()
}

/// The TOTP generator accepts these parameters.
pub open spec fn totp_accepts(secret: Seq<char>, account: Seq<char>, issuer: Seq<char>) -> bool {
    &&& base32_decoded(secret) is Some
    &&& base32_decoded(secret)->Some_0.len() >= 16
    &&& !issuer.contains(':')
    &&& !account.contains(':')
}

/// Whether `code` passes for the base32 `secret` at Unix time `t`: never
/// within the first step after the epoch, otherwise as `TOTP::check` says.
pub open spec fn code_verdict(secret: Seq<char>, code: Seq<char>, t: u64) -> bool {
    30 <= t && totp_accepts_code(base32_decoded(secret)->Some_0, code, t)
}

/// TOTP service (SHA-1, 6 digits, 30-second steps, one step of skew).
pub struct TotpService;

impl TotpService {
    /// A new random secret of 20 bytes, base32-encoded.
    pub fn generate_secret() -> (s: String)
        ensures
            s@.len() == 32,
            base32_decoded(s@) is Some,
        base32_decoded(s@)->Some_0.len() == 20,
    {
        random_base32_secret()
    }

    fn build_totp(secret: &str, account: &str, issuer: &str) -> (r: Result<totp_rs::TOTP, IdentityError>)
        ensures
            r is Ok <==> totp_accepts(secret@, account@, issuer@),
            r matches Err(e) ==> e is Internal,
            base32_decoded(secret@) is None ==> (r matches Err(IdentityError::Internal(m)) && m@
                == "Could not decode base32 secret."@),
    {
        let bytes = match decode_secret(secret) {
            Ok(b) => b,
            Err(m) => {
                return Err(IdentityError::Internal(m));
            },
        };
        match new_totp_sha1(TOTP_DIGITS, TOTP_SKEW, TOTP_STEP_SECS, bytes, issuer.to_string(), account.to_string()) {
            Ok(t) => Ok(t),
            Err(m) => Err(IdentityError::Internal(m)),
        }
    }

    /// The `otpauth://` provisioning URI to show as a QR code.
    pub fn provisioning_uri(secret: &str, account: &str, issuer: &str) -> (r: Result<String, IdentityError>)
        ensures
            r is Ok <==> totp_accepts(secret@, account@, issuer@),
            r matches Ok(u) ==> u@ == totp_provisioning_url(base32_decoded(secret@)->Some_0, issuer@, account@),
            r matches Ok(u) ==> u@.len() >= 15 && u@.subrange(0, 15) == "otpauth://totp/"@,
            r matches Err(e) ==> e is Internal,
            base32_decoded(secret@) is None ==> (r matches Err(IdentityError::Internal(m)) && m@
                == "Could not decode base32 secret."@),
    {
        let _totp = Self::build_totp(secret, account, issuer)?;
        let bytes = match decode_secret(secret) {
            Ok(b) => b,
            Err(m) => {
                return Err(IdentityError::Internal(m));
            },
        };
        Ok(totp_url(&bytes, issuer, account))
    }

    /// Whether `code` is the 6-digit code at Unix time `time` (seconds) or
    /// one step before or after it; an internal error when the parameters
    /// are refused.
    pub fn verify_code_at(secret: &str, code: &str, account: &str, issuer: &str, time: u64) -> (r: Result<bool, IdentityError>)
        requires
            30 <= time <= u64::MAX - 60,
        ensures
            r is Ok <==> totp_accepts(secret@, account@, issuer@),
            r matches Ok(b) ==> b == totp_accepts_code(base32_decoded(secret@)->Some_0, code@, time),
            r matches Err(e) ==> e is Internal,
            base32_decoded(secret@) is None ==> (r matches Err(IdentityError::Internal(m)) && m@
                == "Could not decode base32 secret."@),
    {
        let _totp = Self::build_totp(secret, account, issuer)?;
        let bytes = match decode_secret(secret) {
            Ok(b) => b,
            Err(m) => {
                return Err(IdentityError::Internal(m));
            },
        };
        Ok(totp_check_at(&bytes, code, time))
    }

    /// Whether `code` is the current 6-digit code, one step of skew either
    /// way (a clock within the first step after the Unix epoch counts as a
    /// mismatch).
    pub fn verify_code(secret: &str, code: &str, account: &str, issuer: &str) -> (r: Result<bool, IdentityError>)
        ensures
            r is Ok <==> totp_accepts(secret@, account@, issuer@),
            r matches Ok(b) ==> exists|t: u64| t < 10_000_000_000_000 && #[trigger] code_verdict(secret@, code@, t) == b,
            r matches Err(e) ==> e is Internal,
            base32_decoded(secret@) is None ==> (r matches Err(IdentityError::Internal(m)) && m@
                == "Could not decode base32 secret."@),
    {
        let ms = now_millis();
        let now = ms / 1000;
        assert(0 <= now < 10_000_000_000_000) by (nonlinear_arith)
            requires 0 <= ms < 10_000_000_000_000_000, now == ms / 1000;
        let t = now as u64;
        if t < 30 {
            let _totp = Self::build_totp(secret, account, issuer)?;
            assert(code_verdict(secret@, code@, t) == false);
            return Ok(false);
        }
        let r = Self::verify_code_at(secret, code, account, issuer, t);
        proof {
            if r is Ok {
                assert(code_verdict(secret@, code@, t) == r->Ok_0);
            }
        }
        r
    }
}

} // verus!
