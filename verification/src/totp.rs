//! The code-generation engine: the short-secret padding policy, RFC 6238
//! code generation with SHA-1, 6 digits and a 30-second step, and the
//! expiry timestamp of the current code.

use vstd::prelude::*;
use vstd::string::StrSliceExecFns;
use vstd::string::StringExecFns;

use crate::errors::TotpError;

verus! {

/// The padding policy: a Base32 secret shorter than 26 characters is
/// right-padded with `A` (which decodes to zero bits) up to 26 characters;
/// longer secrets are left unchanged.
pub open spec fn normalized_secret(s: Seq<char>) -> Seq<char> {
    if s.len() >= 26 {
        s
    } else {
        s + Seq::new((26 - s.len()) as nat, |i: int| 'A')
    }
}

/// Pads a short Base32 secret with `A` characters up to 26 characters.
/// This deliberately alters the decoded bytes (unlike `=` padding): it is
/// a compatibility shim for exporters that hand out short secrets.
pub fn accounts_get_valid_secret(secret_b32: String) -> (r: String)
    ensures
        r@ == normalized_secret(secret_b32@),
        r@.len() >= 26,
{
    let ghost orig: Seq<char> = secret_b32@;
    let mut secret = secret_b32;
    proof {
        assert(secret@.subrange(0, orig.len() as int) =~= orig);
    }
    while secret.unicode_len() < 26
        invariant
            secret@.len() >= orig.len(),
            orig.len() >= 26 ==> secret@ == orig,
            orig.len() < 26 ==> secret@.len() <= 26,
            secret@.subrange(0, orig.len() as int) == orig,
            forall|i: int| orig.len() <= i < secret@.len() ==> secret@[i] == 'A',
        decreases 26 - secret@.len(),
    {
        proof {
            reveal_strlit("A");
        }
        secret.append("A");
        proof {
            assert(secret@.subrange(0, orig.len() as int) =~= orig);
        }
    }
    proof {
        assert(secret@ =~= normalized_secret(orig));
    }
    secret
}

/// The unix-second timestamp at which the code for time `at` rotates.
pub open spec fn expiry_spec(at: u64) -> int {
    at + (30 - at % 30)
}

/// Returns the next 30-second boundary strictly after `at`: even on a
/// boundary the result is a full step later, so a fresh code always has
/// between 1 and 30 seconds to live.
pub fn expiry_for(at: u64) -> (r: u64)
    requires
        at <= u64::MAX - 30,
    ensures
        r == expiry_spec(at),
        at < r <= at + 30,
        r % 30 == 0,
{
    let step: u64 = 30;
    let remainder: u64 = at % step;
    let r = at + (step - remainder);
    proof {
        let q = at as int / 30;
        vstd::arithmetic::div_mod::lemma_fundamental_div_mod(at as int, 30);
        assert(r as int == 30 * (q + 1));
        assert((30 * (q + 1)) % 30 == 0) by (nonlinear_arith);
    }
    r
}

/// The RFC 6238 code that SHA-1 HMAC yields for a given secret, digit
/// count, step and timestamp. The value is fixed by those arguments alone.
pub uninterp spec fn totp_sha1_code(secret: Seq<u8>, digits: usize, step: u64, time: u64) -> Seq<char>;

/// True when every character of `s` is a decimal digit.
pub open spec fn all_decimal_digits(s: Seq<char>) -> bool {
    forall|i: int| 0 <= i < s.len() ==> '0' <= #[trigger] s[i] <= '9'
}

/// Relies on totp_rs::TOTP: `new` with the SHA-1 algorithm accepts 6 to 8
/// digits and a secret of at least 16 bytes, and `generate` returns the
/// RFC 6238 code for the timestamp, zero-padded to `digits` decimal
/// digits. The skew argument of `new` plays no part in generation, and the
/// code depends on the arguments below alone.
#[verifier::external_body]
fn totp_sha1_generate(digits: usize, step: u64, secret: &Vec<u8>, time: u64) -> (r: String)
    requires
        6 <= digits <= 8,
        1 <= step,
        secret@.len() >= 16,
    ensures
        r@ == totp_sha1_code(secret@, digits, step, time),
        r@.len() == digits,
        all_decimal_digits(r@),
{
    let totp = totp_rs::TOTP::new(totp_rs::Algorithm::SHA1, digits, 1, step, secret.clone())
        .unwrap();
    totp.generate(time)
}

/// What a Base32 string decodes to, if it decodes at all. The value is
/// fixed by the characters alone.
pub uninterp spec fn b32_decoded(s: Seq<char>) -> Option<Seq<u8>>;

/// Relies on totp_rs::Secret::to_bytes, which decodes an RFC 4648 Base32
/// string (unpadded alphabet) and fails exactly on strings that are not
/// valid Base32.
#[verifier::external_body]
pub(crate) fn b32_decode(s: &str) -> (r: Option<Vec<u8>>)
    ensures
        r is Some <==> b32_decoded(s@) is Some,
        r is Some ==> r.unwrap()@ == b32_decoded(s@).unwrap(),
{
    match totp_rs::Secret::Encoded(s.to_owned()).to_bytes() {
        Ok(bytes) => Some(bytes),
        Err(_) => None,
    }
}

/// The outcome of code generation on already-decoded secret bytes.
pub open spec fn code_spec(secret: Seq<u8>, at: u64) -> Result<Seq<char>, TotpError> {
    if secret.len() < 16 {
        Err(TotpError::SecretTooSmall)
    } else {
        Ok(totp_sha1_code(secret, 6, 30, at))
    }
}

/// Generates the 6-digit code for `secret_bytes` at unix time `at`, with
/// the fixed SHA-1, 6-digit, 30-second policy. Succeeds exactly on
/// secrets of at least 128 bits.
pub fn generate_code(secret_bytes: &Vec<u8>, at: u64) -> (r: Result<String, TotpError>)
    ensures
        r is Ok <==> secret_bytes@.len() >= 16,
        r is Ok ==> r.unwrap()@ == code_spec(secret_bytes@, at).unwrap()
            && r.unwrap()@.len() == 6 && all_decimal_digits(r.unwrap()@),
        r is Err ==> code_spec(secret_bytes@, at) == Err::<Seq<char>, TotpError>(r.unwrap_err()),
{
    if secret_bytes.len() < 16 {
        Err(TotpError::SecretTooSmall)
    } else {
        Ok(totp_sha1_generate(6, 30, secret_bytes, at))
    }
}

} // verus!
