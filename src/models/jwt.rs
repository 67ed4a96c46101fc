use crate::config::Config;
use crate::models::claims_reader::{lemma_claims_json_injective, read_claims};
use crate::models::permission::{permissions_view, Access, Permission, PermissionView};
use vstd::prelude::*;

verus! {

#[verifier::external_type_specification]
#[verifier::external_body]
pub struct ExJwtError(jsonwebtoken::errors::Error);

/// The claims a token carries: who it was issued to, by which company, until when
/// (seconds since the Unix epoch), and the permissions granted.
#[derive(Debug, PartialEq, Eq)]
pub struct JWTClaim {
    pub sub: String,
    pub company: String,
    pub exp: u64,
    pub permissions: Vec<Permission>,
}

pub struct JWTClaimView {
    pub sub: Seq<char>,
    pub company: Seq<char>,
    pub exp: u64,
    pub permissions: Seq<PermissionView>,
}

impl View for JWTClaim {
    type V = JWTClaimView;

    open spec fn view(&self) -> JWTClaimView {
        JWTClaimView {
            sub: self.sub@,
            company: self.company@,
            exp: self.exp,
            permissions: permissions_view(self.permissions@),
        }
    }
}

/// Why issuing a token failed.
#[derive(Debug, Clone, Copy, PartialEq, Eq, Structural)]
pub enum TokenError {
    /// The signing primitive refused the claims or the key.
    Signing,
}

/// The hexadecimal digits, in order.
pub open spec fn hex_digits() -> Seq<char> {
    seq!['0', '1', '2', '3', '4', '5', '6', '7', '8', '9', 'a', 'b', 'c', 'd', 'e', 'f']
}

/// How `c` is written inside a JSON string: `"` and `\` behind a backslash, the control
/// characters with a short escape where JSON has one and as `\u00XX` otherwise, every other
/// character as itself.
pub open spec fn json_escaped_char(c: char) -> Seq<char> {
    if c == '"' {
        seq!['\\', '"']
    } else if c == '\\' {
        seq!['\\', '\\']
    } else if c == '\u{8}' {
        seq!['\\', 'b']
    } else if c == '\t' {
        seq!['\\', 't']
    } else if c == '\n' {
        seq!['\\', 'n']
    } else if c == '\u{c}' {
        seq!['\\', 'f']
    } else if c == '\r' {
        seq!['\\', 'r']
    } else if (c as u32) < 32 {
        seq!['\\', 'u', '0', '0', hex_digits()[((c as u32) / 16) as int], hex_digits()[((c as u32) % 16) as int]]
    } else {
        seq![c]
    }
}

/// The characters of `s` as they stand inside a JSON string.
pub open spec fn json_escape(s: Seq<char>) -> Seq<char>
    decreases s.len(),
{
    if s.len() == 0 {
        Seq::empty()
    } else {
        json_escape(s.drop_last()) + json_escaped_char(s.last())
    }
}

/// `s` as a JSON string.
pub open spec fn json_string(s: Seq<char>) -> Seq<char> {
    seq!['"'] + json_escape(s) + seq!['"']
}

/// The decimal digits of `n`.
pub open spec fn decimal(n: nat) -> Seq<char>
    decreases n,
{
    if n < 10 {
        seq![hex_digits()[n as int]]
    } else {
        decimal(n / 10) + seq![hex_digits()[(n % 10) as int]]
    }
}

/// The JSON name of an access kind.
pub open spec fn access_json(a: Access) -> Seq<char> {
    match a {
        Access::READ => "\"READ\""@,
        Access::WRITE => "\"WRITE\""@,
        Access::EXECUTE => "\"EXECUTE\""@,
    }
}

/// A permission as a JSON object.
pub open spec fn permission_json(p: PermissionView) -> Seq<char> {
    "{\"name\":"@ + json_string(p.name) + ",\"description\":"@ + json_string(p.description)
        + ",\"access_type\":"@ + access_json(p.access_type) + "}"@
}

/// Permissions as the elements of a JSON array, separated by commas.
pub open spec fn permissions_json(ps: Seq<PermissionView>) -> Seq<char>
    decreases ps.len(),
{
    if ps.len() == 0 {
        Seq::empty()
    } else if ps.len() == 1 {
        permission_json(ps[0])
    } else {
        permissions_json(ps.drop_last()) + seq![','] + permission_json(ps.last())
    }
}

/// The claims as the JSON object that a token carries.
pub open spec fn claims_json(c: JWTClaimView) -> Seq<char> {
    "{\"sub\":"@ + json_string(c.sub) + ",\"company\":"@ + json_string(c.company) + ",\"exp\":"@
        + decimal(c.exp as nat) + ",\"permissions\":["@ + permissions_json(c.permissions) + "]}"@
}

/// The token that signs `claims` (a JSON object) with `secret` under the default header.
pub uninterp spec fn signed_token(claims: Seq<char>, secret: Seq<char>) -> Seq<char>;

fn push_hex_digit(out: &mut String, d: u32)
    requires
        d < 16,
    ensures
        final(out)@ == old(out)@ + seq![hex_digits()[d as int]],
{
    let digits = "0123456789abcdef";
    proof {
        reveal_strlit("0123456789abcdef");
        assert(digits@ =~= hex_digits());
    }
    let one = digits.substring_char(d as usize, d as usize + 1);
    out.append(one);
    proof {
        assert(one@ =~= seq![hex_digits()[d as int]]);
    }
}

/// Appends the escape of the character at `i` of `s`.
fn push_json_char(out: &mut String, s: &str, i: usize)
    requires
        i < s@.len() <= usize::MAX,
    ensures
        final(out)@ == old(out)@ + json_escaped_char(s@[i as int]),
{
    let c = s.get_char(i);
    let code = c as u32;
    if c == '"' {
        out.append("\\\"");
        proof {
            reveal_strlit("\\\"");
        }
    } else if c == '\\' {
        out.append("\\\\");
        proof {
            reveal_strlit("\\\\");
        }
    } else if c == '\u{8}' {
        out.append("\\b");
        proof {
            reveal_strlit("\\b");
        }
    } else if c == '\t' {
        out.append("\\t");
        proof {
            reveal_strlit("\\t");
        }
    } else if c == '\n' {
        out.append("\\n");
        proof {
            reveal_strlit("\\n");
        }
    } else if c == '\u{c}' {
        out.append("\\f");
        proof {
            reveal_strlit("\\f");
        }
    } else if c == '\r' {
        out.append("\\r");
        proof {
            reveal_strlit("\\r");
        }
    } else if code < 32 {
        out.append("\\u00");
        proof {
            reveal_strlit("\\u00");
        }
        push_hex_digit(out, code / 16);
        push_hex_digit(out, code % 16);
    } else {
        let one = s.substring_char(i, i + 1);
        out.append(one);
        proof {
            assert(one@ =~= seq![c]);
        }
    }
    proof {
        assert(final(out)@ =~= old(out)@ + json_escaped_char(c));
    }
}

/// Appends `s` as a JSON string.
fn push_json_string(out: &mut String, s: &str)
    ensures
        final(out)@ == old(out)@ + json_string(s@),
{
    let ghost start = out@;
    out.append("\"");
    proof {
        reveal_strlit("\"");
    }
    let n = s.unicode_len();
    let mut i: usize = 0;
    while i < n
        invariant
            n == s@.len(),
            i <= n,
            out@ == start + seq!['"'] + json_escape(s@.take(i as int)),
        decreases n - i,
    {
        push_json_char(out, s, i);
        i = i + 1;
        proof {
            let t = s@.take(i as int);
            assert(t.drop_last() =~= s@.take(i - 1));
            assert(t.last() == s@[i - 1]);
        }
    }
    assert(s@.take(n as int) =~= s@);
    out.append("\"");
    proof {
        assert(out@ =~= start + json_string(s@));
    }
}

/// Appends the decimal digits of `n`.
fn push_decimal(out: &mut String, n: u64)
    ensures
        final(out)@ == old(out)@ + decimal(n as nat),
    decreases n,
{
    if n >= 10 {
        push_decimal(out, n / 10);
    }
    push_hex_digit(out, (n % 10) as u32);
    proof {
        assert(final(out)@ =~= old(out)@ + decimal(n as nat));
    }
}

/// Appends a permission as a JSON object.
fn push_permission(out: &mut String, p: &Permission)
    ensures
        final(out)@ == old(out)@ + permission_json(p@),
{
    let ghost start = out@;
    out.append("{\"name\":");
    push_json_string(out, p.name.as_str());
    out.append(",\"description\":");
    push_json_string(out, p.description.as_str());
    out.append(",\"access_type\":");
    match p.access_type {
        Access::READ => out.append("\"READ\""),
        Access::WRITE => out.append("\"WRITE\""),
        Access::EXECUTE => out.append("\"EXECUTE\""),
    }
    out.append("}");
    proof {
        assert(out@ =~= start + permission_json(p@));
    }
}

/// Appends permissions as the elements of a JSON array.
fn push_permissions(out: &mut String, ps: &Vec<Permission>)
    ensures
        final(out)@ == old(out)@ + permissions_json(permissions_view(ps@)),
{
    let ghost start = out@;
    let ghost pv = permissions_view(ps@);
    let mut i: usize = 0;
    while i < ps.len()
        invariant
            i <= ps.len(),
            pv == permissions_view(ps@),
            out@ == start + permissions_json(pv.take(i as int)),
        decreases ps.len() - i,
    {
        if i > 0 {
            out.append(",");
            proof {
                reveal_strlit(",");
            }
        }
        push_permission(out, &ps[i]);
        i = i + 1;
        proof {
            let t = pv.take(i as int);
            assert(t.drop_last() =~= pv.take(i - 1));
            assert(t.last() == ps@[i - 1]@);
            if i == 1 {
                assert(pv.take(0) =~= Seq::<PermissionView>::empty());
            }
            assert(out@ =~= start + permissions_json(t));
        }
    }
    assert(pv.take(ps.len() as int) =~= pv);
}

/// Writes the claims as the JSON object that a token carries.
pub fn write_claims(c: &JWTClaim) -> (r: String)
    ensures
        r@ == claims_json(c@),
{
    let mut out = String::from_str("{\"sub\":");
    push_json_string(&mut out, c.sub.as_str());
    out.append(",\"company\":");
    push_json_string(&mut out, c.company.as_str());
    out.append(",\"exp\":");
    push_decimal(&mut out, c.exp);
    out.append(",\"permissions\":[");
    push_permissions(&mut out, &c.permissions);
    out.append("]}");
    proof {
        assert(out@ =~= claims_json(c@));
    }
    out
}

/// Relies on jsonwebtoken::encode under the default header (HS256) and a key made by
/// EncodingKey::from_secret: the claims text, which serde_json's RawValue carries
/// unchanged, is signed with the secret; the result depends on the two texts alone.
/// RawValue::from_string accepts any valid JSON text, such as the claims this library
/// writes, and with an HMAC key under the HS256 header encode cannot fail.
#[verifier::external_body]
fn sign_claims(claims: &str, secret: &str) -> (r: Result<String, jsonwebtoken::errors::Error>)
    ensures
        r matches Ok(t) ==> t@ == signed_token(claims@, secret@),
        (exists|c: JWTClaimView| #[trigger] claims_json(c) == claims@) ==> r is Ok,
{
    let raw = serde_json::value::RawValue::from_string(claims.to_string()).map_err(
        jsonwebtoken::errors::Error::from,
    )?;
    let key = jsonwebtoken::EncodingKey::from_secret(secret.as_bytes());
    jsonwebtoken::encode(&jsonwebtoken::Header::default(), &raw, &key)
}

/// Relies on chrono's `From<SystemTime> for DateTime<Utc>` and DateTime::timestamp: the
/// seconds since the Unix epoch by the system clock, negative for a clock set before it.
/// The reading depends on the clock, so nothing is stated of it.
#[verifier::external_body]
fn current_timestamp() -> (r: i64) {
    chrono::DateTime::<chrono::Utc>::from(std::time::SystemTime::now()).timestamp()
}

/// When a token issued at `now` with a lifetime of `ttl` seconds expires: `now + ttl`,
/// brought to the nearest timestamp in `0..=u64::MAX` where it falls outside.
pub open spec fn expiry_at(now: int, ttl: u64) -> u64 {
    if now + ttl < 0 {
        0
    } else if now + ttl > u64::MAX {
        u64::MAX
    } else {
        (now + ttl) as u64
    }
}

/// The claims of a token issued to `user_id` with `permissions` that expires at `exp`.
pub open spec fn claims_for(
    user_id: Seq<char>,
    company: Seq<char>,
    exp: u64,
    permissions: Seq<PermissionView>,
) -> JWTClaimView {
    JWTClaimView { sub: user_id, company, exp, permissions }
}

/// The token issued to `user_id` with `permissions` at time `now` under `config`.
pub open spec fn token_issued_at(
    user_id: Seq<char>,
    permissions: Seq<PermissionView>,
    now: int,
    config: Config,
) -> Seq<char> {
    signed_token(
        claims_json(
            claims_for(
                user_id,
                config.jwt_company@,
                expiry_at(now, config.jwt_expiration_time_seconds),
                permissions,
            ),
        ),
        config.jwt_secret_key@,
    )
}

/// Issues a token for `user_id` with `permissions` at time `now` (seconds since the Unix
/// epoch): it expires `config.jwt_expiration_time_seconds` later (see `expiry_at`), names
/// the configured company, and is signed with the configured secret. It always succeeds.
pub fn issue_token_at(user_id: &str, permissions: Vec<Permission>, now: i64, config: &Config) -> (r:
    Result<String, TokenError>)
    ensures
        r matches Ok(t) && t@ == token_issued_at(
            user_id@,
            permissions_view(permissions@),
            now as int,
            *config,
        ),
{
    let ttl = config.jwt_expiration_time_seconds;
    let exp: u64;
    if now >= 0 {
        let n = now as u64;
        if n > u64::MAX - ttl {
            exp = u64::MAX;
        } else {
            exp = n + ttl;
        }
    } else if (-(now as i128)) > ttl as i128 {
        exp = 0;
    } else {
        exp = (ttl as i128 + now as i128) as u64;
    }
    let claims = JWTClaim {
        sub: String::from_str(user_id),
        company: config.jwt_company.clone(),
        exp,
        permissions,
    };
    let text = write_claims(&claims);
    assert(claims_json(claims@) == text@);
    match sign_claims(text.as_str(), config.jwt_secret_key.as_str()) {
        Ok(token) => Ok(token),
        Err(_) => Err(TokenError::Signing),
    }
}

/// Issues a token for `user_id` with `permissions`, expiring the configured number of
/// seconds after the current time. It always succeeds.
pub fn issue_token(user_id: &str, permissions: Vec<Permission>, config: &Config) -> (r: Result<
    String,
    TokenError,
>)
    ensures
        r matches Ok(t) && exists|now: i64|
            t@ == #[trigger] token_issued_at(
                user_id@,
                permissions_view(permissions@),
                now as int,
                *config,
            ),
{
    let now = current_timestamp();
    issue_token_at(user_id, permissions, now, config)
}

/// Why a token was refused.
#[derive(Debug, Clone, Copy, PartialEq, Eq, Structural)]
pub enum ValidationError {
    /// It is not shaped like a token.
    InvalidToken,
    /// The key has the wrong format.
    InvalidKeyFormat,
    /// It has expired.
    ExpiredSignature,
    /// Its issuer is not the one expected.
    InvalidIssuer,
    /// Its subject is not the one expected.
    InvalidSubject,
    /// Its audience is not the one expected.
    InvalidAudience,
    /// Its signature does not match.
    InvalidSignature,
    /// Its algorithm is not the one expected.
    InvalidAlgorithm,
    /// Any other reason, such as claims that are not of the expected shape.
    Invalid,
}

/// Relies on jsonwebtoken::decode with a key made by DecodingKey::from_secret and the
/// default validation (HS256 only, `exp` required) with `validate_exp` turned off, so
/// that decoding does not read the clock: the claims text of a token that passes, which
/// serde_json's RawValue keeps as it stood in the token. A token signed from this
/// library's claims text with the same secret passes (header, signature and required
/// `exp` all check), and gives back that text: its claims part is the encoded text.
#[verifier::external_body]
fn decode_claims(token: &str, secret: &str) -> (r: Result<String, jsonwebtoken::errors::Error>)
    ensures
        forall|c: JWTClaimView| #[trigger]
            signed_token(claims_json(c), secret@) == token@ ==> r is Ok,
        forall|c: JWTClaimView| #[trigger]
            signed_token(claims_json(c), secret@) == token@ ==> (r matches Ok(text) ==> text@
                == claims_json(c)),
{
    let key = jsonwebtoken::DecodingKey::from_secret(secret.as_bytes());
    let mut validation = jsonwebtoken::Validation::default();
    validation.validate_exp = false;
    jsonwebtoken::decode::<Box<serde_json::value::RawValue>>(token, &key, &validation).map(
        |data| data.claims.get().to_string(),
    )
}

/// Relies on jsonwebtoken::errors::Error::kind: tells the kinds of refusal apart.
#[verifier::external_body]
fn refusal_kind(e: &jsonwebtoken::errors::Error) -> (r: ValidationError) {
    match e.kind() {
        jsonwebtoken::errors::ErrorKind::InvalidToken => ValidationError::InvalidToken,
        jsonwebtoken::errors::ErrorKind::InvalidKeyFormat => ValidationError::InvalidKeyFormat,
        jsonwebtoken::errors::ErrorKind::ExpiredSignature => ValidationError::ExpiredSignature,
        jsonwebtoken::errors::ErrorKind::InvalidIssuer => ValidationError::InvalidIssuer,
        jsonwebtoken::errors::ErrorKind::InvalidSubject => ValidationError::InvalidSubject,
        jsonwebtoken::errors::ErrorKind::InvalidAudience => ValidationError::InvalidAudience,
        jsonwebtoken::errors::ErrorKind::InvalidSignature => ValidationError::InvalidSignature,
        jsonwebtoken::errors::ErrorKind::InvalidAlgorithm => ValidationError::InvalidAlgorithm,
        _ => ValidationError::Invalid,
    }
}

/// The claims of a token that passed the checks, read from the claims text it carried:
/// the claims whose text it is; a text that this library's writer makes of no claims is
/// refused as `Invalid`, and a refusal passes through.
pub fn claims_of_accepted(decoded: Result<String, ValidationError>) -> (r: Result<
    JWTClaim,
    ValidationError,
>)
    ensures
        decoded matches Err(e) ==> r == Err::<JWTClaim, ValidationError>(e),
        decoded matches Ok(text) ==> {
            &&& (exists|c: JWTClaimView| #[trigger] claims_json(c) == text@) <==> r is Ok
            &&& !(exists|c: JWTClaimView| #[trigger] claims_json(c) == text@) ==> r == Err::<
                JWTClaim,
                ValidationError,
            >(ValidationError::Invalid)
            &&& r matches Ok(c) ==> claims_json(c@) == text@
        },
{
    match decoded {
        Ok(text) => match read_claims(text.as_str()) {
            Some(c) => Ok(c),
            None => Err(ValidationError::Invalid),
        },
        Err(e) => Err(e),
    }
}

/// The leeway, in seconds, granted to the clock when a token's expiry is checked.
pub const EXPIRY_LEEWAY: u64 = 60;

/// Whether a token that expires at `exp` counts as expired at time `now`: its expiry lies
/// more than the leeway before `now`.
pub open spec fn expired(exp: u64, now: int) -> bool {
    (exp as int) < now - EXPIRY_LEEWAY
}

/// Refuses claims that have expired at time `now` as `ExpiredSignature`; other claims and
/// refusals pass through.
pub fn check_expiry(claims: Result<JWTClaim, ValidationError>, now: i64) -> (r: Result<
    JWTClaim,
    ValidationError,
>)
    ensures
        claims matches Err(e) ==> r == Err::<JWTClaim, ValidationError>(e),
        claims matches Ok(c) ==> (if expired(c.exp, now as int) {
            r == Err::<JWTClaim, ValidationError>(ValidationError::ExpiredSignature)
        } else {
            r == claims
        }),
{
    match claims {
        Ok(c) => {
            if (c.exp as i128) < (now as i128) - (EXPIRY_LEEWAY as i128) {
                Err(ValidationError::ExpiredSignature)
            } else {
                Ok(c)
            }
        },
        Err(e) => Err(e),
    }
}

/// Checks a token's signature against the configured secret and its expiry against time
/// `now`, and returns the claims it carries, or why it was refused. A token issued with
/// the configured secret gives back exactly the claims it was issued with until it
/// expires, and is refused as expired afterwards.
pub fn validate_token_at(token: &str, config: &Config, now: i64) -> (r: Result<
    JWTClaim,
    ValidationError,
>)
    ensures
        forall|c: JWTClaimView| #[trigger]
            signed_token(claims_json(c), config.jwt_secret_key@) == token@ ==> (if expired(
                c.exp,
                now as int,
            ) {
                r == Err::<JWTClaim, ValidationError>(ValidationError::ExpiredSignature)
            } else {
                r matches Ok(d) && d@ == c
            }),
        r matches Ok(d) ==> !expired(d.exp, now as int),
{
    let decoded = match decode_claims(token, config.jwt_secret_key.as_str()) {
        Ok(claims) => Ok(claims),
        Err(e) => Err(refusal_kind(&e)),
    };
    let read = claims_of_accepted(decoded);
    let r = check_expiry(read, now);
    proof {
        assert forall|c: JWTClaimView| #[trigger]
            signed_token(claims_json(c), config.jwt_secret_key@) == token@ implies (if expired(
            c.exp,
            now as int,
        ) {
            r == Err::<JWTClaim, ValidationError>(ValidationError::ExpiredSignature)
        } else {
            r matches Ok(d) && d@ == c
        }) by {
            assert(exists|c2: JWTClaimView| #[trigger] claims_json(c2) == claims_json(c));
            lemma_claims_json_injective(read->Ok_0@, c);
        }
    }
    r
}

/// Checks a token's signature against the configured secret and its expiry against the
/// clock, and returns the claims it carries, or why it was refused. A token issued with
/// the configured secret gives back, when accepted, exactly the claims it was issued
/// with, and is refused only as expired.
pub fn validate_token(token: &str, config: &Config) -> (r: Result<JWTClaim, ValidationError>)
    ensures
        forall|c: JWTClaimView| #[trigger]
            signed_token(claims_json(c), config.jwt_secret_key@) == token@ ==> (r matches Ok(d)
                ==> d@ == c) && (r is Err ==> r == Err::<JWTClaim, ValidationError>(
                ValidationError::ExpiredSignature,
            )),
{
    let now = current_timestamp();
    validate_token_at(token, config, now)
}

} // verus!
