use crate::login::LoginResult;
use crate::models::jwt::ValidationError;
use vstd::prelude::*;

verus! {

/// The scheme word that precedes a token in an authorization header.
pub open spec fn bearer_prefix() -> Seq<char> {
    seq!['B', 'e', 'a', 'r', 'e', 'r', ' ']
}

/// `s` with every leading `Bearer ` removed.
pub open spec fn strip_bearer(s: Seq<char>) -> Seq<char>
    decreases s.len(),
{
    if s.len() >= 7 && s.take(7) == bearer_prefix() {
        strip_bearer(s.skip(7))
    } else {
        s
    }
}

/// The characters with the Unicode White_Space property, those that str::trim removes.
pub open spec fn is_white_space(c: char) -> bool {
    ('\u{9}' <= c <= '\u{d}') || c == ' ' || c == '\u{85}' || c == '\u{a0}' || c == '\u{1680}'
        || ('\u{2000}' <= c <= '\u{200a}') || c == '\u{2028}' || c == '\u{2029}' || c
        == '\u{202f}' || c == '\u{205f}' || c == '\u{3000}'
}

/// `s` without its leading white space.
pub open spec fn trim_start(s: Seq<char>) -> Seq<char>
    decreases s.len(),
{
    if s.len() > 0 && is_white_space(s[0]) {
        trim_start(s.skip(1))
    } else {
        s
    }
}

/// `s` without its trailing white space.
pub open spec fn trim_end(s: Seq<char>) -> Seq<char>
    decreases s.len(),
{
    if s.len() > 0 && is_white_space(s.last()) {
        trim_end(s.drop_last())
    } else {
        s
    }
}

/// `s` without its leading and trailing white space.
pub open spec fn trimmed(s: Seq<char>) -> Seq<char> {
    trim_end(trim_start(s))
}

fn white_space(c: char) -> (r: bool)
    ensures
        r == is_white_space(c),
{
    ('\u{9}' <= c && c <= '\u{d}') || c == ' ' || c == '\u{85}' || c == '\u{a0}' || c
        == '\u{1680}' || ('\u{2000}' <= c && c <= '\u{200a}') || c == '\u{2028}' || c
        == '\u{2029}' || c == '\u{202f}' || c == '\u{205f}' || c == '\u{3000}'
}

/// `s` without its leading and trailing white space, as str::trim gives it.
pub fn trim(s: &str) -> (r: String)
    ensures
        r@ == trimmed(s@),
{
    let n = s.unicode_len();
    let mut a: usize = 0;
    assert(s@.skip(0) =~= s@);
    while a < n && white_space(s.get_char(a))
        invariant
            n == s@.len(),
            a <= n,
            trim_start(s@.skip(a as int)) == trim_start(s@),
        decreases n - a,
    {
        proof {
            assert(s@.skip(a as int).skip(1) =~= s@.skip(a + 1));
        }
        a = a + 1;
    }
    let ghost front = s@.skip(a as int);
    assert(trim_start(front) == front);
    let mut b: usize = n;
    assert(s@.subrange(a as int, n as int) =~= front);
    while b > a && white_space(s.get_char(b - 1))
        invariant
            n == s@.len(),
            a <= b <= n,
            front == s@.skip(a as int),
            trim_end(s@.subrange(a as int, b as int)) == trim_end(front),
        decreases b,
    {
        proof {
            assert(s@.subrange(a as int, b as int).drop_last() =~= s@.subrange(a as int, b - 1));
        }
        b = b - 1;
    }
    let r = crate::text::substring(s, a, b);
    proof {
        if b > a {
            assert(r@.last() == s@[b - 1]);
        }
    }
    r
}

/// The token in the value of an authorization header: what is left after every leading
/// `Bearer ` and the surrounding white space are removed.
pub fn extract_token(header: &str) -> (r: String)
    ensures
        r@ == trimmed(strip_bearer(header@)),
{
    let n = header.unicode_len();
    let prefix = String::from_str("Bearer ");
    proof {
        reveal_strlit("Bearer ");
        assert(prefix@ =~= bearer_prefix());
    }
    let mut i: usize = 0;
    let mut stop = false;
    assert(header@.skip(0) =~= header@);
    while !stop && n - i >= 7
        invariant
            n == header@.len(),
            i <= n,
            prefix@ == bearer_prefix(),
            strip_bearer(header@.skip(i as int)) == strip_bearer(header@),
            stop ==> n - i >= 7 && header@.skip(i as int).take(7) != bearer_prefix(),
        decreases n - i + (if stop { 0int } else { 1int }),
    {
        let head = String::from_str(header.substring_char(i, i + 7));
        proof {
            assert(header@.skip(i as int).take(7) =~= head@);
        }
        if head == prefix {
            proof {
                assert(header@.skip(i as int).skip(7) =~= header@.skip(i + 7));
            }
            i = i + 7;
        } else {
            stop = true;
        }
    }
    let rest = crate::text::substring(header, i, n);
    proof {
        assert(rest@ =~= header@.skip(i as int));
    }
    trim(rest.as_str())
}

/// The status and body answered to a validation request.
pub open spec fn validation_reply(r: Result<(), ValidationError>) -> (u16, Seq<char>) {
    match r {
        Ok(_) => (200, "Token valid"@),
        Err(ValidationError::InvalidToken) => (401, "Invalid token"@),
        Err(ValidationError::InvalidKeyFormat) => (401, "Invalid key format"@),
        Err(ValidationError::ExpiredSignature) => (401, "Token has expired"@),
        Err(ValidationError::InvalidIssuer) => (401, "Invalid issuer"@),
        Err(ValidationError::InvalidSubject) => (401, "Invalid subject"@),
        Err(ValidationError::InvalidAudience) => (401, "Invalid audience"@),
        Err(ValidationError::InvalidSignature) => (401, "Invalid signature"@),
        Err(ValidationError::InvalidAlgorithm) => (401, "Invalid algorithm"@),
        Err(ValidationError::Invalid) => (401, "Invalid request"@),
    }
}

/// The answer to a validation request: success for a valid token, and for a refused one
/// an unauthorized status with a message naming the kind of refusal.
pub fn handle_validation_result<T>(result: &Result<T, ValidationError>) -> (r: (u16, String))
    ensures
        (r.0, r.1@) == validation_reply(
            match result {
                Ok(_) => Ok(()),
                Err(e) => Err(*e),
            },
        ),
{
    match result {
        Ok(_) => (200, String::from_str("Token valid")),
        Err(ValidationError::InvalidToken) => (401, String::from_str("Invalid token")),
        Err(ValidationError::InvalidKeyFormat) => (401, String::from_str("Invalid key format")),
        Err(ValidationError::ExpiredSignature) => (401, String::from_str("Token has expired")),
        Err(ValidationError::InvalidIssuer) => (401, String::from_str("Invalid issuer")),
        Err(ValidationError::InvalidSubject) => (401, String::from_str("Invalid subject")),
        Err(ValidationError::InvalidAudience) => (401, String::from_str("Invalid audience")),
        Err(ValidationError::InvalidSignature) => (401, String::from_str("Invalid signature")),
        Err(ValidationError::InvalidAlgorithm) => (401, String::from_str("Invalid algorithm")),
        Err(ValidationError::Invalid) => (401, String::from_str("Invalid request")),
    }
}

/// The answer to a validation request that carries no authorization header.
pub fn missing_header_reply() -> (r: (u16, String))
    ensures
        r.0 == 401,
        r.1@ == "No authorization header found"@,
{
    (401, String::from_str("No authorization header found"))
}

/// The status and body answered to a login request. Failures other than a refused
/// credential get one generic message, so that no detail of the backend leaks.
pub open spec fn login_reply(r: LoginResult) -> (u16, Seq<char>) {
    match r {
        LoginResult::Token { token } => (200, token@),
        LoginResult::Unauthorized => (401, "Invalid credentials"@),
        LoginResult::TransportFailure => (500, "Something went wrong. Please try again later."@),
        LoginResult::InternalError => (500, "Something went wrong. Please try again later."@),
    }
}

/// The answer to a login request.
pub fn login_response(result: LoginResult) -> (r: (u16, String))
    ensures
        (r.0, r.1@) == login_reply(result),
{
    match result {
        LoginResult::Token { token } => (200, token),
        LoginResult::Unauthorized => (401, String::from_str("Invalid credentials")),
        LoginResult::TransportFailure => (
            500,
            String::from_str("Something went wrong. Please try again later."),
        ),
        LoginResult::InternalError => (
            500,
            String::from_str("Something went wrong. Please try again later."),
        ),
    }
}

} // verus!
