use crate::connectors::ldap::strings_view;
use crate::text::substring;
use vstd::prelude::*;

verus! {

/// Settings of the service, read once at startup and only read afterwards.
pub struct Config {
    pub jwt_secret_key: String,
    pub jwt_expiration_time_seconds: u64,
    pub ldap_url: String,
    pub http_bind_address: String,
    pub http_port: u16,
    pub ad_base_dn: String,
    pub ad_filter_format: String,
    pub ad_attrs: Vec<String>,
    pub jwt_company: String,
}

/// Which setting could not be read.
#[derive(Debug, Clone, Copy, PartialEq, Eq, Structural)]
pub enum ConfigError {
    /// The token lifetime is not a number of seconds.
    InvalidExpiration,
    /// The port is not a port number.
    InvalidPort,
}

pub open spec fn is_digit(c: char) -> bool {
    '0' <= c <= '9'
}

pub open spec fn digit_value(c: char) -> nat {
    (c as u32 - '0' as u32) as nat
}

/// The number that a string of decimal digits writes.
pub open spec fn digits_value(s: Seq<char>) -> nat
    decreases s.len(),
{
    if s.len() == 0 {
        0
    } else {
        digits_value(s.drop_last()) * 10 + digit_value(s.last())
    }
}

/// The digits of an unsigned number, without its optional leading `+`.
pub open spec fn unsigned_digits(s: Seq<char>) -> Seq<char> {
    if s.len() > 0 && s[0] == '+' {
        s.skip(1)
    } else {
        s
    }
}

/// The value of `s` read as an unsigned decimal number no larger than `max`: an optional
/// `+` and at least one digit, nothing else. None where `s` is not such a number.
pub open spec fn unsigned_value(s: Seq<char>, max: nat) -> Option<nat> {
    let d = unsigned_digits(s);
    if d.len() > 0 && (forall|i: int| 0 <= i < d.len() ==> is_digit(#[trigger] d[i]))
        && digits_value(d) <= max {
        Some(digits_value(d))
    } else {
        None
    }
}

/// A prefix of a string of digits writes no larger a number than the whole.
pub proof fn lemma_digits_prefix(d: Seq<char>, i: int)
    requires
        0 <= i <= d.len(),
        forall|j: int| 0 <= j < d.len() ==> is_digit(#[trigger] d[j]),
    ensures
        digits_value(d.take(i)) <= digits_value(d),
    decreases d.len() - i,
{
    if i < d.len() {
        lemma_digits_prefix(d, i + 1);
        assert(d.take(i + 1).drop_last() =~= d.take(i));
    } else {
        assert(d.take(i) =~= d);
    }
}

/// Reads an unsigned decimal number no larger than `max`, as str::parse does for the
/// unsigned integer types.
pub fn parse_unsigned(s: &str, max: u64) -> (r: Option<u64>)
    ensures
        r matches Some(v) ==> unsigned_value(s@, max as nat) == Some(v as nat),
        r is None ==> unsigned_value(s@, max as nat) is None,
{
    let n = s.unicode_len();
    let mut start: usize = 0;
    if n > 0 && s.get_char(0) == '+' {
        start = 1;
    }
    let ghost d = unsigned_digits(s@);
    assert(d =~= s@.skip(start as int));
    if start == n {
        return None;
    }
    let mut acc: u64 = 0;
    let mut i: usize = start;
    while i < n
        invariant
            n == s@.len(),
            start <= i <= n,
            d == s@.skip(start as int),
            d == unsigned_digits(s@),
            forall|j: int| start <= j < i ==> is_digit(#[trigger] s@[j]),
            acc as nat == digits_value(d.take(i - start)),
            acc <= max,
        decreases n - i,
    {
        let c = s.get_char(i);
        if c < '0' || c > '9' {
            proof {
                assert(d[i - start] == c);
                assert(!is_digit(d[i - start]));
            }
            return None;
        }
        let dv = (c as u32 - '0' as u32) as u64;
        proof {
            assert(d.take(i + 1 - start).drop_last() =~= d.take(i - start));
            assert(d.take(i + 1 - start).last() == c);
        }
        if dv > max || acc > (max - dv) / 10 {
            proof {
                assert(acc * 10 + dv > max) by (nonlinear_arith)
                    requires
                        dv > max || acc > (max - dv) / 10,
                ;
                if forall|j: int| 0 <= j < d.len() ==> is_digit(#[trigger] d[j]) {
                    lemma_digits_prefix(d, i + 1 - start);
                }
            }
            return None;
        }
        proof {
            assert(acc * 10 + dv <= max) by (nonlinear_arith)
                requires
                    dv <= max,
                    acc <= (max - dv) / 10,
            ;
        }
        acc = acc * 10 + dv;
        i = i + 1;
    }
    proof {
        assert(d.take(n - start) =~= d);
    }
    Some(acc)
}

/// The pieces of `s` between its commas, in order; a text without commas is one piece.
pub open spec fn split_commas(s: Seq<char>) -> Seq<Seq<char>>
    decreases s.len(),
{
    if s.len() == 0 {
        seq![Seq::empty()]
    } else if s.last() == ',' {
        split_commas(s.drop_last()).push(Seq::empty())
    } else {
        let p = split_commas(s.drop_last());
        p.update(p.len() - 1, p.last().push(s.last()))
    }
}

proof fn lemma_split_nonempty(s: Seq<char>)
    ensures
        split_commas(s).len() >= 1,
    decreases s.len(),
{
    if s.len() > 0 {
        lemma_split_nonempty(s.drop_last());
    }
}

/// Splits `s` at each comma.
pub fn split_list(s: &str) -> (r: Vec<String>)
    ensures
        strings_view(r@) == split_commas(s@),
{
    let n = s.unicode_len();
    let mut parts: Vec<String> = Vec::new();
    let mut current = String::new();
    let mut i: usize = 0;
    assert(s@.take(0) =~= Seq::<char>::empty());
    assert(strings_view(parts@).push(current@) =~= split_commas(s@.take(0)));
    while i < n
        invariant
            n == s@.len(),
            i <= n,
            strings_view(parts@).push(current@) == split_commas(s@.take(i as int)),
        decreases n - i,
    {
        let ghost t = s@.take(i + 1);
        proof {
            assert(t.drop_last() =~= s@.take(i as int));
            lemma_split_nonempty(s@.take(i as int));
        }
        if s.get_char(i) == ',' {
            let done = current;
            parts.push(done);
            current = String::new();
            proof {
                assert(strings_view(parts@).push(current@) =~= split_commas(t));
            }
        } else {
            let ghost before = current@;
            let one = s.substring_char(i, i + 1);
            current.append(one);
            proof {
                assert(one@ =~= seq![t.last()]);
                assert(t.last() != ',');
                let p = split_commas(s@.take(i as int));
                assert(p.last() == before);
                assert(current@ =~= before.push(t.last()));
                assert(strings_view(parts@).push(current@) =~= split_commas(t));
            }
        }
        i = i + 1;
    }
    assert(s@.take(n as int) =~= s@);
    parts.push(current);
    assert(strings_view(parts@) =~= split_commas(s@));
    parts
}

impl Config {
    /// Builds the configuration from the text of its settings. The token lifetime is a
    /// number of seconds, the port a port number, and the attribute list names the
    /// attributes to ask for, separated by commas.
    pub fn new(
        jwt_secret_key: String,
        jwt_expiration_time_seconds: &str,
        jwt_company: String,
        ldap_url: String,
        http_bind_address: String,
        http_port: &str,
        ad_base_dn: String,
        ad_filter_format: String,
        ad_filter_attrs: &str,
    ) -> (r: Result<Config, ConfigError>)
        ensures
            unsigned_value(jwt_expiration_time_seconds@, u64::MAX as nat) is None <==> r
                == Err::<Config, ConfigError>(ConfigError::InvalidExpiration),
            unsigned_value(jwt_expiration_time_seconds@, u64::MAX as nat) is Some
                && unsigned_value(http_port@, u16::MAX as nat) is None <==> r == Err::<
                Config,
                ConfigError,
            >(ConfigError::InvalidPort),
            r matches Ok(c) ==> {
                &&& unsigned_value(jwt_expiration_time_seconds@, u64::MAX as nat) == Some(
                    c.jwt_expiration_time_seconds as nat,
                )
                &&& unsigned_value(http_port@, u16::MAX as nat) == Some(c.http_port as nat)
                &&& c.jwt_secret_key == jwt_secret_key
                &&& c.jwt_company == jwt_company
                &&& c.ldap_url == ldap_url
                &&& c.http_bind_address == http_bind_address
                &&& c.ad_base_dn == ad_base_dn
                &&& c.ad_filter_format == ad_filter_format
                &&& strings_view(c.ad_attrs@) == split_commas(ad_filter_attrs@)
            },
    {
        let ttl = match parse_unsigned(jwt_expiration_time_seconds, u64::MAX) {
            Some(v) => v,
            None => return Err(ConfigError::InvalidExpiration),
        };
        let port = match parse_unsigned(http_port, 65535) {
            Some(v) => v as u16,
            None => return Err(ConfigError::InvalidPort),
        };
        Ok(
            Config {
                jwt_secret_key,
                jwt_expiration_time_seconds: ttl,
                ldap_url,
                http_bind_address,
                http_port: port,
                ad_base_dn,
                ad_filter_format,
                ad_attrs: split_list(ad_filter_attrs),
                jwt_company,
            },
        )
    }
}

} // verus!
