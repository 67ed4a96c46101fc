use crate::config::{digit_value, digits_value, is_digit, lemma_digits_prefix};
use crate::models::jwt::{
    access_json, claims_json, decimal, hex_digits, json_escape, json_escaped_char, json_string,
    permission_json, permissions_json, JWTClaim, JWTClaimView,
};
use crate::models::permission::{permissions_view, Access, Permission, PermissionView};
use vstd::prelude::*;

verus! {

/// `t` without the prefix `p`; none where `t` does not start with `p`.
pub open spec fn strip(t: Seq<char>, p: Seq<char>) -> Option<Seq<char>> {
    if p.len() <= t.len() && t.take(p.len() as int) == p {
        Some(t.skip(p.len() as int))
    } else {
        None
    }
}

/// The value of a lowercase hexadecimal digit; none for another character.
pub open spec fn hex_value(c: char) -> Option<nat> {
    if '0' <= c <= '9' {
        Some((c as u32 - '0' as u32) as nat)
    } else if 'a' <= c <= 'f' {
        Some((c as u32 - 'a' as u32 + 10) as nat)
    } else {
        None
    }
}

/// Reads one character of a JSON string as the writer escapes it: the character and
/// what follows it. Only the writer's own escapes are read.
pub open spec fn decode_char(t: Seq<char>) -> Option<(char, Seq<char>)> {
    if t.len() == 0 {
        None
    } else if t[0] == '\\' {
        if t.len() >= 2 && t[1] == '"' {
            Some(('"', t.skip(2)))
        } else if t.len() >= 2 && t[1] == '\\' {
            Some(('\\', t.skip(2)))
        } else if t.len() >= 2 && t[1] == 'b' {
            Some(('\u{8}', t.skip(2)))
        } else if t.len() >= 2 && t[1] == 't' {
            Some(('\t', t.skip(2)))
        } else if t.len() >= 2 && t[1] == 'n' {
            Some(('\n', t.skip(2)))
        } else if t.len() >= 2 && t[1] == 'f' {
            Some(('\u{c}', t.skip(2)))
        } else if t.len() >= 2 && t[1] == 'r' {
            Some(('\r', t.skip(2)))
        } else if t.len() >= 6 && t[1] == 'u' && t[2] == '0' && t[3] == '0' && hex_value(t[4])
            is Some && hex_value(t[4])->0 < 2 && hex_value(t[5]) is Some {
            let code = hex_value(t[4])->0 * 16 + hex_value(t[5])->0;
            if code == 8 || code == 9 || code == 10 || code == 12 || code == 13 {
                None
            } else {
                Some(((code as u8) as char, t.skip(6)))
            }
        } else {
            None
        }
    } else if t[0] == '"' || (t[0] as u32) < 32 {
        None
    } else {
        Some((t[0], t.skip(1)))
    }
}

/// Reads the characters of a JSON string up to and including its closing quote.
pub open spec fn parse_string_body(t: Seq<char>) -> Option<(Seq<char>, Seq<char>)>
    decreases t.len(),
{
    if t.len() == 0 {
        None
    } else if t[0] == '"' {
        Some((Seq::empty(), t.skip(1)))
    } else {
        match decode_char(t) {
            Some((c, t1)) => if t1.len() < t.len() {
                match parse_string_body(t1) {
                    Some((r, t2)) => Some((seq![c] + r, t2)),
                    None => None,
                }
            } else {
                None
            },
            None => None,
        }
    }
}

/// Reads a JSON string as the writer writes it.
pub open spec fn parse_string(t: Seq<char>) -> Option<(Seq<char>, Seq<char>)> {
    if t.len() > 0 && t[0] == '"' {
        parse_string_body(t.skip(1))
    } else {
        None
    }
}

/// How many decimal digits `t` starts with.
pub open spec fn digit_run(t: Seq<char>) -> nat
    decreases t.len(),
{
    if t.len() > 0 && is_digit(t[0]) {
        1 + digit_run(t.skip(1))
    } else {
        0
    }
}

/// Reads a number as the writer writes it: all the digits that follow, without a
/// leading zero, no larger than `u64::MAX`.
pub open spec fn parse_decimal(t: Seq<char>) -> Option<(u64, Seq<char>)> {
    let k = digit_run(t);
    if k == 0 || (k > 1 && t[0] == '0') || digits_value(t.take(k as int)) > u64::MAX {
        None
    } else {
        Some((digits_value(t.take(k as int)) as u64, t.skip(k as int)))
    }
}

/// Reads an access kind.
pub open spec fn parse_access(t: Seq<char>) -> Option<(Access, Seq<char>)> {
    if strip(t, access_json(Access::READ)) is Some {
        Some((Access::READ, strip(t, access_json(Access::READ))->0))
    } else if strip(t, access_json(Access::WRITE)) is Some {
        Some((Access::WRITE, strip(t, access_json(Access::WRITE))->0))
    } else if strip(t, access_json(Access::EXECUTE)) is Some {
        Some((Access::EXECUTE, strip(t, access_json(Access::EXECUTE))->0))
    } else {
        None
    }
}

/// Reads a permission object.
#[verifier::opaque]
pub open spec fn parse_permission(t: Seq<char>) -> Option<(PermissionView, Seq<char>)> {
    match strip(t, "{\"name\":"@) {
        None => None,
        Some(t1) => match parse_string(t1) {
            None => None,
            Some((name, t2)) => match strip(t2, ",\"description\":"@) {
                None => None,
                Some(t3) => match parse_string(t3) {
                    None => None,
                    Some((description, t4)) => match strip(t4, ",\"access_type\":"@) {
                        None => None,
                        Some(t5) => match parse_access(t5) {
                            None => None,
                            Some((access_type, t6)) => match strip(t6, "}"@) {
                                None => None,
                                Some(t7) => Some(
                                    (PermissionView { name, description, access_type }, t7),
                                ),
                            },
                        },
                    },
                },
            },
        },
    }
}

/// Reads the permissions that follow the first one: each behind a comma.
pub open spec fn parse_more_permissions(t: Seq<char>) -> Option<(Seq<PermissionView>, Seq<char>)>
    decreases t.len(),
{
    if t.len() > 0 && t[0] == ',' {
        match parse_permission(t.skip(1)) {
            None => None,
            Some((p, t1)) => if t1.len() < t.len() {
                match parse_more_permissions(t1) {
                    None => None,
                    Some((ps, t2)) => Some((seq![p] + ps, t2)),
                }
            } else {
                None
            },
        }
    } else {
        Some((Seq::empty(), t))
    }
}

/// Reads the elements of a permission array, up to its closing bracket.
pub open spec fn parse_permissions(t: Seq<char>) -> Option<(Seq<PermissionView>, Seq<char>)> {
    if t.len() > 0 && t[0] == ']' {
        Some((Seq::empty(), t))
    } else {
        match parse_permission(t) {
            None => None,
            Some((p, t1)) => match parse_more_permissions(t1) {
                None => None,
                Some((ps, t2)) => Some((seq![p] + ps, t2)),
            },
        }
    }
}

/// Reads the claims of a token from the whole of `t`, as the writer writes them.
pub open spec fn parse_claims(t: Seq<char>) -> Option<JWTClaimView> {
    match strip(t, "{\"sub\":"@) {
        None => None,
        Some(t1) => match parse_string(t1) {
            None => None,
            Some((sub, t2)) => match strip(t2, ",\"company\":"@) {
                None => None,
                Some(t3) => match parse_string(t3) {
                    None => None,
                    Some((company, t4)) => match strip(t4, ",\"exp\":"@) {
                        None => None,
                        Some(t5) => match parse_decimal(t5) {
                            None => None,
                            Some((exp, t6)) => match strip(t6, ",\"permissions\":["@) {
                                None => None,
                                Some(t7) => match parse_permissions(t7) {
                                    None => None,
                                    Some((permissions, t8)) => if t8 == "]}"@ {
                                        Some(JWTClaimView { sub, company, exp, permissions })
                                    } else {
                                        None
                                    },
                                },
                            },
                        },
                    },
                },
            },
        },
    }
}

proof fn lemma_strip(p: Seq<char>, rest: Seq<char>)
    ensures
        strip(p + rest, p) == Some(rest),
{
    assert((p + rest).take(p.len() as int) =~= p);
    assert((p + rest).skip(p.len() as int) =~= rest);
}

proof fn lemma_json_escape_concat(a: Seq<char>, b: Seq<char>)
    ensures
        json_escape(a + b) == json_escape(a) + json_escape(b),
    decreases b.len(),
{
    if b.len() == 0 {
        assert(a + b =~= a);
        assert(json_escape(a) + json_escape(b) =~= json_escape(a));
    } else {
        assert((a + b).drop_last() =~= a + b.drop_last());
        lemma_json_escape_concat(a, b.drop_last());
        assert(json_escape(a + b) =~= json_escape(a) + json_escape(b));
    }
}

proof fn lemma_hex_digit(d: nat)
    requires
        d < 16,
    ensures
        hex_value(hex_digits()[d as int]) == Some(d),
        d < 10 ==> is_digit(hex_digits()[d as int]) && digit_value(hex_digits()[d as int]) == d,
        d > 0 ==> hex_digits()[d as int] != '0',
{
    if d == 0 {
    } else if d == 1 {
    } else if d == 2 {
    } else if d == 3 {
    } else if d == 4 {
    } else if d == 5 {
    } else if d == 6 {
    } else if d == 7 {
    } else if d == 8 {
    } else if d == 9 {
    } else if d == 10 {
    } else if d == 11 {
    } else if d == 12 {
    } else if d == 13 {
    } else if d == 14 {
    } else {
    }
}

proof fn lemma_decode_char(c: char, rest: Seq<char>)
    ensures
        decode_char(json_escaped_char(c) + rest) == Some((c, rest)),
{
    let e = json_escaped_char(c);
    let t = e + rest;
    assert(t.skip(e.len() as int) =~= rest);
    if c != '"' && c != '\\' && c != '\u{8}' && c != '\t' && c != '\n' && c != '\u{c}' && c
        != '\r' && (c as u32) < 32 {
        let code = c as u32;
        lemma_hex_digit((code / 16) as nat);
        lemma_hex_digit((code % 16) as nat);
        assert(t[4] == hex_digits()[(code / 16) as int]);
        assert(t[5] == hex_digits()[(code % 16) as int]);
        assert((code / 16) * 16 + code % 16 == code);
        assert(((code as u8) as char) == c);
    }
}

proof fn lemma_parse_string_body(v: Seq<char>, rest: Seq<char>)
    ensures
        parse_string_body(json_escape(v) + seq!['"'] + rest) == Some((v, rest)),
    decreases v.len(),
{
    let t = json_escape(v) + seq!['"'] + rest;
    if v.len() == 0 {
        assert(json_escape(v) =~= Seq::<char>::empty());
        assert(t.skip(1) =~= rest);
    } else {
        let v0 = v[0];
        let tail = v.skip(1);
        assert(v =~= seq![v0] + tail);
        lemma_json_escape_concat(seq![v0], tail);
        assert(seq![v0].drop_last() =~= Seq::<char>::empty());
        assert(json_escape(Seq::<char>::empty()) == Seq::<char>::empty());
        assert(seq![v0].last() == v0);
        assert(json_escape(seq![v0]) =~= json_escaped_char(v0));
        let rest1 = json_escape(tail) + seq!['"'] + rest;
        assert(t =~= json_escaped_char(v0) + rest1);
        lemma_decode_char(v0, rest1);
        assert(t[0] != '"');
        lemma_parse_string_body(tail, rest);
        assert(seq![v0] + tail =~= v);
    }
}

/// What the writer makes of a string reads back as that string.
pub proof fn lemma_parse_string(v: Seq<char>, rest: Seq<char>)
    ensures
        parse_string(json_string(v) + rest) == Some((v, rest)),
{
    let t = json_string(v) + rest;
    assert(t.skip(1) =~= json_escape(v) + seq!['"'] + rest);
    lemma_parse_string_body(v, rest);
}

proof fn lemma_decimal_digits(n: nat)
    ensures
        decimal(n).len() >= 1,
        forall|i: int| 0 <= i < decimal(n).len() ==> is_digit(#[trigger] decimal(n)[i]),
        digits_value(decimal(n)) == n,
        n > 0 ==> decimal(n)[0] != '0',
        n < 10 <==> decimal(n).len() == 1,
    decreases n,
{
    if n < 10 {
        lemma_hex_digit(n);
        let d = seq![hex_digits()[n as int]];
        assert(d.drop_last() =~= Seq::<char>::empty());
        assert(digits_value(Seq::<char>::empty()) == 0);
        assert(digits_value(d) == digit_value(hex_digits()[n as int]));
    } else {
        lemma_decimal_digits(n / 10);
        lemma_hex_digit(n % 10);
        let d = decimal(n);
        assert(d.drop_last() =~= decimal(n / 10));
        assert(d.last() == hex_digits()[(n % 10) as int]);
        assert((n / 10) * 10 + n % 10 == n) by (nonlinear_arith);
        assert(d[0] == decimal(n / 10)[0]);
    }
}

proof fn lemma_digit_run(a: Seq<char>, rest: Seq<char>)
    requires
        forall|i: int| 0 <= i < a.len() ==> is_digit(#[trigger] a[i]),
        rest.len() == 0 || !is_digit(rest[0]),
    ensures
        digit_run(a + rest) == a.len(),
    decreases a.len(),
{
    if a.len() == 0 {
        assert(a + rest =~= rest);
    } else {
        assert((a + rest).skip(1) =~= a.skip(1) + rest);
        lemma_digit_run(a.skip(1), rest);
    }
}

/// What the writer makes of a number reads back as that number, when no digit follows it.
pub proof fn lemma_parse_decimal(n: u64, rest: Seq<char>)
    requires
        rest.len() == 0 || !is_digit(rest[0]),
    ensures
        parse_decimal(decimal(n as nat) + rest) == Some((n, rest)),
{
    let d = decimal(n as nat);
    lemma_decimal_digits(n as nat);
    lemma_digit_run(d, rest);
    assert((d + rest).take(d.len() as int) =~= d);
    assert((d + rest).skip(d.len() as int) =~= rest);
}

proof fn lemma_parse_access(a: Access, rest: Seq<char>)
    ensures
        parse_access(access_json(a) + rest) == Some((a, rest)),
{
    reveal_strlit("\"READ\"");
    reveal_strlit("\"WRITE\"");
    reveal_strlit("\"EXECUTE\"");
    let t = access_json(a) + rest;
    lemma_strip(access_json(a), rest);
    if a != Access::READ {
        assert(t[1] != 'R');
        assert(access_json(Access::READ)[1] == 'R');
        assert(t.take(access_json(Access::READ).len() as int)[1] != access_json(Access::READ)[1]);
    }
    if a == Access::EXECUTE {
        assert(t.take(access_json(Access::WRITE).len() as int)[1] != access_json(Access::WRITE)[1]);
    }
}

/// What the writer makes of a permission reads back as that permission.
pub proof fn lemma_parse_permission(p: PermissionView, rest: Seq<char>)
    ensures
        parse_permission(permission_json(p) + rest) == Some((p, rest)),
{
    reveal(parse_permission);
    let l1 = "{\"name\":"@;
    let l2 = ",\"description\":"@;
    let l3 = ",\"access_type\":"@;
    let l4 = "}"@;
    let t7 = rest;
    let t6 = l4 + t7;
    let t5 = access_json(p.access_type) + t6;
    let t4 = l3 + t5;
    let t3 = json_string(p.description) + t4;
    let t2 = l2 + t3;
    let t1 = json_string(p.name) + t2;
    assert(permission_json(p) + rest =~= l1 + t1);
    lemma_strip(l1, t1);
    lemma_parse_string(p.name, t2);
    lemma_strip(l2, t3);
    lemma_parse_string(p.description, t4);
    lemma_strip(l3, t5);
    lemma_parse_access(p.access_type, t6);
    lemma_strip(l4, t7);
}

/// The permissions after the first, each behind a comma, written front to back.
pub open spec fn more_permissions_json(qs: Seq<PermissionView>) -> Seq<char>
    decreases qs.len(),
{
    if qs.len() == 0 {
        Seq::empty()
    } else {
        seq![','] + permission_json(qs[0]) + more_permissions_json(qs.skip(1))
    }
}

proof fn lemma_more_push(qs: Seq<PermissionView>, q: PermissionView)
    ensures
        more_permissions_json(qs.push(q)) == more_permissions_json(qs) + seq![','] + permission_json(q),
    decreases qs.len(),
{
    if qs.len() == 0 {
        assert(qs.push(q).skip(1) =~= Seq::<PermissionView>::empty());
        assert(qs.push(q)[0] == q);
        assert(more_permissions_json(Seq::<PermissionView>::empty()) == Seq::<char>::empty());
        assert(more_permissions_json(qs.push(q)) =~= more_permissions_json(qs) + seq![','] + permission_json(q));
    } else {
        assert(qs.push(q).skip(1) =~= qs.skip(1).push(q));
        lemma_more_push(qs.skip(1), q);
        assert(more_permissions_json(qs.push(q)) =~= more_permissions_json(qs) + seq![','] + permission_json(q));
    }
}

proof fn lemma_permissions_json_front(ps: Seq<PermissionView>)
    requires
        ps.len() >= 1,
    ensures
        permissions_json(ps) == permission_json(ps[0]) + more_permissions_json(ps.skip(1)),
    decreases ps.len(),
{
    if ps.len() == 1 {
        assert(ps.skip(1) =~= Seq::<PermissionView>::empty());
        assert(permission_json(ps[0]) + more_permissions_json(ps.skip(1)) =~= permission_json(ps[0]));
    } else {
        let init = ps.drop_last();
        lemma_permissions_json_front(init);
        assert(ps.skip(1) =~= init.skip(1).push(ps.last()));
        lemma_more_push(init.skip(1), ps.last());
        assert(init[0] == ps[0]);
        assert(permissions_json(ps) =~= permission_json(ps[0]) + more_permissions_json(ps.skip(1)));
    }
}

proof fn lemma_parse_more(qs: Seq<PermissionView>, rest: Seq<char>)
    requires
        rest.len() > 0 && rest[0] != ',',
    ensures
        parse_more_permissions(more_permissions_json(qs) + rest) == Some((qs, rest)),
    decreases qs.len(),
{
    let t = more_permissions_json(qs) + rest;
    if qs.len() == 0 {
        assert(t =~= rest);
    } else {
        let t1 = more_permissions_json(qs.skip(1)) + rest;
        assert(t =~= seq![','] + (permission_json(qs[0]) + t1));
        assert(t.skip(1) =~= permission_json(qs[0]) + t1);
        lemma_parse_permission(qs[0], t1);
        lemma_parse_more(qs.skip(1), rest);
        assert(seq![qs[0]] + qs.skip(1) =~= qs);
    }
}

/// What the writer makes of a list of permissions reads back as that list, up to the
/// closing bracket.
pub proof fn lemma_parse_permissions(ps: Seq<PermissionView>, rest: Seq<char>)
    requires
        rest.len() > 0 && rest[0] == ']',
    ensures
        parse_permissions(permissions_json(ps) + rest) == Some((ps, rest)),
{
    let t = permissions_json(ps) + rest;
    if ps.len() == 0 {
        assert(t =~= rest);
    } else {
        lemma_permissions_json_front(ps);
        let t1 = more_permissions_json(ps.skip(1)) + rest;
        assert(t =~= permission_json(ps[0]) + t1);
        reveal_strlit("{\"name\":");
        assert(permission_json(ps[0])[0] == '{');
        lemma_parse_permission(ps[0], t1);
        lemma_parse_more(ps.skip(1), rest);
        assert(seq![ps[0]] + ps.skip(1) =~= ps);
    }
}

/// Claims read back from their JSON text are the claims that were written.
pub proof fn lemma_claims_round_trip(c: JWTClaimView)
    ensures
        parse_claims(claims_json(c)) == Some(c),
{
    let l1 = "{\"sub\":"@;
    let l2 = ",\"company\":"@;
    let l3 = ",\"exp\":"@;
    let l4 = ",\"permissions\":["@;
    let l5 = "]}"@;
    reveal_strlit(",\"permissions\":[");
    reveal_strlit("]}");
    let t8 = l5;
    let t7 = permissions_json(c.permissions) + t8;
    let t6 = l4 + t7;
    let t5 = decimal(c.exp as nat) + t6;
    let t4 = l3 + t5;
    let t3 = json_string(c.company) + t4;
    let t2 = l2 + t3;
    let t1 = json_string(c.sub) + t2;
    assert(claims_json(c) =~= l1 + t1);
    lemma_strip(l1, t1);
    lemma_parse_string(c.sub, t2);
    lemma_strip(l2, t3);
    lemma_parse_string(c.company, t4);
    lemma_strip(l3, t5);
    assert(t6[0] == ',');
    lemma_parse_decimal(c.exp, t6);
    lemma_strip(l4, t7);
    lemma_parse_permissions(c.permissions, t8);
}

proof fn lemma_strip_inverse(t: Seq<char>, p: Seq<char>)
    requires
        strip(t, p) is Some,
    ensures
        t == p + strip(t, p)->0,
{
    assert(t =~= t.take(p.len() as int) + t.skip(p.len() as int));
}

proof fn lemma_hex_inverse(c: char, d: nat)
    requires
        hex_value(c) == Some(d),
    ensures
        d < 16,
        hex_digits()[d as int] == c,
{
    lemma_hex_digit(d);
    let h = hex_digits()[d as int];
    assert(hex_value(h) == Some(d));
    assert(h as u32 == c as u32);
}

proof fn lemma_decode_char_sound(t: Seq<char>)
    requires
        decode_char(t) is Some,
    ensures
        t == json_escaped_char(decode_char(t).unwrap().0) + decode_char(t).unwrap().1,
{
    let (c, rest) = decode_char(t)->0;
    if t[0] == '\\' && t.len() >= 6 && t[1] == 'u' && t[2] == '0' && t[3] == '0' && hex_value(
        t[4],
    ) is Some && hex_value(t[4])->0 < 2 && hex_value(t[5]) is Some && !(t.len() >= 2 && (t[1]
        == '"' || t[1] == '\\' || t[1] == 'b' || t[1] == 't' || t[1] == 'n' || t[1] == 'f' || t[1]
        == 'r')) {
        let h = hex_value(t[4])->0;
        let l = hex_value(t[5])->0;
        lemma_hex_inverse(t[4], h);
        lemma_hex_inverse(t[5], l);
        let code = h * 16 + l;
        assert(c as u32 == code);
        assert((c as u32) / 16 == h);
        assert((c as u32) % 16 == l);
        assert(t =~= json_escaped_char(c) + rest);
    } else {
        assert(t =~= json_escaped_char(c) + rest);
    }
}

proof fn lemma_parse_string_body_sound(t: Seq<char>)
    requires
        parse_string_body(t) is Some,
    ensures
        t == json_escape(parse_string_body(t).unwrap().0) + seq!['"'] + parse_string_body(t).unwrap().1,
    decreases t.len(),
{
    let (v, rest) = parse_string_body(t)->0;
    if t[0] == '"' {
        assert(json_escape(v) =~= Seq::<char>::empty());
        assert(t =~= json_escape(v) + seq!['"'] + rest);
    } else {
        let (c, t1) = decode_char(t)->0;
        lemma_decode_char_sound(t);
        lemma_parse_string_body_sound(t1);
        let r = parse_string_body(t1).unwrap().0;
        assert(v == seq![c] + r);
        lemma_json_escape_concat(seq![c], r);
        assert(seq![c].drop_last() =~= Seq::<char>::empty());
        assert(json_escape(Seq::<char>::empty()) == Seq::<char>::empty());
        assert(json_escape(seq![c]) =~= json_escaped_char(c));
        assert(t =~= json_escape(v) + seq!['"'] + rest);
    }
}

/// A string that the reader accepts is the writer's text of the string it reads.
pub proof fn lemma_parse_string_sound(t: Seq<char>)
    requires
        parse_string(t) is Some,
    ensures
        t == json_string(parse_string(t).unwrap().0) + parse_string(t).unwrap().1,
{
    lemma_parse_string_body_sound(t.skip(1));
    let (v, rest) = parse_string(t)->0;
    assert(t =~= seq!['"'] + t.skip(1));
    assert(t =~= json_string(v) + rest);
}

proof fn lemma_digits_positive(d: Seq<char>)
    requires
        d.len() >= 1,
        forall|i: int| 0 <= i < d.len() ==> is_digit(#[trigger] d[i]),
        d[0] != '0',
    ensures
        digits_value(d) > 0,
    decreases d.len(),
{
    if d.len() > 1 {
        assert(d.drop_last()[0] == d[0]);
        lemma_digits_positive(d.drop_last());
    }
}

proof fn lemma_digits_are_decimal(d: Seq<char>)
    requires
        d.len() >= 1,
        forall|i: int| 0 <= i < d.len() ==> is_digit(#[trigger] d[i]),
        d.len() > 1 ==> d[0] != '0',
    ensures
        d == decimal(digits_value(d)),
    decreases d.len(),
{
    let n = digits_value(d);
    let x = d.last();
    assert(is_digit(x));
    let dx = digit_value(x);
    assert(dx < 10);
    assert(hex_value(x) == Some(dx));
    lemma_hex_inverse(x, dx);
    if d.len() == 1 {
        assert(d.drop_last() =~= Seq::<char>::empty());
        assert(digits_value(Seq::<char>::empty()) == 0);
        assert(n == dx);
        assert(d =~= decimal(n));
    } else {
        let init = d.drop_last();
        assert(init[0] == d[0]);
        lemma_digits_are_decimal(init);
        lemma_digits_positive(init);
        let m = digits_value(init);
        assert(n == m * 10 + dx);
        assert(n / 10 == m && n % 10 == dx) by (nonlinear_arith)
            requires
                n == m * 10 + dx,
                dx < 10,
        ;
        assert(d =~= init + seq![x]);
        assert(d =~= decimal(n));
    }
}

/// A number that the reader accepts is the writer's text of the number it reads.
pub proof fn lemma_parse_decimal_sound(t: Seq<char>)
    requires
        parse_decimal(t) is Some,
    ensures
        t == decimal(parse_decimal(t).unwrap().0 as nat) + parse_decimal(t).unwrap().1,
{
    let k = digit_run(t);
    lemma_digit_run_prefix(t);
    let d = t.take(k as int);
    assert forall|i: int| 0 <= i < d.len() implies is_digit(#[trigger] d[i]) by {
        assert(d[i] == t[i]);
    };
    lemma_digits_are_decimal(d);
    assert(t =~= d + t.skip(k as int));
}

proof fn lemma_parse_access_sound(t: Seq<char>)
    requires
        parse_access(t) is Some,
    ensures
        t == access_json(parse_access(t).unwrap().0) + parse_access(t).unwrap().1,
{
    let a = parse_access(t).unwrap().0;
    lemma_strip_inverse(t, access_json(a));
}

/// A permission that the reader accepts is the writer's text of the permission it reads.
#[verifier::rlimit(40)]
pub proof fn lemma_parse_permission_sound(t: Seq<char>)
    requires
        parse_permission(t) is Some,
    ensures
        t == permission_json(parse_permission(t).unwrap().0) + parse_permission(t).unwrap().1,
{
    reveal(parse_permission);
    let l1 = "{\"name\":"@;
    let l2 = ",\"description\":"@;
    let l3 = ",\"access_type\":"@;
    let l4 = "}"@;
    let t1 = strip(t, l1)->0;
    lemma_strip_inverse(t, l1);
    lemma_parse_string_sound(t1);
    let (name, t2) = parse_string(t1)->0;
    let t3 = strip(t2, l2)->0;
    lemma_strip_inverse(t2, l2);
    lemma_parse_string_sound(t3);
    let (description, t4) = parse_string(t3)->0;
    let t5 = strip(t4, l3)->0;
    lemma_strip_inverse(t4, l3);
    lemma_parse_access_sound(t5);
    let (a, t6) = parse_access(t5)->0;
    let t7 = strip(t6, l4)->0;
    lemma_strip_inverse(t6, l4);
    let p = parse_permission(t).unwrap().0;
    assert(p == PermissionView { name, description, access_type: a });
    assert(t == l1 + (json_string(name) + (l2 + (json_string(description) + (l3 + (access_json(a)
        + (l4 + t7)))))));
    assert(t =~= permission_json(p) + t7);
}

proof fn lemma_parse_more_sound(t: Seq<char>)
    requires
        parse_more_permissions(t) is Some,
    ensures
        t == more_permissions_json(parse_more_permissions(t).unwrap().0) + parse_more_permissions(t).unwrap().1,
    decreases t.len(),
{
    let (ps, rest) = parse_more_permissions(t)->0;
    if t.len() > 0 && t[0] == ',' {
        let (p, t1) = parse_permission(t.skip(1))->0;
        lemma_parse_permission_sound(t.skip(1));
        lemma_parse_more_sound(t1);
        let qs = parse_more_permissions(t1).unwrap().0;
        assert(ps == seq![p] + qs);
        assert(ps[0] == p);
        assert(ps.skip(1) =~= qs);
        assert(t =~= seq![','] + t.skip(1));
        assert(t =~= more_permissions_json(ps) + rest);
    } else {
        assert(more_permissions_json(ps) =~= Seq::<char>::empty());
        assert(t =~= more_permissions_json(ps) + rest);
    }
}

/// A permission list that the reader accepts is the writer's text of the list it reads.
pub proof fn lemma_parse_permissions_sound(t: Seq<char>)
    requires
        parse_permissions(t) is Some,
    ensures
        t == permissions_json(parse_permissions(t).unwrap().0) + parse_permissions(t).unwrap().1,
{
    let (ps, rest) = parse_permissions(t)->0;
    if t.len() > 0 && t[0] == ']' {
        assert(permissions_json(ps) =~= Seq::<char>::empty());
        assert(t =~= permissions_json(ps) + rest);
    } else {
        let (p, t1) = parse_permission(t)->0;
        lemma_parse_permission_sound(t);
        lemma_parse_more_sound(t1);
        assert(ps[0] == p);
        assert(ps.skip(1) =~= parse_more_permissions(t1).unwrap().0);
        lemma_permissions_json_front(ps);
        assert(t =~= permissions_json(ps) + rest);
    }
}

/// Different claims are written as different texts.
pub proof fn lemma_claims_json_injective(a: JWTClaimView, b: JWTClaimView)
    requires
        claims_json(a) == claims_json(b),
    ensures
        a == b,
{
    lemma_claims_round_trip(a);
    lemma_claims_round_trip(b);
}

/// Claims text that the reader accepts is the writer's text of the claims it reads.
#[verifier::rlimit(80)]
pub proof fn lemma_parse_claims_sound(t: Seq<char>)
    requires
        parse_claims(t) is Some,
    ensures
        t == claims_json(parse_claims(t).unwrap()),
{
    let c = parse_claims(t).unwrap();
    let l1 = "{\"sub\":"@;
    let l2 = ",\"company\":"@;
    let l3 = ",\"exp\":"@;
    let l4 = ",\"permissions\":["@;
    let t1 = strip(t, l1)->0;
    lemma_strip_inverse(t, l1);
    lemma_parse_string_sound(t1);
    let t2 = parse_string(t1).unwrap().1;
    let t3 = strip(t2, l2)->0;
    lemma_strip_inverse(t2, l2);
    lemma_parse_string_sound(t3);
    let t4 = parse_string(t3).unwrap().1;
    let t5 = strip(t4, l3)->0;
    lemma_strip_inverse(t4, l3);
    lemma_parse_decimal_sound(t5);
    let t6 = parse_decimal(t5).unwrap().1;
    let t7 = strip(t6, l4)->0;
    lemma_strip_inverse(t6, l4);
    lemma_parse_permissions_sound(t7);
    let t8 = parse_permissions(t7).unwrap().1;
    assert(t8 == "]}"@);
    assert(t == l1 + (json_string(c.sub) + (l2 + (json_string(c.company) + (l3 + (decimal(
        c.exp as nat,
    ) + (l4 + (permissions_json(c.permissions) + t8))))))));
    assert(t =~= claims_json(c));
}

/// The reader accepts exactly the texts that the writer makes, and reads back from each
/// the claims that were written.
pub proof fn lemma_claims_read_exactly(t: Seq<char>, c: JWTClaimView)
    ensures
        parse_claims(t) == Some(c) <==> t == claims_json(c),
{
    if t == claims_json(c) {
        lemma_claims_round_trip(c);
    }
    if parse_claims(t) == Some(c) {
        lemma_parse_claims_sound(t);
    }
}

/// The characters of `s`, one by one.
pub fn chars_of(s: &str) -> (r: Vec<char>)
    ensures
        r@ == s@,
{
    let n = s.unicode_len();
    let mut out: Vec<char> = Vec::new();
    let mut i: usize = 0;
    while i < n
        invariant
            n == s@.len(),
            i <= n,
            out@ == s@.take(i as int),
        decreases n - i,
    {
        out.push(s.get_char(i));
        i = i + 1;
        proof {
            assert(out@ =~= s@.take(i as int));
        }
    }
    assert(s@.take(n as int) =~= s@);
    out
}

/// Relies on String's FromIterator<char>: the string of these characters, in order.
#[verifier::external_body]
fn string_of(v: &Vec<char>) -> (r: String)
    ensures
        r@ == v@,
{
    v.iter().collect()
}

fn read_prefix(t: &Vec<char>, pos: usize, lit: &str) -> (r: Option<usize>)
    requires
        pos <= t.len(),
    ensures
        r is Some <==> strip(t@.skip(pos as int), lit@) is Some,
        r matches Some(e) ==> e == pos + lit@.len() && e <= t.len() && strip(
            t@.skip(pos as int),
            lit@,
        ) == Some(t@.skip(e as int)),
{
    let n = lit.unicode_len();
    if n > t.len() - pos {
        return None;
    }
    let mut i: usize = 0;
    while i < n
        invariant
            pos + n <= t.len(),
            n == lit@.len(),
            i <= n,
            forall|j: int| 0 <= j < i ==> t@[pos + j] == lit@[j],
        decreases n - i,
    {
        if t[pos + i] != lit.get_char(i) {
            proof {
                assert(t@.skip(pos as int).take(n as int)[i as int] != lit@[i as int]);
            }
            return None;
        }
        i = i + 1;
    }
    proof {
        assert(t@.skip(pos as int).take(n as int) =~= lit@);
        assert(t@.skip(pos as int).skip(n as int) =~= t@.skip(pos + n));
    }
    Some(pos + n)
}

fn hex_val(c: char) -> (r: Option<u32>)
    ensures
        r is Some <==> hex_value(c) is Some,
        r matches Some(v) ==> hex_value(c) == Some(v as nat) && v < 16,
{
    if '0' <= c && c <= '9' {
        Some(c as u32 - '0' as u32)
    } else if 'a' <= c && c <= 'f' {
        Some(c as u32 - 'a' as u32 + 10)
    } else {
        None
    }
}

fn read_char(t: &Vec<char>, pos: usize) -> (r: Option<(char, usize)>)
    requires
        pos <= t.len(),
    ensures
        r is Some <==> decode_char(t@.skip(pos as int)) is Some,
        r matches Some((c, e)) ==> pos < e <= t.len() && decode_char(t@.skip(pos as int)) == Some(
            (c, t@.skip(e as int)),
        ),
{
    let ghost u = t@.skip(pos as int);
    let n = t.len();
    if pos == n {
        return None;
    }
    let c0 = t[pos];
    if c0 == '\\' {
        if n - pos >= 2 {
            let c1 = t[pos + 1];
            proof {
                assert(u.skip(2) =~= t@.skip(pos + 2));
            }
            if c1 == '"' {
                return Some(('"', pos + 2));
            } else if c1 == '\\' {
                return Some(('\\', pos + 2));
            } else if c1 == 'b' {
                return Some(('\u{8}', pos + 2));
            } else if c1 == 't' {
                return Some(('\t', pos + 2));
            } else if c1 == 'n' {
                return Some(('\n', pos + 2));
            } else if c1 == 'f' {
                return Some(('\u{c}', pos + 2));
            } else if c1 == 'r' {
                return Some(('\r', pos + 2));
            }
            if c1 == 'u' && n - pos >= 6 && t[pos + 2] == '0' && t[pos + 3] == '0' {
                let high = hex_val(t[pos + 4]);
                let low = hex_val(t[pos + 5]);
                proof {
                    assert(u.skip(6) =~= t@.skip(pos + 6));
                }
                match (high, low) {
                    (Some(h), Some(l)) => {
                        if h < 2 {
                            let code = h * 16 + l;
                            if code == 8 || code == 9 || code == 10 || code == 12 || code == 13 {
                                return None;
                            }
                            return Some(((code as u8) as char, pos + 6));
                        }
                    },
                    _ => {},
                }
            }
        }
        return None;
    }
    if c0 == '"' || (c0 as u32) < 32 {
        return None;
    }
    proof {
        assert(u.skip(1) =~= t@.skip(pos + 1));
    }
    Some((c0, pos + 1))
}

fn read_string(t: &Vec<char>, pos: usize) -> (r: Option<(Vec<char>, usize)>)
    requires
        pos <= t.len(),
    ensures
        r is Some <==> parse_string(t@.skip(pos as int)) is Some,
        r matches Some((v, e)) ==> pos < e <= t.len() && parse_string(t@.skip(pos as int)) == Some(
            (v@, t@.skip(e as int)),
        ),
{
    if pos == t.len() || t[pos] != '"' {
        return None;
    }
    let mut out: Vec<char> = Vec::new();
    let mut p = pos + 1;
    proof {
        assert(t@.skip(pos as int).skip(1) =~= t@.skip(p as int));
        assert(out@ =~= Seq::<char>::empty());
        match parse_string_body(t@.skip(p as int)) {
            Some((r, rest)) => {
                assert(out@ + r =~= r);
            },
            None => {},
        }
    }
    loop
        invariant
            pos < p <= t.len(),
            parse_string(t@.skip(pos as int)) == (match parse_string_body(t@.skip(p as int)) {
                Some((r, rest)) => Some((out@ + r, rest)),
                None => None,
            }),
        decreases t.len() - p,
    {
        if p == t.len() {
            return None;
        }
        if t[p] == '"' {
            proof {
                assert(t@.skip(p as int).skip(1) =~= t@.skip(p + 1));
                assert(out@ + Seq::<char>::empty() =~= out@);
            }
            return Some((out, p + 1));
        }
        match read_char(t, p) {
            None => {
                return None;
            },
            Some((c, e)) => {
                let ghost before = out@;
                out.push(c);
                proof {
                    match parse_string_body(t@.skip(e as int)) {
                        Some((r, rest)) => {
                            assert(before + (seq![c] + r) =~= out@ + r);
                        },
                        None => {},
                    }
                }
                p = e;
            },
        }
    }
}

proof fn lemma_digit_run_at(u: Seq<char>, k: int)
    requires
        0 <= k <= u.len(),
        forall|j: int| 0 <= j < k ==> is_digit(#[trigger] u[j]),
        k == u.len() || !is_digit(u[k]),
    ensures
        digit_run(u) == k,
    decreases k,
{
    if k > 0 {
        assert forall|j: int| 0 <= j < k - 1 implies is_digit(#[trigger] u.skip(1)[j]) by {
            assert(is_digit(u[j + 1]));
        }
        lemma_digit_run_at(u.skip(1), k - 1);
    }
}

fn read_decimal(t: &Vec<char>, pos: usize) -> (r: Option<(u64, usize)>)
    requires
        pos <= t.len(),
    ensures
        r is Some <==> parse_decimal(t@.skip(pos as int)) is Some,
        r matches Some((v, e)) ==> pos < e <= t.len() && parse_decimal(t@.skip(pos as int)) == Some(
            (v, t@.skip(e as int)),
        ),
{
    let ghost u = t@.skip(pos as int);
    let n = t.len();
    let mut i: usize = 0;
    let mut acc: u64 = 0;
    while pos + i < n && '0' <= t[pos + i] && t[pos + i] <= '9'
        invariant
            pos + i <= n,
            n == t.len(),
            u == t@.skip(pos as int),
            forall|j: int| 0 <= j < i ==> is_digit(#[trigger] u[j]),
            acc as nat == digits_value(u.take(i as int)),
        decreases n - pos - i,
    {
        let c = t[pos + i];
        let dv = (c as u32 - '0' as u32) as u64;
        proof {
            assert(u[i as int] == c);
            assert(u.take(i + 1).drop_last() =~= u.take(i as int));
            assert(u.take(i + 1).last() == c);
        }
        if acc > (u64::MAX - dv) / 10 {
            proof {
                assert(acc * 10 + dv > u64::MAX) by (nonlinear_arith)
                    requires
                        acc > (u64::MAX - dv) / 10,
                        dv <= 9,
                ;
                let k = digit_run(u);
                assert forall|j: int| 0 <= j < i + 1 implies is_digit(#[trigger] u[j]) by {
                    if j == i {
                        assert(u[j] == c);
                    }
                };
                lemma_digit_run_bound(u, i + 1);
                lemma_digit_run_prefix(u);
                assert(u.take(k as int).take(i + 1) =~= u.take(i + 1));
                lemma_digits_prefix(u.take(k as int), i + 1);
            }
            return None;
        }
        proof {
            assert(acc * 10 + dv <= u64::MAX) by (nonlinear_arith)
                requires
                    acc <= (u64::MAX - dv) / 10,
                    dv <= 9,
            ;
        }
        acc = acc * 10 + dv;
        i = i + 1;
        proof {
            assert(is_digit(u[i - 1]));
        }
    }
    proof {
        if pos + i < n {
            assert(u[i as int] == t@[pos + i]);
        }
        lemma_digit_run_at(u, i as int);
    }
    if i == 0 || (i > 1 && t[pos] == '0') {
        return None;
    }
    proof {
        assert(u.skip(i as int) =~= t@.skip(pos + i));
    }
    Some((acc, pos + i))
}

proof fn lemma_digit_run_prefix(u: Seq<char>)
    ensures
        digit_run(u) <= u.len(),
        forall|j: int| 0 <= j < digit_run(u) ==> is_digit(#[trigger] u[j]),
    decreases u.len(),
{
    if u.len() > 0 && is_digit(u[0]) {
        lemma_digit_run_prefix(u.skip(1));
        assert forall|j: int| 0 <= j < digit_run(u) implies is_digit(#[trigger] u[j]) by {
            if j > 0 {
                assert(u[j] == u.skip(1)[j - 1]);
            }
        };
    }
}

proof fn lemma_digit_run_bound(u: Seq<char>, i: int)
    requires
        0 <= i <= u.len(),
        forall|j: int| 0 <= j < i ==> is_digit(#[trigger] u[j]),
    ensures
        i <= digit_run(u),
    decreases i,
{
    if i > 0 {
        assert forall|j: int| 0 <= j < i - 1 implies is_digit(#[trigger] u.skip(1)[j]) by {
            assert(is_digit(u[j + 1]));
        }
        lemma_digit_run_bound(u.skip(1), i - 1);
    }
}

fn read_access(t: &Vec<char>, pos: usize) -> (r: Option<(Access, usize)>)
    requires
        pos <= t.len(),
    ensures
        r is Some <==> parse_access(t@.skip(pos as int)) is Some,
        r matches Some((a, e)) ==> pos <= e <= t.len() && parse_access(t@.skip(pos as int)) == Some(
            (a, t@.skip(e as int)),
        ),
{
    if let Some(e) = read_prefix(t, pos, "\"READ\"") {
        return Some((Access::READ, e));
    }
    if let Some(e) = read_prefix(t, pos, "\"WRITE\"") {
        return Some((Access::WRITE, e));
    }
    if let Some(e) = read_prefix(t, pos, "\"EXECUTE\"") {
        return Some((Access::EXECUTE, e));
    }
    None
}

fn read_permission(t: &Vec<char>, pos: usize) -> (r: Option<(Permission, usize)>)
    requires
        pos <= t.len(),
    ensures
        r is Some <==> parse_permission(t@.skip(pos as int)) is Some,
        r matches Some((p, e)) ==> pos < e <= t.len() && parse_permission(t@.skip(pos as int))
            == Some((p@, t@.skip(e as int))),
{
    reveal(parse_permission);
    let e1 = match read_prefix(t, pos, "{\"name\":") {
        Some(e) => e,
        None => return None,
    };
    let (name, e2) = match read_string(t, e1) {
        Some(x) => x,
        None => return None,
    };
    let e3 = match read_prefix(t, e2, ",\"description\":") {
        Some(e) => e,
        None => return None,
    };
    let (description, e4) = match read_string(t, e3) {
        Some(x) => x,
        None => return None,
    };
    let e5 = match read_prefix(t, e4, ",\"access_type\":") {
        Some(e) => e,
        None => return None,
    };
    let (access_type, e6) = match read_access(t, e5) {
        Some(x) => x,
        None => return None,
    };
    let e7 = match read_prefix(t, e6, "}") {
        Some(e) => e,
        None => return None,
    };
    proof {
        reveal_strlit("}");
    }
    let p = Permission::new(string_of(&name), string_of(&description), access_type);
    Some((p, e7))
}

fn read_permissions(t: &Vec<char>, pos: usize) -> (r: Option<(Vec<Permission>, usize)>)
    requires
        pos <= t.len(),
    ensures
        r is Some <==> parse_permissions(t@.skip(pos as int)) is Some,
        r matches Some((ps, e)) ==> pos <= e <= t.len() && parse_permissions(t@.skip(pos as int))
            == Some((permissions_view(ps@), t@.skip(e as int))),
{
    if pos < t.len() && t[pos] == ']' {
        let none: Vec<Permission> = Vec::new();
        proof {
            assert(permissions_view(none@) =~= Seq::<PermissionView>::empty());
        }
        return Some((none, pos));
    }
    let (first, e1) = match read_permission(t, pos) {
        Some(x) => x,
        None => return None,
    };
    let mut out: Vec<Permission> = Vec::new();
    out.push(first);
    let mut p = e1;
    proof {
        assert(permissions_view(out@) =~= seq![first@]);
    }
    loop
        invariant
            pos < p <= t.len(),
            parse_permissions(t@.skip(pos as int)) == (match parse_more_permissions(
                t@.skip(p as int),
            ) {
                Some((ps, rest)) => Some((permissions_view(out@) + ps, rest)),
                None => None,
            }),
        decreases t.len() - p,
    {
        if p < t.len() && t[p] == ',' {
            proof {
                assert(t@.skip(p as int).skip(1) =~= t@.skip(p + 1));
            }
            match read_permission(t, p + 1) {
                None => {
                    return None;
                },
                Some((q, e)) => {
                    let ghost before = permissions_view(out@);
                    out.push(q);
                    proof {
                        assert(permissions_view(out@) =~= before.push(q@));
                        match parse_more_permissions(t@.skip(e as int)) {
                            Some((ps, rest)) => {
                                assert(before + (seq![q@] + ps) =~= permissions_view(out@) + ps);
                            },
                            None => {},
                        }
                    }
                    p = e;
                },
            }
        } else {
            proof {
                assert(permissions_view(out@) + Seq::<PermissionView>::empty() =~= permissions_view(
                    out@,
                ));
            }
            return Some((out, p));
        }
    }
}

fn read_claims_text(text: &str) -> (r: Option<JWTClaim>)
    ensures
        r is Some <==> parse_claims(text@) is Some,
        r matches Some(c) ==> parse_claims(text@) == Some(c@),
{
    let t = chars_of(text);
    assert(t@.skip(0) =~= t@);
    let e1 = match read_prefix(&t, 0, "{\"sub\":") {
        Some(e) => e,
        None => return None,
    };
    let (sub, e2) = match read_string(&t, e1) {
        Some(x) => x,
        None => return None,
    };
    let e3 = match read_prefix(&t, e2, ",\"company\":") {
        Some(e) => e,
        None => return None,
    };
    let (company, e4) = match read_string(&t, e3) {
        Some(x) => x,
        None => return None,
    };
    let e5 = match read_prefix(&t, e4, ",\"exp\":") {
        Some(e) => e,
        None => return None,
    };
    let (exp, e6) = match read_decimal(&t, e5) {
        Some(x) => x,
        None => return None,
    };
    let e7 = match read_prefix(&t, e6, ",\"permissions\":[") {
        Some(e) => e,
        None => return None,
    };
    let (permissions, e8) = match read_permissions(&t, e7) {
        Some(x) => x,
        None => return None,
    };
    let e9 = match read_prefix(&t, e8, "]}") {
        Some(e) => e,
        None => {
            proof {
                let u = t@.skip(e8 as int);
                if u == "]}"@ {
                    lemma_strip("]}"@, Seq::<char>::empty());
                    assert("]}"@ + Seq::<char>::empty() =~= u);
                }
            }
            return None;
        },
    };
    if e9 != t.len() {
        proof {
            let u = t@.skip(e8 as int);
            assert(t@.skip(e9 as int).len() > 0);
            assert(u != "]}"@);
        }
        return None;
    }
    proof {
        let u = t@.skip(e8 as int);
        assert(u.take(("]}"@).len() as int) =~= u);
    }
    Some(
        JWTClaim {
            sub: string_of(&sub),
            company: string_of(&company),
            exp,
            permissions,
        },
    )
}

/// Reads the claims of a token from their JSON text: the claims whose writer's text is the
/// whole of `text`, none where no claims are written so.
pub fn read_claims(text: &str) -> (r: Option<JWTClaim>)
    ensures
        (exists|c: JWTClaimView| #[trigger] claims_json(c) == text@) <==> r is Some,
        r matches Some(c) ==> claims_json(c@) == text@,
{
    let r = read_claims_text(text);
    proof {
        if r is Some {
            lemma_claims_read_exactly(text@, r->0@);
        }
        if exists|c: JWTClaimView| #[trigger] claims_json(c) == text@ {
            let c = choose|c: JWTClaimView| #[trigger] claims_json(c) == text@;
            lemma_claims_read_exactly(text@, c);
        }
    }
    r
}

} // verus!
