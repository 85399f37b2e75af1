//! The import parser: a verified grammar for `otpauth://totp` URIs, the
//! display-name rule for migration batches, and dispatch over the two
//! input formats by their prefix.

use vstd::prelude::*;
use vstd::string::StrSliceExecFns;
use vstd::string::StringExecFns;

use crate::accounts::Account;
use crate::accounts::AccountView;
use crate::errors::ParseError;

verus! {

/// True when `p` is a prefix of `s`.
pub open spec fn seq_starts_with(s: Seq<char>, p: Seq<char>) -> bool {
    p.len() <= s.len() && s.subrange(0, p.len() as int) == p
}

/// The position of the first `c` in `s`, or `s.len()` when `c` is absent.
pub open spec fn idx_of(s: Seq<char>, c: char) -> int
    decreases s.len(),
{
    if s.len() == 0 {
        0
    } else if s[0] == c {
        0
    } else {
        1 + idx_of(s.skip(1), c)
    }
}

/// `idx_of` lies in bounds, nothing before it is `c`, and it points at a
/// `c` whenever one exists.
pub proof fn lemma_idx_of(s: Seq<char>, c: char)
    ensures
        0 <= idx_of(s, c) <= s.len(),
        forall|j: int| 0 <= j < idx_of(s, c) ==> s[j] != c,
        idx_of(s, c) < s.len() ==> s[idx_of(s, c)] == c,
    decreases s.len(),
{
    if s.len() == 0 {
    } else if s[0] == c {
    } else {
        lemma_idx_of(s.skip(1), c);
        let n = idx_of(s, c);
        assert forall|j: int| 0 <= j < n implies s[j] != c by {
            if j > 0 {
                assert(s.skip(1)[j - 1] == s[j]);
            }
        }
        if n < s.len() {
            assert(s.skip(1)[n - 1] == s[n]);
        }
    }
}

/// `s` with every leading `/` removed.
pub open spec fn trim_slashes(s: Seq<char>) -> Seq<char>
    decreases s.len(),
{
    if s.len() > 0 && s[0] == '/' {
        trim_slashes(s.skip(1))
    } else {
        s
    }
}

/// The value of the last `key=value` pair of a `&`-separated query whose
/// key is `key`: later pairs override earlier ones, a pair without `=`
/// has the empty value.
pub open spec fn query_lookup(q: Seq<char>, key: Seq<char>) -> Option<Seq<char>>
    decreases q.len(),
    via query_lookup_dec
{
    let amp = idx_of(q, '&');
    let pair = q.take(amp);
    let tail = if amp < q.len() {
        query_lookup(q.skip(amp + 1), key)
    } else {
        None
    };
    if tail is Some {
        tail
    } else {
        let eqp = idx_of(pair, '=');
        let k = pair.take(eqp);
        let v = if eqp < pair.len() {
            pair.skip(eqp + 1)
        } else {
            Seq::empty()
        };
        if k == key {
            Some(v)
        } else {
            None
        }
    }
}

#[via_fn]
proof fn query_lookup_dec(q: Seq<char>, key: Seq<char>) {
    lemma_idx_of(q, '&');
}

/// What a `totp` URI yields: the label after host and slashes (the
/// account name) and the mandatory `secret` query parameter. The first 14
/// characters are the `otpauth://totp` prefix; `#` starts a fragment.
pub open spec fn totp_uri_spec(s: Seq<char>) -> Option<(Seq<char>, Seq<char>)> {
    let rest = s.skip(14);
    let body = rest.take(idx_of(rest, '#'));
    let qpos = idx_of(body, '?');
    let before_q = body.take(qpos);
    let query = if qpos < body.len() {
        body.skip(qpos + 1)
    } else {
        Seq::<char>::empty()
    };
    let label = trim_slashes(before_q.skip(idx_of(before_q, '/')));
    match query_lookup(query, "secret"@) {
        None => None,
        Some(v) => Some((label, v)),
    }
}

/// True when `sub` occurs contiguously inside `s`.
pub open spec fn seq_contains_sub(s: Seq<char>, sub: Seq<char>) -> bool {
    exists|i: int| 0 <= i && i + sub.len() <= s.len() && #[trigger] s.subrange(i, i + sub.len())
        == sub
}

/// The display name of a migration record: `issuer:name` when the issuer
/// is non-empty and not already part of the name, the name alone
/// otherwise.
pub open spec fn display_name_spec(issuer: Seq<char>, name: Seq<char>) -> Seq<char> {
    if issuer.len() > 0 && !seq_contains_sub(name, issuer) {
        issuer + seq![':'] + name
    } else {
        name
    }
}

/// The characters of `s`, one by one.
fn str_chars(s: &str) -> (r: Vec<char>)
    ensures
        r@ == s@,
{
    let n = s.unicode_len();
    let mut v: Vec<char> = Vec::new();
    let mut i: usize = 0;
    while i < n
        invariant
            n == s@.len(),
            i <= n,
            v@ == s@.subrange(0, i as int),
        decreases n - i,
    {
        let c = s.get_char(i);
        v.push(c);
        proof {
            assert(v@ =~= s@.subrange(0, i as int + 1));
        }
        i += 1;
    }
    proof {
        assert(v@ =~= s@);
    }
    v
}

/// Relies on `String`'s `FromIterator` over `char`: collecting a
/// character vector yields the string of exactly those characters.
#[verifier::external_body]
fn chars_to_string(v: &Vec<char>) -> (r: String)
    ensures
        r@ == v@,
{
    v.iter().collect()
}

/// Character-sequence equality.
fn chars_eq(a: &Vec<char>, b: &Vec<char>) -> (r: bool)
    ensures
        r == (a@ == b@),
{
    if a.len() != b.len() {
        return false;
    }
    let mut i: usize = 0;
    while i < a.len()
        invariant
            a@.len() == b@.len(),
            i <= a@.len(),
            forall|j: int| 0 <= j < i ==> a@[j] == b@[j],
        decreases a@.len() - i,
    {
        if a[i] != b[i] {
            return false;
        }
        i += 1;
    }
    proof {
        assert(a@ =~= b@);
    }
    true
}

/// Prefix test over character vectors.
fn chars_starts_with(s: &Vec<char>, p: &Vec<char>) -> (r: bool)
    ensures
        r == seq_starts_with(s@, p@),
{
    if p.len() > s.len() {
        return false;
    }
    let mut i: usize = 0;
    while i < p.len()
        invariant
            p@.len() <= s@.len(),
            i <= p@.len(),
            forall|j: int| 0 <= j < i ==> s@[j] == p@[j],
        decreases p@.len() - i,
    {
        if s[i] != p[i] {
            proof {
                assert(s@.subrange(0, p@.len() as int)[i as int] != p@[i as int]);
            }
            return false;
        }
        i += 1;
    }
    proof {
        assert(s@.subrange(0, p@.len() as int) =~= p@);
    }
    true
}

/// The position of the first `c`, or the length when `c` is absent.
fn find_char(s: &Vec<char>, c: char) -> (r: usize)
    ensures
        r as int == idx_of(s@, c),
{
    let mut i: usize = 0;
    while i < s.len()
        invariant
            i <= s@.len(),
            forall|j: int| 0 <= j < i ==> s@[j] != c,
        decreases s@.len() - i,
    {
        if s[i] == c {
            proof {
                lemma_idx_of(s@, c);
            }
            return i;
        }
        i += 1;
    }
    proof {
        lemma_idx_of(s@, c);
    }
    s.len()
}

/// A copy of `s[a..b]`.
fn subvec(s: &Vec<char>, a: usize, b: usize) -> (r: Vec<char>)
    requires
        a <= b <= s@.len(),
    ensures
        r@ == s@.subrange(a as int, b as int),
{
    let mut v: Vec<char> = Vec::new();
    let mut i: usize = a;
    while i < b
        invariant
            a <= i <= b <= s@.len(),
            v@ == s@.subrange(a as int, i as int),
        decreases b - i,
    {
        v.push(s[i]);
        proof {
            assert(v@ =~= s@.subrange(a as int, i as int + 1));
        }
        i += 1;
    }
    v
}

/// Drops every leading `/`.
fn trim_slashes_exec(s: &Vec<char>) -> (r: Vec<char>)
    ensures
        r@ == trim_slashes(s@),
{
    let mut i: usize = 0;
    proof {
        assert(s@.skip(0) =~= s@);
    }
    while i < s.len() && s[i] == '/'
        invariant
            i <= s@.len(),
            trim_slashes(s@) == trim_slashes(s@.skip(i as int)),
        decreases s@.len() - i,
    {
        proof {
            let tail = s@.skip(i as int);
            assert(tail[0] == s@[i as int]);
            assert(trim_slashes(tail) == trim_slashes(tail.skip(1)));
            assert(tail.skip(1) =~= s@.skip(i as int + 1));
        }
        i += 1;
    }
    let r = subvec(s, i, s.len());
    proof {
        let tail = s@.skip(i as int);
        assert(trim_slashes(tail) == tail);
        assert(r@ =~= tail);
    }
    r
}

/// Substring search matching [`seq_contains_sub`].
fn contains_chars(s: &Vec<char>, sub: &Vec<char>) -> (r: bool)
    ensures
        r == seq_contains_sub(s@, sub@),
{
    let m = sub.len();
    if m > s.len() {
        return false;
    }
    let mut i: usize = 0;
    while i <= s.len() - m
        invariant
            m == sub@.len(),
            m <= s@.len(),
            i <= s@.len() - m + 1,
            forall|j: int| 0 <= j < i ==> #[trigger] s@.subrange(j, j + sub@.len()) != sub@,
        decreases s@.len() - m - i + 1,
    {
        let mut k: usize = 0;
        while k < m && s[i + k] == sub[k]
            invariant
                m == sub@.len(),
                i + m <= s@.len(),
                s@.len() <= usize::MAX,
                k <= m,
                forall|t: int| 0 <= t < k ==> s@[i + t] == sub@[t],
            decreases m - k,
        {
            k += 1;
        }
        if k == m {
            proof {
                assert(s@.subrange(i as int, i as int + m as int) =~= sub@);
            }
            return true;
        }
        proof {
            assert(s@[i as int + k as int] != sub@[k as int]);
            assert(s@.subrange(i as int, i as int + sub@.len() as int)[k as int] != sub@[k as int]);
        }
        i += 1;
    }
    proof {
        assert forall|j: int| 0 <= j && j + sub@.len() <= s@.len() implies #[trigger] s@.subrange(
            j,
            j + sub@.len(),
        ) != sub@ by {
            assert(j < i);
        }
    }
    false
}

/// Builds the migration display name: `issuer:name` unless the issuer is
/// empty or already occurs inside the name.
pub fn display_name(issuer: &str, name: &str) -> (r: String)
    ensures
        r@ == display_name_spec(issuer@, name@),
{
    let issuer_chars = str_chars(issuer);
    let name_chars = str_chars(name);
    if issuer_chars.len() > 0 && !contains_chars(&name_chars, &issuer_chars) {
        let mut out = issuer.to_owned();
        out.append(":");
        out.append(name);
        proof {
            reveal_strlit(":");
            assert(out@ =~= issuer@ + seq![':'] + name@);
        }
        out
    } else {
        name.to_owned()
    }
}

/// One record of a migration batch, as the external decoder hands it out.
pub struct MigrationRecord {
    pub issuer: String,
    pub name: String,
    pub secret: String,
}

/// The `(issuer, name, secret)` records that a migration payload decodes
/// to, if it decodes at all. The value is fixed by the characters alone.
pub uninterp spec fn migration_records(s: Seq<char>) -> Option<Seq<(Seq<char>, Seq<char>, Seq<char>)>>;

/// Relies on google_authenticator_converter::process_data, which decodes
/// a migration payload (Base64-wrapped protobuf) into records; the result
/// is fixed by the payload characters alone, and an empty issuer is
/// replaced by the record's name before being handed out.
#[verifier::external_body]
fn process_migration_data(code: &str) -> (r: Option<Vec<MigrationRecord>>)
    ensures
        r is Some <==> migration_records(code@) is Some,
        r is Some ==> r.unwrap()@.len() == migration_records(code@).unwrap().len(),
        r is Some ==> forall|j: int|
            0 <= j < r.unwrap()@.len() ==> (#[trigger] r.unwrap()@[j]).issuer@ == migration_records(
                code@,
            ).unwrap()[j].0 && r.unwrap()@[j].name@ == migration_records(code@).unwrap()[j].1
                && r.unwrap()@[j].secret@ == migration_records(code@).unwrap()[j].2,
{
    match google_authenticator_converter::process_data(code) {
        Ok(accounts) => Some(
            accounts
                .into_iter()
                .map(|a| MigrationRecord { issuer: a.issuer, name: a.name, secret: a.secret })
                .collect(),
        ),
        Err(_) => None,
    }
}

/// The normalized `(name, secret)` pairs that an import input yields, or
/// the error owed for it: migration batches and `totp` URIs are told
/// apart by their prefix, anything else is unsupported.
pub open spec fn qr_parse_spec(s: Seq<char>) -> Result<Seq<(Seq<char>, Seq<char>)>, ParseError> {
    if seq_starts_with(s, "otpauth-migration"@) {
        match migration_records(s) {
            None => Err(ParseError::MalformedPayload),
            Some(recs) => Ok(
                recs.map_values(
                    |r: (Seq<char>, Seq<char>, Seq<char>)| (display_name_spec(r.0, r.1), r.2),
                ),
            ),
        }
    } else if seq_starts_with(s, "otpauth://totp"@) {
        match totp_uri_spec(s) {
            None => Err(ParseError::MissingParameter),
            Some(p) => Ok(seq![p]),
        }
    } else {
        Err(ParseError::UnsupportedFormat)
    }
}

/// Parses the label and mandatory `secret` parameter out of a `totp` URI.
fn parse_totp_url(chars: &Vec<char>) -> (r: Result<(String, String), ParseError>)
    requires
        chars@.len() >= 14,
    ensures
        (match r {
            Ok(p) => totp_uri_spec(chars@) == Some((p.0@, p.1@)),
            Err(e) => e == ParseError::MissingParameter && totp_uri_spec(chars@) is None,
        }),
{
    let rest = subvec(chars, 14, chars.len());
    proof {
        assert(rest@ =~= chars@.skip(14));
        lemma_idx_of(rest@, '#');
    }
    let hpos = find_char(&rest, '#');
    let body = subvec(&rest, 0, hpos);
    proof {
        assert(body@ =~= rest@.take(idx_of(rest@, '#')));
        lemma_idx_of(body@, '?');
    }
    let qpos = find_char(&body, '?');
    let before_q = subvec(&body, 0, qpos);
    proof {
        assert(before_q@ =~= body@.take(idx_of(body@, '?')));
    }
    let query: Vec<char> = if qpos < body.len() {
        subvec(&body, qpos + 1, body.len())
    } else {
        Vec::new()
    };
    proof {
        lemma_idx_of(before_q@, '/');
    }
    let spos = find_char(&before_q, '/');
    let label_raw = subvec(&before_q, spos, before_q.len());
    proof {
        assert(label_raw@ =~= before_q@.skip(idx_of(before_q@, '/')));
    }
    let label = trim_slashes_exec(&label_raw);
    let key = str_chars("secret");
    match query_lookup_exec(query, &key) {
        Some(v) => Ok((chars_to_string(&label), chars_to_string(&v))),
        None => Err(ParseError::MissingParameter),
    }
}

/// Scans a query for `key`, matching [`query_lookup`].
fn query_lookup_exec(q: Vec<char>, key: &Vec<char>) -> (r: Option<Vec<char>>)
    ensures
        r is Some <==> query_lookup(q@, key@) is Some,
        r is Some ==> r.unwrap()@ == query_lookup(q@, key@).unwrap(),
    decreases q@.len(),
{
    proof {
        lemma_idx_of(q@, '&');
    }
    let amp = find_char(&q, '&');
    let pair = subvec(&q, 0, amp);
    proof {
        assert(pair@ =~= q@.take(idx_of(q@, '&')));
    }
    if amp < q.len() {
        let rest = subvec(&q, amp + 1, q.len());
        proof {
            assert(rest@ =~= q@.skip(idx_of(q@, '&') + 1));
        }
        let tail = query_lookup_exec(rest, key);
        if tail.is_some() {
            return tail;
        }
    }
    proof {
        lemma_idx_of(pair@, '=');
    }
    let eqp = find_char(&pair, '=');
    let k = subvec(&pair, 0, eqp);
    proof {
        assert(k@ =~= pair@.take(idx_of(pair@, '=')));
    }
    let v: Vec<char> = if eqp < pair.len() {
        subvec(&pair, eqp + 1, pair.len())
    } else {
        Vec::new()
    };
    if chars_eq(&k, key) {
        Some(v)
    } else {
        None
    }
}

/// Decodes an import input into accounts ready for insertion: fresh ids
/// are left empty for the caller to assign, names follow the display-name
/// rule, and each account carries its raw Base32 secret.
pub fn parsing_qr_string_to_accounts(code: &str) -> (r: Result<Vec<Account>, ParseError>)
    ensures
        (match r {
            Ok(v) => qr_parse_spec(code@) is Ok && v.deep_view().len() == qr_parse_spec(
                code@,
            ).unwrap().len() && forall|j: int|
                0 <= j < v.deep_view().len() ==> (#[trigger] v.deep_view()[j]).id.len() == 0
                    && v.deep_view()[j].name == qr_parse_spec(code@).unwrap()[j].0
                    && v.deep_view()[j].secret == Some(qr_parse_spec(code@).unwrap()[j].1),
            Err(e) => qr_parse_spec(code@) == Err::<Seq<(Seq<char>, Seq<char>)>, ParseError>(e),
        }),
{
    let chars = str_chars(code);
    let mig_prefix = str_chars("otpauth-migration");
    let totp_prefix = str_chars("otpauth://totp");
    if chars_starts_with(&chars, &mig_prefix) {
        match process_migration_data(code) {
            None => Err(ParseError::MalformedPayload),
            Some(records) => {
                let ghost recs = migration_records(code@).unwrap();
                let mut out: Vec<Account> = Vec::new();
                let mut i: usize = 0;
                while i < records.len()
                    invariant
                        seq_starts_with(code@, "otpauth-migration"@),
                        migration_records(code@) is Some,
                        recs == migration_records(code@).unwrap(),
                        records@.len() == recs.len(),
                        forall|j: int|
                            0 <= j < records@.len() ==> (#[trigger] records@[j]).issuer@ == recs[j].0
                                && records@[j].name@ == recs[j].1 && records@[j].secret@
                                == recs[j].2,
                        i <= records@.len(),
                        out@.len() == i,
                        forall|j: int|
                            0 <= j < i ==> (#[trigger] out.deep_view()[j]).id.len() == 0
                                && out.deep_view()[j].name == display_name_spec(
                                recs[j].0,
                                recs[j].1,
                            ) && out.deep_view()[j].secret == Some(recs[j].2),
                    decreases records@.len() - i,
                {
                    let ghost prev = out.deep_view();
                    let ghost ii = i as int;
                    let name = display_name(records[i].issuer.as_str(), records[i].name.as_str());
                    out.push(
                        Account { id: String::new(), name, secret: Some(records[i].secret.clone()) },
                    );
                    proof {
                        assert(out.deep_view() =~= prev.push(
                            (AccountView {
                                id: Seq::empty(),
                                name: display_name_spec(recs[ii].0, recs[ii].1),
                                secret: Some(recs[ii].2),
                            }),
                        ));
                    }
                    i += 1;
                }
                Ok(out)
            },
        }
    } else if chars_starts_with(&chars, &totp_prefix) {
        proof {
            reveal_strlit("otpauth://totp");
        }
        match parse_totp_url(&chars) {
            Ok((name, secret)) => {
                let mut out: Vec<Account> = Vec::new();
                out.push(Account { id: String::new(), name, secret: Some(secret) });
                Ok(out)
            },
            Err(e) => Err(e),
        }
    } else {
        Err(ParseError::UnsupportedFormat)
    }
}

} // verus!
