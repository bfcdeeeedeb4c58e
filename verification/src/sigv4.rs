//! AWS-Signature-Version-4-style request verification: canonical request,
//! string to sign, derived signing key, and the authorization gate.

use vstd::prelude::*;
use vstd::string::*;
use vstd::utf8::encode_utf8;

use crate::creds::CredentialStore;
use crate::error_code::S3ErrorCode;
use crate::query::{canonical_query_string, OrderedQs};
use crate::text::{
    ascii_lowercase, eq_constant_time, lower_chars, pair_views, push_char, sort_by_key,
    sort_pairs_by_key, trim_chars, trim_ws, PairView,
};

verus! {

/// SHA-256 digest of a byte string; the digest is a function of the input
/// bytes alone.
pub uninterp spec fn sha256_of(data: Seq<u8>) -> Seq<u8>;

/// HMAC-SHA-256 of a message under a key; a function of the two inputs alone.
pub uninterp spec fn hmac_sha256_of(key: Seq<u8>, data: Seq<u8>) -> Seq<u8>;

/// Relies on `sha2::Sha256`: the SHA-256 digest of the input, 32 bytes long.
#[verifier::external_body]
fn sha256(data: &[u8]) -> (r: Vec<u8>)
    ensures
        r@ == sha256_of(data@),
        r@.len() == 32,
{
    <sha2::Sha256 as sha2::Digest>::digest(data).as_slice().to_vec()
}

/// Relies on `hmac::Hmac<sha2::Sha256>`: the HMAC-SHA-256 of the message
/// under the key, 32 bytes long; keys of any length are accepted.
#[verifier::external_body]
fn hmac_sha256(key: &[u8], data: &[u8]) -> (r: Vec<u8>)
    ensures
        r@ == hmac_sha256_of(key@, data@),
        r@.len() == 32,
{
    let mut mac = <hmac::Hmac<sha2::Sha256> as hmac::KeyInit>::new_from_slice(key)
        .expect("HMAC accepts keys of any length");
    hmac::Mac::update(&mut mac, data);
    hmac::Mac::finalize(mac).into_bytes().as_slice().to_vec()
}

/// Lower-case hex digit for a nibble; nibbles above 15 are clamped to `f`.
pub open spec fn hex_digit(n: u8) -> char {
    match n {
        0 => '0',
        1 => '1',
        2 => '2',
        3 => '3',
        4 => '4',
        5 => '5',
        6 => '6',
        7 => '7',
        8 => '8',
        9 => '9',
        10 => 'a',
        11 => 'b',
        12 => 'c',
        13 => 'd',
        14 => 'e',
        15 => 'f',
        _ => 'f',
    }
}

fn hex_digit_exec(n: u8) -> (r: char)
    ensures
        r == hex_digit(n),
{
    match n {
        0 => '0',
        1 => '1',
        2 => '2',
        3 => '3',
        4 => '4',
        5 => '5',
        6 => '6',
        7 => '7',
        8 => '8',
        9 => '9',
        10 => 'a',
        11 => 'b',
        12 => 'c',
        13 => 'd',
        14 => 'e',
        15 => 'f',
        _ => 'f',
    }
}

/// Lower-case hex rendering of a byte string, two digits per byte.
pub open spec fn hex_of(s: Seq<u8>) -> Seq<char>
    decreases s.len(),
{
    if s.len() == 0 {
        Seq::empty()
    } else {
        hex_of(s.drop_last()) + seq![hex_digit(s.last() / 16), hex_digit(s.last() % 16)]
    }
}

/// Render bytes as lower-case hex.
pub fn hex_lower(bytes: &[u8]) -> (r: String)
    ensures
        r@ == hex_of(bytes@),
{
    let n = bytes.len();
    let mut out = String::new();
    let mut i: usize = 0;
    proof {
        assert(bytes@.take(0) =~= Seq::<u8>::empty());
    }
    while i < n
        invariant
            i <= n,
            n == bytes@.len(),
            out@ == hex_of(bytes@.take(i as int)),
        decreases n - i,
    {
        let b = bytes[i];
        push_char(&mut out, hex_digit_exec(b / 16));
        push_char(&mut out, hex_digit_exec(b % 16));
        proof {
            assert(bytes@.take(i as int + 1).drop_last() =~= bytes@.take(i as int));
            assert(bytes@.take(i as int + 1).last() == b);
            assert(out@ =~= hex_of(bytes@.take(i as int + 1)));
        }
        i = i + 1;
    }
    proof {
        assert(bytes@.take(n as int) =~= bytes@);
    }
    out
}

/// Header canonicalization of each pair: name lower-cased, value trimmed.
pub open spec fn canon_pairs(hs: Seq<PairView>) -> Seq<PairView> {
    hs.map_values(|p: PairView| (lower_chars(p.0), trim_chars(p.1)))
}

/// The canonical header list: lower-cased, trimmed, sorted by name.
pub open spec fn canon_headers_sorted(hs: Seq<PairView>) -> Seq<PairView> {
    sort_by_key(canon_pairs(hs))
}

/// Lower-case, trim and sort a header list.
fn canonicalize_headers(headers: Vec<(String, String)>) -> (r: Vec<(String, String)>)
    ensures
        pair_views(r@) == canon_headers_sorted(pair_views(headers@)),
{
    let ghost all = pair_views(headers@);
    let mut rem = headers;
    let mut out: Vec<(String, String)> = Vec::new();
    let ghost mut taken: int = 0;
    loop
        invariant
            all == pair_views(headers@),
            taken + rem.len() == all.len(),
            0 <= taken,
            pair_views(rem@) =~= all.skip(taken),
            pair_views(out@) =~= canon_pairs(all).take(taken),
        ensures
            pair_views(out@) == canon_pairs(pair_views(headers@)),
        decreases rem.len(),
    {
        if rem.len() == 0 {
            proof {
                assert(canon_pairs(all).take(taken) =~= canon_pairs(all));
            }
            break;
        }
        let ghost prev = rem@;
        let p = rem.remove(0);
        let k = ascii_lowercase(p.0.as_str());
        let v = trim_ws(p.1.as_str());
        proof {
            assert(pair_views(prev)[0] == all.skip(taken)[0]);
            assert(canon_pairs(all)[taken] == (lower_chars(all[taken].0), trim_chars(
                all[taken].1,
            )));
            assert(pair_views(out@.push((k, v))) =~= pair_views(out@).push((k@, v@)));
            assert(pair_views(out@).push((k@, v@)) =~= canon_pairs(all).take(taken + 1));
            assert forall|i: int| 0 <= i < pair_views(rem@).len() implies pair_views(rem@)[i]
                == all.skip(taken + 1)[i] by {
                assert(rem@[i] == prev[i + 1]);
                assert(pair_views(prev)[i + 1] == all.skip(taken)[i + 1]);
            }
            assert(pair_views(rem@) =~= all.skip(taken + 1));
        }
        out.push((k, v));
        proof {
            taken = taken + 1;
        }
    }
    sort_pairs_by_key(out)
}

/// Rendering of the canonical header block: `name:value` lines, each ended
/// with a newline, in sorted order.
pub open spec fn render_headers(s: Seq<PairView>) -> Seq<char>
    decreases s.len(),
{
    if s.len() == 0 {
        Seq::empty()
    } else {
        render_headers(s.drop_last()) + s.last().0 + seq![':'] + s.last().1 + seq!['\n']
    }
}

/// The signed header names joined by `;`, in sorted order.
pub open spec fn signed_names(s: Seq<PairView>) -> Seq<char>
    decreases s.len(),
{
    if s.len() == 0 {
        Seq::empty()
    } else if s.len() == 1 {
        s.last().0
    } else {
        signed_names(s.drop_last()) + seq![';'] + s.last().0
    }
}

fn append_header_lines(out: &mut String, ch: &Vec<(String, String)>)
    ensures
        final(out)@ == old(out)@ + render_headers(pair_views(ch@)),
{
    let n = ch.len();
    let ghost hv = pair_views(ch@);
    let mut i: usize = 0;
    proof {
        assert(old(out)@ + Seq::<char>::empty() =~= old(out)@);
    }
    while i < n
        invariant
            i <= n,
            hv == pair_views(ch@),
            n == ch@.len(),
            out@ == old(out)@ + render_headers(hv.take(i as int)),
        decreases n - i,
    {
        out.append(ch[i].0.as_str());
        push_char(out, ':');
        out.append(ch[i].1.as_str());
        push_char(out, '\n');
        proof {
            assert(hv.take(i as int + 1).drop_last() =~= hv.take(i as int));
            assert(hv.take(i as int + 1).last() == hv[i as int]);
            assert(hv[i as int] == (ch@[i as int].0@, ch@[i as int].1@));
            assert(out@ =~= old(out)@ + render_headers(hv.take(i as int + 1)));
        }
        i = i + 1;
    }
    proof {
        assert(hv.take(n as int) =~= hv);
    }
}

fn append_signed_names(out: &mut String, ch: &Vec<(String, String)>)
    ensures
        final(out)@ == old(out)@ + signed_names(pair_views(ch@)),
{
    let n = ch.len();
    let ghost hv = pair_views(ch@);
    let mut i: usize = 0;
    proof {
        assert(old(out)@ + Seq::<char>::empty() =~= old(out)@);
    }
    while i < n
        invariant
            i <= n,
            hv == pair_views(ch@),
            n == ch@.len(),
            out@ == old(out)@ + signed_names(hv.take(i as int)),
        decreases n - i,
    {
        if i > 0 {
            push_char(out, ';');
        }
        out.append(ch[i].0.as_str());
        proof {
            assert(hv.take(i as int + 1).drop_last() =~= hv.take(i as int));
            assert(hv.take(i as int + 1).last() == hv[i as int]);
            assert(hv[i as int].0 == ch@[i as int].0@);
            assert(out@ =~= old(out)@ + signed_names(hv.take(i as int + 1)));
        }
        i = i + 1;
    }
    proof {
        assert(hv.take(n as int) =~= hv);
    }
}

/// The canonical request: method, canonical URI, canonical query string,
/// canonical headers, signed header names, and the payload hash, each
/// terminated or separated by a newline.
pub open spec fn canonical_request_spec(
    method: Seq<char>,
    uri: Seq<char>,
    cquery: Seq<char>,
    headers: Seq<PairView>,
    payload_hash: Seq<char>,
) -> Seq<char> {
    let ch = canon_headers_sorted(headers);
    method + seq!['\n'] + uri + seq!['\n'] + cquery + seq!['\n'] + render_headers(ch)
        + seq!['\n'] + signed_names(ch) + seq!['\n'] + payload_hash
}

/// Build the canonical request string.
pub fn canonical_request(
    method: &str,
    uri: &str,
    canonical_query: &str,
    headers: Vec<(String, String)>,
    payload_hash: &str,
) -> (r: String)
    ensures
        r@ == canonical_request_spec(
            method@,
            uri@,
            canonical_query@,
            pair_views(headers@),
            payload_hash@,
        ),
{
    let ghost hv = pair_views(headers@);
    let ch = canonicalize_headers(headers);
    let mut out = method.to_owned();
    push_char(&mut out, '\n');
    out.append(uri);
    push_char(&mut out, '\n');
    out.append(canonical_query);
    push_char(&mut out, '\n');
    append_header_lines(&mut out, &ch);
    push_char(&mut out, '\n');
    append_signed_names(&mut out, &ch);
    push_char(&mut out, '\n');
    out.append(payload_hash);
    proof {
        assert(out@ =~= canonical_request_spec(
            method@,
            uri@,
            canonical_query@,
            hv,
            payload_hash@,
        ));
    }
    out
}

/// The credential scope binding a signature to date, region and service.
pub open spec fn credential_scope_spec(
    date: Seq<char>,
    region: Seq<char>,
    service: Seq<char>,
) -> Seq<char> {
    date + seq!['/'] + region + seq!['/'] + service + seq!['/'] + "aws4_request"@
}

/// Build the credential scope string.
pub fn credential_scope(date: &str, region: &str, service: &str) -> (r: String)
    ensures
        r@ == credential_scope_spec(date@, region@, service@),
{
    let mut out = date.to_owned();
    push_char(&mut out, '/');
    out.append(region);
    push_char(&mut out, '/');
    out.append(service);
    push_char(&mut out, '/');
    out.append("aws4_request");
    proof {
        assert(out@ =~= credential_scope_spec(date@, region@, service@));
    }
    out
}

/// The string to sign: algorithm identifier, request timestamp, credential
/// scope, and the hex SHA-256 of the canonical request.
pub open spec fn string_to_sign_spec(
    amz_date: Seq<char>,
    scope: Seq<char>,
    canonical_request: Seq<char>,
) -> Seq<char> {
    "AWS4-HMAC-SHA256"@ + seq!['\n'] + amz_date + seq!['\n'] + scope + seq!['\n'] + hex_of(
        sha256_of(encode_utf8(canonical_request)),
    )
}

/// Build the string to sign.
pub fn string_to_sign(amz_date: &str, scope: &str, canonical_request: &str) -> (r: String)
    ensures
        r@ == string_to_sign_spec(amz_date@, scope@, canonical_request@),
{
    let mut out = "AWS4-HMAC-SHA256".to_owned();
    push_char(&mut out, '\n');
    out.append(amz_date);
    push_char(&mut out, '\n');
    out.append(scope);
    push_char(&mut out, '\n');
    let digest = sha256(canonical_request.as_bytes());
    let hexd = hex_lower(digest.as_slice());
    out.append(hexd.as_str());
    proof {
        assert(out@ =~= string_to_sign_spec(amz_date@, scope@, canonical_request@));
    }
    out
}

/// The signing key: HMAC-SHA-256 seeded from the secret key and folded
/// through date, region, service and the fixed terminator.
pub open spec fn signing_key_spec(
    secret: Seq<char>,
    date: Seq<char>,
    region: Seq<char>,
    service: Seq<char>,
) -> Seq<u8> {
    hmac_sha256_of(
        hmac_sha256_of(
            hmac_sha256_of(
                hmac_sha256_of(encode_utf8("AWS4"@ + secret), encode_utf8(date)),
                encode_utf8(region),
            ),
            encode_utf8(service),
        ),
        encode_utf8("aws4_request"@),
    )
}

/// Derive the signing key.
pub fn signing_key(secret: &str, date: &str, region: &str, service: &str) -> (r: Vec<u8>)
    ensures
        r@ == signing_key_spec(secret@, date@, region@, service@),
{
    let seed = "AWS4".to_owned().concat(secret);
    let k0 = hmac_sha256(seed.as_str().as_bytes(), date.as_bytes());
    let k1 = hmac_sha256(k0.as_slice(), region.as_bytes());
    let k2 = hmac_sha256(k1.as_slice(), service.as_bytes());
    let k3 = hmac_sha256(k2.as_slice(), "aws4_request".as_bytes());
    k3
}

/// The request signature: lower-case hex of the HMAC of the string to sign
/// under the signing key.
pub open spec fn signature_spec(
    secret: Seq<char>,
    date: Seq<char>,
    region: Seq<char>,
    service: Seq<char>,
    string_to_sign: Seq<char>,
) -> Seq<char> {
    hex_of(hmac_sha256_of(signing_key_spec(secret, date, region, service), encode_utf8(
        string_to_sign,
    )))
}

/// Compute the request signature for a secret key.
pub fn compute_signature(
    secret: &str,
    date: &str,
    region: &str,
    service: &str,
    string_to_sign: &str,
) -> (r: String)
    ensures
        r@ == signature_spec(secret@, date@, region@, service@, string_to_sign@),
{
    let key = signing_key(secret, date, region, service);
    let mac = hmac_sha256(key.as_slice(), string_to_sign.as_bytes());
    hex_lower(mac.as_slice())
}

/// The contents of a request's `Authorization` header.
#[derive(Debug)]
pub struct SigV4Context {
    pub access_key: String,
    pub date: String,
    pub region: String,
    pub service: String,
    /// The header names listed in the `SignedHeaders` field, in order.
    pub signed_headers: Vec<String>,
    pub signature: String,
}

/// The signed elements of one request. `headers` holds exactly the headers
/// the client listed as signed, as selected by the caller.
#[derive(Debug)]
pub struct SigningInput {
    pub method: String,
    pub uri: String,
    pub query: OrderedQs,
    pub headers: Vec<(String, String)>,
    pub payload_hash: String,
    pub amz_date: String,
    pub timestamp: i64,
}

/// The outcome of the authorization gate.
#[derive(Debug)]
pub enum AuthOutcome {
    /// No credential store is installed; every request passes.
    Anonymous,
    /// The signature verified; the request acts as this access key.
    Authorized(String),
    /// The request is rejected with this fault before any storage access.
    Rejected(S3ErrorCode),
}

/// The request timestamp lies outside the allowed clock skew.
pub open spec fn outside_skew(timestamp: int, now: int, max_skew: int) -> bool {
    timestamp - now > max_skew || now - timestamp > max_skew
}

/// The signature expected for a request under a given secret key.
pub open spec fn expected_signature(
    secret: Seq<char>,
    c: SigV4Context,
    input: SigningInput,
) -> Seq<char> {
    signature_spec(
        secret,
        c.date@,
        c.region@,
        c.service@,
        string_to_sign_spec(
            input.amz_date@,
            credential_scope_spec(c.date@, c.region@, c.service@),
            canonical_request_spec(
                input.method@,
                input.uri@,
                canonical_query_string(input.query@),
                pair_views(input.headers@),
                input.payload_hash@,
            ),
        ),
    )
}

/// Verify one request against the credential registry, before any storage
/// access. With no registry installed every request is authorized; with one,
/// the request must carry an `Authorization` header naming a registered
/// access key, a timestamp within the skew window, and the exact signature
/// derived from that key's secret over the canonical request.
pub fn verify_request(
    store: Option<&CredentialStore>,
    auth: Option<&SigV4Context>,
    input: SigningInput,
    now: i64,
    max_skew: i64,
) -> (r: AuthOutcome)
    requires
        max_skew >= 0,
    ensures
        store is None ==> r is Anonymous,
        store is Some && auth is None ==> r == AuthOutcome::Rejected(
            S3ErrorCode::MissingSecurityHeader,
        ),
        store is Some && auth is Some && !store->Some_0@.contains_key(
            auth->Some_0.access_key@,
        ) ==> r == AuthOutcome::Rejected(S3ErrorCode::InvalidAccessKeyId),
        store is Some && auth is Some && store->Some_0@.contains_key(auth->Some_0.access_key@)
            && outside_skew(input.timestamp as int, now as int, max_skew as int) ==> r
            == AuthOutcome::Rejected(S3ErrorCode::RequestTimeTooSkewed),
        store is Some && auth is Some && store->Some_0@.contains_key(auth->Some_0.access_key@)
            && !outside_skew(input.timestamp as int, now as int, max_skew as int) ==> if auth
            ->Some_0.signature@ == expected_signature(
            store->Some_0@[auth->Some_0.access_key@],
            *auth->Some_0,
            input,
        ) {
            r matches AuthOutcome::Authorized(k) && k@ == auth->Some_0.access_key@
        } else {
            r == AuthOutcome::Rejected(S3ErrorCode::SignatureDoesNotMatch)
        },
{
    let st = match store {
        None => {
            return AuthOutcome::Anonymous;
        },
        Some(st) => st,
    };
    let c = match auth {
        None => {
            return AuthOutcome::Rejected(S3ErrorCode::MissingSecurityHeader);
        },
        Some(c) => c,
    };
    let secret = match st.lookup(c.access_key.as_str()) {
        None => {
            return AuthOutcome::Rejected(S3ErrorCode::InvalidAccessKeyId);
        },
        Some(s) => s,
    };
    let d: i128 = input.timestamp as i128 - now as i128;
    if d > max_skew as i128 || d < -(max_skew as i128) {
        return AuthOutcome::Rejected(S3ErrorCode::RequestTimeTooSkewed);
    }
    let cquery = input.query.to_canonical_string();
    let creq = canonical_request(
        input.method.as_str(),
        input.uri.as_str(),
        cquery.as_str(),
        input.headers,
        input.payload_hash.as_str(),
    );
    let scope = credential_scope(c.date.as_str(), c.region.as_str(), c.service.as_str());
    let sts = string_to_sign(input.amz_date.as_str(), scope.as_str(), creq.as_str());
    let expected = compute_signature(
        secret,
        c.date.as_str(),
        c.region.as_str(),
        c.service.as_str(),
        sts.as_str(),
    );
    if eq_constant_time(expected.as_str(), c.signature.as_str()) {
        AuthOutcome::Authorized(c.access_key.clone())
    } else {
        AuthOutcome::Rejected(S3ErrorCode::SignatureDoesNotMatch)
    }
}


/// The hex SHA-256 payload hash of a request body.
pub open spec fn payload_hash_of(body: Seq<u8>) -> Seq<char> {
    hex_of(sha256_of(body))
}

/// Hex SHA-256 digest of the request body, as signed.
pub fn payload_hash(body: &[u8]) -> (r: String)
    ensures
        r@ == payload_hash_of(body@),
{
    let d = sha256(body);
    hex_lower(d.as_slice())
}

} // verus!
