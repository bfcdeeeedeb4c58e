//! The dispatcher: operation resolution from method, path and query
//! parameters, request-level parsing, and error rendering.

use vstd::prelude::*;
use vstd::string::*;
use vstd::utf8::encode_utf8;

use crate::creds::CredentialStore;
use crate::error_code::S3ErrorCode;
use crate::query::{canonical_query_string, first_idx, parse_query, split_on, OrderedQs};
use crate::sigv4::{
    canonical_request_spec, credential_scope_spec, outside_skew, payload_hash, payload_hash_of,
    signature_spec, string_to_sign_spec, verify_request, AuthOutcome, SigV4Context, SigningInput,
};
use crate::storage::Storage;
use crate::text::{lower_chars, pair_views, sort_by_key, string_from_utf8, PairView, StrOrder};

verus! {

/// The HTTP verbs the dispatcher routes.
#[derive(Debug, Clone, Copy, PartialEq, Eq, Structural)]
pub enum Method {
    Get,
    Put,
    Post,
    Delete,
    Head,
}

/// The operations the dispatcher can select.
#[derive(Debug, Clone, Copy, PartialEq, Eq, Structural)]
pub enum Operation {
    ListBuckets,
    CreateBucket,
    DeleteBucket,
    HeadBucket,
    ListObjects,
    GetObject,
    PutObject,
    DeleteObject,
    HeadObject,
    CreateMultipartUpload,
    UploadPart,
    CompleteMultipartUpload,
    AbortMultipartUpload,
}

impl Method {
    /// The verb as it appears on the wire and in the canonical request.
    pub open spec fn name_spec(self) -> Seq<char> {
        match self {
            Method::Get => "GET"@,
            Method::Put => "PUT"@,
            Method::Post => "POST"@,
            Method::Delete => "DELETE"@,
            Method::Head => "HEAD"@,
        }
    }

    /// The verb's wire name.
    pub fn name(&self) -> (r: String)
        ensures
            r@ == self.name_spec(),
    {
        match self {
            Method::Get => "GET".to_owned(),
            Method::Put => "PUT".to_owned(),
            Method::Post => "POST".to_owned(),
            Method::Delete => "DELETE".to_owned(),
            Method::Head => "HEAD".to_owned(),
        }
    }
}

/// A query parameter with this name is present.
pub open spec fn has_param(q: Seq<PairView>, name: Seq<char>) -> bool {
    exists|i: int| 0 <= i < q.len() && (#[trigger] q[i]).0 == name
}

/// The operation table: which operation a verb selects, given whether the
/// path names a bucket and a key and which marker parameters the query
/// carries.
pub open spec fn resolve_spec(
    m: Method,
    has_bucket: bool,
    has_key: bool,
    q: Seq<PairView>,
) -> Result<Operation, S3ErrorCode> {
    if !has_bucket {
        if m is Get {
            Ok(Operation::ListBuckets)
        } else {
            Err(S3ErrorCode::MethodNotAllowed)
        }
    } else if !has_key {
        match m {
            Method::Get => Ok(Operation::ListObjects),
            Method::Put => Ok(Operation::CreateBucket),
            Method::Delete => Ok(Operation::DeleteBucket),
            Method::Head => Ok(Operation::HeadBucket),
            Method::Post => Err(S3ErrorCode::MethodNotAllowed),
        }
    } else {
        if m is Post && has_param(q, "uploads"@) {
            Ok(Operation::CreateMultipartUpload)
        } else if m is Put && has_param(q, "uploadId"@) && has_param(q, "partNumber"@) {
            Ok(Operation::UploadPart)
        } else if m is Post && has_param(q, "uploadId"@) {
            Ok(Operation::CompleteMultipartUpload)
        } else if m is Delete && has_param(q, "uploadId"@) {
            Ok(Operation::AbortMultipartUpload)
        } else {
            match m {
                Method::Get => Ok(Operation::GetObject),
                Method::Put => Ok(Operation::PutObject),
                Method::Delete => Ok(Operation::DeleteObject),
                Method::Head => Ok(Operation::HeadObject),
                Method::Post => Err(S3ErrorCode::MethodNotAllowed),
            }
        }
    }
}

fn qs_has(qs: &OrderedQs, name: &str) -> (r: bool)
    ensures
        r == has_param(qs@, name@),
{
    match qs.get(name) {
        Some(_) => {
            proof {
                let p = choose|i: int| 0 <= i < qs@.len() && qs@[i].0 == name@;
            }
            true
        },
        None => {
            proof {
                if has_param(qs@, name@) {
                    let i = choose|i: int| 0 <= i < qs@.len() && (#[trigger] qs@[i]).0 == name@;
                }
            }
            false
        },
    }
}

/// Select the operation for a request.
pub fn resolve_operation(m: Method, has_bucket: bool, has_key: bool, qs: &OrderedQs) -> (r: Result<
    Operation,
    S3ErrorCode,
>)
    ensures
        r == resolve_spec(m, has_bucket, has_key, qs@),
{
    if !has_bucket {
        if m == Method::Get {
            Ok(Operation::ListBuckets)
        } else {
            Err(S3ErrorCode::MethodNotAllowed)
        }
    } else if !has_key {
        match m {
            Method::Get => Ok(Operation::ListObjects),
            Method::Put => Ok(Operation::CreateBucket),
            Method::Delete => Ok(Operation::DeleteBucket),
            Method::Head => Ok(Operation::HeadBucket),
            Method::Post => Err(S3ErrorCode::MethodNotAllowed),
        }
    } else {
        let uploads = qs_has(qs, "uploads");
        let upload_id = qs_has(qs, "uploadId");
        let part_number = qs_has(qs, "partNumber");
        if m == Method::Post && uploads {
            Ok(Operation::CreateMultipartUpload)
        } else if m == Method::Put && upload_id && part_number {
            Ok(Operation::UploadPart)
        } else if m == Method::Post && upload_id {
            Ok(Operation::CompleteMultipartUpload)
        } else if m == Method::Delete && upload_id {
            Ok(Operation::AbortMultipartUpload)
        } else {
            match m {
                Method::Get => Ok(Operation::GetObject),
                Method::Put => Ok(Operation::PutObject),
                Method::Delete => Ok(Operation::DeleteObject),
                Method::Head => Ok(Operation::HeadObject),
                Method::Post => Err(S3ErrorCode::MethodNotAllowed),
            }
        }
    }
}

/// Index of the first occurrence of a character, or the length if absent.
pub open spec fn char_idx(s: Seq<char>, c: char) -> int
    decreases s.len(),
{
    if s.len() == 0 {
        0
    } else if s.first() == c {
        0
    } else {
        1 + char_idx(s.drop_first(), c)
    }
}

pub proof fn lemma_char_idx(s: Seq<char>, c: char)
    ensures
        0 <= char_idx(s, c) <= s.len(),
        char_idx(s, c) < s.len() ==> s[char_idx(s, c)] == c,
        forall|j: int| 0 <= j < char_idx(s, c) ==> s[j] != c,
    decreases s.len(),
{
    if s.len() != 0 && s.first() != c {
        lemma_char_idx(s.drop_first(), c);
        assert(forall|j: int|
            0 <= j < char_idx(s, c) ==> s[j] == if j == 0 {
                s.first()
            } else {
                s.drop_first()[j - 1]
            });
    }
}

proof fn lemma_char_idx_shift(s: Seq<char>, c: char, k: int)
    requires
        0 <= k <= s.len(),
        forall|j: int| 0 <= j < k ==> s[j] != c,
    ensures
        char_idx(s, c) == k + char_idx(s.skip(k), c),
    decreases k,
{
    if k > 0 {
        assert(s.first() != c);
        assert(s.drop_first().skip(k - 1) =~= s.skip(k));
        assert(forall|j: int| 0 <= j < k - 1 ==> s.drop_first()[j] == s[j + 1]);
        lemma_char_idx_shift(s.drop_first(), c, k - 1);
    } else {
        assert(s.skip(0) =~= s);
    }
}

fn find_char(s: &str, from: usize, c: char) -> (r: usize)
    requires
        from <= s@.len(),
    ensures
        from <= r <= s@.len(),
        r - from == char_idx(s@.skip(from as int), c),
        r < s@.len() ==> s@[r as int] == c,
{
    let n = s.unicode_len();
    let mut i: usize = from;
    loop
        invariant
            from <= i <= n,
            n == s@.len(),
            forall|j: int| from <= j < i ==> s@[j] != c,
        decreases n - i,
    {
        if i == n {
            proof {
                assert(forall|j: int|
                    0 <= j < i - from ==> s@.skip(from as int)[j] == s@[from + j]);
                lemma_char_idx_shift(s@.skip(from as int), c, i - from as int);
                assert(s@.skip(from as int).skip(i - from as int) =~= Seq::empty());
            }
            return i;
        }
        if s.get_char(i) == c {
            proof {
                assert(forall|j: int|
                    0 <= j < i - from ==> s@.skip(from as int)[j] == s@[from + j]);
                lemma_char_idx_shift(s@.skip(from as int), c, i - from as int);
                assert(s@.skip(from as int).skip(i - from as int).first() == c);
            }
            return i;
        }
        i = i + 1;
    }
}

/// What a request path names: nothing, a bucket, or a bucket and a key.
pub open spec fn path_target_spec(p: Seq<char>) -> Result<
    (Option<Seq<char>>, Option<Seq<char>>),
    S3ErrorCode,
> {
    if p.len() == 0 || p.first() != '/' {
        Err(S3ErrorCode::InvalidURI)
    } else {
        let rest = p.drop_first();
        let i = char_idx(rest, '/');
        if i == 0 {
            if rest.len() == 0 {
                Ok((None, None))
            } else {
                Err(S3ErrorCode::InvalidURI)
            }
        } else if i >= rest.len() {
            Ok((Some(rest), None))
        } else {
            let key = rest.skip(i + 1);
            if key.len() == 0 {
                Ok((Some(rest.take(i)), None))
            } else {
                Ok((Some(rest.take(i)), Some(key)))
            }
        }
    }
}

/// Parse the request path into its bucket and key segments. The path must
/// begin with `/`; the bucket is the first segment and the key is everything
/// after it, slashes included.
pub fn path_target(p: &str) -> (r: Result<(Option<String>, Option<String>), S3ErrorCode>)
    ensures
        match r {
            Ok(t) => path_target_spec(p@) == Ok::<
                (Option<Seq<char>>, Option<Seq<char>>),
                S3ErrorCode,
            >(
                (
                    match t.0 {
                        Some(b) => Some(b@),
                        None => None,
                    },
                    match t.1 {
                        Some(k) => Some(k@),
                        None => None,
                    },
                ),
            ),
            Err(e) => path_target_spec(p@) == Err::<
                (Option<Seq<char>>, Option<Seq<char>>),
                S3ErrorCode,
            >(e),
        },
{
    let n = s_len(p);
    if n == 0 || p.get_char(0) != '/' {
        return Err(S3ErrorCode::InvalidURI);
    }
    let ghost rest = p@.drop_first();
    let i = find_char(p, 1, '/');
    proof {
        assert(p@.skip(1) =~= rest);
        assert(forall|j: int| 0 <= j < rest.len() ==> rest[j] == p@[j + 1]);
    }
    if i == 1 {
        if n == 1 {
            return Ok((None, None));
        }
        return Err(S3ErrorCode::InvalidURI);
    }
    if i == n {
        let b = p.substring_char(1, n);
        proof {
            assert(b@ =~= rest);
        }
        return Ok((Some(b.to_owned()), None));
    }
    let b = p.substring_char(1, i);
    proof {
        assert(b@ =~= rest.take(i - 1));
    }
    if i + 1 == n {
        return Ok((Some(b.to_owned()), None));
    }
    let k = p.substring_char(i + 1, n);
    proof {
        assert(k@ =~= rest.skip(i as int));
    }
    Ok((Some(b.to_owned()), Some(k.to_owned())))
}

fn s_len(s: &str) -> (r: usize)
    ensures
        r == s@.len(),
{
    s.unicode_len()
}

/// The response the dispatcher renders.
#[derive(Debug)]
pub struct S3Response {
    pub status: u16,
    pub body: Vec<u8>,
}

/// The XML error body carrying the wire code and the request's resource.
pub open spec fn xml_error_body(code: S3ErrorCode, resource: Seq<char>) -> Seq<char> {
    "<Error><Code>"@ + code.wire_code_spec() + "</Code><Message>"@ + code.wire_code_spec()
        + "</Message><Resource>"@ + resource + "</Resource></Error>"@
}

/// The status an error response carries: the code's standard status, or 500
/// where none is documented.
pub open spec fn error_status(code: S3ErrorCode) -> u16 {
    match code.status_spec() {
        Some(s) => s,
        None => 500,
    }
}

/// Render a fault as an HTTP response with an XML error body.
pub fn render_error(code: S3ErrorCode, resource: &str) -> (r: S3Response)
    ensures
        r.status == error_status(code),
        r.body@ == encode_utf8(xml_error_body(code, resource@)),
{
    let mut body = "<Error><Code>".to_owned();
    let wire = code.wire_code();
    body.append(wire.as_str());
    body.append("</Code><Message>");
    body.append(wire.as_str());
    body.append("</Message><Resource>");
    body.append(resource);
    body.append("</Resource></Error>");
    proof {
        assert(body@ =~= xml_error_body(code, resource@));
    }
    let status = match code.as_status_code() {
        Some(s) => s,
        None => 500,
    };
    S3Response { status, body: body.as_str().as_bytes_vec() }
}

/// The value of the first header whose lower-cased name matches, if any.
pub open spec fn header_value(hs: Seq<PairView>, name: Seq<char>) -> Option<Seq<char>>
    decreases hs.len(),
{
    if hs.len() == 0 {
        None
    } else if lower_chars(hs.first().0) == name {
        Some(hs.first().1)
    } else {
        header_value(hs.drop_first(), name)
    }
}

/// Find a header by case-insensitive name; the name given must already be
/// lower case.
pub fn find_header<'a>(headers: &'a Vec<(String, String)>, name: &str) -> (r: Option<&'a str>)
    ensures
        match r {
            Some(v) => header_value(pair_views(headers@), name@) == Some(v@),
            None => header_value(pair_views(headers@), name@) is None,
        },
{
    let ghost hv = pair_views(headers@);
    let n = headers.len();
    let mut i: usize = 0;
    proof {
        assert(hv.skip(0) =~= hv);
    }
    loop
        invariant
            i <= n,
            n == headers@.len(),
            hv == pair_views(headers@),
            header_value(hv, name@) == header_value(hv.skip(i as int), name@),
        decreases n - i,
    {
        if i == n {
            proof {
                assert(hv.skip(i as int).len() == 0);
            }
            return None;
        }
        proof {
            assert(hv.skip(i as int).first() == hv[i as int]);
            assert(hv.skip(i as int).drop_first() =~= hv.skip(i as int + 1));
            assert(hv[i as int] == (headers@[i as int].0@, headers@[i as int].1@));
        }
        let lowered = crate::text::ascii_lowercase(headers[i].0.as_str());
        match crate::text::str_compare(lowered.as_str(), name) {
            StrOrder::Equal => {
                let v: &str = headers[i].1.as_str();
                return Some(v);
            },
            _ => {},
        }
        i = i + 1;
    }
}


/// Split a byte string at the first occurrence of a byte, if it occurs.
pub open spec fn split_at_byte(s: Seq<u8>, b: u8) -> Option<(Seq<u8>, Seq<u8>)> {
    let i = first_idx(s, b);
    if i < s.len() {
        Some((s.take(i), s.skip(i + 1)))
    } else {
        None
    }
}

fn split_bytes<'a>(s: &'a [u8], b: u8) -> (r: Option<(&'a [u8], &'a [u8])>)
    ensures
        match r {
            Some(t) => split_at_byte(s@, b) == Some((t.0@, t.1@)),
            None => split_at_byte(s@, b) is None,
        },
{
    proof {
        assert(s@.skip(0) =~= s@);
    }
    let i = crate::query::find_byte(s, 0, b);
    if i < s.len() {
        let left: &[u8] = &s[0..i];
        let right: &[u8] = &s[i + 1..s.len()];
        proof {
            assert(left@ =~= s@.take(i as int));
            assert(right@ =~= s@.skip(i as int + 1));
        }
        Some((left, right))
    } else {
        None
    }
}

fn bytes_eq(a: &[u8], b: &[u8]) -> (r: bool)
    ensures
        r == (a@ == b@),
{
    let n = a.len();
    if n != b.len() {
        return false;
    }
    let mut i: usize = 0;
    while i < n
        invariant
            i <= n,
            n == a@.len() == b@.len(),
            forall|j: int| 0 <= j < i ==> a@[j] == b@[j],
        decreases n - i,
    {
        if a[i] != b[i] {
            return false;
        }
        i = i + 1;
    }
    proof {
        assert(a@ =~= b@);
    }
    true
}

/// The views of a list of names.
pub open spec fn name_views(v: Seq<String>) -> Seq<Seq<char>> {
    Seq::new(v.len(), |i: int| v[i]@)
}

/// Decode each raw name as UTF-8, failing if any is not valid.
pub open spec fn decode_names(segs: Seq<Seq<u8>>) -> Option<Seq<Seq<char>>>
    decreases segs.len(),
{
    if segs.len() == 0 {
        Some(Seq::empty())
    } else {
        match decode_names(segs.drop_first()) {
            Some(rest) => if vstd::utf8::valid_utf8(segs.first()) {
                Some(seq![vstd::utf8::decode_utf8(segs.first())] + rest)
            } else {
                None
            },
            None => None,
        }
    }
}

/// The signed-header names: the `;`-separated segments of a `SignedHeaders`
/// field, in order.
pub open spec fn parse_names(s: Seq<u8>) -> Option<Seq<Seq<char>>> {
    decode_names(split_on(s, 59))
}

proof fn lemma_decode_names_cons(seg: Seq<u8>, rest: Seq<Seq<u8>>)
    ensures
        decode_names(seq![seg] + rest) == match decode_names(rest) {
            Some(ns) => if vstd::utf8::valid_utf8(seg) {
                Some(seq![vstd::utf8::decode_utf8(seg)] + ns)
            } else {
                None
            },
            None => None,
        },
{
    let s = seq![seg] + rest;
    assert(s.len() > 0);
    assert(s.first() == seg);
    assert(s.drop_first() =~= rest);
}

/// One step of name parsing: with `j` the position of the first `;` at or
/// after `pos`, the names of the suffix at `pos` are the segment before `j`
/// prepended to the names of the suffix after `j`.
proof fn lemma_parse_names_step(b: Seq<u8>, pos: int, j: int)
    requires
        0 <= pos <= j <= b.len(),
        first_idx(b.skip(pos), 59) == j - pos,
    ensures
        ({
            let seg = b.subrange(pos, j);
            let rest = if j < b.len() {
                parse_names(b.skip(j + 1))
            } else {
                Some(Seq::<Seq<char>>::empty())
            };
            parse_names(b.skip(pos)) == match rest {
                Some(ns) => if vstd::utf8::valid_utf8(seg) {
                    Some(seq![vstd::utf8::decode_utf8(seg)] + ns)
                } else {
                    None
                },
                None => None,
            }
        }),
{
    let suffix = b.skip(pos);
    let seg = b.subrange(pos, j);
    assert(seg =~= suffix.take(j - pos));
    if j < b.len() {
        assert(suffix.skip(j - pos + 1) =~= b.skip(j + 1));
        assert(split_on(suffix, 59) == seq![seg] + split_on(b.skip(j + 1), 59));
        lemma_decode_names_cons(seg, split_on(b.skip(j + 1), 59));
    } else {
        assert(seg =~= suffix);
        assert(split_on(suffix, 59) == seq![seg]);
        lemma_decode_names_cons(seg, Seq::empty());
        assert(seq![seg] + Seq::<Seq<u8>>::empty() =~= seq![seg]);
        assert(decode_names(Seq::<Seq<u8>>::empty()) == Some(Seq::<Seq<char>>::empty()));
        if vstd::utf8::valid_utf8(seg) {
            assert(seq![vstd::utf8::decode_utf8(seg)] + Seq::<Seq<char>>::empty()
                =~= seq![vstd::utf8::decode_utf8(seg)]);
        }
    }
}

/// Parse a `SignedHeaders` field into its names.
fn parse_signed_names(field: &[u8]) -> (r: Option<Vec<String>>)
    ensures
        match r {
            Some(ns) => parse_names(field@) == Some(name_views(ns@)),
            None => parse_names(field@) is None,
        },
{
    let ghost b = field@;
    let mut names: Vec<String> = Vec::new();
    let mut pos: usize = 0;
    proof {
        assert(b.skip(0) =~= b);
        if parse_names(b) is Some {
            assert(Seq::<Seq<char>>::empty() + parse_names(b)->Some_0 =~= parse_names(b)->Some_0);
        }
        assert(name_views(names@) =~= Seq::<Seq<char>>::empty());
    }
    loop
        invariant_except_break
            match parse_names(b.skip(pos as int)) {
                Some(rest) => parse_names(b) == Some(name_views(names@) + rest),
                None => parse_names(b) is None,
            },
        invariant
            b == field@,
            pos <= b.len(),
        ensures
            parse_names(b) == Some(name_views(names@)),
        decreases b.len() - pos,
    {
        let j = crate::query::find_byte(field, pos, 59);
        proof {
            lemma_parse_names_step(b, pos as int, j as int);
        }
        let seg: &[u8] = &field[pos..j];
        proof {
            assert(seg@ =~= b.subrange(pos as int, j as int));
        }
        let nm = match utf8_field(seg) {
            Some(v) => v,
            None => {
                return None;
            },
        };
        let ghost rest: Option<Seq<Seq<char>>> = if j < b.len() {
            parse_names(b.skip(j as int + 1))
        } else {
            Some(Seq::<Seq<char>>::empty())
        };
        proof {
            assert(name_views(names@.push(nm)) =~= name_views(names@).push(nm@));
            if rest is Some {
                assert(name_views(names@) + (seq![nm@] + rest->Some_0) =~= name_views(
                    names@,
                ).push(nm@) + rest->Some_0);
            }
        }
        names.push(nm);
        if j == field.len() {
            proof {
                if parse_names(b) is Some {
                    assert(name_views(names@) + Seq::<Seq<char>>::empty() =~= name_views(names@));
                }
            }
            break;
        }
        pos = j + 1;
    }
    Some(names)
}

/// The parsed fields of an `Authorization` header: access key, scope date,
/// region, service, the signed-header names, and the client-supplied
/// signature.
pub open spec fn parse_authorization_bytes(s: Seq<u8>) -> Option<
    (Seq<char>, Seq<char>, Seq<char>, Seq<char>, Seq<Seq<char>>, Seq<char>),
> {
    let pfx = encode_utf8("AWS4-HMAC-SHA256 Credential="@);
    if s.len() < pfx.len() || s.take(pfx.len() as int) != pfx {
        None
    } else {
        match split_at_byte(s.skip(pfx.len() as int), 47) {
            None => None,
            Some((akb, r1)) => match split_at_byte(r1, 47) {
                None => None,
                Some((dateb, r2)) => match split_at_byte(r2, 47) {
                    None => None,
                    Some((regionb, r3)) => match split_at_byte(r3, 47) {
                        None => None,
                        Some((serviceb, r4)) => match split_at_byte(r4, 44) {
                            None => None,
                            Some((term, r5)) => if term != encode_utf8("aws4_request"@) {
                                None
                            } else {
                                match split_at_byte(r5, 44) {
                                    None => None,
                                    Some((shpart, r6)) => {
                                        let shpfx = encode_utf8(" SignedHeaders="@);
                                        let sigpfx = encode_utf8(" Signature="@);
                                        if shpart.len() < shpfx.len() || shpart.take(
                                            shpfx.len() as int,
                                        ) != shpfx {
                                            None
                                        } else if r6.len() < sigpfx.len() || r6.take(
                                            sigpfx.len() as int,
                                        ) != sigpfx {
                                            None
                                        } else {
                                            let shfield = shpart.skip(shpfx.len() as int);
                                            let sigb = r6.skip(sigpfx.len() as int);
                                            match parse_names(shfield) {
                                                None => None,
                                                Some(names) => if vstd::utf8::valid_utf8(akb)
                                                    && vstd::utf8::valid_utf8(dateb)
                                                    && vstd::utf8::valid_utf8(regionb)
                                                    && vstd::utf8::valid_utf8(serviceb)
                                                    && vstd::utf8::valid_utf8(sigb) {
                                                    Some(
                                                        (
                                                            vstd::utf8::decode_utf8(akb),
                                                            vstd::utf8::decode_utf8(dateb),
                                                            vstd::utf8::decode_utf8(regionb),
                                                            vstd::utf8::decode_utf8(serviceb),
                                                            names,
                                                            vstd::utf8::decode_utf8(sigb),
                                                        ),
                                                    )
                                                } else {
                                                    None
                                                },
                                            }
                                        }
                                    },
                                }
                            },
                        },
                    },
                },
            },
        }
    }
}

fn utf8_field(s: &[u8]) -> (r: Option<String>)
    ensures
        match r {
            Some(v) => vstd::utf8::valid_utf8(s@) && v@ == vstd::utf8::decode_utf8(s@),
            None => !vstd::utf8::valid_utf8(s@),
        },
{
    string_from_utf8(vstd::slice::slice_to_vec(s))
}

/// Parse an `Authorization` header of the signing scheme.
pub fn parse_authorization(h: &str) -> (r: Option<crate::sigv4::SigV4Context>)
    ensures
        match r {
            Some(c) => parse_authorization_bytes(h.spec_bytes()) == Some(
                (
                    c.access_key@,
                    c.date@,
                    c.region@,
                    c.service@,
                    name_views(c.signed_headers@),
                    c.signature@,
                ),
            ),
            None => parse_authorization_bytes(h.spec_bytes()) is None,
        },
{
    let s: &[u8] = h.as_bytes();
    let pfxb: &[u8] = "AWS4-HMAC-SHA256 Credential=".as_bytes();
    let pl = pfxb.len();
    if s.len() < pl {
        return None;
    }
    let head: &[u8] = &s[0..pl];
    proof {
        assert(head@ =~= s@.take(pl as int));
    }
    if !bytes_eq(head, pfxb) {
        return None;
    }
    let tail: &[u8] = &s[pl..s.len()];
    proof {
        assert(tail@ =~= s@.skip(pl as int));
    }
    let (akb, r1) = match split_bytes(tail, 47) {
        Some(t) => t,
        None => {
            return None;
        },
    };
    let (dateb, r2) = match split_bytes(r1, 47) {
        Some(t) => t,
        None => {
            return None;
        },
    };
    let (regionb, r3) = match split_bytes(r2, 47) {
        Some(t) => t,
        None => {
            return None;
        },
    };
    let (serviceb, r4) = match split_bytes(r3, 47) {
        Some(t) => t,
        None => {
            return None;
        },
    };
    let (term, r5) = match split_bytes(r4, 44) {
        Some(t) => t,
        None => {
            return None;
        },
    };
    if !bytes_eq(term, "aws4_request".as_bytes()) {
        return None;
    }
    let (shpart, r6) = match split_bytes(r5, 44) {
        Some(t) => t,
        None => {
            return None;
        },
    };
    let shpfxb: &[u8] = " SignedHeaders=".as_bytes();
    if shpart.len() < shpfxb.len() {
        return None;
    }
    let shhead: &[u8] = &shpart[0..shpfxb.len()];
    proof {
        assert(shhead@ =~= shpart@.take(shpfxb@.len() as int));
    }
    if !bytes_eq(shhead, shpfxb) {
        return None;
    }
    let shfield: &[u8] = &shpart[shpfxb.len()..shpart.len()];
    proof {
        assert(shfield@ =~= shpart@.skip(shpfxb@.len() as int));
    }
    let sigpfxb: &[u8] = " Signature=".as_bytes();
    if r6.len() < sigpfxb.len() {
        return None;
    }
    let sighead: &[u8] = &r6[0..sigpfxb.len()];
    proof {
        assert(sighead@ =~= r6@.take(sigpfxb@.len() as int));
    }
    if !bytes_eq(sighead, sigpfxb) {
        return None;
    }
    let sigb: &[u8] = &r6[sigpfxb.len()..r6.len()];
    proof {
        assert(sigb@ =~= r6@.skip(sigpfxb@.len() as int));
    }
    let ak = match utf8_field(akb) {
        Some(v) => v,
        None => {
            return None;
        },
    };
    let date = match utf8_field(dateb) {
        Some(v) => v,
        None => {
            return None;
        },
    };
    let region = match utf8_field(regionb) {
        Some(v) => v,
        None => {
            return None;
        },
    };
    let service = match utf8_field(serviceb) {
        Some(v) => v,
        None => {
            return None;
        },
    };
    let signed_headers = match parse_signed_names(shfield) {
        Some(ns) => ns,
        None => {
            return None;
        },
    };
    let signature = match utf8_field(sigb) {
        Some(v) => v,
        None => {
            return None;
        },
    };
    Some(
        crate::sigv4::SigV4Context {
            access_key: ak,
            date,
            region,
            service,
            signed_headers,
            signature,
        },
    )
}


/// Value of a decimal digit character.
pub open spec fn digit_val(c: char) -> Option<int> {
    if 48 <= c as u32 && c as u32 <= 57 {
        Some(c as u32 as int - 48)
    } else {
        None
    }
}

/// Value of the decimal digits in `s[from..to]`, or `None` if any character
/// is not a digit.
pub open spec fn digits_val(s: Seq<char>, from: int, to: int) -> Option<int>
    decreases to - from,
{
    if from >= to {
        Some(0)
    } else {
        match (digits_val(s, from, to - 1), digit_val(s[to - 1])) {
            (Some(v), Some(d)) => Some(v * 10 + d),
            _ => None,
        }
    }
}

fn digit_at(s: &str, i: usize) -> (r: Option<u32>)
    requires
        i < s@.len(),
    ensures
        match r {
            Some(v) => digit_val(s@[i as int]) == Some(v as int) && v <= 9,
            None => digit_val(s@[i as int]) is None,
        },
{
    let c = s.get_char(i);
    if '0' <= c && c <= '9' {
        Some(c as u32 - 48)
    } else {
        None
    }
}

fn parse_digits(s: &str, from: usize, to: usize) -> (r: Option<u32>)
    requires
        from <= to <= s@.len(),
        to - from == 2 || to - from == 4,
    ensures
        match r {
            Some(v) => digits_val(s@, from as int, to as int) == Some(v as int),
            None => digits_val(s@, from as int, to as int) is None,
        },
{
    let mut acc: u32 = 0;
    let width = to - from;
    let d0 = match digit_at(s, from) {
        Some(v) => v,
        None => {
            proof {
                lemma_digits_val_none(s@, from as int, from as int + 1, to as int);
            }
            return None;
        },
    };
    let d1 = match digit_at(s, from + 1) {
        Some(v) => v,
        None => {
            proof {
                lemma_digits_val_none(s@, from as int, from as int + 2, to as int);
            }
            return None;
        },
    };
    proof {
        assert(digits_val(s@, from as int, from as int) == Some(0int));
        assert(digits_val(s@, from as int, from as int + 1) == Some(d0 as int));
        assert(digits_val(s@, from as int, from as int + 2) == Some(d0 as int * 10 + d1 as int));
    }
    if width == 2 {
        return Some(d0 * 10 + d1);
    }
    let d2 = match digit_at(s, from + 2) {
        Some(v) => v,
        None => {
            proof {
                lemma_digits_val_none(s@, from as int, from as int + 3, to as int);
            }
            return None;
        },
    };
    let d3 = match digit_at(s, from + 3) {
        Some(v) => v,
        None => {
            proof {
                lemma_digits_val_none(s@, from as int, from as int + 4, to as int);
            }
            return None;
        },
    };
    proof {
        assert(digits_val(s@, from as int, from as int + 3) == Some(
            (d0 as int * 10 + d1 as int) * 10 + d2 as int,
        ));
        assert(digits_val(s@, from as int, from as int + 4) == Some(
            ((d0 as int * 10 + d1 as int) * 10 + d2 as int) * 10 + d3 as int,
        ));
    }
    Some(((d0 * 10 + d1) * 10 + d2) * 10 + d3)
}

/// A non-digit anywhere in the range makes the whole range fail.
proof fn lemma_digits_val_none(s: Seq<char>, from: int, bad_end: int, to: int)
    requires
        from < bad_end <= to,
        digit_val(s[bad_end - 1]) is None,
    ensures
        digits_val(s, from, to) is None,
    decreases to - bad_end,
{
    if bad_end == to {
    } else {
        lemma_digits_val_none(s, from, bad_end, to - 1);
    }
}

/// Gregorian leap year.
pub open spec fn is_leap(y: int) -> bool {
    (y % 4 == 0 && y % 100 != 0) || y % 400 == 0
}

/// Days in a month, counting the leap day.
pub open spec fn days_in_month(y: int, m: int) -> int {
    if m == 2 {
        if is_leap(y) {
            29
        } else {
            28
        }
    } else if m == 4 || m == 6 || m == 9 || m == 11 {
        30
    } else {
        31
    }
}

/// Days in the months before `m` in year `y`.
pub open spec fn month_days_before(y: int, m: int) -> int {
    let base: int = if m == 1 {
        0
    } else if m == 2 {
        31
    } else if m == 3 {
        59
    } else if m == 4 {
        90
    } else if m == 5 {
        120
    } else if m == 6 {
        151
    } else if m == 7 {
        181
    } else if m == 8 {
        212
    } else if m == 9 {
        243
    } else if m == 10 {
        273
    } else if m == 11 {
        304
    } else {
        334
    };
    if m > 2 && is_leap(y) {
        base + 1
    } else {
        base
    }
}

/// Leap years from 1970 inclusive to `y` exclusive, for `y >= 1970`.
pub open spec fn leaps_since_epoch(y: int) -> int {
    (y - 1) / 4 - (y - 1) / 100 + (y - 1) / 400 - 477
}

/// Seconds since the epoch of a calendar date and time.
pub open spec fn epoch_seconds(y: int, mo: int, d: int, h: int, mi: int, s: int) -> int {
    let days = 365 * (y - 1970) + leaps_since_epoch(y) + month_days_before(y, mo) + (d - 1);
    days * 86400 + h * 3600 + mi * 60 + s
}

/// The timestamp denoted by a `YYYYMMDDTHHMMSSZ` string, in seconds since
/// the epoch. Years before 1970 and invalid calendar dates are rejected.
pub open spec fn parse_amz_date_spec(s: Seq<char>) -> Option<int> {
    if s.len() != 16 || s[8] != 'T' || s[15] != 'Z' {
        None
    } else {
        match (
            digits_val(s, 0, 4),
            digits_val(s, 4, 6),
            digits_val(s, 6, 8),
            digits_val(s, 9, 11),
            digits_val(s, 11, 13),
            digits_val(s, 13, 15),
        ) {
            (Some(y), Some(mo), Some(d), Some(h), Some(mi), Some(sec)) => if y >= 1970 && 1 <= mo
                <= 12 && 1 <= d <= days_in_month(y, mo) && h <= 23 && mi <= 59 && sec <= 59 {
                Some(epoch_seconds(y, mo, d, h, mi, sec))
            } else {
                None
            },
            _ => None,
        }
    }
}

/// Parse a request timestamp of the form `YYYYMMDDTHHMMSSZ`.
pub fn parse_amz_date(s: &str) -> (r: Option<i64>)
    ensures
        match r {
            Some(t) => parse_amz_date_spec(s@) == Some(t as int),
            None => parse_amz_date_spec(s@) is None,
        },
{
    let n = s.unicode_len();
    if n != 16 {
        return None;
    }
    if s.get_char(8) != 'T' || s.get_char(15) != 'Z' {
        return None;
    }
    let y = match parse_digits(s, 0, 4) {
        Some(v) => v,
        None => {
            return None;
        },
    };
    let mo = match parse_digits(s, 4, 6) {
        Some(v) => v,
        None => {
            return None;
        },
    };
    let d = match parse_digits(s, 6, 8) {
        Some(v) => v,
        None => {
            return None;
        },
    };
    let h = match parse_digits(s, 9, 11) {
        Some(v) => v,
        None => {
            return None;
        },
    };
    let mi = match parse_digits(s, 11, 13) {
        Some(v) => v,
        None => {
            return None;
        },
    };
    let sec = match parse_digits(s, 13, 15) {
        Some(v) => v,
        None => {
            return None;
        },
    };
    let dim: u32 = if mo == 2 {
        if (y % 4 == 0 && y % 100 != 0) || y % 400 == 0 {
            29
        } else {
            28
        }
    } else if mo == 4 || mo == 6 || mo == 9 || mo == 11 {
        30
    } else {
        31
    };
    if !(y >= 1970 && 1 <= mo && mo <= 12 && 1 <= d && d <= dim && h <= 23 && mi <= 59 && sec
        <= 59) {
        return None;
    }
    let yi = y as i64;
    let leaps: i64 = (yi - 1) / 4 - (yi - 1) / 100 + (yi - 1) / 400 - 477;
    let base: i64 = if mo == 1 {
        0
    } else if mo == 2 {
        31
    } else if mo == 3 {
        59
    } else if mo == 4 {
        90
    } else if mo == 5 {
        120
    } else if mo == 6 {
        151
    } else if mo == 7 {
        181
    } else if mo == 8 {
        212
    } else if mo == 9 {
        243
    } else if mo == 10 {
        273
    } else if mo == 11 {
        304
    } else {
        334
    };
    let mdb: i64 = if mo > 2 && ((y % 4 == 0 && y % 100 != 0) || y % 400 == 0) {
        base + 1
    } else {
        base
    };
    let days: i64 = 365 * (yi - 1970) + leaps + mdb + (d as i64 - 1);
    Some(days * 86400 + (h as i64) * 3600 + (mi as i64) * 60 + sec as i64)
}


/// One request as the dispatcher receives it: plain values handed over by
/// the transport layer. `now` is the wall-clock time in seconds since the
/// epoch, supplied by the caller.
#[derive(Debug)]
pub struct S3Request {
    pub method: Method,
    pub path: String,
    pub query: String,
    pub headers: Vec<(String, String)>,
    pub body: Vec<u8>,
    pub now: i64,
}

/// The view of an installed credential registry.
pub open spec fn store_view(a: Option<CredentialStore>) -> Option<Map<Seq<char>, Seq<char>>> {
    match a {
        Some(cs) => Some(cs@),
        None => None,
    }
}

/// The default clock-skew tolerance, in seconds.
pub open spec fn skew_tolerance() -> int {
    900
}

/// The authorization gate's decision for one request, given the sorted
/// query parameters: `None` passes, `Some(code)` rejects before any storage
/// access. The signature is verified over the headers the client listed in
/// `SignedHeaders`; the payload hash is the `x-amz-content-sha256` header
/// where one is sent (covering the literal unsigned-payload tokens), else
/// the hex SHA-256 of the body.
pub open spec fn gate_spec(
    store: Option<Map<Seq<char>, Seq<char>>>,
    req: S3Request,
    qsv: Seq<PairView>,
) -> Option<S3ErrorCode> {
    match store {
        None => None,
        Some(m) => {
            let hv = pair_views(req.headers@);
            match header_value(hv, "authorization"@) {
                None => Some(S3ErrorCode::MissingSecurityHeader),
                Some(h) => match parse_authorization_bytes(encode_utf8(h)) {
                    None => Some(S3ErrorCode::AuthorizationHeaderMalformed),
                    Some(a) => match header_value(hv, "x-amz-date"@) {
                        None => Some(S3ErrorCode::AccessDenied),
                        Some(amz) => match parse_amz_date_spec(amz) {
                            None => Some(S3ErrorCode::AccessDenied),
                            Some(ts) => match select_headers_spec(hv, a.4) {
                                None => Some(S3ErrorCode::SignatureDoesNotMatch),
                                Some(sel) => {
                                    let ph = match header_value(hv, "x-amz-content-sha256"@) {
                                        Some(v) => v,
                                        None => payload_hash_of(req.body@),
                                    };
                                    if !m.contains_key(a.0) {
                                        Some(S3ErrorCode::InvalidAccessKeyId)
                                    } else if outside_skew(ts, req.now as int, skew_tolerance()) {
                                        Some(S3ErrorCode::RequestTimeTooSkewed)
                                    } else if a.5 == signature_spec(
                                        m[a.0],
                                        a.1,
                                        a.2,
                                        a.3,
                                        string_to_sign_spec(
                                            amz,
                                            credential_scope_spec(a.1, a.2, a.3),
                                            canonical_request_spec(
                                                req.method.name_spec(),
                                                req.path@,
                                                canonical_query_string(qsv),
                                                sel,
                                                ph,
                                            ),
                                        ),
                                    ) {
                                        None
                                    } else {
                                        Some(S3ErrorCode::SignatureDoesNotMatch)
                                    }
                                },
                            },
                        },
                    },
                },
            }
        },
    }
}

/// The request's headers that a signed-header list names, in list order,
/// with lower-cased names; `None` when a listed header is absent.
pub open spec fn select_headers_spec(hs: Seq<PairView>, names: Seq<Seq<char>>) -> Option<
    Seq<PairView>,
>
    decreases names.len(),
{
    if names.len() == 0 {
        Some(Seq::empty())
    } else {
        match (
            select_headers_spec(hs, names.drop_last()),
            header_value(hs, lower_chars(names.last())),
        ) {
            (Some(pre), Some(v)) => Some(pre.push((lower_chars(names.last()), v))),
            _ => None,
        }
    }
}

proof fn lemma_select_none_extends(hs: Seq<PairView>, names: Seq<Seq<char>>, m: int)
    requires
        0 <= m <= names.len(),
        select_headers_spec(hs, names.take(m)) is None,
    ensures
        select_headers_spec(hs, names) is None,
    decreases names.len() - m,
{
    if m == names.len() {
        assert(names.take(m) =~= names);
    } else {
        assert(names.take(m + 1).drop_last() =~= names.take(m));
        lemma_select_none_extends(hs, names, m + 1);
    }
}

/// Select the signed headers out of the request's headers.
pub fn select_signed_headers(headers: &Vec<(String, String)>, names: &Vec<String>) -> (r: Option<
    Vec<(String, String)>,
>)
    ensures
        match r {
            Some(sel) => select_headers_spec(pair_views(headers@), name_views(names@)) == Some(
                pair_views(sel@),
            ),
            None => select_headers_spec(pair_views(headers@), name_views(names@)) is None,
        },
{
    let ghost hv = pair_views(headers@);
    let ghost nv = name_views(names@);
    let mut out: Vec<(String, String)> = Vec::new();
    let n = names.len();
    let mut i: usize = 0;
    proof {
        assert(nv.take(0) =~= Seq::<Seq<char>>::empty());
        assert(pair_views(out@) =~= Seq::<PairView>::empty());
    }
    while i < n
        invariant
            i <= n,
            n == names@.len(),
            hv == pair_views(headers@),
            nv == name_views(names@),
            select_headers_spec(hv, nv.take(i as int)) == Some(pair_views(out@)),
        decreases n - i,
    {
        proof {
            assert(nv.take(i as int + 1).drop_last() =~= nv.take(i as int));
            assert(nv.take(i as int + 1).last() == nv[i as int]);
            assert(nv[i as int] == names@[i as int]@);
        }
        let lowered = crate::text::ascii_lowercase(names[i].as_str());
        let v = match find_header(headers, lowered.as_str()) {
            Some(v) => v.to_owned(),
            None => {
                proof {
                    lemma_select_none_extends(hv, nv, i as int + 1);
                }
                return None;
            },
        };
        proof {
            assert(pair_views(out@.push((lowered, v))) =~= pair_views(out@).push(
                (lowered@, v@),
            ));
        }
        out.push((lowered, v));
        i = i + 1;
    }
    proof {
        assert(nv.take(n as int) =~= nv);
    }
    Some(out)
}

/// What an executed operation does to storage and what it answers, given
/// the old and new storage views.
pub open spec fn op_post(
    op: Operation,
    b: Option<Seq<char>>,
    k: Option<Seq<char>>,
    body: Seq<u8>,
    path: Seq<char>,
    b0: Set<Seq<char>>,
    o0: crate::storage::ObjectMap,
    b1: Set<Seq<char>>,
    o1: crate::storage::ObjectMap,
    r: S3Response,
) -> bool {
    match op {
        Operation::CreateBucket => {
            let bn = b->Some_0;
            if b0.contains(bn) {
                b1 == b0 && o1 == o0 && error_rendered(S3ErrorCode::BucketAlreadyExists, path, r)
            } else {
                b1 == b0.insert(bn) && o1 == o0 && r.status == 200 && r.body@.len() == 0
            }
        },
        Operation::DeleteBucket => {
            let bn = b->Some_0;
            if !b0.contains(bn) {
                b1 == b0 && o1 == o0 && error_rendered(S3ErrorCode::NoSuchBucket, path, r)
            } else if exists|bk: (Seq<char>, Seq<char>)| o0.contains_key(bk) && bk.0 == bn {
                b1 == b0 && o1 == o0 && error_rendered(S3ErrorCode::BucketNotEmpty, path, r)
            } else {
                b1 == b0.remove(bn) && o1 == o0 && r.status == 204 && r.body@.len() == 0
            }
        },
        Operation::HeadBucket => {
            let bn = b->Some_0;
            b1 == b0 && o1 == o0 && if b0.contains(bn) {
                r.status == 200
            } else {
                error_rendered(S3ErrorCode::NoSuchBucket, path, r)
            }
        },
        Operation::PutObject => {
            let bn = b->Some_0;
            let kn = k->Some_0;
            if !b0.contains(bn) {
                b1 == b0 && o1 == o0 && error_rendered(S3ErrorCode::NoSuchBucket, path, r)
            } else {
                b1 == b0 && o1 == o0.insert((bn, kn), body) && r.status == 200 && r.body@.len()
                    == 0
            }
        },
        Operation::GetObject => {
            let bn = b->Some_0;
            let kn = k->Some_0;
            b1 == b0 && o1 == o0 && if o0.contains_key((bn, kn)) {
                r.status == 200 && r.body@ == o0[(bn, kn)]
            } else if !b0.contains(bn) {
                error_rendered(S3ErrorCode::NoSuchBucket, path, r)
            } else {
                error_rendered(S3ErrorCode::NoSuchKey, path, r)
            }
        },
        Operation::HeadObject => {
            let bn = b->Some_0;
            let kn = k->Some_0;
            b1 == b0 && o1 == o0 && if o0.contains_key((bn, kn)) {
                r.status == 200 && r.body@.len() == 0
            } else if !b0.contains(bn) {
                error_rendered(S3ErrorCode::NoSuchBucket, path, r)
            } else {
                error_rendered(S3ErrorCode::NoSuchKey, path, r)
            }
        },
        Operation::DeleteObject => {
            let bn = b->Some_0;
            let kn = k->Some_0;
            if !b0.contains(bn) {
                b1 == b0 && o1 == o0 && error_rendered(S3ErrorCode::NoSuchBucket, path, r)
            } else {
                b1 == b0 && o1 == o0.remove((bn, kn)) && r.status == 204 && r.body@.len() == 0
            }
        },
        _ => b1 == b0 && o1 == o0 && error_rendered(S3ErrorCode::NotImplemented, path, r),
    }
}

/// The response is the rendered error: its standard status (or 500) and the
/// XML error body naming the request's resource.
pub open spec fn error_rendered(code: S3ErrorCode, path: Seq<char>, r: S3Response) -> bool {
    r.status == error_status(code) && r.body@ == encode_utf8(xml_error_body(code, path))
}

/// The service: an optional credential registry composed with a storage
/// capability. One instance serves every request of the process; the
/// transport layer shares it and supplies each request as plain values.
#[derive(Debug)]
pub struct S3Service<S> {
    auth: Option<CredentialStore>,
    storage: S,
}

impl<S: Storage> S3Service<S> {
    /// A service over a storage capability, with no credentials installed:
    /// requests are served anonymously.
    pub fn new(storage: S) -> (r: Self)
        ensures
            r.storage_ref().buckets() == storage.buckets(),
            r.storage_ref().objects() == storage.objects(),
            store_view(r.auth_ref()) is None,
    {
        S3Service { auth: None, storage }
    }

    /// Install the credential registry; every later request must be signed.
    pub fn set_auth(&mut self, auth: CredentialStore)
        ensures
            store_view(final(self).auth_ref()) == Some(auth@),
            final(self).storage_ref().buckets() == old(self).storage_ref().buckets(),
            final(self).storage_ref().objects() == old(self).storage_ref().objects(),
    {
        self.auth = Some(auth);
    }

    /// The composed storage capability.
    pub closed spec fn storage_ref(&self) -> &S {
        &self.storage
    }

    /// The installed credential registry, if any.
    pub closed spec fn auth_ref(&self) -> Option<CredentialStore> {
        self.auth
    }

    /// Serve one request: parse, authenticate, resolve the operation,
    /// execute it against storage, and render the response. Parse and
    /// authentication faults short-circuit: storage is never touched, and
    /// authentication is decided before operation resolution.
    pub fn handle(&mut self, req: S3Request) -> (r: S3Response)
        ensures
            ({
                let qv = parse_query(encode_utf8(req.query@));
                let pt = path_target_spec(req.path@);
                let b0 = old(self).storage_ref().buckets();
                let o0 = old(self).storage_ref().objects();
                let b1 = final(self).storage_ref().buckets();
                let o1 = final(self).storage_ref().objects();
                if qv is None {
                    b1 == b0 && o1 == o0 && r.status == error_status(S3ErrorCode::InvalidURI)
                        && r.body@ == encode_utf8(
                        xml_error_body(S3ErrorCode::InvalidURI, req.path@),
                    )
                } else {
                    let qsv = sort_by_key(qv->Some_0);
                    if pt is Err {
                        b1 == b0 && o1 == o0 && r.status == error_status(pt->Err_0) && r.body@
                            == encode_utf8(xml_error_body(pt->Err_0, req.path@))
                    } else {
                        let bk = pt->Ok_0;
                        match gate_spec(store_view(old(self).auth_ref()), req, qsv) {
                            Some(code) => b1 == b0 && o1 == o0 && r.status == error_status(code)
                                && r.body@ == encode_utf8(xml_error_body(code, req.path@)),
                            None => match resolve_spec(req.method, bk.0 is Some, bk.1 is Some, qsv) {
                                Err(code) => b1 == b0 && o1 == o0 && r.status == error_status(
                                    code,
                                ) && r.body@ == encode_utf8(xml_error_body(code, req.path@)),
                                Ok(op) => op_post(
                                    op,
                                    bk.0,
                                    bk.1,
                                    req.body@,
                                    req.path@,
                                    b0,
                                    o0,
                                    b1,
                                    o1,
                                    r,
                                ),
                            },
                        }
                    }
                }
            }),
    {
        let S3Request { method, path, query, headers, body, now } = req;
        let qs = match OrderedQs::from_query(query.as_str()) {
            Ok(qs) => qs,
            Err(_) => {
                return render_error(S3ErrorCode::InvalidURI, path.as_str());
            },
        };
        let (bopt, kopt) = match path_target(path.as_str()) {
            Ok(t) => t,
            Err(e) => {
                return render_error(e, path.as_str());
            },
        };
        let resolved = resolve_operation(method, bopt.is_some(), kopt.is_some(), &qs);
        match &self.auth {
            None => {},
            Some(store) => {
                let h = match find_header(&headers, "authorization") {
                    Some(h) => h,
                    None => {
                        return render_error(S3ErrorCode::MissingSecurityHeader, path.as_str());
                    },
                };
                let ctx = match parse_authorization(h) {
                    Some(c) => c,
                    None => {
                        return render_error(
                            S3ErrorCode::AuthorizationHeaderMalformed,
                            path.as_str(),
                        );
                    },
                };
                let amz = match find_header(&headers, "x-amz-date") {
                    Some(v) => v.to_owned(),
                    None => {
                        return render_error(S3ErrorCode::AccessDenied, path.as_str());
                    },
                };
                let ts = match parse_amz_date(amz.as_str()) {
                    Some(t) => t,
                    None => {
                        return render_error(S3ErrorCode::AccessDenied, path.as_str());
                    },
                };
                let signed = match select_signed_headers(&headers, &ctx.signed_headers) {
                    Some(sel) => sel,
                    None => {
                        return render_error(S3ErrorCode::SignatureDoesNotMatch, path.as_str());
                    },
                };
                let ph = match find_header(&headers, "x-amz-content-sha256") {
                    Some(v) => v.to_owned(),
                    None => payload_hash(body.as_slice()),
                };
                let input = SigningInput {
                    method: method.name(),
                    uri: path.clone(),
                    query: qs,
                    headers: signed,
                    payload_hash: ph,
                    amz_date: amz,
                    timestamp: ts,
                };
                match verify_request(Some(store), Some(&ctx), input, now, 900) {
                    AuthOutcome::Rejected(code) => {
                        return render_error(code, path.as_str());
                    },
                    _ => {},
                }
                let op = match resolved {
                    Ok(op) => op,
                    Err(e) => {
                        return render_error(e, path.as_str());
                    },
                };
                return self.execute(op, bopt, kopt, body, path);
            },
        }
        let op = match resolved {
            Ok(op) => op,
            Err(e) => {
                return render_error(e, path.as_str());
            },
        };
        self.execute(op, bopt, kopt, body, path)
    }

    /// Execute a resolved, authorized operation against storage and render
    /// the outcome.
    fn execute(
        &mut self,
        op: Operation,
        bopt: Option<String>,
        kopt: Option<String>,
        body: Vec<u8>,
        path: String,
    ) -> (r: S3Response)
        requires
            match op {
                Operation::CreateBucket
                | Operation::DeleteBucket
                | Operation::HeadBucket => bopt is Some,
                Operation::PutObject
                | Operation::GetObject
                | Operation::HeadObject
                | Operation::DeleteObject => bopt is Some && kopt is Some,
                _ => true,
            },
        ensures
            store_view(final(self).auth_ref()) == store_view(old(self).auth_ref()),
            op_post(
                op,
                match bopt {
                    Some(b) => Some(b@),
                    None => None,
                },
                match kopt {
                    Some(k) => Some(k@),
                    None => None,
                },
                body@,
                path@,
                old(self).storage_ref().buckets(),
                old(self).storage_ref().objects(),
                final(self).storage_ref().buckets(),
                final(self).storage_ref().objects(),
                r,
            ),
    {
        match op {
            Operation::CreateBucket => {
                let b = bopt.unwrap();
                match self.storage.create_bucket(b.as_str()) {
                    Ok(_) => S3Response { status: 200, body: Vec::new() },
                    Err(e) => render_error(e, path.as_str()),
                }
            },
            Operation::DeleteBucket => {
                let b = bopt.unwrap();
                match self.storage.delete_bucket(b.as_str()) {
                    Ok(_) => S3Response { status: 204, body: Vec::new() },
                    Err(e) => render_error(e, path.as_str()),
                }
            },
            Operation::HeadBucket => {
                let b = bopt.unwrap();
                match self.storage.head_bucket(b.as_str()) {
                    Ok(_) => S3Response { status: 200, body: Vec::new() },
                    Err(e) => render_error(e, path.as_str()),
                }
            },
            Operation::PutObject => {
                let b = bopt.unwrap();
                let k = kopt.unwrap();
                match self.storage.put_object(b.as_str(), k.as_str(), body) {
                    Ok(_) => S3Response { status: 200, body: Vec::new() },
                    Err(e) => render_error(e, path.as_str()),
                }
            },
            Operation::GetObject => {
                let b = bopt.unwrap();
                let k = kopt.unwrap();
                match self.storage.get_object(b.as_str(), k.as_str()) {
                    Ok(content) => S3Response { status: 200, body: content },
                    Err(e) => render_error(e, path.as_str()),
                }
            },
            Operation::HeadObject => {
                let b = bopt.unwrap();
                let k = kopt.unwrap();
                match self.storage.get_object(b.as_str(), k.as_str()) {
                    Ok(_) => S3Response { status: 200, body: Vec::new() },
                    Err(e) => render_error(e, path.as_str()),
                }
            },
            Operation::DeleteObject => {
                let b = bopt.unwrap();
                let k = kopt.unwrap();
                match self.storage.delete_object(b.as_str(), k.as_str()) {
                    Ok(_) => S3Response { status: 204, body: Vec::new() },
                    Err(e) => render_error(e, path.as_str()),
                }
            },
            _ => render_error(S3ErrorCode::NotImplemented, path.as_str()),
        }
    }
}

} // verus!
