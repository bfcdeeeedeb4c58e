use s3_server::creds::CredentialStore;
use s3_server::dispatch::{
    parse_amz_date, parse_authorization, path_target, render_error, resolve_operation, Method,
    Operation, S3Request, S3Service,
};
use s3_server::error_code::S3ErrorCode;
use s3_server::query::OrderedQs;
use s3_server::sigv4::{
    canonical_request, compute_signature, credential_scope, payload_hash, string_to_sign,
    verify_request, AuthOutcome, SigV4Context, SigningInput,
};
use s3_server::storage::{InMemStorage, Storage};

const ACCESS_KEY: &str = "SECRET-REDACTED";
const SECRET_KEY: &str = "wJalrXUtnFEMI/K7MDENG/bPxRfiCYEXAMPLEKEY";
const AMZ_DATE: &str = "20200101T000000Z";
const NOW: i64 = 1577836800;

fn signing_input(body: &[u8], query: &str) -> SigningInput {
    SigningInput {
        method: "PUT".to_string(),
        uri: "/bucket/key".to_string(),
        query: OrderedQs::from_query(query).unwrap(),
        headers: vec![
            ("host".to_string(), "localhost".to_string()),
            ("x-amz-date".to_string(), AMZ_DATE.to_string()),
        ],
        payload_hash: payload_hash(body),
        amz_date: AMZ_DATE.to_string(),
        timestamp: NOW,
    }
}

fn sign(secret: &str, input: &SigningInput) -> String {
    let cq = input.query.to_canonical_string();
    let creq = canonical_request(
        input.method.as_str(),
        input.uri.as_str(),
        cq.as_str(),
        input.headers.clone(),
        input.payload_hash.as_str(),
    );
    let scope = credential_scope("20200101", "us-east-1", "s3");
    let sts = string_to_sign(AMZ_DATE, scope.as_str(), creq.as_str());
    compute_signature(secret, "20200101", "us-east-1", "s3", sts.as_str())
}

fn context(signature: String) -> SigV4Context {
    SigV4Context {
        access_key: ACCESS_KEY.to_string(),
        date: "20200101".to_string(),
        region: "us-east-1".to_string(),
        service: "s3".to_string(),
        signed_headers: vec!["host".to_string(), "x-amz-date".to_string()],
        signature,
    }
}

fn store_with_key() -> CredentialStore {
    let mut store = CredentialStore::new();
    store.register(ACCESS_KEY.to_string(), SECRET_KEY.to_string());
    store
}

#[test]
fn correct_signature_is_authorized() {
    let store = store_with_key();
    let input = signing_input(b"abc", "a=1");
    let sig = sign(SECRET_KEY, &input);
    let outcome = verify_request(Some(&store), Some(&context(sig)), input, NOW, 900);
    match outcome {
        AuthOutcome::Authorized(k) => assert_eq!(k, ACCESS_KEY),
        _ => panic!("expected authorization"),
    }
}

#[test]
fn mutated_body_changes_signature() {
    let store = store_with_key();
    let input = signing_input(b"abc", "a=1");
    let sig = sign(SECRET_KEY, &input);
    // same signature over a body differing in one byte
    let tampered = signing_input(b"abd", "a=1");
    let outcome = verify_request(Some(&store), Some(&context(sig)), tampered, NOW, 900);
    assert!(matches!(
        outcome,
        AuthOutcome::Rejected(S3ErrorCode::SignatureDoesNotMatch)
    ));
}

#[test]
fn mutated_header_changes_signature() {
    let store = store_with_key();
    let input = signing_input(b"abc", "a=1");
    let sig = sign(SECRET_KEY, &input);
    let mut tampered = signing_input(b"abc", "a=1");
    tampered.headers[0].1 = "elsewhere".to_string();
    let outcome = verify_request(Some(&store), Some(&context(sig)), tampered, NOW, 900);
    assert!(matches!(
        outcome,
        AuthOutcome::Rejected(S3ErrorCode::SignatureDoesNotMatch)
    ));
}

#[test]
fn mutated_query_changes_signature() {
    let store = store_with_key();
    let input = signing_input(b"abc", "a=1");
    let sig = sign(SECRET_KEY, &input);
    let tampered = signing_input(b"abc", "a=2");
    let outcome = verify_request(Some(&store), Some(&context(sig)), tampered, NOW, 900);
    assert!(matches!(
        outcome,
        AuthOutcome::Rejected(S3ErrorCode::SignatureDoesNotMatch)
    ));
}

#[test]
fn wrong_secret_is_rejected() {
    let store = store_with_key();
    let input = signing_input(b"abc", "");
    let sig = sign("not-the-secret", &input);
    let outcome = verify_request(Some(&store), Some(&context(sig)), input, NOW, 900);
    assert!(matches!(
        outcome,
        AuthOutcome::Rejected(S3ErrorCode::SignatureDoesNotMatch)
    ));
}

#[test]
fn unregistered_access_key_is_rejected() {
    let mut store = CredentialStore::new();
    store.register("someone-else".to_string(), "whatever".to_string());
    let input = signing_input(b"abc", "");
    let sig = sign(SECRET_KEY, &input);
    let outcome = verify_request(Some(&store), Some(&context(sig)), input, NOW, 900);
    assert!(matches!(
        outcome,
        AuthOutcome::Rejected(S3ErrorCode::InvalidAccessKeyId)
    ));
}

#[test]
fn skewed_timestamp_is_rejected() {
    let store = store_with_key();
    let input = signing_input(b"abc", "");
    let sig = sign(SECRET_KEY, &input);
    let outcome = verify_request(Some(&store), Some(&context(sig)), input, NOW + 901, 900);
    assert!(matches!(
        outcome,
        AuthOutcome::Rejected(S3ErrorCode::RequestTimeTooSkewed)
    ));
}

#[test]
fn missing_authorization_is_rejected() {
    let store = store_with_key();
    let input = signing_input(b"abc", "");
    let outcome = verify_request(Some(&store), None, input, NOW, 900);
    assert!(matches!(
        outcome,
        AuthOutcome::Rejected(S3ErrorCode::MissingSecurityHeader)
    ));
}

#[test]
fn no_store_means_anonymous() {
    let input = signing_input(b"abc", "");
    let outcome = verify_request(None, None, input, NOW, 900);
    assert!(matches!(outcome, AuthOutcome::Anonymous));
    let input = signing_input(b"abc", "");
    let outcome = verify_request(None, Some(&context("junk".to_string())), input, 0, 900);
    assert!(matches!(outcome, AuthOutcome::Anonymous));
}

#[test]
fn authorization_header_round_trip() {
    let h = format!(
        "AWS4-HMAC-SHA256 Credential={}/20200101/us-east-1/s3/aws4_request, \
         SignedHeaders=host;x-amz-date, Signature=deadbeef",
        ACCESS_KEY
    );
    let c = parse_authorization(h.as_str()).unwrap();
    assert_eq!(c.access_key, ACCESS_KEY);
    assert_eq!(c.date, "20200101");
    assert_eq!(c.region, "us-east-1");
    assert_eq!(c.service, "s3");
    assert_eq!(c.signed_headers, vec!["host".to_string(), "x-amz-date".to_string()]);
    assert_eq!(c.signature, "deadbeef");
    assert!(parse_authorization("Basic dXNlcjpwYXNz").is_none());
    assert!(parse_authorization("AWS4-HMAC-SHA256 Credential=only/two").is_none());
}

#[test]
fn amz_date_parsing() {
    assert_eq!(parse_amz_date("20200101T000000Z"), Some(1577836800));
    assert_eq!(parse_amz_date("19700101T000000Z"), Some(0));
    assert_eq!(parse_amz_date("20200229T120000Z"), Some(1582977600));
    assert_eq!(parse_amz_date("20210229T000000Z"), None);
    assert_eq!(parse_amz_date("20200101T000000"), None);
    assert_eq!(parse_amz_date("2020010100000Z0"), None);
    assert_eq!(parse_amz_date("19691231T235959Z"), None);
}

#[test]
fn path_targets() {
    assert_eq!(
        path_target("/bucket/key/with/slashes").unwrap(),
        (
            Some("bucket".to_string()),
            Some("key/with/slashes".to_string())
        )
    );
    assert_eq!(path_target("/bucket").unwrap(), (Some("bucket".to_string()), None));
    assert_eq!(path_target("/bucket/").unwrap(), (Some("bucket".to_string()), None));
    assert_eq!(path_target("/").unwrap(), (None, None));
    assert_eq!(path_target("noslash"), Err(S3ErrorCode::InvalidURI));
    assert_eq!(path_target(""), Err(S3ErrorCode::InvalidURI));
    assert_eq!(path_target("//key"), Err(S3ErrorCode::InvalidURI));
}

#[test]
fn operation_table() {
    let none = OrderedQs::from_query("").unwrap();
    let uploads = OrderedQs::from_query("uploads").unwrap();
    let part = OrderedQs::from_query("uploadId=1&partNumber=2").unwrap();
    let upload_only = OrderedQs::from_query("uploadId=1").unwrap();
    assert_eq!(resolve_operation(Method::Get, false, false, &none), Ok(Operation::ListBuckets));
    assert_eq!(
        resolve_operation(Method::Put, false, false, &none),
        Err(S3ErrorCode::MethodNotAllowed)
    );
    assert_eq!(resolve_operation(Method::Get, true, false, &none), Ok(Operation::ListObjects));
    assert_eq!(resolve_operation(Method::Put, true, false, &none), Ok(Operation::CreateBucket));
    assert_eq!(resolve_operation(Method::Delete, true, false, &none), Ok(Operation::DeleteBucket));
    assert_eq!(resolve_operation(Method::Head, true, false, &none), Ok(Operation::HeadBucket));
    assert_eq!(resolve_operation(Method::Get, true, true, &none), Ok(Operation::GetObject));
    assert_eq!(resolve_operation(Method::Put, true, true, &none), Ok(Operation::PutObject));
    assert_eq!(resolve_operation(Method::Delete, true, true, &none), Ok(Operation::DeleteObject));
    assert_eq!(resolve_operation(Method::Head, true, true, &none), Ok(Operation::HeadObject));
    assert_eq!(
        resolve_operation(Method::Post, true, true, &uploads),
        Ok(Operation::CreateMultipartUpload)
    );
    assert_eq!(resolve_operation(Method::Put, true, true, &part), Ok(Operation::UploadPart));
    assert_eq!(
        resolve_operation(Method::Post, true, true, &upload_only),
        Ok(Operation::CompleteMultipartUpload)
    );
    assert_eq!(
        resolve_operation(Method::Delete, true, true, &upload_only),
        Ok(Operation::AbortMultipartUpload)
    );
    assert_eq!(
        resolve_operation(Method::Post, true, false, &none),
        Err(S3ErrorCode::MethodNotAllowed)
    );
}

#[test]
fn storage_bucket_lifecycle() {
    let mut st = InMemStorage::new();
    assert_eq!(st.create_bucket("b"), Ok(()));
    assert_eq!(st.create_bucket("b"), Err(S3ErrorCode::BucketAlreadyExists));
    assert_eq!(st.head_bucket("b"), Ok(()));
    assert_eq!(st.head_bucket("c"), Err(S3ErrorCode::NoSuchBucket));
    assert_eq!(st.put_object("b", "k", b"v".to_vec()), Ok(()));
    assert_eq!(st.delete_bucket("b"), Err(S3ErrorCode::BucketNotEmpty));
    assert_eq!(st.delete_object("b", "k"), Ok(()));
    assert_eq!(st.delete_bucket("b"), Ok(()));
    assert_eq!(st.delete_bucket("b"), Err(S3ErrorCode::NoSuchBucket));
}

#[test]
fn storage_object_lifecycle() {
    let mut st = InMemStorage::new();
    assert_eq!(st.put_object("b", "k", b"v".to_vec()), Err(S3ErrorCode::NoSuchBucket));
    st.create_bucket("b").unwrap();
    st.put_object("b", "k", b"one".to_vec()).unwrap();
    assert_eq!(st.get_object("b", "k"), Ok(b"one".to_vec()));
    st.put_object("b", "k", b"two".to_vec()).unwrap();
    assert_eq!(st.get_object("b", "k"), Ok(b"two".to_vec()));
    assert_eq!(st.get_object("b", "missing"), Err(S3ErrorCode::NoSuchKey));
    assert_eq!(st.get_object("nowhere", "k"), Err(S3ErrorCode::NoSuchBucket));
    st.delete_object("b", "k").unwrap();
    assert_eq!(st.get_object("b", "k"), Err(S3ErrorCode::NoSuchKey));
}

fn request(method: Method, path: &str, query: &str, body: &[u8]) -> S3Request {
    S3Request {
        method,
        path: path.to_string(),
        query: query.to_string(),
        headers: vec![("host".to_string(), "localhost".to_string())],
        body: body.to_vec(),
        now: NOW,
    }
}

#[test]
fn end_to_end_anonymous() {
    let mut svc = S3Service::new(InMemStorage::new());
    let r = svc.handle(request(Method::Put, "/bucket", "", b""));
    assert_eq!(r.status, 200);
    let r = svc.handle(request(Method::Put, "/bucket/key", "", b"abc"));
    assert_eq!(r.status, 200);
    let r = svc.handle(request(Method::Get, "/bucket/key", "", b""));
    assert_eq!(r.status, 200);
    assert_eq!(r.body, b"abc".to_vec());
    let r = svc.handle(request(Method::Delete, "/bucket/key", "", b""));
    assert_eq!(r.status, 204);
    let r = svc.handle(request(Method::Get, "/bucket/key", "", b""));
    assert_eq!(r.status, 404);
    let text = String::from_utf8(r.body).unwrap();
    assert!(text.contains("<Code>NoSuchKey</Code>"));
    let r = svc.handle(request(Method::Get, "/nosuchbucket/key", "", b""));
    assert_eq!(r.status, 404);
    let text = String::from_utf8(r.body).unwrap();
    assert!(text.contains("<Code>NoSuchBucket</Code>"));
}

#[test]
fn end_to_end_error_rendering() {
    let mut svc = S3Service::new(InMemStorage::new());
    let r = svc.handle(request(Method::Put, "nopath", "", b""));
    assert_eq!(r.status, 400);
    let r = svc.handle(request(Method::Post, "/bucket", "", b""));
    assert_eq!(r.status, 405);
    let r = svc.handle(request(Method::Put, "/bucket/key", "a=%zz", b""));
    assert_eq!(r.status, 400);
    let r = svc.handle(request(Method::Post, "/bucket/key", "uploads", b""));
    assert_eq!(r.status, 501);
}

fn signed_request(method: Method, path: &str, secret: &str, body: &[u8]) -> S3Request {
    let headers = vec![
        ("host".to_string(), "localhost".to_string()),
        ("x-amz-date".to_string(), AMZ_DATE.to_string()),
    ];
    let input = SigningInput {
        method: method_name(method),
        uri: path.to_string(),
        query: OrderedQs::from_query("").unwrap(),
        headers: headers.clone(),
        payload_hash: payload_hash(body),
        amz_date: AMZ_DATE.to_string(),
        timestamp: NOW,
    };
    let sig = sign(secret, &input);
    let auth = format!(
        "AWS4-HMAC-SHA256 Credential={}/20200101/us-east-1/s3/aws4_request, \
         SignedHeaders=host;x-amz-date, Signature={}",
        ACCESS_KEY, sig
    );
    let mut all = headers;
    all.push(("Authorization".to_string(), auth));
    S3Request {
        method,
        path: path.to_string(),
        query: String::new(),
        headers: all,
        body: body.to_vec(),
        now: NOW,
    }
}

fn method_name(m: Method) -> String {
    match m {
        Method::Get => "GET".to_string(),
        Method::Put => "PUT".to_string(),
        Method::Post => "POST".to_string(),
        Method::Delete => "DELETE".to_string(),
        Method::Head => "HEAD".to_string(),
    }
}

#[test]
fn end_to_end_signed() {
    let mut svc = S3Service::new(InMemStorage::new());
    let mut store = CredentialStore::new();
    store.register(ACCESS_KEY.to_string(), SECRET_KEY.to_string());
    svc.set_auth(store);

    // a request signed with the right secret reaches storage
    let r = svc.handle(signed_request(Method::Put, "/bucket", SECRET_KEY, b""));
    assert_eq!(r.status, 200);
    let r = svc.handle(signed_request(Method::Put, "/bucket/key", SECRET_KEY, b"abc"));
    assert_eq!(r.status, 200);
    let r = svc.handle(signed_request(Method::Get, "/bucket/key", SECRET_KEY, b""));
    assert_eq!(r.status, 200);
    assert_eq!(r.body, b"abc".to_vec());

    // a registered access key with the wrong secret is turned away
    let r = svc.handle(signed_request(Method::Put, "/bucket/key2", "wrong-secret", b"abc"));
    assert_eq!(r.status, 403);
    let text = String::from_utf8(r.body).unwrap();
    assert!(text.contains("<Code>SignatureDoesNotMatch</Code>"));

    // and an unsigned request is missing its security header
    let r = svc.handle(request(Method::Get, "/bucket/key", "", b""));
    assert_eq!(r.status, 400);
    let text = String::from_utf8(r.body).unwrap();
    assert!(text.contains("<Code>MissingSecurityHeader</Code>"));
}

#[test]
fn extra_unsigned_header_is_ignored_by_the_gate() {
    let mut svc = S3Service::new(InMemStorage::new());
    svc.set_auth(store_with_key());
    let r = svc.handle(signed_request(Method::Put, "/bucket", SECRET_KEY, b""));
    assert_eq!(r.status, 200);
    // the same signature still verifies when the wire adds unsigned headers
    let mut req = signed_request(Method::Put, "/bucket/key", SECRET_KEY, b"abc");
    req.headers.push(("content-length".to_string(), "3".to_string()));
    req.headers.push(("user-agent".to_string(), "aws-cli".to_string()));
    let r = svc.handle(req);
    assert_eq!(r.status, 200);
    let r = svc.handle(signed_request(Method::Get, "/bucket/key", SECRET_KEY, b""));
    assert_eq!(r.body, b"abc".to_vec());
}

#[test]
fn listed_but_absent_header_is_rejected() {
    let mut svc = S3Service::new(InMemStorage::new());
    svc.set_auth(store_with_key());
    let mut req = signed_request(Method::Put, "/bucket", SECRET_KEY, b"");
    // claim a signed header that the request does not carry
    let auth = req.headers.pop().unwrap().1;
    let auth = auth.replace("SignedHeaders=host;x-amz-date", "SignedHeaders=host;x-amz-date;x-absent");
    req.headers.push(("Authorization".to_string(), auth));
    let r = svc.handle(req);
    assert_eq!(r.status, 403);
    let text = String::from_utf8(r.body).unwrap();
    assert!(text.contains("<Code>SignatureDoesNotMatch</Code>"));
}

#[test]
fn unsigned_payload_token_verifies() {
    let mut svc = S3Service::new(InMemStorage::new());
    svc.set_auth(store_with_key());
    let headers = vec![
        ("host".to_string(), "localhost".to_string()),
        ("x-amz-date".to_string(), AMZ_DATE.to_string()),
        ("x-amz-content-sha256".to_string(), "UNSIGNED-PAYLOAD".to_string()),
    ];
    let input = SigningInput {
        method: "PUT".to_string(),
        uri: "/bucket".to_string(),
        query: OrderedQs::from_query("").unwrap(),
        headers: headers.clone(),
        payload_hash: "UNSIGNED-PAYLOAD".to_string(),
        amz_date: AMZ_DATE.to_string(),
        timestamp: NOW,
    };
    let sig = sign(SECRET_KEY, &input);
    let auth = format!(
        "AWS4-HMAC-SHA256 Credential={}/20200101/us-east-1/s3/aws4_request, \
         SignedHeaders=host;x-amz-date;x-amz-content-sha256, Signature={}",
        ACCESS_KEY, sig
    );
    let mut all = headers;
    all.push(("Authorization".to_string(), auth));
    let r = svc.handle(S3Request {
        method: Method::Put,
        path: "/bucket".to_string(),
        query: String::new(),
        headers: all,
        body: Vec::new(),
        now: NOW,
    });
    assert_eq!(r.status, 200);
}

#[test]
fn render_error_defaults_to_500() {
    let r = render_error(S3ErrorCode::MissingAttachment, "/x");
    assert_eq!(r.status, 500);
    let text = String::from_utf8(r.body).unwrap();
    assert!(text.contains("<Code>MissingAttachment</Code>"));
    assert!(text.contains("<Resource>/x</Resource>"));
}
