use s3_server::creds::CredentialStore;
use s3_server::error_code::S3ErrorCode;
use s3_server::query::OrderedQs;
use s3_server::sigv4::hex_lower;
use s3_server::text::{eq_constant_time, trim_ws, ascii_lowercase, sort_pairs_by_key};

#[test]
fn query_is_sorted_by_key() {
    let qs = OrderedQs::from_query("b=2&a=1&c=3").unwrap();
    let pairs = qs.as_slice();
    assert_eq!(pairs.len(), 3);
    assert_eq!(pairs[0], ("a".to_string(), "1".to_string()));
    assert_eq!(pairs[1], ("b".to_string(), "2".to_string()));
    assert_eq!(pairs[2], ("c".to_string(), "3".to_string()));
    assert_eq!(qs.get("a"), Some("1"));
    assert_eq!(qs.get("b"), Some("2"));
    assert_eq!(qs.get("c"), Some("3"));
    assert_eq!(qs.get("d"), None);
}

#[test]
fn query_percent_decoding() {
    let qs = OrderedQs::from_query("key%20one=x%2Fy&plus=a+b").unwrap();
    assert_eq!(qs.get("key one"), Some("x/y"));
    assert_eq!(qs.get("plus"), Some("a b"));
}

#[test]
fn query_bare_key_has_empty_value() {
    let qs = OrderedQs::from_query("uploads").unwrap();
    assert_eq!(qs.get("uploads"), Some(""));
}

#[test]
fn query_empty_and_stray_separators() {
    let qs = OrderedQs::from_query("").unwrap();
    assert_eq!(qs.as_slice().len(), 0);
    let qs = OrderedQs::from_query("&&a=1&").unwrap();
    assert_eq!(qs.as_slice().len(), 1);
    assert_eq!(qs.get("a"), Some("1"));
}

#[test]
fn query_decode_error_on_bad_escape() {
    assert!(OrderedQs::from_query("a=%zz").is_err());
    assert!(OrderedQs::from_query("%").is_err());
}

#[test]
fn query_duplicate_key_returns_a_supplied_value() {
    let qs = OrderedQs::from_query("k=1&k=2&k=3").unwrap();
    let v = qs.get("k").unwrap();
    assert!(v == "1" || v == "2" || v == "3");
}

#[test]
fn query_duplicates_keep_relative_order() {
    let qs = OrderedQs::from_query("k=1&a=0&k=2").unwrap();
    let pairs = qs.as_slice();
    assert_eq!(pairs[0].0, "a");
    assert_eq!(pairs[1], ("k".to_string(), "1".to_string()));
    assert_eq!(pairs[2], ("k".to_string(), "2".to_string()));
}

#[test]
fn canonical_query_rendering() {
    let qs = OrderedQs::from_query("b=x+y&a=1").unwrap();
    assert_eq!(qs.to_canonical_string(), "a=1&b=x%20y");
    let qs = OrderedQs::from_query("").unwrap();
    assert_eq!(qs.to_canonical_string(), "");
}

#[test]
fn from_vec_unchecked_sorts() {
    let qs = OrderedQs::from_vec_unchecked(vec![
        ("z".to_string(), "1".to_string()),
        ("a".to_string(), "2".to_string()),
    ]);
    assert_eq!(qs.get("a"), Some("2"));
    assert_eq!(qs.as_slice()[0].0, "a");
}

#[test]
fn credential_store_last_registration_wins() {
    let mut store = CredentialStore::new();
    assert_eq!(store.lookup("AK"), None);
    store.register("AK".to_string(), "one".to_string());
    assert_eq!(store.lookup("AK"), Some("one"));
    store.register("AK".to_string(), "two".to_string());
    assert_eq!(store.lookup("AK"), Some("two"));
    store.register("BK".to_string(), "three".to_string());
    assert_eq!(store.lookup("AK"), Some("two"));
    assert_eq!(store.lookup("BK"), Some("three"));
    assert_eq!(store.lookup("CK"), None);
}

#[test]
fn hex_rendering() {
    assert_eq!(hex_lower(&[0xbe, 0xef]), "beef");
    assert_eq!(hex_lower(&[0x00, 0x0f, 0x10]), "000f10");
    assert_eq!(hex_lower(&[]), "");
}

#[test]
fn constant_time_equality() {
    assert!(eq_constant_time("abc", "abc"));
    assert!(!eq_constant_time("abc", "abd"));
    assert!(!eq_constant_time("abc", "abcd"));
    assert!(eq_constant_time("", ""));
}

#[test]
fn text_helpers() {
    assert_eq!(trim_ws("  a b\t"), "a b");
    assert_eq!(trim_ws("   "), "");
    assert_eq!(ascii_lowercase("Content-TYPE"), "content-type");
    let sorted = sort_pairs_by_key(vec![
        ("b".to_string(), "2".to_string()),
        ("a".to_string(), "1".to_string()),
    ]);
    assert_eq!(sorted[0].0, "a");
}

#[test]
fn error_code_golden_table() {
    assert_eq!(S3ErrorCode::AccessDenied.wire_code(), "AccessDenied");
    assert_eq!(S3ErrorCode::AccessDenied.as_status_code(), Some(403));
    assert_eq!(S3ErrorCode::AccountProblem.wire_code(), "AccountProblem");
    assert_eq!(S3ErrorCode::AccountProblem.as_status_code(), Some(403));
    assert_eq!(S3ErrorCode::AllAccessDisabled.wire_code(), "AllAccessDisabled");
    assert_eq!(S3ErrorCode::AllAccessDisabled.as_status_code(), Some(403));
    assert_eq!(S3ErrorCode::AmbiguousGrantByEmailAddress.wire_code(), "AmbiguousGrantByEmailAddress");
    assert_eq!(S3ErrorCode::AmbiguousGrantByEmailAddress.as_status_code(), Some(400));
    assert_eq!(S3ErrorCode::AuthorizationHeaderMalformed.wire_code(), "AuthorizationHeaderMalformed");
    assert_eq!(S3ErrorCode::AuthorizationHeaderMalformed.as_status_code(), Some(400));
    assert_eq!(S3ErrorCode::BadDigest.wire_code(), "BadDigest");
    assert_eq!(S3ErrorCode::BadDigest.as_status_code(), Some(400));
    assert_eq!(S3ErrorCode::BucketAlreadyExists.wire_code(), "BucketAlreadyExists");
    assert_eq!(S3ErrorCode::BucketAlreadyExists.as_status_code(), Some(409));
    assert_eq!(S3ErrorCode::BucketAlreadyOwnedByYou.wire_code(), "BucketAlreadyOwnedByYou");
    assert_eq!(S3ErrorCode::BucketAlreadyOwnedByYou.as_status_code(), Some(409));
    assert_eq!(S3ErrorCode::BucketNotEmpty.wire_code(), "BucketNotEmpty");
    assert_eq!(S3ErrorCode::BucketNotEmpty.as_status_code(), Some(409));
    assert_eq!(S3ErrorCode::CredentialsNotSupported.wire_code(), "CredentialsNotSupported");
    assert_eq!(S3ErrorCode::CredentialsNotSupported.as_status_code(), Some(400));
    assert_eq!(S3ErrorCode::CrossLocationLoggingProhibited.wire_code(), "CrossLocationLoggingProhibited");
    assert_eq!(S3ErrorCode::CrossLocationLoggingProhibited.as_status_code(), Some(403));
    assert_eq!(S3ErrorCode::EntityTooSmall.wire_code(), "EntityTooSmall");
    assert_eq!(S3ErrorCode::EntityTooSmall.as_status_code(), Some(400));
    assert_eq!(S3ErrorCode::EntityTooLarge.wire_code(), "EntityTooLarge");
    assert_eq!(S3ErrorCode::EntityTooLarge.as_status_code(), Some(400));
    assert_eq!(S3ErrorCode::ExpiredToken.wire_code(), "ExpiredToken");
    assert_eq!(S3ErrorCode::ExpiredToken.as_status_code(), Some(400));
    assert_eq!(S3ErrorCode::IllegalLocationConstraintException.wire_code(), "IllegalLocationConstraintException");
    assert_eq!(S3ErrorCode::IllegalLocationConstraintException.as_status_code(), Some(400));
    assert_eq!(S3ErrorCode::IllegalVersioningConfigurationException.wire_code(), "IllegalVersioningConfigurationException");
    assert_eq!(S3ErrorCode::IllegalVersioningConfigurationException.as_status_code(), Some(400));
    assert_eq!(S3ErrorCode::IncompleteBody.wire_code(), "IncompleteBody");
    assert_eq!(S3ErrorCode::IncompleteBody.as_status_code(), Some(400));
    assert_eq!(S3ErrorCode::IncorrectNumberOfFilesInPostRequest.wire_code(), "IncorrectNumberOfFilesInPostRequest");
    assert_eq!(S3ErrorCode::IncorrectNumberOfFilesInPostRequest.as_status_code(), Some(400));
    assert_eq!(S3ErrorCode::InlineDataTooLarge.wire_code(), "InlineDataTooLarge");
    assert_eq!(S3ErrorCode::InlineDataTooLarge.as_status_code(), Some(400));
    assert_eq!(S3ErrorCode::InternalError.wire_code(), "InternalError");
    assert_eq!(S3ErrorCode::InternalError.as_status_code(), Some(500));
    assert_eq!(S3ErrorCode::InvalidAccessKeyId.wire_code(), "InvalidAccessKeyId");
    assert_eq!(S3ErrorCode::InvalidAccessKeyId.as_status_code(), Some(403));
    assert_eq!(S3ErrorCode::InvalidAddressingHeader.wire_code(), "InvalidAddressingHeader");
    assert_eq!(S3ErrorCode::InvalidAddressingHeader.as_status_code(), None);
    assert_eq!(S3ErrorCode::InvalidArgument.wire_code(), "InvalidArgument");
    assert_eq!(S3ErrorCode::InvalidArgument.as_status_code(), Some(400));
    assert_eq!(S3ErrorCode::InvalidBucketName.wire_code(), "InvalidBucketName");
    assert_eq!(S3ErrorCode::InvalidBucketName.as_status_code(), Some(400));
    assert_eq!(S3ErrorCode::InvalidBucketState.wire_code(), "InvalidBucketState");
    assert_eq!(S3ErrorCode::InvalidBucketState.as_status_code(), Some(409));
    assert_eq!(S3ErrorCode::InvalidDigest.wire_code(), "InvalidDigest");
    assert_eq!(S3ErrorCode::InvalidDigest.as_status_code(), Some(400));
    assert_eq!(S3ErrorCode::InvalidEncryptionAlgorithmError.wire_code(), "InvalidEncryptionAlgorithmError");
    assert_eq!(S3ErrorCode::InvalidEncryptionAlgorithmError.as_status_code(), Some(400));
    assert_eq!(S3ErrorCode::InvalidLocationConstraint.wire_code(), "InvalidLocationConstraint");
    assert_eq!(S3ErrorCode::InvalidLocationConstraint.as_status_code(), Some(400));
    assert_eq!(S3ErrorCode::InvalidObjectState.wire_code(), "InvalidObjectState");
    assert_eq!(S3ErrorCode::InvalidObjectState.as_status_code(), Some(403));
    assert_eq!(S3ErrorCode::InvalidPart.wire_code(), "InvalidPart");
    assert_eq!(S3ErrorCode::InvalidPart.as_status_code(), Some(400));
    assert_eq!(S3ErrorCode::InvalidPartOrder.wire_code(), "InvalidPartOrder");
    assert_eq!(S3ErrorCode::InvalidPartOrder.as_status_code(), Some(400));
    assert_eq!(S3ErrorCode::InvalidPayer.wire_code(), "InvalidPayer");
    assert_eq!(S3ErrorCode::InvalidPayer.as_status_code(), Some(403));
    assert_eq!(S3ErrorCode::InvalidPolicyDocument.wire_code(), "InvalidPolicyDocument");
    assert_eq!(S3ErrorCode::InvalidPolicyDocument.as_status_code(), Some(400));
    assert_eq!(S3ErrorCode::InvalidRange.wire_code(), "InvalidRange");
    assert_eq!(S3ErrorCode::InvalidRange.as_status_code(), Some(416));
    assert_eq!(S3ErrorCode::InvalidRequest.wire_code(), "InvalidRequest");
    assert_eq!(S3ErrorCode::InvalidRequest.as_status_code(), Some(400));
    assert_eq!(S3ErrorCode::InvalidSecurity.wire_code(), "InvalidSecurity");
    assert_eq!(S3ErrorCode::InvalidSecurity.as_status_code(), Some(403));
    assert_eq!(S3ErrorCode::InvalidSOAPRequest.wire_code(), "InvalidSOAPRequest");
    assert_eq!(S3ErrorCode::InvalidSOAPRequest.as_status_code(), Some(400));
    assert_eq!(S3ErrorCode::InvalidStorageClass.wire_code(), "InvalidStorageClass");
    assert_eq!(S3ErrorCode::InvalidStorageClass.as_status_code(), Some(400));
    assert_eq!(S3ErrorCode::InvalidTargetBucketForLogging.wire_code(), "InvalidTargetBucketForLogging");
    assert_eq!(S3ErrorCode::InvalidTargetBucketForLogging.as_status_code(), Some(400));
    assert_eq!(S3ErrorCode::InvalidToken.wire_code(), "InvalidToken");
    assert_eq!(S3ErrorCode::InvalidToken.as_status_code(), Some(400));
    assert_eq!(S3ErrorCode::InvalidURI.wire_code(), "InvalidURI");
    assert_eq!(S3ErrorCode::InvalidURI.as_status_code(), Some(400));
    assert_eq!(S3ErrorCode::KeyTooLongError.wire_code(), "KeyTooLongError");
    assert_eq!(S3ErrorCode::KeyTooLongError.as_status_code(), Some(400));
    assert_eq!(S3ErrorCode::MalformedACLError.wire_code(), "MalformedACLError");
    assert_eq!(S3ErrorCode::MalformedACLError.as_status_code(), Some(400));
    assert_eq!(S3ErrorCode::MalformedPOSTRequest.wire_code(), "MalformedPOSTRequest");
    assert_eq!(S3ErrorCode::MalformedPOSTRequest.as_status_code(), Some(400));
    assert_eq!(S3ErrorCode::MalformedXML.wire_code(), "MalformedXML");
    assert_eq!(S3ErrorCode::MalformedXML.as_status_code(), Some(400));
    assert_eq!(S3ErrorCode::MaxMessageLengthExceeded.wire_code(), "MaxMessageLengthExceeded");
    assert_eq!(S3ErrorCode::MaxMessageLengthExceeded.as_status_code(), Some(400));
    assert_eq!(S3ErrorCode::MaxPostPreDataLengthExceededError.wire_code(), "MaxPostPreDataLengthExceededError");
    assert_eq!(S3ErrorCode::MaxPostPreDataLengthExceededError.as_status_code(), Some(400));
    assert_eq!(S3ErrorCode::MetadataTooLarge.wire_code(), "MetadataTooLarge");
    assert_eq!(S3ErrorCode::MetadataTooLarge.as_status_code(), Some(400));
    assert_eq!(S3ErrorCode::MethodNotAllowed.wire_code(), "MethodNotAllowed");
    assert_eq!(S3ErrorCode::MethodNotAllowed.as_status_code(), Some(405));
    assert_eq!(S3ErrorCode::MissingAttachment.wire_code(), "MissingAttachment");
    assert_eq!(S3ErrorCode::MissingAttachment.as_status_code(), None);
    assert_eq!(S3ErrorCode::MissingContentLength.wire_code(), "MissingContentLength");
    assert_eq!(S3ErrorCode::MissingContentLength.as_status_code(), Some(411));
    assert_eq!(S3ErrorCode::MissingRequestBodyError.wire_code(), "MissingRequestBodyError");
    assert_eq!(S3ErrorCode::MissingRequestBodyError.as_status_code(), Some(400));
    assert_eq!(S3ErrorCode::MissingSecurityElement.wire_code(), "MissingSecurityElement");
    assert_eq!(S3ErrorCode::MissingSecurityElement.as_status_code(), Some(400));
    assert_eq!(S3ErrorCode::MissingSecurityHeader.wire_code(), "MissingSecurityHeader");
    assert_eq!(S3ErrorCode::MissingSecurityHeader.as_status_code(), Some(400));
    assert_eq!(S3ErrorCode::NoLoggingStatusForKey.wire_code(), "NoLoggingStatusForKey");
    assert_eq!(S3ErrorCode::NoLoggingStatusForKey.as_status_code(), Some(400));
    assert_eq!(S3ErrorCode::NoSuchBucket.wire_code(), "NoSuchBucket");
    assert_eq!(S3ErrorCode::NoSuchBucket.as_status_code(), Some(404));
    assert_eq!(S3ErrorCode::NoSuchBucketPolicy.wire_code(), "NoSuchBucketPolicy");
    assert_eq!(S3ErrorCode::NoSuchBucketPolicy.as_status_code(), Some(404));
    assert_eq!(S3ErrorCode::NoSuchKey.wire_code(), "NoSuchKey");
    assert_eq!(S3ErrorCode::NoSuchKey.as_status_code(), Some(404));
    assert_eq!(S3ErrorCode::NoSuchLifecycleConfiguration.wire_code(), "NoSuchLifecycleConfiguration");
    assert_eq!(S3ErrorCode::NoSuchLifecycleConfiguration.as_status_code(), Some(404));
    assert_eq!(S3ErrorCode::NoSuchUpload.wire_code(), "NoSuchUpload");
    assert_eq!(S3ErrorCode::NoSuchUpload.as_status_code(), Some(404));
    assert_eq!(S3ErrorCode::NoSuchVersion.wire_code(), "NoSuchVersion");
    assert_eq!(S3ErrorCode::NoSuchVersion.as_status_code(), Some(404));
    assert_eq!(S3ErrorCode::NotImplemented.wire_code(), "NotImplemented");
    assert_eq!(S3ErrorCode::NotImplemented.as_status_code(), Some(501));
    assert_eq!(S3ErrorCode::NotSignedUp.wire_code(), "NotSignedUp");
    assert_eq!(S3ErrorCode::NotSignedUp.as_status_code(), Some(403));
    assert_eq!(S3ErrorCode::OperationAborted.wire_code(), "OperationAborted");
    assert_eq!(S3ErrorCode::OperationAborted.as_status_code(), Some(409));
    assert_eq!(S3ErrorCode::PermanentRedirect.wire_code(), "PermanentRedirect");
    assert_eq!(S3ErrorCode::PermanentRedirect.as_status_code(), Some(301));
    assert_eq!(S3ErrorCode::PreconditionFailed.wire_code(), "PreconditionFailed");
    assert_eq!(S3ErrorCode::PreconditionFailed.as_status_code(), Some(412));
    assert_eq!(S3ErrorCode::Redirect.wire_code(), "Redirect");
    assert_eq!(S3ErrorCode::Redirect.as_status_code(), Some(307));
    assert_eq!(S3ErrorCode::RestoreAlreadyInProgress.wire_code(), "RestoreAlreadyInProgress");
    assert_eq!(S3ErrorCode::RestoreAlreadyInProgress.as_status_code(), Some(409));
    assert_eq!(S3ErrorCode::RequestIsNotMultiPartContent.wire_code(), "RequestIsNotMultiPartContent");
    assert_eq!(S3ErrorCode::RequestIsNotMultiPartContent.as_status_code(), Some(400));
    assert_eq!(S3ErrorCode::RequestTimeout.wire_code(), "RequestTimeout");
    assert_eq!(S3ErrorCode::RequestTimeout.as_status_code(), Some(400));
    assert_eq!(S3ErrorCode::RequestTimeTooSkewed.wire_code(), "RequestTimeTooSkewed");
    assert_eq!(S3ErrorCode::RequestTimeTooSkewed.as_status_code(), Some(403));
    assert_eq!(S3ErrorCode::RequestTorrentOfBucketError.wire_code(), "RequestTorrentOfBucketError");
    assert_eq!(S3ErrorCode::RequestTorrentOfBucketError.as_status_code(), Some(400));
    assert_eq!(S3ErrorCode::ServerSideEncryptionConfigurationNotFoundError.wire_code(), "ServerSideEncryptionConfigurationNotFoundError");
    assert_eq!(S3ErrorCode::ServerSideEncryptionConfigurationNotFoundError.as_status_code(), Some(400));
    assert_eq!(S3ErrorCode::ServiceUnavailable.wire_code(), "ServiceUnavailable");
    assert_eq!(S3ErrorCode::ServiceUnavailable.as_status_code(), Some(503));
    assert_eq!(S3ErrorCode::SignatureDoesNotMatch.wire_code(), "SignatureDoesNotMatch");
    assert_eq!(S3ErrorCode::SignatureDoesNotMatch.as_status_code(), Some(403));
    assert_eq!(S3ErrorCode::SlowDown.wire_code(), "SlowDown");
    assert_eq!(S3ErrorCode::SlowDown.as_status_code(), Some(503));
    assert_eq!(S3ErrorCode::TemporaryRedirect.wire_code(), "TemporaryRedirect");
    assert_eq!(S3ErrorCode::TemporaryRedirect.as_status_code(), Some(307));
    assert_eq!(S3ErrorCode::TokenRefreshRequired.wire_code(), "TokenRefreshRequired");
    assert_eq!(S3ErrorCode::TokenRefreshRequired.as_status_code(), Some(400));
    assert_eq!(S3ErrorCode::TooManyBuckets.wire_code(), "TooManyBuckets");
    assert_eq!(S3ErrorCode::TooManyBuckets.as_status_code(), Some(400));
    assert_eq!(S3ErrorCode::UnexpectedContent.wire_code(), "UnexpectedContent");
    assert_eq!(S3ErrorCode::UnexpectedContent.as_status_code(), Some(400));
    assert_eq!(S3ErrorCode::UnresolvableGrantByEmailAddress.wire_code(), "UnresolvableGrantByEmailAddress");
    assert_eq!(S3ErrorCode::UnresolvableGrantByEmailAddress.as_status_code(), Some(400));
    assert_eq!(S3ErrorCode::UserKeyMustBeSpecified.wire_code(), "UserKeyMustBeSpecified");
    assert_eq!(S3ErrorCode::UserKeyMustBeSpecified.as_status_code(), Some(400));
}
