use vstd::prelude::*;

verus! {

/// The closed set of S3 fault conditions. Each variant's name is exactly the
/// wire code that AWS SDKs expect in the `<Code>` field of an error body.
#[derive(Debug, Clone, Copy, PartialEq, Eq, Structural)]
pub enum S3ErrorCode {

    AccessDenied,
    AccountProblem,
    AllAccessDisabled,
    AmbiguousGrantByEmailAddress,
    AuthorizationHeaderMalformed,
    BadDigest,
    BucketAlreadyExists,
    BucketAlreadyOwnedByYou,
    BucketNotEmpty,
    CredentialsNotSupported,
    CrossLocationLoggingProhibited,
    EntityTooSmall,
    EntityTooLarge,
    ExpiredToken,
    IllegalLocationConstraintException,
    IllegalVersioningConfigurationException,
    IncompleteBody,
    IncorrectNumberOfFilesInPostRequest,
    InlineDataTooLarge,
    InternalError,
    InvalidAccessKeyId,
    InvalidAddressingHeader,
    InvalidArgument,
    InvalidBucketName,
    InvalidBucketState,
    InvalidDigest,
    InvalidEncryptionAlgorithmError,
    InvalidLocationConstraint,
    InvalidObjectState,
    InvalidPart,
    InvalidPartOrder,
    InvalidPayer,
    InvalidPolicyDocument,
    InvalidRange,
    InvalidRequest,
    InvalidSecurity,
    InvalidSOAPRequest,
    InvalidStorageClass,
    InvalidTargetBucketForLogging,
    InvalidToken,
    InvalidURI,
    KeyTooLongError,
    MalformedACLError,
    MalformedPOSTRequest,
    MalformedXML,
    MaxMessageLengthExceeded,
    MaxPostPreDataLengthExceededError,
    MetadataTooLarge,
    MethodNotAllowed,
    MissingAttachment,
    MissingContentLength,
    MissingRequestBodyError,
    MissingSecurityElement,
    MissingSecurityHeader,
    NoLoggingStatusForKey,
    NoSuchBucket,
    NoSuchBucketPolicy,
    NoSuchKey,
    NoSuchLifecycleConfiguration,
    NoSuchUpload,
    NoSuchVersion,
    NotImplemented,
    NotSignedUp,
    OperationAborted,
    PermanentRedirect,
    PreconditionFailed,
    Redirect,
    RestoreAlreadyInProgress,
    RequestIsNotMultiPartContent,
    RequestTimeout,
    RequestTimeTooSkewed,
    RequestTorrentOfBucketError,
    ServerSideEncryptionConfigurationNotFoundError,
    ServiceUnavailable,
    SignatureDoesNotMatch,
    SlowDown,
    TemporaryRedirect,
    TokenRefreshRequired,
    TooManyBuckets,
    UnexpectedContent,
    UnresolvableGrantByEmailAddress,
    UserKeyMustBeSpecified,
}

impl S3ErrorCode {
    /// The exact string sent on the wire in an error body's code field.
    pub open spec fn wire_code_spec(self) -> Seq<char> {
        match self {
            S3ErrorCode::AccessDenied => "AccessDenied"@,
            S3ErrorCode::AccountProblem => "AccountProblem"@,
            S3ErrorCode::AllAccessDisabled => "AllAccessDisabled"@,
            S3ErrorCode::AmbiguousGrantByEmailAddress => "AmbiguousGrantByEmailAddress"@,
            S3ErrorCode::AuthorizationHeaderMalformed => "AuthorizationHeaderMalformed"@,
            S3ErrorCode::BadDigest => "BadDigest"@,
            S3ErrorCode::BucketAlreadyExists => "BucketAlreadyExists"@,
            S3ErrorCode::BucketAlreadyOwnedByYou => "BucketAlreadyOwnedByYou"@,
            S3ErrorCode::BucketNotEmpty => "BucketNotEmpty"@,
            S3ErrorCode::CredentialsNotSupported => "CredentialsNotSupported"@,
            S3ErrorCode::CrossLocationLoggingProhibited => "CrossLocationLoggingProhibited"@,
            S3ErrorCode::EntityTooSmall => "EntityTooSmall"@,
            S3ErrorCode::EntityTooLarge => "EntityTooLarge"@,
            S3ErrorCode::ExpiredToken => "ExpiredToken"@,
            S3ErrorCode::IllegalLocationConstraintException => "IllegalLocationConstraintException"@,
            S3ErrorCode::IllegalVersioningConfigurationException => "IllegalVersioningConfigurationException"@,
            S3ErrorCode::IncompleteBody => "IncompleteBody"@,
            S3ErrorCode::IncorrectNumberOfFilesInPostRequest => "IncorrectNumberOfFilesInPostRequest"@,
            S3ErrorCode::InlineDataTooLarge => "InlineDataTooLarge"@,
            S3ErrorCode::InternalError => "InternalError"@,
            S3ErrorCode::InvalidAccessKeyId => "InvalidAccessKeyId"@,
            S3ErrorCode::InvalidAddressingHeader => "InvalidAddressingHeader"@,
            S3ErrorCode::InvalidArgument => "InvalidArgument"@,
            S3ErrorCode::InvalidBucketName => "InvalidBucketName"@,
            S3ErrorCode::InvalidBucketState => "InvalidBucketState"@,
            S3ErrorCode::InvalidDigest => "InvalidDigest"@,
            S3ErrorCode::InvalidEncryptionAlgorithmError => "InvalidEncryptionAlgorithmError"@,
            S3ErrorCode::InvalidLocationConstraint => "InvalidLocationConstraint"@,
            S3ErrorCode::InvalidObjectState => "InvalidObjectState"@,
            S3ErrorCode::InvalidPart => "InvalidPart"@,
            S3ErrorCode::InvalidPartOrder => "InvalidPartOrder"@,
            S3ErrorCode::InvalidPayer => "InvalidPayer"@,
            S3ErrorCode::InvalidPolicyDocument => "InvalidPolicyDocument"@,
            S3ErrorCode::InvalidRange => "InvalidRange"@,
            S3ErrorCode::InvalidRequest => "InvalidRequest"@,
            S3ErrorCode::InvalidSecurity => "InvalidSecurity"@,
            S3ErrorCode::InvalidSOAPRequest => "InvalidSOAPRequest"@,
            S3ErrorCode::InvalidStorageClass => "InvalidStorageClass"@,
            S3ErrorCode::InvalidTargetBucketForLogging => "InvalidTargetBucketForLogging"@,
            S3ErrorCode::InvalidToken => "InvalidToken"@,
            S3ErrorCode::InvalidURI => "InvalidURI"@,
            S3ErrorCode::KeyTooLongError => "KeyTooLongError"@,
            S3ErrorCode::MalformedACLError => "MalformedACLError"@,
            S3ErrorCode::MalformedPOSTRequest => "MalformedPOSTRequest"@,
            S3ErrorCode::MalformedXML => "MalformedXML"@,
            S3ErrorCode::MaxMessageLengthExceeded => "MaxMessageLengthExceeded"@,
            S3ErrorCode::MaxPostPreDataLengthExceededError => "MaxPostPreDataLengthExceededError"@,
            S3ErrorCode::MetadataTooLarge => "MetadataTooLarge"@,
            S3ErrorCode::MethodNotAllowed => "MethodNotAllowed"@,
            S3ErrorCode::MissingAttachment => "MissingAttachment"@,
            S3ErrorCode::MissingContentLength => "MissingContentLength"@,
            S3ErrorCode::MissingRequestBodyError => "MissingRequestBodyError"@,
            S3ErrorCode::MissingSecurityElement => "MissingSecurityElement"@,
            S3ErrorCode::MissingSecurityHeader => "MissingSecurityHeader"@,
            S3ErrorCode::NoLoggingStatusForKey => "NoLoggingStatusForKey"@,
            S3ErrorCode::NoSuchBucket => "NoSuchBucket"@,
            S3ErrorCode::NoSuchBucketPolicy => "NoSuchBucketPolicy"@,
            S3ErrorCode::NoSuchKey => "NoSuchKey"@,
            S3ErrorCode::NoSuchLifecycleConfiguration => "NoSuchLifecycleConfiguration"@,
            S3ErrorCode::NoSuchUpload => "NoSuchUpload"@,
            S3ErrorCode::NoSuchVersion => "NoSuchVersion"@,
            S3ErrorCode::NotImplemented => "NotImplemented"@,
            S3ErrorCode::NotSignedUp => "NotSignedUp"@,
            S3ErrorCode::OperationAborted => "OperationAborted"@,
            S3ErrorCode::PermanentRedirect => "PermanentRedirect"@,
            S3ErrorCode::PreconditionFailed => "PreconditionFailed"@,
            S3ErrorCode::Redirect => "Redirect"@,
            S3ErrorCode::RestoreAlreadyInProgress => "RestoreAlreadyInProgress"@,
            S3ErrorCode::RequestIsNotMultiPartContent => "RequestIsNotMultiPartContent"@,
            S3ErrorCode::RequestTimeout => "RequestTimeout"@,
            S3ErrorCode::RequestTimeTooSkewed => "RequestTimeTooSkewed"@,
            S3ErrorCode::RequestTorrentOfBucketError => "RequestTorrentOfBucketError"@,
            S3ErrorCode::ServerSideEncryptionConfigurationNotFoundError => "ServerSideEncryptionConfigurationNotFoundError"@,
            S3ErrorCode::ServiceUnavailable => "ServiceUnavailable"@,
            S3ErrorCode::SignatureDoesNotMatch => "SignatureDoesNotMatch"@,
            S3ErrorCode::SlowDown => "SlowDown"@,
            S3ErrorCode::TemporaryRedirect => "TemporaryRedirect"@,
            S3ErrorCode::TokenRefreshRequired => "TokenRefreshRequired"@,
            S3ErrorCode::TooManyBuckets => "TooManyBuckets"@,
            S3ErrorCode::UnexpectedContent => "UnexpectedContent"@,
            S3ErrorCode::UnresolvableGrantByEmailAddress => "UnresolvableGrantByEmailAddress"@,
            S3ErrorCode::UserKeyMustBeSpecified => "UserKeyMustBeSpecified"@,
        }
    }

    /// The standard HTTP status for this fault, where one is documented.
    /// Variants with no standard status yield `None`; the response renderer
    /// then falls back to 500.
    pub open spec fn status_spec(self) -> Option<u16> {
        match self {
            S3ErrorCode::AccessDenied => Some(403u16),
            S3ErrorCode::AccountProblem => Some(403u16),
            S3ErrorCode::AllAccessDisabled => Some(403u16),
            S3ErrorCode::AmbiguousGrantByEmailAddress => Some(400u16),
            S3ErrorCode::AuthorizationHeaderMalformed => Some(400u16),
            S3ErrorCode::BadDigest => Some(400u16),
            S3ErrorCode::BucketAlreadyExists => Some(409u16),
            S3ErrorCode::BucketAlreadyOwnedByYou => Some(409u16),
            S3ErrorCode::BucketNotEmpty => Some(409u16),
            S3ErrorCode::CredentialsNotSupported => Some(400u16),
            S3ErrorCode::CrossLocationLoggingProhibited => Some(403u16),
            S3ErrorCode::EntityTooSmall => Some(400u16),
            S3ErrorCode::EntityTooLarge => Some(400u16),
            S3ErrorCode::ExpiredToken => Some(400u16),
            S3ErrorCode::IllegalLocationConstraintException => Some(400u16),
            S3ErrorCode::IllegalVersioningConfigurationException => Some(400u16),
            S3ErrorCode::IncompleteBody => Some(400u16),
            S3ErrorCode::IncorrectNumberOfFilesInPostRequest => Some(400u16),
            S3ErrorCode::InlineDataTooLarge => Some(400u16),
            S3ErrorCode::InternalError => Some(500u16),
            S3ErrorCode::InvalidAccessKeyId => Some(403u16),
            S3ErrorCode::InvalidAddressingHeader => None,
            S3ErrorCode::InvalidArgument => Some(400u16),
            S3ErrorCode::InvalidBucketName => Some(400u16),
            S3ErrorCode::InvalidBucketState => Some(409u16),
            S3ErrorCode::InvalidDigest => Some(400u16),
            S3ErrorCode::InvalidEncryptionAlgorithmError => Some(400u16),
            S3ErrorCode::InvalidLocationConstraint => Some(400u16),
            S3ErrorCode::InvalidObjectState => Some(403u16),
            S3ErrorCode::InvalidPart => Some(400u16),
            S3ErrorCode::InvalidPartOrder => Some(400u16),
            S3ErrorCode::InvalidPayer => Some(403u16),
            S3ErrorCode::InvalidPolicyDocument => Some(400u16),
            S3ErrorCode::InvalidRange => Some(416u16),
            S3ErrorCode::InvalidRequest => Some(400u16),
            S3ErrorCode::InvalidSecurity => Some(403u16),
            S3ErrorCode::InvalidSOAPRequest => Some(400u16),
            S3ErrorCode::InvalidStorageClass => Some(400u16),
            S3ErrorCode::InvalidTargetBucketForLogging => Some(400u16),
            S3ErrorCode::InvalidToken => Some(400u16),
            S3ErrorCode::InvalidURI => Some(400u16),
            S3ErrorCode::KeyTooLongError => Some(400u16),
            S3ErrorCode::MalformedACLError => Some(400u16),
            S3ErrorCode::MalformedPOSTRequest => Some(400u16),
            S3ErrorCode::MalformedXML => Some(400u16),
            S3ErrorCode::MaxMessageLengthExceeded => Some(400u16),
            S3ErrorCode::MaxPostPreDataLengthExceededError => Some(400u16),
            S3ErrorCode::MetadataTooLarge => Some(400u16),
            S3ErrorCode::MethodNotAllowed => Some(405u16),
            S3ErrorCode::MissingAttachment => None,
            S3ErrorCode::MissingContentLength => Some(411u16),
            S3ErrorCode::MissingRequestBodyError => Some(400u16),
            S3ErrorCode::MissingSecurityElement => Some(400u16),
            S3ErrorCode::MissingSecurityHeader => Some(400u16),
            S3ErrorCode::NoLoggingStatusForKey => Some(400u16),
            S3ErrorCode::NoSuchBucket => Some(404u16),
            S3ErrorCode::NoSuchBucketPolicy => Some(404u16),
            S3ErrorCode::NoSuchKey => Some(404u16),
            S3ErrorCode::NoSuchLifecycleConfiguration => Some(404u16),
            S3ErrorCode::NoSuchUpload => Some(404u16),
            S3ErrorCode::NoSuchVersion => Some(404u16),
            S3ErrorCode::NotImplemented => Some(501u16),
            S3ErrorCode::NotSignedUp => Some(403u16),
            S3ErrorCode::OperationAborted => Some(409u16),
            S3ErrorCode::PermanentRedirect => Some(301u16),
            S3ErrorCode::PreconditionFailed => Some(412u16),
            S3ErrorCode::Redirect => Some(307u16),
            S3ErrorCode::RestoreAlreadyInProgress => Some(409u16),
            S3ErrorCode::RequestIsNotMultiPartContent => Some(400u16),
            S3ErrorCode::RequestTimeout => Some(400u16),
            S3ErrorCode::RequestTimeTooSkewed => Some(403u16),
            S3ErrorCode::RequestTorrentOfBucketError => Some(400u16),
            S3ErrorCode::ServerSideEncryptionConfigurationNotFoundError => Some(400u16),
            S3ErrorCode::ServiceUnavailable => Some(503u16),
            S3ErrorCode::SignatureDoesNotMatch => Some(403u16),
            S3ErrorCode::SlowDown => Some(503u16),
            S3ErrorCode::TemporaryRedirect => Some(307u16),
            S3ErrorCode::TokenRefreshRequired => Some(400u16),
            S3ErrorCode::TooManyBuckets => Some(400u16),
            S3ErrorCode::UnexpectedContent => Some(400u16),
            S3ErrorCode::UnresolvableGrantByEmailAddress => Some(400u16),
            S3ErrorCode::UserKeyMustBeSpecified => Some(400u16),
        }
    }

    /// Wire code of this fault, character for character the variant's AWS name.
    pub fn wire_code(&self) -> (r: String)
        ensures
            r@ == self.wire_code_spec(),
    {
        match self {
            S3ErrorCode::AccessDenied => "AccessDenied".to_owned(),
            S3ErrorCode::AccountProblem => "AccountProblem".to_owned(),
            S3ErrorCode::AllAccessDisabled => "AllAccessDisabled".to_owned(),
            S3ErrorCode::AmbiguousGrantByEmailAddress => "AmbiguousGrantByEmailAddress".to_owned(),
            S3ErrorCode::AuthorizationHeaderMalformed => "AuthorizationHeaderMalformed".to_owned(),
            S3ErrorCode::BadDigest => "BadDigest".to_owned(),
            S3ErrorCode::BucketAlreadyExists => "BucketAlreadyExists".to_owned(),
            S3ErrorCode::BucketAlreadyOwnedByYou => "BucketAlreadyOwnedByYou".to_owned(),
            S3ErrorCode::BucketNotEmpty => "BucketNotEmpty".to_owned(),
            S3ErrorCode::CredentialsNotSupported => "CredentialsNotSupported".to_owned(),
            S3ErrorCode::CrossLocationLoggingProhibited => "CrossLocationLoggingProhibited".to_owned(),
            S3ErrorCode::EntityTooSmall => "EntityTooSmall".to_owned(),
            S3ErrorCode::EntityTooLarge => "EntityTooLarge".to_owned(),
            S3ErrorCode::ExpiredToken => "ExpiredToken".to_owned(),
            S3ErrorCode::IllegalLocationConstraintException => "IllegalLocationConstraintException".to_owned(),
            S3ErrorCode::IllegalVersioningConfigurationException => "IllegalVersioningConfigurationException".to_owned(),
            S3ErrorCode::IncompleteBody => "IncompleteBody".to_owned(),
            S3ErrorCode::IncorrectNumberOfFilesInPostRequest => "IncorrectNumberOfFilesInPostRequest".to_owned(),
            S3ErrorCode::InlineDataTooLarge => "InlineDataTooLarge".to_owned(),
            S3ErrorCode::InternalError => "InternalError".to_owned(),
            S3ErrorCode::InvalidAccessKeyId => "InvalidAccessKeyId".to_owned(),
            S3ErrorCode::InvalidAddressingHeader => "InvalidAddressingHeader".to_owned(),
            S3ErrorCode::InvalidArgument => "InvalidArgument".to_owned(),
            S3ErrorCode::InvalidBucketName => "InvalidBucketName".to_owned(),
            S3ErrorCode::InvalidBucketState => "InvalidBucketState".to_owned(),
            S3ErrorCode::InvalidDigest => "InvalidDigest".to_owned(),
            S3ErrorCode::InvalidEncryptionAlgorithmError => "InvalidEncryptionAlgorithmError".to_owned(),
            S3ErrorCode::InvalidLocationConstraint => "InvalidLocationConstraint".to_owned(),
            S3ErrorCode::InvalidObjectState => "InvalidObjectState".to_owned(),
            S3ErrorCode::InvalidPart => "InvalidPart".to_owned(),
            S3ErrorCode::InvalidPartOrder => "InvalidPartOrder".to_owned(),
            S3ErrorCode::InvalidPayer => "InvalidPayer".to_owned(),
            S3ErrorCode::InvalidPolicyDocument => "InvalidPolicyDocument".to_owned(),
            S3ErrorCode::InvalidRange => "InvalidRange".to_owned(),
            S3ErrorCode::InvalidRequest => "InvalidRequest".to_owned(),
            S3ErrorCode::InvalidSecurity => "InvalidSecurity".to_owned(),
            S3ErrorCode::InvalidSOAPRequest => "InvalidSOAPRequest".to_owned(),
            S3ErrorCode::InvalidStorageClass => "InvalidStorageClass".to_owned(),
            S3ErrorCode::InvalidTargetBucketForLogging => "InvalidTargetBucketForLogging".to_owned(),
            S3ErrorCode::InvalidToken => "InvalidToken".to_owned(),
            S3ErrorCode::InvalidURI => "InvalidURI".to_owned(),
            S3ErrorCode::KeyTooLongError => "KeyTooLongError".to_owned(),
            S3ErrorCode::MalformedACLError => "MalformedACLError".to_owned(),
            S3ErrorCode::MalformedPOSTRequest => "MalformedPOSTRequest".to_owned(),
            S3ErrorCode::MalformedXML => "MalformedXML".to_owned(),
            S3ErrorCode::MaxMessageLengthExceeded => "MaxMessageLengthExceeded".to_owned(),
            S3ErrorCode::MaxPostPreDataLengthExceededError => "MaxPostPreDataLengthExceededError".to_owned(),
            S3ErrorCode::MetadataTooLarge => "MetadataTooLarge".to_owned(),
            S3ErrorCode::MethodNotAllowed => "MethodNotAllowed".to_owned(),
            S3ErrorCode::MissingAttachment => "MissingAttachment".to_owned(),
            S3ErrorCode::MissingContentLength => "MissingContentLength".to_owned(),
            S3ErrorCode::MissingRequestBodyError => "MissingRequestBodyError".to_owned(),
            S3ErrorCode::MissingSecurityElement => "MissingSecurityElement".to_owned(),
            S3ErrorCode::MissingSecurityHeader => "MissingSecurityHeader".to_owned(),
            S3ErrorCode::NoLoggingStatusForKey => "NoLoggingStatusForKey".to_owned(),
            S3ErrorCode::NoSuchBucket => "NoSuchBucket".to_owned(),
            S3ErrorCode::NoSuchBucketPolicy => "NoSuchBucketPolicy".to_owned(),
            S3ErrorCode::NoSuchKey => "NoSuchKey".to_owned(),
            S3ErrorCode::NoSuchLifecycleConfiguration => "NoSuchLifecycleConfiguration".to_owned(),
            S3ErrorCode::NoSuchUpload => "NoSuchUpload".to_owned(),
            S3ErrorCode::NoSuchVersion => "NoSuchVersion".to_owned(),
            S3ErrorCode::NotImplemented => "NotImplemented".to_owned(),
            S3ErrorCode::NotSignedUp => "NotSignedUp".to_owned(),
            S3ErrorCode::OperationAborted => "OperationAborted".to_owned(),
            S3ErrorCode::PermanentRedirect => "PermanentRedirect".to_owned(),
            S3ErrorCode::PreconditionFailed => "PreconditionFailed".to_owned(),
            S3ErrorCode::Redirect => "Redirect".to_owned(),
            S3ErrorCode::RestoreAlreadyInProgress => "RestoreAlreadyInProgress".to_owned(),
            S3ErrorCode::RequestIsNotMultiPartContent => "RequestIsNotMultiPartContent".to_owned(),
            S3ErrorCode::RequestTimeout => "RequestTimeout".to_owned(),
            S3ErrorCode::RequestTimeTooSkewed => "RequestTimeTooSkewed".to_owned(),
            S3ErrorCode::RequestTorrentOfBucketError => "RequestTorrentOfBucketError".to_owned(),
            S3ErrorCode::ServerSideEncryptionConfigurationNotFoundError => "ServerSideEncryptionConfigurationNotFoundError".to_owned(),
            S3ErrorCode::ServiceUnavailable => "ServiceUnavailable".to_owned(),
            S3ErrorCode::SignatureDoesNotMatch => "SignatureDoesNotMatch".to_owned(),
            S3ErrorCode::SlowDown => "SlowDown".to_owned(),
            S3ErrorCode::TemporaryRedirect => "TemporaryRedirect".to_owned(),
            S3ErrorCode::TokenRefreshRequired => "TokenRefreshRequired".to_owned(),
            S3ErrorCode::TooManyBuckets => "TooManyBuckets".to_owned(),
            S3ErrorCode::UnexpectedContent => "UnexpectedContent".to_owned(),
            S3ErrorCode::UnresolvableGrantByEmailAddress => "UnresolvableGrantByEmailAddress".to_owned(),
            S3ErrorCode::UserKeyMustBeSpecified => "UserKeyMustBeSpecified".to_owned(),
        }
    }

    /// Standard HTTP status of this fault, or `None` where AWS documents no
    /// standard mapping.
    pub fn as_status_code(&self) -> (r: Option<u16>)
        ensures
            r == self.status_spec(),
    {
        match self {
            S3ErrorCode::AccessDenied => Some(403u16),
            S3ErrorCode::AccountProblem => Some(403u16),
            S3ErrorCode::AllAccessDisabled => Some(403u16),
            S3ErrorCode::AmbiguousGrantByEmailAddress => Some(400u16),
            S3ErrorCode::AuthorizationHeaderMalformed => Some(400u16),
            S3ErrorCode::BadDigest => Some(400u16),
            S3ErrorCode::BucketAlreadyExists => Some(409u16),
            S3ErrorCode::BucketAlreadyOwnedByYou => Some(409u16),
            S3ErrorCode::BucketNotEmpty => Some(409u16),
            S3ErrorCode::CredentialsNotSupported => Some(400u16),
            S3ErrorCode::CrossLocationLoggingProhibited => Some(403u16),
            S3ErrorCode::EntityTooSmall => Some(400u16),
            S3ErrorCode::EntityTooLarge => Some(400u16),
            S3ErrorCode::ExpiredToken => Some(400u16),
            S3ErrorCode::IllegalLocationConstraintException => Some(400u16),
            S3ErrorCode::IllegalVersioningConfigurationException => Some(400u16),
            S3ErrorCode::IncompleteBody => Some(400u16),
            S3ErrorCode::IncorrectNumberOfFilesInPostRequest => Some(400u16),
            S3ErrorCode::InlineDataTooLarge => Some(400u16),
            S3ErrorCode::InternalError => Some(500u16),
            S3ErrorCode::InvalidAccessKeyId => Some(403u16),
            S3ErrorCode::InvalidAddressingHeader => None,
            S3ErrorCode::InvalidArgument => Some(400u16),
            S3ErrorCode::InvalidBucketName => Some(400u16),
            S3ErrorCode::InvalidBucketState => Some(409u16),
            S3ErrorCode::InvalidDigest => Some(400u16),
            S3ErrorCode::InvalidEncryptionAlgorithmError => Some(400u16),
            S3ErrorCode::InvalidLocationConstraint => Some(400u16),
            S3ErrorCode::InvalidObjectState => Some(403u16),
            S3ErrorCode::InvalidPart => Some(400u16),
            S3ErrorCode::InvalidPartOrder => Some(400u16),
            S3ErrorCode::InvalidPayer => Some(403u16),
            S3ErrorCode::InvalidPolicyDocument => Some(400u16),
            S3ErrorCode::InvalidRange => Some(416u16),
            S3ErrorCode::InvalidRequest => Some(400u16),
            S3ErrorCode::InvalidSecurity => Some(403u16),
            S3ErrorCode::InvalidSOAPRequest => Some(400u16),
            S3ErrorCode::InvalidStorageClass => Some(400u16),
            S3ErrorCode::InvalidTargetBucketForLogging => Some(400u16),
            S3ErrorCode::InvalidToken => Some(400u16),
            S3ErrorCode::InvalidURI => Some(400u16),
            S3ErrorCode::KeyTooLongError => Some(400u16),
            S3ErrorCode::MalformedACLError => Some(400u16),
            S3ErrorCode::MalformedPOSTRequest => Some(400u16),
            S3ErrorCode::MalformedXML => Some(400u16),
            S3ErrorCode::MaxMessageLengthExceeded => Some(400u16),
            S3ErrorCode::MaxPostPreDataLengthExceededError => Some(400u16),
            S3ErrorCode::MetadataTooLarge => Some(400u16),
            S3ErrorCode::MethodNotAllowed => Some(405u16),
            S3ErrorCode::MissingAttachment => None,
            S3ErrorCode::MissingContentLength => Some(411u16),
            S3ErrorCode::MissingRequestBodyError => Some(400u16),
            S3ErrorCode::MissingSecurityElement => Some(400u16),
            S3ErrorCode::MissingSecurityHeader => Some(400u16),
            S3ErrorCode::NoLoggingStatusForKey => Some(400u16),
            S3ErrorCode::NoSuchBucket => Some(404u16),
            S3ErrorCode::NoSuchBucketPolicy => Some(404u16),
            S3ErrorCode::NoSuchKey => Some(404u16),
            S3ErrorCode::NoSuchLifecycleConfiguration => Some(404u16),
            S3ErrorCode::NoSuchUpload => Some(404u16),
            S3ErrorCode::NoSuchVersion => Some(404u16),
            S3ErrorCode::NotImplemented => Some(501u16),
            S3ErrorCode::NotSignedUp => Some(403u16),
            S3ErrorCode::OperationAborted => Some(409u16),
            S3ErrorCode::PermanentRedirect => Some(301u16),
            S3ErrorCode::PreconditionFailed => Some(412u16),
            S3ErrorCode::Redirect => Some(307u16),
            S3ErrorCode::RestoreAlreadyInProgress => Some(409u16),
            S3ErrorCode::RequestIsNotMultiPartContent => Some(400u16),
            S3ErrorCode::RequestTimeout => Some(400u16),
            S3ErrorCode::RequestTimeTooSkewed => Some(403u16),
            S3ErrorCode::RequestTorrentOfBucketError => Some(400u16),
            S3ErrorCode::ServerSideEncryptionConfigurationNotFoundError => Some(400u16),
            S3ErrorCode::ServiceUnavailable => Some(503u16),
            S3ErrorCode::SignatureDoesNotMatch => Some(403u16),
            S3ErrorCode::SlowDown => Some(503u16),
            S3ErrorCode::TemporaryRedirect => Some(307u16),
            S3ErrorCode::TokenRefreshRequired => Some(400u16),
            S3ErrorCode::TooManyBuckets => Some(400u16),
            S3ErrorCode::UnexpectedContent => Some(400u16),
            S3ErrorCode::UnresolvableGrantByEmailAddress => Some(400u16),
            S3ErrorCode::UserKeyMustBeSpecified => Some(400u16),
        }
    }
}

} // verus!
