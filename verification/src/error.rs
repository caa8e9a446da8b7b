//! Error taxonomy: stable failure classes, provisioning codes, and the
//! backend error with its API code, HTTP status, public message and retry
//! policy.
use vstd::prelude::*;
use crate::text::{chars_of, contains, contains_seq, dec, decimal_string, has_prefix, push_char, starts_with};

verus! {

#[derive(Debug, Clone, Copy, PartialEq, Eq, Structural)]
pub enum FailureClass {
    PermanentClient,
    RetryableHttp,
    Timeout,
    DnsOrConnect,
    ConnectionReset,
    MalformedRange,
    DiskFull,
    Permission,
    ChecksumMismatch,
    ExternalTool,
    Cancellation,
    Internal,
}

impl FailureClass {
    pub open spec fn spec_penalizes_host(self) -> bool {
        match self {
            FailureClass::RetryableHttp | FailureClass::Timeout | FailureClass::DnsOrConnect
            | FailureClass::ConnectionReset | FailureClass::MalformedRange => true,
            _ => false,
        }
    }

    /// Whether a failure of this class counts against the remote host's profile.
    pub fn penalizes_host(self) -> (b: bool)
        ensures
            b == self.spec_penalizes_host(),
    {
        match self {
            FailureClass::RetryableHttp | FailureClass::Timeout | FailureClass::DnsOrConnect
            | FailureClass::ConnectionReset | FailureClass::MalformedRange => true,
            _ => false,
        }
    }

    pub open spec fn is_transient(self) -> bool {
        match self {
            FailureClass::RetryableHttp | FailureClass::Timeout | FailureClass::DnsOrConnect
            | FailureClass::ConnectionReset => true,
            _ => false,
        }
    }
}

/// Distinct, machine-readable causes for provisioning (managed-engine
/// download/install/rollback/health-check) failures.
#[derive(Debug, Clone, Copy, PartialEq, Eq, Structural)]
pub enum ProvisioningErrorCode {
    ManifestUnavailable,
    PlatformUnsupported,
    InvalidManifestSignature,
    ChecksumMismatch,
    InsufficientSpace,
    DownloadInterrupted,
    QuarantinedByAntivirus,
    HealthCheckFailed,
    RollbackFailed,
    InvalidCustomPath,
    AppInstallFailed,
}

impl ProvisioningErrorCode {
    pub open spec fn code_text(self) -> Seq<char> {
        match self {
            ProvisioningErrorCode::ManifestUnavailable => "PROVISIONING_MANIFEST_UNAVAILABLE"@,
            ProvisioningErrorCode::PlatformUnsupported => "PROVISIONING_PLATFORM_UNSUPPORTED"@,
            ProvisioningErrorCode::InvalidManifestSignature => "PROVISIONING_INVALID_MANIFEST_SIGNATURE"@,
            ProvisioningErrorCode::ChecksumMismatch => "PROVISIONING_CHECKSUM_MISMATCH"@,
            ProvisioningErrorCode::InsufficientSpace => "PROVISIONING_INSUFFICIENT_SPACE"@,
            ProvisioningErrorCode::DownloadInterrupted => "PROVISIONING_DOWNLOAD_INTERRUPTED"@,
            ProvisioningErrorCode::QuarantinedByAntivirus => "PROVISIONING_QUARANTINED"@,
            ProvisioningErrorCode::HealthCheckFailed => "PROVISIONING_HEALTH_CHECK_FAILED"@,
            ProvisioningErrorCode::RollbackFailed => "PROVISIONING_ROLLBACK_FAILED"@,
            ProvisioningErrorCode::InvalidCustomPath => "PROVISIONING_INVALID_CUSTOM_PATH"@,
            ProvisioningErrorCode::AppInstallFailed => "PROVISIONING_APP_INSTALL_FAILED"@,
        }
    }

    /// The stable API code of this cause.
    pub fn as_str(self) -> (s: &'static str)
        ensures
            s@ == self.code_text(),
    {
        match self {
            ProvisioningErrorCode::ManifestUnavailable => "PROVISIONING_MANIFEST_UNAVAILABLE",
            ProvisioningErrorCode::PlatformUnsupported => "PROVISIONING_PLATFORM_UNSUPPORTED",
            ProvisioningErrorCode::InvalidManifestSignature => "PROVISIONING_INVALID_MANIFEST_SIGNATURE",
            ProvisioningErrorCode::ChecksumMismatch => "PROVISIONING_CHECKSUM_MISMATCH",
            ProvisioningErrorCode::InsufficientSpace => "PROVISIONING_INSUFFICIENT_SPACE",
            ProvisioningErrorCode::DownloadInterrupted => "PROVISIONING_DOWNLOAD_INTERRUPTED",
            ProvisioningErrorCode::QuarantinedByAntivirus => "PROVISIONING_QUARANTINED",
            ProvisioningErrorCode::HealthCheckFailed => "PROVISIONING_HEALTH_CHECK_FAILED",
            ProvisioningErrorCode::RollbackFailed => "PROVISIONING_ROLLBACK_FAILED",
            ProvisioningErrorCode::InvalidCustomPath => "PROVISIONING_INVALID_CUSTOM_PATH",
            ProvisioningErrorCode::AppInstallFailed => "PROVISIONING_APP_INSTALL_FAILED",
        }
    }

    pub open spec fn spec_status(self) -> u16 {
        match self {
            ProvisioningErrorCode::PlatformUnsupported | ProvisioningErrorCode::InvalidCustomPath => 400,
            ProvisioningErrorCode::InsufficientSpace => 507,
            ProvisioningErrorCode::ManifestUnavailable | ProvisioningErrorCode::DownloadInterrupted
            | ProvisioningErrorCode::QuarantinedByAntivirus => 503,
            ProvisioningErrorCode::InvalidManifestSignature | ProvisioningErrorCode::ChecksumMismatch
            | ProvisioningErrorCode::HealthCheckFailed | ProvisioningErrorCode::AppInstallFailed => 502,
            ProvisioningErrorCode::RollbackFailed => 500,
        }
    }

    /// HTTP status code answered for this cause.
    pub fn status(self) -> (s: u16)
        ensures
            s == self.spec_status(),
    {
        match self {
            ProvisioningErrorCode::PlatformUnsupported | ProvisioningErrorCode::InvalidCustomPath => 400,
            ProvisioningErrorCode::InsufficientSpace => 507,
            ProvisioningErrorCode::ManifestUnavailable | ProvisioningErrorCode::DownloadInterrupted
            | ProvisioningErrorCode::QuarantinedByAntivirus => 503,
            ProvisioningErrorCode::InvalidManifestSignature | ProvisioningErrorCode::ChecksumMismatch
            | ProvisioningErrorCode::HealthCheckFailed | ProvisioningErrorCode::AppInstallFailed => 502,
            ProvisioningErrorCode::RollbackFailed => 500,
        }
    }

    pub open spec fn spec_default_retryable(self) -> bool {
        match self {
            ProvisioningErrorCode::ManifestUnavailable | ProvisioningErrorCode::DownloadInterrupted
            | ProvisioningErrorCode::QuarantinedByAntivirus => true,
            _ => false,
        }
    }

    pub fn default_retryable(self) -> (b: bool)
        ensures
            b == self.spec_default_retryable(),
    {
        match self {
            ProvisioningErrorCode::ManifestUnavailable | ProvisioningErrorCode::DownloadInterrupted
            | ProvisioningErrorCode::QuarantinedByAntivirus => true,
            _ => false,
        }
    }

    pub open spec fn spec_failure_class(self) -> FailureClass {
        match self {
            ProvisioningErrorCode::ChecksumMismatch => FailureClass::ChecksumMismatch,
            ProvisioningErrorCode::InsufficientSpace => FailureClass::DiskFull,
            ProvisioningErrorCode::QuarantinedByAntivirus => FailureClass::Permission,
            ProvisioningErrorCode::ManifestUnavailable | ProvisioningErrorCode::DownloadInterrupted => FailureClass::RetryableHttp,
            ProvisioningErrorCode::HealthCheckFailed | ProvisioningErrorCode::RollbackFailed
            | ProvisioningErrorCode::AppInstallFailed => FailureClass::ExternalTool,
            ProvisioningErrorCode::PlatformUnsupported | ProvisioningErrorCode::InvalidManifestSignature
            | ProvisioningErrorCode::InvalidCustomPath => FailureClass::PermanentClient,
        }
    }

    pub fn failure_class(self) -> (c: FailureClass)
        ensures
            c == self.spec_failure_class(),
    {
        match self {
            ProvisioningErrorCode::ChecksumMismatch => FailureClass::ChecksumMismatch,
            ProvisioningErrorCode::InsufficientSpace => FailureClass::DiskFull,
            ProvisioningErrorCode::QuarantinedByAntivirus => FailureClass::Permission,
            ProvisioningErrorCode::ManifestUnavailable | ProvisioningErrorCode::DownloadInterrupted => FailureClass::RetryableHttp,
            ProvisioningErrorCode::HealthCheckFailed | ProvisioningErrorCode::RollbackFailed
            | ProvisioningErrorCode::AppInstallFailed => FailureClass::ExternalTool,
            ProvisioningErrorCode::PlatformUnsupported | ProvisioningErrorCode::InvalidManifestSignature
            | ProvisioningErrorCode::InvalidCustomPath => FailureClass::PermanentClient,
        }
    }
}

/// Structured context attached to a provisioning failure, surfaced verbatim
/// in the API error response's `details` field.
#[derive(Debug, Clone)]
pub struct ProvisioningErrorDetails {
    pub component: Option<String>,
    pub stage: Option<String>,
    pub expected_version: Option<String>,
    pub detected_version: Option<String>,
    pub path: Option<String>,
    pub target: Option<String>,
}

impl ProvisioningErrorDetails {
    pub fn empty() -> (d: Self)
        ensures
            d.component is None,
            d.stage is None,
            d.expected_version is None,
            d.detected_version is None,
            d.path is None,
            d.target is None,
    {
        ProvisioningErrorDetails {
            component: None,
            stage: None,
            expected_version: None,
            detected_version: None,
            path: None,
            target: None,
        }
    }
}

/// The kinds of filesystem error the classification distinguishes.
#[derive(Debug, Clone, Copy, PartialEq, Eq, Structural)]
pub enum IoErrorKind {
    PermissionDenied,
    ConnectionReset,
    ConnectionAborted,
    BrokenPipe,
    Other,
}

/// A backend failure. Errors that originate outside the library (filesystem,
/// HTTP client, database, JSON, URL parsing) carry the facts the
/// classification reads and their rendered text.
#[derive(Debug)]
pub enum RavynError {
    Invalid(String),
    NotFound(String),
    Conflict(String),
    Unavailable(String),
    Cancelled,
    Protocol(String),
    Process(String),
    Provisioning {
        code: ProvisioningErrorCode,
        message: String,
        details: ProvisioningErrorDetails,
        retryable: bool,
    },
    Io { kind: IoErrorKind, raw_os_error: Option<i32>, message: String },
    Http { timeout: bool, connect: bool, message: String },
    Database(String),
    Migration(String),
    Json(String),
    Url(String),
    Internal(String),
}

/// `" 408"`, `" 429"` or `" 5xx"` for some status `5xx`.
pub open spec fn mentions_retryable_status(m: Seq<char>) -> bool {
    contains_seq(m, " 408"@) || contains_seq(m, " 429"@) || exists|status: nat|
        500 <= status <= 599 && #[trigger] contains_seq(m, seq![' '] + dec(status))
}

pub open spec fn protocol_failure_class(m: Seq<char>) -> FailureClass {
    if has_prefix(m, "SHA-256 mismatch"@) {
        FailureClass::ChecksumMismatch
    } else if contains_seq(m, "range"@) || contains_seq(m, "Content-Range"@) {
        FailureClass::MalformedRange
    } else if mentions_retryable_status(m) {
        FailureClass::RetryableHttp
    } else {
        FailureClass::PermanentClient
    }
}

pub open spec fn io_failure_class(kind: IoErrorKind, raw: Option<i32>) -> FailureClass {
    if raw == Some(28i32) || raw == Some(39i32) || raw == Some(112i32) {
        FailureClass::DiskFull
    } else if kind == IoErrorKind::PermissionDenied {
        FailureClass::Permission
    } else if kind == IoErrorKind::ConnectionReset || kind == IoErrorKind::ConnectionAborted
        || kind == IoErrorKind::BrokenPipe {
        FailureClass::ConnectionReset
    } else {
        FailureClass::Internal
    }
}

fn protocol_class_exec(message: &String) -> (c: FailureClass)
    ensures
        c == protocol_failure_class(message@),
{
    let m = chars_of(message.as_str());
    let sha = chars_of("SHA-256 mismatch");
    if starts_with(&m, &sha) {
        return FailureClass::ChecksumMismatch;
    }
    let lower_range = chars_of("range");
    let header_range = chars_of("Content-Range");
    if contains(&m, &lower_range) || contains(&m, &header_range) {
        return FailureClass::MalformedRange;
    }
    let s408 = chars_of(" 408");
    let s429 = chars_of(" 429");
    if contains(&m, &s408) || contains(&m, &s429) {
        return FailureClass::RetryableHttp;
    }
    let mut status: u64 = 500;
    while status <= 599
        invariant
            500 <= status <= 600,
            m@ == message@,
            !has_prefix(message@, "SHA-256 mismatch"@),
            !contains_seq(message@, "range"@),
            !contains_seq(message@, "Content-Range"@),
            !contains_seq(message@, " 408"@),
            !contains_seq(message@, " 429"@),
            forall|s: nat| 500 <= s < status ==> !#[trigger] contains_seq(m@, seq![' '] + dec(s)),
        decreases 600 - status,
    {
        let mut needle = String::new();
        push_char(&mut needle, ' ');
        let digits = decimal_string(status);
        needle.append(digits.as_str());
        let n = chars_of(needle.as_str());
        proof {
            assert(n@ =~= seq![' '] + dec(status as nat));
        }
        if contains(&m, &n) {
            proof {
                let st = status as nat;
                assert(500 <= st <= 599 && contains_seq(m@, seq![' '] + dec(st)));
                assert(mentions_retryable_status(message@));
            }
            return FailureClass::RetryableHttp;
        }
        status = status + 1;
    }
    FailureClass::PermanentClient
}

impl RavynError {
    pub open spec fn spec_failure_class(&self) -> FailureClass {
        match self {
            RavynError::Invalid(_) | RavynError::NotFound(_) | RavynError::Conflict(_)
            | RavynError::Url(_) => FailureClass::PermanentClient,
            RavynError::Unavailable(_) => FailureClass::RetryableHttp,
            RavynError::Cancelled => FailureClass::Cancellation,
            RavynError::Process(_) => FailureClass::ExternalTool,
            RavynError::Provisioning { code, .. } => code.spec_failure_class(),
            RavynError::Http { timeout, connect, .. } => if *timeout {
                FailureClass::Timeout
            } else if *connect {
                FailureClass::DnsOrConnect
            } else {
                FailureClass::RetryableHttp
            },
            RavynError::Io { kind, raw_os_error, .. } => io_failure_class(*kind, *raw_os_error),
            RavynError::Protocol(m) => protocol_failure_class(m@),
            RavynError::Database(_) | RavynError::Migration(_) | RavynError::Json(_)
            | RavynError::Internal(_) => FailureClass::Internal,
        }
    }

    /// The stable failure class used for retries, host profiles and metrics.
    pub fn failure_class(&self) -> (c: FailureClass)
        ensures
            c == self.spec_failure_class(),
    {
        match self {
            RavynError::Invalid(_) | RavynError::NotFound(_) | RavynError::Conflict(_)
            | RavynError::Url(_) => FailureClass::PermanentClient,
            RavynError::Unavailable(_) => FailureClass::RetryableHttp,
            RavynError::Cancelled => FailureClass::Cancellation,
            RavynError::Process(_) => FailureClass::ExternalTool,
            RavynError::Provisioning { code, .. } => code.failure_class(),
            RavynError::Http { timeout, connect, .. } => if *timeout {
                FailureClass::Timeout
            } else if *connect {
                FailureClass::DnsOrConnect
            } else {
                FailureClass::RetryableHttp
            },
            RavynError::Io { kind, raw_os_error, .. } => {
                if matches!(raw_os_error, Some(28i32) | Some(39i32) | Some(112i32)) {
                    FailureClass::DiskFull
                } else if *kind == IoErrorKind::PermissionDenied {
                    FailureClass::Permission
                } else if *kind == IoErrorKind::ConnectionReset || *kind
                    == IoErrorKind::ConnectionAborted || *kind == IoErrorKind::BrokenPipe {
                    FailureClass::ConnectionReset
                } else {
                    FailureClass::Internal
                }
            },
            RavynError::Protocol(m) => protocol_class_exec(m),
            RavynError::Database(_) | RavynError::Migration(_) | RavynError::Json(_)
            | RavynError::Internal(_) => FailureClass::Internal,
        }
    }

    pub open spec fn spec_api_code(&self) -> Seq<char> {
        match self {
            RavynError::Invalid(_) | RavynError::Url(_) | RavynError::Json(_) => "INVALID_REQUEST"@,
            RavynError::NotFound(_) => "RESOURCE_NOT_FOUND"@,
            RavynError::Conflict(_) | RavynError::Cancelled => "STATE_CONFLICT"@,
            RavynError::Unavailable(_) => "TEMPORARILY_UNAVAILABLE"@,
            RavynError::Protocol(_) => "REMOTE_PROTOCOL_ERROR"@,
            RavynError::Process(_) => "EXTERNAL_PROCESS_ERROR"@,
            RavynError::Provisioning { code, .. } => code.code_text(),
            RavynError::Io { kind, .. } => if *kind == IoErrorKind::PermissionDenied {
                "FILESYSTEM_PERMISSION_DENIED"@
            } else {
                "FILESYSTEM_ERROR"@
            },
            RavynError::Http { timeout, .. } => if *timeout {
                "REMOTE_TIMEOUT"@
            } else {
                "REMOTE_HTTP_ERROR"@
            },
            RavynError::Database(_) | RavynError::Migration(_) => "DATABASE_ERROR"@,
            RavynError::Internal(_) => "INTERNAL_ERROR"@,
        }
    }

    /// The machine-readable API code of this error.
    pub fn api_code(&self) -> (s: &'static str)
        ensures
            s@ == self.spec_api_code(),
    {
        match self {
            RavynError::Invalid(_) | RavynError::Url(_) | RavynError::Json(_) => "INVALID_REQUEST",
            RavynError::NotFound(_) => "RESOURCE_NOT_FOUND",
            RavynError::Conflict(_) | RavynError::Cancelled => "STATE_CONFLICT",
            RavynError::Unavailable(_) => "TEMPORARILY_UNAVAILABLE",
            RavynError::Protocol(_) => "REMOTE_PROTOCOL_ERROR",
            RavynError::Process(_) => "EXTERNAL_PROCESS_ERROR",
            RavynError::Provisioning { code, .. } => code.as_str(),
            RavynError::Io { kind, .. } => if *kind == IoErrorKind::PermissionDenied {
                "FILESYSTEM_PERMISSION_DENIED"
            } else {
                "FILESYSTEM_ERROR"
            },
            RavynError::Http { timeout, .. } => if *timeout {
                "REMOTE_TIMEOUT"
            } else {
                "REMOTE_HTTP_ERROR"
            },
            RavynError::Database(_) | RavynError::Migration(_) => "DATABASE_ERROR",
            RavynError::Internal(_) => "INTERNAL_ERROR",
        }
    }

    pub open spec fn spec_display(&self) -> Seq<char> {
        match self {
            RavynError::Invalid(m) => "invalid request: "@ + m@,
            RavynError::NotFound(m) => "resource not found: "@ + m@,
            RavynError::Conflict(m) => "conflict: "@ + m@,
            RavynError::Unavailable(m) => "temporarily unavailable: "@ + m@,
            RavynError::Cancelled => "operation was cancelled"@,
            RavynError::Protocol(m) => "HTTP protocol error: "@ + m@,
            RavynError::Process(m) => "external process failed: "@ + m@,
            RavynError::Provisioning { message, .. } => message@,
            RavynError::Io { message, .. } => message@,
            RavynError::Http { message, .. } => message@,
            RavynError::Database(m) => m@,
            RavynError::Migration(m) => m@,
            RavynError::Json(m) => m@,
            RavynError::Url(m) => m@,
            RavynError::Internal(m) => "internal error: "@ + m@,
        }
    }

    /// The rendered error text.
    pub fn to_text(&self) -> (s: String)
        ensures
            s@ == self.spec_display(),
    {
        match self {
            RavynError::Invalid(m) => prefixed("invalid request: ", m),
            RavynError::NotFound(m) => prefixed("resource not found: ", m),
            RavynError::Conflict(m) => prefixed("conflict: ", m),
            RavynError::Unavailable(m) => prefixed("temporarily unavailable: ", m),
            RavynError::Cancelled => String::from_str("operation was cancelled"),
            RavynError::Protocol(m) => prefixed("HTTP protocol error: ", m),
            RavynError::Process(m) => prefixed("external process failed: ", m),
            RavynError::Provisioning { message, .. } => message.clone(),
            RavynError::Io { message, .. } => message.clone(),
            RavynError::Http { message, .. } => message.clone(),
            RavynError::Database(m) => m.clone(),
            RavynError::Migration(m) => m.clone(),
            RavynError::Json(m) => m.clone(),
            RavynError::Url(m) => m.clone(),
            RavynError::Internal(m) => prefixed("internal error: ", m),
        }
    }

    pub open spec fn spec_public_message(&self) -> Seq<char> {
        match self {
            RavynError::Database(_) | RavynError::Migration(_) | RavynError::Internal(_) => "An internal backend error occurred."@,
            _ => self.spec_display(),
        }
    }

    /// The message shown to API clients; internal details are redacted.
    pub fn public_message(&self) -> (s: String)
        ensures
            s@ == self.spec_public_message(),
    {
        match self {
            RavynError::Database(_) | RavynError::Migration(_) | RavynError::Internal(_) => {
                String::from_str("An internal backend error occurred.")
            },
            _ => self.to_text(),
        }
    }

    pub open spec fn spec_retryable(&self) -> bool {
        match self {
            RavynError::Provisioning { retryable, .. } => *retryable,
            _ => self.spec_failure_class().is_transient(),
        }
    }

    /// Whether the client may retry the failed request.
    pub fn retryable(&self) -> (b: bool)
        ensures
            b == self.spec_retryable(),
    {
        if let RavynError::Provisioning { retryable, .. } = self {
            return *retryable;
        }
        match self.failure_class() {
            FailureClass::RetryableHttp | FailureClass::Timeout | FailureClass::DnsOrConnect
            | FailureClass::ConnectionReset => true,
            _ => false,
        }
    }

    pub open spec fn spec_http_status(&self) -> u16 {
        match self {
            RavynError::Invalid(_) => 400,
            RavynError::NotFound(_) => 404,
            RavynError::Conflict(_) => 409,
            RavynError::Unavailable(_) => 503,
            RavynError::Cancelled => 409,
            RavynError::Protocol(_) => 502,
            RavynError::Process(_) => 502,
            RavynError::Provisioning { code, .. } => code.spec_status(),
            _ => 500,
        }
    }

    /// HTTP status code of the API response for this error.
    pub fn http_status(&self) -> (s: u16)
        ensures
            s == self.spec_http_status(),
    {
        match self {
            RavynError::Invalid(_) => 400,
            RavynError::NotFound(_) => 404,
            RavynError::Conflict(_) => 409,
            RavynError::Unavailable(_) => 503,
            RavynError::Cancelled => 409,
            RavynError::Protocol(_) => 502,
            RavynError::Process(_) => 502,
            RavynError::Provisioning { code, .. } => code.status(),
            _ => 500,
        }
    }

    /// Builds a structured provisioning failure; chain the `with_*` methods to
    /// attach whichever context fields are known at the call site.
    pub fn provisioning(code: ProvisioningErrorCode, message: String) -> (e: Self)
        ensures
            e matches RavynError::Provisioning { code: c, message: m, details: d, retryable: r } && c
                == code && m == message && r == code.spec_default_retryable() && d.component is None
                && d.stage is None && d.expected_version is None && d.detected_version is None
                && d.path is None && d.target is None,
    {
        RavynError::Provisioning {
            code,
            message,
            details: ProvisioningErrorDetails::empty(),
            retryable: code.default_retryable(),
        }
    }

    pub fn with_component(self, component: String) -> (e: Self)
        ensures
            with_detail(self, e, 0, component),
    {
        match self {
            RavynError::Provisioning { code, message, details, retryable } => {
                RavynError::Provisioning {
                    code,
                    message,
                    details: ProvisioningErrorDetails { component: Some(component), ..details },
                    retryable,
                }
            },
            other => other,
        }
    }

    pub fn with_stage(self, stage: String) -> (e: Self)
        ensures
            with_detail(self, e, 1, stage),
    {
        match self {
            RavynError::Provisioning { code, message, details, retryable } => {
                RavynError::Provisioning {
                    code,
                    message,
                    details: ProvisioningErrorDetails { stage: Some(stage), ..details },
                    retryable,
                }
            },
            other => other,
        }
    }

    pub fn with_expected_version(self, version: String) -> (e: Self)
        ensures
            with_detail(self, e, 2, version),
    {
        match self {
            RavynError::Provisioning { code, message, details, retryable } => {
                RavynError::Provisioning {
                    code,
                    message,
                    details: ProvisioningErrorDetails { expected_version: Some(version), ..details },
                    retryable,
                }
            },
            other => other,
        }
    }

    pub fn with_detected_version(self, version: String) -> (e: Self)
        ensures
            with_detail(self, e, 3, version),
    {
        match self {
            RavynError::Provisioning { code, message, details, retryable } => {
                RavynError::Provisioning {
                    code,
                    message,
                    details: ProvisioningErrorDetails { detected_version: Some(version), ..details },
                    retryable,
                }
            },
            other => other,
        }
    }

    pub fn with_path(self, path: String) -> (e: Self)
        ensures
            with_detail(self, e, 4, path),
    {
        match self {
            RavynError::Provisioning { code, message, details, retryable } => {
                RavynError::Provisioning {
                    code,
                    message,
                    details: ProvisioningErrorDetails { path: Some(path), ..details },
                    retryable,
                }
            },
            other => other,
        }
    }

    pub fn with_target(self, target: String) -> (e: Self)
        ensures
            with_detail(self, e, 5, target),
    {
        match self {
            RavynError::Provisioning { code, message, details, retryable } => {
                RavynError::Provisioning {
                    code,
                    message,
                    details: ProvisioningErrorDetails { target: Some(target), ..details },
                    retryable,
                }
            },
            other => other,
        }
    }
}

/// Replaces detail field number `field` (component, stage, expected version,
/// detected version, path, target) of `d` with `value`.
pub open spec fn set_detail(d: ProvisioningErrorDetails, field: int, value: String) -> ProvisioningErrorDetails {
    if field == 0 {
        ProvisioningErrorDetails { component: Some(value), ..d }
    } else if field == 1 {
        ProvisioningErrorDetails { stage: Some(value), ..d }
    } else if field == 2 {
        ProvisioningErrorDetails { expected_version: Some(value), ..d }
    } else if field == 3 {
        ProvisioningErrorDetails { detected_version: Some(value), ..d }
    } else if field == 4 {
        ProvisioningErrorDetails { path: Some(value), ..d }
    } else {
        ProvisioningErrorDetails { target: Some(value), ..d }
    }
}

/// A provisioning error gains the detail; every other error is unchanged.
pub open spec fn with_detail(before: RavynError, after: RavynError, field: int, value: String) -> bool {
    match before {
        RavynError::Provisioning { code, message, details, retryable } => after == RavynError::Provisioning {
            code,
            message,
            details: set_detail(details, field, value),
            retryable,
        },
        _ => after == before,
    }
}

fn prefixed(prefix: &str, m: &String) -> (s: String)
    ensures
        s@ == prefix@ + m@,
{
    let mut s = String::from_str(prefix);
    s.append(m.as_str());
    s
}

} // verus!
