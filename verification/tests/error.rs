use ravyn::error::{FailureClass, IoErrorKind, ProvisioningErrorCode, RavynError};

#[test]
fn failure_classes_follow_the_error() {
    assert_eq!(RavynError::Invalid("x".into()).failure_class(), FailureClass::PermanentClient);
    assert_eq!(RavynError::Unavailable("x".into()).failure_class(), FailureClass::RetryableHttp);
    assert_eq!(RavynError::Cancelled.failure_class(), FailureClass::Cancellation);
    assert_eq!(RavynError::Process("x".into()).failure_class(), FailureClass::ExternalTool);
    assert_eq!(
        RavynError::Protocol("SHA-256 mismatch: expected a, got b".into()).failure_class(),
        FailureClass::ChecksumMismatch
    );
    assert_eq!(
        RavynError::Protocol("invalid Content-Range: bytes".into()).failure_class(),
        FailureClass::MalformedRange
    );
    assert_eq!(
        RavynError::Protocol("download request returned 503 Service Unavailable".into()).failure_class(),
        FailureClass::RetryableHttp
    );
    assert_eq!(
        RavynError::Protocol("download request returned 404 Not Found".into()).failure_class(),
        FailureClass::PermanentClient
    );
    let disk_full = RavynError::Io { kind: IoErrorKind::Other, raw_os_error: Some(28), message: "no space".into() };
    assert_eq!(disk_full.failure_class(), FailureClass::DiskFull);
    let denied = RavynError::Io { kind: IoErrorKind::PermissionDenied, raw_os_error: None, message: "denied".into() };
    assert_eq!(denied.failure_class(), FailureClass::Permission);
    assert_eq!(denied.api_code(), "FILESYSTEM_PERMISSION_DENIED");
    let reset = RavynError::Io { kind: IoErrorKind::BrokenPipe, raw_os_error: None, message: "pipe".into() };
    assert_eq!(reset.failure_class(), FailureClass::ConnectionReset);
    assert!(reset.retryable());
    let timeout = RavynError::Http { timeout: true, connect: false, message: "timed out".into() };
    assert_eq!(timeout.failure_class(), FailureClass::Timeout);
    assert_eq!(timeout.api_code(), "REMOTE_TIMEOUT");
    assert!(FailureClass::Timeout.penalizes_host());
    assert!(!FailureClass::Permission.penalizes_host());
}

#[test]
fn messages_and_statuses() {
    assert_eq!(RavynError::Invalid("bad".into()).to_text(), "invalid request: bad");
    assert_eq!(RavynError::Cancelled.to_text(), "operation was cancelled");
    assert_eq!(RavynError::Internal("password leaked".into()).public_message(), "An internal backend error occurred.");
    assert_eq!(RavynError::Conflict("busy".into()).public_message(), "conflict: busy");
    assert_eq!(RavynError::NotFound("job".into()).http_status(), 404);
    assert_eq!(RavynError::Protocol("x".into()).http_status(), 502);
    assert_eq!(RavynError::Cancelled.api_code(), "STATE_CONFLICT");
}

#[test]
fn provisioning_errors_carry_code_and_details() {
    let error = RavynError::provisioning(
        ProvisioningErrorCode::ChecksumMismatch,
        "managed engine checksum verification failed".into(),
    )
    .with_component("ffmpeg".into())
    .with_stage("install".into())
    .with_expected_version("7.1.0".into())
    .with_detected_version("7.0.0".into());
    assert_eq!(error.api_code(), "PROVISIONING_CHECKSUM_MISMATCH");
    assert_eq!(error.http_status(), 502);
    assert!(!error.retryable());
    assert_eq!(error.failure_class(), FailureClass::ChecksumMismatch);
    assert_eq!(error.public_message(), "managed engine checksum verification failed");
    let details = match &error {
        RavynError::Provisioning { details, .. } => details.clone(),
        _ => panic!("expected a provisioning error"),
    };
    assert_eq!(details.component.as_deref(), Some("ffmpeg"));
    assert_eq!(details.stage.as_deref(), Some("install"));
    assert_eq!(details.expected_version.as_deref(), Some("7.1.0"));
    assert_eq!(details.detected_version.as_deref(), Some("7.0.0"));
    let retryable = RavynError::provisioning(ProvisioningErrorCode::DownloadInterrupted, "retry".into());
    assert!(retryable.retryable());
    assert_eq!(ProvisioningErrorCode::InsufficientSpace.status(), 507);
    assert_eq!(ProvisioningErrorCode::QuarantinedByAntivirus.as_str(), "PROVISIONING_QUARANTINED");
    // Detail builders leave other errors unchanged.
    let plain = RavynError::Invalid("x".into()).with_path("/p".into());
    assert!(matches!(plain, RavynError::Invalid(m) if m == "x"));
}

#[test]
fn detail_builders_set_their_field() {
    let error = RavynError::provisioning(ProvisioningErrorCode::InvalidCustomPath, "bad path".into())
        .with_path("/opt/x".into())
        .with_target("ffmpeg".into());
    match error {
        RavynError::Provisioning { details, .. } => {
            assert_eq!(details.path.as_deref(), Some("/opt/x"));
            assert_eq!(details.target.as_deref(), Some("ffmpeg"));
            assert_eq!(details.component, None);
        }
        _ => panic!("expected a provisioning error"),
    }
}
