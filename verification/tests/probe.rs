use ravyn::error::RavynError;
use ravyn::probe::{after_head, after_range, header_u64, parse_total_length, HeadStep, ProbeResponse, ProbeResult};

fn response(status: u16) -> ProbeResponse {
    ProbeResponse {
        status,
        status_text: format!("{status} Status"),
        url: "https://example.com/f.bin".to_string(),
        location: None,
        content_length: None,
        accept_ranges: None,
        content_range: None,
        content_type: Some("application/octet-stream".to_string()),
        content_disposition: None,
        etag: Some("\"v1\"".to_string()),
        last_modified: None,
    }
}

#[test]
fn total_length_comes_after_the_last_slash() {
    assert_eq!(parse_total_length(Some("bytes 0-0/1234")).unwrap(), 1234);
    assert!(matches!(
        parse_total_length(Some("bytes 0-0/*")),
        Err(RavynError::Protocol(m)) if m == "invalid Content-Range: bytes 0-0/*"
    ));
    assert!(matches!(
        parse_total_length(None),
        Err(RavynError::Protocol(m)) if m == "missing Content-Range"
    ));
    assert_eq!(parse_total_length(Some("77")).unwrap(), 77);
    assert_eq!(header_u64(Some("42")), Some(42));
    assert_eq!(header_u64(Some("4 2")), None);
}

#[test]
fn head_with_byte_ranges_ends_the_probe() {
    let mut head = response(200);
    head.content_length = Some("100".into());
    head.accept_ranges = Some("Bytes".into());
    match after_head(Some(head)) {
        HeadStep::Done(Ok(ProbeResult::Metadata(m))) => {
            assert_eq!(m.length, Some(100));
            assert!(m.range_supported);
            assert_eq!(m.final_url, "https://example.com/f.bin");
            assert_eq!(m.etag.as_deref(), Some("\"v1\""));
        }
        _ => panic!("expected metadata"),
    }
}

#[test]
fn head_without_ranges_falls_back_to_a_ranged_get() {
    let mut head = response(200);
    head.content_length = Some("100".into());
    let kept = match after_head(Some(head)) {
        HeadStep::TryRange(Some(m)) => m,
        _ => panic!("expected a ranged probe"),
    };
    assert!(!kept.range_supported);
    assert!(matches!(after_head(Some(response(405))), HeadStep::TryRange(None)));
    assert!(matches!(after_head(None), HeadStep::TryRange(None)));

    let mut partial = response(206);
    partial.content_range = Some("bytes 0-0/100".into());
    match after_range(Some(kept.clone()), Ok(partial)) {
        Ok(ProbeResult::Metadata(m)) => {
            assert_eq!(m.length, Some(100));
            assert!(m.range_supported);
        }
        _ => panic!("expected metadata"),
    }
    match after_range(Some(kept.clone()), Ok(response(200))) {
        Ok(ProbeResult::Metadata(m)) => {
            assert_eq!(m.length, Some(100));
            assert!(!m.range_supported);
        }
        _ => panic!("expected metadata"),
    }
    match after_range(Some(kept), Err(RavynError::Cancelled)) {
        Ok(ProbeResult::Metadata(m)) => assert_eq!(m.length, Some(100)),
        _ => panic!("expected the HEAD metadata"),
    }
}

#[test]
fn redirects_and_failures() {
    let mut redirect = response(302);
    redirect.location = Some("/next".into());
    assert!(matches!(after_head(Some(redirect)), HeadStep::Done(Ok(ProbeResult::Redirect(l))) if l == "/next"));
    assert!(matches!(
        after_head(Some(response(301))),
        HeadStep::Done(Err(RavynError::Protocol(m))) if m == "redirect response omitted Location"
    ));
    assert!(matches!(
        after_range(None, Ok(response(404))),
        Err(RavynError::Protocol(m)) if m == "probe returned 404 Status"
    ));
    assert!(matches!(after_range(None, Err(RavynError::Cancelled)), Err(RavynError::Cancelled)));
}
