use ravyn::models::{DownloadOptions, DuplicatePolicy, JobKind, JobStatus, MediaOptions, OutputType};
use ravyn::lifecycle::TorrentOptions;

#[test]
fn wire_names() {
    assert_eq!(JobKind::Media.name(), "media");
    assert_eq!(JobStatus::PostProcessing.name(), "post_processing");
    assert_eq!(OutputType::TorrentFile.name(), "torrent_file");
}

#[test]
fn defaults() {
    assert_eq!(DuplicatePolicy::default(), DuplicatePolicy::Allow);
    let media = MediaOptions::default();
    assert_eq!(media.merge_output_format.as_deref(), Some("mkv"));
    assert_eq!(media.concurrent_fragments, Some(4));
    assert!(media.embed_metadata);
    assert!(!media.audio_only);
    let torrent = TorrentOptions::default();
    assert!(torrent.keep_managed);
    assert!(torrent.seed_after_download);
    assert_eq!(torrent.poll_interval_ms, 1_000);
}

#[test]
fn redaction_removes_credentials_and_keeps_the_rest() {
    let mut options = DownloadOptions::default();
    options.headers.push(("Authorization".to_string(), "Bearer x".to_string()));
    options.cookies.push(("sid".to_string(), "1".to_string()));
    options.proxy = Some("http://proxy:8080".to_string());
    options.user_agent = Some("agent".to_string());
    options.mirrors.push("https://mirror.example/file".to_string());
    let mut media = MediaOptions::default();
    media.cookies_from_browser = Some("firefox".to_string());
    media.cookies_file = Some("/tmp/cookies.txt".to_string());
    media.format = Some("best".to_string());
    options.media = Some(media);
    options.redact_sensitive();
    assert!(options.headers.is_empty());
    assert!(options.cookies.is_empty());
    assert!(options.proxy.is_none());
    assert_eq!(options.user_agent.as_deref(), Some("agent"));
    assert_eq!(options.mirrors.len(), 1);
    let media = options.media.unwrap();
    assert!(media.cookies_from_browser.is_none());
    assert!(media.cookies_file.is_none());
    assert_eq!(media.format.as_deref(), Some("best"));
}
