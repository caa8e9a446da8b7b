//! The job model: kinds, statuses, policies, options and the outputs a job
//! records, with the wire names each enum is known by.
use vstd::prelude::*;
use crate::lifecycle::TorrentOptions;

verus! {

#[derive(Debug, Clone, Copy, PartialEq, Eq, Structural)]
pub enum JobKind {
    Http,
    Media,
    Torrent,
}

impl JobKind {
    pub open spec fn spec_name(self) -> Seq<char> {
        match self {
            JobKind::Http => "http"@,
            JobKind::Media => "media"@,
            JobKind::Torrent => "torrent"@,
        }
    }

    /// The wire name (`snake_case`).
    pub fn name(self) -> (s: &'static str)
        ensures
            s@ == self.spec_name(),
    {
        match self {
            JobKind::Http => "http",
            JobKind::Media => "media",
            JobKind::Torrent => "torrent",
        }
    }
}

#[derive(Debug, Clone, Copy, PartialEq, Eq, Structural)]
pub enum JobStatus {
    Queued,
    Probing,
    Downloading,
    Paused,
    Verifying,
    PostProcessing,
    Seeding,
    Completed,
    Partial,
    Failed,
    Cancelled,
}

impl JobStatus {
    pub open spec fn spec_name(self) -> Seq<char> {
        match self {
            JobStatus::Queued => "queued"@,
            JobStatus::Probing => "probing"@,
            JobStatus::Downloading => "downloading"@,
            JobStatus::Paused => "paused"@,
            JobStatus::Verifying => "verifying"@,
            JobStatus::PostProcessing => "post_processing"@,
            JobStatus::Seeding => "seeding"@,
            JobStatus::Completed => "completed"@,
            JobStatus::Partial => "partial"@,
            JobStatus::Failed => "failed"@,
            JobStatus::Cancelled => "cancelled"@,
        }
    }

    /// The wire name (`snake_case`).
    pub fn name(self) -> (s: &'static str)
        ensures
            s@ == self.spec_name(),
    {
        match self {
            JobStatus::Queued => "queued",
            JobStatus::Probing => "probing",
            JobStatus::Downloading => "downloading",
            JobStatus::Paused => "paused",
            JobStatus::Verifying => "verifying",
            JobStatus::PostProcessing => "post_processing",
            JobStatus::Seeding => "seeding",
            JobStatus::Completed => "completed",
            JobStatus::Partial => "partial",
            JobStatus::Failed => "failed",
            JobStatus::Cancelled => "cancelled",
        }
    }
}

#[derive(Debug, Clone, Copy, PartialEq, Eq, Structural)]
pub enum DuplicatePolicy {
    Reject,
    ReuseExisting,
    Skip,
    Overwrite,
    Allow,
}

impl Default for DuplicatePolicy {
    fn default() -> (p: Self)
        ensures
            p == DuplicatePolicy::Allow,
    {
        DuplicatePolicy::Allow
    }
}

/// Options of a media (yt-dlp) job.
#[derive(Debug, Clone)]
pub struct MediaOptions {
    pub format: Option<String>,
    pub max_height: Option<u32>,
    pub audio_only: bool,
    pub audio_format: Option<String>,
    pub audio_quality: Option<String>,
    pub merge_output_format: Option<String>,
    pub playlist: bool,
    pub playlist_start: Option<u32>,
    pub playlist_end: Option<u32>,
    pub write_subtitles: bool,
    pub write_automatic_subtitles: bool,
    pub subtitle_languages: Vec<String>,
    pub embed_subtitles: bool,
    pub write_thumbnail: bool,
    pub embed_thumbnail: bool,
    pub write_info_json: bool,
    pub write_description: bool,
    pub embed_metadata: bool,
    pub sponsorblock_remove: Vec<String>,
    pub concurrent_fragments: Option<u16>,
    pub cookies_from_browser: Option<String>,
    pub cookies_file: Option<String>,
    pub output_template: Option<String>,
}

impl Default for MediaOptions {
    /// Best quality merged into Matroska, metadata embedded, four concurrent fragments.
    fn default() -> (m: Self)
        ensures
            m.format is None,
            m.max_height is None,
            !m.audio_only,
            m.audio_format is None,
            m.audio_quality is None,
            m.merge_output_format matches Some(f) && f@ == "mkv"@,
            !m.playlist,
            m.playlist_start is None,
            m.playlist_end is None,
            !m.write_subtitles,
            !m.write_automatic_subtitles,
            m.subtitle_languages@.len() == 0,
            !m.embed_subtitles,
            !m.write_thumbnail,
            !m.embed_thumbnail,
            !m.write_info_json,
            !m.write_description,
            m.embed_metadata,
            m.sponsorblock_remove@.len() == 0,
            m.concurrent_fragments == Some(4u16),
            m.cookies_from_browser is None,
            m.cookies_file is None,
            m.output_template is None,
    {
        MediaOptions {
            format: None,
            max_height: None,
            audio_only: false,
            audio_format: None,
            audio_quality: None,
            merge_output_format: Some(String::from_str("mkv")),
            playlist: false,
            playlist_start: None,
            playlist_end: None,
            write_subtitles: false,
            write_automatic_subtitles: false,
            subtitle_languages: Vec::new(),
            embed_subtitles: false,
            write_thumbnail: false,
            embed_thumbnail: false,
            write_info_json: false,
            write_description: false,
            embed_metadata: true,
            sponsorblock_remove: Vec::new(),
            concurrent_fragments: Some(4),
            cookies_from_browser: None,
            cookies_file: None,
            output_template: None,
        }
    }
}

/// Identity and piece layout imported from a Metalink v4 file.
#[derive(Debug, Clone)]
pub struct MetalinkMetadata {
    pub size: u64,
    pub piece_length: Option<u64>,
    pub piece_sha256: Vec<String>,
}

#[derive(Debug, Clone, Copy, PartialEq, Eq, Structural)]
pub enum FfmpegPreset {
    VideoCopy,
    VideoH264,
    VideoH265,
    VideoAv1,
    AudioMp3,
    AudioAac,
    AudioOpus,
    AudioFlac,
    ImageAvif,
    ImageWebp,
}

impl FfmpegPreset {
    pub open spec fn spec_name(self) -> Seq<char> {
        match self {
            FfmpegPreset::VideoCopy => "video-copy"@,
            FfmpegPreset::VideoH264 => "video-h264"@,
            FfmpegPreset::VideoH265 => "video-h265"@,
            FfmpegPreset::VideoAv1 => "video-av1"@,
            FfmpegPreset::AudioMp3 => "audio-mp3"@,
            FfmpegPreset::AudioAac => "audio-aac"@,
            FfmpegPreset::AudioOpus => "audio-opus"@,
            FfmpegPreset::AudioFlac => "audio-flac"@,
            FfmpegPreset::ImageAvif => "image-avif"@,
            FfmpegPreset::ImageWebp => "image-webp"@,
        }
    }

    /// The public name of the preset (`kebab-case`).
    pub fn name(self) -> (s: &'static str)
        ensures
            s@ == self.spec_name(),
    {
        match self {
            FfmpegPreset::VideoCopy => "video-copy",
            FfmpegPreset::VideoH264 => "video-h264",
            FfmpegPreset::VideoH265 => "video-h265",
            FfmpegPreset::VideoAv1 => "video-av1",
            FfmpegPreset::AudioMp3 => "audio-mp3",
            FfmpegPreset::AudioAac => "audio-aac",
            FfmpegPreset::AudioOpus => "audio-opus",
            FfmpegPreset::AudioFlac => "audio-flac",
            FfmpegPreset::ImageAvif => "image-avif",
            FfmpegPreset::ImageWebp => "image-webp",
        }
    }
}

/// An action run on a finished download; paths are held as text.
#[derive(Debug, Clone)]
pub enum PostAction {
    VerifySha256 { expected: String },
    Extract { destination: Option<String>, delete_archive: bool },
    ConvertMedia {
        extension: String,
        preset: Option<FfmpegPreset>,
        arguments: Vec<String>,
        unsafe_arguments: bool,
        delete_original: bool,
    },
    Move { destination: String },
    Open,
}

/// Per-job download options. Header and cookie maps are held as name/value
/// pairs in key order; secret references are UUIDs as `u128`.
#[derive(Debug, Clone)]
pub struct DownloadOptions {
    /// Alternate HTTP mirrors tried in order when the primary source fails.
    pub mirrors: Vec<String>,
    /// Verified identity and piece layout imported from a Metalink v4 file.
    pub metalink: Option<MetalinkMetadata>,
    pub headers: Vec<(String, String)>,
    pub cookies: Vec<(String, String)>,
    pub proxy: Option<String>,
    pub proxy_secret_id: Option<u128>,
    pub cookies_secret_id: Option<u128>,
    pub authentication_header_secret_id: Option<u128>,
    pub user_agent: Option<String>,
    pub referer: Option<String>,
    pub segments: Option<usize>,
    pub overwrite: bool,
    /// Set when the destination was chosen from the library layout.
    pub library_auto_destination: bool,
    /// Creates the job paused, before any worker can claim it.
    pub initially_paused: bool,
    pub tags: Vec<String>,
    pub post_actions: Vec<PostAction>,
    pub media: Option<MediaOptions>,
    pub torrent: Option<TorrentOptions>,
}

impl Default for DownloadOptions {
    /// Every list empty, every option unset, every flag off.
    fn default() -> (o: Self)
        ensures
            o.mirrors@.len() == 0,
            o.metalink is None,
            o.headers@.len() == 0,
            o.cookies@.len() == 0,
            o.proxy is None,
            o.proxy_secret_id is None,
            o.cookies_secret_id is None,
            o.authentication_header_secret_id is None,
            o.user_agent is None,
            o.referer is None,
            o.segments is None,
            !o.overwrite,
            !o.library_auto_destination,
            !o.initially_paused,
            o.tags@.len() == 0,
            o.post_actions@.len() == 0,
            o.media is None,
            o.torrent is None,
    {
        DownloadOptions {
            mirrors: Vec::new(),
            metalink: None,
            headers: Vec::new(),
            cookies: Vec::new(),
            proxy: None,
            proxy_secret_id: None,
            cookies_secret_id: None,
            authentication_header_secret_id: None,
            user_agent: None,
            referer: None,
            segments: None,
            overwrite: false,
            library_auto_destination: false,
            initially_paused: false,
            tags: Vec::new(),
            post_actions: Vec::new(),
            media: None,
            torrent: None,
        }
    }
}

/// `after` is `before` with its headers, cookies and proxy removed, and, for
/// a media job, its browser cookie source and cookie file removed; nothing
/// else differs.
pub open spec fn redacted(before: DownloadOptions, after: DownloadOptions) -> bool {
    &&& after.headers@.len() == 0
    &&& after.cookies@.len() == 0
    &&& after.proxy is None
    &&& after.mirrors == before.mirrors
    &&& after.metalink == before.metalink
    &&& after.proxy_secret_id == before.proxy_secret_id
    &&& after.cookies_secret_id == before.cookies_secret_id
    &&& after.authentication_header_secret_id == before.authentication_header_secret_id
    &&& after.user_agent == before.user_agent
    &&& after.referer == before.referer
    &&& after.segments == before.segments
    &&& after.overwrite == before.overwrite
    &&& after.library_auto_destination == before.library_auto_destination
    &&& after.initially_paused == before.initially_paused
    &&& after.tags == before.tags
    &&& after.post_actions == before.post_actions
    &&& after.torrent == before.torrent
    &&& match before.media {
        None => after.media is None,
        Some(m) => after.media == Some(MediaOptions {
            cookies_from_browser: None,
            cookies_file: None,
            ..m
        }),
    }
}

impl DownloadOptions {
    /// Removes what must not be stored or shown: request headers, cookies,
    /// the proxy address and a media job's cookie sources.
    pub fn redact_sensitive(&mut self)
        ensures
            redacted(*old(self), *final(self)),
    {
        self.headers.clear();
        self.cookies.clear();
        self.proxy = None;
        if let Some(media) = self.media.as_mut() {
            media.cookies_from_browser = None;
            media.cookies_file = None;
        }
    }
}

/// An edit of a queued job; `speed_limit_bps` is `None` to keep the limit
/// and `Some(None)` to remove it.
#[derive(Debug, Clone)]
pub struct UpdateJob {
    pub priority: Option<i32>,
    pub speed_limit_bps: Option<Option<u64>>,
    pub destination: Option<String>,
    pub filename: Option<String>,
    pub tags: Option<Vec<String>>,
}

/// A job's transfer progress; the job is named by its UUID as a `u128`.
#[derive(Debug, Clone, Copy, PartialEq, Eq, Structural)]
pub struct ProgressSnapshot {
    pub job_id: u128,
    pub downloaded_bytes: u64,
    pub total_bytes: Option<u64>,
    pub bytes_per_second: u64,
}

#[derive(Debug, Clone, Copy, PartialEq, Eq, Structural)]
pub enum OutputType {
    Primary,
    Video,
    Audio,
    Subtitle,
    Thumbnail,
    Metadata,
    TorrentFile,
    ExtractedFile,
    ConvertedFile,
    Archive,
    Directory,
    Temporary,
    Other,
}

impl OutputType {
    pub open spec fn spec_name(self) -> Seq<char> {
        match self {
            OutputType::Primary => "primary"@,
            OutputType::Video => "video"@,
            OutputType::Audio => "audio"@,
            OutputType::Subtitle => "subtitle"@,
            OutputType::Thumbnail => "thumbnail"@,
            OutputType::Metadata => "metadata"@,
            OutputType::TorrentFile => "torrent_file"@,
            OutputType::ExtractedFile => "extracted_file"@,
            OutputType::ConvertedFile => "converted_file"@,
            OutputType::Archive => "archive"@,
            OutputType::Directory => "directory"@,
            OutputType::Temporary => "temporary"@,
            OutputType::Other => "other"@,
        }
    }

    /// The wire name (`snake_case`).
    pub fn name(self) -> (s: &'static str)
        ensures
            s@ == self.spec_name(),
    {
        match self {
            OutputType::Primary => "primary",
            OutputType::Video => "video",
            OutputType::Audio => "audio",
            OutputType::Subtitle => "subtitle",
            OutputType::Thumbnail => "thumbnail",
            OutputType::Metadata => "metadata",
            OutputType::TorrentFile => "torrent_file",
            OutputType::ExtractedFile => "extracted_file",
            OutputType::ConvertedFile => "converted_file",
            OutputType::Archive => "archive",
            OutputType::Directory => "directory",
            OutputType::Temporary => "temporary",
            OutputType::Other => "other",
        }
    }
}

#[derive(Debug, Clone, Copy, PartialEq, Eq, Structural)]
pub enum OutputState {
    Planned,
    Creating,
    Ready,
    Failed,
    Deleted,
    Moved,
    Replaced,
}

#[derive(Debug, Clone, Copy, PartialEq, Eq, Structural)]
pub enum OutputSourceKind {
    Http,
    Media,
    Torrent,
    PostProcess,
}

} // verus!
