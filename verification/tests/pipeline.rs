use ravyn::pipeline::{check_cache_target, check_extracted_depth, check_extracted_entry, check_extraction_target, check_move, ExtractedEntry, TreeCount};
use ravyn::error::RavynError;
use ravyn::models::{FfmpegPreset, JobKind, OutputSourceKind, OutputType, PostAction};
use ravyn::pipeline::{
    archive_expansion_limit, check_listed_files, conversion_extension, conversion_output_limit,
    is_common_image, is_common_image_extension, output_source, output_type, output_type_for_extension,
    parse_archive_listing, post_action_name, preflight_listing, preset_arguments, preset_extension,
    retries_with_image_converter, validate_post_actions,
};
use ravyn::lifecycle::PathComponentKind;

const ALL_PRESETS: [FfmpegPreset; 10] = [
    FfmpegPreset::VideoCopy,
    FfmpegPreset::VideoH264,
    FfmpegPreset::VideoH265,
    FfmpegPreset::VideoAv1,
    FfmpegPreset::AudioMp3,
    FfmpegPreset::AudioAac,
    FfmpegPreset::AudioOpus,
    FfmpegPreset::AudioFlac,
    FfmpegPreset::ImageAvif,
    FfmpegPreset::ImageWebp,
];

#[test]
fn named_presets_expand_to_bounded_static_arguments() {
    for preset in ALL_PRESETS {
        let arguments = preset_arguments(preset);
        assert!(!arguments.is_empty());
        assert!(arguments.len() <= 8);
        assert!(!arguments.iter().any(|argument| argument.contains("://")));
    }
}

#[test]
fn preset_names_match_the_public_contract() {
    assert_eq!(FfmpegPreset::VideoH265.name(), "video-h265");
    assert_eq!(FfmpegPreset::ImageAvif.name(), "image-avif");
}

#[test]
fn preset_arguments_and_extensions() {
    assert_eq!(preset_arguments(FfmpegPreset::VideoCopy), vec!["-map", "0", "-c", "copy"]);
    assert_eq!(preset_arguments(FfmpegPreset::AudioFlac), vec!["-vn", "-c:a", "flac"]);
    assert_eq!(preset_extension(FfmpegPreset::VideoCopy), None);
    assert_eq!(preset_extension(FfmpegPreset::AudioAac), Some("m4a"));
}

#[test]
fn outputs_are_classified() {
    assert_eq!(output_type(JobKind::Http, "/d/a.mkv", true, false), OutputType::Primary);
    assert_eq!(output_type(JobKind::Torrent, "/d/t", true, true), OutputType::Directory);
    assert_eq!(output_type(JobKind::Torrent, "/d/t.iso", false, false), OutputType::TorrentFile);
    assert_eq!(output_type(JobKind::Media, "/d/a.MKV", false, false), OutputType::Video);
    assert_eq!(output_type(JobKind::Media, "/d/a.en.vtt", false, false), OutputType::Subtitle);
    assert_eq!(output_type(JobKind::Media, "/d/noext", false, false), OutputType::Other);
    assert_eq!(output_type_for_extension(Some("FLAC")), OutputType::Audio);
    assert_eq!(output_type_for_extension(Some("description")), OutputType::Metadata);
    assert_eq!(output_type_for_extension(Some("7z")), OutputType::Archive);
    assert_eq!(output_type_for_extension(None), OutputType::Other);
    assert_eq!(output_source(JobKind::Torrent), OutputSourceKind::Torrent);
    assert!(is_common_image("/p/photo.JPEG"));
    assert!(!is_common_image("/p/movie.mkv"));
    assert!(is_common_image("scan.tiff"));
    assert!(!is_common_image(".png"));
    assert!(!is_common_image("photo.png.txt"));
    assert!(!is_common_image("png"));
    assert!(is_common_image_extension(Some("TiFf")));
    assert!(!is_common_image_extension(None));
    assert_eq!(post_action_name(&PostAction::Open), "open");
    assert_eq!(post_action_name(&PostAction::VerifySha256 { expected: String::new() }), "verify_sha256");
}

#[test]
fn conversion_extensions_and_fallback() {
    assert_eq!(conversion_extension("..mp4").err().map(|e| matches!(e, RavynError::Invalid(_))), Some(true));
    assert_eq!(conversion_extension(".mp4").unwrap(), "mp4");
    assert!(conversion_extension("a/b").is_err());
    assert!(retries_with_image_converter(".AVIF", true, false));
    assert!(!retries_with_image_converter("avif", true, true));
    assert!(!retries_with_image_converter("webp", true, false));
}

fn convert(extension: &str, preset: Option<FfmpegPreset>, arguments: Vec<String>, unsafe_arguments: bool) -> PostAction {
    PostAction::ConvertMedia {
        extension: extension.to_string(),
        preset,
        arguments,
        unsafe_arguments,
        delete_original: false,
    }
}

fn invalid(result: Result<(), RavynError>) -> String {
    match result {
        Err(RavynError::Invalid(m)) => m,
        other => panic!("expected an invalid-request error, got {other:?}"),
    }
}

#[test]
fn post_actions_are_validated() {
    assert!(validate_post_actions(&[convert("mp4", Some(FfmpegPreset::VideoH264), vec![], false)], false).is_ok());
    assert_eq!(
        invalid(validate_post_actions(&[convert("mkv", Some(FfmpegPreset::VideoH264), vec![], false)], false)),
        "the selected FFmpeg preset requires the .mp4 extension"
    );
    assert_eq!(
        invalid(validate_post_actions(&[convert("mp4", Some(FfmpegPreset::VideoH264), vec!["-y".into()], false)], false)),
        "named FFmpeg presets may not include arbitrary arguments"
    );
    assert_eq!(
        invalid(validate_post_actions(&[convert("mp4", None, vec!["-y".into()], true)], false)),
        "conversion requires a named preset; arbitrary arguments require both unsafe_arguments=true and --allow-unsafe-ffmpeg"
    );
    assert!(validate_post_actions(&[convert("mp4", None, vec!["-y".into()], true)], true).is_ok());
    assert_eq!(
        invalid(validate_post_actions(&[convert("...", None, vec![], true)], true)),
        "conversion extensions must contain 1 to 16 path-safe characters"
    );
    assert_eq!(
        invalid(validate_post_actions(&[convert("mp4", None, vec!["a".repeat(4097)], true)], true)),
        "conversion arguments exceed the configured safety limits"
    );
    let many: Vec<PostAction> = (0..33).map(|_| PostAction::Open).collect();
    assert_eq!(invalid(validate_post_actions(&many, true)), "a job may contain at most 32 post-processing actions");
}

#[test]
fn size_limits() {
    assert_eq!(archive_expansion_limit(1, 100, 10), 1000);
    assert_eq!(archive_expansion_limit(1, 1 << 30, 10), 1024 * 1024);
    assert_eq!(archive_expansion_limit(u64::MAX, 0, 3), 3);
    assert_eq!(conversion_output_limit(0), 1 << 30);
    assert_eq!(conversion_output_limit(1 << 30), 32 << 30);
    assert_eq!(conversion_output_limit(u64::MAX), u64::MAX);
}

const LISTING: &str = "7-Zip 23.01\r\n\r\nListing archive: a.7z\r\n--\r\nPath = a.7z\r\nType = 7z\r\n\r\n----------\r\nPath = dir\r\nFolder = +\r\n\r\nPath = dir/file.txt\r\nSize = 120\r\nFolder = -\r\n\r\nPath = top.bin\r\nSize = 30\r\n";

#[test]
fn listings_are_parsed_into_file_entries() {
    let files = parse_archive_listing(LISTING);
    assert_eq!(files.len(), 2);
    assert_eq!(files[0].path, "dir/file.txt");
    assert_eq!(files[0].size, Some(120));
    assert_eq!(files[1].path, "top.bin");
    assert_eq!(files[1].size, Some(30));
    assert!(preflight_listing(LISTING, 4, 10, 1000).is_ok());
    assert!(matches!(
        preflight_listing(LISTING, 4, 1, 1000),
        Err(RavynError::Invalid(m)) if m == "archive contains more than 1 files"
    ));
    assert!(matches!(
        preflight_listing(LISTING, 4, 10, 100),
        Err(RavynError::Invalid(m)) if m == "archive expands beyond the configured size or compression-ratio limit (100 bytes)"
    ));
    assert!(matches!(
        preflight_listing(LISTING, 0, 10, 1000),
        Err(RavynError::Invalid(m)) if m == "archive exceeds the maximum extraction depth of 0"
    ));
    let evil = "----------\nPath = ../escape\nSize = 1\n";
    assert!(matches!(
        preflight_listing(evil, 4, 10, 1000),
        Err(RavynError::Invalid(m)) if m == "archive contains an unsafe path: ../escape"
    ));
}

#[test]
fn listed_files_are_checked_in_order() {
    let files = parse_archive_listing("----------\nPath = a/b/c/d\nSize = 1\n");
    let kinds = vec![vec![PathComponentKind::Normal; 4]];
    assert!(matches!(
        check_listed_files(&files, &kinds, 2, 10, 10),
        Err(RavynError::Invalid(m)) if m == "archive exceeds the maximum extraction depth of 2"
    ));
    assert!(check_listed_files(&files, &kinds, 3, 10, 10).is_ok());
}

fn entry(display: &str, is_file: bool, is_dir: bool, is_symlink: bool, inside_root: bool, len: u64) -> ExtractedEntry {
    ExtractedEntry { display: display.to_string(), is_symlink, is_file, is_dir, inside_root, len }
}

#[test]
fn extracted_trees_are_checked_entry_by_entry() {
    let start = TreeCount { files: 0, bytes: 0 };
    let count = check_extracted_entry(start, &entry("a.txt", true, false, false, true, 10), 2, 100).unwrap();
    assert_eq!(count, TreeCount { files: 1, bytes: 10 });
    assert_eq!(check_extracted_entry(count, &entry("d", false, true, false, true, 0), 2, 100).unwrap(), count);
    assert!(matches!(
        check_extracted_entry(count, &entry("l", false, false, true, true, 0), 2, 100),
        Err(RavynError::Invalid(m)) if m == "archive contains a link or special file: l"
    ));
    assert!(matches!(
        check_extracted_entry(count, &entry("x", true, false, false, false, 0), 2, 100),
        Err(RavynError::Invalid(m)) if m == "archive entry escaped the staging directory: x"
    ));
    assert!(matches!(
        check_extracted_entry(count, &entry("b", true, false, false, true, 91), 2, 100),
        Err(RavynError::Invalid(m)) if m == "archive expands beyond the configured size or compression-ratio limit (100 bytes)"
    ));
    let two = check_extracted_entry(count, &entry("b", true, false, false, true, 1), 2, 100).unwrap();
    assert!(matches!(
        check_extracted_entry(two, &entry("c", true, false, false, true, 1), 2, 100),
        Err(RavynError::Invalid(m)) if m == "archive contains more than 2 files"
    ));
    assert!(check_extracted_depth(3, 3).is_ok());
    assert!(check_extracted_depth(4, 3).is_err());
    assert!(check_extraction_target(false, "/t").is_ok());
    assert!(matches!(
        check_extraction_target(true, "/t"),
        Err(RavynError::Conflict(m)) if m == "extraction destination /t already exists"
    ));
}

#[test]
fn moves_and_cache_copies_never_replace() {
    assert!(check_move(true, false, "/d").is_ok());
    assert!(matches!(check_move(false, false, "/d"), Err(RavynError::Invalid(m)) if m == "move source must be a regular file"));
    assert!(matches!(check_move(true, true, "/d"), Err(RavynError::Conflict(m)) if m == "move destination already exists: /d"));
    assert!(check_cache_target(false, false, false, "/c").is_ok());
    assert!(check_cache_target(true, true, false, "/c").is_ok());
    assert!(matches!(check_cache_target(true, false, false, "/c"), Err(RavynError::Conflict(m)) if m == "cache target already exists: /c"));
    assert!(matches!(check_cache_target(true, true, true, "/c"), Err(RavynError::Conflict(m)) if m == "cache target is a directory: /c"));
}
