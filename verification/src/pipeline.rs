//! Post-processing rules: FFmpeg presets and their arguments, how outputs
//! are classified, which post-actions a job may carry, the size limits of
//! extraction and conversion, and the 7-Zip listing check that runs before
//! an archive is extracted.
use vstd::prelude::*;
use crate::error::RavynError;
use crate::lifecycle::{normal_components, path_component_kinds, portable_path, simple_name, split_agrees, PathComponentKind};
use crate::models::{FfmpegPreset, JobKind, OutputSourceKind, OutputType, PostAction};
use crate::text::{
    chars_eq_ignore_ascii_case, chars_of, contains, contains_seq, dec, eq_ignore_ascii_case,
    lower_seq, lowercase_ascii, parse_u64, parse_u64_chars, push_decimal, split_chars, split_on,
    strip_prefix, strip_prefix_chars, string_of, trim, trim_chars, trim_end, trim_end_chars,
    utf8_len, utf8_length, strip_start_count,
};

verus! {

// ---------------------------------------------------------------------------
// Presets
// ---------------------------------------------------------------------------

pub open spec fn spec_preset_arguments(preset: FfmpegPreset) -> Seq<Seq<char>> {
    match preset {
        FfmpegPreset::VideoCopy => seq!["-map"@, "0"@, "-c"@, "copy"@],
        FfmpegPreset::VideoH264 => seq!["-c:v"@, "libx264"@, "-c:a"@, "aac"@],
        FfmpegPreset::VideoH265 => seq!["-c:v"@, "libx265"@, "-c:a"@, "aac"@],
        FfmpegPreset::VideoAv1 => seq!["-c:v"@, "libaom-av1"@, "-c:a"@, "libopus"@],
        FfmpegPreset::AudioMp3 => seq!["-vn"@, "-c:a"@, "libmp3lame"@],
        FfmpegPreset::AudioAac => seq!["-vn"@, "-c:a"@, "aac"@],
        FfmpegPreset::AudioOpus => seq!["-vn"@, "-c:a"@, "libopus"@],
        FfmpegPreset::AudioFlac => seq!["-vn"@, "-c:a"@, "flac"@],
        FfmpegPreset::ImageAvif => seq!["-frames:v"@, "1"@, "-c:v"@, "libaom-av1"@],
        FfmpegPreset::ImageWebp => seq!["-frames:v"@, "1"@, "-c:v"@, "libwebp"@],
    }
}

pub open spec fn str_views(v: Seq<&'static str>) -> Seq<Seq<char>> {
    v.map_values(|s: &'static str| s@)
}

/// The fixed FFmpeg arguments a named preset expands to.
pub fn preset_arguments(preset: FfmpegPreset) -> (args: Vec<&'static str>)
    ensures
        str_views(args@) == spec_preset_arguments(preset),
{
    let args = match preset {
        FfmpegPreset::VideoCopy => vec!["-map", "0", "-c", "copy"],
        FfmpegPreset::VideoH264 => vec!["-c:v", "libx264", "-c:a", "aac"],
        FfmpegPreset::VideoH265 => vec!["-c:v", "libx265", "-c:a", "aac"],
        FfmpegPreset::VideoAv1 => vec!["-c:v", "libaom-av1", "-c:a", "libopus"],
        FfmpegPreset::AudioMp3 => vec!["-vn", "-c:a", "libmp3lame"],
        FfmpegPreset::AudioAac => vec!["-vn", "-c:a", "aac"],
        FfmpegPreset::AudioOpus => vec!["-vn", "-c:a", "libopus"],
        FfmpegPreset::AudioFlac => vec!["-vn", "-c:a", "flac"],
        FfmpegPreset::ImageAvif => vec!["-frames:v", "1", "-c:v", "libaom-av1"],
        FfmpegPreset::ImageWebp => vec!["-frames:v", "1", "-c:v", "libwebp"],
    };
    proof {
        assert(str_views(args@) =~= spec_preset_arguments(preset));
    }
    args
}

/// Every preset expands to between one and eight arguments, none of which
/// holds a `/` (so none names a URL).
pub proof fn lemma_presets_are_bounded(preset: FfmpegPreset)
    ensures
        1 <= spec_preset_arguments(preset).len() <= 8,
        forall|i: int| 0 <= i < spec_preset_arguments(preset).len() ==> !(#[trigger] spec_preset_arguments(preset)[i]).contains('/'),
{
    reveal_strlit("-map");
    reveal_strlit("0");
    reveal_strlit("-c");
    reveal_strlit("copy");
    reveal_strlit("-c:v");
    reveal_strlit("libx264");
    reveal_strlit("-c:a");
    reveal_strlit("aac");
    reveal_strlit("libx265");
    reveal_strlit("libaom-av1");
    reveal_strlit("libopus");
    reveal_strlit("-vn");
    reveal_strlit("libmp3lame");
    reveal_strlit("flac");
    reveal_strlit("-frames:v");
    reveal_strlit("1");
    reveal_strlit("libwebp");
}

/// The extension a preset's output must carry; stream copy keeps any.
pub open spec fn spec_preset_extension(preset: FfmpegPreset) -> Option<Seq<char>> {
    match preset {
        FfmpegPreset::VideoCopy => None,
        FfmpegPreset::VideoH264 => Some("mp4"@),
        FfmpegPreset::VideoH265 => Some("mp4"@),
        FfmpegPreset::VideoAv1 => Some("mkv"@),
        FfmpegPreset::AudioMp3 => Some("mp3"@),
        FfmpegPreset::AudioAac => Some("m4a"@),
        FfmpegPreset::AudioOpus => Some("opus"@),
        FfmpegPreset::AudioFlac => Some("flac"@),
        FfmpegPreset::ImageAvif => Some("avif"@),
        FfmpegPreset::ImageWebp => Some("webp"@),
    }
}

pub fn preset_extension(preset: FfmpegPreset) -> (e: Option<&'static str>)
    ensures
        match e {
            Some(x) => spec_preset_extension(preset) == Some(x@),
            None => spec_preset_extension(preset) is None,
        },
{
    match preset {
        FfmpegPreset::VideoCopy => None,
        FfmpegPreset::VideoH264 => Some("mp4"),
        FfmpegPreset::VideoH265 => Some("mp4"),
        FfmpegPreset::VideoAv1 => Some("mkv"),
        FfmpegPreset::AudioMp3 => Some("mp3"),
        FfmpegPreset::AudioAac => Some("m4a"),
        FfmpegPreset::AudioOpus => Some("opus"),
        FfmpegPreset::AudioFlac => Some("flac"),
        FfmpegPreset::ImageAvif => Some("avif"),
        FfmpegPreset::ImageWebp => Some("webp"),
    }
}

pub open spec fn spec_post_action_name(action: PostAction) -> Seq<char> {
    match action {
        PostAction::VerifySha256 { .. } => "verify_sha256"@,
        PostAction::Extract { .. } => "extract"@,
        PostAction::ConvertMedia { .. } => "convert_media"@,
        PostAction::Move { .. } => "move"@,
        PostAction::Open => "open"@,
    }
}

/// The name a post-action is reported under.
pub fn post_action_name(action: &PostAction) -> (s: &'static str)
    ensures
        s@ == spec_post_action_name(*action),
{
    match action {
        PostAction::VerifySha256 { .. } => "verify_sha256",
        PostAction::Extract { .. } => "extract",
        PostAction::ConvertMedia { .. } => "convert_media",
        PostAction::Move { .. } => "move",
        PostAction::Open => "open",
    }
}

// ---------------------------------------------------------------------------
// Outputs
// ---------------------------------------------------------------------------

pub fn output_source(kind: JobKind) -> (s: OutputSourceKind)
    ensures
        s == match kind {
            JobKind::Http => OutputSourceKind::Http,
            JobKind::Media => OutputSourceKind::Media,
            JobKind::Torrent => OutputSourceKind::Torrent,
        },
{
    match kind {
        JobKind::Http => OutputSourceKind::Http,
        JobKind::Media => OutputSourceKind::Media,
        JobKind::Torrent => OutputSourceKind::Torrent,
    }
}

/// The index of the last `c` in `s`, or -1 where there is none.
pub open spec fn last_index_of(s: Seq<char>, c: char) -> int
    decreases s.len(),
{
    if s.len() == 0 {
        -1
    } else if s.last() == c {
        s.len() - 1
    } else {
        last_index_of(s.drop_last(), c)
    }
}

/// The extension of a file name as `Path::extension` documents it: none
/// where the name has no `.` or only a leading one, else what follows the
/// last `.`.
pub open spec fn file_name_extension(name: Seq<char>) -> Option<Seq<char>> {
    let k = last_index_of(name, '.');
    if k <= 0 {
        None
    } else {
        Some(name.subrange(k + 1, name.len() as int))
    }
}

/// `std::path::Path::extension` of a path given as text. Where the file
/// name ends depends on the platform's separators and prefixes, so the
/// extension is stated exactly only where every platform agrees on the file
/// name: a simple name is its own file name, and a portable path's file
/// name is its last name. On every path: the extension is part of
/// the file name after its last `.`, so a path without `.` has none, and an
/// extension holds no `.`. What a path with separators gives is left unsaid.
#[verifier::external_body]
pub(crate) fn path_extension(path: &str) -> (e: Option<String>)
    ensures
        !path@.contains('.') ==> e is None,
        e matches Some(x) ==> !x@.contains('.'),
        simple_name(path@) ==> (match e {
            Some(x) => Some(x@),
            None => None,
        }) == file_name_extension(path@),
        forall|lead: Seq<PathComponentKind>, names: Seq<Seq<char>>|
            #[trigger] portable_path(path@, lead, names) ==> (match e {
                Some(x) => Some(x@),
                None => None,
            }) == file_name_extension(names.last()),
{
    std::path::Path::new(path).extension().and_then(|value| value.to_str()).map(str::to_owned)
}

pub open spec fn one_of(x: Seq<char>, names: Seq<Seq<char>>) -> bool {
    exists|i: int| 0 <= i < names.len() && names[i] == x
}

/// What an output with a given (lower-cased) extension holds.
pub open spec fn spec_extension_type(ext: Seq<char>) -> OutputType {
    if one_of(ext, seq!["mp4"@, "mkv"@, "webm"@, "mov"@, "avi"@]) {
        OutputType::Video
    } else if one_of(ext, seq!["mp3"@, "m4a"@, "aac"@, "flac"@, "opus"@, "wav"@]) {
        OutputType::Audio
    } else if one_of(ext, seq!["srt"@, "vtt"@, "ass"@, "lrc"@]) {
        OutputType::Subtitle
    } else if one_of(ext, seq!["jpg"@, "jpeg"@, "png"@, "webp"@, "avif"@]) {
        OutputType::Thumbnail
    } else if one_of(ext, seq!["json"@, "description"@]) {
        OutputType::Metadata
    } else if one_of(ext, seq!["zip"@, "7z"@, "rar"@, "tar"@, "gz"@, "bz2"@, "xz"@]) {
        OutputType::Archive
    } else {
        OutputType::Other
    }
}

fn is_one_of(x: &[char], names: &Vec<&'static str>) -> (b: bool)
    ensures
        b == one_of(x@, str_views(names@)),
{
    let mut i: usize = 0;
    while i < names.len()
        invariant
            i <= names@.len(),
            forall|j: int| 0 <= j < i ==> str_views(names@)[j] != x@,
        decreases names@.len() - i,
    {
        let candidate = chars_of(names[i]);
        if crate::text::chars_equal(x, candidate.as_slice()) {
            proof {
                assert(str_views(names@)[i as int] == x@);
            }
            return true;
        }
        i = i + 1;
    }
    false
}

/// Classifies an output by its extension, ignoring ASCII case; `None` is no extension.
pub fn output_type_for_extension(extension: Option<&str>) -> (t: OutputType)
    ensures
        t == spec_extension_type(match extension {
            Some(e) => lower_seq(e@),
            None => Seq::empty(),
        }),
{
    let lower = match extension {
        Some(e) => {
            let chars = chars_of(e);
            lowercase_ascii(chars.as_slice())
        },
        None => Vec::new(),
    };
    let x = lower.as_slice();
    let video = vec!["mp4", "mkv", "webm", "mov", "avi"];
    let audio = vec!["mp3", "m4a", "aac", "flac", "opus", "wav"];
    let subtitle = vec!["srt", "vtt", "ass", "lrc"];
    let thumbnail = vec!["jpg", "jpeg", "png", "webp", "avif"];
    let metadata = vec!["json", "description"];
    let archive = vec!["zip", "7z", "rar", "tar", "gz", "bz2", "xz"];
    proof {
        assert(str_views(video@) =~= seq!["mp4"@, "mkv"@, "webm"@, "mov"@, "avi"@]);
        assert(str_views(audio@) =~= seq!["mp3"@, "m4a"@, "aac"@, "flac"@, "opus"@, "wav"@]);
        assert(str_views(subtitle@) =~= seq!["srt"@, "vtt"@, "ass"@, "lrc"@]);
        assert(str_views(thumbnail@) =~= seq!["jpg"@, "jpeg"@, "png"@, "webp"@, "avif"@]);
        assert(str_views(metadata@) =~= seq!["json"@, "description"@]);
        assert(str_views(archive@) =~= seq!["zip"@, "7z"@, "rar"@, "tar"@, "gz"@, "bz2"@, "xz"@]);
    }
    if is_one_of(x, &video) {
        OutputType::Video
    } else if is_one_of(x, &audio) {
        OutputType::Audio
    } else if is_one_of(x, &subtitle) {
        OutputType::Subtitle
    } else if is_one_of(x, &thumbnail) {
        OutputType::Thumbnail
    } else if is_one_of(x, &metadata) {
        OutputType::Metadata
    } else if is_one_of(x, &archive) {
        OutputType::Archive
    } else {
        OutputType::Other
    }
}

/// The type recorded for an output: a non-torrent primary output is the
/// primary; a torrent's output is its directory or its file; anything else
/// goes by its extension.
pub fn output_type(kind: JobKind, path: &str, primary: bool, is_dir: bool) -> (t: OutputType)
    ensures
        primary && kind != JobKind::Torrent ==> t == OutputType::Primary,
        kind == JobKind::Torrent ==> t == if is_dir { OutputType::Directory } else { OutputType::TorrentFile },
        !primary && kind != JobKind::Torrent ==> exists|e: Seq<char>| t == spec_extension_type(e),
        forall|lead: Seq<PathComponentKind>, names: Seq<Seq<char>>|
            !primary && kind != JobKind::Torrent && #[trigger] portable_path(path@, lead, names) ==> t
                == spec_extension_type(match file_name_extension(names.last()) {
                Some(x) => lower_seq(x),
                None => Seq::empty(),
            }),
{
    if primary && kind != JobKind::Torrent {
        return OutputType::Primary;
    }
    if kind == JobKind::Torrent {
        return if is_dir {
            OutputType::Directory
        } else {
            OutputType::TorrentFile
        };
    }
    let extension = path_extension(path);
    let t = output_type_for_extension(
        match &extension {
            Some(e) => Some(e.as_str()),
            None => None,
        },
    );
    t
}

/// Raster image formats that the dedicated image converter can read.
pub open spec fn spec_is_common_image_extension(ext: Seq<char>) -> bool {
    one_of(lower_seq(ext), seq!["jpg"@, "jpeg"@, "png"@, "webp"@, "gif"@, "bmp"@, "tif"@, "tiff"@])
}

pub fn is_common_image_extension(extension: Option<&str>) -> (b: bool)
    ensures
        b == match extension {
            Some(e) => spec_is_common_image_extension(e@),
            None => false,
        },
{
    match extension {
        Some(e) => {
            let chars = chars_of(e);
            let lower = lowercase_ascii(chars.as_slice());
            let names = vec!["jpg", "jpeg", "png", "webp", "gif", "bmp", "tif", "tiff"];
            proof {
                assert(str_views(names@) =~= seq!["jpg"@, "jpeg"@, "png"@, "webp"@, "gif"@, "bmp"@, "tif"@, "tiff"@]);
            }
            is_one_of(lower.as_slice(), &names)
        },
        None => false,
    }
}

/// Whether a path names a common raster image, by its extension.
pub fn is_common_image(path: &str) -> (b: bool)
    ensures
        simple_name(path@) ==> b == match file_name_extension(path@) {
            Some(e) => spec_is_common_image_extension(e),
            None => false,
        },
        forall|lead: Seq<PathComponentKind>, names: Seq<Seq<char>>|
            #[trigger] portable_path(path@, lead, names) ==> b == match file_name_extension(names.last()) {
                Some(e) => spec_is_common_image_extension(e),
                None => false,
            },
        !path@.contains('.') ==> !b,
{
    let extension = path_extension(path);
    is_common_image_extension(
        match &extension {
            Some(e) => Some(e.as_str()),
            None => None,
        },
    )
}

// ---------------------------------------------------------------------------
// Conversion
// ---------------------------------------------------------------------------

/// The leading dots removed (`str::trim_start_matches('.')`).
pub open spec fn without_leading_dots(s: Seq<char>) -> Seq<char> {
    s.subrange(strip_start_count(s, '.'), s.len() as int)
}

pub open spec fn path_unsafe_extension(e: Seq<char>) -> bool {
    e.contains('/') || e.contains('\\') || contains_seq(e, ".."@)
}

fn strip_leading_dots(s: &[char]) -> (t: Vec<char>)
    ensures
        t@ == without_leading_dots(s@),
{
    let mut a: usize = 0;
    while a < s.len() && s[a] == '.'
        invariant
            a <= s@.len(),
            forall|j: int| 0 <= j < a ==> s@[j] == '.',
        decreases s@.len() - a,
    {
        a = a + 1;
    }
    proof {
        lemma_strip_start_count(s@, a as int);
    }
    crate::text::slice_range(s, a, s.len())
}

proof fn lemma_strip_start_count(s: Seq<char>, k: int)
    requires
        0 <= k <= s.len(),
        forall|j: int| 0 <= j < k ==> s[j] == '.',
        k < s.len() ==> s[k] != '.',
    ensures
        strip_start_count(s, '.') == k,
    decreases s.len(),
{
    if k > 0 {
        assert forall|j: int| 0 <= j < k - 1 implies s.drop_first()[j] == '.' by {
            assert(s.drop_first()[j] == s[j + 1]);
        }
        lemma_strip_start_count(s.drop_first(), k - 1);
    }
}

fn has_char(s: &[char], c: char) -> (b: bool)
    ensures
        b == s@.contains(c),
{
    let mut i: usize = 0;
    while i < s.len()
        invariant
            i <= s@.len(),
            forall|j: int| 0 <= j < i ==> s@[j] != c,
        decreases s@.len() - i,
    {
        if s[i] == c {
            return true;
        }
        i = i + 1;
    }
    false
}

fn extension_is_unsafe(e: &[char]) -> (b: bool)
    ensures
        b == path_unsafe_extension(e@),
{
    let dots = vec!['.', '.'];
    proof {
        assert(dots@ =~= ".."@) by {
            reveal_strlit("..");
        }
    }
    has_char(e, '/') || has_char(e, '\\') || contains(e, dots.as_slice())
}

/// The extension a conversion writes, without leading dots; one holding a
/// separator or `..` is refused.
pub fn conversion_extension(extension: &str) -> (r: Result<String, RavynError>)
    ensures
        path_unsafe_extension(extension@) ==> (r matches Err(RavynError::Invalid(x)) && x@
            == "invalid conversion extension"@),
        !path_unsafe_extension(extension@) ==> (r matches Ok(e) && e@ == without_leading_dots(extension@)),
{
    let chars = chars_of(extension);
    if extension_is_unsafe(chars.as_slice()) {
        return Err(RavynError::Invalid(String::from_str("invalid conversion extension")));
    }
    let stripped = strip_leading_dots(chars.as_slice());
    Ok(string_of(stripped.as_slice()))
}

/// When FFmpeg fails to write AVIF from a common image, the dedicated image
/// converter is tried, unless the job was cancelled.
pub fn retries_with_image_converter(extension: &str, input_is_common_image: bool, cancelled: bool) -> (b: bool)
    ensures
        b == (eq_ignore_ascii_case(without_leading_dots(extension@), "avif"@) && input_is_common_image && !cancelled),
{
    let chars = chars_of(extension);
    let stripped = strip_leading_dots(chars.as_slice());
    let avif = chars_of("avif");
    chars_eq_ignore_ascii_case(stripped.as_slice(), avif.as_slice()) && input_is_common_image && !cancelled
}

/// Checks the post-actions of a request, except the output paths of
/// extraction and move targets, which are checked against the configured
/// roots by the caller: at most 32 actions, and each conversion with a
/// path-safe extension of 1 to 16 bytes, bounded arguments, and either a
/// named preset (matching its extension, without arguments) or arbitrary
/// arguments explicitly marked unsafe and allowed by configuration.
pub open spec fn conversion_error(
    extension: Seq<char>,
    preset: Option<FfmpegPreset>,
    arguments: Seq<Seq<char>>,
    unsafe_arguments: bool,
    allow_unsafe_ffmpeg: bool,
) -> Option<Seq<char>> {
    let normalized = without_leading_dots(extension);
    if normalized.len() == 0 || utf8_len(extension) > 16 || extension.contains('/') || extension.contains('\\')
        || contains_seq(extension, ".."@) {
        Some("conversion extensions must contain 1 to 16 path-safe characters"@)
    } else if arguments.len() > 128 || exists|i: int| 0 <= i < arguments.len() && utf8_len(#[trigger] arguments[i]) > 4096 {
        Some("conversion arguments exceed the configured safety limits"@)
    } else if preset is Some && (arguments.len() > 0 || unsafe_arguments) {
        Some("named FFmpeg presets may not include arbitrary arguments"@)
    } else if preset matches Some(p) && spec_preset_extension(p) matches Some(expected) && !eq_ignore_ascii_case(normalized, expected) {
        Some("the selected FFmpeg preset requires the ."@ + spec_preset_extension(preset->0)->0 + " extension"@)
    } else if preset is None && (!unsafe_arguments || !allow_unsafe_ffmpeg) {
        Some("conversion requires a named preset; arbitrary arguments require both unsafe_arguments=true and --allow-unsafe-ffmpeg"@)
    } else {
        None
    }
}

pub open spec fn string_views(v: Seq<String>) -> Seq<Seq<char>> {
    v.map_values(|s: String| s@)
}

pub open spec fn action_error(action: PostAction, allow_unsafe_ffmpeg: bool) -> Option<Seq<char>> {
    match action {
        PostAction::ConvertMedia { extension, preset, arguments, unsafe_arguments, .. } => conversion_error(
            extension@,
            preset,
            string_views(arguments@),
            unsafe_arguments,
            allow_unsafe_ffmpeg,
        ),
        _ => None,
    }
}

/// The first action (from `k` on) that breaks a rule, with its message.
pub open spec fn first_action_error(actions: Seq<PostAction>, allow_unsafe_ffmpeg: bool, k: int) -> Option<Seq<char>>
    decreases actions.len() - k,
{
    if k < 0 || k >= actions.len() {
        None
    } else {
        match action_error(actions[k], allow_unsafe_ffmpeg) {
            Some(m) => Some(m),
            None => first_action_error(actions, allow_unsafe_ffmpeg, k + 1),
        }
    }
}

fn check_conversion(
    extension: &String,
    preset: Option<FfmpegPreset>,
    arguments: &Vec<String>,
    unsafe_arguments: bool,
    allow_unsafe_ffmpeg: bool,
) -> (r: Result<(), RavynError>)
    ensures
        match conversion_error(extension@, preset, string_views(arguments@), unsafe_arguments, allow_unsafe_ffmpeg) {
            None => r is Ok,
            Some(m) => r matches Err(RavynError::Invalid(x)) && x@ == m,
        },
{
    let chars = chars_of(extension.as_str());
    let normalized = strip_leading_dots(chars.as_slice());
    if normalized.len() == 0 || utf8_length(chars.as_slice()) > 16 || extension_is_unsafe(chars.as_slice()) {
        return Err(RavynError::Invalid(String::from_str("conversion extensions must contain 1 to 16 path-safe characters")));
    }
    let ghost args = string_views(arguments@);
    proof {
        assert(args.len() == arguments@.len());
    }
    if arguments.len() > 128 {
        return Err(RavynError::Invalid(String::from_str("conversion arguments exceed the configured safety limits")));
    }
    let mut i: usize = 0;
    while i < arguments.len()
        invariant
            i <= arguments@.len(),
            arguments@.len() <= 128,
            args == string_views(arguments@),
            normalized@ == without_leading_dots(extension@),
            !(normalized@.len() == 0 || utf8_len(extension@) > 16 || path_unsafe_extension(extension@)),
            forall|j: int| 0 <= j < i ==> utf8_len(#[trigger] args[j]) <= 4096,
        decreases arguments@.len() - i,
    {
        let a = chars_of(arguments[i].as_str());
        if utf8_length(a.as_slice()) > 4096 {
            proof {
                assert(utf8_len(args[i as int]) > 4096);
            }
            return Err(RavynError::Invalid(String::from_str("conversion arguments exceed the configured safety limits")));
        }
        i = i + 1;
    }
    proof {
        assert(!(exists|j: int| 0 <= j < args.len() && utf8_len(#[trigger] args[j]) > 4096));
    }
    if preset.is_some() && (arguments.len() > 0 || unsafe_arguments) {
        return Err(RavynError::Invalid(String::from_str("named FFmpeg presets may not include arbitrary arguments")));
    }
    match preset {
        Some(p) => match preset_extension(p) {
            Some(expected) => {
                let e = chars_of(expected);
                if !chars_eq_ignore_ascii_case(normalized.as_slice(), e.as_slice()) {
                    let mut m = String::from_str("the selected FFmpeg preset requires the .");
                    m.append(expected);
                    m.append(" extension");
                    return Err(RavynError::Invalid(m));
                }
            },
            None => {},
        },
        None => {},
    }
    if preset.is_none() && (!unsafe_arguments || !allow_unsafe_ffmpeg) {
        return Err(RavynError::Invalid(String::from_str("conversion requires a named preset; arbitrary arguments require both unsafe_arguments=true and --allow-unsafe-ffmpeg")));
    }
    Ok(())
}

pub fn validate_post_actions(actions: &[PostAction], allow_unsafe_ffmpeg: bool) -> (r: Result<(), RavynError>)
    ensures
        actions@.len() > 32 ==> (r matches Err(RavynError::Invalid(x)) && x@
            == "a job may contain at most 32 post-processing actions"@),
        actions@.len() <= 32 ==> match first_action_error(actions@, allow_unsafe_ffmpeg, 0) {
            None => r is Ok,
            Some(m) => r matches Err(RavynError::Invalid(x)) && x@ == m,
        },
{
    if actions.len() > 32 {
        return Err(RavynError::Invalid(String::from_str("a job may contain at most 32 post-processing actions")));
    }
    let mut k: usize = 0;
    while k < actions.len()
        invariant
            k <= actions@.len(),
            actions@.len() <= 32,
            first_action_error(actions@, allow_unsafe_ffmpeg, 0) == first_action_error(
                actions@,
                allow_unsafe_ffmpeg,
                k as int,
            ),
        decreases actions@.len() - k,
    {
        match &actions[k] {
            PostAction::ConvertMedia { extension, preset, arguments, unsafe_arguments, .. } => {
                match check_conversion(extension, *preset, arguments, *unsafe_arguments, allow_unsafe_ffmpeg) {
                    Ok(()) => {},
                    Err(e) => {
                        return Err(e);
                    },
                }
            },
            _ => {},
        }
        k = k + 1;
    }
    Ok(())
}

// ---------------------------------------------------------------------------
// Size limits
// ---------------------------------------------------------------------------

pub open spec fn sat_mul(a: u64, b: u64) -> u64 {
    if a * b > u64::MAX { u64::MAX } else { (a * b) as u64 }
}

/// How many bytes an archive may expand to: the configured ceiling in MiB,
/// and at most `max_ratio` times the archive's own size (at least one byte).
pub open spec fn spec_expansion_limit(max_extract_mib: u64, archive_bytes: u64, max_ratio: u64) -> u64 {
    let ceiling = sat_mul(max_extract_mib, 1_048_576u64);
    let by_ratio = sat_mul(if archive_bytes >= 1 { archive_bytes } else { 1 }, max_ratio);
    if ceiling <= by_ratio { ceiling } else { by_ratio }
}

fn saturating_product(a: u64, b: u64) -> (p: u64)
    ensures
        p == sat_mul(a, b),
{
    match a.checked_mul(b) {
        Some(p) => p,
        None => u64::MAX,
    }
}

pub fn archive_expansion_limit(max_extract_mib: u64, archive_bytes: u64, max_ratio: u64) -> (n: u64)
    ensures
        n == spec_expansion_limit(max_extract_mib, archive_bytes, max_ratio),
{
    let ceiling = saturating_product(max_extract_mib, 1024 * 1024);
    let by_ratio = saturating_product(archive_bytes.max(1), max_ratio);
    if ceiling <= by_ratio {
        ceiling
    } else {
        by_ratio
    }
}

/// How many bytes a conversion may write: 32 times its input (at least one
/// byte), and never less than 1 GiB.
pub open spec fn spec_conversion_limit(input_bytes: u64) -> u64 {
    let scaled = sat_mul(if input_bytes >= 1 { input_bytes } else { 1 }, 32);
    if scaled >= 1024 * 1024 * 1024 { scaled } else { 1_073_741_824u64 }
}

pub fn conversion_output_limit(input_bytes: u64) -> (n: u64)
    ensures
        n == spec_conversion_limit(input_bytes),
{
    let scaled = saturating_product(input_bytes.max(1), 32);
    if scaled >= 1024 * 1024 * 1024 {
        scaled
    } else {
        1024 * 1024 * 1024
    }
}

/// An archive may expand to the smaller of the configured ceiling and its
/// own size (at least one byte) times the allowed ratio, each saturating.
pub proof fn lemma_expansion_limit(max_extract_mib: u64, archive_bytes: u64, max_ratio: u64)
    ensures
        ({
            let n = spec_expansion_limit(max_extract_mib, archive_bytes, max_ratio) as int;
            let ceiling: int = if max_extract_mib * 1_048_576 > u64::MAX { u64::MAX as int } else { max_extract_mib
                * 1_048_576 };
            let a: int = if archive_bytes >= 1 { archive_bytes as int } else { 1 };
            let by_ratio: int = if a * max_ratio > u64::MAX { u64::MAX as int } else { a * max_ratio };
            &&& n <= ceiling && n <= by_ratio
            &&& n == ceiling || n == by_ratio
        }),
{
}

/// A conversion may write at least 1 GiB, and at least 32 times its input
/// (saturating); beyond 1 GiB the limit is exactly that multiple.
pub proof fn lemma_conversion_limit(input_bytes: u64)
    ensures
        spec_conversion_limit(input_bytes) >= 1_073_741_824,
        input_bytes as int * 32 <= u64::MAX ==> spec_conversion_limit(input_bytes) >= input_bytes * 32,
        input_bytes as int * 32 > u64::MAX ==> spec_conversion_limit(input_bytes) == u64::MAX,
        input_bytes as int * 32 >= 1_073_741_824 && input_bytes as int * 32 <= u64::MAX ==> spec_conversion_limit(
            input_bytes,
        ) == input_bytes * 32,
{
}

// ---------------------------------------------------------------------------
// Archive listing
// ---------------------------------------------------------------------------

/// A file entry of a 7-Zip technical listing (`7z l -slt`).
pub struct ListedFile {
    pub path: String,
    pub size: Option<u64>,
}

/// The parser's state between lines.
pub struct ListingState {
    pub in_entries: bool,
    pub path: Option<Seq<char>>,
    pub size: Option<u64>,
    pub folder: bool,
    pub files: Seq<(Seq<char>, Option<u64>)>,
}

/// An entry ends: it is kept when it has a path and is not a folder.
pub open spec fn finish_entry(st: ListingState) -> ListingState {
    ListingState {
        in_entries: st.in_entries,
        path: None,
        size: None,
        folder: false,
        files: if st.path is Some && !st.folder {
            st.files.push((st.path->0, st.size))
        } else {
            st.files
        },
    }
}

/// One line of the listing, after trailing white space is removed. Entries
/// start after the `----------` line and end at blank lines; `Path = `,
/// `Size = ` and `Folder = ` set the current entry's fields.
pub open spec fn listing_step(st: ListingState, raw: Seq<char>) -> ListingState {
    let line = trim_end(raw);
    if line == "----------"@ {
        ListingState { in_entries: true, ..st }
    } else if !st.in_entries {
        st
    } else if line.len() == 0 {
        finish_entry(st)
    } else if strip_prefix(line, "Path = "@) is Some {
        ListingState { path: Some(strip_prefix(line, "Path = "@)->0), ..st }
    } else if strip_prefix(line, "Size = "@) is Some {
        ListingState { size: parse_u64(strip_prefix(line, "Size = "@)->0), ..st }
    } else if strip_prefix(line, "Folder = "@) is Some {
        ListingState { folder: trim(strip_prefix(line, "Folder = "@)->0) == seq!['+'], ..st }
    } else {
        st
    }
}

pub open spec fn listing_run(lines: Seq<Seq<char>>, k: int) -> ListingState
    decreases k,
{
    if k <= 0 {
        ListingState { in_entries: false, path: None, size: None, folder: false, files: Seq::empty() }
    } else {
        listing_step(listing_run(lines, k - 1), lines[k - 1])
    }
}

/// The file entries a listing describes, in order, with their sizes when
/// given as plain numbers. (Lines are split at `\n`; a trailing `\r` is
/// white space and trimmed with the rest.)
pub open spec fn listed_files(listing: Seq<char>) -> Seq<(Seq<char>, Option<u64>)> {
    let lines = split_on(listing, '\n');
    finish_entry(listing_run(lines, lines.len() as int)).files
}

pub open spec fn listed_view(v: Seq<ListedFile>) -> Seq<(Seq<char>, Option<u64>)> {
    v.map_values(|f: ListedFile| (f.path@, f.size))
}

/// Parses a 7-Zip technical listing into its file entries.
pub fn parse_archive_listing(listing: &str) -> (files: Vec<ListedFile>)
    ensures
        listed_view(files@) == listed_files(listing@),
{
    let chars = chars_of(listing);
    let lines = split_chars(chars.as_slice(), '\n');
    let ghost line_views = split_on(listing@, '\n');
    let dashes = chars_of("----------");
    let path_prefix = chars_of("Path = ");
    let size_prefix = chars_of("Size = ");
    let folder_prefix = chars_of("Folder = ");
    let plus = vec!['+'];
    proof {
        assert(plus@ =~= seq!['+']);
    }
    let mut in_entries = false;
    let mut path: Option<Vec<char>> = None;
    let mut size: Option<u64> = None;
    let mut folder = false;
    let mut files: Vec<ListedFile> = Vec::new();
    let mut k: usize = 0;
    while k < lines.len()
        invariant
            k <= lines@.len(),
            lines@.len() == line_views.len(),
            forall|j: int| 0 <= j < lines@.len() ==> #[trigger] lines@[j]@ == line_views[j],
            dashes@ == "----------"@,
            path_prefix@ == "Path = "@,
            size_prefix@ == "Size = "@,
            folder_prefix@ == "Folder = "@,
            plus@ == seq!['+'],
            ({
                let st = listing_run(line_views, k as int);
                &&& st.in_entries == in_entries
                &&& st.path == match path {
                    Some(v) => Some(v@),
                    None => None::<Seq<char>>,
                }
                &&& st.size == size
                &&& st.folder == folder
                &&& st.files == listed_view(files@)
            }),
        decreases lines@.len() - k,
    {
        let line = trim_end_chars(lines[k].as_slice());
        proof {
            assert(line@ == trim_end(line_views[k as int]));
        }
        if crate::text::chars_equal(line.as_slice(), dashes.as_slice()) {
            in_entries = true;
        } else if !in_entries {
        } else if line.len() == 0 {
            let ghost before = listed_view(files@);
            match path {
                Some(p) => {
                    if !folder {
                        let text = string_of(p.as_slice());
                        files.push(ListedFile { path: text, size });
                        proof {
                            assert(listed_view(files@) =~= before.push((p@, size)));
                        }
                    }
                },
                None => {},
            }
            path = None;
            size = None;
            folder = false;
        } else {
            match strip_prefix_chars(line.as_slice(), path_prefix.as_slice()) {
                Some(v) => {
                    path = Some(v);
                },
                None => match strip_prefix_chars(line.as_slice(), size_prefix.as_slice()) {
                    Some(v) => {
                        size = parse_u64_chars(v.as_slice());
                    },
                    None => match strip_prefix_chars(line.as_slice(), folder_prefix.as_slice()) {
                        Some(v) => {
                            let t = trim_chars(v.as_slice());
                            folder = crate::text::chars_equal(t.as_slice(), plus.as_slice());
                        },
                        None => {},
                    },
                },
            }
        }
        k = k + 1;
    }
    let ghost before = listed_view(files@);
    match path {
        Some(p) => {
            if !folder {
                let text = string_of(p.as_slice());
                files.push(ListedFile { path: text, size });
                proof {
                    assert(listed_view(files@) =~= before.push((p@, size)));
                }
            }
        },
        None => {},
    }
    files
}

/// The depth an entry reaches below the extraction root (its normal
/// components, less the file itself), or `None` when a component climbs
/// out of or replaces the root.
pub open spec fn entry_depth(kinds: Seq<PathComponentKind>) -> Option<nat>
    decreases kinds.len(),
{
    if kinds.len() == 0 {
        Some(0)
    } else {
        match entry_depth(kinds.drop_last()) {
            None => None,
            Some(d) => match kinds.last() {
                PathComponentKind::Normal => Some(d + 1),
                PathComponentKind::CurDir => Some(d),
                _ => None,
            },
        }
    }
}

/// The first limit the listed files break, in order, with its message.
pub open spec fn listing_error(
    files: Seq<(Seq<char>, Option<u64>)>,
    kinds: Seq<Seq<PathComponentKind>>,
    max_depth: usize,
    max_files: usize,
    permitted_bytes: u64,
    k: int,
    bytes: u64,
) -> Option<Seq<char>>
    decreases files.len() - k,
{
    if k < 0 || k >= files.len() {
        None
    } else {
        let next_bytes = match files[k].1 {
            Some(n) => if bytes + n > u64::MAX { u64::MAX } else { (bytes + n) as u64 },
            None => bytes,
        };
        match entry_depth(kinds[k]) {
            None => Some("archive contains an unsafe path: "@ + files[k].0),
            Some(d) => if d > max_depth + 1 {
                Some("archive exceeds the maximum extraction depth of "@ + dec(max_depth as nat))
            } else if k + 1 > max_files {
                Some("archive contains more than "@ + dec(max_files as nat) + " files"@)
            } else if next_bytes > permitted_bytes {
                Some("archive expands beyond the configured size or compression-ratio limit ("@ + dec(
                    permitted_bytes as nat,
                ) + " bytes)"@)
            } else {
                listing_error(files, kinds, max_depth, max_files, permitted_bytes, k + 1, next_bytes)
            },
        }
    }
}

fn depth_of(kinds: &[PathComponentKind]) -> (r: Option<usize>)
    ensures
        match r {
            Some(d) => entry_depth(kinds@) == Some(d as nat),
            None => entry_depth(kinds@) is None,
        },
{
    let mut depth: usize = 0;
    let mut i: usize = 0;
    while i < kinds.len()
        invariant
            i <= kinds@.len(),
            depth <= i,
            entry_depth(kinds@.subrange(0, i as int)) == Some(depth as nat),
        decreases kinds@.len() - i,
    {
        proof {
            assert(kinds@.subrange(0, i as int + 1).drop_last() =~= kinds@.subrange(0, i as int));
        }
        match kinds[i] {
            PathComponentKind::Normal => {
                depth = depth + 1;
            },
            PathComponentKind::CurDir => {},
            _ => {
                proof {
                    lemma_entry_depth_none(kinds@, i as int + 1);
                }
                return None;
            },
        }
        i = i + 1;
    }
    proof {
        assert(kinds@.subrange(0, kinds@.len() as int) =~= kinds@);
    }
    Some(depth)
}

proof fn lemma_entry_depth_none(kinds: Seq<PathComponentKind>, k: int)
    requires
        0 <= k <= kinds.len(),
        entry_depth(kinds.subrange(0, k)) is None,
    ensures
        entry_depth(kinds) is None,
    decreases kinds.len() - k,
{
    if k < kinds.len() {
        assert(kinds.subrange(0, k + 1).drop_last() =~= kinds.subrange(0, k));
        lemma_entry_depth_none(kinds, k + 1);
    } else {
        assert(kinds.subrange(0, k) =~= kinds);
    }
}

/// Checks listed files against the extraction limits, given the path
/// components of each file.
pub fn check_listed_files(
    files: &[ListedFile],
    kinds: &[Vec<PathComponentKind>],
    max_depth: usize,
    max_files: usize,
    permitted_bytes: u64,
) -> (r: Result<(), RavynError>)
    requires
        kinds@.len() == files@.len(),
    ensures
        match listing_error(
            listed_view(files@),
            kinds@.map_values(|v: Vec<PathComponentKind>| v@),
            max_depth,
            max_files,
            permitted_bytes,
            0,
            0,
        ) {
            None => r is Ok,
            Some(m) => r matches Err(RavynError::Invalid(x)) && x@ == m,
        },
{
    let ghost fv = listed_view(files@);
    let ghost kv = kinds@.map_values(|v: Vec<PathComponentKind>| v@);
    let mut bytes: u64 = 0;
    let mut k: usize = 0;
    while k < files.len()
        invariant
            k <= files@.len(),
            kinds@.len() == files@.len(),
            fv == listed_view(files@),
            kv == kinds@.map_values(|v: Vec<PathComponentKind>| v@),
            listing_error(fv, kv, max_depth, max_files, permitted_bytes, 0, 0) == listing_error(
                fv,
                kv,
                max_depth,
                max_files,
                permitted_bytes,
                k as int,
                bytes,
            ),
        decreases files@.len() - k,
    {
        proof {
            assert(fv[k as int] == (files@[k as int].path@, files@[k as int].size));
            assert(kv[k as int] == kinds@[k as int]@);
        }
        let next_bytes = match files[k].size {
            Some(n) => match bytes.checked_add(n) {
                Some(b) => b,
                None => u64::MAX,
            },
            None => bytes,
        };
        match depth_of(kinds[k].as_slice()) {
            None => {
                let mut m = String::from_str("archive contains an unsafe path: ");
                m.append(files[k].path.as_str());
                return Err(RavynError::Invalid(m));
            },
            Some(d) => {
                if d > max_depth && d - max_depth > 1 {
                    let mut m = String::from_str("archive exceeds the maximum extraction depth of ");
                    push_decimal(&mut m, max_depth as u64);
                    return Err(RavynError::Invalid(m));
                }
                if k >= max_files {
                    let mut m = String::from_str("archive contains more than ");
                    push_decimal(&mut m, max_files as u64);
                    m.append(" files");
                    return Err(RavynError::Invalid(m));
                }
                if next_bytes > permitted_bytes {
                    let mut m = String::from_str("archive expands beyond the configured size or compression-ratio limit (");
                    push_decimal(&mut m, permitted_bytes);
                    m.append(" bytes)");
                    return Err(RavynError::Invalid(m));
                }
            },
        }
        bytes = next_bytes;
        k = k + 1;
    }
    Ok(())
}

/// Where the listing is accepted, every entry from `k` on reaches a depth
/// within the limit.
proof fn lemma_listing_accepted(
    files: Seq<(Seq<char>, Option<u64>)>,
    kinds: Seq<Seq<PathComponentKind>>,
    max_depth: usize,
    max_files: usize,
    permitted_bytes: u64,
    k: int,
    bytes: u64,
)
    requires
        0 <= k,
        kinds.len() == files.len(),
        listing_error(files, kinds, max_depth, max_files, permitted_bytes, k, bytes) is None,
    ensures
        forall|j: int|
            k <= j < files.len() ==> (#[trigger] entry_depth(kinds[j]) matches Some(d) && d <= max_depth + 1),
    decreases files.len() - k,
{
    if k < files.len() {
        let next_bytes = match files[k].1 {
            Some(n) => if bytes + n > u64::MAX { u64::MAX } else { (bytes + n) as u64 },
            None => bytes,
        };
        lemma_listing_accepted(files, kinds, max_depth, max_files, permitted_bytes, k + 1, next_bytes);
    }
}

/// A lead of `/` or `../` takes an entry out of the extraction root; plain
/// names reach one level per name.
proof fn lemma_entry_depth_portable(lead: Seq<PathComponentKind>, n: nat)
    requires
        lead.len() == 0 || lead == seq![PathComponentKind::RootDir] || lead == seq![PathComponentKind::ParentDir],
    ensures
        entry_depth(lead + normal_components(n)) == if lead.len() == 0 {
            Some(n)
        } else {
            None::<nat>
        },
    decreases n,
{
    if n == 0 {
        assert(lead + normal_components(0) =~= lead);
        if lead.len() > 0 {
            assert(lead.drop_last() =~= Seq::<PathComponentKind>::empty());
        }
    } else {
        lemma_entry_depth_portable(lead, (n - 1) as nat);
        let full = lead + normal_components(n);
        assert(full.drop_last() =~= lead + normal_components((n - 1) as nat));
        assert(full.last() == PathComponentKind::Normal);
    }
}

/// Checks a 7-Zip listing before extraction: no entry may climb out of the
/// target or be absolute, nest deeper than `max_depth`, or push the file
/// count or the expanded size past their limits. The entries' path
/// components are those the platform gives, which agree with
/// `split_agrees`; so an accepted listing holds no entry made of simple
/// names after a leading `/` or `../`, nor one nested too deep.
pub fn preflight_listing(listing: &str, max_depth: usize, max_files: usize, permitted_bytes: u64) -> (r: Result<
    (),
    RavynError,
>)
    ensures
        exists|kv: Seq<Seq<PathComponentKind>>|
            kv.len() == listed_files(listing@).len() && (forall|i: int|
                0 <= i < kv.len() ==> split_agrees(listed_files(listing@)[i].0, #[trigger] kv[i]))
                && match #[trigger] listing_error(
                listed_files(listing@),
                kv,
                max_depth,
                max_files,
                permitted_bytes,
                0,
                0,
            ) {
                None => r is Ok,
                Some(m) => r matches Err(RavynError::Invalid(x)) && x@ == m,
            },
        r is Ok ==> forall|i: int, lead: Seq<PathComponentKind>, names: Seq<Seq<char>>|
            0 <= i < listed_files(listing@).len() && #[trigger] portable_path(listed_files(listing@)[i].0, lead, names)
                ==> lead.len() == 0 && names.len() <= max_depth + 1,
{
    let files = parse_archive_listing(listing);
    let mut kinds: Vec<Vec<PathComponentKind>> = Vec::new();
    let mut i: usize = 0;
    while i < files.len()
        invariant
            i <= files@.len(),
            kinds@.len() == i,
            forall|j: int| 0 <= j < i ==> split_agrees(files@[j].path@, #[trigger] kinds@[j]@),
        decreases files@.len() - i,
    {
        kinds.push(path_component_kinds(files[i].path.as_str()));
        i = i + 1;
    }
    let r = check_listed_files(files.as_slice(), kinds.as_slice(), max_depth, max_files, permitted_bytes);
    proof {
        let kv = kinds@.map_values(|v: Vec<PathComponentKind>| v@);
        let lf = listed_files(listing@);
        assert(kv.len() == lf.len());
        assert forall|i: int| 0 <= i < kv.len() implies split_agrees(lf[i].0, #[trigger] kv[i]) by {
            assert(lf[i].0 == files@[i].path@);
            assert(kv[i] == kinds@[i]@);
        }
        let e = listing_error(lf, kv, max_depth, max_files, permitted_bytes, 0, 0);
        if r is Ok {
            lemma_listing_accepted(lf, kv, max_depth, max_files, permitted_bytes, 0, 0);
            assert forall|i: int, lead: Seq<PathComponentKind>, names: Seq<Seq<char>>|
                0 <= i < lf.len() && #[trigger] portable_path(lf[i].0, lead, names) implies lead.len() == 0
                    && names.len() <= max_depth + 1 by {
                assert(split_agrees(lf[i].0, kv[i]));
                assert(kv[i] == lead + normal_components(names.len()));
                lemma_entry_depth_portable(lead, names.len());
                assert(entry_depth(kv[i]) matches Some(d) && d <= max_depth + 1);
            }
        }
    }
    r
}

// ---------------------------------------------------------------------------
// Extracted trees and moves
// ---------------------------------------------------------------------------

/// The extraction target must not exist yet.
pub fn check_extraction_target(exists: bool, target_display: &str) -> (r: Result<(), RavynError>)
    ensures
        !exists ==> r is Ok,
        exists ==> (r matches Err(RavynError::Conflict(x)) && x@ == "extraction destination "@ + target_display@
            + " already exists"@),
{
    if exists {
        let mut m = String::from_str("extraction destination ");
        m.append(target_display);
        m.append(" already exists");
        return Err(RavynError::Conflict(m));
    }
    Ok(())
}

/// A directory of an extracted tree deeper than the limit is refused.
pub fn check_extracted_depth(depth: usize, max_depth: usize) -> (r: Result<(), RavynError>)
    ensures
        depth <= max_depth ==> r is Ok,
        depth > max_depth ==> (r matches Err(RavynError::Invalid(x)) && x@
            == "archive exceeds the maximum extraction depth of "@ + dec(max_depth as nat)),
{
    if depth > max_depth {
        let mut m = String::from_str("archive exceeds the maximum extraction depth of ");
        push_decimal(&mut m, max_depth as u64);
        return Err(RavynError::Invalid(m));
    }
    Ok(())
}

/// One entry of an extracted tree, as the check reads it.
pub struct ExtractedEntry {
    pub display: String,
    pub is_symlink: bool,
    pub is_file: bool,
    pub is_dir: bool,
    /// Its canonical path lies inside the staging directory.
    pub inside_root: bool,
    pub len: u64,
}

/// Files and bytes counted so far in an extracted tree.
#[derive(Debug, Clone, Copy, PartialEq, Eq, Structural)]
pub struct TreeCount {
    pub files: usize,
    pub bytes: u64,
}

pub open spec fn sat_add_usize(a: usize, b: int) -> usize {
    if a + b > usize::MAX { usize::MAX } else { (a + b) as usize }
}

pub open spec fn sat_add_u64(a: u64, b: int) -> u64 {
    if a + b > u64::MAX { u64::MAX } else { (a + b) as u64 }
}

/// Checks one entry of an extracted tree and counts it: links and special
/// files are refused, as are entries that escaped the staging directory;
/// directories are not counted; files count towards the file and byte limits.
pub fn check_extracted_entry(count: TreeCount, entry: &ExtractedEntry, max_files: usize, permitted_bytes: u64) -> (r: Result<
    TreeCount,
    RavynError,
>)
    ensures
        (entry.is_symlink || (!entry.is_file && !entry.is_dir)) ==> (r matches Err(RavynError::Invalid(x)) && x@
            == "archive contains a link or special file: "@ + entry.display@),
        !(entry.is_symlink || (!entry.is_file && !entry.is_dir)) && !entry.inside_root ==> (r matches Err(
            RavynError::Invalid(x),
        ) && x@ == "archive entry escaped the staging directory: "@ + entry.display@),
        !(entry.is_symlink || (!entry.is_file && !entry.is_dir)) && entry.inside_root && entry.is_dir ==> r == Ok::<
            TreeCount,
            RavynError,
        >(count),
        !(entry.is_symlink || (!entry.is_file && !entry.is_dir)) && entry.inside_root && !entry.is_dir ==> ({
            let next = TreeCount { files: sat_add_usize(count.files, 1), bytes: sat_add_u64(count.bytes, entry.len as int) };
            if next.files > max_files {
                r matches Err(RavynError::Invalid(x)) && x@ == "archive contains more than "@ + dec(max_files as nat)
                    + " files"@
            } else if next.bytes > permitted_bytes {
                r matches Err(RavynError::Invalid(x)) && x@
                    == "archive expands beyond the configured size or compression-ratio limit ("@ + dec(
                    permitted_bytes as nat,
                ) + " bytes)"@
            } else {
                r == Ok::<TreeCount, RavynError>(next)
            }
        }),
{
    if entry.is_symlink || (!entry.is_file && !entry.is_dir) {
        let mut m = String::from_str("archive contains a link or special file: ");
        m.append(entry.display.as_str());
        return Err(RavynError::Invalid(m));
    }
    if !entry.inside_root {
        let mut m = String::from_str("archive entry escaped the staging directory: ");
        m.append(entry.display.as_str());
        return Err(RavynError::Invalid(m));
    }
    if entry.is_dir {
        return Ok(count);
    }
    let files = if count.files < usize::MAX { count.files + 1 } else { usize::MAX };
    let bytes = match count.bytes.checked_add(entry.len) {
        Some(b) => b,
        None => u64::MAX,
    };
    if files > max_files {
        let mut m = String::from_str("archive contains more than ");
        push_decimal(&mut m, max_files as u64);
        m.append(" files");
        return Err(RavynError::Invalid(m));
    }
    if bytes > permitted_bytes {
        let mut m = String::from_str("archive expands beyond the configured size or compression-ratio limit (");
        push_decimal(&mut m, permitted_bytes);
        m.append(" bytes)");
        return Err(RavynError::Invalid(m));
    }
    Ok(TreeCount { files, bytes })
}

/// A move needs a regular file as its source and a free destination.
pub fn check_move(source_is_regular_file: bool, destination_exists: bool, destination_display: &str) -> (r: Result<
    (),
    RavynError,
>)
    ensures
        !source_is_regular_file ==> (r matches Err(RavynError::Invalid(x)) && x@ == "move source must be a regular file"@),
        source_is_regular_file && destination_exists ==> (r matches Err(RavynError::Conflict(x)) && x@
            == "move destination already exists: "@ + destination_display@),
        source_is_regular_file && !destination_exists ==> r is Ok,
{
    if !source_is_regular_file {
        return Err(RavynError::Invalid(String::from_str("move source must be a regular file")));
    }
    if destination_exists {
        let mut m = String::from_str("move destination already exists: ");
        m.append(destination_display);
        return Err(RavynError::Conflict(m));
    }
    Ok(())
}

/// A cached file is copied over an existing target only when overwriting
/// is allowed, and never over a directory.
pub fn check_cache_target(exists: bool, overwrite: bool, is_dir: bool, target_display: &str) -> (r: Result<(), RavynError>)
    ensures
        !exists ==> r is Ok,
        exists && !overwrite ==> (r matches Err(RavynError::Conflict(x)) && x@ == "cache target already exists: "@
            + target_display@),
        exists && overwrite && is_dir ==> (r matches Err(RavynError::Conflict(x)) && x@ == "cache target is a directory: "@
            + target_display@),
        exists && overwrite && !is_dir ==> r is Ok,
{
    if exists && !overwrite {
        let mut m = String::from_str("cache target already exists: ");
        m.append(target_display);
        return Err(RavynError::Conflict(m));
    }
    if exists && is_dir {
        let mut m = String::from_str("cache target is a directory: ");
        m.append(target_display);
        return Err(RavynError::Conflict(m));
    }
    Ok(())
}

} // verus!
