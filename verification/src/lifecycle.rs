//! Request validation and the status rules of a job's life: filenames,
//! tags, torrent seeding limits, browser cookie selectors, mirrors,
//! Metalink layouts, idempotency keys, and which statuses pause, resume
//! and retry move between.
use vstd::prelude::*;
use crate::error::RavynError;
use crate::models::{JobKind, JobStatus, MetalinkMetadata, PostAction};
use crate::pipeline::{first_action_error, validate_post_actions};
use crate::text::{
    char_is_ascii_hexdigit, char_is_control, chars_of, is_ascii_hexdigit, is_control,
    chars_equal, lower_seq, lowercase_ascii, string_of, trim, trim_chars, utf8_len, utf8_length,
};

verus! {

// ---------------------------------------------------------------------------
// Path components
// ---------------------------------------------------------------------------

/// The kind of one component of a filesystem path (`std::path::Component`).
#[derive(Debug, Clone, Copy, PartialEq, Eq, Structural)]
pub enum PathComponentKind {
    Prefix,
    RootDir,
    CurDir,
    ParentDir,
    Normal,
}

/// A path that no platform splits: non-empty, without `/`, `\\` or `:`,
/// and neither `.` nor `..`.
pub open spec fn simple_name(p: Seq<char>) -> bool {
    p.len() > 0 && !p.contains('/') && !p.contains('\\') && !p.contains(':') && p != "."@ && p != ".."@
}

/// Simple names joined by `/`.
pub open spec fn joined_names(names: Seq<Seq<char>>) -> Seq<char>
    decreases names.len(),
{
    if names.len() == 0 {
        Seq::empty()
    } else if names.len() == 1 {
        names[0]
    } else {
        joined_names(names.drop_last()) + "/"@ + names.last()
    }
}

/// `p` is one or more simple names joined by `/`, after `lead`: nothing,
/// the root `/`, or the parent `../`. Every platform splits such a path
/// into `lead` followed by one normal component per name.
pub open spec fn portable_path(p: Seq<char>, lead: Seq<PathComponentKind>, names: Seq<Seq<char>>) -> bool {
    &&& names.len() >= 1
    &&& forall|i: int| 0 <= i < names.len() ==> simple_name(#[trigger] names[i])
    &&& ((lead.len() == 0 && p == joined_names(names)) || (lead == seq![PathComponentKind::RootDir] && p
        == "/"@ + joined_names(names)) || (lead == seq![PathComponentKind::ParentDir] && p == "../"@
        + joined_names(names)))
}

pub open spec fn normal_components(n: nat) -> Seq<PathComponentKind> {
    Seq::new(n, |i: int| PathComponentKind::Normal)
}

/// What the documentation gives of the split of `p` on every platform: an
/// empty path has no components, `.` is the current directory, `..` the
/// parent directory, a simple name one normal component, and a portable
/// path its lead followed by one normal component per name.
pub open spec fn split_agrees(p: Seq<char>, kinds: Seq<PathComponentKind>) -> bool {
    &&& p.len() == 0 ==> kinds.len() == 0
    &&& p == "."@ ==> kinds == seq![PathComponentKind::CurDir]
    &&& p == ".."@ ==> kinds == seq![PathComponentKind::ParentDir]
    &&& simple_name(p) ==> kinds == seq![PathComponentKind::Normal]
    &&& forall|lead: Seq<PathComponentKind>, names: Seq<Seq<char>>|
        #[trigger] portable_path(p, lead, names) ==> kinds == lead + normal_components(names.len())
}

/// `std::path::Path::components`, each component reduced to its kind.
/// How a path splits depends on the platform's separators and prefixes; the
/// contract states only what `split_agrees` gives on every platform. Paths
/// with `\\`, `:`, repeated or trailing separators, or `.` and `..` inside
/// are left unsaid.
#[verifier::external_body]
pub(crate) fn path_component_kinds(path: &str) -> (kinds: Vec<PathComponentKind>)
    ensures
        split_agrees(path@, kinds@),
{
    std::path::Path::new(path).components().map(|component| match component {
        std::path::Component::Prefix(_) => PathComponentKind::Prefix,
        std::path::Component::RootDir => PathComponentKind::RootDir,
        std::path::Component::CurDir => PathComponentKind::CurDir,
        std::path::Component::ParentDir => PathComponentKind::ParentDir,
        std::path::Component::Normal(_) => PathComponentKind::Normal,
    }).collect()
}

// ---------------------------------------------------------------------------
// Filenames
// ---------------------------------------------------------------------------

pub open spec fn has_control(s: Seq<char>) -> bool {
    exists|i: int| 0 <= i < s.len() && is_control(#[trigger] s[i])
}

/// What the text of a filename alone rules out: blank, longer than 255
/// bytes, or holding a control character.
pub open spec fn filename_text_rejected(name: Seq<char>) -> bool {
    trim(name).len() == 0 || utf8_len(name) > 255 || has_control(name)
}

pub open spec fn filename_message() -> Seq<char> {
    "filename must be a single safe path component"@
}

fn any_control(s: &[char]) -> (b: bool)
    ensures
        b == has_control(s@),
{
    let mut i: usize = 0;
    while i < s.len()
        invariant
            i <= s@.len(),
            forall|j: int| 0 <= j < i ==> !is_control(s@[j]),
        decreases s@.len() - i,
    {
        if char_is_control(s[i]) {
            return true;
        }
        i = i + 1;
    }
    false
}

/// A filename is accepted when its text is acceptable and its path
/// components are exactly one normal component.
pub fn filename_verdict(filename: &str, components: &[PathComponentKind]) -> (r: Result<(), RavynError>)
    ensures
        (!filename_text_rejected(filename@) && components@ == seq![PathComponentKind::Normal]) ==> r is Ok,
        !(!filename_text_rejected(filename@) && components@ == seq![PathComponentKind::Normal]) ==> (r matches Err(
            RavynError::Invalid(x),
        ) && x@ == filename_message()),
{
    let chars = chars_of(filename);
    let trimmed = trim_chars(chars.as_slice());
    let single_normal = components.len() == 1 && components[0] == PathComponentKind::Normal;
    proof {
        if components@ == seq![PathComponentKind::Normal] {
            assert(components@[0] == PathComponentKind::Normal);
        }
        if single_normal {
            assert(components@ =~= seq![PathComponentKind::Normal]);
        }
    }
    if trimmed.len() == 0 || utf8_length(chars.as_slice()) > 255 || any_control(chars.as_slice()) || !single_normal {
        return Err(RavynError::Invalid(String::from_str("filename must be a single safe path component")));
    }
    Ok(())
}

/// A portable path with a lead or more than one name does not split into a
/// single normal component.
proof fn lemma_portable_not_single(p: Seq<char>, kinds: Seq<PathComponentKind>)
    requires
        split_agrees(p, kinds),
    ensures
        forall|lead: Seq<PathComponentKind>, names: Seq<Seq<char>>|
            #[trigger] portable_path(p, lead, names) && (lead.len() > 0 || names.len() > 1) ==> kinds
                != seq![PathComponentKind::Normal],
{
    assert forall|lead: Seq<PathComponentKind>, names: Seq<Seq<char>>|
        #[trigger] portable_path(p, lead, names) && (lead.len() > 0 || names.len() > 1) implies kinds
            != seq![PathComponentKind::Normal] by {
        assert(kinds == lead + normal_components(names.len()));
        if lead.len() > 0 {
            assert(kinds[0] == lead[0]);
            assert(lead[0] != PathComponentKind::Normal);
        } else {
            assert(kinds.len() == names.len());
        }
    }
}

/// Rejects filenames that are not a single safe path component. Whatever
/// the platform makes of the path, a blank or over-long name, or one with
/// a control character, is refused.
pub fn validate_filename(filename: Option<&str>) -> (r: Result<(), RavynError>)
    ensures
        filename is None ==> r is Ok,
        filename matches Some(f) && filename_text_rejected(f@) ==> (r matches Err(RavynError::Invalid(x))
            && x@ == filename_message()),
        match filename {
            Some(f) => {
                &&& (f@ == "."@ || f@ == ".."@) ==> (r matches Err(RavynError::Invalid(x)) && x@ == filename_message())
                &&& simple_name(f@) ==> (r is Ok <==> !filename_text_rejected(f@))
                &&& forall|lead: Seq<PathComponentKind>, names: Seq<Seq<char>>|
                    #[trigger] portable_path(f@, lead, names) && (lead.len() > 0 || names.len() > 1) ==> (r matches Err(
                        RavynError::Invalid(x),
                    ) && x@ == filename_message())
            },
            None => true,
        },
        r matches Err(e) ==> (e matches RavynError::Invalid(x) && x@ == filename_message()),
{
    match filename {
        None => Ok(()),
        Some(f) => {
            let kinds = path_component_kinds(f);
            proof {
                if f@ == "."@ || f@ == ".."@ {
                    assert(kinds@[0] != PathComponentKind::Normal);
                    assert(kinds@ != seq![PathComponentKind::Normal]);
                }
                lemma_portable_not_single(f@, kinds@);
            }
            filename_verdict(f, kinds.as_slice())
        },
    }
}

// ---------------------------------------------------------------------------
// Tags
// ---------------------------------------------------------------------------

/// The distinct tag names, trimmed and lower-cased; blank tags are ignored.
pub open spec fn tag_set(tags: Seq<Seq<char>>) -> Set<Seq<char>>
    decreases tags.len(),
{
    if tags.len() == 0 {
        Set::empty()
    } else {
        let rest = tag_set(tags.drop_last());
        let t = trim(tags.last());
        if t.len() == 0 {
            rest
        } else {
            rest.insert(lower_seq(t))
        }
    }
}

pub open spec fn has_long_tag(tags: Seq<Seq<char>>) -> bool {
    exists|i: int| 0 <= i < tags.len() && utf8_len(trim(#[trigger] tags[i])) > 80
}

pub open spec fn string_views(v: Seq<String>) -> Seq<Seq<char>> {
    v.map_values(|s: String| s@)
}

proof fn lemma_tag_set_finite(tags: Seq<Seq<char>>)
    ensures
        tag_set(tags).finite(),
    decreases tags.len(),
{
    if tags.len() > 0 {
        lemma_tag_set_finite(tags.drop_last());
    }
}

/// Tags are at most 80 bytes each (after trimming) and at most 64 distinct
/// names (ignoring ASCII case) per job.
pub fn validate_tags(tags: &[String]) -> (r: Result<(), RavynError>)
    ensures
        has_long_tag(string_views(tags@)) ==> (r matches Err(RavynError::Invalid(x)) && x@
            == "tag names may not exceed 80 characters"@),
        !has_long_tag(string_views(tags@)) && tag_set(string_views(tags@)).len() > 64 ==> (r matches Err(
            RavynError::Invalid(x),
        ) && x@ == "a job may have at most 64 tags"@),
        !has_long_tag(string_views(tags@)) && tag_set(string_views(tags@)).len() <= 64 ==> r is Ok,
{
    let ghost views = string_views(tags@);
    let mut distinct: Vec<Vec<char>> = Vec::new();
    let mut i: usize = 0;
    while i < tags.len()
        invariant
            i <= tags@.len(),
            views == string_views(tags@),
            forall|j: int| 0 <= j < i ==> utf8_len(trim(#[trigger] views[j])) <= 80,
            distinct@.map_values(|v: Vec<char>| v@).no_duplicates(),
            distinct@.map_values(|v: Vec<char>| v@).to_set() == tag_set(views.subrange(0, i as int)),
        decreases tags@.len() - i,
    {
        let ghost prefix = views.subrange(0, i as int + 1);
        proof {
            assert(prefix.drop_last() =~= views.subrange(0, i as int));
            assert(prefix.last() == tags@[i as int]@);
        }
        let chars = chars_of(tags[i].as_str());
        let trimmed = trim_chars(chars.as_slice());
        if utf8_length(trimmed.as_slice()) > 80 {
            proof {
                assert(utf8_len(trim(views[i as int])) > 80);
            }
            return Err(RavynError::Invalid(String::from_str("tag names may not exceed 80 characters")));
        }
        if trimmed.len() > 0 {
            let lower = lowercase_ascii(trimmed.as_slice());
            let mut seen = false;
            let mut k: usize = 0;
            while k < distinct.len()
                invariant
                    k <= distinct@.len(),
                    seen == exists|j: int| 0 <= j < k && (#[trigger] distinct@[j])@ == lower@,
                decreases distinct@.len() - k,
            {
                if chars_equal(distinct[k].as_slice(), lower.as_slice()) {
                    seen = true;
                }
                k = k + 1;
            }
            let ghost before = distinct@.map_values(|v: Vec<char>| v@);
            if !seen {
                distinct.push(lower);
                proof {
                    let after = distinct@.map_values(|v: Vec<char>| v@);
                    assert(after =~= before.push(lower_seq(trim(views[i as int]))));
                    assert(!before.contains(lower_seq(trim(views[i as int])))) by {
                        if before.contains(lower_seq(trim(views[i as int]))) {
                            let j = choose|j: int| 0 <= j < before.len() && before[j] == lower_seq(trim(views[i as int]));
                            assert(distinct@[j]@ == lower@);
                        }
                    }
                    before.lemma_push_to_set_commute(lower_seq(trim(views[i as int])));
                }
            } else {
                proof {
                    let j = choose|j: int| 0 <= j < k && (#[trigger] distinct@[j])@ == lower@;
                    assert(before[j] == lower@);
                    assert(before.to_set().contains(lower@));
                    assert(before.to_set().insert(lower@) =~= before.to_set());
                }
            }
        }
        i = i + 1;
    }
    proof {
        assert(views.subrange(0, views.len() as int) =~= views);
        distinct@.map_values(|v: Vec<char>| v@).unique_seq_to_set();
        assert forall|j: int| 0 <= j < views.len() implies !(utf8_len(trim(#[trigger] views[j])) > 80) by {}
    }
    if distinct.len() > 64 {
        return Err(RavynError::Invalid(String::from_str("a job may have at most 64 tags")));
    }
    Ok(())
}

// ---------------------------------------------------------------------------
// Torrent options
// ---------------------------------------------------------------------------

/// What the seeding-ratio check reads of a configured ratio (a float, which
/// the caller classifies): whether it is finite, positive, and at most 10000.
#[derive(Debug, Clone, Copy, PartialEq, Eq, Structural)]
pub struct SeedRatio {
    pub finite: bool,
    pub positive: bool,
    pub at_most_limit: bool,
}

/// Options of a torrent job; the seeding ratio is held as its classification.
#[derive(Debug, Clone)]
pub struct TorrentOptions {
    /// File indexes to download. An empty list downloads every file.
    pub selected_files: Vec<usize>,
    pub file_regex: Option<String>,
    pub overwrite: bool,
    pub keep_managed: bool,
    pub seed_after_download: bool,
    pub delete_files_on_remove: bool,
    pub poll_interval_ms: u64,
    pub max_seed_ratio: Option<SeedRatio>,
    pub max_seed_time_secs: Option<u64>,
    pub min_seed_time_secs: u64,
}

impl Default for TorrentOptions {
    /// Keep the torrent managed and seeding, poll every second, no limits.
    fn default() -> (o: Self)
        ensures
            o.selected_files@.len() == 0,
            o.file_regex is None,
            !o.overwrite,
            o.keep_managed,
            o.seed_after_download,
            !o.delete_files_on_remove,
            o.poll_interval_ms == 1000,
            o.max_seed_ratio is None,
            o.max_seed_time_secs is None,
            o.min_seed_time_secs == 0,
    {
        TorrentOptions {
            selected_files: Vec::new(),
            file_regex: None,
            overwrite: false,
            keep_managed: true,
            seed_after_download: true,
            delete_files_on_remove: false,
            poll_interval_ms: 1000,
            max_seed_ratio: None,
            max_seed_time_secs: None,
            min_seed_time_secs: 0,
        }
    }
}

/// Ten years, in seconds.
pub const MAX_SEED_SECONDS: u64 = 315_576_000;

/// The first rule a torrent's seeding options break, if any.
pub open spec fn torrent_options_error(
    seed_after_download: bool,
    keep_managed: bool,
    max_seed_ratio: Option<SeedRatio>,
    max_seed_time_secs: Option<u64>,
    min_seed_time_secs: u64,
) -> Option<Seq<char>> {
    if seed_after_download && !keep_managed {
        Some("seed_after_download requires keep_managed to remain enabled"@)
    } else if !seed_after_download && (max_seed_ratio is Some || max_seed_time_secs is Some || min_seed_time_secs > 0) {
        Some("torrent seeding limits require seed_after_download to be enabled"@)
    } else if max_seed_ratio matches Some(r) && (!r.finite || !r.positive || !r.at_most_limit) {
        Some("max_seed_ratio must be a finite value between 0 and 10000"@)
    } else if max_seed_time_secs matches Some(t) && (t == 0 || t > MAX_SEED_SECONDS) {
        Some("max_seed_time_secs must be between 1 second and 10 years"@)
    } else if max_seed_time_secs matches Some(t) && min_seed_time_secs > t {
        Some("min_seed_time_secs may not exceed max_seed_time_secs"@)
    } else if min_seed_time_secs > MAX_SEED_SECONDS {
        Some("min_seed_time_secs may not exceed 10 years"@)
    } else {
        None
    }
}

/// Seeding needs a managed torrent, limits need seeding, and each limit
/// must lie in its range.
pub fn validate_torrent_options(options: &TorrentOptions) -> (r: Result<(), RavynError>)
    ensures
        match torrent_options_error(
            options.seed_after_download,
            options.keep_managed,
            options.max_seed_ratio,
            options.max_seed_time_secs,
            options.min_seed_time_secs,
        ) {
            None => r is Ok,
            Some(m) => r matches Err(RavynError::Invalid(x)) && x@ == m,
        },
{
    if options.seed_after_download && !options.keep_managed {
        return Err(RavynError::Invalid(String::from_str("seed_after_download requires keep_managed to remain enabled")));
    }
    if !options.seed_after_download && (options.max_seed_ratio.is_some() || options.max_seed_time_secs.is_some()
        || options.min_seed_time_secs > 0) {
        return Err(RavynError::Invalid(String::from_str("torrent seeding limits require seed_after_download to be enabled")));
    }
    match options.max_seed_ratio {
        Some(r) => {
            if !r.finite || !r.positive || !r.at_most_limit {
                return Err(RavynError::Invalid(String::from_str("max_seed_ratio must be a finite value between 0 and 10000")));
            }
        },
        None => {},
    }
    match options.max_seed_time_secs {
        Some(t) => {
            if t == 0 || t > MAX_SEED_SECONDS {
                return Err(RavynError::Invalid(String::from_str("max_seed_time_secs must be between 1 second and 10 years")));
            }
            if options.min_seed_time_secs > t {
                return Err(RavynError::Invalid(String::from_str("min_seed_time_secs may not exceed max_seed_time_secs")));
            }
        },
        None => {},
    }
    if options.min_seed_time_secs > MAX_SEED_SECONDS {
        return Err(RavynError::Invalid(String::from_str("min_seed_time_secs may not exceed 10 years")));
    }
    Ok(())
}

// ---------------------------------------------------------------------------
// Request fields
// ---------------------------------------------------------------------------

/// The browsers whose cookie stores a media job may read.
pub open spec fn known_browser(name: Seq<char>) -> bool {
    name == "brave"@ || name == "chrome"@ || name == "chromium"@ || name == "edge"@ || name == "firefox"@
        || name == "opera"@ || name == "safari"@ || name == "vivaldi"@ || name == "whale"@
}

/// Index of the first `+` or `:`, or the length.
pub open spec fn first_selector_split(s: Seq<char>) -> int {
    if exists|i: int| 0 <= i < s.len() && (s[i] == '+' || s[i] == ':') {
        choose|i: int|
            0 <= i < s.len() && (s[i] == '+' || s[i] == ':') && forall|j: int|
                0 <= j < i ==> !(s[j] == '+' || s[j] == ':')
    } else {
        s.len() as int
    }
}

/// A `cookies_from_browser` selector is at most 256 bytes, names a known
/// browser before any `+` or `:`, and holds no control character.
pub open spec fn browser_selector_ok(s: Seq<char>) -> bool {
    utf8_len(s) <= 256 && known_browser(s.subrange(0, first_selector_split(s))) && !has_control(s)
}

fn is_known_browser(name: &[char]) -> (b: bool)
    ensures
        b == known_browser(name@),
{
    let names = [
        chars_of("brave"),
        chars_of("chrome"),
        chars_of("chromium"),
        chars_of("edge"),
        chars_of("firefox"),
        chars_of("opera"),
        chars_of("safari"),
        chars_of("vivaldi"),
        chars_of("whale"),
    ];
    chars_equal(name, names[0].as_slice()) || chars_equal(name, names[1].as_slice()) || chars_equal(
        name,
        names[2].as_slice(),
    ) || chars_equal(name, names[3].as_slice()) || chars_equal(name, names[4].as_slice()) || chars_equal(
        name,
        names[5].as_slice(),
    ) || chars_equal(name, names[6].as_slice()) || chars_equal(name, names[7].as_slice()) || chars_equal(
        name,
        names[8].as_slice(),
    )
}

pub fn validate_cookies_browser(browser: &str) -> (r: Result<(), RavynError>)
    ensures
        browser_selector_ok(browser@) ==> r is Ok,
        !browser_selector_ok(browser@) ==> (r matches Err(RavynError::Invalid(x)) && x@
            == "cookies_from_browser contains an unsupported or unsafe browser selector"@),
{
    let chars = chars_of(browser);
    let mut k: usize = 0;
    while k < chars.len() && chars[k] != '+' && chars[k] != ':'
        invariant
            k <= chars@.len(),
            forall|j: int| 0 <= j < k ==> !(chars@[j] == '+' || chars@[j] == ':'),
        decreases chars@.len() - k,
    {
        k = k + 1;
    }
    proof {
        let s = browser@;
        if exists|i: int| 0 <= i < s.len() && (s[i] == '+' || s[i] == ':') {
            let c = first_selector_split(s);
            assert(0 <= c < s.len() && (s[c] == '+' || s[c] == ':'));
            if c < k {
                assert(!(chars@[c] == '+' || chars@[c] == ':'));
            }
            if k < c {
                assert(chars@[k as int] == '+' || chars@[k as int] == ':');
            }
            assert(c == k);
        } else {
            if k < chars@.len() {
                assert(chars@[k as int] == '+' || chars@[k as int] == ':');
            }
        }
    }
    let name = slice_range_prefix(chars.as_slice(), k);
    if utf8_length(chars.as_slice()) > 256 || !is_known_browser(name.as_slice()) || any_control(chars.as_slice()) {
        return Err(RavynError::Invalid(String::from_str("cookies_from_browser contains an unsupported or unsafe browser selector")));
    }
    Ok(())
}

fn slice_range_prefix(s: &[char], k: usize) -> (t: Vec<char>)
    requires
        k <= s@.len(),
    ensures
        t@ == s@.subrange(0, k as int),
{
    crate::text::slice_range(s, 0, k)
}

/// Mirrors belong to HTTP jobs only, at most 16 of them.
pub fn validate_mirror_count(kind: JobKind, count: usize) -> (r: Result<(), RavynError>)
    ensures
        count == 0 ==> r is Ok,
        count > 0 && kind != JobKind::Http ==> (r matches Err(RavynError::Invalid(x)) && x@
            == "alternate mirrors are supported only for HTTP jobs"@),
        count > 16 && kind == JobKind::Http ==> (r matches Err(RavynError::Invalid(x)) && x@
            == "an HTTP job may define at most 16 mirrors"@),
        0 < count <= 16 && kind == JobKind::Http ==> r is Ok,
{
    if count == 0 {
        return Ok(());
    }
    if kind != JobKind::Http {
        return Err(RavynError::Invalid(String::from_str("alternate mirrors are supported only for HTTP jobs")));
    }
    if count > 16 {
        return Err(RavynError::Invalid(String::from_str("an HTTP job may define at most 16 mirrors")));
    }
    Ok(())
}

pub open spec fn is_sha256_hex(h: Seq<char>) -> bool {
    h.len() == 64 && forall|i: int| 0 <= i < h.len() ==> is_ascii_hexdigit(#[trigger] h[i])
}

pub open spec fn sha256_message() -> Seq<char> {
    "expected SHA-256 must be 64 hexadecimal characters"@
}

/// An expected digest must be a SHA-256 written as 64 hex digits.
pub fn validate_sha256(expected: &str) -> (r: Result<(), RavynError>)
    ensures
        is_sha256_hex(expected@) ==> r is Ok,
        !is_sha256_hex(expected@) ==> (r matches Err(RavynError::Invalid(x)) && x@ == sha256_message()),
{
    if sha256_hex_ok(expected) {
        Ok(())
    } else {
        Err(RavynError::Invalid(String::from_str("expected SHA-256 must be 64 hexadecimal characters")))
    }
}

pub open spec fn ceil_div(a: nat, b: nat) -> nat {
    if b == 0 { 0 } else { ((a + b - 1) as nat) / b }
}

/// The first rule a Metalink description breaks, if any: it needs an HTTP
/// job and a positive size; piece hashes need a positive piece length and
/// must be one 64-digit hex SHA-256 per piece, at most 16384 of them.
pub open spec fn metalink_error(kind: JobKind, size: u64, piece_length: Option<u64>, hashes: Seq<Seq<char>>) -> Option<Seq<char>> {
    if kind != JobKind::Http || size == 0 {
        Some("Metalink metadata requires an HTTP job with a positive size"@)
    } else {
        match piece_length {
            Some(length) => if length > 0 {
                if hashes.len() != ceil_div(size as nat, length as nat) || hashes.len() > 16_384 || exists|i: int|
                    0 <= i < hashes.len() && !is_sha256_hex(#[trigger] hashes[i]) {
                    Some("Metalink piece hashes do not match the declared layout"@)
                } else {
                    None
                }
            } else {
                Some("Metalink piece hashes require a positive piece length"@)
            },
            None => if hashes.len() == 0 {
                None
            } else {
                Some("Metalink piece hashes require a positive piece length"@)
            },
        }
    }
}

fn sha256_hex_ok(h: &str) -> (b: bool)
    ensures
        b == is_sha256_hex(h@),
{
    let chars = chars_of(h);
    if chars.len() != 64 {
        return false;
    }
    let mut i: usize = 0;
    while i < chars.len()
        invariant
            i <= chars@.len(),
            chars@ == h@,
            forall|j: int| 0 <= j < i ==> is_ascii_hexdigit(#[trigger] chars@[j]),
        decreases chars@.len() - i,
    {
        if !char_is_ascii_hexdigit(chars[i]) {
            return false;
        }
        i = i + 1;
    }
    true
}

pub fn validate_metalink(kind: JobKind, metalink: &MetalinkMetadata) -> (r: Result<(), RavynError>)
    ensures
        match metalink_error(kind, metalink.size, metalink.piece_length, string_views(metalink.piece_sha256@)) {
            None => r is Ok,
            Some(m) => r matches Err(RavynError::Invalid(x)) && x@ == m,
        },
{
    let ghost hashes = string_views(metalink.piece_sha256@);
    if kind != JobKind::Http || metalink.size == 0 {
        return Err(RavynError::Invalid(String::from_str("Metalink metadata requires an HTTP job with a positive size")));
    }
    match metalink.piece_length {
        Some(length) => {
            if length == 0 {
                return Err(RavynError::Invalid(String::from_str("Metalink piece hashes require a positive piece length")));
            }
            let size = metalink.size as u128;
            let len = length as u128;
            let expected: u128 = size / len + if size % len == 0 { 0 } else { 1 };
            proof {
                assert(expected == ceil_div(size as nat, len as nat)) by (nonlinear_arith)
                    requires
                        len > 0,
                        expected == size / len + if size % len == 0 { 0int } else { 1int },
                {
                }
            }
            let n = metalink.piece_sha256.len();
            proof {
                assert(hashes.len() == n);
            }
            if n as u128 != expected || n > 16_384 {
                return Err(RavynError::Invalid(String::from_str("Metalink piece hashes do not match the declared layout")));
            }
            let mut i: usize = 0;
            while i < n
                invariant
                    i <= n,
                    n == metalink.piece_sha256@.len(),
                    kind == JobKind::Http,
                    metalink.size > 0,
                    metalink.piece_length == Some(length),
                    length > 0,
                    hashes == string_views(metalink.piece_sha256@),
                    forall|j: int| 0 <= j < i ==> is_sha256_hex(#[trigger] hashes[j]),
                decreases n - i,
            {
                if !sha256_hex_ok(metalink.piece_sha256[i].as_str()) {
                    proof {
                        assert(!is_sha256_hex(hashes[i as int]));
                    }
                    return Err(RavynError::Invalid(String::from_str("Metalink piece hashes do not match the declared layout")));
                }
                i = i + 1;
            }
            Ok(())
        },
        None => {
            if metalink.piece_sha256.len() == 0 {
                Ok(())
            } else {
                Err(RavynError::Invalid(String::from_str("Metalink piece hashes require a positive piece length")))
            }
        },
    }
}

/// An idempotency key, trimmed, must hold between 1 and 200 bytes; the
/// trimmed key is what identifies the request.
pub fn validate_idempotency_key(key: &str) -> (r: Result<String, RavynError>)
    ensures
        (trim(key@).len() == 0 || utf8_len(trim(key@)) > 200) ==> (r matches Err(RavynError::Invalid(x)) && x@
            == "Idempotency-Key must contain between 1 and 200 characters"@),
        !(trim(key@).len() == 0 || utf8_len(trim(key@)) > 200) ==> (r matches Ok(k) && k@ == trim(key@)),
{
    let chars = chars_of(key);
    let trimmed = trim_chars(chars.as_slice());
    if trimmed.len() == 0 || utf8_length(trimmed.as_slice()) > 200 {
        return Err(RavynError::Invalid(String::from_str("Idempotency-Key must contain between 1 and 200 characters")));
    }
    Ok(string_of(trimmed.as_slice()))
}

/// A speed limit must fit the database's signed 64-bit integers.
pub fn validate_speed_limit(speed_limit_bps: Option<u64>) -> (r: Result<(), RavynError>)
    ensures
        (speed_limit_bps matches Some(v) && v > i64::MAX) ==> (r matches Err(RavynError::Invalid(x)) && x@
            == "speed limit exceeds SQLite integer range"@),
        !(speed_limit_bps matches Some(v) && v > i64::MAX) ==> r is Ok,
{
    match speed_limit_bps {
        Some(v) => if v > i64::MAX as u64 {
            return Err(RavynError::Invalid(String::from_str("speed limit exceeds SQLite integer range")));
        },
        None => {},
    }
    Ok(())
}

// ---------------------------------------------------------------------------
// Status rules
// ---------------------------------------------------------------------------

/// Destination and filename may change only before any data was written.
pub fn check_routing_edit(routing_change: bool, status: JobStatus, downloaded_bytes: i64) -> (r: Result<(), RavynError>)
    ensures
        (routing_change && (!(status == JobStatus::Queued || status == JobStatus::Paused) || downloaded_bytes != 0))
            ==> (r matches Err(RavynError::Conflict(x)) && x@
            == "destination and filename are editable only before data has been written"@),
        !(routing_change && (!(status == JobStatus::Queued || status == JobStatus::Paused) || downloaded_bytes != 0))
            ==> r is Ok,
{
    if routing_change && (!(status == JobStatus::Queued || status == JobStatus::Paused) || downloaded_bytes != 0) {
        return Err(RavynError::Conflict(String::from_str("destination and filename are editable only before data has been written")));
    }
    Ok(())
}

/// The statuses a job may be paused from: queued, probing or downloading,
/// and for torrents also seeding.
pub open spec fn spec_pausable(kind: JobKind) -> Seq<JobStatus> {
    if kind == JobKind::Torrent {
        seq![JobStatus::Queued, JobStatus::Downloading, JobStatus::Probing, JobStatus::Seeding]
    } else {
        seq![JobStatus::Queued, JobStatus::Downloading, JobStatus::Probing]
    }
}

/// Pause acts on a job that is queued, probing or downloading, of any kind,
/// and on a seeding torrent; on nothing else, and each status is listed once.
pub proof fn lemma_pausable_statuses(kind: JobKind, s: JobStatus)
    ensures
        spec_pausable(kind).contains(s) <==> (s == JobStatus::Queued || s == JobStatus::Downloading || s
            == JobStatus::Probing || (kind == JobKind::Torrent && s == JobStatus::Seeding)),
        spec_pausable(kind).no_duplicates(),
{
    let v = spec_pausable(kind);
    if s == JobStatus::Queued {
        assert(v[0] == s);
    } else if s == JobStatus::Downloading {
        assert(v[1] == s);
    } else if s == JobStatus::Probing {
        assert(v[2] == s);
    } else if kind == JobKind::Torrent && s == JobStatus::Seeding {
        assert(v[3] == s);
    }
}

pub fn pausable_statuses(kind: JobKind) -> (v: Vec<JobStatus>)
    ensures
        v@ == spec_pausable(kind),
{
    let mut v = vec![JobStatus::Queued, JobStatus::Downloading, JobStatus::Probing];
    if kind == JobKind::Torrent {
        v.push(JobStatus::Seeding);
    }
    proof {
        assert(v@ =~= spec_pausable(kind));
    }
    v
}

/// The statuses `resume` moves a job out of.
pub fn resumable_statuses() -> (v: Vec<JobStatus>)
    ensures
        v@ == seq![JobStatus::Paused, JobStatus::Failed],
{
    let v = vec![JobStatus::Paused, JobStatus::Failed];
    proof {
        assert(v@ =~= seq![JobStatus::Paused, JobStatus::Failed]);
    }
    v
}

/// A paused torrent whose seeding never stopped goes back to seeding; any
/// other resumed job is queued.
pub fn resume_target(kind: JobKind, status: JobStatus, seeding_active: bool) -> (s: JobStatus)
    ensures
        s == if kind == JobKind::Torrent && status == JobStatus::Paused && seeding_active {
            JobStatus::Seeding
        } else {
            JobStatus::Queued
        },
{
    if kind == JobKind::Torrent && status == JobStatus::Paused && seeding_active {
        JobStatus::Seeding
    } else {
        JobStatus::Queued
    }
}

/// The statuses `retry` moves a job out of.
pub fn retryable_statuses() -> (v: Vec<JobStatus>)
    ensures
        v@ == seq![JobStatus::Failed, JobStatus::Cancelled, JobStatus::Partial],
{
    let v = vec![JobStatus::Failed, JobStatus::Cancelled, JobStatus::Partial];
    proof {
        assert(v@ =~= seq![JobStatus::Failed, JobStatus::Cancelled, JobStatus::Partial]);
    }
    v
}

// ---------------------------------------------------------------------------
// Creating a job
// ---------------------------------------------------------------------------

/// The parts of a job request that creation checks on their own, before any
/// path, secret or network source is resolved.
pub struct CreateRequest {
    pub kind: JobKind,
    pub tags: Vec<String>,
    pub filename: Option<String>,
    /// The SHA-256 the finished file must have, as hex text.
    pub expected_sha256: Option<String>,
    pub speed_limit_bps: Option<u64>,
    pub post_actions: Vec<PostAction>,
    pub torrent: Option<TorrentOptions>,
    pub cookies_from_browser: Option<String>,
    pub mirror_count: usize,
    pub metalink: Option<MetalinkMetadata>,
}

/// The first check a request fails, in the order creation runs them, given
/// the path components of its filename (when it has one).
pub open spec fn create_request_error(
    r: CreateRequest,
    filename_components: Seq<PathComponentKind>,
    allow_unsafe_ffmpeg: bool,
) -> Option<Seq<char>> {
    let tags = string_views(r.tags@);
    if has_long_tag(tags) {
        Some("tag names may not exceed 80 characters"@)
    } else if tag_set(tags).len() > 64 {
        Some("a job may have at most 64 tags"@)
    } else if r.filename matches Some(f) && (filename_text_rejected(f@) || filename_components
        != seq![PathComponentKind::Normal]) {
        Some(filename_message())
    } else if r.expected_sha256 matches Some(h) && !is_sha256_hex(h@) {
        Some(sha256_message())
    } else if r.speed_limit_bps matches Some(v) && v > i64::MAX {
        Some("speed limit exceeds SQLite integer range"@)
    } else if r.post_actions@.len() > 32 {
        Some("a job may contain at most 32 post-processing actions"@)
    } else if first_action_error(r.post_actions@, allow_unsafe_ffmpeg, 0) is Some {
        first_action_error(r.post_actions@, allow_unsafe_ffmpeg, 0)
    } else if r.torrent matches Some(t) && torrent_options_error(
        t.seed_after_download,
        t.keep_managed,
        t.max_seed_ratio,
        t.max_seed_time_secs,
        t.min_seed_time_secs,
    ) is Some {
        torrent_options_error(
            r.torrent->0.seed_after_download,
            r.torrent->0.keep_managed,
            r.torrent->0.max_seed_ratio,
            r.torrent->0.max_seed_time_secs,
            r.torrent->0.min_seed_time_secs,
        )
    } else if r.cookies_from_browser matches Some(b) && !browser_selector_ok(b@) {
        Some("cookies_from_browser contains an unsupported or unsafe browser selector"@)
    } else if r.mirror_count > 0 && r.kind != JobKind::Http {
        Some("alternate mirrors are supported only for HTTP jobs"@)
    } else if r.mirror_count > 16 {
        Some("an HTTP job may define at most 16 mirrors"@)
    } else if r.metalink matches Some(m) && metalink_error(r.kind, m.size, m.piece_length, string_views(m.piece_sha256@)) is Some {
        metalink_error(
            r.kind,
            r.metalink->0.size,
            r.metalink->0.piece_length,
            string_views(r.metalink->0.piece_sha256@),
        )
    } else {
        None
    }
}

/// Runs creation's checks in order on a request whose filename splits into
/// `filename_components`.
pub fn create_request_verdict(
    request: &CreateRequest,
    filename_components: &[PathComponentKind],
    allow_unsafe_ffmpeg: bool,
) -> (r: Result<(), RavynError>)
    ensures
        match create_request_error(*request, filename_components@, allow_unsafe_ffmpeg) {
            None => r is Ok,
            Some(m) => r matches Err(RavynError::Invalid(x)) && x@ == m,
        },
{
    match validate_tags(request.tags.as_slice()) {
        Ok(()) => {},
        Err(e) => {
            return Err(e);
        },
    }
    match &request.filename {
        Some(f) => match filename_verdict(f.as_str(), filename_components) {
            Ok(()) => {},
            Err(e) => {
                return Err(e);
            },
        },
        None => {},
    }
    match &request.expected_sha256 {
        Some(h) => match validate_sha256(h.as_str()) {
            Ok(()) => {},
            Err(e) => {
                return Err(e);
            },
        },
        None => {},
    }
    match validate_speed_limit(request.speed_limit_bps) {
        Ok(()) => {},
        Err(e) => {
            return Err(e);
        },
    }
    match validate_post_actions(request.post_actions.as_slice(), allow_unsafe_ffmpeg) {
        Ok(()) => {},
        Err(e) => {
            return Err(e);
        },
    }
    match &request.torrent {
        Some(t) => match validate_torrent_options(t) {
            Ok(()) => {},
            Err(e) => {
                return Err(e);
            },
        },
        None => {},
    }
    match &request.cookies_from_browser {
        Some(b) => match validate_cookies_browser(b.as_str()) {
            Ok(()) => {},
            Err(e) => {
                return Err(e);
            },
        },
        None => {},
    }
    match validate_mirror_count(request.kind, request.mirror_count) {
        Ok(()) => {},
        Err(e) => {
            return Err(e);
        },
    }
    match &request.metalink {
        Some(m) => validate_metalink(request.kind, m),
        None => Ok(()),
    }
}

/// Runs creation's checks in order. The filename's path components are
/// those the platform gives, which agree with `split_agrees`; so a filename
/// with a separator between simple names, or after a leading `/` or `../`,
/// is always refused.
pub fn validate_create_request(request: &CreateRequest, allow_unsafe_ffmpeg: bool) -> (r: Result<(), RavynError>)
    ensures
        exists|components: Seq<PathComponentKind>|
            (request.filename matches Some(f) ==> split_agrees(f@, components)) && match #[trigger] create_request_error(
                *request,
                components,
                allow_unsafe_ffmpeg,
            ) {
                None => r is Ok,
                Some(m) => r matches Err(RavynError::Invalid(x)) && x@ == m,
            },
        match request.filename {
            Some(f) => forall|lead: Seq<PathComponentKind>, names: Seq<Seq<char>>|
                #[trigger] portable_path(f@, lead, names) && (lead.len() > 0 || names.len() > 1) ==> r matches Err(
                    RavynError::Invalid(_),
                ),
            None => true,
        },
{
    let components = match &request.filename {
        Some(f) => path_component_kinds(f.as_str()),
        None => Vec::new(),
    };
    let r = create_request_verdict(request, components.as_slice(), allow_unsafe_ffmpeg);
    proof {
        let e = create_request_error(*request, components@, allow_unsafe_ffmpeg);
        if request.filename is Some {
            lemma_portable_not_single(request.filename->0@, components@);
        }
    }
    r
}

} // verus!
