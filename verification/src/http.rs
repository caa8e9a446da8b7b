//! HTTP transfer rules: resume and `Content-Disposition` header contracts,
//! retry timing, origin comparison for credential forwarding, and the
//! decisions a transfer takes between its network steps.
use vstd::prelude::*;
use crate::bandwidth::{FlowClass, FlowConfig};
use crate::error::RavynError;
use crate::planner::{adaptive_segment_count, max_usize, min_usize, profile_adjusted_segment_count, size_tier, spec_profile_adjusted, SLOW_HOST_BPS};
use crate::text::{
    chars_eq_ignore_ascii_case, chars_of, dec, eq_ignore_ascii_case, lower_seq, lowercase_ascii, find, find_seq, parse_u64, parse_u64_chars, push_decimal, slice_range,
    split_chars, split_on, string_of, strip_prefix, strip_prefix_chars, trim, trim_chars,
    trim_matches, trim_matches_chars,
};

verus! {

// ---------------------------------------------------------------------------
// Resume contract
// ---------------------------------------------------------------------------

/// What `validate_resume_range` decides: `Ok` or the protocol error's message.
pub open spec fn resume_range_outcome(value: Option<Seq<char>>, start: u64, total: Option<u64>) -> Result<(), Seq<char>> {
    match value {
        None => Err("missing Content-Range"@),
        Some(v) => {
            let invalid = "invalid Content-Range: "@ + v;
            match strip_prefix(v, "bytes "@) {
                None => Err(invalid),
                Some(rest) => match find_seq(rest, seq!['/']) {
                    None => Err(invalid),
                    Some(i) => {
                        let range = rest.subrange(0, i);
                        let response_total = rest.subrange(i + 1, rest.len() as int);
                        match find_seq(range, seq!['-']) {
                            None => Err(invalid),
                            Some(j) => match parse_u64(range.subrange(0, j)) {
                                None => Err(invalid),
                                Some(response_start) => if response_start != start {
                                    Err("resume started at "@ + dec(response_start as nat) + ", expected "@
                                        + dec(start as nat))
                                } else {
                                    match total {
                                        None => Ok(()),
                                        Some(expected) => match parse_u64(response_total) {
                                            None => Err(invalid),
                                            Some(t) => if t != expected {
                                                Err("remote length changed from "@ + dec(expected as nat) + " to "@
                                                    + dec(t as nat))
                                            } else {
                                                Ok(())
                                            },
                                        },
                                    }
                                },
                            },
                        }
                    },
                },
            }
        },
    }
}

fn protocol_error(m: String) -> (e: RavynError)
    ensures
        e matches RavynError::Protocol(x) && x@ == m@,
{
    RavynError::Protocol(m)
}

fn invalid_content_range(value: &str) -> (e: RavynError)
    ensures
        e matches RavynError::Protocol(x) && x@ == "invalid Content-Range: "@ + value@,
{
    let mut m = String::from_str("invalid Content-Range: ");
    m.append(value);
    RavynError::Protocol(m)
}

/// Validates a resume response's `Content-Range` contract: the range must
/// start where the partial file ends and, when the length is known, report
/// the same total.
pub fn validate_resume_range(value: Option<&str>, start: u64, total: Option<u64>) -> (r: Result<(), RavynError>)
    ensures
        match resume_range_outcome(
            match value {
                Some(v) => Some(v@),
                None => None,
            },
            start,
            total,
        ) {
            Ok(_) => r is Ok,
            Err(m) => r matches Err(RavynError::Protocol(x)) && x@ == m,
        },
{
    let value = match value {
        Some(v) => v,
        None => return Err(protocol_error(String::from_str("missing Content-Range"))),
    };
    let chars = chars_of(value);
    let prefix = chars_of("bytes ");
    let rest = match strip_prefix_chars(chars.as_slice(), prefix.as_slice()) {
        Some(rest) => rest,
        None => return Err(invalid_content_range(value)),
    };
    let slash = vec!['/'];
    proof {
        assert(slash@ == seq!['/']);
    }
    let i = match find(rest.as_slice(), slash.as_slice()) {
        Some(i) => i,
        None => return Err(invalid_content_range(value)),
    };
    let n = rest.len();
    proof {
        assert(i + 1 <= rest@.len());
    }
    let range = slice_range(rest.as_slice(), 0, i);
    let response_total = slice_range(rest.as_slice(), i + 1, n);
    let dash = vec!['-'];
    proof {
        assert(dash@ == seq!['-']);
    }
    let j = match find(range.as_slice(), dash.as_slice()) {
        Some(j) => j,
        None => return Err(invalid_content_range(value)),
    };
    let first = slice_range(range.as_slice(), 0, j);
    let response_start = match parse_u64_chars(first.as_slice()) {
        Some(s) => s,
        None => return Err(invalid_content_range(value)),
    };
    if response_start != start {
        let mut m = String::from_str("resume started at ");
        push_decimal(&mut m, response_start);
        m.append(", expected ");
        push_decimal(&mut m, start);
        return Err(protocol_error(m));
    }
    match total {
        None => Ok(()),
        Some(expected) => {
            let t = match parse_u64_chars(response_total.as_slice()) {
                Some(t) => t,
                None => return Err(invalid_content_range(value)),
            };
            if t != expected {
                let mut m = String::from_str("remote length changed from ");
                push_decimal(&mut m, expected);
                m.append(" to ");
                push_decimal(&mut m, t);
                return Err(protocol_error(m));
            }
            Ok(())
        },
    }
}

// ---------------------------------------------------------------------------
// Content-Disposition
// ---------------------------------------------------------------------------

/// What `percent_encoding::percent_decode_str(input).decode_utf8_lossy()` yields.
pub uninterp spec fn percent_decoded_lossy(input: Seq<char>) -> Seq<char>;

/// `percent_encoding::percent_decode_str` followed by `decode_utf8_lossy`.
/// The contract names the result; the one fact stated beside the name is
/// that text without `%` comes back unchanged, which the crate's source
/// shows (no byte is rewritten and valid UTF-8 is kept as it is).
#[verifier::external_body]
fn percent_decode_lossy(input: &str) -> (r: String)
    ensures
        r@ == percent_decoded_lossy(input@),
        !input@.contains('%') ==> r@ == input@,
{
    percent_encoding::percent_decode_str(input).decode_utf8_lossy().into_owned()
}

/// The first index from `k` on whose trimmed piece starts with `p`.
pub open spec fn first_prefixed(parts: Seq<Seq<char>>, p: Seq<char>, k: int) -> Option<int>
    decreases parts.len() - k,
{
    if k < 0 || k >= parts.len() {
        None
    } else if strip_prefix(trim(parts[k]), p) is Some {
        Some(k)
    } else {
        first_prefixed(parts, p, k + 1)
    }
}

/// The text after the first `''` (the RFC 5987 charset and language prefix), or all of it.
pub open spec fn after_charset(s: Seq<char>) -> Seq<char> {
    match find_seq(s, seq!['\'', '\'']) {
        Some(i) => s.subrange(i + 2, s.len() as int),
        None => s,
    }
}

/// The filename a `Content-Disposition` value names: an extended
/// `filename*=` parameter wins (percent-decoded), then a plain `filename=`.
pub open spec fn disposition_filename(value: Seq<char>) -> Option<Seq<char>> {
    let parts = split_on(value, ';');
    match first_prefixed(parts, "filename*="@, 0) {
        Some(k) => {
            let encoded = trim_matches(strip_prefix(trim(parts[k]), "filename*="@)->0, '"');
            Some(percent_decoded_lossy(after_charset(encoded)))
        },
        None => match first_prefixed(parts, "filename="@, 0) {
            Some(k) => Some(trim_matches(strip_prefix(trim(parts[k]), "filename="@)->0, '"')),
            None => None,
        },
    }
}

/// Finds the first piece whose trimmed text starts with `p`, and returns
/// what follows the prefix.
fn find_parameter(parts: &Vec<Vec<char>>, p: &[char]) -> (r: Option<(usize, Vec<char>)>)
    ensures
        match r {
            Some((k, rest)) => k < parts@.len() && first_prefixed(parts@.map_values(|v: Vec<char>| v@), p@, 0) == Some(k as int)
                && strip_prefix(trim(parts@[k as int]@), p@) == Some(rest@),
            None => first_prefixed(parts@.map_values(|v: Vec<char>| v@), p@, 0) is None,
        },
{
    let ghost views = parts@.map_values(|v: Vec<char>| v@);
    let mut k: usize = parts.len();
    let mut found: Option<(usize, Vec<char>)> = None;
    // scan from the back so that the earliest match is the one kept
    while k > 0
        invariant
            k <= parts@.len(),
            views == parts@.map_values(|v: Vec<char>| v@),
            match found {
                Some((i, rest)) => i < parts@.len() && first_prefixed(views, p@, k as int) == Some(i as int)
                    && strip_prefix(trim(views[i as int]), p@) == Some(rest@),
                None => first_prefixed(views, p@, k as int) is None,
            },
        decreases k,
    {
        k = k - 1;
        let piece = trim_chars(parts[k].as_slice());
        proof {
            assert(views[k as int] == parts@[k as int]@);
        }
        match strip_prefix_chars(piece.as_slice(), p) {
            Some(rest) => {
                found = Some((k, rest));
            },
            None => {},
        }
    }
    proof {
        match &found {
            Some(pair) => {
                assert(views[pair.0 as int] == parts@[pair.0 as int]@);
            },
            None => {},
        }
    }
    found
}

/// Extracts a filename candidate from `Content-Disposition`.
pub fn content_disposition_filename(value: Option<&str>) -> (r: Option<String>)
    ensures
        match value {
            None => r is None,
            Some(v) => match disposition_filename(v@) {
                Some(name) => r matches Some(s) && s@ == name,
                None => r is None,
            },
        },
{
    let value = match value {
        Some(v) => v,
        None => return None,
    };
    let chars = chars_of(value);
    let parts = split_chars(chars.as_slice(), ';');
    proof {
        assert(parts@.map_values(|v: Vec<char>| v@) =~= split_on(value@, ';'));
    }
    let ghost pieces = split_on(value@, ';');
    let extended = chars_of("filename*=");
    match find_parameter(&parts, extended.as_slice()) {
        Some((k, encoded)) => {
            proof {
                assert(first_prefixed(pieces, "filename*="@, 0) == Some(k as int));
                assert(encoded@ == strip_prefix(trim(pieces[k as int]), "filename*="@)->0);
            }
            let unquoted = trim_matches_chars(encoded.as_slice(), '"');
            let marker = vec!['\'', '\''];
            proof {
                assert(marker@ == seq!['\'', '\'']);
            }
            let body = match find(unquoted.as_slice(), marker.as_slice()) {
                Some(i) => {
                    let n = unquoted.len();
                    proof {
                        assert(i + 2 <= unquoted@.len());
                    }
                    slice_range(unquoted.as_slice(), i + 2, n)
                },
                None => unquoted,
            };
            proof {
                assert(body@ == after_charset(trim_matches(encoded@, '"')));
            }
            let text = string_of(body.as_slice());
            return Some(percent_decode_lossy(text.as_str()));
        },
        None => {},
    }
    let plain = chars_of("filename=");
    match find_parameter(&parts, plain.as_slice()) {
        Some((_, name)) => {
            let unquoted = trim_matches_chars(name.as_slice(), '"');
            Some(string_of(unquoted.as_slice()))
        },
        None => None,
    }
}


// ---------------------------------------------------------------------------
// Retry timing
// ---------------------------------------------------------------------------

/// `Retry-After` in whole seconds, capped at one minute; `None` when the
/// header is absent or not a plain number of seconds.
pub open spec fn spec_retry_after_secs(value: Option<Seq<char>>) -> Option<u64> {
    match value {
        Some(v) => match parse_u64(v) {
            Some(n) => Some(if n <= 60 { n } else { 60u64 }),
            None => None,
        },
        None => None,
    }
}

pub fn retry_after_secs(value: Option<&str>) -> (r: Option<u64>)
    ensures
        r == spec_retry_after_secs(match value {
            Some(v) => Some(v@),
            None => None,
        }),
{
    match value {
        Some(v) => {
            let chars = chars_of(v);
            match parse_u64_chars(chars.as_slice()) {
                Some(n) => Some(if n <= 60 { n } else { 60 }),
                None => None,
            }
        },
        None => None,
    }
}

/// Too many requests, or any server error.
pub open spec fn spec_is_transient_status(status: u16) -> bool {
    status == 429 || (500 <= status && status <= 599)
}

pub fn is_transient_status(status: u16) -> (b: bool)
    ensures
        b == spec_is_transient_status(status),
{
    status == 429 || (500 <= status && status <= 599)
}

/// The wait before a whole-transfer retry, in milliseconds: the server's
/// `Retry-After` when given, otherwise 250 ms doubled per attempt (at most
/// seven doublings) plus a deterministic jitter; never more than a minute.
pub open spec fn spec_backoff_delay_millis(attempt: u32, retry_after_secs: Option<u64>) -> int {
    let wanted = match retry_after_secs {
        Some(s) => s * 1000,
        None => 250 * vstd::arithmetic::power2::pow2((if attempt <= 7 { attempt } else { 7 }) as nat)
            + (attempt * 97 + 53) % 211,
    };
    if wanted <= 60_000 { wanted } else { 60_000 }
}

pub fn backoff_delay_millis(attempt: u32, retry_after_secs: Option<u64>) -> (ms: u64)
    ensures
        ms == spec_backoff_delay_millis(attempt, retry_after_secs),
{
    let wanted: u128 = match retry_after_secs {
        Some(s) => s as u128 * 1000,
        None => {
            let e: u32 = if attempt <= 7 { attempt } else { 7 };
            let mut f: u128 = 1;
            let mut k: u32 = 0;
            proof {
                vstd::arithmetic::power2::lemma2_to64();
            }
            while k < e
                invariant
                    k <= e <= 7,
                    f <= 128,
                    f == vstd::arithmetic::power2::pow2(k as nat),
                decreases e - k,
            {
                proof {
                    vstd::arithmetic::power2::lemma2_to64();
                }
                f = f * 2;
                k = k + 1;
            }
            250 * f + (attempt as u128 * 97 + 53) % 211
        },
    };
    if wanted <= 60_000 {
        wanted as u64
    } else {
        60_000
    }
}

// ---------------------------------------------------------------------------
// URLs and origins
// ---------------------------------------------------------------------------

/// The parts of a parsed URL that the transfer rules read.
pub struct UrlParts {
    pub serialization: String,
    pub scheme: String,
    pub host: Option<String>,
    pub port: Option<u16>,
    pub path: String,
}

/// The mathematical value of `UrlParts`.
pub struct UrlModel {
    pub serialization: Seq<char>,
    pub scheme: Seq<char>,
    pub host: Option<Seq<char>>,
    pub port: Option<u16>,
    pub path: Seq<char>,
}

pub open spec fn opt_view(o: Option<String>) -> Option<Seq<char>> {
    match o {
        Some(s) => Some(s@),
        None => None,
    }
}

impl View for UrlParts {
    type V = UrlModel;

    open spec fn view(&self) -> UrlModel {
        UrlModel {
            serialization: self.serialization@,
            scheme: self.scheme@,
            host: opt_view(self.host),
            port: self.port,
            path: self.path@,
        }
    }
}

/// What `url::Url::parse` gives for an input: the URL's parts, or the
/// parse error's text.
pub uninterp spec fn parsed_url(input: Seq<char>) -> Result<UrlModel, Seq<char>>;

/// What `url::Url::join` gives for a base URL and a reference.
pub uninterp spec fn joined_url(base: Seq<char>, reference: Seq<char>) -> Result<UrlModel, Seq<char>>;

/// `url::Url::parse`, reporting the parts the rules read (`as_str`,
/// `scheme`, `host_str`, `port_or_known_default`, `path`) or the error's
/// text. The contract names the result; the parsing itself is the crate's.
#[verifier::external_body]
fn parse_url_parts(input: &str) -> (r: Result<UrlParts, String>)
    ensures
        match r {
            Ok(u) => parsed_url(input@) == Ok::<UrlModel, Seq<char>>(u@),
            Err(m) => parsed_url(input@) == Err::<UrlModel, Seq<char>>(m@),
        },
{
    match url::Url::parse(input) {
        Ok(u) => Ok(UrlParts {
            serialization: u.as_str().to_owned(),
            scheme: u.scheme().to_owned(),
            host: u.host_str().map(str::to_owned),
            port: u.port_or_known_default(),
            path: u.path().to_owned(),
        }),
        Err(e) => Err(e.to_string()),
    }
}

/// `url::Url::join` of `reference` onto the URL whose text is `base`, with
/// the same reporting as `parse_url_parts`.
#[verifier::external_body]
fn join_url_parts(base: &str, reference: &str) -> (r: Result<UrlParts, String>)
    ensures
        match r {
            Ok(u) => joined_url(base@, reference@) == Ok::<UrlModel, Seq<char>>(u@),
            Err(m) => joined_url(base@, reference@) == Err::<UrlModel, Seq<char>>(m@),
        },
{
    match url::Url::parse(base).and_then(|u| u.join(reference)) {
        Ok(u) => Ok(UrlParts {
            serialization: u.as_str().to_owned(),
            scheme: u.scheme().to_owned(),
            host: u.host_str().map(str::to_owned),
            port: u.port_or_known_default(),
            path: u.path().to_owned(),
        }),
        Err(e) => Err(e.to_string()),
    }
}

/// Parses a URL, turning a parse failure into the library's URL error.
pub fn parse_url(input: &str) -> (r: Result<UrlParts, RavynError>)
    ensures
        match parsed_url(input@) {
            Ok(u) => r matches Ok(p) && p@ == u,
            Err(m) => r matches Err(RavynError::Url(x)) && x@ == m,
        },
{
    match parse_url_parts(input) {
        Ok(u) => Ok(u),
        Err(m) => Err(RavynError::Url(m)),
    }
}

/// The error raised when a probe keeps redirecting.
pub open spec fn redirect_limit_message() -> Seq<char> {
    "download probe exceeded the redirect limit"@
}

/// At most this many probes are made for one URL, following redirects in between.
pub const MAX_PROBES: u32 = 11;

/// Resolves a redirect's `Location` against the URL that was probed, once
/// `probes_done` probes have been made; past the probe budget the
/// transfer fails.
pub fn follow_redirect(current: &UrlParts, location: &str, probes_done: u32) -> (r: Result<UrlParts, RavynError>)
    ensures
        probes_done >= MAX_PROBES ==> (r matches Err(RavynError::Protocol(x)) && x@ == redirect_limit_message()),
        probes_done < MAX_PROBES ==> match joined_url(current@.serialization, location@) {
            Ok(u) => r matches Ok(p) && p@ == u,
            Err(m) => r matches Err(RavynError::Url(x)) && x@ == m,
        },
{
    if probes_done >= MAX_PROBES {
        return Err(protocol_error(String::from_str("download probe exceeded the redirect limit")));
    }
    match join_url_parts(current.serialization.as_str(), location) {
        Ok(u) => Ok(u),
        Err(m) => Err(RavynError::Url(m)),
    }
}

/// The lower-cased host of a source URL.
pub fn host_from_source(source: &str) -> (r: Result<String, RavynError>)
    ensures
        match parsed_url(source@) {
            Err(m) => r matches Err(RavynError::Url(x)) && x@ == m,
            Ok(u) => match u.host {
                Some(h) => r matches Ok(s) && s@ == lower_seq(h),
                None => r matches Err(RavynError::Invalid(x)) && x@ == "download URL has no host"@,
            },
        },
{
    let url = parse_url(source)?;
    match &url.host {
        Some(h) => {
            let chars = chars_of(h.as_str());
            let lower = lowercase_ascii(chars.as_slice());
            Ok(string_of(lower.as_slice()))
        },
        None => Err(RavynError::Invalid(String::from_str("download URL has no host"))),
    }
}

/// Same scheme and host (ignoring ASCII case) and the same effective port.
pub open spec fn spec_same_origin(left: UrlModel, right: UrlModel) -> bool {
    &&& eq_ignore_ascii_case(left.scheme, right.scheme)
    &&& left.host is Some
    &&& right.host is Some
    &&& eq_ignore_ascii_case(left.host->0, right.host->0)
    &&& left.port == right.port
}

/// Whether two URLs share an origin; credentials are forwarded only then.
pub fn same_origin(left: &UrlParts, right: &UrlParts) -> (b: bool)
    ensures
        b == spec_same_origin(left@, right@),
{
    let ls = chars_of(left.scheme.as_str());
    let rs = chars_of(right.scheme.as_str());
    if !chars_eq_ignore_ascii_case(ls.as_slice(), rs.as_slice()) {
        return false;
    }
    match (&left.host, &right.host) {
        (Some(l), Some(r)) => {
            let lh = chars_of(l.as_str());
            let rh = chars_of(r.as_str());
            chars_eq_ignore_ascii_case(lh.as_slice(), rh.as_slice()) && left.port == right.port
        },
        _ => false,
    }
}


// ---------------------------------------------------------------------------
// Decisions of a transfer
// ---------------------------------------------------------------------------

/// A stored length that a file on disk must match; negative values carry none.
pub open spec fn known_length(total: Option<i64>) -> Option<u64> {
    match total {
        Some(t) => if t >= 0 { Some(t as u64) } else { None },
        None => None,
    }
}

/// A completed transfer is reused when its file is a regular file (not a
/// link) whose size matches the recorded total, if one was recorded.
pub open spec fn spec_checkpoint_reusable(is_file: bool, is_symlink: bool, total: Option<i64>, len: u64) -> bool {
    is_file && !is_symlink && match known_length(total) {
        Some(expected) => expected == len,
        None => true,
    }
}

pub fn checkpoint_reusable(is_file: bool, is_symlink: bool, total: Option<i64>, len: u64) -> (b: bool)
    ensures
        b == spec_checkpoint_reusable(is_file, is_symlink, total, len),
{
    if !is_file || is_symlink {
        return false;
    }
    match total {
        Some(t) => if t >= 0 {
            t as u64 == len
        } else {
            true
        },
        None => true,
    }
}

/// `{:?}` of an optional length.
pub open spec fn debug_option_u64(v: Option<u64>) -> Seq<char> {
    match v {
        Some(n) => "Some("@ + dec(n as nat) + ")"@,
        None => "None"@,
    }
}

/// A Metalink description fixes the object's size; a mirror reporting
/// another length is refused.
pub fn check_metalink_size(expected: u64, length: Option<u64>) -> (r: Result<(), RavynError>)
    ensures
        length == Some(expected) ==> r is Ok,
        length != Some(expected) ==> (r matches Err(RavynError::Protocol(x)) && x@
            == "Metalink mirror size mismatch: expected "@ + dec(expected as nat) + ", received "@
            + debug_option_u64(length)),
{
    match length {
        Some(n) => if n == expected {
            return Ok(());
        },
        None => {},
    }
    let mut m = String::from_str("Metalink mirror size mismatch: expected ");
    push_decimal(&mut m, expected);
    m.append(", received ");
    match length {
        Some(n) => {
            m.append("Some(");
            push_decimal(&mut m, n);
            m.append(")");
        },
        None => {
            m.append("None");
        },
    }
    Err(protocol_error(m))
}

/// The bandwidth share of a job: weight one more than its priority (at
/// least one, saturating), background class for negative priorities, and
/// its own speed limit as a cap.
pub open spec fn spec_job_flow(priority: i32, speed_limit_bps: Option<i64>) -> FlowConfig {
    let p: int = if priority < 0 { 0 } else { priority as int };
    FlowConfig {
        weight: if p + 1 > u32::MAX { u32::MAX } else { (p + 1) as u32 },
        class: if priority < 0 { FlowClass::Background } else { FlowClass::Foreground },
        min_bps: None,
        max_bps: known_length(speed_limit_bps),
    }
}

pub fn job_flow_config(priority: i32, speed_limit_bps: Option<i64>) -> (c: FlowConfig)
    ensures
        c == spec_job_flow(priority, speed_limit_bps),
{
    let p: u32 = if priority < 0 {
        0
    } else {
        priority as u32
    };
    FlowConfig {
        weight: p.saturating_add(1),
        class: if priority < 0 {
            FlowClass::Background
        } else {
            FlowClass::Foreground
        },
        min_bps: None,
        max_bps: match speed_limit_bps {
            Some(v) => if v >= 0 {
                Some(v as u64)
            } else {
                None
            },
            None => None,
        },
    }
}

/// The per-job segment request, clamped to `1..=max(max_segments, 1)`.
pub open spec fn spec_requested_segments(option: Option<usize>, max_segments: usize) -> usize {
    let wanted = match option {
        Some(n) => n,
        None => max_segments,
    };
    let hi = max_usize(max_segments, 1);
    if wanted < 1 { 1 } else if wanted > hi { hi } else { wanted }
}

pub fn requested_segments(option: Option<usize>, max_segments: usize) -> (n: usize)
    ensures
        n == spec_requested_segments(option, max_segments),
        1 <= n,
{
    let wanted = match option {
        Some(n) => n,
        None => max_segments,
    };
    let hi = max_segments.max(1);
    if wanted < 1 {
        1
    } else if wanted > hi {
        hi
    } else {
        wanted
    }
}

/// A host's recorded behaviour, as far as segment planning reads it.
#[derive(Clone, Copy, Debug, PartialEq, Eq)]
pub struct HostBehaviour {
    pub consecutive_failures: u32,
    pub range_failures: u32,
    pub average_throughput_bps: Option<u64>,
}

/// How many ranges a transfer opens, and whether it is segmented at all.
#[derive(Clone, Copy, Debug, PartialEq, Eq)]
pub struct SegmentDecision {
    pub segments: usize,
    pub segmented: bool,
}

pub open spec fn spec_segment_decision(
    length: Option<u64>,
    range_supported: bool,
    requested: usize,
    max_segments: usize,
    threshold: u64,
    host: Option<HostBehaviour>,
) -> SegmentDecision {
    let segments = match length {
        Some(total) => {
            let base = min_usize(
                min_usize(max_usize(requested, 1), max_usize(max_segments, 1)),
                size_tier(total),
            );
            match host {
                Some(h) => spec_profile_adjusted(base, h.consecutive_failures, h.range_failures, h.average_throughput_bps),
                None => base,
            }
        },
        None => 1,
    };
    SegmentDecision {
        segments,
        segmented: range_supported && match length {
            Some(l) => l >= threshold && segments > 1,
            None => false,
        },
    }
}

/// What the segment decision promises, over all inputs:
/// - an unknown length means one stream, never segmented;
/// - never more than eight ranges, nor more than the caller's or the
///   global limit (each taken as at least one);
/// - a host's history only ever lowers the count: a host with two
///   consecutive failures or three range failures gets at most two ranges,
///   a host slower than `SLOW_HOST_BPS` at most three, and a host with
///   neither is treated as if it had no history;
/// - the transfer is segmented exactly when ranges are honoured, the length
///   is known and reaches the threshold, and more than one range is chosen.
pub proof fn lemma_segment_decision(
    length: Option<u64>,
    range_supported: bool,
    requested: usize,
    max_segments: usize,
    threshold: u64,
    host: Option<HostBehaviour>,
)
    ensures
        ({
            let d = spec_segment_decision(length, range_supported, requested, max_segments, threshold, host);
            let plain = spec_segment_decision(length, range_supported, requested, max_segments, threshold, None);
            &&& length is None ==> d.segments == 1 && !d.segmented
            &&& 1 <= d.segments <= 8
            &&& d.segments <= requested || d.segments == 1
            &&& d.segments <= max_segments || d.segments == 1
            &&& d.segments <= plain.segments
            &&& (host matches Some(h) && (h.consecutive_failures >= 2 || h.range_failures >= 3)) ==> d.segments <= 2
            &&& (host matches Some(h) && (h.average_throughput_bps matches Some(t) && t < SLOW_HOST_BPS))
                ==> d.segments <= 3
            &&& (host matches Some(h) && (h.consecutive_failures < 2 && h.range_failures < 3 && !(
                h.average_throughput_bps matches Some(t) && t < SLOW_HOST_BPS))) ==> d == plain
            &&& d.segmented <==> (range_supported && (length matches Some(l) && l >= threshold) && d.segments > 1)
        }),
{
}

/// Objects under 8 MiB use one range; a larger object never gets fewer
/// ranges than a smaller one under the same limits and host history; and
/// without history and with limits of at least eight, an object of 512 MiB
/// or more gets eight.
pub proof fn lemma_segments_grow_with_size(
    small: u64,
    large: u64,
    range_supported: bool,
    requested: usize,
    max_segments: usize,
    threshold: u64,
    host: Option<HostBehaviour>,
)
    requires
        small <= large,
    ensures
        small < 8 * 1024 * 1024 ==> spec_segment_decision(
            Some(small),
            range_supported,
            requested,
            max_segments,
            threshold,
            host,
        ).segments == 1,
        spec_segment_decision(Some(small), range_supported, requested, max_segments, threshold, host).segments
            <= spec_segment_decision(Some(large), range_supported, requested, max_segments, threshold, host).segments,
        (large >= 512 * 1024 * 1024 && requested >= 8 && max_segments >= 8) ==> spec_segment_decision(
            Some(large),
            range_supported,
            requested,
            max_segments,
            threshold,
            None,
        ).segments == 8,
{
}

/// Chooses the number of ranges from the object's size, the caller's and
/// the global limit and the host's history; a transfer is segmented only
/// when the server honours ranges, the object is large enough and more than
/// one range is worth opening.
pub fn segment_decision(
    length: Option<u64>,
    range_supported: bool,
    requested: usize,
    max_segments: usize,
    threshold: u64,
    host: Option<HostBehaviour>,
) -> (d: SegmentDecision)
    ensures
        d == spec_segment_decision(length, range_supported, requested, max_segments, threshold, host),
{
    let segments = match length {
        Some(total) => {
            let base = adaptive_segment_count(total, requested, max_segments);
            match host {
                Some(h) => profile_adjusted_segment_count(
                    base,
                    h.consecutive_failures,
                    h.range_failures,
                    h.average_throughput_bps,
                ),
                None => base,
            }
        },
        None => 1,
    };
    let segmented = range_supported && match length {
        Some(l) => l >= threshold && segments > 1,
        None => false,
    };
    SegmentDecision { segments, segmented }
}

/// A mirror is tried only when it differs from the job's source and from
/// the URL the probe settled on.
pub fn mirror_is_candidate(mirror: &str, source: &str, final_url: &str) -> (b: bool)
    ensures
        b == (mirror@ != source@ && mirror@ != final_url@),
{
    let m = String::from_str(mirror);
    let s = String::from_str(source);
    let f = String::from_str(final_url);
    m != s && m != f
}

/// Whether a probed mirror may serve ranges of the primary object: it must
/// honour ranges and report the same length, and, unless a checksum pins
/// the content, carry the same validator (ETag or Last-Modified) as the
/// primary, which must have one.
pub open spec fn spec_mirror_admission(
    range_supported: bool,
    mirror_length: Option<u64>,
    primary_length: Option<u64>,
    checksum_identity: bool,
    primary_validator: Option<Seq<char>>,
    mirror_validator: Option<Seq<char>>,
) -> Result<(), Seq<char>> {
    if !range_supported || mirror_length != primary_length {
        Err("mirror does not expose the same ranged object length"@)
    } else if !checksum_identity && (primary_validator is None || mirror_validator != primary_validator) {
        Err("mirror lacks a validator matching the primary object"@)
    } else {
        Ok(())
    }
}

pub fn mirror_admission(
    range_supported: bool,
    mirror_length: Option<u64>,
    primary_length: Option<u64>,
    checksum_identity: bool,
    primary_validator: Option<&str>,
    mirror_validator: Option<&str>,
) -> (r: Result<(), RavynError>)
    ensures
        match spec_mirror_admission(
            range_supported,
            mirror_length,
            primary_length,
            checksum_identity,
            match primary_validator {
                Some(v) => Some(v@),
                None => None,
            },
            match mirror_validator {
                Some(v) => Some(v@),
                None => None,
            },
        ) {
            Ok(_) => r is Ok,
            Err(m) => r matches Err(RavynError::Protocol(x)) && x@ == m,
        },
{
    if !range_supported || mirror_length != primary_length {
        return Err(protocol_error(String::from_str("mirror does not expose the same ranged object length")));
    }
    if !checksum_identity {
        let same = match (primary_validator, mirror_validator) {
            (Some(p), Some(m)) => String::from_str(p) == String::from_str(m),
            _ => false,
        };
        if !same {
            return Err(protocol_error(String::from_str("mirror lacks a validator matching the primary object")));
        }
    }
    Ok(())
}

/// A failed segmented transfer falls back to one stream when the failure
/// was a protocol error and the job was not cancelled.
pub fn falls_back_to_single_stream(error: &RavynError, cancelled: bool) -> (b: bool)
    ensures
        b == (error is Protocol && !cancelled),
{
    match error {
        RavynError::Protocol(_) => !cancelled,
        _ => false,
    }
}

/// The whole file is hashed after the transfer only when an expected digest
/// exists and the transfer did not already verify it as it went.
pub fn needs_whole_file_check(incrementally_verified: bool, has_expected_digest: bool) -> (b: bool)
    ensures
        b == (!incrementally_verified && has_expected_digest),
{
    !incrementally_verified && has_expected_digest
}

/// What to do when the output path is already taken before a transfer starts.
#[derive(Clone, Copy, Debug, PartialEq, Eq)]
pub enum OccupiedOutput {
    /// Nothing is in the way (or it will be overwritten).
    Proceed,
    /// The path holds this job's own resume state: refuse.
    Conflict,
    /// Another file holds the name: pick the next free name.
    Rename,
}

pub open spec fn spec_occupied_output(output_exists: bool, overwrite: bool, downloaded_bytes: i64, partial_exists: bool) -> OccupiedOutput {
    if !output_exists || overwrite {
        OccupiedOutput::Proceed
    } else if downloaded_bytes > 0 || partial_exists {
        OccupiedOutput::Conflict
    } else {
        OccupiedOutput::Rename
    }
}

pub fn occupied_output(output_exists: bool, overwrite: bool, downloaded_bytes: i64, partial_exists: bool) -> (o: OccupiedOutput)
    ensures
        o == spec_occupied_output(output_exists, overwrite, downloaded_bytes, partial_exists),
{
    if !output_exists || overwrite {
        OccupiedOutput::Proceed
    } else if downloaded_bytes > 0 || partial_exists {
        OccupiedOutput::Conflict
    } else {
        OccupiedOutput::Rename
    }
}

/// At the end of a transfer: `Ok(true)` when an existing output is to be
/// replaced, `Ok(false)` when the path is free, and a conflict when a file
/// appeared there during the transfer and overwriting is off.
pub fn finalize_output(output_exists: bool, overwrite: bool, output_display: &str) -> (r: Result<bool, RavynError>)
    ensures
        !output_exists ==> r == Ok::<bool, RavynError>(false),
        output_exists && overwrite ==> r == Ok::<bool, RavynError>(true),
        output_exists && !overwrite ==> (r matches Err(RavynError::Conflict(x)) && x@ == output_display@
            + " appeared while the download was running"@),
{
    if !output_exists {
        return Ok(false);
    }
    if overwrite {
        return Ok(true);
    }
    let mut m = String::from_str(output_display);
    m.append(" appeared while the download was running");
    Err(RavynError::Conflict(m))
}

/// The name a download is saved under, before sanitizing: the job's own,
/// else the one `Content-Disposition` gives; `None` leaves it to the URL.
pub fn chosen_filename(job_filename: Option<String>, content_disposition: Option<&str>) -> (r: Option<String>)
    ensures
        match job_filename {
            Some(f) => r == Some(f),
            None => match content_disposition {
                None => r is None,
                Some(v) => match disposition_filename(v@) {
                    Some(name) => r matches Some(s) && s@ == name,
                    None => r is None,
                },
            },
        },
{
    match job_filename {
        Some(f) => Some(f),
        None => content_disposition_filename(content_disposition),
    }
}

// ---------------------------------------------------------------------------
// Credentials across origins
// ---------------------------------------------------------------------------

/// The request headers a job configured, by name, as they are sent.
pub struct HeaderEntry {
    pub name: String,
    pub value: String,
}

pub open spec fn header_views(v: Seq<HeaderEntry>) -> Seq<(Seq<char>, Seq<char>)> {
    v.map_values(|h: HeaderEntry| (h.name@, h.value@))
}

/// The headers sent to a URL. On the job's own origin all of them go; on
/// another origin (a redirect or a mirror) only the configured
/// `User-Agent` does, since any other header may carry a credential.
pub open spec fn spec_headers_for_target(
    same_origin: bool,
    headers: Seq<(Seq<char>, Seq<char>)>,
    user_agent: Option<Seq<char>>,
) -> Seq<(Seq<char>, Seq<char>)> {
    if same_origin {
        headers
    } else {
        match user_agent {
            Some(ua) => seq![("user-agent"@, ua)],
            None => Seq::empty(),
        }
    }
}

pub fn headers_for_target(same_origin: bool, headers: Vec<HeaderEntry>, user_agent: Option<&str>) -> (r: Vec<HeaderEntry>)
    ensures
        header_views(r@) == spec_headers_for_target(
            same_origin,
            header_views(headers@),
            match user_agent {
                Some(u) => Some(u@),
                None => None,
            },
        ),
{
    if same_origin {
        return headers;
    }
    let mut r: Vec<HeaderEntry> = Vec::new();
    match user_agent {
        Some(u) => {
            r.push(HeaderEntry { name: String::from_str("user-agent"), value: String::from_str(u) });
            proof {
                assert(header_views(r@) =~= seq![("user-agent"@, u@)]);
            }
        },
        None => {
            proof {
                assert(header_views(r@) =~= Seq::<(Seq<char>, Seq<char>)>::empty());
            }
        },
    }
    r
}

/// Cross-origin requests carry no header but the user agent.
pub proof fn lemma_no_credentials_cross_origin(
    headers: Seq<(Seq<char>, Seq<char>)>,
    user_agent: Option<Seq<char>>,
)
    ensures
        forall|i: int|
            0 <= i < spec_headers_for_target(false, headers, user_agent).len() ==> (#[trigger] spec_headers_for_target(
                false,
                headers,
                user_agent,
            )[i]).0 == "user-agent"@,
{
}

/// The `Cookie` header on the job's own origin: its configured cookies,
/// when there are any, followed by the browser's cookies for the URL.
pub fn merged_cookie(configured: Option<&str>, browser: &str) -> (c: String)
    ensures
        match configured {
            Some(x) => if x@.len() > 0 { c@ == x@ + "; "@ + browser@ } else { c@ == browser@ },
            None => c@ == browser@,
        },
{
    match configured {
        Some(x) => {
            if x.is_empty() {
                String::from_str(browser)
            } else {
                let mut c = String::from_str(x);
                c.append("; ");
                c.append(browser);
                c
            }
        },
        None => String::from_str(browser),
    }
}

// ---------------------------------------------------------------------------
// Single-stream transfer
// ---------------------------------------------------------------------------

/// What an attempt does with the partial file it finds.
#[derive(Debug, Clone, Copy, PartialEq, Eq, Structural)]
pub enum PartialFile {
    /// Longer than the object: it is removed and the transfer starts over.
    Discard,
    /// Exactly the object's length: the transfer is already complete.
    Complete,
    /// Resume after the bytes already there (zero: start afresh).
    Resume(u64),
}

pub open spec fn spec_partial_file(existing: u64, total: Option<u64>) -> PartialFile {
    if total matches Some(t) && existing > t {
        PartialFile::Discard
    } else if total == Some(existing) && existing > 0 {
        PartialFile::Complete
    } else {
        PartialFile::Resume(existing)
    }
}

pub fn partial_file(existing: u64, total: Option<u64>) -> (p: PartialFile)
    ensures
        p == spec_partial_file(existing, total),
{
    match total {
        Some(t) => {
            if existing > t {
                PartialFile::Discard
            } else if t == existing && existing > 0 {
                PartialFile::Complete
            } else {
                PartialFile::Resume(existing)
            }
        },
        None => PartialFile::Resume(existing),
    }
}

/// The `Range` header that resumes after `existing` bytes, if any are there.
pub fn resume_range_header(existing: u64) -> (h: Option<String>)
    ensures
        existing == 0 ==> h is None,
        existing > 0 ==> (h matches Some(x) && x@ == "bytes="@ + dec(existing as nat) + "-"@),
{
    if existing == 0 {
        return None;
    }
    let mut h = String::from_str("bytes=");
    push_decimal(&mut h, existing);
    h.append("-");
    Some(h)
}

/// What an attempt does with the response to its request.
pub enum StreamStart {
    /// A transient failure: wait (for `Retry-After` seconds, when given) and try again.
    Retry { retry_after_secs: Option<u64> },
    /// Write the body from the start of the file.
    Fresh,
    /// Append the body after the bytes already there.
    Append,
}

/// Decides on a response to a (possibly ranged) request: transient statuses
/// are retried while attempts remain; a fresh request needs a success; a
/// resumed one continues on `206` with a matching `Content-Range` and starts
/// over on another success.
pub fn stream_start(
    existing: u64,
    total: Option<u64>,
    status: u16,
    status_text: &str,
    content_range: Option<&str>,
    retry_after: Option<&str>,
    attempt: u32,
    max_retries: u32,
) -> (r: Result<StreamStart, RavynError>)
    ensures
        spec_is_transient_status(status) && attempt < max_retries ==> (r matches Ok(StreamStart::Retry { retry_after_secs })
            && retry_after_secs == spec_retry_after_secs(match retry_after {
                Some(v) => Some(v@),
                None => None,
            })),
        !(spec_is_transient_status(status) && attempt < max_retries) ==> {
            if existing == 0 {
                if 200 <= status <= 299 {
                    r matches Ok(StreamStart::Fresh)
                } else {
                    r matches Err(RavynError::Protocol(x)) && x@ == "download request returned "@ + status_text@
                }
            } else if status == 206 {
                match resume_range_outcome(
                    match content_range {
                        Some(v) => Some(v@),
                        None => None,
                    },
                    existing,
                    total,
                ) {
                    Ok(_) => r matches Ok(StreamStart::Append),
                    Err(m) => r matches Err(RavynError::Protocol(x)) && x@ == m,
                }
            } else if 200 <= status <= 299 {
                r matches Ok(StreamStart::Fresh)
            } else {
                r matches Err(RavynError::Protocol(x)) && x@ == "resume request returned "@ + status_text@
            }
        },
{
    if is_transient_status(status) && attempt < max_retries {
        return Ok(StreamStart::Retry { retry_after_secs: retry_after_secs(retry_after) });
    }
    if existing == 0 {
        if 200 <= status && status <= 299 {
            return Ok(StreamStart::Fresh);
        }
        let mut m = String::from_str("download request returned ");
        m.append(status_text);
        return Err(protocol_error(m));
    }
    if status == 206 {
        match validate_resume_range(content_range, existing, total) {
            Ok(()) => Ok(StreamStart::Append),
            Err(e) => Err(e),
        }
    } else if 200 <= status && status <= 299 {
        Ok(StreamStart::Fresh)
    } else {
        let mut m = String::from_str("resume request returned ");
        m.append(status_text);
        Err(protocol_error(m))
    }
}

/// How an attempt ends once its body stopped.
pub enum StreamEnd {
    /// The file is whole.
    Done,
    /// Wait and try again.
    Retry,
    /// The body broke off and no attempt is left: the transport's error stands.
    StreamFailed,
    /// The file has the wrong length and no attempt is left.
    Failed(RavynError),
}

/// A body that ended cleanly with the expected length (when known) is done;
/// otherwise the transfer is retried while attempts remain.
pub fn stream_end(stream_failed: bool, actual: u64, total: Option<u64>, attempt: u32, max_retries: u32) -> (e: StreamEnd)
    ensures
        (!stream_failed && match total {
            Some(t) => actual == t,
            None => true,
        }) ==> e is Done,
        !(!stream_failed && match total {
            Some(t) => actual == t,
            None => true,
        }) ==> if attempt < max_retries {
            e is Retry
        } else if stream_failed {
            e is StreamFailed
        } else {
            e matches StreamEnd::Failed(RavynError::Protocol(x)) && x@ == "download length mismatch: expected "@
                + debug_option_u64(total) + ", received "@ + dec(actual as nat)
        },
{
    let length_ok = match total {
        Some(t) => actual == t,
        None => true,
    };
    if !stream_failed && length_ok {
        return StreamEnd::Done;
    }
    if attempt < max_retries {
        return StreamEnd::Retry;
    }
    if stream_failed {
        return StreamEnd::StreamFailed;
    }
    let mut m = String::from_str("download length mismatch: expected ");
    match total {
        Some(t) => {
            m.append("Some(");
            push_decimal(&mut m, t);
            m.append(")");
        },
        None => {
            m.append("None");
        },
    }
    m.append(", received ");
    push_decimal(&mut m, actual);
    StreamEnd::Failed(protocol_error(m))
}

/// A streamed file's digest must match the expected one, ignoring ASCII case.
pub fn check_stream_digest(expected: &str, actual: &str) -> (r: Result<(), RavynError>)
    ensures
        eq_ignore_ascii_case(actual@, expected@) ==> r is Ok,
        !eq_ignore_ascii_case(actual@, expected@) ==> (r matches Err(RavynError::Protocol(x)) && x@
            == "SHA-256 mismatch: expected "@ + expected@ + ", got "@ + actual@),
{
    let a = chars_of(actual);
    let e = chars_of(expected);
    if chars_eq_ignore_ascii_case(a.as_slice(), e.as_slice()) {
        return Ok(());
    }
    let mut m = String::from_str("SHA-256 mismatch: expected ");
    m.append(expected);
    m.append(", got ");
    m.append(actual);
    Err(protocol_error(m))
}

// ---------------------------------------------------------------------------
// A transfer as a state machine
// ---------------------------------------------------------------------------

/// Where an HTTP transfer stands between two of its steps.
#[derive(Debug, Clone, Copy, PartialEq, Eq, Structural)]
pub enum TransferState {
    /// Nothing done yet; the completed-transfer checkpoint is checked first.
    Start,
    /// Probing the source; `probes_done` probes have been sent.
    Probing { probes_done: u32 },
    /// Metadata is known; rules, Metalink size, output name and partial
    /// file are being settled.
    Preparing,
    /// Bytes are moving, by ranged workers or by one stream.
    Transferring { segmented: bool },
    /// Piece hashes and, where needed, the whole-file digest are checked.
    Verifying,
    /// Terminal progress is published and the file moved into place.
    Finalizing,
    /// The transfer is over.
    Done,
}

/// What the outside work of the last step reports.
#[derive(Debug, Clone, Copy, PartialEq, Eq, Structural)]
pub enum TransferEvent {
    /// Whether a completed transfer's file can be reused as it is.
    CheckpointChecked { reusable: bool },
    /// A probe answered with a redirect, or with the object's metadata.
    Probed { redirect: bool },
    /// Preparing succeeded or failed; `segmented` whether ranged workers
    /// will be used.
    Prepared { succeeded: bool, segmented: bool },
    /// The transfer ended; on failure `protocol_error` tells a protocol
    /// error apart; `expects_digest` whether the job has an expected digest.
    TransferEnded {
        succeeded: bool,
        incrementally_verified: bool,
        protocol_error: bool,
        cancelled: bool,
        expects_digest: bool,
    },
    Verified { succeeded: bool },
    Finalized { succeeded: bool },
}

/// The outside work to do next.
#[derive(Debug, Clone, Copy, PartialEq, Eq, Structural)]
pub enum TransferAction {
    /// Finish with the file the completed transfer left.
    ReuseCheckpoint,
    /// Probe the job's source.
    Probe,
    /// Join the redirect's location, check it and probe it.
    FollowRedirect,
    /// Settle rules, the Metalink size, the output name and the partial file.
    Prepare,
    StartSegmented,
    StartSingle,
    /// Record the range failure, reset the partial state and transfer again
    /// as one stream.
    FallBackToSingle,
    /// Check piece hashes and, where `whole_file`, the whole-file digest.
    Verify { whole_file: bool },
    /// Publish terminal progress and move the file into place.
    Finalize,
    /// The transfer is done.
    Complete,
    /// Fail with the step's error (or the redirect limit).
    Fail,
    /// Verification failed: reset the partial state, then fail.
    ResetAndFail,
    /// The event does not belong to the state: nothing happens.
    Ignore,
}

/// One step of a transfer: from where it stands and what the last outside
/// work reported, where it goes and what to do next.
pub open spec fn spec_transfer_step(state: TransferState, event: TransferEvent) -> (TransferState, TransferAction) {
    let fail = (TransferState::Done, TransferAction::Fail);
    match (state, event) {
        (TransferState::Start, TransferEvent::CheckpointChecked { reusable }) => if reusable {
            (TransferState::Done, TransferAction::ReuseCheckpoint)
        } else {
            (TransferState::Probing { probes_done: 1 }, TransferAction::Probe)
        },
        (TransferState::Probing { probes_done }, TransferEvent::Probed { redirect }) => if !redirect {
            (TransferState::Preparing, TransferAction::Prepare)
        } else if probes_done < MAX_PROBES {
            (TransferState::Probing { probes_done: (probes_done + 1) as u32 }, TransferAction::FollowRedirect)
        } else {
            fail
        },
        (TransferState::Preparing, TransferEvent::Prepared { succeeded, segmented }) => if !succeeded {
            fail
        } else if segmented {
            (TransferState::Transferring { segmented: true }, TransferAction::StartSegmented)
        } else {
            (TransferState::Transferring { segmented: false }, TransferAction::StartSingle)
        },
        (
            TransferState::Transferring { segmented },
            TransferEvent::TransferEnded {
                succeeded,
                incrementally_verified,
                protocol_error,
                cancelled,
                expects_digest,
            },
        ) => if succeeded {
            (
                TransferState::Verifying,
                TransferAction::Verify { whole_file: !incrementally_verified && expects_digest },
            )
        } else if segmented && protocol_error && !cancelled {
            (TransferState::Transferring { segmented: false }, TransferAction::FallBackToSingle)
        } else {
            fail
        },
        (TransferState::Verifying, TransferEvent::Verified { succeeded }) => if succeeded {
            (TransferState::Finalizing, TransferAction::Finalize)
        } else {
            (TransferState::Done, TransferAction::ResetAndFail)
        },
        (TransferState::Finalizing, TransferEvent::Finalized { succeeded }) => if succeeded {
            (TransferState::Done, TransferAction::Complete)
        } else {
            fail
        },
        _ => (state, TransferAction::Ignore),
    }
}

/// Takes one step of a transfer (see `spec_transfer_step`).
pub fn transfer_step(state: TransferState, event: TransferEvent) -> (r: (TransferState, TransferAction))
    ensures
        r == spec_transfer_step(state, event),
{
    let fail = (TransferState::Done, TransferAction::Fail);
    match (state, event) {
        (TransferState::Start, TransferEvent::CheckpointChecked { reusable }) => if reusable {
            (TransferState::Done, TransferAction::ReuseCheckpoint)
        } else {
            (TransferState::Probing { probes_done: 1 }, TransferAction::Probe)
        },
        (TransferState::Probing { probes_done }, TransferEvent::Probed { redirect }) => if !redirect {
            (TransferState::Preparing, TransferAction::Prepare)
        } else if probes_done < MAX_PROBES {
            (TransferState::Probing { probes_done: probes_done + 1 }, TransferAction::FollowRedirect)
        } else {
            fail
        },
        (TransferState::Preparing, TransferEvent::Prepared { succeeded, segmented }) => if !succeeded {
            fail
        } else if segmented {
            (TransferState::Transferring { segmented: true }, TransferAction::StartSegmented)
        } else {
            (TransferState::Transferring { segmented: false }, TransferAction::StartSingle)
        },
        (
            TransferState::Transferring { segmented },
            TransferEvent::TransferEnded {
                succeeded,
                incrementally_verified,
                protocol_error,
                cancelled,
                expects_digest,
            },
        ) => if succeeded {
            (
                TransferState::Verifying,
                TransferAction::Verify { whole_file: needs_whole_file_check(incrementally_verified, expects_digest) },
            )
        } else if segmented && protocol_error && !cancelled {
            (TransferState::Transferring { segmented: false }, TransferAction::FallBackToSingle)
        } else {
            fail
        },
        (TransferState::Verifying, TransferEvent::Verified { succeeded }) => if succeeded {
            (TransferState::Finalizing, TransferAction::Finalize)
        } else {
            (TransferState::Done, TransferAction::ResetAndFail)
        },
        (TransferState::Finalizing, TransferEvent::Finalized { succeeded }) => if succeeded {
            (TransferState::Done, TransferAction::Complete)
        } else {
            fail
        },
        _ => (state, TransferAction::Ignore),
    }
}

/// A transfer sends at most `MAX_PROBES` probes: a probing state never
/// counts past the budget, and a redirect beyond it fails the transfer.
pub proof fn lemma_probes_stay_within_budget(state: TransferState, event: TransferEvent)
    requires
        state matches TransferState::Probing { probes_done } ==> 1 <= probes_done <= MAX_PROBES,
    ensures
        spec_transfer_step(state, event).0 matches TransferState::Probing { probes_done } ==> 1 <= probes_done
            <= MAX_PROBES,
        (state == TransferState::Probing { probes_done: MAX_PROBES } && event == TransferEvent::Probed {
            redirect: true,
        }) ==> spec_transfer_step(state, event) == (TransferState::Done, TransferAction::Fail),
{
}

/// A transfer falls back to one stream only from ranged workers, and only
/// once: the fallback itself runs as one stream, which never falls back.
pub proof fn lemma_single_stream_fallback_happens_once(state: TransferState, event: TransferEvent)
    ensures
        spec_transfer_step(state, event).1 == TransferAction::FallBackToSingle ==> (state
            == TransferState::Transferring { segmented: true } && spec_transfer_step(state, event).0
            == TransferState::Transferring { segmented: false }),
        state == (TransferState::Transferring { segmented: false }) ==> spec_transfer_step(state, event).1
            != TransferAction::FallBackToSingle,
{
}

/// A transfer completes only by reusing a completed checkpoint at the start,
/// or after its file was verified and finalized: finalizing is entered only
/// from a successful verification.
pub proof fn lemma_completion_follows_verification(state: TransferState, event: TransferEvent)
    ensures
        spec_transfer_step(state, event).1 == TransferAction::Complete ==> state == TransferState::Finalizing,
        spec_transfer_step(state, event).0 == TransferState::Finalizing && state != TransferState::Finalizing
            ==> state == TransferState::Verifying,
        spec_transfer_step(state, event).1 == TransferAction::ReuseCheckpoint ==> state == TransferState::Start,
{
}

/// The transfer mode is the one preparation chose: ranged workers start
/// exactly when preparation succeeded and asked for them, one stream exactly
/// when it succeeded and did not; a failed preparation starts nothing.
pub proof fn lemma_transfer_mode_follows_preparation(state: TransferState, event: TransferEvent)
    ensures
        spec_transfer_step(state, event).1 == TransferAction::StartSegmented <==> (state == TransferState::Preparing
            && event == TransferEvent::Prepared { succeeded: true, segmented: true }),
        spec_transfer_step(state, event).1 == TransferAction::StartSingle <==> (state == TransferState::Preparing
            && event == TransferEvent::Prepared { succeeded: true, segmented: false }),
        state == TransferState::Preparing ==> (spec_transfer_step(state, event).0 matches TransferState::Transferring {
            segmented: m } ==> event == TransferEvent::Prepared { succeeded: true, segmented: m }),
{
}

/// Every failure the transfer hears of, in the state that waits for it,
/// ends it: a failed preparation, a failed transfer that may not fall back,
/// a failed verification (which also resets the partial state) and a failed
/// finalization. A redirect past the probe budget fails as well.
pub proof fn lemma_transfer_failures_end_it(state: TransferState, event: TransferEvent)
    requires
        ({
            ||| state == TransferState::Preparing && (event matches TransferEvent::Prepared { succeeded, .. }
                && !succeeded)
            ||| (state matches TransferState::Transferring { segmented } && (event matches TransferEvent::TransferEnded {
                succeeded, protocol_error, cancelled, .. } && (!succeeded && !(segmented && protocol_error
                && !cancelled))))
            ||| state == TransferState::Finalizing && event == TransferEvent::Finalized { succeeded: false }
        }),
    ensures
        spec_transfer_step(state, event) == (TransferState::Done, TransferAction::Fail),
        spec_transfer_step(TransferState::Verifying, TransferEvent::Verified { succeeded: false }) == (
            TransferState::Done,
            TransferAction::ResetAndFail,
        ),
{
}

/// A successful transfer is verified next; the whole file is hashed exactly
/// when an expected digest exists and the transfer did not already verify
/// it as it went.
pub proof fn lemma_successful_transfers_are_verified(
    segmented: bool,
    incrementally_verified: bool,
    protocol_error: bool,
    cancelled: bool,
    expects_digest: bool,
)
    ensures
        spec_transfer_step(
            TransferState::Transferring { segmented },
            TransferEvent::TransferEnded {
                succeeded: true,
                incrementally_verified,
                protocol_error,
                cancelled,
                expects_digest,
            },
        ) == (TransferState::Verifying, TransferAction::Verify { whole_file: expects_digest && !incrementally_verified }),
{
}

/// Each followed redirect counts one more probe, metadata ends probing,
/// and a transfer probes unless a completed checkpoint can be reused.
pub proof fn lemma_probing_counts_redirects(probes_done: u32, redirect: bool, reusable: bool)
    ensures
        spec_transfer_step(TransferState::Probing { probes_done }, TransferEvent::Probed { redirect }).0 matches TransferState::Probing {
            probes_done: q } ==> redirect && q == probes_done + 1,
        !redirect ==> spec_transfer_step(TransferState::Probing { probes_done }, TransferEvent::Probed { redirect })
            == (TransferState::Preparing, TransferAction::Prepare),
        redirect && probes_done < MAX_PROBES ==> spec_transfer_step(
            TransferState::Probing { probes_done },
            TransferEvent::Probed { redirect },
        ).1 == TransferAction::FollowRedirect,
        spec_transfer_step(TransferState::Start, TransferEvent::CheckpointChecked { reusable }).1 == if reusable {
            TransferAction::ReuseCheckpoint
        } else {
            TransferAction::Probe
        },
{
}

/// A whole-transfer retry never waits more than a minute; a server's
/// `Retry-After` of at most a minute is honoured exactly; without one the
/// wait is at least 250 ms, and the first retry waits less than half a
/// second.
pub proof fn lemma_backoff_is_bounded(attempt: u32, retry_after_secs: Option<u64>)
    ensures
        spec_backoff_delay_millis(attempt, retry_after_secs) <= 60_000,
        retry_after_secs matches Some(s) ==> (s <= 60 ==> spec_backoff_delay_millis(attempt, retry_after_secs) == s
            * 1000),
        retry_after_secs is None ==> spec_backoff_delay_millis(attempt, retry_after_secs) >= 250,
        250 <= spec_backoff_delay_millis(0, None) < 500,
{
    vstd::arithmetic::power2::lemma2_to64();
}

/// Two URLs share an origin in either order, and a URL with a host shares
/// its own origin.
pub proof fn lemma_same_origin_is_symmetric(left: UrlModel, right: UrlModel)
    ensures
        spec_same_origin(left, right) == spec_same_origin(right, left),
        left.host is Some ==> spec_same_origin(left, left),
        left.host is None ==> !spec_same_origin(left, right),
{
}

/// A completed transfer's file is reused only when it is a regular file (not
/// a link) whose length is the recorded total, where a total is recorded.
pub proof fn lemma_checkpoint_reuse(is_file: bool, is_symlink: bool, total: Option<i64>, len: u64)
    ensures
        spec_checkpoint_reusable(is_file, is_symlink, total, len) ==> is_file && !is_symlink,
        total matches Some(t) ==> (t >= 0 && t != len ==> !spec_checkpoint_reusable(is_file, is_symlink, total, len)),
        (is_file && !is_symlink && (total is None || total == Some(len as i64))) ==> (len <= i64::MAX
            ==> spec_checkpoint_reusable(is_file, is_symlink, total, len)),
{
}

/// A job's flow: negative priorities run in the background, others in the
/// foreground; higher priority never weighs less, every weight is at least
/// one; the job's speed limit (when not negative) is the flow's cap, and no
/// floor is configured.
pub proof fn lemma_job_flow(priority: i32, other: i32, speed_limit_bps: Option<i64>)
    ensures
        (spec_job_flow(priority, speed_limit_bps).class == FlowClass::Background) <==> priority < 0,
        spec_job_flow(priority, speed_limit_bps).weight >= 1,
        priority <= other ==> spec_job_flow(priority, speed_limit_bps).weight <= spec_job_flow(other, speed_limit_bps).weight,
        spec_job_flow(priority, speed_limit_bps).min_bps is None,
        speed_limit_bps matches Some(l) ==> (l >= 0 ==> spec_job_flow(priority, speed_limit_bps).max_bps == Some(
            l as u64)),
        speed_limit_bps matches Some(l) ==> (l < 0 ==> spec_job_flow(priority, speed_limit_bps).max_bps is None),
        speed_limit_bps is None ==> spec_job_flow(priority, speed_limit_bps).max_bps is None,
{
}

/// An occupied output path is taken over only when overwriting is allowed;
/// it is never renamed away from this job's own resume state (that is a
/// conflict), and a free path always proceeds.
pub proof fn lemma_occupied_output(output_exists: bool, overwrite: bool, downloaded_bytes: i64, partial_exists: bool)
    ensures
        !output_exists || overwrite ==> spec_occupied_output(output_exists, overwrite, downloaded_bytes, partial_exists)
            == OccupiedOutput::Proceed,
        spec_occupied_output(output_exists, overwrite, downloaded_bytes, partial_exists) == OccupiedOutput::Rename
            ==> downloaded_bytes <= 0 && !partial_exists && output_exists && !overwrite,
        output_exists && !overwrite && (downloaded_bytes > 0 || partial_exists) ==> spec_occupied_output(
            output_exists,
            overwrite,
            downloaded_bytes,
            partial_exists,
        ) == OccupiedOutput::Conflict,
{
}

/// A partial file is resumed from exactly its length unless it is longer
/// than the object (discarded) or already holds the whole non-empty object
/// (complete).
pub proof fn lemma_partial_file(existing: u64, total: Option<u64>)
    ensures
        spec_partial_file(existing, total) == PartialFile::Discard <==> (total is Some && existing > total->0),
        spec_partial_file(existing, total) == PartialFile::Complete <==> (total == Some(existing) && existing > 0),
        spec_partial_file(existing, total) matches PartialFile::Resume(n) ==> n == existing,
{
}

/// A transfer is retried after "Too Many Requests" and after any server
/// error (5xx); never after success, a redirect or another client error.
pub proof fn lemma_transient_statuses(status: u16)
    ensures
        status == 429 ==> spec_is_transient_status(status),
        500 <= status <= 599 ==> spec_is_transient_status(status),
        status < 500 && status != 429 ==> !spec_is_transient_status(status),
        status > 599 ==> !spec_is_transient_status(status),
{
}

} // verus!
