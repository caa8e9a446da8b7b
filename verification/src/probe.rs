//! Remote metadata probing. A probe sends `HEAD`, and unless that already
//! proves byte-range support, a `GET` for the first byte; these functions
//! decide, from each response, what the probe has learned.
use vstd::prelude::*;
use crate::error::RavynError;
use crate::text::{
    chars_eq_ignore_ascii_case, chars_of, eq_ignore_ascii_case, parse_u64,
    parse_u64_chars, slice_range,
};

verus! {

/// What a probe learned about the remote object.
#[derive(Debug, Clone)]
pub struct RemoteMetadata {
    pub final_url: String,
    pub length: Option<u64>,
    pub range_supported: bool,
    pub content_type: Option<String>,
    pub content_disposition: Option<String>,
    pub etag: Option<String>,
    pub last_modified: Option<String>,
}

pub enum ProbeResult {
    Metadata(RemoteMetadata),
    Redirect(String),
}

/// A response as the probe reads it: its status, the URL it came from and
/// the text of the headers it consults (absent, or not visible ASCII, is
/// `None`). `status_text` is the status as it is displayed, such as
/// `404 Not Found`.
pub struct ProbeResponse {
    pub status: u16,
    pub status_text: String,
    pub url: String,
    pub location: Option<String>,
    pub content_length: Option<String>,
    pub accept_ranges: Option<String>,
    pub content_range: Option<String>,
    pub content_type: Option<String>,
    pub content_disposition: Option<String>,
    pub etag: Option<String>,
    pub last_modified: Option<String>,
}

pub open spec fn is_redirection(status: u16) -> bool {
    300 <= status <= 399
}

pub open spec fn is_success(status: u16) -> bool {
    200 <= status <= 299
}

pub open spec fn opt_chars(o: Option<String>) -> Option<Seq<char>> {
    match o {
        Some(s) => Some(s@),
        None => None,
    }
}

fn clone_opt(o: &Option<String>) -> (r: Option<String>)
    ensures
        r == *o,
{
    match o {
        Some(s) => Some(s.clone()),
        None => None,
    }
}

/// A header holding a plain decimal `u64`.
pub open spec fn spec_header_u64(value: Option<Seq<char>>) -> Option<u64> {
    match value {
        Some(v) => parse_u64(v),
        None => None,
    }
}

pub fn header_u64(value: Option<&str>) -> (r: Option<u64>)
    ensures
        r == spec_header_u64(match value {
            Some(v) => Some(v@),
            None => None,
        }),
{
    match value {
        Some(v) => {
            let chars = chars_of(v);
            parse_u64_chars(chars.as_slice())
        },
        None => None,
    }
}

/// The text after the last `/` (all of it when there is none).
pub open spec fn after_last_slash(s: Seq<char>) -> Seq<char>
    decreases s.len(),
{
    if s.len() == 0 {
        s
    } else if s.last() == '/' {
        Seq::empty()
    } else {
        after_last_slash(s.drop_last()).push(s.last())
    }
}

/// The complete length a `Content-Range` reports, or the error's message.
pub open spec fn spec_total_length(value: Option<Seq<char>>) -> Result<u64, Seq<char>> {
    match value {
        None => Err("missing Content-Range"@),
        Some(v) => {
            let length = after_last_slash(v);
            if length == seq!['*'] {
                Err("invalid Content-Range: "@ + v)
            } else {
                match parse_u64(length) {
                    Some(n) => Ok(n),
                    None => Err("invalid Content-Range: "@ + v),
                }
            }
        },
    }
}

fn last_slash_start(s: &[char]) -> (k: usize)
    ensures
        k <= s@.len(),
        s@.subrange(k as int, s@.len() as int) == after_last_slash(s@),
{
    let mut k: usize = s.len();
    while k > 0 && s[k - 1] != '/'
        invariant
            k <= s@.len(),
            forall|j: int| k <= j < s@.len() ==> s@[j] != '/',
        decreases k,
    {
        k = k - 1;
    }
    proof {
        lemma_after_last_slash(s@, k as int);
    }
    k
}

proof fn lemma_after_last_slash(s: Seq<char>, k: int)
    requires
        0 <= k <= s.len(),
        forall|j: int| k <= j < s.len() ==> s[j] != '/',
        k > 0 ==> s[k - 1] == '/',
    ensures
        s.subrange(k, s.len() as int) == after_last_slash(s),
    decreases s.len(),
{
    if s.len() == 0 {
    } else if s.last() == '/' {
        assert(k == s.len());
    } else {
        lemma_after_last_slash(s.drop_last(), k);
        assert(s.subrange(k, s.len() as int) =~= s.drop_last().subrange(k, s.len() - 1).push(s.last()));
    }
}

/// Reads the complete length from a `Content-Range` header.
pub fn parse_total_length(value: Option<&str>) -> (r: Result<u64, RavynError>)
    ensures
        match spec_total_length(match value {
            Some(v) => Some(v@),
            None => None,
        }) {
            Ok(n) => r == Ok::<u64, RavynError>(n),
            Err(m) => r matches Err(RavynError::Protocol(x)) && x@ == m,
        },
{
    let value = match value {
        Some(v) => v,
        None => return Err(RavynError::Protocol(String::from_str("missing Content-Range"))),
    };
    let chars = chars_of(value);
    let k = last_slash_start(chars.as_slice());
    let length = slice_range(chars.as_slice(), k, chars.len());
    let star = length.len() == 1 && length[0] == '*';
    proof {
        if length@ == seq!['*'] {
            assert(length@[0] == '*');
        }
        if star {
            assert(length@ =~= seq!['*']);
        }
    }
    let parsed = if star {
        None
    } else {
        parse_u64_chars(length.as_slice())
    };
    match parsed {
        Some(n) => Ok(n),
        None => {
            let mut m = String::from_str("invalid Content-Range: ");
            m.append(value);
            Err(RavynError::Protocol(m))
        },
    }
}

/// The `Location` of a redirect, which a redirect must carry.
pub fn redirect_location(response: &ProbeResponse) -> (r: Result<String, RavynError>)
    ensures
        match response.location {
            Some(l) => r == Ok::<String, RavynError>(l),
            None => r matches Err(RavynError::Protocol(x)) && x@ == "redirect response omitted Location"@,
        },
{
    match &response.location {
        Some(l) => Ok(l.clone()),
        None => Err(RavynError::Protocol(String::from_str("redirect response omitted Location"))),
    }
}

pub open spec fn spec_from_response(response: ProbeResponse, length: Option<u64>, range_supported: bool) -> RemoteMetadata {
    RemoteMetadata {
        final_url: response.url,
        length,
        range_supported,
        content_type: response.content_type,
        content_disposition: response.content_disposition,
        etag: response.etag,
        last_modified: response.last_modified,
    }
}

/// The metadata a response describes, with the length and range support
/// established by the caller.
pub fn from_response(response: &ProbeResponse, length: Option<u64>, range_supported: bool) -> (m: RemoteMetadata)
    ensures
        m == spec_from_response(*response, length, range_supported),
{
    RemoteMetadata {
        final_url: response.url.clone(),
        length,
        range_supported,
        content_type: clone_opt(&response.content_type),
        content_disposition: clone_opt(&response.content_disposition),
        etag: clone_opt(&response.etag),
        last_modified: clone_opt(&response.last_modified),
    }
}

/// Metadata taken from a response keeps what identifies the object: its
/// final URL, its validators (ETag, Last-Modified) and its content headers,
/// with the length and range support the caller established.
pub proof fn lemma_metadata_keeps_the_response(response: ProbeResponse, length: Option<u64>, range_supported: bool)
    ensures
        ({
            let m = spec_from_response(response, length, range_supported);
            &&& m.final_url == response.url
            &&& m.etag == response.etag
            &&& m.last_modified == response.last_modified
            &&& m.content_type == response.content_type
            &&& m.content_disposition == response.content_disposition
            &&& m.length == length
            &&& m.range_supported == range_supported
        }),
{
}

/// `Accept-Ranges: bytes`, ignoring ASCII case.
pub open spec fn advertises_byte_ranges(response: ProbeResponse) -> bool {
    match response.accept_ranges {
        Some(v) => eq_ignore_ascii_case(v@, "bytes"@),
        None => false,
    }
}

fn accepts_byte_ranges(response: &ProbeResponse) -> (b: bool)
    ensures
        b == advertises_byte_ranges(*response),
{
    match &response.accept_ranges {
        Some(v) => {
            let chars = chars_of(v.as_str());
            let bytes = chars_of("bytes");
            chars_eq_ignore_ascii_case(chars.as_slice(), bytes.as_slice())
        },
        None => false,
    }
}

/// What the probe does after its `HEAD` request.
pub enum HeadStep {
    /// The probe is over.
    Done(Result<ProbeResult, RavynError>),
    /// A one-byte ranged `GET` follows; the `HEAD` metadata, if any, is kept
    /// as a fallback.
    TryRange(Option<RemoteMetadata>),
}

/// The metadata a successful `HEAD` gives.
pub open spec fn head_metadata(response: ProbeResponse) -> RemoteMetadata {
    spec_from_response(
        response,
        spec_header_u64(opt_chars(response.content_length)),
        advertises_byte_ranges(response),
    )
}

/// Decides on the `HEAD` response (`None` when the request failed): a
/// redirect ends the probe, a success that advertises byte ranges ends it
/// with that metadata, and anything else moves on to a ranged `GET`.
pub fn after_head(head: Option<ProbeResponse>) -> (s: HeadStep)
    ensures
        match head {
            Some(resp) => if is_redirection(resp.status) {
                match resp.location {
                    Some(l) => s matches HeadStep::Done(Ok(ProbeResult::Redirect(x))) && x == l,
                    None => s matches HeadStep::Done(Err(RavynError::Protocol(x)))
                        && x@ == "redirect response omitted Location"@,
                }
            } else if is_success(resp.status) {
                if advertises_byte_ranges(resp) {
                    s matches HeadStep::Done(Ok(ProbeResult::Metadata(m))) && m == head_metadata(resp)
                } else {
                    s matches HeadStep::TryRange(Some(m)) && m == head_metadata(resp)
                }
            } else {
                s matches HeadStep::TryRange(None)
            },
            None => s matches HeadStep::TryRange(None),
        },
{
    match head {
        Some(resp) => {
            if 300 <= resp.status && resp.status <= 399 {
                match redirect_location(&resp) {
                    Ok(l) => HeadStep::Done(Ok(ProbeResult::Redirect(l))),
                    Err(e) => HeadStep::Done(Err(e)),
                }
            } else if 200 <= resp.status && resp.status <= 299 {
                let length = header_u64(
                    match &resp.content_length {
                        Some(v) => Some(v.as_str()),
                        None => None,
                    },
                );
                let ranges = accepts_byte_ranges(&resp);
                let m = from_response(&resp, length, ranges);
                if ranges {
                    HeadStep::Done(Ok(ProbeResult::Metadata(m)))
                } else {
                    HeadStep::TryRange(Some(m))
                }
            } else {
                HeadStep::TryRange(None)
            }
        },
        None => HeadStep::TryRange(None),
    }
}

/// Decides on the response to the one-byte ranged `GET` (or the error that
/// replaced it), given the metadata a successful `HEAD` left, if any.
pub fn after_range(head: Option<RemoteMetadata>, range: Result<ProbeResponse, RavynError>) -> (r: Result<
    ProbeResult,
    RavynError,
>)
    ensures
        match range {
            Ok(resp) => if is_redirection(resp.status) {
                match resp.location {
                    Some(l) => r matches Ok(ProbeResult::Redirect(x)) && x == l,
                    None => r matches Err(RavynError::Protocol(x)) && x@ == "redirect response omitted Location"@,
                }
            } else if resp.status == 206 {
                match spec_total_length(opt_chars(resp.content_range)) {
                    Ok(n) => r matches Ok(ProbeResult::Metadata(m)) && m == spec_from_response(resp, Some(n), true),
                    Err(msg) => r matches Err(RavynError::Protocol(x)) && x@ == msg,
                }
            } else if is_success(resp.status) {
                let own = spec_header_u64(opt_chars(resp.content_length));
                r matches Ok(ProbeResult::Metadata(m)) && m == spec_from_response(
                    resp,
                    match own {
                        Some(n) => Some(n),
                        None => match head {
                            Some(h) => h.length,
                            None => None,
                        },
                    },
                    false,
                )
            } else {
                match head {
                    Some(h) => r matches Ok(ProbeResult::Metadata(m)) && m == h,
                    None => r matches Err(RavynError::Protocol(x)) && x@ == "probe returned "@ + resp.status_text@,
                }
            },
            Err(e) => match head {
                Some(h) => r matches Ok(ProbeResult::Metadata(m)) && m == h,
                None => r == Err::<ProbeResult, RavynError>(e),
            },
        },
{
    match range {
        Ok(resp) => {
            if 300 <= resp.status && resp.status <= 399 {
                let l = redirect_location(&resp)?;
                Ok(ProbeResult::Redirect(l))
            } else if resp.status == 206 {
                let total = parse_total_length(
                    match &resp.content_range {
                        Some(v) => Some(v.as_str()),
                        None => None,
                    },
                )?;
                Ok(ProbeResult::Metadata(from_response(&resp, Some(total), true)))
            } else if 200 <= resp.status && resp.status <= 299 {
                let own = header_u64(
                    match &resp.content_length {
                        Some(v) => Some(v.as_str()),
                        None => None,
                    },
                );
                let length = match own {
                    Some(n) => Some(n),
                    None => match &head {
                        Some(h) => h.length,
                        None => None,
                    },
                };
                Ok(ProbeResult::Metadata(from_response(&resp, length, false)))
            } else {
                match head {
                    Some(h) => Ok(ProbeResult::Metadata(h)),
                    None => {
                        let mut m = String::from_str("probe returned ");
                        m.append(resp.status_text.as_str());
                        Err(RavynError::Protocol(m))
                    },
                }
            }
        },
        Err(e) => match head {
            Some(h) => Ok(ProbeResult::Metadata(h)),
            None => Err(e),
        },
    }
}

} // verus!
