//! The decisions of the HTTP facade: what a probe concludes from the
//! responses it saw, what the `Range` header of a fetch says, and the
//! client's timeout policy. The requests themselves are issued by the host;
//! their status lines and header values arrive here as plain values.

use vstd::prelude::*;
use crate::headers::{
    spec_content_length, parse_content_length, spec_content_range_total, parse_content_range_total,
    spec_suggested_filename, suggested_filename, accept_ranges_is_bytes,
};
use crate::text::{
    eq_ci, starts_with, str_starts_with, dec_chars, u64_to_string,
};

verus! {

/// Optional knobs for the HTTP client: a proxy and a request timeout.
pub struct NetworkOptions {
    /// `http://host:port` of a proxy, if one is configured.
    pub proxy_url: Option<String>,
    /// Whole-transfer timeout in seconds; zero asks for the default.
    pub timeout_secs: u64,
}

impl Default for NetworkOptions {
    /// No proxy, and the zero that stands for the default timeout.
    fn default() -> (r: NetworkOptions)
        ensures
            r.proxy_url is None,
            r.timeout_secs == 0,
    {
        NetworkOptions { proxy_url: None, timeout_secs: 0 }
    }
}

/// What a probe concludes: range support, total size when known, a filename
/// suggestion, and the URL the redirects ended at.
pub struct ProbeResult {
    pub supports_range: bool,
    pub total_bytes: Option<u64>,
    pub suggested_filename: String,
    pub final_url: String,
}

/// What the host read off the `HEAD` response: status, the URL after
/// redirects, its path, and the three headers the probe consults.
pub struct HeadResponse {
    pub status: u16,
    pub final_url: String,
    pub url_path: String,
    pub content_length: Option<String>,
    pub accept_ranges: Option<String>,
    pub content_disposition: Option<String>,
}

/// What the host read off the follow-up `GET` with `Range: bytes=0-0`.
pub struct RangeProbeResponse {
    pub status: u16,
    pub content_range: Option<String>,
    pub content_length: Option<String>,
}

/// The view of an optional header value.
pub open spec fn opt_view(v: Option<String>) -> Option<Seq<char>> {
    match v {
        Some(s) => Some(s@),
        None => None,
    }
}

/// Whether the probe must follow the `HEAD` with a tiny ranged `GET`: only
/// when the `HEAD` did not yield a size.
pub fn probe_needs_range_request(head: &HeadResponse) -> (r: bool)
    ensures
        r == (spec_content_length(opt_view(head.content_length)) is None),
{
    parse_content_length(&head.content_length).is_none()
}

/// Whether an `Accept-Ranges` header, when present, announces byte ranges.
pub open spec fn spec_head_accept_ranges(head: &HeadResponse) -> bool {
    match head.accept_ranges {
        Some(v) => eq_ci(v@, "bytes"@),
        None => false,
    }
}

/// Range support after the whole probe: the `HEAD`'s `Accept-Ranges`, or a
/// `206` answer to the ranged `GET` when one was needed.
pub open spec fn spec_probe_supports_range(
    head: &HeadResponse,
    range: &Option<RangeProbeResponse>,
) -> bool {
    ||| spec_head_accept_ranges(head)
    ||| {
        &&& spec_content_length(opt_view(head.content_length)) is None
        &&& match range {
            Some(g) => g.status == 206,
            None => false,
        }
    }
}

/// Total size after the whole probe: the `HEAD`'s `Content-Length` when it
/// had one; else the `Content-Range` total of a `206`, or the
/// `Content-Length` of a `200`, from the ranged `GET`.
pub open spec fn spec_probe_total(head: &HeadResponse, range: &Option<RangeProbeResponse>) -> Option<u64> {
    let head_len = spec_content_length(opt_view(head.content_length));
    if head_len is Some {
        head_len
    } else {
        match range {
            Some(g) => {
                if g.status == 206 {
                    match g.content_range {
                        Some(cr) => spec_content_range_total(cr@),
                        None => None,
                    }
                } else if g.status == 200 {
                    spec_content_length(opt_view(g.content_length))
                } else {
                    None
                }
            },
            None => None,
        }
    }
}

/// Combine the responses of a probe into its conclusion. `range` is the
/// answer to the follow-up ranged `GET`, issued only when the `HEAD` gave no
/// size ([`probe_needs_range_request`]).
pub fn resolve_probe(head: HeadResponse, range: Option<RangeProbeResponse>) -> (r: ProbeResult)
    ensures
        r.supports_range == spec_probe_supports_range(&head, &range),
        r.total_bytes == spec_probe_total(&head, &range),
        r.suggested_filename@ == spec_suggested_filename(
            opt_view(head.content_disposition),
            head.url_path@,
        ),
        r.final_url == head.final_url,
{
    let head_len = parse_content_length(&head.content_length);
    let accepts = match &head.accept_ranges {
        Some(v) => accept_ranges_is_bytes(v.as_str()),
        None => false,
    };
    let mut supports_range = accepts;
    let mut total_bytes = head_len;
    if total_bytes.is_none() {
        match &range {
            Some(g) => {
                if g.status == 206 {
                    supports_range = true;
                    total_bytes = match &g.content_range {
                        Some(cr) => parse_content_range_total(cr.as_str()),
                        None => None,
                    };
                } else if g.status == 200 {
                    total_bytes = parse_content_length(&g.content_length);
                }
            },
            None => {},
        }
    }
    let suggested = suggested_filename(&head.content_disposition, head.url_path.as_str());
    ProbeResult {
        supports_range,
        total_bytes,
        suggested_filename: suggested,
        final_url: head.final_url,
    }
}

/// The `Range` header of a fetch of the inclusive span `[start, end]`.
pub fn range_header_value(start: u64, end: u64) -> (r: String)
    ensures
        r@ == "bytes="@ + dec_chars(start as int) + "-"@ + dec_chars(end as int),
{
    let mut s = String::from_str("bytes=");
    s.append(u64_to_string(start).as_str());
    s.append("-");
    s.append(u64_to_string(end).as_str());
    s
}

/// Whether a line of text is an HTTP or HTTPS URL (by its scheme prefix).
pub fn is_http_url(s: &str) -> (r: bool)
    ensures
        r == (starts_with(s@, "http://"@) || starts_with(s@, "https://"@)),
{
    str_starts_with(s, "http://") || str_starts_with(s, "https://")
}

/// The request timeout used when the options carry none, in seconds.
pub fn default_timeout() -> (r: u64)
    ensures
        r == 30,
{
    30
}

/// The timeout a client is built with: the configured seconds, or the
/// default when the configuration says zero.
pub fn effective_timeout_secs(configured: u64) -> (r: u64)
    ensures
        configured > 0 ==> r == configured,
        configured == 0 ==> r == 30,
{
    if configured > 0 {
        configured
    } else {
        default_timeout()
    }
}

} // verus!
