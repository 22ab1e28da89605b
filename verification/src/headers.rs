//! Parsing of the response headers the probe reads: `Content-Disposition`
//! (filename selection with RFC 5987 `filename*` percent-decoding),
//! `Content-Length`, `Content-Range` and `Accept-Ranges`.

use vstd::prelude::*;
use vstd::string::StringSliceAdditionalSpecFns;
use vstd::utf8::{valid_utf8, decode_utf8, encode_utf8};
use crate::text::{
    spec_trim, str_trim, first_idx, find_char, eq_ci, str_eq_ci, starts_with, str_starts_with,
    spec_parse_u64, parse_u64_dec, spec_url_path_basename, url_path_basename,
};

verus! {

/// Whether a byte is an ASCII hexadecimal digit.
pub open spec fn is_hex_digit(b: u8) -> bool {
    48 <= b <= 57 || 65 <= b <= 70 || 97 <= b <= 102
}

/// Value of an ASCII hexadecimal digit.
pub open spec fn hex_val(b: u8) -> int {
    if 48 <= b <= 57 {
        b - 48
    } else if 65 <= b <= 70 {
        b - 55
    } else {
        b - 87
    }
}

/// Percent-decoding of a byte sequence: `%` followed by two hexadecimal
/// digits becomes that byte; a `%` followed by one hexadecimal digit or by
/// nothing that fits passes through unchanged, together with what follows it.
pub open spec fn spec_pct_decode(s: Seq<u8>) -> Seq<u8>
    decreases s.len(),
{
    if s.len() == 0 {
        s
    } else if s[0] != 37 {
        seq![s[0]] + spec_pct_decode(s.drop_first())
    } else if s.len() >= 3 && is_hex_digit(s[1]) && is_hex_digit(s[2]) {
        seq![(hex_val(s[1]) * 16 + hex_val(s[2])) as u8] + spec_pct_decode(s.skip(3))
    } else if s.len() >= 2 && is_hex_digit(s[1]) {
        seq![s[0], s[1]] + spec_pct_decode(s.skip(2))
    } else {
        seq![s[0]] + spec_pct_decode(s.skip(1))
    }
}

/// Relies on `urlencoding::decode_binary`: it decodes `%xx` escapes to their
/// bytes and passes malformed escapes through unchanged, exactly as
/// [`spec_pct_decode`] states.
#[verifier::external_body]
fn pct_decode(data: &[u8]) -> (r: Vec<u8>)
    ensures
        r@ == spec_pct_decode(data@),
{
    urlencoding::decode_binary(data).into_owned()
}

/// Relies on std's `String::from_utf8`: it succeeds exactly on valid UTF-8
/// and yields the characters that byte sequence encodes.
#[verifier::external_body]
fn string_from_utf8(v: Vec<u8>) -> (r: Option<String>)
    ensures
        r is Some <==> valid_utf8(v@),
        r is Some ==> r->0@ == decode_utf8(v@),
{
    String::from_utf8(v).ok()
}

/// `s` with every leading and trailing double quote removed.
pub open spec fn trim_quotes(s: Seq<char>) -> Seq<char> {
    trim_back_quotes(trim_front_quotes(s))
}

/// `s` with leading double quotes removed.
pub open spec fn trim_front_quotes(s: Seq<char>) -> Seq<char>
    decreases s.len(),
{
    if s.len() > 0 && s[0] == '"' {
        trim_front_quotes(s.drop_first())
    } else {
        s
    }
}

/// `s` with trailing double quotes removed.
pub open spec fn trim_back_quotes(s: Seq<char>) -> Seq<char>
    decreases s.len(),
{
    if s.len() > 0 && s.last() == '"' {
        trim_back_quotes(s.drop_last())
    } else {
        s
    }
}

proof fn lemma_trim_front_quotes(s: Seq<char>, b: int)
    requires
        0 <= b <= s.len(),
        forall|k: int| 0 <= k < b ==> s[k] == '"',
        b < s.len() ==> s[b] != '"',
    ensures
        trim_front_quotes(s) == s.subrange(b, s.len() as int),
    decreases s.len(),
{
    if s.len() > 0 && s[0] == '"' {
        assert(b > 0);
        lemma_trim_front_quotes(s.drop_first(), b - 1);
        assert(s.drop_first().subrange(b - 1, s.drop_first().len() as int) =~= s.subrange(
            b,
            s.len() as int,
        ));
    } else {
        assert(b == 0);
        assert(s.subrange(0, s.len() as int) =~= s);
    }
}

proof fn lemma_trim_back_quotes(s: Seq<char>, e: int)
    requires
        0 <= e <= s.len(),
        forall|k: int| e <= k < s.len() ==> s[k] == '"',
        e > 0 ==> s[e - 1] != '"',
    ensures
        trim_back_quotes(s) == s.subrange(0, e),
    decreases s.len(),
{
    if s.len() > 0 && s.last() == '"' {
        assert(e < s.len());
        lemma_trim_back_quotes(s.drop_last(), e);
        assert(s.drop_last().subrange(0, e) =~= s.subrange(0, e));
    } else {
        assert(e == s.len());
        assert(s.subrange(0, s.len() as int) =~= s);
    }
}

/// `s` with double quotes removed from both ends.
fn str_trim_quotes(s: &str) -> (r: &str)
    ensures
        r@ == trim_quotes(s@),
{
    let n = s.unicode_len();
    let mut b: usize = 0;
    while b < n && s.get_char(b) == '"'
        invariant
            0 <= b <= n,
            n == s@.len(),
            forall|k: int| 0 <= k < b ==> s@[k] == '"',
        decreases n - b,
    {
        b = b + 1;
    }
    let mut e: usize = n;
    while e > b && s.get_char(e - 1) == '"'
        invariant
            b <= e <= n,
            n == s@.len(),
            forall|k: int| 0 <= k < b ==> s@[k] == '"',
            forall|k: int| e <= k < n ==> s@[k] == '"',
        decreases e,
    {
        e = e - 1;
    }
    proof {
        lemma_trim_front_quotes(s@, b as int);
        let f = s@.subrange(b as int, n as int);
        lemma_trim_back_quotes(f, e as int - b as int);
        assert(f.subrange(0, e as int - b as int) =~= s@.subrange(b as int, e as int));
    }
    s.substring_char(b, e)
}

/// The value of the first `key=value` parameter of a `;`-separated header
/// whose key (trimmed, ASCII case folded) equals `key`: the value comes back
/// trimmed and stripped of surrounding double quotes.
pub open spec fn spec_find_param(s: Seq<char>, key: Seq<char>) -> Option<Seq<char>>
    decreases s.len(),
    via spec_find_param_decreases
{
    let cut = first_idx(s, ';');
    let kv = spec_param_value(s.take(cut), key);
    if kv is Some {
        kv
    } else if cut < s.len() {
        spec_find_param(s.skip(cut + 1), key)
    } else {
        None
    }
}

#[via_fn]
proof fn spec_find_param_decreases(s: Seq<char>, key: Seq<char>) {
    crate::text::lemma_first_idx(s, ';');
}

/// The value of one `key=value` part when its key matches, after trimming
/// and quote-stripping.
pub open spec fn spec_param_value(part: Seq<char>, key: Seq<char>) -> Option<Seq<char>> {
    let t = spec_trim(part);
    let e = first_idx(t, '=');
    if e == t.len() {
        None
    } else if eq_ci(spec_trim(t.take(e)), key) {
        Some(trim_quotes(spec_trim(t.skip(e + 1))))
    } else {
        None
    }
}

/// Value of one part when its key matches one of the two filename keys.
fn param_value(part: &str, star: bool) -> (r: Option<String>)
    ensures
        match r {
            Some(v) => spec_param_value(part@, spec_filename_key(star)) == Some(v@),
            None => spec_param_value(part@, spec_filename_key(star)) is None,
        },
{
    let t = str_trim(part);
    let n = t.unicode_len();
    let e = find_char(t, '=');
    proof {
        crate::text::lemma_first_idx(t@, '=');
    }
    if e == n {
        return None;
    }
    let key = str_trim(t.substring_char(0, e));
    let matched = if star {
        str_eq_ci(key, "filename*")
    } else {
        str_eq_ci(key, "filename")
    };
    if matched {
        let val = str_trim_quotes(str_trim(t.substring_char(e + 1, n)));
        Some(val.to_owned())
    } else {
        None
    }
}

/// The key `spec_find_param` is asked for.
pub open spec fn spec_filename_key(star: bool) -> Seq<char> {
    if star {
        "filename*"@
    } else {
        "filename"@
    }
}

/// First parameter of the header carrying the requested filename key.
fn find_param(s: &str, star: bool) -> (r: Option<String>)
    ensures
        match r {
            Some(v) => spec_find_param(s@, spec_filename_key(star)) == Some(v@),
            None => spec_find_param(s@, spec_filename_key(star)) is None,
        },
    decreases s@.len(),
{
    let n = s.unicode_len();
    let cut = find_char(s, ';');
    proof {
        crate::text::lemma_first_idx(s@, ';');
    }
    let part = s.substring_char(0, cut);
    match param_value(part, star) {
        Some(v) => Some(v),
        None => {
            if cut < n {
                find_param(s.substring_char(cut + 1, n), star)
            } else {
                None
            }
        },
    }
}

/// The filename a `Content-Disposition` header selects. A `filename*`
/// parameter wins over `filename`; its value, when marked `utf-8''`, is
/// percent-decoded, keeping the undecoded text when the decoded bytes are
/// not valid UTF-8.
pub open spec fn spec_cd_filename(s: Seq<char>) -> Option<Seq<char>> {
    match spec_find_param(s, spec_filename_key(true)) {
        Some(v) => {
            if starts_with(v, "utf-8''"@) {
                let body = v.skip("utf-8''"@.len() as int);
                let d = spec_pct_decode(encode_utf8(body));
                if valid_utf8(d) {
                    Some(decode_utf8(d))
                } else {
                    Some(body)
                }
            } else {
                Some(v)
            }
        },
        None => spec_find_param(s, spec_filename_key(false)),
    }
}

/// Parse a `Content-Disposition` header value into the filename it names,
/// if any.
pub fn parse_content_disposition_filename(disp: &str) -> (r: Option<String>)
    ensures
        match r {
            Some(v) => spec_cd_filename(disp@) == Some(v@),
            None => spec_cd_filename(disp@) is None,
        },
{
    proof {
        reveal_strlit("utf-8''");
    }
    match find_param(disp, true) {
        Some(v) => {
            let vs = v.as_str();
            if str_starts_with(vs, "utf-8''") {
                let body = vs.substring_char(7, vs.unicode_len());
                proof {
                    assert(body@ =~= v@.skip(7));
                }
                let decoded = pct_decode(body.as_bytes());
                match string_from_utf8(decoded) {
                    Some(out) => Some(out),
                    None => Some(body.to_owned()),
                }
            } else {
                Some(v)
            }
        },
        None => find_param(disp, false),
    }
}

/// What the filename of a probed response is: the `Content-Disposition`
/// filename when the header names one, else the URL path's basename.
pub open spec fn spec_suggested_filename(disp: Option<Seq<char>>, url_path: Seq<char>) -> Seq<
    char,
> {
    match disp {
        Some(d) => match spec_cd_filename(d) {
            Some(f) => f,
            None => spec_url_path_basename(url_path),
        },
        None => spec_url_path_basename(url_path),
    }
}

/// Choose the filename a probe suggests from the `Content-Disposition`
/// header, if present, falling back to the URL path's basename.
pub fn suggested_filename(disposition: &Option<String>, url_path: &str) -> (r: String)
    ensures
        r@ == spec_suggested_filename(
            match disposition {
                Some(d) => Some(d@),
                None => None,
            },
            url_path@,
        ),
{
    match disposition {
        Some(d) => match parse_content_disposition_filename(d.as_str()) {
            Some(f) => f,
            None => url_path_basename(url_path),
        },
        None => url_path_basename(url_path),
    }
}

/// Whether an `Accept-Ranges` header value announces byte ranges (ASCII
/// case-insensitive comparison with `bytes`).
pub fn accept_ranges_is_bytes(v: &str) -> (r: bool)
    ensures
        r == eq_ci(v@, "bytes"@),
{
    str_eq_ci(v, "bytes")
}

/// The size a `Content-Length` header value carries.
pub open spec fn spec_content_length(v: Option<Seq<char>>) -> Option<u64> {
    match v {
        Some(s) => spec_parse_u64(s),
        None => None,
    }
}

/// Parse a `Content-Length` header value.
pub fn parse_content_length(v: &Option<String>) -> (r: Option<u64>)
    ensures
        r == spec_content_length(
            match v {
                Some(s) => Some(s@),
                None => None,
            },
        ),
{
    match v {
        Some(s) => parse_u64_dec(s.as_str()),
        None => None,
    }
}

/// The total size a `Content-Range` header value announces: the number after
/// the `/`, trimmed; unknown when missing or not a number (a `*` total).
pub open spec fn spec_content_range_total(s: Seq<char>) -> Option<u64> {
    let slash = first_idx(s, '/');
    if slash == s.len() {
        None
    } else {
        let rest = s.skip(slash + 1);
        spec_parse_u64(spec_trim(rest.take(first_idx(rest, '/'))))
    }
}

/// Parse the total size out of a `Content-Range: bytes a-b/total` value.
pub fn parse_content_range_total(v: &str) -> (r: Option<u64>)
    ensures
        r == spec_content_range_total(v@),
{
    let n = v.unicode_len();
    let slash = find_char(v, '/');
    proof {
        crate::text::lemma_first_idx(v@, '/');
    }
    if slash == n {
        return None;
    }
    let rest = v.substring_char(slash + 1, n);
    let stop = find_char(rest, '/');
    proof {
        crate::text::lemma_first_idx(rest@, '/');
    }
    let second = rest.substring_char(0, stop);
    proof {
        assert(second@ =~= v@.skip(slash as int + 1).take(first_idx(v@.skip(slash as int + 1), '/')));
    }
    parse_u64_dec(str_trim(second))
}

} // verus!
