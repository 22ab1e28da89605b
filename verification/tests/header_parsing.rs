use multidown::headers::{
    accept_ranges_is_bytes, parse_content_disposition_filename, parse_content_length,
    parse_content_range_total, suggested_filename,
};
use multidown::text::{
    find_char, join_path, parse_u64_dec, str_eq, str_starts_with, str_trim, u64_to_string,
    url_path_basename,
};

#[test]
fn plain_filename_parameter() {
    assert_eq!(
        parse_content_disposition_filename("attachment; filename=\"report.pdf\""),
        Some("report.pdf".to_string())
    );
    assert_eq!(
        parse_content_disposition_filename("attachment; filename=plain.txt"),
        Some("plain.txt".to_string())
    );
}

#[test]
fn starred_filename_is_percent_decoded() {
    assert_eq!(
        parse_content_disposition_filename("attachment; filename*=utf-8''na%C3%AFve%20file.txt"),
        Some("na\u{ef}ve file.txt".to_string())
    );
}

#[test]
fn starred_wins_over_plain_regardless_of_order() {
    assert_eq!(
        parse_content_disposition_filename(
            "attachment; filename=\"fallback.bin\"; filename*=utf-8''real%20name.bin"
        ),
        Some("real name.bin".to_string())
    );
    assert_eq!(
        parse_content_disposition_filename(
            "attachment; filename*=utf-8''first.bin; filename=\"second.bin\""
        ),
        Some("first.bin".to_string())
    );
}

#[test]
fn starred_without_encoding_prefix_is_taken_verbatim() {
    assert_eq!(
        parse_content_disposition_filename("attachment; filename*=odd-value"),
        Some("odd-value".to_string())
    );
}

#[test]
fn invalid_percent_utf8_falls_back_to_the_undecoded_text() {
    // %FF decodes to a byte that is not valid UTF-8 on its own.
    assert_eq!(
        parse_content_disposition_filename("attachment; filename*=utf-8''%FFbad"),
        Some("%FFbad".to_string())
    );
}

#[test]
fn keys_are_case_insensitive_and_spacing_tolerant() {
    assert_eq!(
        parse_content_disposition_filename("Attachment; FILENAME = \"x.y\""),
        Some("x.y".to_string())
    );
}

#[test]
fn headers_without_filenames_give_nothing() {
    assert_eq!(parse_content_disposition_filename("inline"), None);
    assert_eq!(parse_content_disposition_filename("attachment; size=3"), None);
    assert_eq!(parse_content_disposition_filename(""), None);
}

#[test]
fn url_basenames() {
    assert_eq!(url_path_basename("/files/a/data.bin"), "data.bin");
    assert_eq!(url_path_basename("/files/dir/"), "dir");
    assert_eq!(url_path_basename("plain"), "plain");
    assert_eq!(url_path_basename(""), "download");
    assert_eq!(url_path_basename("////"), "download");
}

#[test]
fn suggestion_prefers_the_header() {
    assert_eq!(
        suggested_filename(&Some("attachment; filename=a.txt".to_string()), "/p/q.bin"),
        "a.txt"
    );
    assert_eq!(suggested_filename(&Some("inline".to_string()), "/p/q.bin"), "q.bin");
    assert_eq!(suggested_filename(&None, "/p/q.bin"), "q.bin");
    assert_eq!(suggested_filename(&None, "/"), "download");
}

#[test]
fn content_length_parsing() {
    assert_eq!(parse_content_length(&Some("100000".to_string())), Some(100_000));
    assert_eq!(parse_content_length(&Some("+42".to_string())), Some(42));
    assert_eq!(parse_content_length(&Some("abc".to_string())), None);
    assert_eq!(parse_content_length(&Some("".to_string())), None);
    assert_eq!(parse_content_length(&Some("18446744073709551615".to_string())), Some(u64::MAX));
    assert_eq!(parse_content_length(&Some("18446744073709551616".to_string())), None);
    assert_eq!(parse_content_length(&None), None);
}

#[test]
fn content_range_totals() {
    assert_eq!(parse_content_range_total("bytes 0-0/2048"), Some(2048));
    assert_eq!(parse_content_range_total("bytes 0-0/ 77 "), Some(77));
    assert_eq!(parse_content_range_total("bytes 0-0/*"), None);
    assert_eq!(parse_content_range_total("nonsense"), None);
}

#[test]
fn accept_ranges_values() {
    assert!(accept_ranges_is_bytes("bytes"));
    assert!(accept_ranges_is_bytes("Bytes"));
    assert!(accept_ranges_is_bytes("BYTES"));
    assert!(!accept_ranges_is_bytes("none"));
    assert!(!accept_ranges_is_bytes(" bytes"));
}

#[test]
fn number_rendering_and_parsing() {
    assert_eq!(u64_to_string(0), "0");
    assert_eq!(u64_to_string(42), "42");
    assert_eq!(u64_to_string(u64::MAX), "18446744073709551615");
    assert_eq!(parse_u64_dec("0"), Some(0));
    assert_eq!(parse_u64_dec("007"), Some(7));
    assert_eq!(parse_u64_dec("-1"), None);
    assert_eq!(parse_u64_dec("1 2"), None);
}

#[test]
fn text_helpers_handle_unicode() {
    assert!(str_eq("na\u{ef}ve", "na\u{ef}ve"));
    assert!(!str_eq("naive", "na\u{ef}ve"));
    assert!(str_starts_with("\u{e9}clair", "\u{e9}"));
    assert!(!str_starts_with("a", "ab"));
    // Positions count characters, not bytes.
    assert_eq!(find_char("\u{e9}x;y", ';'), 2);
    assert_eq!(find_char("abc", ';'), 3);
    assert_eq!(url_path_basename("/d/\u{e9}t\u{e9}.bin"), "\u{e9}t\u{e9}.bin");
}

#[test]
fn joining_and_trimming() {
    assert_eq!(join_path("/a/b", "c.txt"), "/a/b/c.txt");
    assert_eq!(join_path("/a/b/", "c.txt"), "/a/b/c.txt");
    assert_eq!(join_path("", "c.txt"), "c.txt");
    assert_eq!(str_trim("  x y\t"), "x y");
    assert_eq!(str_trim("\r\n"), "");
}
