use multidown::commands::{batch_candidate, import_entry_plan, import_is_json, import_url_lines,
    path_parent, TransferEntry};
use multidown::framing::{frame_len_ok, parse_port_text, u32_from_le, u32_to_le, MAX_FRAME_LEN};
use multidown::network::{
    effective_timeout_secs, is_http_url, probe_needs_range_request, range_header_value,
    resolve_probe, HeadResponse, NetworkOptions, RangeProbeResponse,
};
use multidown::scheduler::Scheduler;
use multidown::settings::{choose_save_dir, settings_path, should_snapshot, snapshot_delay_secs,
    AppSettings};
use multidown::types::CreateTaskInput;

fn head(
    content_length: Option<&str>,
    accept_ranges: Option<&str>,
    disposition: Option<&str>,
) -> HeadResponse {
    HeadResponse {
        status: 200,
        final_url: "https://cdn.example.com/real/file.bin".to_string(),
        url_path: "/real/file.bin".to_string(),
        content_length: content_length.map(|s| s.to_string()),
        accept_ranges: accept_ranges.map(|s| s.to_string()),
        content_disposition: disposition.map(|s| s.to_string()),
    }
}

#[test]
fn probe_with_length_and_ranges_needs_no_second_request() {
    let h = head(Some("100000"), Some("bytes"), None);
    assert!(!probe_needs_range_request(&h));
    let r = resolve_probe(h, None);
    assert!(r.supports_range);
    assert_eq!(r.total_bytes, Some(100_000));
    assert_eq!(r.suggested_filename, "file.bin");
    assert_eq!(r.final_url, "https://cdn.example.com/real/file.bin");
}

#[test]
fn probe_learns_ranges_from_a_206() {
    let h = head(None, None, None);
    assert!(probe_needs_range_request(&h));
    let g = RangeProbeResponse {
        status: 206,
        content_range: Some("bytes 0-0/4096".to_string()),
        content_length: Some("1".to_string()),
    };
    let r = resolve_probe(h, Some(g));
    assert!(r.supports_range);
    assert_eq!(r.total_bytes, Some(4096));
}

#[test]
fn probe_falls_back_on_a_200() {
    let h = head(None, None, None);
    let g = RangeProbeResponse {
        status: 200,
        content_range: None,
        content_length: Some("1024".to_string()),
    };
    let r = resolve_probe(h, Some(g));
    assert!(!r.supports_range);
    assert_eq!(r.total_bytes, Some(1024));
}

#[test]
fn probe_uses_the_disposition_filename() {
    let h = head(Some("5"), None, Some("attachment; filename=\"named.iso\""));
    let r = resolve_probe(h, None);
    assert_eq!(r.suggested_filename, "named.iso");
}

#[test]
fn range_headers_are_inclusive() {
    assert_eq!(range_header_value(0, 24_999), "bytes=0-24999");
    assert_eq!(range_header_value(25_000, 49_999), "bytes=25000-49999");
    assert_eq!(range_header_value(0, 0), "bytes=0-0");
}

#[test]
fn url_scheme_checks() {
    assert!(is_http_url("http://a"));
    assert!(is_http_url("https://a/b?c"));
    assert!(!is_http_url("ftp://a"));
    assert!(!is_http_url("httpx://a"));
    assert!(!is_http_url(""));
}

#[test]
fn timeouts_default_to_thirty_seconds() {
    assert_eq!(effective_timeout_secs(0), 30);
    assert_eq!(effective_timeout_secs(7), 7);
    let o = NetworkOptions::default();
    assert_eq!(o.timeout_secs, 0);
    assert!(o.proxy_url.is_none());
}

#[test]
fn import_takes_only_http_urls() {
    let text = "https://a.example/one\n\nftp://b.example/skip\nhttp://c.example/two\n   https://d.example/three   \nnot a url";
    let urls = import_url_lines(text);
    assert_eq!(
        urls,
        vec![
            "https://a.example/one".to_string(),
            "http://c.example/two".to_string(),
            "https://d.example/three".to_string(),
        ]
    );
}

#[test]
fn three_valid_urls_make_three_pending_tasks() {
    let text = "https://a.example/f1\nhttps://b.example/f2\n\nftp://x/skip\nhttps://c.example/f3";
    let urls = import_url_lines(text);
    assert_eq!(urls.len(), 3);
    let mut s = Scheduler::new();
    for url in urls {
        let inp = CreateTaskInput {
            url,
            save_dir: choose_save_dir("", "/home/user/Downloads"),
            filename: None,
        };
        s.create_task(inp, false, None, 0).unwrap();
    }
    let infos = s.list_downloads(0);
    assert_eq!(infos.len(), 3);
    for info in infos {
        assert_eq!(info.status, multidown::types::TaskStatus::Pending);
        assert!(info.save_path.starts_with("/home/user/Downloads/"));
    }
}

#[test]
fn import_dispatch_looks_at_the_first_character() {
    assert!(import_is_json("  {\"tasks\":[]}"));
    assert!(!import_is_json("https://a"));
    assert!(!import_is_json(""));
}

#[test]
fn import_entries_pick_directory_and_filename() {
    let e = TransferEntry {
        url: " https://a.example/f ".to_string(),
        save_path: "/data/sub/f.bin".to_string(),
        filename: "f.bin".to_string(),
    };
    let p = import_entry_plan(&e, "/default").unwrap();
    assert_eq!(p.url, "https://a.example/f");
    assert_eq!(p.save_dir, "/data/sub");
    assert_eq!(p.filename.as_deref(), Some("f.bin"));

    let bare = TransferEntry {
        url: "https://a.example/f".to_string(),
        save_path: String::new(),
        filename: String::new(),
    };
    let p2 = import_entry_plan(&bare, "/default").unwrap();
    assert_eq!(p2.save_dir, "/default");
    assert_eq!(p2.filename, None);

    let bad = TransferEntry {
        url: "ftp://a.example/f".to_string(),
        save_path: String::new(),
        filename: String::new(),
    };
    assert!(import_entry_plan(&bad, "/default").is_none());
}

#[test]
fn path_parents() {
    assert_eq!(path_parent("/a/b/c.txt").as_deref(), Some("/a/b"));
    assert_eq!(path_parent("a\\b\\c").as_deref(), Some("a\\b"));
    assert_eq!(path_parent("c.txt"), None);
}

#[test]
fn batch_candidates_trim_and_default() {
    let p = batch_candidate("  https://a.example/f  ", "").unwrap();
    assert_eq!(p.0, "https://a.example/f");
    assert_eq!(p.1, ".");
    let q = batch_candidate("http://b", " /dir ").unwrap();
    assert_eq!(q.1, "/dir");
    assert!(batch_candidate("", "/dir").is_none());
    assert!(batch_candidate("ftp://x", "/dir").is_none());
}

#[test]
fn frame_lengths_round_trip_in_little_endian() {
    let b = u32_to_le(0x0102_0304);
    assert_eq!(b, vec![4, 3, 2, 1]);
    assert_eq!(u32_from_le(&b), 0x0102_0304);
    assert_eq!(u32_from_le(&u32_to_le(0)), 0);
    assert_eq!(u32_from_le(&u32_to_le(u32::MAX)), u32::MAX);
    assert!(frame_len_ok(0));
    assert!(frame_len_ok(MAX_FRAME_LEN));
    assert!(!frame_len_ok(MAX_FRAME_LEN + 1));
}

#[test]
fn port_file_text_parses_or_falls_to_zero() {
    assert_eq!(parse_port_text(" 8642 \n"), 8642);
    assert_eq!(parse_port_text("65535"), 65535);
    assert_eq!(parse_port_text("65536"), 0);
    assert_eq!(parse_port_text("not a port"), 0);
    assert_eq!(parse_port_text(""), 0);
}

#[test]
fn settings_defaults_and_proxy() {
    let s = AppSettings::default();
    assert_eq!(s.max_connections_per_task, 8);
    assert_eq!(s.timeout_secs, 30);
    assert_eq!(s.save_progress_interval_secs, 30);
    assert_eq!(s.duplicate_action, "ask");
    assert_eq!(s.proxy_type, "none");
    assert_eq!(s.proxy_url(), None);

    let mut m = AppSettings::default();
    m.proxy_type = "manual".to_string();
    m.proxy_host = "  proxy.local ".to_string();
    m.proxy_port = 3128;
    assert_eq!(m.proxy_url().as_deref(), Some("http://proxy.local:3128"));
    m.proxy_host = "   ".to_string();
    assert_eq!(m.proxy_url(), None);
}

#[test]
fn snapshot_policy() {
    assert_eq!(snapshot_delay_secs(0), 5);
    assert_eq!(snapshot_delay_secs(4), 5);
    assert_eq!(snapshot_delay_secs(30), 30);
    assert!(should_snapshot(30, true));
    assert!(!should_snapshot(0, true));
    assert!(!should_snapshot(30, false));
    assert_eq!(settings_path("/home/u/.config/app"), "/home/u/.config/app/multidown_settings.json");
}

#[test]
fn export_lists_the_map() {
    let mut s = Scheduler::new();
    s.create_task_with_id(
        CreateTaskInput {
            url: "https://a.example/f".to_string(),
            save_dir: "/d".to_string(),
            filename: Some("f".to_string()),
        },
        true,
        Some(1),
        "x".to_string(),
        0,
    )
    .unwrap();
    let entries = s.export_entries();
    assert_eq!(entries.len(), 1);
    assert_eq!(entries[0].url, "https://a.example/f");
    assert_eq!(entries[0].save_path, "/d/f");
    assert_eq!(entries[0].filename, "f");
}
