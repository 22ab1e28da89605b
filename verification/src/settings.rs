//! The options record the engine consumes, its defaults, the proxy URL it
//! derives, and the policy for the periodic snapshot.

use vstd::prelude::*;
use crate::text::{spec_trim, str_trim, dec_chars, u64_to_string, str_eq, spec_join_path, join_path};

verus! {

/// Application settings, as the host stores them.
pub struct AppSettings {
    /// Default save directory; empty means the system download directory.
    pub default_save_path: String,
    /// Maximum connections per task.
    pub max_connections_per_task: u32,
    /// Global cap on concurrently running tasks.
    pub max_concurrent_tasks: u32,
    /// Start with the system.
    pub run_at_startup: bool,
    /// Watch the clipboard for download links.
    pub clipboard_monitor: bool,
    /// Show a dialog when a download starts.
    pub show_start_dialog: bool,
    /// Notify when a download completes.
    pub show_complete_dialog: bool,
    /// What to do on a duplicate link: `ask`, `skip`, `overwrite` or `rename`.
    pub duplicate_action: String,
    /// User agent for manually added tasks.
    pub user_agent: String,
    /// Reuse the last save path.
    pub use_last_save_path: bool,
    /// Proxy selection: `none`, `system` or `manual`.
    pub proxy_type: String,
    /// Host of a manual proxy.
    pub proxy_host: String,
    /// Port of a manual proxy.
    pub proxy_port: u16,
    /// Notify on completion.
    pub notification_on_complete: bool,
    /// Notify on failure.
    pub notification_on_fail: bool,
    /// Request timeout in seconds.
    pub timeout_secs: u64,
    /// Seconds between periodic snapshots while downloading.
    pub save_progress_interval_secs: u64,
}

impl Default for AppSettings {
    /// The defaults a fresh installation runs with.
    fn default() -> (r: AppSettings)
        ensures
            r.default_save_path@.len() == 0,
            r.max_connections_per_task == 8,
            r.max_concurrent_tasks == 4,
            !r.run_at_startup,
            !r.clipboard_monitor,
            r.show_start_dialog,
            r.show_complete_dialog,
            r.duplicate_action@ == "ask"@,
            r.user_agent@ == ("Mozilla/5.0 (Windows NT 10.0; Win64; x64) AppleWebKit/537.36 (KHTML, like Gecko) Chrome/120.0.0.0 Safari/537.36")@,
            r.use_last_save_path,
            r.proxy_type@ == "none"@,
            r.proxy_host@.len() == 0,
            r.proxy_port == 8080,
            r.notification_on_complete,
            r.notification_on_fail,
            r.timeout_secs == 30,
            r.save_progress_interval_secs == 30,
    {
        AppSettings {
            default_save_path: String::new(),
            max_connections_per_task: 8,
            max_concurrent_tasks: 4,
            run_at_startup: false,
            clipboard_monitor: false,
            show_start_dialog: true,
            show_complete_dialog: true,
            duplicate_action: String::from_str("ask"),
            user_agent: String::from_str(
                "Mozilla/5.0 (Windows NT 10.0; Win64; x64) AppleWebKit/537.36 (KHTML, like Gecko) Chrome/120.0.0.0 Safari/537.36",
            ),
            use_last_save_path: true,
            proxy_type: String::from_str("none"),
            proxy_host: String::new(),
            proxy_port: 8080,
            notification_on_complete: true,
            notification_on_fail: true,
            timeout_secs: 30,
            save_progress_interval_secs: 30,
        }
    }
}

/// The proxy URL the settings describe: `http://host:port` of the trimmed
/// manual host, and nothing unless a manual proxy with a host is configured.
pub open spec fn spec_proxy_url(s: &AppSettings) -> Option<Seq<char>> {
    if s.proxy_type@ != "manual"@ {
        None
    } else {
        let host = spec_trim(s.proxy_host@);
        if host.len() == 0 {
            None
        } else {
            Some("http://"@ + host + ":"@ + dec_chars(s.proxy_port as int))
        }
    }
}

impl AppSettings {
    /// `http://host:port` when a manual proxy with a host is configured.
    pub fn proxy_url(&self) -> (r: Option<String>)
        ensures
            match r {
                Some(u) => spec_proxy_url(self) == Some(u@),
                None => spec_proxy_url(self) is None,
            },
    {
        if !str_eq(self.proxy_type.as_str(), "manual") {
            return None;
        }
        let host = str_trim(self.proxy_host.as_str());
        if host.unicode_len() == 0 {
            return None;
        }
        let mut url = String::from_str("http://");
        url.append(host);
        url.append(":");
        url.append(u64_to_string(self.proxy_port as u64).as_str());
        Some(url)
    }
}

/// Where the settings file lives under the application data directory.
pub fn settings_path(app_data_dir: &str) -> (r: String)
    ensures
        r@ == spec_join_path(app_data_dir@, "multidown_settings.json"@),
{
    join_path(app_data_dir, "multidown_settings.json")
}

/// How long the periodic snapshot loop sleeps for a configured interval:
/// the interval itself, floored at five seconds.
pub fn snapshot_delay_secs(interval: u64) -> (r: u64)
    ensures
        r == (if interval < 5 {
            5u64
        } else {
            interval
        }),
{
    if interval < 5 {
        5
    } else {
        interval
    }
}

/// Whether the periodic snapshot fires: only for a non-zero interval and
/// while some task is downloading.
pub fn should_snapshot(interval: u64, any_downloading: bool) -> (r: bool)
    ensures
        r == (interval != 0 && any_downloading),
{
    interval != 0 && any_downloading
}

/// The save directory to use: the configured default when one is set, else
/// the given fallback (the system download directory).
pub fn choose_save_dir(default_save_path: &str, fallback: &str) -> (r: String)
    ensures
        default_save_path@.len() > 0 ==> r@ == default_save_path@,
        default_save_path@.len() == 0 ==> r@ == fallback@,
{
    if default_save_path.unicode_len() > 0 {
        default_save_path.to_owned()
    } else {
        fallback.to_owned()
    }
}

} // verus!
