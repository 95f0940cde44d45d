use jas::duration::round_up_duration;
use jas::expiry::{cert_expires_at, expires_in_label_at, tally_expiry, window_secs, CERT_LIFETIME_SECS};
use jas::labels::{
    app_id_expiry_at, connection_status_at, counts_line, expiry_cell_class, expiry_class, expiry_line,
    lc_import_link, slots_summary, status_badge_class,
};
use jas::clock::format_ts;
use jas::records::AppRow;

#[test]
fn rounds_up_to_the_largest_unit() {
    assert_eq!(round_up_duration(0), "Expired");
    assert_eq!(round_up_duration(-5), "Expired");
    assert_eq!(round_up_duration(1), "1s");
    assert_eq!(round_up_duration(59), "59s");
    assert_eq!(round_up_duration(60), "1m");
    assert_eq!(round_up_duration(61), "2m");
    assert_eq!(round_up_duration(3600), "1h");
    assert_eq!(round_up_duration(3601), "2h");
    assert_eq!(round_up_duration(86400), "1d");
    // 6.1 days -> 7d, 5.9 days -> 6d
    assert_eq!(round_up_duration(527040), "7d");
    assert_eq!(round_up_duration(509760), "6d");
    assert_eq!(round_up_duration(i64::MAX), "106751991167301d");
}

#[test]
fn expiry_counts_from_last_event() {
    assert_eq!(CERT_LIFETIME_SECS, 604800);
    assert_eq!(cert_expires_at(1000, None), 1000 + 604800);
    assert_eq!(cert_expires_at(1000, Some(500)), 1000 + 604800);
    assert_eq!(cert_expires_at(1000, Some(2000)), 2000 + 604800);
    assert_eq!(cert_expires_at(i64::MAX - 10, None), i64::MAX);
    assert_eq!(expires_in_label_at(None, None, 0), "-");
    assert_eq!(expires_in_label_at(Some(0), None, 0), "7d");
    assert_eq!(expires_in_label_at(Some(0), Some(86400), 604800), "1d");
    assert_eq!(expires_in_label_at(Some(0), None, 604800), "Expired");
}

fn app(installed_at: Option<i64>, last_refreshed: Option<i64>) -> AppRow {
    AppRow {
        id: "a".to_string(),
        device_id: "d".to_string(),
        bundle_id: "b".to_string(),
        display_name: "A".to_string(),
        version: None,
        ipa_path: None,
        account_id: None,
        installed_at,
        last_refreshed,
        refresh_enabled: true,
    }
}

#[test]
fn tallies_a_device() {
    let day = 86400;
    let now = 10 * day;
    let apps = vec![
        app(None, None),
        app(Some(now - 8 * day), None),          // expired a day ago
        app(Some(now - 5 * day), None),          // 2 days left: soon
        app(Some(now - 9 * day), Some(now - day)), // 6 days left
    ];
    let c = tally_expiry(&apps, now, window_secs(3));
    assert_eq!(c.app_count, 3);
    assert_eq!(c.expired_count, 1);
    assert_eq!(c.expiring_soon_count, 1);
    assert_eq!(c.next_expires_at, Some(now + 2 * day));
    assert_eq!(window_secs(3), 259200);
    assert_eq!(window_secs(i64::MAX), i64::MAX);
    let none = tally_expiry(&vec![app(Some(0), None)], now, 0);
    assert_eq!(none.next_expires_at, None);
    assert_eq!(none.expired_count, none.app_count);
}

#[test]
fn connection_labels() {
    assert_eq!(connection_status_at(Some(12), None, 0), ("Online (12ms)".to_string(), "badge-online"));
    assert_eq!(connection_status_at(None, None, 0), ("Not reachable".to_string(), "badge-offline"));
    assert_eq!(connection_status_at(None, Some(100), 110), ("Seen 1m ago".to_string(), "badge-stale"));
    assert_eq!(connection_status_at(None, Some(100), 100 + 600), ("Seen 10m ago".to_string(), "badge-stale"));
    assert_eq!(connection_status_at(None, Some(0), 7300), ("Seen 2h ago".to_string(), "badge-offline"));
    assert_eq!(connection_status_at(None, Some(0), 3 * 86400), ("Seen 3d ago".to_string(), "badge-offline"));
    assert_eq!(connection_status_at(None, Some(500), 0), ("Seen 1m ago".to_string(), "badge-stale"));
}

#[test]
fn dashboard_lines() {
    assert_eq!(expiry_line(None, 0, 0, 0), "No apps tracked");
    assert_eq!(expiry_line(Some(7200), 2, 0, 0), "Next expires in 2h");
    assert_eq!(expiry_line(None, 2, 2, 0), "All expired");
    assert_eq!(expiry_line(None, 2, 0, 0), "\u{2014}");
    assert_eq!(expiry_class(None, 0, 0, 100, 0), "summary-next muted");
    assert_eq!(expiry_class(Some(50), 1, 0, 100, 0), "summary-next warn");
    assert_eq!(expiry_class(Some(500), 1, 0, 100, 0), "summary-next");
    assert_eq!(expiry_class(None, 1, 1, 100, 0), "summary-next danger");
    assert_eq!(counts_line(0, 0), None);
    assert_eq!(counts_line(2, 0), Some("2 expiring soon".to_string()));
    assert_eq!(counts_line(0, 3), Some("3 expired".to_string()));
    assert_eq!(counts_line(2, 3), Some("2 expiring soon, 3 expired".to_string()));
}

#[test]
fn account_page_lines() {
    assert_eq!(slots_summary(Some(10), Some(7), 3), "3 / 10 slots used");
    assert_eq!(slots_summary(Some(10), Some(-2), 3), "10 / 10 slots used");
    assert_eq!(slots_summary(Some(10), Some(12), 3), "0 / 10 slots used");
    assert_eq!(slots_summary(None, Some(7), 3), "3 registered");
    assert_eq!(app_id_expiry_at(None, 0), ("-".to_string(), ""));
    assert_eq!(app_id_expiry_at(Some(100), 200), ("Expired".to_string(), "error"));
    assert_eq!(app_id_expiry_at(Some(200), 100), ("2m".to_string(), ""));
}

#[test]
fn queue_badges_and_times() {
    assert_eq!(status_badge_class("done"), "job-badge job-done");
    assert_eq!(status_badge_class("failed"), "job-badge job-failed");
    assert_eq!(status_badge_class("running"), "job-badge job-running");
    assert_eq!(status_badge_class("queued"), "job-badge job-queued");
    assert_eq!(status_badge_class("anything"), "job-badge job-queued");
    assert_eq!(format_ts(None), "-");
    assert_eq!(format_ts(Some(0)), "1970-01-01 00:00");
    assert_eq!(format_ts(Some(1725029869)), "2024-08-30 14:57");
}

#[test]
fn expired_cells_are_marked_as_errors() {
    assert_eq!(expiry_cell_class("Expired"), "error");
    assert_eq!(expiry_cell_class("3d"), "");
    assert_eq!(expiry_cell_class("-"), "");
}

#[test]
fn livecontainer_link_escapes_base64() {
    assert_eq!(
        lc_import_link("ab+c/d==", "pw1"),
        "livecontainer://certificate?cert=ab%2Bc%2Fd%3D%3D&password=pw1"
    );
    assert_eq!(lc_import_link("", ""), "livecontainer://certificate?cert=&password=");
}
