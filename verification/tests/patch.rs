use untrickystore::patch::{extract_patch_date, fetch, normalize_date, sync, SyncOutcome};

#[test]
fn test_normalize_date() {
    assert_eq!(normalize_date("2025-06-05"), "2025-06-05");
    assert_eq!(normalize_date("20250605"), "2025-06-05");
    assert_eq!(normalize_date("bad"), "");
    assert_eq!(normalize_date("  2025-01-01  "), "2025-01-01");
}

#[test]
fn normalize_date_edges() {
    assert_eq!(normalize_date(""), "");
    assert_eq!(normalize_date("2025/06/05"), "");
    assert_eq!(normalize_date("2025-6-5"), "");
    assert_eq!(normalize_date("\t20240101\r\n"), "2024-01-01");
    assert_eq!(normalize_date("202406051"), "");
    assert_eq!(normalize_date("2024060a"), "");
    assert_eq!(normalize_date("----------"), "");
    assert_eq!(normalize_date("2025-06--5"), "");
    assert_eq!(normalize_date("2025-06-0x"), "");
    // Digits are checked, the calendar is not.
    assert_eq!(normalize_date("2025-13-99"), "2025-13-99");
}

#[test]
fn normalize_date_is_idempotent() {
    for s in ["2025-06-05", "20250605", "bad", "  2025-01-01  ", "", "----------"] {
        let once = normalize_date(s);
        assert_eq!(normalize_date(&once), once);
    }
}

#[test]
fn extract_picks_latest_in_range() {
    let html = "<p>2024-05-01</p> patch level 2025-06-05 and 2025-06-01; old 2019-12-31, future 2036-01-01";
    assert_eq!(extract_patch_date(html), "2025-06-05");
}

#[test]
fn extract_range_bounds() {
    assert_eq!(extract_patch_date("2020-01-01 2019-12-31"), "2020-01-01");
    assert_eq!(extract_patch_date("2035-12-31 2036-01-01"), "2035-12-31");
    assert_eq!(extract_patch_date("2036-01-01"), "");
    assert_eq!(extract_patch_date(""), "");
    assert_eq!(extract_patch_date("2025-06-0"), "");
}

#[test]
fn extract_handles_non_ascii_text() {
    assert_eq!(extract_patch_date("安全补丁：2025-03-05。2024-12-01"), "2025-03-05");
}

#[test]
fn fetch_errors_and_success() {
    assert_eq!(fetch(""), Err("patch-fetch: failed to download bulletin page".to_string()));
    assert_eq!(fetch("<html>no dates</html>"), Err("patch-fetch: could not parse date from bulletin".to_string()));
    assert_eq!(fetch("x 2025-08-05 y 2025-07-01"), Ok("2025-08-05".to_string()));
}

#[test]
fn sync_outcomes() {
    assert!(matches!(sync(None), Ok(SyncOutcome::NoFile)));
    assert_eq!(sync(Some("garbage")).err(), Some("invalid date".to_string()));
    assert_eq!(sync(Some("  \n")).err(), Some("invalid date".to_string()));
    match sync(Some("20250905\n")) {
        Ok(SyncOutcome::Apply(w)) => {
            assert_eq!(w.len(), 2);
            assert_eq!(w[0].name, "ro.vendor.build.security_patch");
            assert_eq!(w[0].value, "2025-09-05");
            assert_eq!(w[1].name, "ro.build.version.security_patch");
            assert_eq!(w[1].value, "2025-09-05");
        }
        _ => panic!("expected writes"),
    }
}
