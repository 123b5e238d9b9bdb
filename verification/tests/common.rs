use untrickystore::common::{
    cfg_file, format_log_line, format_timestamp, init_cfg_dirs, init_cfg_files, int_to_text,
    log_path, pad_int, read_lines, parse_i32, parse_pids, ts_cfg, ts_dir, ts_file, uts_bin, uts_cfg, uts_dir,
    uts_file, LogLevel,
};

#[test]
fn paths() {
    assert_eq!(ts_dir(), "/data/adb/modules/tricky_store");
    assert_eq!(uts_dir(), "/data/adb/modules/untrickystore");
    assert_eq!(uts_cfg(), "/data/adb/untrickystore");
    assert_eq!(ts_cfg(), "/data/adb/tricky_store");
    assert_eq!(uts_bin(), "/data/adb/modules/untrickystore/bin");
    assert_eq!(log_path(), "/data/adb/untrickystore/log/log.log");
    assert_eq!(cfg_file("usr.txt"), "/data/adb/untrickystore/usr.txt");
    assert_eq!(ts_file("target.txt"), "/data/adb/modules/tricky_store/target.txt");
    assert_eq!(uts_file("module.prop"), "/data/adb/modules/untrickystore/module.prop");
    assert_eq!(init_cfg_dirs(), vec!["/data/adb/untrickystore/keybox", "/data/adb/untrickystore/log"]);
    assert_eq!(
        init_cfg_files(),
        vec!["/data/adb/untrickystore/usr.txt", "/data/adb/untrickystore/sys.txt", "/data/adb/untrickystore/security_patch.txt"]
    );
}

#[test]
fn numbers() {
    for n in [0i64, 7, -7, 42, i64::MAX, i64::MIN, 1_000_000] {
        assert_eq!(int_to_text(n), n.to_string());
        for w in [0usize, 2, 3, 25] {
            assert_eq!(pad_int(n, w), format!("{n:0w$}"), "{n} {w}");
        }
    }
}

#[test]
fn i32_parsing_and_pids() {
    for s in ["12", "-12", "+12", "-", "+", "", "2147483647", "2147483648", "-2147483648", "-2147483649", "1a", "007"] {
        assert_eq!(parse_i32(s), s.parse::<i32>().ok(), "input {s:?}");
    }
    assert_eq!(parse_pids("123 456\n 78x 9\n"), vec![123, 456, 9]);
    assert_eq!(parse_pids(""), Vec::<i32>::new());
}

#[test]
fn log_lines() {
    assert_eq!(
        format_log_line("06-05 12:00:01.002", 4321, LogLevel::Warn, "daemon", "watching /data/app"),
        "06-05 12:00:01.002  4321  4321 W System.out: [UTS]<daemon>watching /data/app\n"
    );
    assert_eq!(format_log_line("t", -1, LogLevel::Error, "", ""), "t  -1  -1 E System.out: [UTS]<>\n");
    assert_eq!(format_log_line("t", 1, LogLevel::Debug, "x", "y"), "t  1  1 I System.out: [UTS]<x>y\n");
    assert_eq!(format_timestamp(5, 5, 9, 3, 7, 2_500_000), "06-05 09:03:07.002");
    assert_eq!(format_timestamp(11, 31, 23, 59, 59, 999_999_999), "12-31 23:59:59.999");
}

#[test]
fn nonblank_lines() {
    assert_eq!(read_lines("a\n\n  \n b \r\n\t\nc"), vec!["a", " b ", "c"]);
    assert!(read_lines("").is_empty());
    assert!(read_lines(" \n\t").is_empty());
}

#[test]
fn timestamp_negative_nanos() {
    assert_eq!(format_timestamp(0, 1, 0, 0, 0, -2_500_000), "01-01 00:00:00.-02");
}
