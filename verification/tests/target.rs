use untrickystore::target::{package_names, target};

fn s(v: &[&str]) -> Vec<String> {
    v.iter().map(|x| x.to_string()).collect()
}

#[test]
fn target_sorted_unique() {
    let pkgs = s(&["com.b", "com.a", "com.c", "com.a"]);
    assert_eq!(target(&pkgs, None, None), "com.a\ncom.b\ncom.c");
}

#[test]
fn target_exclusions_and_additions() {
    let pkgs = s(&["com.b", "com.a", "com.c"]);
    let usr = "# user blacklist\ncom.b\n  com.c  \n\n";
    let sys = "com.android.vending\r\n#com.x\ncom.c\n";
    assert_eq!(
        target(&pkgs, Some(usr), Some(sys)),
        "com.a\ncom.android.vending\ncom.c"
    );
}

#[test]
fn target_empty() {
    assert_eq!(target(&vec![], None, None), "");
    assert_eq!(target(&s(&["a"]), Some("a"), None), "");
}

#[test]
fn target_orders_by_code_point() {
    let pkgs = s(&["b", "B", "a", "Z", "é"]);
    assert_eq!(target(&pkgs, None, None), "B\nZ\na\nb\né");
}

#[test]
fn package_names_parse_pm_output() {
    let out = "package:com.a\npackage:com.b\r\nwarning\npackage:\n";
    assert_eq!(package_names(out), s(&["com.a", "com.b", ""]));
    assert_eq!(package_names(""), Vec::<String>::new());
}

#[test]
fn target_file_gains_a_line_added_anywhere_to_additions() {
    let pkgs = s(&["com.b", "com.a"]);
    let before = target(&pkgs, None, Some("com.z\ncom.y\n"));
    assert_eq!(before, "com.a\ncom.b\ncom.y\ncom.z");
    let middle = target(&pkgs, None, Some("com.z\n  com.m \ncom.y\n"));
    assert_eq!(middle, "com.a\ncom.b\ncom.m\ncom.y\ncom.z");
    let first = target(&pkgs, None, Some("com.m\r\ncom.z\ncom.y\n"));
    assert_eq!(first, middle);
    let after_last = target(&pkgs, None, Some("com.z\ncom.y\r\ncom.m"));
    assert_eq!(after_last, middle);
    let comment = target(&pkgs, None, Some("com.z\n# com.m\ncom.y\n"));
    assert_eq!(comment, before);
}

#[test]
fn target_file_loses_a_line_added_to_exclusions() {
    let pkgs = s(&["com.b", "com.a", "com.c"]);
    let before = target(&pkgs, Some("com.a\n"), None);
    assert_eq!(before, "com.b\ncom.c");
    assert_eq!(target(&pkgs, Some("com.a\ncom.c\n"), None), "com.b");
    assert_eq!(target(&pkgs, Some("com.c\ncom.a"), Some("com.c")), "com.b\ncom.c");
}
