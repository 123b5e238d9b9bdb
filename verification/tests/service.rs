use untrickystore::service::{
    build_description, detect_ts_variant, parse_action, set_description, status, ts_ctl,
    ts_daemon_name, uts_ctl, CtlAction, CtlStep, StatusInfo, TsVariant,
};

fn steps(v: &[CtlStep]) -> Vec<String> {
    v.iter()
        .map(|s| match s {
            CtlStep::Kill(n) => format!("kill {n}"),
            CtlStep::Sleep(ms) => format!("sleep {ms}"),
            CtlStep::RunScript(p) => format!("sh {p}"),
            CtlStep::StartDaemon(p) => format!("{p} daemon"),
        })
        .collect()
}

#[test]
fn variant_detection() {
    assert_eq!(detect_ts_variant(None), TsVariant::Unknown);
    assert_eq!(detect_ts_variant(Some("id=ts\ndescription=TrickyStoreOSS build\n")), TsVariant::Oss);
    assert_eq!(detect_ts_variant(Some("description=a tee simulator\n")), TsVariant::Simulator);
    assert_eq!(detect_ts_variant(Some("description=Simulator\ndescription=OSS")), TsVariant::Simulator);
    assert_eq!(detect_ts_variant(Some("name=OSS\ndescription=plain")), TsVariant::Standard);
    assert_eq!(detect_ts_variant(Some("")), TsVariant::Standard);
}

#[test]
fn daemon_names() {
    assert_eq!(ts_daemon_name(TsVariant::Oss), "trick_store");
    assert_eq!(ts_daemon_name(TsVariant::Simulator), "trick_simulator");
    assert_eq!(ts_daemon_name(TsVariant::Standard), "trick_store");
    assert_eq!(ts_daemon_name(TsVariant::Unknown), "trick_store");
}

#[test]
fn actions() {
    assert_eq!(parse_action("ts-ctl", "stop"), Ok(CtlAction::Stop));
    assert_eq!(parse_action("ts-ctl", "start"), Ok(CtlAction::Start));
    assert_eq!(parse_action("uts-ctl", "restart"), Ok(CtlAction::Restart));
    assert_eq!(parse_action("ts-ctl", "reload"), Err("ts-ctl: unknown action 'reload'".to_string()));
    assert_eq!(parse_action("uts-ctl", ""), Err("uts-ctl: unknown action ''".to_string()));
}

#[test]
fn ts_ctl_steps() {
    let sh = "/data/adb/modules/tricky_store/service.sh";
    let r = ts_ctl("stop", TsVariant::Simulator, true, true, None).unwrap();
    assert_eq!(steps(&r), vec!["kill trick_simulator"]);
    let r = ts_ctl("start", TsVariant::Oss, true, true, None).unwrap();
    assert!(r.is_empty());
    let r = ts_ctl("start", TsVariant::Oss, false, true, None).unwrap();
    assert_eq!(steps(&r), vec![format!("sh {sh}")]);
    let e = ts_ctl("start", TsVariant::Oss, false, false, None).err();
    assert_eq!(e, Some("TrickyStore service.sh not found".to_string()));
    let r = ts_ctl("restart", TsVariant::Standard, false, true, None).unwrap();
    assert_eq!(steps(&r), vec!["kill trick_store".to_string(), "sleep 500".to_string(), format!("sh {sh}")]);
    let r = ts_ctl("restart", TsVariant::Standard, false, false, None).unwrap();
    assert_eq!(steps(&r), vec!["kill trick_store", "sleep 500"]);
}

#[test]
fn unknown_actions() {
    assert_eq!(ts_ctl("Start", TsVariant::Oss, false, true, None).err(), Some("ts-ctl: unknown action 'Start'".to_string()));
    assert_eq!(uts_ctl("kill", false).err(), Some("uts-ctl: unknown action 'kill'".to_string()));
}

#[test]
fn refresh_twice_is_refresh_once() {
    for p in ["id=x\n\ndescription=o\nv=1", "a\n\n", "", "id=x\r\ndescription=o\r\n"] {
        let once = set_description(p, "KernelSU | TS: ✅");
        assert_eq!(set_description(&once, "KernelSU | TS: ✅"), once, "input {p:?}");
    }
    // A carriage return left at the end of a line other than the last does not survive a reread.
    let once = set_description("a\r\r\nb", "d");
    assert_ne!(set_description(&once, "d"), once);
}

#[test]
fn uts_ctl_steps() {
    let bin = "/data/adb/modules/untrickystore/bin/uts";
    assert_eq!(steps(&uts_ctl("stop", false).unwrap()), vec!["kill uts"]);
    assert!(uts_ctl("start", true).unwrap().is_empty());
    assert_eq!(steps(&uts_ctl("start", false).unwrap()), vec![format!("{bin} daemon")]);
    assert_eq!(
        steps(&uts_ctl("restart", true).unwrap()),
        vec!["kill uts".to_string(), "sleep 500".to_string(), format!("{bin} daemon")]
    );
}

fn info() -> StatusInfo {
    StatusInfo {
        root: Some("KernelSU\n".to_string()),
        kernel: Some(" Magisk ".to_string()),
        multiple: None,
        patch: Some("2025-06-05\n".to_string()),
        ts_running: true,
        uts_running: false,
    }
}

#[test]
fn description_text() {
    assert_eq!(build_description(&info(), None), "KernelSU (Magisk) | TS: ✅ UTS: ❌ | SPL: 2025-06-05");
    let bare = StatusInfo { root: None, kernel: Some("".into()), multiple: Some("  ".into()), patch: None, ts_running: false, uts_running: true };
    assert_eq!(build_description(&bare, None), "Unknown | TS: ❌ UTS: ✅");
    let multi = StatusInfo { root: Some("Multiple".into()), kernel: None, multiple: Some("Magisk,APatch".into()), patch: Some("".into()), ts_running: true, uts_running: true };
    assert_eq!(build_description(&multi, None), "Multiple ⚠Multi: Magisk,APatch | TS: ✅ UTS: ✅");
}

#[test]
fn description_line_replaced_or_added() {
    assert_eq!(set_description("id=uts\ndescription=old\nversion=1\n", "new"), "id=uts\ndescription=new\nversion=1");
    assert_eq!(set_description("id=uts\nversion=1", "new"), "id=uts\nversion=1\ndescription=new");
    assert_eq!(set_description("description=a\ndescription=b", "x"), "description=x\ndescription=x");
    assert_eq!(set_description("", "x"), "description=x");
}

#[test]
fn status_needs_module_prop() {
    assert_eq!(status(None, &info(), None), Err("status: module.prop not found".to_string()));
    assert_eq!(
        status(Some("id=untrickystore\ndescription=old"), &info(), None),
        Ok("id=untrickystore\ndescription=KernelSU (Magisk) | TS: ✅ UTS: ❌ | SPL: 2025-06-05".to_string())
    );
}
