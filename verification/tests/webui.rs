use untrickystore::webui::{after_install, launch, launch_args, launch_result, LaunchPlan, WebuiHost};

fn s(v: &[&str]) -> Vec<String> {
    v.iter().map(|x| x.to_string()).collect()
}

#[test]
fn host_choice() {
    let both = s(&["io.github.a13e300.ksuwebui", "com.dergoogler.mmrl.wx"]);
    assert!(matches!(launch(&both, true, false), Ok(LaunchPlan::Launch(WebuiHost::Mmrl))));
    let ksu = s(&["io.github.a13e300.ksuwebui"]);
    assert!(matches!(launch(&ksu, true, false), Ok(LaunchPlan::Launch(WebuiHost::KsuWebui))));
    match launch(&vec![], true, false) {
        Ok(LaunchPlan::InstallThenLaunch(apk)) => assert_eq!(apk, "/data/adb/modules/untrickystore/webui.apk"),
        _ => panic!("expected install"),
    }
    assert_eq!(launch(&vec![], false, false).err(), Some("webui: no WebUI host app found, install MMRL or KSU WebUI".to_string()));
    assert_eq!(launch(&vec![], false, true).err(), Some("webui: 未找到WebUI宿主应用，请安装MMRL或KSU WebUI".to_string()));
}

#[test]
fn install_and_results() {
    assert_eq!(after_install(true), Ok(WebuiHost::KsuWebui));
    assert_eq!(after_install(false), Err("webui: failed to install webui host apk".to_string()));
    assert_eq!(launch_result(WebuiHost::Mmrl, true), Ok(()));
    assert_eq!(launch_result(WebuiHost::Mmrl, false), Err("webui: am start for MMRL failed".to_string()));
    assert_eq!(launch_result(WebuiHost::KsuWebui, false), Err("webui: am start for KSU WebUI failed".to_string()));
}

#[test]
fn am_arguments() {
    assert_eq!(
        launch_args(WebuiHost::Mmrl, "untrickystore"),
        s(&["start", "-a", "android.intent.action.VIEW", "-d", "mmrl://webui/untrickystore", "-n",
            "com.dergoogler.mmrl.wx/.ui.activity.webui.WebUIActivity"])
    );
    assert_eq!(
        launch_args(WebuiHost::KsuWebui, "untrickystore"),
        s(&["start", "-a", "io.github.a13e300.ksuwebui.OPEN_WEBUI", "-e", "id", "untrickystore", "-n",
            "io.github.a13e300.ksuwebui/.WebUIActivity"])
    );
}
