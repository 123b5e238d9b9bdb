//! Choosing the app that hosts the module WebUI, and how it is started.

use vstd::prelude::*;
use crate::common::{join_path, uts_dir, MODULES, UTS};
use crate::conflict::{installed_has, is_installed};
use crate::text::{lit, views};

verus! {

/// MMRL, the preferred WebUI host.
pub const MMRL_PKG: &'static str = "com.dergoogler.mmrl.wx";

/// KSU WebUI, the KernelSU WebUI host.
pub const KSU_WEBUI_PKG: &'static str = "io.github.a13e300.ksuwebui";

/// A WebUI host app.
#[derive(PartialEq, Eq, Structural, Clone, Copy, Debug)]
pub enum WebuiHost {
    Mmrl,
    KsuWebui,
}

/// How `webui` proceeds.
pub enum LaunchPlan {
    /// Start the module's WebUI in this host.
    Launch(WebuiHost),
    /// Install the bundled host from this APK, then start KSU WebUI.
    InstallThenLaunch(String),
}

/// The bundled host APK.
pub open spec fn webui_apk_path() -> Seq<char> {
    MODULES@ + seq!['/'] + UTS@ + seq!['/'] + "webui.apk"@
}

/// The error when no host is installed or bundled, in Chinese on a Chinese
/// device.
pub open spec fn no_host_message(chinese: bool) -> Seq<char> {
    if chinese {
        "webui: 未找到WebUI宿主应用，请安装MMRL或KSU WebUI"@
    } else {
        "webui: no WebUI host app found, install MMRL or KSU WebUI"@
    }
}

/// `webui`, given the installed third-party packages and whether the
/// bundled host APK exists: MMRL if installed, else KSU WebUI if installed,
/// else install the bundled host, else the "no host" error.
pub fn launch(packages: &Vec<String>, bundled_apk_exists: bool, chinese: bool) -> (r: Result<LaunchPlan, String>)
    ensures
        ({
            let p = views(packages@);
            if is_installed(p, MMRL_PKG@) {
                r matches Ok(LaunchPlan::Launch(h)) && h == WebuiHost::Mmrl
            } else if is_installed(p, KSU_WEBUI_PKG@) {
                r matches Ok(LaunchPlan::Launch(h)) && h == WebuiHost::KsuWebui
            } else if bundled_apk_exists {
                r matches Ok(LaunchPlan::InstallThenLaunch(apk)) && apk@ == webui_apk_path()
            } else {
                r matches Err(e) && e@ == no_host_message(chinese)
            }
        }),
{
    if installed_has(packages, MMRL_PKG) {
        return Ok(LaunchPlan::Launch(WebuiHost::Mmrl));
    }
    if installed_has(packages, KSU_WEBUI_PKG) {
        return Ok(LaunchPlan::Launch(WebuiHost::KsuWebui));
    }
    if bundled_apk_exists {
        return Ok(LaunchPlan::InstallThenLaunch(join_path(uts_dir().as_str(), "webui.apk")));
    }
    if chinese {
        Err(lit("webui: 未找到WebUI宿主应用，请安装MMRL或KSU WebUI"))
    } else {
        Err(lit("webui: no WebUI host app found, install MMRL or KSU WebUI"))
    }
}

/// After installing the bundled host: launch KSU WebUI, or the error
/// "webui: failed to install webui host apk".
pub fn after_install(installed: bool) -> (r: Result<WebuiHost, String>)
    ensures
        installed ==> r == Ok::<WebuiHost, String>(WebuiHost::KsuWebui),
        !installed ==> (r matches Err(e) && e@ == "webui: failed to install webui host apk"@),
{
    if installed {
        Ok(WebuiHost::KsuWebui)
    } else {
        Err(lit("webui: failed to install webui host apk"))
    }
}

/// The `am` arguments that open the module's WebUI in a host.
pub open spec fn am_args(host: WebuiHost, module_id: Seq<char>) -> Seq<Seq<char>> {
    match host {
        WebuiHost::Mmrl => seq![
            "start"@,
            "-a"@,
            "android.intent.action.VIEW"@,
            "-d"@,
            "mmrl://webui/"@ + module_id,
            "-n"@,
            MMRL_PKG@ + "/.ui.activity.webui.WebUIActivity"@,
        ],
        WebuiHost::KsuWebui => seq![
            "start"@,
            "-a"@,
            "io.github.a13e300.ksuwebui.OPEN_WEBUI"@,
            "-e"@,
            "id"@,
            module_id,
            "-n"@,
            KSU_WEBUI_PKG@ + "/.WebUIActivity"@,
        ],
    }
}

/// The `am` arguments that open the module's WebUI in `host`.
pub fn launch_args(host: WebuiHost, module_id: &str) -> (r: Vec<String>)
    ensures
        views(r@) == am_args(host, module_id@),
{
    let mut r: Vec<String> = Vec::new();
    match host {
        WebuiHost::Mmrl => {
            r.push(lit("start"));
            r.push(lit("-a"));
            r.push(lit("android.intent.action.VIEW"));
            r.push(lit("-d"));
            let mut uri = lit("mmrl://webui/");
            uri.append(module_id);
            r.push(uri);
            r.push(lit("-n"));
            let mut comp = lit(MMRL_PKG);
            comp.append("/.ui.activity.webui.WebUIActivity");
            r.push(comp);
        },
        WebuiHost::KsuWebui => {
            r.push(lit("start"));
            r.push(lit("-a"));
            r.push(lit("io.github.a13e300.ksuwebui.OPEN_WEBUI"));
            r.push(lit("-e"));
            r.push(lit("id"));
            r.push(lit(module_id));
            r.push(lit("-n"));
            let mut comp = lit(KSU_WEBUI_PKG);
            comp.append("/.WebUIActivity");
            r.push(comp);
        },
    }
    assert(views(r@) =~= am_args(host, module_id@));
    r
}

/// The result of `am start` for a host: success, or the host's error.
pub fn launch_result(host: WebuiHost, success: bool) -> (r: Result<(), String>)
    ensures
        success ==> r is Ok,
        !success ==> (r matches Err(e) && e@ == (match host {
            WebuiHost::Mmrl => "webui: am start for MMRL failed"@,
            WebuiHost::KsuWebui => "webui: am start for KSU WebUI failed"@,
        })),
{
    if success {
        Ok(())
    } else {
        match host {
            WebuiHost::Mmrl => Err(lit("webui: am start for MMRL failed")),
            WebuiHost::KsuWebui => Err(lit("webui: am start for KSU WebUI failed")),
        }
    }
}

} // verus!
