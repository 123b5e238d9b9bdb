use untrickystore::conflict::{conflict_app, conflict_mod, conflict_module_ids, ModAction, ModuleState, marker_files, module_dir, module_roots, rmrf_module_ids};

#[test]
fn conflicting_apps_found_in_order() {
    let installed = vec!["com.topmiaohuan.hidebllist".to_string(), "com.x".to_string(), "com.lingqiaohan.appbl".to_string()];
    assert_eq!(conflict_app(&installed), vec!["com.lingqiaohan.appbl", "com.topmiaohuan.hidebllist"]);
    assert!(conflict_app(&vec!["com.x".to_string()]).is_empty());
    assert!(conflict_app(&vec![]).is_empty());
}

#[test]
fn module_lists_and_paths() {
    assert_eq!(conflict_module_ids().len(), 17);
    assert_eq!(conflict_module_ids()[0], "Yurikey");
    assert_eq!(rmrf_module_ids(), vec!["TA_utl", ".TA_utl", "yamabukiko"]);
    assert_eq!(module_roots(), vec!["/data/adb/modules", "/data/adb/modules_update"]);
    let d = module_dir("/data/adb/modules", "Yurikey");
    assert_eq!(d, "/data/adb/modules/Yurikey");
    assert_eq!(
        marker_files(&d),
        ("/data/adb/modules/Yurikey/disable".to_string(), "/data/adb/modules/Yurikey/remove".to_string())
    );
}

fn view(a: &[ModAction]) -> Vec<String> {
    a.iter()
        .map(|x| match x {
            ModAction::RemoveDir { dir, id } => format!("rm {dir} ({id})"),
            ModAction::CreateMarker(p) => format!("touch {p}"),
            ModAction::Tagged(id) => format!("tag {id}"),
        })
        .collect()
}

#[test]
fn conflict_mod_actions() {
    let base = "/data/adb/modules";
    let rmrf = vec![false, true, false];
    let mut states: Vec<ModuleState> =
        (0..17).map(|_| ModuleState { present: false, disabled: false, marked: false }).collect();
    states[0] = ModuleState { present: true, disabled: false, marked: true };
    states[16] = ModuleState { present: true, disabled: false, marked: false };
    states[5] = ModuleState { present: false, disabled: true, marked: false };
    assert_eq!(
        view(&conflict_mod(base, &rmrf, &states)),
        vec![
            "rm /data/adb/modules/.TA_utl (.TA_utl)",
            "touch /data/adb/modules/Yurikey/disable",
            "tag Yurikey",
            "touch /data/adb/modules/wjw_hiderootauxiliarymod/disable",
            "touch /data/adb/modules/wjw_hiderootauxiliarymod/remove",
            "tag wjw_hiderootauxiliarymod",
        ]
    );
    let none: Vec<ModuleState> =
        (0..17).map(|_| ModuleState { present: false, disabled: false, marked: false }).collect();
    assert!(conflict_mod(base, &vec![false; 3], &none).is_empty());
}
