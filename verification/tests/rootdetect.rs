use untrickystore::rootdetect::{detect, ksud_probe_needed, root_probe_paths, KernelFile, RootFiles, RootKind};

fn files(all: bool) -> RootFiles {
    RootFiles { ksu_dir: all, ksud_file: all, ap_dir: all, apd_file: all, magisk_dir: all, magisk_db: all }
}

#[test]
fn single_kernelsu() {
    let r = detect("... KernelSU init ...", &files(true), false);
    assert_eq!(r.root, RootKind::KernelSU);
    assert_eq!(r.root.name(), "KernelSU");
    assert!(r.multiple.is_none());
    assert!(matches!(r.kernel, KernelFile::Remove));
}

#[test]
fn sukisu_by_log_or_probe() {
    let r = detect("KernelSU KP hook sukisu_kpm", &files(true), false);
    assert_eq!(r.root, RootKind::SuckySU);
    let r = detect("KernelSU", &files(true), true);
    assert_eq!(r.root, RootKind::SuckySU);
    assert!(ksud_probe_needed("KernelSU", &files(true)));
    assert!(!ksud_probe_needed("KernelSU KP hook sukisu_kpm", &files(true)));
    assert!(!ksud_probe_needed("KernelSU", &files(false)));
}

#[test]
fn nothing_active() {
    let r = detect("KernelSU magiskinit", &files(false), false);
    assert_eq!(r.root, RootKind::Null);
    assert_eq!(r.root.name(), "NULL");
    match r.kernel {
        KernelFile::Write(k) => assert_eq!(k, "Magisk,KernelSU"),
        _ => panic!("expected kernel.txt"),
    }
}

#[test]
fn multiple_roots() {
    let r = detect("magiskinit KP I commit_common_su", &files(true), false);
    assert_eq!(r.root, RootKind::Multiple);
    assert_eq!(r.multiple.as_deref(), Some("Magisk,APatch"));
    assert!(matches!(r.kernel, KernelFile::Remove));
}

#[test]
fn kernel_extras_beside_primary() {
    let f = RootFiles { ksu_dir: false, ksud_file: false, ap_dir: true, apd_file: true, magisk_dir: false, magisk_db: false };
    let r = detect("KP I commit_common_su /debug_ramdisk/magisk", &f, false);
    assert_eq!(r.root, RootKind::APatch);
    match r.kernel {
        KernelFile::Write(k) => assert_eq!(k, "Magisk"),
        _ => panic!("expected kernel.txt"),
    }
    let f = RootFiles { ksu_dir: true, ksud_file: true, ap_dir: false, apd_file: false, magisk_dir: false, magisk_db: false };
    let r = detect("KernelSU KP hook sukisu_kpm", &f, false);
    assert_eq!(r.root, RootKind::SuckySU);
    assert!(matches!(r.kernel, KernelFile::Remove));
}

#[test]
fn probe_paths() {
    assert_eq!(
        root_probe_paths(),
        vec!["/data/adb/ksu", "/data/adb/ksud", "/data/adb/ap", "/data/adb/apd", "/data/adb/magisk", "/data/adb/magisk.db"]
    );
}
