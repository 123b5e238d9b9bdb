use untrickystore::daemon::{should_fire, startup, uts_bin_path, watches, Startup, WatchEvents};

#[test]
fn watched_directories() {
    let w = watches();
    assert_eq!(w.len(), 2);
    assert_eq!(w[0].path, "/data/adb/modules_update");
    assert_eq!(w[0].events, WatchEvents::NewDirectory);
    assert_eq!(w[0].commands, vec!["conflict-mod"]);
    assert_eq!(w[1].path, "/data/app");
    assert_eq!(w[1].events, WatchEvents::CreateOrDelete);
    assert_eq!(w[1].commands, vec!["conflict-app", "target"]);
}

#[test]
fn debounce_and_startup() {
    assert!(!should_fire(999));
    assert!(should_fire(1000));
    assert!(should_fire(10_000));
    assert_eq!(startup(true, true), Ok(Startup::AllReady));
    assert_eq!(startup(true, false), Ok(Startup::Partial));
    assert_eq!(startup(false, true), Ok(Startup::Partial));
    assert_eq!(startup(false, false), Err("daemon: all watchers failed to start".to_string()));
    assert_eq!(uts_bin_path(), "/data/adb/modules/untrickystore/bin/uts");
}
