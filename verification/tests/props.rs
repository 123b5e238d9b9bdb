use untrickystore::props::{
    extract_vbhash, generate_random_hex, parse_u32, propstate, query_content_provider,
    read_cached_hash, reads_cache, ts_version_code, vbhash, vbhash_update, vbmeta_device, vbmeta_size,
    PropRule, PropWrite, VbhashStart,
};

const H: &str = "0123456789abcdef0123456789ABCDEF0123456789abcdef0123456789abcdef";

fn pairs(w: &[PropWrite]) -> Vec<(String, String)> {
    w.iter().map(|x| (x.name.clone(), x.value.clone())).collect()
}

#[test]
fn cached_hash_validation() {
    assert_eq!(read_cached_hash(&format!("  {H}  \nrest")), Some(H.to_string()));
    assert_eq!(read_cached_hash(""), None);
    assert_eq!(read_cached_hash(&H[..63]), None);
    assert_eq!(read_cached_hash(&format!("{}g", &H[..63])), None);
    assert_eq!(read_cached_hash(&format!("\n{H}")), None);
}

#[test]
fn vbhash_tagged_and_fallback() {
    let out = format!("Result: Bundle[{{x}}] {H}=VBHash done");
    assert_eq!(extract_vbhash(&out), Some(H.to_string()));
    let repeated = format!("{H}=VBHash=VBHash");
    assert_eq!(extract_vbhash(&repeated), Some(H.to_string()));
    let loose = format!("[{}-{}]", &H[..32], &H[32..]);
    assert_eq!(extract_vbhash(&loose), Some(H.to_string()));
    assert_eq!(extract_vbhash("nothing here"), None);
    assert_eq!(extract_vbhash(""), None);
    // a tagged word with a bad digest falls back to the hex scan of the words
    let bad = format!("{}=VBHash", &H[..10]);
    assert_eq!(extract_vbhash(&bad), None);
}

#[test]
fn random_hex() {
    assert_eq!(generate_random_hex(&[0x00, 0x0f, 0xa0, 0xff]), "000fa0ff");
    assert_eq!(generate_random_hex(&[]), "");
    assert_eq!(generate_random_hex(&[7u8; 32]).len(), 64);
}

#[test]
fn u32_parsing() {
    assert_eq!(parse_u32("245"), Some(245));
    assert_eq!(parse_u32("+7"), Some(7));
    assert_eq!(parse_u32("+"), None);
    assert_eq!(parse_u32(""), None);
    assert_eq!(parse_u32("-1"), None);
    assert_eq!(parse_u32("4294967295"), Some(u32::MAX));
    assert_eq!(parse_u32("4294967296"), None);
    assert_eq!(parse_u32("00012"), Some(12));
    assert_eq!(parse_u32("12a"), None);
    for s in ["0", "+0", "99999999999", "1 2", "٣"] {
        assert_eq!(parse_u32(s), s.parse::<u32>().ok(), "input {s:?}");
    }
}

#[test]
fn version_code() {
    assert_eq!(ts_version_code(None), 0);
    assert_eq!(ts_version_code(Some("id=ts\nversionCode= 245 \n")), 245);
    assert_eq!(ts_version_code(Some("versionCode=abc")), 0);
    assert_eq!(ts_version_code(Some("version=1")), 0);
    assert_eq!(ts_version_code(Some("versionCode=100\nversionCode=300")), 100);
}

#[test]
fn cache_read_only_for_new_trickystore() {
    assert!(reads_cache(Some("versionCode=245")));
    assert!(!reads_cache(Some("versionCode=244")));
    assert!(!reads_cache(None));
}

#[test]
fn vbhash_start() {
    let new_ts = "versionCode=245";
    assert!(matches!(vbhash(H, Some(new_ts), H), VbhashStart::CachedCurrent));
    match vbhash("other", Some(new_ts), H) {
        VbhashStart::RestoreCached(h) => assert_eq!(h, H),
        _ => panic!("expected restore"),
    }
    assert!(matches!(vbhash(H, Some(new_ts), "bad"), VbhashStart::Query { persist: true }));
    assert!(matches!(vbhash(H, Some("versionCode=244"), H), VbhashStart::Query { persist: false }));
    assert!(matches!(vbhash(H, None, H), VbhashStart::Query { persist: false }));
}

#[test]
fn provider_and_update() {
    assert_eq!(query_content_provider(false, "", &[]), Err("vbhash: failed to install service.apk".to_string()));
    assert_eq!(query_content_provider(true, &format!("{H}=VBHash"), &[1]), Ok(H.to_string()));
    assert_eq!(query_content_provider(true, "nothing", &[0xab, 0xcd]), Ok("abcd".to_string()));
    let drawn = query_content_provider(true, "no digest here", &[0x5a; 32]).unwrap();
    assert_eq!(drawn, "5a".repeat(32));
    let mixed = query_content_provider(true, "x-0123456789abcdef0123456789abcdef0123456789abcdef0123456789abcdef-y", &[0; 32]);
    assert_eq!(mixed, Ok("0123456789abcdef0123456789abcdef0123456789abcdef0123456789abcdef".to_string()));
    assert_eq!(vbhash_update("x", String::new(), true).err(), Some("vbhash: empty hash from ContentProvider".to_string()));
    let u = vbhash_update("old", H.to_string(), true).unwrap();
    assert_eq!(u.set_digest, Some(H.to_string()));
    assert_eq!(u.cache, Some(H.to_string()));
    let u = vbhash_update(H, H.to_string(), false).unwrap();
    assert_eq!(u.set_digest, None);
    assert_eq!(u.cache, None);
}

#[test]
fn vbmeta_helpers() {
    assert_eq!(vbmeta_device("_a"), "/dev/block/by-name/vbmeta_a");
    assert_eq!(vbmeta_size(" 4096\n"), "4096");
    assert_eq!(vbmeta_size(""), "4096");
    assert_eq!(vbmeta_size("8192"), "8192");
}

fn rule<'a>(rules: &'a [PropRule], name: &str) -> &'a PropRule {
    rules.iter().find(|r| r.name == name).unwrap()
}

#[test]
fn propstate_table_and_writes() {
    let rules = propstate("2048");
    assert_eq!(rules.len(), 30);
    assert_eq!(rules[0].name, "sys.usb.adb.disabled");
    assert!(!rules[0].reads_current());
    assert_eq!(pairs(&rules[0].writes("")), vec![("sys.usb.adb.disabled".into(), " ".into())]);

    let locked = rule(&rules, "ro.boot.vbmeta.device_state");
    assert_eq!(pairs(&locked.writes("")).len(), 2);
    assert_eq!(pairs(&locked.writes("unlocked")), vec![("ro.boot.vbmeta.device_state".into(), "locked".into())]);
    assert!(locked.writes("locked").is_empty());

    let mode = rule(&rules, "ro.bootmode");
    assert_eq!(pairs(&mode.writes("recovery")), vec![("ro.bootmode".into(), "unknown".into())]);
    assert!(mode.writes("normal").is_empty());

    let size = rule(&rules, "ro.boot.vbmeta.size");
    assert_eq!(pairs(&size.writes("")), vec![("ro.boot.vbmeta.size".into(), "2048".into())]);
    assert!(size.writes("4096").is_empty());

    let tags = rule(&rules, "ro.build.tags");
    assert!(tags.writes("").is_empty());
    assert_eq!(pairs(&tags.writes("test-keys")), vec![("ro.build.tags".into(), "release-keys".into())]);
    assert!(tags.writes("release-keys").is_empty());

    let qemu = rule(&rules, "ro.kernel.qemu");
    assert_eq!(pairs(&qemu.writes("1")), vec![("ro.kernel.qemu".into(), "".into())]);
    assert!(rules.last().unwrap().name == "ro.secure");
}
