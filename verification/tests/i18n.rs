use untrickystore::i18n::{init, is_chinese, offsets_fit, t, t_fmt};

/// A little-endian MO file holding the given (id, translation) pairs.
fn mo(entries: &[(&str, &str)]) -> Vec<u8> {
    let n = entries.len() as u32;
    let otable = 28u32;
    let ttable = otable + 8 * n;
    let mut strings: Vec<u8> = Vec::new();
    let base = ttable + 8 * n;
    let mut orig = Vec::new();
    let mut trans = Vec::new();
    for (id, _) in entries {
        orig.push((id.len() as u32, base + strings.len() as u32));
        strings.extend_from_slice(id.as_bytes());
        strings.push(0);
    }
    for (_, tr) in entries {
        trans.push((tr.len() as u32, base + strings.len() as u32));
        strings.extend_from_slice(tr.as_bytes());
        strings.push(0);
    }
    let mut out = Vec::new();
    for v in [0x950412deu32, 0, n, otable, ttable, 0, 0] {
        out.extend_from_slice(&v.to_le_bytes());
    }
    for (l, o) in orig.iter().chain(trans.iter()) {
        out.extend_from_slice(&l.to_le_bytes());
        out.extend_from_slice(&o.to_le_bytes());
    }
    out.extend_from_slice(&strings);
    out
}

#[test]
fn chinese_detection() {
    assert!(is_chinese("zh-CN", ""));
    assert!(is_chinese("", "zh_TW"));
    assert!(!is_chinese("en-US", "en-US"));
    assert!(!is_chinese("", ""));
}

#[test]
fn passthrough_without_catalog() {
    assert_eq!(t(None, "TrickyStore service.sh not found"), "TrickyStore service.sh not found");
    assert_eq!(t_fmt(None, "Multi: %s", "Magisk,APatch"), "Multi: Magisk,APatch");
    assert_eq!(t_fmt(None, "no placeholder", "x"), "no placeholder");
}

#[test]
fn init_only_for_chinese() {
    let bytes = mo(&[("Multi: %s", "多个: %s")]);
    assert!(init(&bytes, false).is_none());
    assert!(init(&bytes, true).is_some());
    assert!(init(b"not an mo file", true).is_none());
}

#[test]
fn translates_with_catalog() {
    let bytes = mo(&[("Multi: %s", "多个Root: %s"), ("Hello", "你好")]);
    let cat = init(&bytes, true).expect("catalog parses");
    assert_eq!(t(Some(&cat), "Hello"), "你好");
    assert_eq!(t(Some(&cat), "Unknown id"), "Unknown id");
    assert_eq!(t_fmt(Some(&cat), "Multi: %s", "Magisk"), "多个Root: Magisk");
}

#[test]
fn malformed_plural_header_is_not_read() {
    for header in ["Plural-Forms: nplurals=2; plural=n:1?0;\n", "Plural-Forms: nplurals=2; plural=(;\n"] {
        let bytes = mo(&[("", header), ("Hello", "你好")]);
        let cat = init(&bytes, true).expect("catalog parses");
        assert_eq!(t(Some(&cat), "Hello"), "你好");
    }
}

#[test]
fn plural_forms() {
    assert_eq!(untrickystore::i18n::plural_form(1), 0);
    assert_eq!(untrickystore::i18n::plural_form(0), 1);
    assert_eq!(untrickystore::i18n::plural_form(7), 1);
}

#[test]
fn offsets_checked_before_parsing() {
    assert!(offsets_fit(b"short"));
    assert!(offsets_fit(&[0u8; 40]));
    let good = mo(&[("Hello", "你好")]);
    assert!(offsets_fit(&good));
    let mut huge = Vec::new();
    for v in [0x950412deu32, 0, 1, 28, 36, 0, 0, 0xffff_ffff, 0xffff_ffff, 0xffff_ffff, 0xffff_ffff] {
        huge.extend_from_slice(&v.to_le_bytes());
    }
    assert_eq!(offsets_fit(&huge), usize::BITS == 64);
    assert!(init(&huge, true).is_none());
}
