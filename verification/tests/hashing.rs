use clipd::clipboard::{app_name_from_lsappinfo, app_name_from_output, sha256_hex, ClipboardPoller};

#[test]
fn sha256_hex_known_values() {
    assert_eq!(
        sha256_hex(""),
        "e3b0c44298fc1c149afbf4c8996fb92427ae41e4649b934ca495991b7852b855"
    );
    assert_eq!(
        sha256_hex("abc"),
        "ba7816bf8f01cfea414140de5dae2223b00361a396177a9cb410ff61f20015ad"
    );
}

#[test]
fn sha256_hex_shape() {
    let h = sha256_hex("clipboard text");
    assert_eq!(h.len(), 64);
    assert!(h.chars().all(|c| c.is_ascii_digit() || ('a'..='f').contains(&c)));
    assert_eq!(h, sha256_hex("clipboard text"));
    assert_ne!(h, sha256_hex("clipboard text "));
}

#[test]
fn poller_reports_each_change_once() {
    let mut p = ClipboardPoller::new();
    assert_eq!(p.poll(Some("first".to_string())), Some("first".to_string()));
    assert_eq!(p.poll(Some("first".to_string())), None);
    assert_eq!(p.poll(Some("second".to_string())), Some("second".to_string()));
    assert_eq!(p.poll(Some("first".to_string())), Some("first".to_string()));
}

#[test]
fn poller_ignores_empty_and_missing_text() {
    let mut p = ClipboardPoller::default();
    assert_eq!(p.poll(None), None);
    assert_eq!(p.poll(Some(String::new())), None);
    assert_eq!(p.poll(Some("x".to_string())), Some("x".to_string()));
    assert_eq!(p.poll(Some(String::new())), None);
    assert_eq!(p.poll(None), None);
    assert_eq!(p.poll(Some("x".to_string())), None);
}

#[test]
fn lsappinfo_bundle_name() {
    let out = "\"Safari\" ASN:0x0-0x1:\n    bundleID=\"com.apple.Safari\"\n    \"CFBundleName\"=\"Safari\"\n";
    assert_eq!(app_name_from_lsappinfo(out), Some("Safari".to_string()));
}

#[test]
fn lsappinfo_first_naming_line_wins() {
    let out = "\"CFBundleName\"=\"\"\n\"CFBundleName\"=\"Terminal\"\r\n\"CFBundleName\"=\"Mail\"";
    assert_eq!(app_name_from_lsappinfo(out), Some("Terminal".to_string()));
}

#[test]
fn lsappinfo_without_name() {
    assert_eq!(app_name_from_lsappinfo(""), None);
    assert_eq!(app_name_from_lsappinfo("CFBundleName = Safari\n"), None);
    assert_eq!(app_name_from_lsappinfo("\"bundleID\"=\"com.x\"\n"), None);
}

#[test]
fn probe_output_is_trimmed() {
    assert_eq!(app_name_from_output("  Firefox\n"), Some("Firefox".to_string()));
    assert_eq!(app_name_from_output(" \n\t"), None);
    assert_eq!(app_name_from_output(""), None);
}
