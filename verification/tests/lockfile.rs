use msvcup::lockfile_parse::{
    check_lock_file_pkgs, parse_lock_file_payload, split_lines, write_payload, LockFilePayload,
    LockFilePayloadKind, LockLineError, Mismatch,
};
use msvcup::packages::{parse_msvcup_packages, LockFileUrlKind, MsvcupPackage, MsvcupPackageKind};
use msvcup::sha::Sha256;

const HASH: &str = "0123456789abcdef0123456789abcdef0123456789abcdef0123456789abcdef";

fn sha() -> Sha256 {
    Sha256::parse_hex(HASH).unwrap()
}

fn req(names: &[&str]) -> Vec<MsvcupPackage> {
    let strings: Vec<String> = names.iter().map(|s| s.to_string()).collect();
    parse_msvcup_packages(&strings).unwrap()
}

#[test]
fn test_parse_top_level_full_hash() {
    let line = format!("msvc-14.40|https://x.invalid/a.vsix|{}", HASH);
    let p = parse_lock_file_payload(&line).unwrap();
    assert_eq!(p.url_decoded, "https://x.invalid/a.vsix");
    assert_eq!(p.sha256, sha());
    match p.url_kind {
        LockFilePayloadKind::TopLevel(t) => {
            assert_eq!(t.kind, MsvcupPackageKind::Msvc);
            assert_eq!(t.version, "14.40");
        }
        _ => panic!("expected TopLevel"),
    }
}

#[test]
fn test_parse_offset_hash() {
    let url = format!("https://x.invalid/{}/a.vsix", HASH);
    let line = format!("msvc-14.40|{}|18", url);
    let p = parse_lock_file_payload(&line).unwrap();
    assert_eq!(p.sha256, sha());
    assert_eq!(p.url_decoded, url);
}

#[test]
fn test_parse_cab_line() {
    let line = format!("|https://x.invalid/a.cab|{} sub\\dir\\a.cab", HASH);
    let p = parse_lock_file_payload(&line).unwrap();
    match p.url_kind {
        LockFilePayloadKind::Cab(path) => assert_eq!(path, " sub\\dir\\a.cab"),
        _ => panic!("expected Cab"),
    }
}

#[test]
fn test_parse_line_errors() {
    assert!(matches!(
        parse_lock_file_payload("no separators"),
        Err(LockLineError::NoSeparator)
    ));
    assert!(matches!(
        parse_lock_file_payload("a|b"),
        Err(LockLineError::BadPackage)
    ));
    assert!(matches!(
        parse_lock_file_payload("msvc-14.40|https://x.invalid/a.vsix"),
        Err(LockLineError::NoSecondSeparator)
    ));
    assert!(matches!(
        parse_lock_file_payload(&format!("msvc-14.40|https://x.invalid/a.txt|{}", HASH)),
        Err(LockLineError::BadUrlKind)
    ));
    assert!(matches!(
        parse_lock_file_payload("msvc-14.40|https://x.invalid/a.vsix|zzz"),
        Err(LockLineError::BadHashSpec)
    ));
    assert!(matches!(
        parse_lock_file_payload("msvc-14.40|https://x.invalid/a.vsix|99"),
        Err(LockLineError::HashIndexOutOfBounds)
    ));
    let not_hex = "g123456789abcdef0123456789abcdef0123456789abcdef0123456789abcdef";
    assert!(matches!(
        parse_lock_file_payload(&format!("msvc-14.40|https://x.invalid/a.vsix|{}", not_hex)),
        Err(LockLineError::BadSha)
    ));
    assert!(matches!(
        parse_lock_file_payload(&format!("msvc-14.40|https://x.invalid/a.cab|{} p", HASH)),
        Err(LockLineError::CabWithPackage)
    ));
    assert!(matches!(
        parse_lock_file_payload(&format!("|https://x.invalid/a.cab|{}", HASH)),
        Err(LockLineError::CabMissingPath)
    ));
    assert!(matches!(
        parse_lock_file_payload(&format!("|https://x.invalid/a.vsix|{}", HASH)),
        Err(LockLineError::MissingPackage)
    ));
}

#[test]
fn test_write_then_parse_round_trip_full_hash() {
    let target = MsvcupPackage::from_string("msvc-14.40.33807").unwrap();
    let line = write_payload(
        Some(&target),
        LockFileUrlKind::Vsix,
        "https://x.invalid/a.vsix",
        &sha(),
        "a.vsix",
    );
    assert_eq!(line, format!("msvc-14.40.33807|https://x.invalid/a.vsix|{}", HASH));
    let p = parse_lock_file_payload(&line).unwrap();
    assert_eq!(p.url_decoded, "https://x.invalid/a.vsix");
    assert_eq!(p.sha256, sha());
    match p.url_kind {
        LockFilePayloadKind::TopLevel(t) => assert_eq!(t.pool_string(), "msvc-14.40.33807"),
        _ => panic!("expected TopLevel"),
    }
}

#[test]
fn test_write_then_parse_round_trip_offset() {
    // the hash occurs in the URL, upper-cased: the offset encoding is used
    let url = format!("https://x.invalid/{}/a.vsix", HASH.to_uppercase());
    let target = MsvcupPackage::from_string("msvc-14.40").unwrap();
    let line = write_payload(Some(&target), LockFileUrlKind::Vsix, &url, &sha(), "a.vsix");
    assert_eq!(line, format!("msvc-14.40|{}|18", url));
    let p = parse_lock_file_payload(&line).unwrap();
    assert_eq!(p.url_decoded, url);
    assert_eq!(p.sha256, sha());
}

#[test]
fn test_write_cab_uses_basename_with_full_hash() {
    let line = write_payload(
        None,
        LockFileUrlKind::Cab,
        "https://x.invalid/a.cab",
        &sha(),
        "dir\\sub\\a.cab",
    );
    assert_eq!(line, format!("|https://x.invalid/a.cab|{} a.cab", HASH));
}

#[test]
fn test_split_lines() {
    assert_eq!(split_lines("a\nb\n"), vec!["a", "b"]);
    assert_eq!(split_lines("a\nb"), vec!["a", "b"]);
    assert_eq!(split_lines(""), Vec::<&str>::new());
    assert_eq!(split_lines("\n"), vec![""]);
}

fn lock_line(pool: &str, stem: &str) -> String {
    format!("{}|https://x.invalid/{}.vsix|{}", pool, stem, HASH)
}

#[test]
fn test_check_lock_file_matches() {
    let content = format!(
        "{}\n{}\n{}\n",
        lock_line("msvc-14.40.33807", "m1"),
        lock_line("msvc-14.40.33807", "m2"),
        lock_line("sdk-10.0.22000", "s1"),
    );
    let pkgs = req(&["msvc-14.40.33807", "sdk-10.0.22000"]);
    assert!(check_lock_file_pkgs(&content, &pkgs).is_none());
}

#[test]
fn test_check_lock_file_missing() {
    let content = format!("{}\n", lock_line("sdk-10.0.22000", "s1"));
    let pkgs = req(&["msvc-14.40.33807", "sdk-10.0.22000"]);
    match check_lock_file_pkgs(&content, &pkgs) {
        Some(Mismatch::MissingPackage(p)) => assert_eq!(p.pool_string(), "msvc-14.40.33807"),
        _ => panic!("expected MissingPackage"),
    }
}

#[test]
fn test_check_lock_file_extra() {
    let content = format!(
        "{}\n{}\n",
        lock_line("msvc-14.40.33807", "m1"),
        lock_line("sdk-10.0.22000", "s1"),
    );
    let pkgs = req(&["msvc-14.40.33807"]);
    match check_lock_file_pkgs(&content, &pkgs) {
        Some(Mismatch::ExtraPackage(p)) => assert_eq!(p.pool_string(), "sdk-10.0.22000"),
        _ => panic!("expected ExtraPackage"),
    }
}

#[test]
fn test_check_lock_file_parse_error() {
    let pkgs = req(&["msvc-14.40.33807"]);
    match check_lock_file_pkgs("garbage line\n", &pkgs) {
        Some(Mismatch::ParseError(LockLineError::NoSeparator)) => {}
        _ => panic!("expected ParseError"),
    }
}

#[test]
fn test_requesting_msvc_against_sdk_only_lock_file() {
    // a lock file holding only sdk entries cannot satisfy an msvc
    // request: the consistency check reports the missing package, and
    // the caller then regenerates the lock file
    let content = format!(
        "{}\n{}\n",
        lock_line("sdk-10.0.22000", "s1"),
        lock_line("sdk-10.0.22000", "s2"),
    );
    let pkgs = req(&["msvc-14.40.33807"]);
    match check_lock_file_pkgs(&content, &pkgs) {
        Some(Mismatch::MissingPackage(p)) => assert_eq!(p.pool_string(), "msvc-14.40.33807"),
        _ => panic!("expected MissingPackage"),
    }
}

#[test]
fn test_payload_helpers() {
    let line = format!("cmake-3.29|https://x.invalid/a.zip|{}", HASH);
    let p: LockFilePayload = parse_lock_file_payload(&line).unwrap();
    assert!(p.strip_root_dir());
    let line2 = format!("msvc-14.40|https://x.invalid/a.vsix|{}", HASH);
    let p2 = parse_lock_file_payload(&line2).unwrap();
    assert!(!p2.strip_root_dir());
    assert_eq!(p2.host_arch_limit(), None);
}

#[test]
fn test_host_arch_limit_for_tools() {
    let url = "https://github.com/ninja-build/ninja/releases/download/v1.11.1/ninja-win.zip";
    let line = format!("ninja-1.11.1|{}|{}", url, HASH);
    let p = parse_lock_file_payload(&line).unwrap();
    assert_eq!(p.host_arch_limit(), Some(msvcup::arch::Arch::X64));
    let url2 = "https://github.com/Kitware/CMake/releases/download/v3.29.2/cmake-3.29.2-windows-arm64.zip";
    let line2 = format!("cmake-3.29.2|{}|{}", url2, HASH);
    let p2 = parse_lock_file_payload(&line2).unwrap();
    assert_eq!(p2.host_arch_limit(), Some(msvcup::arch::Arch::Arm64));
}
