use msvcup::arch::Arch;
use msvcup::install::{
    cache_entry_path, finalize_manifest_content, generate_vcvars_bat, manifest_entry_line,
    recovery_deletions, select_version_entry, start_install_plan, zip_entry_plan, FinishKind,
    InstallStartAction, MsvcupDir, VersionQueryError, ZipEntryError, ZipEntryPlan, ZipKind,
};
use msvcup::sha::Sha256;

const HASH: &str = "0123456789abcdef0123456789abcdef0123456789abcdef0123456789abcdef";

#[test]
fn test_msvcup_dir_path() {
    let d = MsvcupDir { root_path: "/data/msvcup".to_string() };
    assert_eq!(d.path(&["cache"]), "/data/msvcup/cache");
    assert_eq!(d.path(&["manifest", "vs-release", "latest"]), "/data/msvcup/manifest/vs-release/latest");
}

#[test]
fn test_cache_entry_path() {
    let sha = Sha256::parse_hex(HASH).unwrap();
    assert_eq!(
        cache_entry_path("/cache", &sha, "a.vsix"),
        format!("/cache/{}-a.vsix", HASH)
    );
}

#[test]
fn test_manifest_entry_line() {
    assert_eq!(manifest_entry_line(true, "/a/b"), "new /a/b");
    assert_eq!(manifest_entry_line(false, "/a/b"), "add /a/b");
}

#[test]
fn test_crash_recovery_deletes_new_keeps_add() {
    // a stale manifest with new /a, new /b, add /c: recovery deletes
    // /a and /b and leaves /c alone
    let stale = "cache-entry-name\nnew /a\nnew /b\nadd /c\n";
    assert_eq!(recovery_deletions(stale), vec!["/a".to_string(), "/b".to_string()]);
    match start_install_plan(false, Some(stale)) {
        InstallStartAction::Proceed { deletions } => {
            assert_eq!(deletions, vec!["/a".to_string(), "/b".to_string()]);
        }
        _ => panic!("expected Proceed"),
    }
}

#[test]
fn test_install_gate_is_idempotent() {
    // with the durable manifest present the install is a no-op, stale
    // state or not
    match start_install_plan(true, Some("x\nnew /a\n")) {
        InstallStartAction::Skip => {}
        _ => panic!("expected Skip"),
    }
    match start_install_plan(false, None) {
        InstallStartAction::Proceed { deletions } => assert!(deletions.is_empty()),
        _ => panic!("expected Proceed"),
    }
}

#[test]
fn test_finalize_manifest() {
    let current = "cache-entry-name\nnew /a\nadd /c\nnoise\n";
    assert_eq!(finalize_manifest_content(current), "/a\n/c\n");
    assert_eq!(finalize_manifest_content(""), "");
}

#[test]
fn test_zip_entry_plan_basic() {
    match zip_entry_plan("Contents/dir/file.txt", ZipKind::Vsix, false, None) {
        Ok(ZipEntryPlan::Install { rel_path, root_dir }) => {
            assert_eq!(rel_path, "dir/file.txt");
            assert!(root_dir.is_none());
        }
        _ => panic!("expected Install"),
    }
    // entries outside the vsix prefix are skipped
    match zip_entry_plan("other/file.txt", ZipKind::Vsix, false, None) {
        Ok(ZipEntryPlan::Skip) => {}
        _ => panic!("expected Skip"),
    }
    // directories are skipped
    match zip_entry_plan("dir/", ZipKind::Zip, false, None) {
        Ok(ZipEntryPlan::Skip) => {}
        _ => panic!("expected Skip"),
    }
    // backslashes are normalized, percent escapes decoded
    match zip_entry_plan("dir\\a%20b.txt", ZipKind::Zip, false, None) {
        Ok(ZipEntryPlan::Install { rel_path, .. }) => assert_eq!(rel_path, "dir/a b.txt"),
        _ => panic!("expected Install"),
    }
}

#[test]
fn test_zip_entry_plan_dot_components() {
    assert!(matches!(
        zip_entry_plan("a/../b.txt", ZipKind::Zip, false, None),
        Err(ZipEntryError::DotComponent)
    ));
    assert!(matches!(
        zip_entry_plan("./b.txt", ZipKind::Zip, false, None),
        Err(ZipEntryError::DotComponent)
    ));
}

#[test]
fn test_zip_entry_plan_root_stripping() {
    match zip_entry_plan("cmake-3.29/bin/cmake.exe", ZipKind::Zip, true, None) {
        Ok(ZipEntryPlan::Install { rel_path, root_dir }) => {
            assert_eq!(rel_path, "bin/cmake.exe");
            assert_eq!(root_dir.as_deref(), Some("cmake-3.29"));
        }
        _ => panic!("expected Install"),
    }
    // same root carries on
    match zip_entry_plan("cmake-3.29/doc/x", ZipKind::Zip, true, Some("cmake-3.29")) {
        Ok(ZipEntryPlan::Install { rel_path, .. }) => assert_eq!(rel_path, "doc/x"),
        _ => panic!("expected Install"),
    }
    assert!(matches!(
        zip_entry_plan("other-root/doc/x", ZipKind::Zip, true, Some("cmake-3.29")),
        Err(ZipEntryError::RootDirChanged)
    ));
    assert!(matches!(
        zip_entry_plan("flat.txt", ZipKind::Zip, true, None),
        Err(ZipEntryError::NoRootDir)
    ));
}

#[test]
fn test_generate_vcvars_bat_msvc() {
    let bat = generate_vcvars_bat(FinishKind::Msvc, "14.40.33807", Arch::X64, Arch::Arm64);
    let expected = "set \"INCLUDE=%~dp0VC\\Tools\\MSVC\\14.40.33807\\include;%INCLUDE%\"\n\
                    set \"PATH=%~dp0VC\\Tools\\MSVC\\14.40.33807\\bin\\Hostx64\\arm64;%PATH%\"\n\
                    set \"LIB=%~dp0VC\\Tools\\MSVC\\14.40.33807\\lib\\arm64;%LIB%\"\n";
    assert_eq!(bat, expected);
}

#[test]
fn test_generate_vcvars_bat_sdk() {
    let bat = generate_vcvars_bat(FinishKind::Sdk, "10.0.22000.0", Arch::X64, Arch::X86);
    assert!(bat.starts_with("set \"INCLUDE=%~dp0Windows Kits\\10\\Include\\10.0.22000.0\\ucrt;"));
    assert!(bat.contains("set \"PATH=%~dp0Windows Kits\\10\\bin\\10.0.22000.0\\x64;%PATH%\"\n"));
    assert!(bat.ends_with(
        "set \"LIB=%~dp0Windows Kits\\10\\Lib\\10.0.22000.0\\ucrt\\x86;%~dp0Windows Kits\\10\\Lib\\10.0.22000.0\\um\\x86;%LIB%\"\n"
    ));
}

#[test]
fn test_select_version_entry() {
    let names = vec!["14.40.33807".to_string(), "notes.txt".to_string()];
    assert_eq!(select_version_entry(&names), Ok("14.40.33807".to_string()));
    let none = vec!["readme".to_string()];
    assert_eq!(select_version_entry(&none), Err(VersionQueryError::NoVersionDir));
    let two = vec!["1.0".to_string(), "2.0".to_string()];
    assert_eq!(select_version_entry(&two), Err(VersionQueryError::MultipleVersionDirs));
}
