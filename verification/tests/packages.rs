use core::cmp::Ordering;
use msvcup::arch::Arch;
use msvcup::packages::{
    get_install_pkg, get_lock_file_url_kind, identify_package, identify_payload,
    parse_manifest_update, parse_msvcup_packages, InstallPkgKind, Language, LockFileUrlKind,
    ManifestUpdate, MsvcupPackage, MsvcupPackageKind, MsvcupPackageParseError, Package, PackageId,
    Packages, Payload, PayloadId,
};
use msvcup::sha::Sha256;

#[test]
fn test_kind_strings() {
    assert_eq!(MsvcupPackageKind::Msvc.as_str(), "msvc");
    assert_eq!(MsvcupPackageKind::Sdk.as_str(), "sdk");
    let (k, v) = MsvcupPackageKind::from_prefix("msvc-14.40").unwrap();
    assert_eq!(k, MsvcupPackageKind::Msvc);
    assert_eq!(v, "14.40");
    assert!(MsvcupPackageKind::from_prefix("vc-14.40").is_none());
}

#[test]
fn test_pkg_from_string() {
    let p = MsvcupPackage::from_string("msvc-14.40.33807").unwrap();
    assert_eq!(p.kind, MsvcupPackageKind::Msvc);
    assert_eq!(p.version, "14.40.33807");
    assert_eq!(p.pool_string(), "msvc-14.40.33807");
    match MsvcupPackage::from_string("unknown-1.0") {
        Err(MsvcupPackageParseError::UnknownName) => {}
        _ => panic!("expected UnknownName"),
    }
    match MsvcupPackage::from_string("msvc-1..0") {
        Err(MsvcupPackageParseError::InvalidVersion(v)) => assert_eq!(v, "1..0"),
        _ => panic!("expected InvalidVersion"),
    }
}

#[test]
fn test_pkg_order() {
    let msvc = MsvcupPackage::from_string("msvc-14.40").unwrap();
    let sdk = MsvcupPackage::from_string("sdk-10.0.22000").unwrap();
    let msvc_newer = MsvcupPackage::from_string("msvc-14.41").unwrap();
    assert_eq!(MsvcupPackage::order(&msvc, &sdk), Ordering::Less);
    assert_eq!(MsvcupPackage::order(&msvc, &msvc_newer), Ordering::Less);
    assert_eq!(MsvcupPackage::order(&msvc, &msvc), Ordering::Equal);
}

#[test]
fn test_parse_msvcup_packages() {
    let input = vec![
        "sdk-10.0.22000".to_string(),
        "msvc-14.40.33807".to_string(),
        "msvc-14.40.33807".to_string(),
    ];
    let pkgs = parse_msvcup_packages(&input).unwrap();
    assert_eq!(pkgs.len(), 2);
    assert_eq!(pkgs[0].pool_string(), "msvc-14.40.33807");
    assert_eq!(pkgs[1].pool_string(), "sdk-10.0.22000");
    let bad = vec!["bogus".to_string()];
    assert!(parse_msvcup_packages(&bad).is_err());
}

#[test]
fn test_identify_package_msbuild_and_diasdk() {
    match identify_package("Microsoft.Build") {
        PackageId::Msbuild(v) => assert_eq!(v, "170"),
        _ => panic!("expected Msbuild"),
    }
    match identify_package("Microsoft.VisualStudio.VC.MSBuild.v170.X64") {
        PackageId::Msbuild(v) => assert_eq!(v, "170"),
        _ => panic!("expected Msbuild"),
    }
    match identify_package("Microsoft.VisualCpp.DIA.SDK") {
        PackageId::Diasdk => {}
        _ => panic!("expected Diasdk"),
    }
    match identify_package("Some.Other.Package") {
        PackageId::Unknown => {}
        _ => panic!("expected Unknown"),
    }
}

#[test]
fn test_identify_package_msvc() {
    match identify_package("Microsoft.VC.14.40.33807.Tools.HostX64.TargetX64.base") {
        PackageId::MsvcVersionHostTarget { build_version, host_arch, target_arch, name } => {
            assert_eq!(build_version, "14.40.33807");
            assert_eq!(host_arch, Arch::X64);
            assert_eq!(target_arch, Arch::X64);
            assert_eq!(name, "base");
        }
        _ => panic!("expected MsvcVersionHostTarget"),
    }
    match identify_package("Microsoft.VC.14.40.33807.CRT.Headers.base") {
        PackageId::MsvcVersionSomething { build_version, something } => {
            assert_eq!(build_version, "14.40.33807");
            assert_eq!(something, ".CRT.Headers.base");
        }
        _ => panic!("expected MsvcVersionSomething"),
    }
    match identify_package("Microsoft.VC.") {
        PackageId::Unexpected { offset, expected } => {
            assert_eq!(offset, 13);
            assert_eq!(expected, "version");
        }
        _ => panic!("expected Unexpected"),
    }
}

#[test]
fn test_identify_package_ninja_cmake() {
    match identify_package("ninja-1.11.1") {
        PackageId::Ninja(v) => assert_eq!(v, "1.11.1"),
        _ => panic!("expected Ninja"),
    }
    match identify_package("cmake-3.29.2") {
        PackageId::Cmake(v) => assert_eq!(v, "3.29.2"),
        _ => panic!("expected Cmake"),
    }
    match identify_package("ninja-1.11.1x") {
        PackageId::Unexpected { offset, expected } => {
            assert_eq!(offset, 6 + 6);
            assert_eq!(expected, "end");
        }
        _ => panic!("expected Unexpected"),
    }
}

#[test]
fn test_get_install_pkg_crt() {
    match get_install_pkg("Microsoft.VC.14.40.33807.CRT.Headers.base") {
        Some(InstallPkgKind::Msvc(v)) => assert_eq!(v, "14.40.33807"),
        _ => panic!("expected Msvc"),
    }
    match get_install_pkg("Microsoft.VC.14.40.33807.CRT.Redist.X64.base") {
        Some(InstallPkgKind::Msvc(v)) => assert_eq!(v, "14.40.33807"),
        _ => panic!("expected Msvc"),
    }
    match get_install_pkg("Microsoft.VC.14.40.33807.CRT.x64.Desktop.base") {
        Some(InstallPkgKind::Msvc(v)) => assert_eq!(v, "14.40.33807"),
        _ => panic!("expected Msvc"),
    }
    assert!(get_install_pkg("Microsoft.VC.14.40.33807.CRT.x64.Server.base").is_none());
    assert!(get_install_pkg("Microsoft.VC.14.40.33807.ATL.Headers.base").is_none());
}

#[test]
fn test_get_install_pkg_host_target() {
    match get_install_pkg("Microsoft.VC.14.40.33807.Tools.HostX64.TargetARM64.base") {
        Some(InstallPkgKind::Msvc(v)) => assert_eq!(v, "14.40.33807"),
        _ => panic!("expected Msvc"),
    }
    match get_install_pkg("Microsoft.VC.14.40.33807.Tools.HostX64.TargetX64.Res.base") {
        Some(InstallPkgKind::Msvc(v)) => assert_eq!(v, "14.40.33807"),
        _ => panic!("expected Msvc"),
    }
    assert!(get_install_pkg("Microsoft.VC.14.40.33807.Tools.HostX64.TargetX64.debug").is_none());
}

#[test]
fn test_identify_payload() {
    assert_eq!(
        identify_payload("Installers\\Windows SDK Desktop Headers x86-x86_en-us.msi"),
        PayloadId::Sdk
    );
    assert_eq!(
        identify_payload("Installers\\Universal CRT Headers Libraries and Sources-x86_en-us.msi"),
        PayloadId::Sdk
    );
    assert_eq!(identify_payload("Installers\\Something Else.msi"), PayloadId::Unknown);
}

#[test]
fn test_get_lock_file_url_kind() {
    assert_eq!(get_lock_file_url_kind("https://x.invalid/a.vsix"), Some(LockFileUrlKind::Vsix));
    assert_eq!(get_lock_file_url_kind("https://x.invalid/a.msi"), Some(LockFileUrlKind::Msi));
    assert_eq!(get_lock_file_url_kind("https://x.invalid/a.cab"), Some(LockFileUrlKind::Cab));
    assert_eq!(get_lock_file_url_kind("https://x.invalid/a.zip"), Some(LockFileUrlKind::Zip));
    assert_eq!(get_lock_file_url_kind("https://x.invalid/a.txt"), None);
}

#[test]
fn test_language_from_str() {
    assert_eq!(Language::from_str("neutral"), Language::Neutral);
    assert_eq!(Language::from_str("en-US"), Language::EnUs);
    assert_eq!(Language::from_str("EN-us"), Language::EnUs);
    assert_eq!(Language::from_str("de-DE"), Language::Other);
    assert_eq!(Language::from_str("xx-XX"), Language::Other);
}

#[test]
fn test_manifest_update() {
    assert_eq!(parse_manifest_update("off"), Ok(ManifestUpdate::Off));
    assert_eq!(parse_manifest_update("daily"), Ok(ManifestUpdate::Daily));
    assert_eq!(parse_manifest_update("always"), Ok(ManifestUpdate::Always));
    assert!(parse_manifest_update("sometimes").is_err());
}

fn sample_sha() -> Sha256 {
    Sha256::parse_hex("00112233445566778899aabbccddeeff00112233445566778899aabbccddeeff").unwrap()
}

fn packages_with_counts(counts: &[usize]) -> Packages {
    let mut ps = Packages::new_empty();
    for (gi, &count) in counts.iter().enumerate() {
        ps.push_package(format!("pkg{}", gi), "1.0".to_string(), Language::Neutral);
        for pi in 0..count {
            ps.push_payload(Payload {
                url_decoded: format!("https://x.invalid/p{}-{}.vsix", gi, pi),
                sha256: sample_sha(),
                file_name: format!("p{}-{}.vsix", gi, pi),
            });
        }
    }
    ps
}

#[test]
fn test_payload_lookup_boundaries() {
    // boundaries [0, 3, 3, 8, 10]: four packages with 3, 0, 5, 2 payloads
    let ps = packages_with_counts(&[3, 0, 5, 2]);
    assert_eq!(ps.pkg_index_from_payload_index(3), 2);
    assert_eq!(ps.pkg_index_from_payload_index(9), 3);
    assert_eq!(ps.payload_range_from_pkg_index(0), 0..3);
    assert_eq!(ps.payload_range_from_pkg_index(1), 3..3);
    assert_eq!(ps.payload_range_from_pkg_index(2), 3..8);
    assert_eq!(ps.payload_range_from_pkg_index(3), 8..10);
}

#[test]
fn test_payload_lookup_exhaustive_against_linear_scan() {
    let distributions: [&[usize]; 4] = [&[3, 0, 5, 2], &[1], &[0, 0, 7], &[2, 1, 0, 0, 4, 1]];
    for counts in distributions {
        let ps = packages_with_counts(counts);
        let total: usize = counts.iter().sum();
        for payload_index in 0..total {
            // linear reference scan
            let mut expect = 0;
            let mut seen = 0;
            for (gi, &c) in counts.iter().enumerate() {
                if payload_index < seen + c {
                    expect = gi;
                    break;
                }
                seen += c;
            }
            assert_eq!(ps.pkg_index_from_payload_index(payload_index), expect);
        }
    }
}

#[test]
fn test_payloads_from_pkg_index() {
    let ps = packages_with_counts(&[2, 1]);
    let slice = ps.payloads_from_pkg_index(1);
    assert_eq!(slice.len(), 1);
    assert_eq!(slice[0].file_name, "p1-0.vsix");
}

#[test]
fn test_package_fields() {
    let p = Package {
        id: "x".to_string(),
        version: "1".to_string(),
        payloads_offset: 0,
        language: Language::Neutral,
    };
    assert_eq!(p.language, Language::Neutral);
    let pay = Payload {
        url_decoded: "https://x.invalid/dir/name.vsix".to_string(),
        sha256: sample_sha(),
        file_name: "name.vsix".to_string(),
    };
    assert_eq!(pay.name_decoded(), "name.vsix");
}
