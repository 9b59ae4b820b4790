use msvcup::arch::Arch;
use msvcup::autoenv_cmd::{generate_libc_txt, generate_toolchain_cmake};
use msvcup::channel_kind::ChannelKind;
use msvcup::extra::{parse_url, PackageKind, ParseUrlResult};
use msvcup::packages::{Language, MsvcupPackage, Packages, Payload};
use msvcup::regen::{collect_install_payloads, render_lock_file};
use msvcup::sha::{lower_sha_hex, sha256_matches, Sha256, Sha256Streaming};

const HASH: &str = "0123456789abcdef0123456789abcdef0123456789abcdef0123456789abcdef";

#[test]
fn test_arch_names() {
    assert_eq!(Arch::X64.as_str(), "x64");
    assert_eq!(Arch::from_str_exact("arm64"), Some(Arch::Arm64));
    assert_eq!(Arch::from_str_exact("ARM64"), None);
    assert_eq!(Arch::from_str_ignore_case("ARM64"), Some(Arch::Arm64));
    assert_eq!(Arch::from_str_ignore_case("mips"), None);
}

#[test]
fn test_channel_kind() {
    assert_eq!(ChannelKind::Release.https_url(), "https://aka.ms/vs/17/release/channel");
    assert_eq!(ChannelKind::Preview.https_url(), "https://aka.ms/vs/17/pre/channel");
    assert_eq!(
        ChannelKind::Release.vs_manifest_channel_id(),
        "Microsoft.VisualStudio.Manifests.VisualStudio"
    );
    assert_eq!(ChannelKind::Release.subdir(), "vs-release");
    assert_eq!(ChannelKind::Release.channel_subdir(), "channel-release");
    assert_eq!(ChannelKind::Release.channel_url_subdir(), "channel-release-url");
}

#[test]
fn test_sha_hex_round_trip() {
    let sha = Sha256::parse_hex(HASH).unwrap();
    assert_eq!(sha.to_hex(), HASH);
    // either case parses to the same digest
    let upper = Sha256::parse_hex(&HASH.to_uppercase()).unwrap();
    assert_eq!(sha, upper);
    assert!(Sha256::parse_hex("0123").is_none());
    assert!(Sha256::parse_hex(&"zz".repeat(32)).is_none());
    assert_eq!(sha.bytes[0], 0x01);
    assert_eq!(sha.bytes[31], 0xef);
}

#[test]
fn test_lower_sha_hex() {
    assert_eq!(lower_sha_hex("ABCdef012"), "abcdef012");
}

#[test]
fn test_sha256_digest_of_known_input() {
    // SHA-256 of the empty input, a published constant: this fails if
    // the hashing wrapper returns anything but the real digest
    let expected =
        Sha256::parse_hex("e3b0c44298fc1c149afbf4c8996fb92427ae41e4649b934ca495991b7852b855")
            .unwrap();
    assert!(sha256_matches(&[], &expected));
    let wrong = Sha256::parse_hex(HASH).unwrap();
    assert!(!sha256_matches(&[], &wrong));

    let mut h = Sha256Streaming::new();
    h.update(b"hello ");
    h.update(b"world");
    let got = h.finalize();
    let known =
        Sha256::parse_hex("b94d27b9934d3e08a52e52d7da7dabfac484efe37a5380ee9088f7ace2efcde9")
            .unwrap();
    assert_eq!(got, known);
}

#[test]
fn test_parse_url_ninja() {
    let url = "https://github.com/ninja-build/ninja/releases/download/v1.11.1/ninja-win.zip";
    match parse_url(url) {
        ParseUrlResult::Parsed(p) => {
            assert_eq!(p.package.kind, PackageKind::Ninja);
            assert_eq!(p.package.version, "1.11.1");
            assert_eq!(p.arch, Arch::X64);
        }
        _ => panic!("expected Parsed"),
    }
}

#[test]
fn test_parse_url_cmake() {
    let url =
        "https://github.com/Kitware/CMake/releases/download/v3.29.2/cmake-3.29.2-windows-i386.zip";
    match parse_url(url) {
        ParseUrlResult::Parsed(p) => {
            assert_eq!(p.package.kind, PackageKind::Cmake);
            assert_eq!(p.package.version, "3.29.2");
            assert_eq!(p.arch, Arch::X86);
        }
        _ => panic!("expected Parsed"),
    }
}

#[test]
fn test_parse_url_unexpected() {
    match parse_url("https://example.invalid/nothing.zip") {
        ParseUrlResult::Unexpected { offset, .. } => assert_eq!(offset, 0),
        _ => panic!("expected Unexpected"),
    }
    match parse_url("https://github.com/ninja-build/ninja/releases/download/vX") {
        ParseUrlResult::Unexpected { offset, what } => {
            assert_eq!(offset, 56);
            assert_eq!(what, "a version");
        }
        _ => panic!("expected Unexpected"),
    }
}

#[test]
fn test_generate_toolchain_cmake() {
    let c = generate_toolchain_cmake(Arch::X64, true, false);
    assert!(c.starts_with("set(CMAKE_SYSTEM_NAME Windows)\nset(CMAKE_SYSTEM_PROCESSOR AMD64)\n"));
    assert!(c.contains("set(CMAKE_C_COMPILER \"${CMAKE_CURRENT_LIST_DIR}/cl.exe\")\n"));
    assert!(!c.contains("rc.exe"));
    let c2 = generate_toolchain_cmake(Arch::Arm, false, true);
    assert!(!c2.contains("SYSTEM_PROCESSOR"));
    assert!(c2.contains("set(CMAKE_MT \"${CMAKE_CURRENT_LIST_DIR}/mt.exe\")\n"));
}

#[test]
fn test_generate_libc_txt() {
    assert_eq!(generate_libc_txt(Some("14.40"), None, Arch::X64), "gcc_dir=\n");
}

#[test]
fn test_collect_and_render_lock_file() {
    let mut ps = Packages::new_empty();
    ps.push_package(
        "Microsoft.VC.14.40.33807.Tools.HostX64.TargetX64.base".to_string(),
        "17.10".to_string(),
        Language::Neutral,
    );
    ps.push_payload(Payload {
        url_decoded: "https://x.invalid/tools.vsix".to_string(),
        sha256: Sha256::parse_hex(HASH).unwrap(),
        file_name: "tools.vsix".to_string(),
    });
    ps.push_package("Unrelated.Package".to_string(), "1.0".to_string(), Language::Neutral);
    ps.push_payload(Payload {
        url_decoded: "https://x.invalid/other.vsix".to_string(),
        sha256: Sha256::parse_hex(HASH).unwrap(),
        file_name: "other.vsix".to_string(),
    });
    let req_strings = vec!["msvc-14.40.33807".to_string()];
    let req = msvcup::packages::parse_msvcup_packages(&req_strings).unwrap();
    let pairs = collect_install_payloads(&ps, &req);
    assert_eq!(pairs.len(), 1);
    assert_eq!(pairs[0].0.pool_string(), "msvc-14.40.33807");
    assert_eq!(pairs[0].1, 0);
    let text = render_lock_file(&ps, &pairs).unwrap();
    assert_eq!(text, format!("msvc-14.40.33807|https://x.invalid/tools.vsix|{}\n", HASH));
    // the regenerated lock file satisfies the request it was built for
    assert!(msvcup::lockfile_parse::check_lock_file_pkgs(&text, &req).is_none());
}

#[test]
fn test_collect_skips_other_languages() {
    let mut ps = Packages::new_empty();
    ps.push_package(
        "Microsoft.VC.14.40.33807.Tools.HostX64.TargetX64.base".to_string(),
        "17.10".to_string(),
        Language::Other,
    );
    ps.push_payload(Payload {
        url_decoded: "https://x.invalid/tools.vsix".to_string(),
        sha256: Sha256::parse_hex(HASH).unwrap(),
        file_name: "tools.vsix".to_string(),
    });
    let req_strings = vec!["msvc-14.40.33807".to_string()];
    let req = msvcup::packages::parse_msvcup_packages(&req_strings).unwrap();
    let pairs = collect_install_payloads(&ps, &req);
    assert!(pairs.is_empty());
}

#[test]
fn test_collect_sdk_payloads_by_file_name() {
    let mut ps = Packages::new_empty();
    ps.push_package("Win11SDK_10.0.22000".to_string(), "10.0.22000".to_string(), Language::Neutral);
    ps.push_payload(Payload {
        url_decoded: "https://x.invalid/sdk-headers.msi".to_string(),
        sha256: Sha256::parse_hex(HASH).unwrap(),
        file_name: "Installers\\Windows SDK Desktop Headers x86-x86_en-us.msi".to_string(),
    });
    ps.push_payload(Payload {
        url_decoded: "https://x.invalid/unrelated.msi".to_string(),
        sha256: Sha256::parse_hex(HASH).unwrap(),
        file_name: "Installers\\Something Else.msi".to_string(),
    });
    let req_strings = vec!["sdk-10.0.22000".to_string()];
    let req = msvcup::packages::parse_msvcup_packages(&req_strings).unwrap();
    let pairs = collect_install_payloads(&ps, &req);
    assert_eq!(pairs.len(), 1);
    assert_eq!(pairs[0].0.pool_string(), "sdk-10.0.22000");
    assert_eq!(pairs[0].1, 0);
}

#[test]
fn test_collect_takes_every_payload_of_a_matching_package() {
    let mut ps = Packages::new_empty();
    ps.push_package(
        "Microsoft.VC.14.40.33807.Tools.HostX64.TargetX64.base".to_string(),
        "17.10".to_string(),
        Language::Neutral,
    );
    for i in 0..4 {
        ps.push_payload(Payload {
            url_decoded: format!("https://x.invalid/part{}.vsix", i),
            sha256: Sha256::parse_hex(HASH).unwrap(),
            file_name: format!("part{}.vsix", i),
        });
    }
    let req_strings = vec!["msvc-14.40.33807".to_string()];
    let req = msvcup::packages::parse_msvcup_packages(&req_strings).unwrap();
    let pairs = collect_install_payloads(&ps, &req);
    // every payload of the matching package, in index order
    assert_eq!(pairs.len(), 4);
    for (i, pair) in pairs.iter().enumerate() {
        assert_eq!(pair.0.pool_string(), "msvc-14.40.33807");
        assert_eq!(pair.1, i);
    }
}
