//! Classifying download URLs of the auxiliary build tools (ninja and
//! cmake releases) into package identity and target architecture.
use vstd::prelude::*;

verus! {

use vstd::string::StrSliceExecFns;
use vstd::string::StringExecFns;
use crate::arch::Arch;
use crate::strutil::spec_has_prefix;
use crate::strutil::str_has_prefix;
use crate::strutil::str_eq;
use crate::util::spec_scan_ver_end;

#[derive(Debug, Clone, Copy, PartialEq, Eq, Structural)]
pub enum PackageKind {
    Ninja,
    Cmake,
}

#[derive(Debug, Clone)]
pub struct Package {
    pub kind: PackageKind,
    pub version: String,
}

#[derive(Debug, Clone)]
pub struct ExtraPayload {
    pub package: Package,
    pub arch: Arch,
}

pub enum ParseUrlResult {
    Parsed(ExtraPayload),
    Unexpected { offset: usize, what: String },
}

/// The ninja release URL prefix.
pub open spec fn spec_ninja_prefix() -> Seq<char> {
    "https://github.com/ninja-build/ninja/releases/download/v"@
}

/// The cmake release URL prefix.
pub open spec fn spec_cmake_prefix() -> Seq<char> {
    "https://github.com/Kitware/CMake/releases/download/v"@
}

/// What `parse_url` must return for `url`, case by case.
pub open spec fn spec_parse_url_ok(url: Seq<char>, r: ParseUrlResult) -> bool {
    if spec_has_prefix(url, spec_ninja_prefix()) {
        let rest = url.skip(spec_ninja_prefix().len() as int);
        let ve = spec_scan_ver_end(rest, 0);
        if ve == 0 {
            r matches ParseUrlResult::Unexpected { offset, what } && offset
                == spec_ninja_prefix().len() && what@ == "a version"@
        } else {
            let version = rest.take(ve);
            let rem = rest.skip(ve);
            if rem == "/ninja-win.zip"@ || rem == "/ninja-winarm64.zip"@ {
                r matches ParseUrlResult::Parsed(p) && p.package.kind == PackageKind::Ninja
                    && p.package.version@ == version && p.arch == (if rem == "/ninja-win.zip"@ {
                    Arch::X64
                } else {
                    Arch::Arm64
                })
            } else {
                r matches ParseUrlResult::Unexpected { offset, what } && offset
                    == spec_ninja_prefix().len() + ve && what@
                    == "either '/ninja-win.zip' or '/ninja-winarm64.zip'"@
            }
        }
    } else if spec_has_prefix(url, spec_cmake_prefix()) {
        let rest = url.skip(spec_cmake_prefix().len() as int);
        let ve = spec_scan_ver_end(rest, 0);
        if ve == 0 {
            r matches ParseUrlResult::Unexpected { offset, what } && offset
                == spec_cmake_prefix().len() && what@ == "a version"@
        } else {
            let version = rest.take(ve);
            let rem = rest.skip(ve);
            let mid = "/cmake-"@ + version + "-windows-"@;
            if spec_has_prefix(rem, mid) {
                let after = rem.skip(mid.len() as int);
                if after == "x86_64.zip"@ || after == "i386.zip"@ || after == "arm64.zip"@ {
                    r matches ParseUrlResult::Parsed(p) && p.package.kind == PackageKind::Cmake
                        && p.package.version@ == version && p.arch == (if after == "x86_64.zip"@ {
                        Arch::X64
                    } else if after == "i386.zip"@ {
                        Arch::X86
                    } else {
                        Arch::Arm64
                    })
                } else {
                    r matches ParseUrlResult::Unexpected { offset, what } && offset
                        == spec_cmake_prefix().len() + ve + mid.len() && what@
                        == "'x86_64.zip', 'i386.zip', or 'arm64.zip'"@
                }
            } else {
                r matches ParseUrlResult::Unexpected { offset, what } && offset
                    == spec_cmake_prefix().len() + ve && what@
                    == "'/cmake-<version>-windows-<arch>.zip'"@
            }
        }
    } else {
        r matches ParseUrlResult::Unexpected { offset, what } && offset == 0 && what@
            == "either 'https://github.com/ninja-build/ninja/releases/download/v' or 'https://github.com/Kitware/CMake/releases/download/v'"@
    }
}

/// Scan a maximal run of digits and dots from `start`; the length.
fn scan_version(s: &str, start: usize) -> (r: usize)
    requires
        start <= s@.len(),
    ensures
        start + r == spec_scan_ver_end(s@, start as int),
        start + r <= s@.len(),
{
    let n = s.unicode_len();
    let mut offset: usize = start;
    loop
        invariant
            start <= offset <= n,
            n == s@.len(),
            spec_scan_ver_end(s@, start as int) == spec_scan_ver_end(s@, offset as int),
        ensures
            start <= offset <= n,
            spec_scan_ver_end(s@, start as int) == offset,
        decreases n - offset,
    {
        if offset >= n {
            break;
        }
        let c = s.get_char(offset);
        proof {
            crate::strutil::lemma_char_inj(c, '.');
        }
        if !(c == '.' || ('0' <= c && c <= '9')) {
            break;
        }
        offset = offset + 1;
    }
    offset - start
}

/// Classify a tool release URL into package identity and architecture,
/// or say at which offset it stops looking like one.
pub fn parse_url(url: &str) -> (r: ParseUrlResult)
    ensures
        spec_parse_url_ok(url@, r),
{
    let n = url.unicode_len();
    let ninja_prefix = "https://github.com/ninja-build/ninja/releases/download/v";
    let cmake_prefix = "https://github.com/Kitware/CMake/releases/download/v";
    if str_has_prefix(url, ninja_prefix) {
        let plen = ninja_prefix.unicode_len();
        let ghost rest = url@.skip(plen as int);
        let version_len = scan_version_tail(url, plen);
        if version_len == 0 {
            return ParseUrlResult::Unexpected {
                offset: plen,
                what: String::from_str("a version"),
            };
        }
        let version = url.substring_char(plen, plen + version_len);
        let remaining = url.substring_char(plen + version_len, n);
        proof {
            assert(version@ =~= rest.take(version_len as int));
            assert(remaining@ =~= rest.skip(version_len as int));
        }
        let arch = if str_eq(remaining, "/ninja-win.zip") {
            Arch::X64
        } else if str_eq(remaining, "/ninja-winarm64.zip") {
            Arch::Arm64
        } else {
            return ParseUrlResult::Unexpected {
                offset: plen + version_len,
                what: String::from_str("either '/ninja-win.zip' or '/ninja-winarm64.zip'"),
            };
        };
        return ParseUrlResult::Parsed(ExtraPayload {
            package: Package { kind: PackageKind::Ninja, version: version.to_owned() },
            arch,
        });
    }
    if str_has_prefix(url, cmake_prefix) {
        let plen = cmake_prefix.unicode_len();
        let ghost rest = url@.skip(plen as int);
        let version_len = scan_version_tail(url, plen);
        if version_len == 0 {
            return ParseUrlResult::Unexpected {
                offset: plen,
                what: String::from_str("a version"),
            };
        }
        let version = url.substring_char(plen, plen + version_len);
        let remaining = url.substring_char(plen + version_len, n);
        proof {
            assert(version@ =~= rest.take(version_len as int));
            assert(remaining@ =~= rest.skip(version_len as int));
        }
        let mut expected_mid = String::from_str("/cmake-");
        expected_mid.append(version);
        expected_mid.append("-windows-");
        proof {
            assert(expected_mid@ == "/cmake-"@ + version@ + "-windows-"@);
        }
        if str_has_prefix(remaining, expected_mid.as_str()) {
            let mid_len = expected_mid.as_str().unicode_len();
            let rn = remaining.unicode_len();
            let after_mid = remaining.substring_char(mid_len, rn);
            proof {
                assert(after_mid@ =~= remaining@.skip(expected_mid@.len() as int));
            }
            let arch = if str_eq(after_mid, "x86_64.zip") {
                Arch::X64
            } else if str_eq(after_mid, "i386.zip") {
                Arch::X86
            } else if str_eq(after_mid, "arm64.zip") {
                Arch::Arm64
            } else {
                return ParseUrlResult::Unexpected {
                    offset: plen + version_len + mid_len,
                    what: String::from_str("'x86_64.zip', 'i386.zip', or 'arm64.zip'"),
                };
            };
            return ParseUrlResult::Parsed(ExtraPayload {
                package: Package { kind: PackageKind::Cmake, version: version.to_owned() },
                arch,
            });
        } else {
            return ParseUrlResult::Unexpected {
                offset: plen + version_len,
                what: String::from_str("'/cmake-<version>-windows-<arch>.zip'"),
            };
        }
    }
    ParseUrlResult::Unexpected {
        offset: 0,
        what: String::from_str(
            "either 'https://github.com/ninja-build/ninja/releases/download/v' or 'https://github.com/Kitware/CMake/releases/download/v'",
        ),
    }
}

/// The architecture a well-formed tool release URL is built for, as a
/// function of the URL text: the outcome `parse_url` classifies.
pub open spec fn spec_url_arch(url: Seq<char>) -> Option<Arch> {
    if spec_has_prefix(url, spec_ninja_prefix()) {
        let rest = url.skip(spec_ninja_prefix().len() as int);
        let ve = spec_scan_ver_end(rest, 0);
        if ve == 0 {
            None
        } else {
            let rem = rest.skip(ve);
            if rem == "/ninja-win.zip"@ {
                Some(Arch::X64)
            } else if rem == "/ninja-winarm64.zip"@ {
                Some(Arch::Arm64)
            } else {
                None
            }
        }
    } else if spec_has_prefix(url, spec_cmake_prefix()) {
        let rest = url.skip(spec_cmake_prefix().len() as int);
        let ve = spec_scan_ver_end(rest, 0);
        if ve == 0 {
            None
        } else {
            let version = rest.take(ve);
            let rem = rest.skip(ve);
            let mid = "/cmake-"@ + version + "-windows-"@;
            if spec_has_prefix(rem, mid) {
                let after = rem.skip(mid.len() as int);
                if after == "x86_64.zip"@ {
                    Some(Arch::X64)
                } else if after == "i386.zip"@ {
                    Some(Arch::X86)
                } else if after == "arm64.zip"@ {
                    Some(Arch::Arm64)
                } else {
                    None
                }
            } else {
                None
            }
        }
    } else {
        None
    }
}

/// Scan a version run in `url` starting right after a prefix of
/// length `plen`, giving its length relative to the tail.
fn scan_version_tail(url: &str, plen: usize) -> (r: usize)
    requires
        plen <= url@.len(),
    ensures
        r == spec_scan_ver_end(url@.skip(plen as int), 0),
        plen + r <= url@.len(),
{
    let r = scan_version(url, plen);
    proof {
        lemma_scan_ver_end_skip(url@, plen as int, plen as int);
    }
    r
}

/// Scanning in the whole string past `base` matches scanning in the
/// tail cut at `base`.
proof fn lemma_scan_ver_end_skip(s: Seq<char>, base: int, i: int)
    requires
        0 <= base <= i <= s.len(),
    ensures
        spec_scan_ver_end(s, i) - base == spec_scan_ver_end(s.skip(base), i - base),
    decreases s.len() - i,
{
    let t = s.skip(base);
    assert(forall|j: int| 0 <= j < t.len() ==> #[trigger] t[j] == s[base + j]);
    if i < s.len() && crate::util::spec_is_ver_char(s[i]) {
        lemma_scan_ver_end_skip(s, base, i + 1);
    }
}

} // verus!
