//! The lock file codec: one payload per `\n`-terminated line,
//! `<target>|<url>|<hash-field>[ <cab-path>]`, where the hash field is
//! either 64 hex characters or a decimal offset of the hash inside the
//! URL.  `write_payload` and `parse_lock_file_payload` are exact
//! inverses; `lemma_write_parse_round_trip` proves it.  Offsets count
//! characters of the URL text; for the ASCII URLs a lock file holds at
//! rest this is the byte offset of the on-disk format
//! (`lemma_ascii_offset_is_byte_offset`).
use vstd::prelude::*;

verus! {

use core::cmp::Ordering;
use vstd::string::StrSliceExecFns;
use vstd::string::StringExecFns;
use crate::arch::Arch;
use crate::sha::Sha256;
use crate::sha::spec_sha_byte;
use crate::sha::spec_sha_hex_ok;
use crate::sha::spec_lower_char;
use crate::strutil::spec_find_char;
use crate::strutil::spec_parse_u64;
use crate::strutil::spec_dec_str;
use crate::strutil::find_char_from;
use crate::strutil::parse_u64_str;
use crate::strutil::append_dec_u64;
use crate::packages::LockFileUrlKind;
use crate::packages::MsvcupPackage;
use crate::packages::MsvcupPackageKind;
use crate::packages::get_lock_file_url_kind;
use crate::packages::spec_url_kind;
use crate::packages::spec_kind_from_prefix;
use crate::packages::spec_kind_prefix;
use crate::util::spec_is_valid_version;

#[derive(Debug)]
pub struct LockFilePayload {
    pub url_decoded: String,
    pub sha256: Sha256,
    pub url_kind: LockFilePayloadKind,
}

#[derive(Debug)]
pub enum LockFilePayloadKind {
    TopLevel(MsvcupPackage),
    Cab(String),
}

impl LockFilePayload {
    /// Whether extraction strips the archive's shared root directory:
    /// only cmake archives carry one.
    pub fn strip_root_dir(&self) -> (r: bool)
        ensures
            r == (self.url_kind matches LockFilePayloadKind::TopLevel(p) && p.kind
                == MsvcupPackageKind::Cmake),
    {
        match &self.url_kind {
            LockFilePayloadKind::TopLevel(pkg) => match pkg.kind {
                MsvcupPackageKind::Cmake => true,
                _ => false,
            },
            LockFilePayloadKind::Cab(_) => false,
        }
    }

    /// The host architecture this payload is limited to, if any: the
    /// tool payloads (ninja, cmake) are host-specific, read off their
    /// release URL.
    pub fn host_arch_limit(&self) -> (r: Option<Arch>)
        ensures
            r == (match self.url_kind {
                LockFilePayloadKind::TopLevel(p) => match p.kind {
                    MsvcupPackageKind::Ninja | MsvcupPackageKind::Cmake => crate::extra::spec_url_arch(
                        self.url_decoded@,
                    ),
                    _ => None,
                },
                LockFilePayloadKind::Cab(_) => None,
            }),
    {
        match &self.url_kind {
            LockFilePayloadKind::TopLevel(pkg) => match pkg.kind {
                MsvcupPackageKind::Msvc
                | MsvcupPackageKind::Sdk
                | MsvcupPackageKind::Msbuild
                | MsvcupPackageKind::Diasdk => None,
                MsvcupPackageKind::Ninja | MsvcupPackageKind::Cmake => {
                    match crate::extra::parse_url(self.url_decoded.as_str()) {
                        crate::extra::ParseUrlResult::Parsed(p) => Some(p.arch),
                        crate::extra::ParseUrlResult::Unexpected { .. } => None,
                    }
                },
            },
            LockFilePayloadKind::Cab(_) => None,
        }
    }
}

/// Why a lock file line was rejected.
#[derive(Debug, Clone, Copy, PartialEq, Eq, Structural)]
pub enum LockLineError {
    NoSeparator,
    NoSecondSeparator,
    BadPackage,
    BadUrlKind,
    BadHashSpec,
    HashIndexOutOfBounds,
    BadSha,
    CabWithPackage,
    CabMissingPath,
    MissingPackage,
}

/// The parse of one lock file line, at the specification level.
pub enum LockLineView {
    Bad(LockLineError),
    TopLevel { kind: MsvcupPackageKind, version: Seq<char>, url: Seq<char>, sha: Seq<u8> },
    Cab { url: Seq<char>, sha: Seq<u8>, path: Seq<char> },
}

/// The digest bytes encoded by a 64-character hex text.
pub open spec fn spec_sha_bytes_of(hex: Seq<char>) -> Seq<u8> {
    Seq::new(32, |i: int| spec_sha_byte(hex, i))
}

/// The parse of one lock file line.
pub open spec fn spec_parse_line(line: Seq<char>) -> LockLineView {
    match spec_find_char(line, '|') {
        None => LockLineView::Bad(LockLineError::NoSeparator),
        Some(p1) => {
            let pkg_str = line.take(p1);
            let pkg_given = pkg_str.len() > 0;
            let pkg_bad = pkg_given && !(spec_kind_from_prefix(pkg_str) is Some
                && spec_is_valid_version(
                pkg_str.skip(spec_kind_prefix(spec_kind_from_prefix(pkg_str)->Some_0).len() as int),
            ));
            if pkg_bad {
                LockLineView::Bad(LockLineError::BadPackage)
            } else {
                match spec_find_char(line.skip(p1 + 1), '|') {
                    None => LockLineView::Bad(LockLineError::NoSecondSeparator),
                    Some(p2rel) => {
                        let url = line.subrange(p1 + 1, p1 + 1 + p2rel)                        ;
                        match spec_url_kind(url) {
                            None => LockLineView::Bad(LockLineError::BadUrlKind),
                            Some(url_kind) => {
                                let hash_start = p1 + 1 + p2rel + 1;
                                let hash_end = match spec_find_char(line.skip(hash_start), ' ') {
                                    Some(sp) => hash_start + sp,
                                    None => line.len() as int,
                                };
                                let hash_spec = line.subrange(hash_start, hash_end);
                                let hex_or_bad = if hash_spec.len() == 64 {
                                    Ok::<Seq<char>, LockLineError>(hash_spec)
                                } else {
                                    match spec_parse_u64(hash_spec) {
                                        None => Err(LockLineError::BadHashSpec),
                                        Some(idx) => if idx + 64 > url.len() {
                                            Err(LockLineError::HashIndexOutOfBounds)
                                        } else {
                                            Ok(url.subrange(idx as int, idx + 64))
                                        },
                                    }
                                };
                                match hex_or_bad {
                                    Err(e) => LockLineView::Bad(e),
                                    Ok(hex) => if !spec_sha_hex_ok(hex) {
                                        LockLineView::Bad(LockLineError::BadSha)
                                    } else {
                                        let sha = spec_sha_bytes_of(hex);
                                        if url_kind == LockFileUrlKind::Cab {
                                            if pkg_given {
                                                LockLineView::Bad(LockLineError::CabWithPackage)
                                            } else if hash_end < line.len() {
                                                LockLineView::Cab {
                                                    url,
                                                    sha,
                                                    path: line.skip(hash_end),
                                                }
                                            } else {
                                                LockLineView::Bad(LockLineError::CabMissingPath)
                                            }
                                        } else {
                                            if !pkg_given {
                                                LockLineView::Bad(LockLineError::MissingPackage)
                                            } else {
                                                let kind = spec_kind_from_prefix(pkg_str)->Some_0;
                                                LockLineView::TopLevel {
                                                    kind,
                                                    version: pkg_str.skip(
                                                        spec_kind_prefix(kind).len() as int,
                                                    ),
                                                    url,
                                                    sha,
                                                }
                                            }
                                        }
                                    },
                                }
                            },
                        }
                    },
                }
            }
        },
    }
}

/// Whether an executable parse result agrees with the line's view.
pub open spec fn spec_parse_result_ok(line: Seq<char>, r: Result<
    LockFilePayload,
    LockLineError,
>) -> bool {
    match spec_parse_line(line) {
        LockLineView::Bad(e) => r matches Err(e2) && e2 == e,
        LockLineView::TopLevel { kind, version, url, sha } => r matches Ok(p)
            && p.url_decoded@ == url && p.sha256.bytes@ == sha && (p.url_kind matches
        LockFilePayloadKind::TopLevel(t) && t.kind == kind && t.version@ == version),
        LockLineView::Cab { url, sha, path } => r matches Ok(p) && p.url_decoded@ == url
            && p.sha256.bytes@ == sha && (p.url_kind matches LockFilePayloadKind::Cab(c) && c@
            == path),
    }
}

/// Parse one lock file line.
#[verifier::rlimit(100)]
pub fn parse_lock_file_payload(line: &str) -> (r: Result<LockFilePayload, LockLineError>)
    ensures
        spec_parse_result_ok(line@, r),
{
    let n = line.unicode_len();
    let p1 = match find_char_from(line, 0, '|') {
        Some(i) => i,
        None => {
            proof {
                assert(line@.skip(0) =~= line@);
            }
            return Err(LockLineError::NoSeparator);
        },
    };
    proof {
        assert(line@.skip(0) =~= line@);
    }
    let pkg_str = line.substring_char(0, p1);
    proof {
        assert(pkg_str@ =~= line@.take(p1 as int));
    }
    let maybe_pkg: Option<MsvcupPackage> = if pkg_str.unicode_len() == 0 {
        None
    } else {
        match MsvcupPackage::from_string(pkg_str) {
            Ok(p) => Some(p),
            Err(_) => {
                return Err(LockLineError::BadPackage);
            },
        }
    };
    let p2 = match find_char_from(line, p1 + 1, '|') {
        Some(i) => i,
        None => {
            return Err(LockLineError::NoSecondSeparator);
        },
    };
    let url = line.substring_char(p1 + 1, p2);
    proof {
        assert(url@ =~= line@.subrange(p1 + 1, p2 as int));
        assert(line@.skip(p1 + 1)[p2 - (p1 + 1)] == line@[p2 as int]);
    }
    let url_kind = match get_lock_file_url_kind(url) {
        Some(k) => k,
        None => {
            return Err(LockLineError::BadUrlKind);
        },
    };
    let hash_start = p2 + 1;
    let hash_end = match find_char_from(line, hash_start, ' ') {
        Some(i) => i,
        None => n,
    };
    let hash_spec = line.substring_char(hash_start, hash_end);
    proof {
        assert(hash_spec@ =~= line@.subrange(hash_start as int, hash_end as int));
    }
    let url_len = url.unicode_len();
    let sha256 = if hash_spec.unicode_len() == 64 {
        match Sha256::parse_hex(hash_spec) {
            Some(s) => s,
            None => {
                return Err(LockLineError::BadSha);
            },
        }
    } else {
        let idx64 = match parse_u64_str(hash_spec) {
            Some(v) => v,
            None => {
                return Err(LockLineError::BadHashSpec);
            },
        };
        if idx64 > u64::MAX - 64 || idx64 + 64 > url_len as u64 {
            return Err(LockLineError::HashIndexOutOfBounds);
        }
        let idx = idx64 as usize;
        let hex = url.substring_char(idx, idx + 64);
        proof {
            assert(hex@ =~= url@.subrange(idx64 as int, idx64 + 64));
        }
        match Sha256::parse_hex(hex) {
            Some(s) => s,
            None => {
                return Err(LockLineError::BadSha);
            },
        }
    };
    proof {
        assert(sha256.bytes@ =~= spec_sha_bytes_of(
            if line@.subrange(hash_start as int, hash_end as int).len() == 64 {
                line@.subrange(hash_start as int, hash_end as int)
            } else {
                url@.subrange(
                    spec_parse_u64(line@.subrange(hash_start as int, hash_end as int))->Some_0 as int,
                    spec_parse_u64(line@.subrange(hash_start as int, hash_end as int))->Some_0 + 64,
                )
            },
        ));
    }
    match url_kind {
        LockFileUrlKind::Vsix | LockFileUrlKind::Msi | LockFileUrlKind::Zip => {
            match maybe_pkg {
                Some(pkg) => Ok(LockFilePayload {
                    url_decoded: url.to_owned(),
                    sha256,
                    url_kind: LockFilePayloadKind::TopLevel(pkg),
                }),
                None => Err(LockLineError::MissingPackage),
            }
        },
        LockFileUrlKind::Cab => {
            if maybe_pkg.is_some() {
                return Err(LockLineError::CabWithPackage);
            }
            if hash_end < n {
                let path = line.substring_char(hash_end, n);
                proof {
                    assert(path@ =~= line@.skip(hash_end as int));
                }
                Ok(LockFilePayload {
                    url_decoded: url.to_owned(),
                    sha256,
                    url_kind: LockFilePayloadKind::Cab(path.to_owned()),
                })
            } else {
                Err(LockLineError::CabMissingPath)
            }
        },
    }
}

/// The needle `p` occurs at position `i` of `s`, comparing
/// ASCII-case-insensitively on the `s` side.
pub open spec fn spec_matches_ci_at(s: Seq<char>, p: Seq<char>, i: int) -> bool {
    0 <= i && i + p.len() <= s.len() && forall|j: int|
        0 <= j < p.len() ==> spec_lower_char(s[i + j]) == #[trigger] p[j]
}

/// The first position at or after `i` where `p` occurs in `s`.
pub open spec fn spec_find_ci(s: Seq<char>, p: Seq<char>, i: int) -> Option<int>
    decreases s.len() - i,
{
    if i < 0 || i + p.len() > s.len() {
        None
    } else if spec_matches_ci_at(s, p, i) {
        Some(i)
    } else {
        spec_find_ci(s, p, i + 1)
    }
}

/// Whether `spec_lower_char(c)` has a known code relation.
proof fn lemma_lower_char_code(c: char)
    ensures
        spec_lower_char(c) as u32 == crate::strutil::spec_lower_code(c),
{
}

/// Search for `p` in `s`, comparing the `s` side lowered, as
/// `url.to_ascii_lowercase().find(&sha_hex)` does for ASCII text.
fn find_sub_ci(s: &str, p: &str) -> (r: Option<usize>)
    ensures
        match r {
            Some(i) => spec_find_ci(s@, p@, 0) == Some(i as int),
            None => spec_find_ci(s@, p@, 0) is None,
        },
{
    let sn = s.unicode_len();
    let pn = p.unicode_len();
    if pn > sn {
        return None;
    }
    let mut i: usize = 0;
    loop
        invariant
            0 <= i,
            i + pn <= sn + 1,
            sn == s@.len(),
            pn == p@.len(),
            pn <= sn,
            spec_find_ci(s@, p@, 0) == spec_find_ci(s@, p@, i as int),
        ensures
            spec_find_ci(s@, p@, 0) is None,
        decreases sn - i,
    {
        if i > sn || pn > sn - i {
            proof {
                assert(spec_find_ci(s@, p@, i as int) is None);
            }
            break;
        }
        let mut j: usize = 0;
        let mut matched = true;
        while j < pn
            invariant
                0 <= j <= pn,
                i + pn <= sn,
                sn == s@.len(),
                pn == p@.len(),
                matched == (forall|k: int|
                    0 <= k < j ==> spec_lower_char(s@[i + k]) == #[trigger] p@[k]),
            decreases pn - j,
        {
            let sc = s.get_char(i + j);
            let pc = p.get_char(j);
            proof {
                lemma_lower_char_code(sc);
                crate::strutil::lemma_char_inj(spec_lower_char(sc), pc);
            }
            if crate::strutil::char_lower_code(sc) != pc as u32 {
                matched = false;
                proof {
                    assert(spec_lower_char(s@[i + j]) != p@[j as int]);
                }
                j = pn;
            } else {
                j = j + 1;
            }
        }
        if matched {
            proof {
                assert(spec_matches_ci_at(s@, p@, i as int));
                assert(spec_find_ci(s@, p@, i as int) == Some(i as int));
            }
            return Some(i);
        }
        proof {
            assert(!spec_matches_ci_at(s@, p@, i as int));
        }
        i = i + 1;
    }
    None
}

/// The basename of a backslash path.
pub open spec fn spec_backslash_basename(s: Seq<char>) -> Seq<char> {
    match crate::util::spec_rfind_char(s, '\\') {
        Some(i) => s.skip(i + 1),
        None => s,
    }
}

fn backslash_basename<'a>(s: &'a str) -> (r: &'a str)
    ensures
        r@ == spec_backslash_basename(s@),
{
    let n = s.unicode_len();
    let mut i: usize = n;
    while i > 0
        invariant
            0 <= i <= n,
            n == s@.len(),
            forall|j: int| i <= j < n ==> s@[j] != '\\',
        decreases i,
    {
        if s.get_char(i - 1) == '\\' {
            proof {
                crate::util::lemma_rfind_char_props(s@, '\\');
                let rf = crate::util::spec_rfind_char(s@, '\\');
                if rf is None {
                    assert(false);
                } else {
                    let k = rf->Some_0;
                    if k < i - 1 {
                        assert(s@[i - 1] != '\\');
                        assert(false);
                    }
                    if k > i - 1 {
                        assert(s@[k] != '\\');
                        assert(false);
                    }
                }
            }
            return s.substring_char(i, n);
        }
        i = i - 1;
    }
    proof {
        crate::util::lemma_rfind_char_props(s@, '\\');
        if crate::util::spec_rfind_char(s@, '\\') is Some {
            let k = crate::util::spec_rfind_char(s@, '\\')->Some_0;
            assert(s@[k] != '\\');
            assert(false);
        }
    }
    s
}

/// The exact text `write_payload` produces.
pub open spec fn spec_written_line(
    target: Option<MsvcupPackage>,
    url_kind: LockFileUrlKind,
    url: Seq<char>,
    sha_bytes: Seq<u8>,
    file_name: Seq<char>,
) -> Seq<char> {
    let target_str = match target {
        Some(t) => crate::packages::spec_pool_string(t),
        None => Seq::<char>::empty(),
    };
    let sha_hex = crate::sha::spec_sha_hex(sha_bytes);
    let space: Seq<char> = if url_kind == LockFileUrlKind::Cab {
        " "@
    } else {
        Seq::<char>::empty()
    };
    let ofn: Seq<char> = if url_kind == LockFileUrlKind::Cab {
        file_name
    } else {
        Seq::<char>::empty()
    };
    match spec_find_ci(url, sha_hex, 0) {
        Some(i) => target_str + "|"@ + url + "|"@ + spec_dec_str(i as nat) + space + ofn,
        None => {
            let dn: Seq<char> = if url_kind == LockFileUrlKind::Cab {
                spec_backslash_basename(file_name)
            } else {
                Seq::<char>::empty()
            };
            target_str + "|"@ + url + "|"@ + sha_hex + space + dn
        },
    }
}

/// The hash offset the codec writes and reads counts characters of
/// the URL text.  For a URL of ASCII characters — the form URLs in a
/// lock file at rest take — the character offset coincides with the
/// byte offset of the hash within the UTF-8 encoded text: the bytes
/// before position `i` encode exactly the first `i` characters.
pub proof fn lemma_ascii_offset_is_byte_offset(url: Seq<char>, i: int)
    requires
        0 <= i <= url.len(),
        vstd::utf8::is_ascii_chars(url),
    ensures
        vstd::utf8::encode_utf8(url.take(i)).len() == i,
{
    assert(vstd::utf8::is_ascii_chars(url.take(i))) by {
        assert forall|j: int| 0 <= j < i implies '\0' <= #[trigger] url.take(i)[j] <= '\u{7f}' by {
            assert(url.take(i)[j] == url[j]);
        }
    }
    vstd::utf8::is_ascii_chars_encode_utf8(url.take(i));
}

/// Write one lock file line (without the terminating newline),
/// preferring the offset encoding whenever the hash occurs in the URL.
/// The offset counts characters; `lemma_ascii_offset_is_byte_offset`
/// identifies it with the on-disk byte offset for ASCII URLs.
pub fn write_payload(
    maybe_target: Option<&MsvcupPackage>,
    url_kind: LockFileUrlKind,
    url: &str,
    sha256: &Sha256,
    file_name: &str,
) -> (r: String)
    ensures
        r@ == spec_written_line(
            match maybe_target {
                Some(t) => Some(*t),
                None => None,
            },
            url_kind,
            url@,
            sha256.bytes@,
            file_name@,
        ),
{
    let mut out = String::new();
    match maybe_target {
        Some(t) => {
            let ps = t.pool_string();
            out.append(ps.as_str());
        },
        None => {},
    }
    out.append("|");
    out.append(url);
    out.append("|");
    let sha_hex = sha256.to_hex();
    let is_cab = match url_kind {
        LockFileUrlKind::Cab => true,
        _ => false,
    };
    match find_sub_ci(url, sha_hex.as_str()) {
        Some(i) => {
            append_dec_u64(&mut out, i as u64);
            if is_cab {
                out.append(" ");
                out.append(file_name);
            }
        },
        None => {
            out.append(sha_hex.as_str());
            if is_cab {
                out.append(" ");
                out.append(backslash_basename(file_name));
            }
        },
    }
    proof {
        if !is_cab {
            assert(out@ =~= spec_written_line(
                match maybe_target {
                    Some(t) => Some(*t),
                    None => None,
                },
                url_kind,
                url@,
                sha256.bytes@,
                file_name@,
            ));
        } else {
            assert(out@ =~= spec_written_line(
                match maybe_target {
                    Some(t) => Some(*t),
                    None => None,
                },
                url_kind,
                url@,
                sha256.bytes@,
                file_name@,
            ));
        }
    }
    out
}

/// A valid version consists of digits and dots only.
proof fn lemma_valid_version_chars(v: Seq<char>)
    requires
        spec_is_valid_version(v),
    ensures
        forall|i: int| 0 <= i < v.len() ==> crate::util::spec_is_ver_char(#[trigger] v[i]),
{
}

/// Parsing the pool string of a package recovers its kind and version;
/// the pool string is non-empty and free of separators and spaces.
proof fn lemma_pool_string_parse(t: MsvcupPackage)
    requires
        spec_is_valid_version(t.version@),
    ensures
        ({
            let ps = crate::packages::spec_pool_string(t);
            &&& spec_kind_from_prefix(ps) == Some(t.kind)
            &&& ps.skip(spec_kind_prefix(t.kind).len() as int) == t.version@
            &&& ps.len() > 0
            &&& spec_is_valid_version(ps.skip(spec_kind_prefix(t.kind).len() as int))
            &&& forall|i: int| 0 <= i < ps.len() ==> #[trigger] ps[i] != '|' && ps[i] != ' '
        }),
{
    reveal_strlit("msvc");
    reveal_strlit("sdk");
    reveal_strlit("msbuild");
    reveal_strlit("diasdk");
    reveal_strlit("ninja");
    reveal_strlit("cmake");
    reveal_strlit("msvc-");
    reveal_strlit("sdk-");
    reveal_strlit("msbuild-");
    reveal_strlit("diasdk-");
    reveal_strlit("ninja-");
    reveal_strlit("cmake-");
    reveal_strlit("-");
    let ps = crate::packages::spec_pool_string(t);
    let ks = crate::packages::spec_kind_str(t.kind);
    let kp = spec_kind_prefix(t.kind);
    let v = t.version@;
    lemma_valid_version_chars(v);
    assert(ps =~= ks + "-"@ + v);
    assert(kp =~= ks + "-"@);
    assert(ps.take(kp.len() as int) =~= kp);
    assert(crate::strutil::spec_has_prefix(ps, kp));
    assert(ps.skip(kp.len() as int) =~= v);
    match t.kind {
        MsvcupPackageKind::Msvc => {
            assert(spec_kind_from_prefix(ps) == Some(MsvcupPackageKind::Msvc));
        },
        MsvcupPackageKind::Sdk => {
            assert(ps[0] == 's');
            assert(!crate::strutil::spec_has_prefix(ps, "msvc-"@));
            assert(spec_kind_from_prefix(ps) == Some(MsvcupPackageKind::Sdk));
        },
        MsvcupPackageKind::Msbuild => {
            assert(ps[2] == 'b');
            assert(!crate::strutil::spec_has_prefix(ps, "msvc-"@)) by {
                if crate::strutil::spec_has_prefix(ps, "msvc-"@) {
                    assert(ps.take(5)[2] == 'v');
                }
            }
            assert(!crate::strutil::spec_has_prefix(ps, "sdk-"@)) by {
                if crate::strutil::spec_has_prefix(ps, "sdk-"@) {
                    assert(ps.take(4)[0] == 's');
                }
            }
            assert(spec_kind_from_prefix(ps) == Some(MsvcupPackageKind::Msbuild));
        },
        MsvcupPackageKind::Diasdk => {
            assert(ps[0] == 'd');
            assert(!crate::strutil::spec_has_prefix(ps, "msvc-"@)) by {
                if crate::strutil::spec_has_prefix(ps, "msvc-"@) {
                    assert(ps.take(5)[0] == 'm');
                }
            }
            assert(!crate::strutil::spec_has_prefix(ps, "sdk-"@)) by {
                if crate::strutil::spec_has_prefix(ps, "sdk-"@) {
                    assert(ps.take(4)[0] == 's');
                }
            }
            assert(!crate::strutil::spec_has_prefix(ps, "msbuild-"@)) by {
                if crate::strutil::spec_has_prefix(ps, "msbuild-"@) {
                    assert(ps.take(8)[0] == 'm');
                }
            }
            assert(spec_kind_from_prefix(ps) == Some(MsvcupPackageKind::Diasdk));
        },
        MsvcupPackageKind::Ninja => {
            assert(ps[0] == 'n');
            assert(!crate::strutil::spec_has_prefix(ps, "msvc-"@)) by {
                if crate::strutil::spec_has_prefix(ps, "msvc-"@) {
                    assert(ps.take(5)[0] == 'm');
                }
            }
            assert(!crate::strutil::spec_has_prefix(ps, "sdk-"@)) by {
                if crate::strutil::spec_has_prefix(ps, "sdk-"@) {
                    assert(ps.take(4)[0] == 's');
                }
            }
            assert(!crate::strutil::spec_has_prefix(ps, "msbuild-"@)) by {
                if crate::strutil::spec_has_prefix(ps, "msbuild-"@) {
                    assert(ps.take(8)[0] == 'm');
                }
            }
            assert(!crate::strutil::spec_has_prefix(ps, "diasdk-"@)) by {
                if crate::strutil::spec_has_prefix(ps, "diasdk-"@) {
                    assert(ps.take(7)[0] == 'd');
                }
            }
            assert(spec_kind_from_prefix(ps) == Some(MsvcupPackageKind::Ninja));
        },
        MsvcupPackageKind::Cmake => {
            assert(ps[0] == 'c');
            assert(!crate::strutil::spec_has_prefix(ps, "msvc-"@)) by {
                if crate::strutil::spec_has_prefix(ps, "msvc-"@) {
                    assert(ps.take(5)[0] == 'm');
                }
            }
            assert(!crate::strutil::spec_has_prefix(ps, "sdk-"@)) by {
                if crate::strutil::spec_has_prefix(ps, "sdk-"@) {
                    assert(ps.take(4)[0] == 's');
                }
            }
            assert(!crate::strutil::spec_has_prefix(ps, "msbuild-"@)) by {
                if crate::strutil::spec_has_prefix(ps, "msbuild-"@) {
                    assert(ps.take(8)[0] == 'm');
                }
            }
            assert(!crate::strutil::spec_has_prefix(ps, "diasdk-"@)) by {
                if crate::strutil::spec_has_prefix(ps, "diasdk-"@) {
                    assert(ps.take(7)[0] == 'd');
                }
            }
            assert(!crate::strutil::spec_has_prefix(ps, "ninja-"@)) by {
                if crate::strutil::spec_has_prefix(ps, "ninja-"@) {
                    assert(ps.take(6)[0] == 'n');
                }
            }
            assert(spec_kind_from_prefix(ps) == Some(MsvcupPackageKind::Cmake));
        },
    }
    assert forall|i: int| 0 <= i < ps.len() implies #[trigger] ps[i] != '|' && ps[i] != ' ' by {
        if i < ks.len() {
            assert(ps[i] == ks[i]);
        } else if i == ks.len() {
            assert(ps[i] == '-');
        } else {
            assert(ps[i] == v[i - ks.len() - 1]);
            assert(crate::util::spec_is_ver_char(v[i - ks.len() - 1]));
        }
    }
}

/// Powers of ten.
pub open spec fn spec_pow10(k: nat) -> nat
    decreases k,
{
    if k == 0 {
        1
    } else {
        10 * spec_pow10((k - 1) as nat)
    }
}

proof fn lemma_dec_str_len(n: nat, k: nat)
    requires
        k >= 1,
        n < spec_pow10(k),
    ensures
        spec_dec_str(n).len() <= k,
    decreases k,
{
    if n >= 10 {
        assert(spec_pow10(k) == 10 * spec_pow10((k - 1) as nat));
        lemma_dec_str_len(n / 10, (k - 1) as nat);
    }
}

/// A decimal rendering of a machine integer is never 64 digits long.
proof fn lemma_dec_str_short(n: nat)
    requires
        n < 0x1_0000_0000_0000_0000,
    ensures
        spec_dec_str(n).len() <= 20,
{
    assert(spec_pow10(0) == 1);
    assert(spec_pow10(1) == 10);
    assert(spec_pow10(2) == 100);
    assert(spec_pow10(3) == 1000);
    assert(spec_pow10(4) == 10000);
    assert(spec_pow10(5) == 100000);
    assert(spec_pow10(6) == 1000000);
    assert(spec_pow10(7) == 10000000);
    assert(spec_pow10(8) == 100000000);
    assert(spec_pow10(9) == 1000000000);
    assert(spec_pow10(10) == 10000000000);
    assert(spec_pow10(11) == 100000000000);
    assert(spec_pow10(12) == 1000000000000);
    assert(spec_pow10(13) == 10000000000000);
    assert(spec_pow10(14) == 100000000000000);
    assert(spec_pow10(15) == 1000000000000000);
    assert(spec_pow10(16) == 10000000000000000);
    assert(spec_pow10(17) == 100000000000000000);
    assert(spec_pow10(18) == 1000000000000000000);
    assert(spec_pow10(19) == 10000000000000000000);
    assert(spec_pow10(20) == 100000000000000000000);
    lemma_dec_str_len(n, 20);
}

/// A character lowering to a hex digit is a hex digit of equal value.
proof fn lemma_hex_lower_char(c: char, h: char)
    requires
        spec_lower_char(c) == h,
        crate::util::spec_is_hex_char(h),
    ensures
        crate::util::spec_is_hex_char(c),
        crate::util::spec_hex_char_val(c) == crate::util::spec_hex_char_val(h),
{
    crate::strutil::lemma_char_inj(spec_lower_char(c), h);
}

/// Where a case-insensitive search succeeds, the needle matches there.
proof fn lemma_find_ci_props(s: Seq<char>, p: Seq<char>, i0: int)
    ensures
        match spec_find_ci(s, p, i0) {
            Some(i) => i0 <= i && spec_matches_ci_at(s, p, i),
            None => true,
        },
    decreases s.len() - i0,
{
    if !(i0 < 0 || i0 + p.len() > s.len()) && !spec_matches_ci_at(s, p, i0) {
        lemma_find_ci_props(s, p, i0 + 1);
    }
}

/// Writing a payload line and parsing it back yields the same URL,
/// digest and kind, for both hash encodings.
#[verifier::rlimit(100)]
pub proof fn lemma_write_parse_round_trip(
    target: Option<MsvcupPackage>,
    url_kind: LockFileUrlKind,
    url: Seq<char>,
    sha_bytes: Seq<u8>,
    file_name: Seq<char>,
)
    requires
        sha_bytes.len() == 32,
        url.len() < 0x1_0000_0000_0000_0000,
        spec_url_kind(url) == Some(url_kind),
        (url_kind == LockFileUrlKind::Cab) <==> (target is None),
        target matches Some(t) ==> spec_is_valid_version(t.version@),
        forall|i: int| 0 <= i < url.len() ==> #[trigger] url[i] != '|',
    ensures
        ({
            let line = spec_written_line(target, url_kind, url, sha_bytes, file_name);
            match target {
                Some(t) => spec_parse_line(line) matches LockLineView::TopLevel {
                    kind,
                    version,
                    url: u2,
                    sha,
                } && kind == t.kind && version == t.version@ && u2 == url && sha == sha_bytes,
                None => spec_parse_line(line) matches LockLineView::Cab { url: u2, sha, path }
                    && u2 == url && sha == sha_bytes && path == " "@ + (match spec_find_ci(
                    url,
                    crate::sha::spec_sha_hex(sha_bytes),
                    0,
                ) {
                    Some(i) => file_name,
                    None => spec_backslash_basename(file_name),
                }),
            }
        }),
{
    reveal_strlit("|");
    reveal_strlit(" ");
    let line = spec_written_line(target, url_kind, url, sha_bytes, file_name);
    let ts = match target {
        Some(t) => crate::packages::spec_pool_string(t),
        None => Seq::<char>::empty(),
    };
    let sh = crate::sha::spec_sha_hex(sha_bytes);
    crate::sha::lemma_sha_hex_round_trip(sha_bytes);
    let found = spec_find_ci(url, sh, 0);
    lemma_find_ci_props(url, sh, 0);
    let hash_field = match found {
        Some(i) => spec_dec_str(i as nat),
        None => sh,
    };
    let tail: Seq<char> = match target {
        Some(t) => Seq::<char>::empty(),
        None => " "@ + (match found {
            Some(i) => file_name,
            None => spec_backslash_basename(file_name),
        }),
    };
    if found is Some {
        let i = found->Some_0;
        assert(0 <= i && i + 64 <= url.len());
        crate::strutil::lemma_dec_str_parses(i as u64);
        lemma_dec_str_short(i as nat);
        assert(hash_field.len() <= 20);
    }
    // every hash-field character is a digit or hex character
    assert forall|j: int| 0 <= j < hash_field.len() implies #[trigger] hash_field[j] != '|'
        && hash_field[j] != ' ' by {
        if found is Some {
            crate::strutil::lemma_dec_str_parses(found->Some_0 as u64);
            assert(crate::strutil::spec_is_digit(hash_field[j]));
        } else {
            assert(crate::util::spec_is_hex_char(hash_field[j]));
        }
        crate::strutil::lemma_char_inj(hash_field[j], '|');
        crate::strutil::lemma_char_inj(hash_field[j], ' ');
    }
    if target is Some {
        lemma_pool_string_parse(target->Some_0);
    }
    assert(line =~= ts + "|"@ + url + "|"@ + hash_field + tail);
    let p1 = ts.len() as int;
    // the first separator comes right after the target text
    assert(line[p1] == '|');
    assert forall|j: int| 0 <= j < p1 implies line[j] != '|' by {
        assert(line[j] == ts[j]);
    }
    crate::strutil::lemma_find_char_props(line, '|');
    let f1 = spec_find_char(line, '|');
    if f1 is None {
        assert(false);
    }
    let k1 = f1->Some_0;
    if k1 < p1 {
        assert(line[k1] != '|');
        assert(false);
    }
    if k1 > p1 {
        assert(line[p1] != '|');
        assert(false);
    }
    assert(line.take(p1) =~= ts);
    // the second separator comes right after the URL
    let rest1 = line.skip(p1 + 1);
    assert(rest1 =~= url + "|"@ + hash_field + tail);
    let p2rel = url.len() as int;
    assert(rest1[p2rel] == '|');
    assert forall|j: int| 0 <= j < p2rel implies rest1[j] != '|' by {
        assert(rest1[j] == url[j]);
    }
    crate::strutil::lemma_find_char_props(rest1, '|');
    let f2 = spec_find_char(rest1, '|');
    if f2 is None {
        assert(false);
    }
    let k2 = f2->Some_0;
    if k2 < p2rel {
        assert(rest1[k2] != '|');
        assert(false);
    }
    if k2 > p2rel {
        assert(rest1[p2rel] != '|');
        assert(false);
    }
    assert(line.subrange(p1 + 1, p1 + 1 + p2rel) =~= url);
    // the space, if any, comes right after the hash field
    let hash_start = p1 + 1 + p2rel + 1;
    let rest2 = line.skip(hash_start);
    assert(rest2 =~= hash_field + tail);
    crate::strutil::lemma_find_char_props(rest2, ' ');
    let fsp = spec_find_char(rest2, ' ');
    let hash_end = if target is Some {
        // no space anywhere on the line after the hash field
        if fsp is Some {
            let ks = fsp->Some_0;
            assert(rest2[ks] == hash_field[ks]);
            assert(false);
        }
        line.len() as int
    } else {
        let ps = hash_field.len() as int;
        assert(rest2[ps] == tail[0]);
        assert(tail[0] == ' ');
        if fsp is None {
            assert(false);
        }
        let ks = fsp->Some_0;
        if ks < ps {
            assert(rest2[ks] == hash_field[ks]);
            assert(false);
        }
        if ks > ps {
            assert(rest2[ps] != ' ');
            assert(false);
        }
        hash_start + ps
    };
    assert(line.subrange(hash_start, hash_start + hash_field.len()) =~= hash_field);
    assert(hash_end == hash_start + hash_field.len());
    let hash_spec = line.subrange(hash_start, hash_end);
    assert(hash_spec =~= hash_field);
    // the hash field decodes to the digest bytes
    let hex = if hash_spec.len() == 64 {
        hash_spec
    } else {
        url.subrange(
            spec_parse_u64(hash_spec)->Some_0 as int,
            spec_parse_u64(hash_spec)->Some_0 + 64,
        )
    };
    if found is Some {
        let i = found->Some_0;
        crate::strutil::lemma_dec_str_parses(i as u64);
        lemma_dec_str_short(i as nat);
        assert(hash_spec.len() != 64);
        assert(spec_parse_u64(hash_spec) == Some(i as u64));
        assert(hex =~= url.subrange(i, i + 64));
        assert forall|j: int| 0 <= j < 64 implies crate::util::spec_is_hex_char(#[trigger] hex[j])
            && crate::util::spec_hex_char_val(hex[j]) == crate::util::spec_hex_char_val(sh[j]) by {
            assert(spec_lower_char(url[i + j]) == sh[j]);
            assert(crate::util::spec_is_hex_char(sh[j]));
            lemma_hex_lower_char(url[i + j], sh[j]);
            assert(hex[j] == url[i + j]);
        }
        assert(spec_sha_hex_ok(hex));
        assert forall|k: int| 0 <= k < 32 implies spec_sha_bytes_of(hex)[k] == sha_bytes[k] by {
            assert(spec_sha_byte(hex, k) == spec_sha_byte(sh, k));
            assert(spec_sha_byte(sh, k) == sha_bytes[k]);
        }
        assert(spec_sha_bytes_of(hex) =~= sha_bytes);
    } else {
        assert(hash_spec.len() == 64);
        assert(hex == sh);
        assert(spec_sha_hex_ok(hex));
        assert forall|k: int| 0 <= k < 32 implies spec_sha_bytes_of(hex)[k] == sha_bytes[k] by {
            assert(spec_sha_byte(sh, k) == sha_bytes[k]);
        }
        assert(spec_sha_bytes_of(hex) =~= sha_bytes);
    }
    // dispatch on the payload kind
    match target {
        Some(t) => {
            assert(line.take(p1) == crate::packages::spec_pool_string(t));
            assert(spec_kind_from_prefix(line.take(p1)) == Some(t.kind));
            assert(hash_end == line.len());
        },
        None => {
            assert(line.take(p1).len() == 0);
            assert(hash_end < line.len());
            assert(line.skip(hash_end) =~= tail);
        },
    }
}

// --- Lock file consistency ---

/// The lines of a text, as `str::lines` yields them for `\n`-separated
/// text: split on `\n` with one trailing newline dropped.
pub open spec fn spec_lines_of(s: Seq<char>) -> Seq<Seq<char>> {
    if s.len() == 0 {
        Seq::<Seq<char>>::empty()
    } else if s.last() == '\n' {
        crate::util::spec_split_char(s.drop_last(), '\n')
    } else {
        crate::util::spec_split_char(s, '\n')
    }
}

/// Split a text into its lines.
pub fn split_lines<'a>(s: &'a str) -> (r: Vec<&'a str>)
    ensures
        r.deep_view() == spec_lines_of(s@),
{
    let n = s.unicode_len();
    if n == 0 {
        let r: Vec<&'a str> = Vec::new();
        proof {
            assert(r.deep_view() =~= Seq::<Seq<char>>::empty());
        }
        return r;
    }
    if s.get_char(n - 1) == '\n' {
        let body = s.substring_char(0, n - 1);
        proof {
            assert(body@ =~= s@.drop_last());
        }
        crate::util::split_on(body, '\n')
    } else {
        crate::util::split_on(s, '\n')
    }
}

/// The identities of the TopLevel entries of the given lines, in
/// order, skipping empty lines and anything that is not a TopLevel
/// entry.
pub open spec fn spec_toplevels(lines: Seq<Seq<char>>) -> Seq<(MsvcupPackageKind, Seq<char>)>
    decreases lines.len(),
{
    if lines.len() == 0 {
        Seq::<(MsvcupPackageKind, Seq<char>)>::empty()
    } else {
        let rest = spec_toplevels(lines.drop_first());
        let l = lines[0];
        if l.len() == 0 {
            rest
        } else {
            match spec_parse_line(l) {
                LockLineView::TopLevel { kind, version, .. } => seq![(kind, version)] + rest,
                _ => rest,
            }
        }
    }
}

/// The contribution of one line to the TopLevel sequence.
pub open spec fn spec_line_tops(l: Seq<char>) -> Seq<(MsvcupPackageKind, Seq<char>)> {
    if l.len() == 0 {
        Seq::<(MsvcupPackageKind, Seq<char>)>::empty()
    } else {
        match spec_parse_line(l) {
            LockLineView::TopLevel { kind, version, .. } => seq![(kind, version)],
            _ => Seq::<(MsvcupPackageKind, Seq<char>)>::empty(),
        }
    }
}

proof fn lemma_toplevels_snoc(lines: Seq<Seq<char>>, l: Seq<char>)
    ensures
        spec_toplevels(lines.push(l)) == spec_toplevels(lines) + spec_line_tops(l),
    decreases lines.len(),
{
    if lines.len() == 0 {
        assert(lines.push(l).drop_first() =~= Seq::<Seq<char>>::empty());
        assert(lines.push(l)[0] == l);
        assert(spec_toplevels(Seq::<Seq<char>>::empty()) =~= Seq::<(
            MsvcupPackageKind,
            Seq<char>,
        )>::empty());
        assert(spec_toplevels(lines.push(l)) =~= spec_line_tops(l));
        assert(spec_toplevels(lines) + spec_line_tops(l) =~= spec_line_tops(l));
    } else {
        assert(lines.push(l).drop_first() =~= lines.drop_first().push(l));
        lemma_toplevels_snoc(lines.drop_first(), l);
        assert(spec_toplevels(lines.push(l)) =~= spec_toplevels(lines) + spec_line_tops(l));
    }
}

/// Every non-empty line parses.
pub open spec fn spec_all_lines_ok(lines: Seq<Seq<char>>) -> bool {
    forall|i: int|
        0 <= i < lines.len() && (#[trigger] lines[i]).len() > 0 ==> !(spec_parse_line(lines[i])
            matches LockLineView::Bad(_))
}

/// A TopLevel identity names the same package as `p`: the same kind,
/// and a version comparing equal.
#[verifier::opaque]
pub open spec fn spec_id_order_eq(t: (MsvcupPackageKind, Seq<char>), p: MsvcupPackage) -> bool {
    t.0 == p.kind && crate::util::spec_order_dotted_numeric(p.version@, t.1) == Ordering::Equal
}

/// Some requested package names the identity `t`.
#[verifier::opaque]
pub open spec fn spec_top_matched(
    t: (MsvcupPackageKind, Seq<char>),
    req: Seq<MsvcupPackage>,
) -> bool {
    exists|k: int| 0 <= k < req.len() && spec_id_order_eq(t, #[trigger] req[k])
}

/// Some TopLevel identity names the requested package `p`.
#[verifier::opaque]
pub open spec fn spec_req_covered(
    p: MsvcupPackage,
    tops: Seq<(MsvcupPackageKind, Seq<char>)>,
) -> bool {
    exists|i: int| 0 <= i < tops.len() && spec_id_order_eq(#[trigger] tops[i], p)
}

/// The lock file's TopLevel sequence is exactly the requested list, in
/// order, each requested package matched by at least one consecutive
/// run of equal entries, with nothing extra or out of order.
pub open spec fn spec_lock_matches(
    tops: Seq<(MsvcupPackageKind, Seq<char>)>,
    req: Seq<MsvcupPackage>,
) -> bool {
    &&& forall|i: int| 0 <= i < tops.len() ==> spec_top_matched(#[trigger] tops[i], req)
    &&& forall|i: int, j: int, k1: int, k2: int|
        0 <= i <= j < tops.len() && 0 <= k1 < req.len() && 0 <= k2 < req.len()
            && spec_id_order_eq(#[trigger] tops[i], #[trigger] req[k1]) && spec_id_order_eq(
            #[trigger] tops[j],
            #[trigger] req[k2],
        ) ==> k1 <= k2
    &&& forall|k: int| 0 <= k < req.len() ==> spec_req_covered(#[trigger] req[k], tops)
}

/// Why a lock file does not satisfy the requested set.
#[derive(Debug)]
pub enum Mismatch {
    ParseError(LockLineError),
    MissingPackage(MsvcupPackage),
    ExtraPackage(MsvcupPackage),
}

/// Two versions comparing equal to a third compare equal.
proof fn lemma_order_dotted_eq_trans(a: Seq<char>, b: Seq<char>, c: Seq<char>)
    requires
        crate::util::spec_order_dotted_numeric(a, c) == Ordering::Equal,
        crate::util::spec_order_dotted_numeric(b, c) == Ordering::Equal,
    ensures
        crate::util::spec_order_dotted_numeric(a, b) == Ordering::Equal,
{
    crate::util::lemma_order_dotted_numeric_swap(b, c);
    crate::util::lemma_order_dotted_numeric_swap(a, c);
    crate::util::lemma_order_dotted_numeric_swap(a, b);
    crate::util::lemma_order_dotted_numeric_trans(a, c, b);
    crate::util::lemma_order_dotted_numeric_trans(b, c, a);
}

/// In a sorted requested list, an identity matches at most one entry.
proof fn lemma_match_unique(
    req: Seq<MsvcupPackage>,
    t: (MsvcupPackageKind, Seq<char>),
    k1: int,
    k2: int,
)
    requires
        crate::packages::spec_pkgs_sorted(req),
        0 <= k1 < req.len(),
        0 <= k2 < req.len(),
        spec_id_order_eq(t, req[k1]),
        spec_id_order_eq(t, req[k2]),
    ensures
        k1 == k2,
{
    reveal(spec_id_order_eq);
    if k1 != k2 {
        lemma_order_dotted_eq_trans(req[k1].version@, req[k2].version@, t.1);
        if k1 < k2 {
            assert(crate::packages::spec_pkg_order(req[k1], req[k2]) == Ordering::Less);
        } else {
            assert(crate::packages::spec_pkg_order(req[k2], req[k1]) == Ordering::Less);
            crate::util::lemma_order_dotted_numeric_swap(req[k1].version@, req[k2].version@);
        }
    }
}

/// A covered package has a witnessing entry.
proof fn lemma_covered_witness(p: MsvcupPackage, tops: Seq<(MsvcupPackageKind, Seq<char>)>)
    requires
        spec_req_covered(p, tops),
    ensures
        exists|e: int| 0 <= e < tops.len() && spec_id_order_eq(#[trigger] tops[e], p),
{
    reveal(spec_req_covered);
}

/// A matched entry has a witnessing requested package.
proof fn lemma_matched_witness(t: (MsvcupPackageKind, Seq<char>), req: Seq<MsvcupPackage>)
    requires
        spec_top_matched(t, req),
    ensures
        exists|k: int| 0 <= k < req.len() && spec_id_order_eq(t, #[trigger] req[k]),
{
    reveal(spec_top_matched);
}

/// The TopLevel sequence of a concatenation is the concatenation of
/// the TopLevel sequences.
proof fn lemma_toplevels_concat(a: Seq<Seq<char>>, b: Seq<Seq<char>>)
    ensures
        spec_toplevels(a + b) == spec_toplevels(a) + spec_toplevels(b),
    decreases a.len(),
{
    if a.len() == 0 {
        assert(a + b =~= b);
        assert(spec_toplevels(a) =~= Seq::<(MsvcupPackageKind, Seq<char>)>::empty());
        assert(spec_toplevels(a + b) =~= spec_toplevels(a) + spec_toplevels(b));
    } else {
        assert((a + b).drop_first() =~= a.drop_first() + b);
        assert((a + b)[0] == a[0]);
        lemma_toplevels_concat(a.drop_first(), b);
        assert(spec_toplevels(a + b) =~= spec_toplevels(a) + spec_toplevels(b));
    }
}

/// An identity names a package exactly when the packages compare equal.
proof fn lemma_id_eq_is_order_eq(p: MsvcupPackage, q: MsvcupPackage)
    ensures
        spec_id_order_eq((q.kind, q.version@), p) == (crate::packages::spec_pkg_order(p, q)
            == Ordering::Equal),
{
    reveal(spec_id_order_eq);
    if crate::packages::spec_kind_rank(p.kind) == crate::packages::spec_kind_rank(q.kind) {
        crate::packages::lemma_kind_rank_inj(p.kind, q.kind);
    }
}

/// A package comparing equal compares the same way against anything.
proof fn lemma_pkg_order_eq_congruent(a: MsvcupPackage, b: MsvcupPackage, c: MsvcupPackage)
    requires
        crate::packages::spec_pkg_order(a, b) == Ordering::Equal,
    ensures
        crate::packages::spec_pkg_order(a, c) == crate::packages::spec_pkg_order(b, c),
        crate::packages::spec_pkg_order(c, a) == crate::packages::spec_pkg_order(c, b),
{
    crate::packages::lemma_kind_rank_inj(a.kind, b.kind);
    if crate::packages::spec_kind_rank(a.kind) == crate::packages::spec_kind_rank(c.kind) {
        lemma_order_dotted_eq_congruent(a.version@, b.version@, c.version@);
    }
}

/// Versions comparing equal compare the same way against any third.
proof fn lemma_order_dotted_eq_congruent(a: Seq<char>, b: Seq<char>, c: Seq<char>)
    requires
        crate::util::spec_order_dotted_numeric(a, b) == Ordering::Equal,
    ensures
        crate::util::spec_order_dotted_numeric(a, c) == crate::util::spec_order_dotted_numeric(
            b,
            c,
        ),
        crate::util::spec_order_dotted_numeric(c, a) == crate::util::spec_order_dotted_numeric(
            c,
            b,
        ),
{
    crate::util::lemma_order_dotted_numeric_swap(a, b);
    crate::util::lemma_order_dotted_numeric_swap(a, c);
    crate::util::lemma_order_dotted_numeric_swap(b, c);
    let oac = crate::util::spec_order_dotted_numeric(a, c);
    let obc = crate::util::spec_order_dotted_numeric(b, c);
    if oac != Ordering::Greater {
        crate::util::lemma_order_dotted_numeric_trans(b, a, c);
    }
    if oac != Ordering::Less {
        crate::util::lemma_order_dotted_numeric_trans(c, a, b);
    }
    if obc != Ordering::Greater {
        crate::util::lemma_order_dotted_numeric_trans(a, b, c);
    }
    if obc != Ordering::Less {
        crate::util::lemma_order_dotted_numeric_trans(c, b, a);
    }
}

/// When the walk finds an entry ahead of an unmatched requested
/// package, the file cannot match: the current requested package is
/// matched nowhere, or only out of order.
#[verifier::rlimit(100)]
proof fn lemma_check_refutes_missing(
    fulltops: Seq<(MsvcupPackageKind, Seq<char>)>,
    oldtops: Seq<(MsvcupPackageKind, Seq<char>)>,
    resttops: Seq<(MsvcupPackageKind, Seq<char>)>,
    t: (MsvcupPackageKind, Seq<char>),
    pkg: MsvcupPackage,
    req: Seq<MsvcupPackage>,
    idx: int,
)
    requires
        fulltops == oldtops + seq![t] + resttops,
        t == (pkg.kind, pkg.version@),
        crate::packages::spec_pkgs_sorted(req),
        0 <= idx < req.len(),
        crate::packages::spec_pkg_order(req[idx], pkg) == Ordering::Less,
        forall|e: int|
            0 <= e < oldtops.len() ==> !spec_id_order_eq(#[trigger] oldtops[e], req[idx]),
    ensures
        !spec_lock_matches(fulltops, req),
{
    let tpos = oldtops.len() as int;
    if spec_lock_matches(fulltops, req) {
        assert(fulltops[tpos] == t);
        assert(spec_req_covered(req[idx], fulltops));
        lemma_covered_witness(req[idx], fulltops);
        let it = choose|it: int|
            0 <= it < fulltops.len() && spec_id_order_eq(#[trigger] fulltops[it], req[idx]);
        lemma_id_eq_is_order_eq(req[idx], pkg);
        if it < tpos {
            assert(fulltops[it] == oldtops[it]);
            assert(false);
        } else if it == tpos {
            assert(false);
        } else {
            assert(spec_top_matched(fulltops[tpos], req));
            lemma_matched_witness(t, req);
            let k0 = choose|k0: int| 0 <= k0 < req.len() && spec_id_order_eq(t, #[trigger] req[k0]);
            lemma_id_eq_is_order_eq(req[k0], pkg);
            assert(crate::packages::spec_pkg_order(req[k0], pkg) == Ordering::Equal);
            if k0 < idx {
                lemma_pkg_order_eq_congruent(req[k0], pkg, req[idx]);
                crate::packages::lemma_pkg_order_swap(req[k0], req[idx]);
                assert(false);
            } else if k0 == idx {
                assert(false);
            } else {
                assert(spec_id_order_eq(fulltops[tpos], req[k0]));
                assert(spec_id_order_eq(fulltops[it], req[idx]));
                assert(k0 <= idx);
                assert(false);
            }
        }
    }
}

/// When the walk finds an entry past the last requested package, the
/// file cannot match: the entry belongs to no requested package.
#[verifier::rlimit(100)]
proof fn lemma_check_refutes_extra_low(
    fulltops: Seq<(MsvcupPackageKind, Seq<char>)>,
    oldtops: Seq<(MsvcupPackageKind, Seq<char>)>,
    resttops: Seq<(MsvcupPackageKind, Seq<char>)>,
    t: (MsvcupPackageKind, Seq<char>),
    pkg: MsvcupPackage,
    req: Seq<MsvcupPackage>,
    idx: int,
)
    requires
        fulltops == oldtops + seq![t] + resttops,
        t == (pkg.kind, pkg.version@),
        crate::packages::spec_pkgs_sorted(req),
        0 <= idx < req.len(),
        idx == req.len() - 1,
        crate::packages::spec_pkg_order(req[idx], pkg) == Ordering::Less,
    ensures
        !spec_lock_matches(fulltops, req),
{
    let tpos = oldtops.len() as int;
    if spec_lock_matches(fulltops, req) {
        assert(fulltops[tpos] == t);
        assert(spec_top_matched(fulltops[tpos], req));
        lemma_matched_witness(t, req);
        let k0 = choose|k0: int| 0 <= k0 < req.len() && spec_id_order_eq(t, #[trigger] req[k0]);
        lemma_id_eq_is_order_eq(req[k0], pkg);
        lemma_id_eq_is_order_eq(req[idx], pkg);
        if k0 < idx {
            lemma_pkg_order_eq_congruent(req[k0], pkg, req[idx]);
            crate::packages::lemma_pkg_order_swap(req[k0], req[idx]);
        }
        assert(false);
    }
}

/// When the walk finds an entry ordered before the current requested
/// package, the file cannot match: the entry is matched nowhere, or
/// only out of order.
#[verifier::rlimit(100)]
proof fn lemma_check_refutes_extra_high(
    fulltops: Seq<(MsvcupPackageKind, Seq<char>)>,
    oldtops: Seq<(MsvcupPackageKind, Seq<char>)>,
    resttops: Seq<(MsvcupPackageKind, Seq<char>)>,
    t: (MsvcupPackageKind, Seq<char>),
    pkg: MsvcupPackage,
    req: Seq<MsvcupPackage>,
    idx: int,
    counted: bool,
)
    requires
        fulltops == oldtops + seq![t] + resttops,
        t == (pkg.kind, pkg.version@),
        crate::packages::spec_pkgs_sorted(req),
        0 <= idx < req.len(),
        crate::packages::spec_pkg_order(req[idx], pkg) == Ordering::Greater,
        counted ==> spec_req_covered(req[idx], oldtops),
        !counted ==> (oldtops.len() == 0 && idx == 0) || crate::packages::spec_pkg_order(
            req[idx - 1],
            pkg,
        ) == Ordering::Less,
    ensures
        !spec_lock_matches(fulltops, req),
{
    let tpos = oldtops.len() as int;
    if spec_lock_matches(fulltops, req) {
        assert(fulltops[tpos] == t);
        assert(spec_top_matched(fulltops[tpos], req));
        lemma_matched_witness(t, req);
        let k0 = choose|k0: int| 0 <= k0 < req.len() && spec_id_order_eq(t, #[trigger] req[k0]);
        lemma_id_eq_is_order_eq(req[k0], pkg);
        lemma_id_eq_is_order_eq(req[idx], pkg);
        assert(crate::packages::spec_pkg_order(req[k0], pkg) == Ordering::Equal);
        if k0 > idx {
            lemma_pkg_order_eq_congruent(req[k0], pkg, req[idx]);
            assert(false);
        } else if k0 == idx {
            assert(false);
        } else {
            if counted {
                lemma_covered_witness(req[idx], oldtops);
                let e = choose|e: int|
                    0 <= e < oldtops.len() && spec_id_order_eq(#[trigger] oldtops[e], req[idx]);
                assert(fulltops[e] == oldtops[e]);
                assert(spec_id_order_eq(fulltops[e], req[idx]));
                assert(spec_id_order_eq(fulltops[tpos], req[k0]));
                assert(idx <= k0);
                assert(false);
            } else {
                if oldtops.len() == 0 && idx == 0 {
                    assert(false);
                } else {
                    if k0 == idx - 1 {
                        assert(false);
                    } else {
                        lemma_pkg_order_eq_congruent(req[k0], pkg, req[idx - 1]);
                        crate::packages::lemma_pkg_order_swap(req[k0], req[idx - 1]);
                        assert(false);
                    }
                }
            }
        }
    }
}

/// Check whether a lock file's TopLevel entries are exactly the
/// requested packages, in order, each present at least once.  `None`
/// means the lock file satisfies the request.
#[verifier::rlimit(100)]
pub fn check_lock_file_pkgs(lock_file_content: &str, msvcup_pkgs: &Vec<MsvcupPackage>) -> (r:
    Option<Mismatch>)
    requires
        msvcup_pkgs@.len() > 0,
        crate::packages::spec_pkgs_sorted(msvcup_pkgs@),
    ensures
        r is None <==> spec_all_lines_ok(spec_lines_of(lock_file_content@)) && spec_lock_matches(
            spec_toplevels(spec_lines_of(lock_file_content@)),
            msvcup_pkgs@,
        ),
        r matches Some(Mismatch::ParseError(e)) ==> !spec_all_lines_ok(
            spec_lines_of(lock_file_content@),
        ),
        r matches Some(Mismatch::MissingPackage(p)) ==> exists|k: int|
            0 <= k < msvcup_pkgs@.len() && (#[trigger] msvcup_pkgs@[k]).kind == p.kind
                && msvcup_pkgs@[k].version@ == p.version@,
        r matches Some(Mismatch::ExtraPackage(p)) ==> exists|e: int|
            0 <= e < spec_toplevels(spec_lines_of(lock_file_content@)).len()
                && #[trigger] spec_toplevels(spec_lines_of(lock_file_content@))[e] == (
            p.kind,
            p.version@,
            ),
{
    let lines = split_lines(lock_file_content);
    let ghost ldv = lines.deep_view();
    let nl = lines.len();
    let np = msvcup_pkgs.len();
    let mut idx: usize = 0;
    let mut match_count: usize = 0;
    let mut li: usize = 0;
    proof {
        assert(ldv.take(0) =~= Seq::<Seq<char>>::empty());
        assert(spec_toplevels(Seq::<Seq<char>>::empty()) =~= Seq::<(
            MsvcupPackageKind,
            Seq<char>,
        )>::empty());
    }
    while li < nl
        invariant
            0 <= li <= nl,
            nl == ldv.len(),
            ldv == lines.deep_view(),
            ldv == spec_lines_of(lock_file_content@),
            np == msvcup_pkgs@.len(),
            np > 0,
            crate::packages::spec_pkgs_sorted(msvcup_pkgs@),
            0 <= idx < np,
            // all processed lines parse
            forall|i: int|
                0 <= i < li && (#[trigger] ldv[i]).len() > 0 ==> !(spec_parse_line(ldv[i])
                    matches LockLineView::Bad(_)),
            // every requested package before idx is covered
            forall|k: int|
                0 <= k < idx ==> spec_req_covered(
                    #[trigger] msvcup_pkgs@[k],
                    spec_toplevels(ldv.take(li as int)),
                ),
            // the current package is covered as soon as it matched once
            match_count > 0 ==> spec_req_covered(
                msvcup_pkgs@[idx as int],
                spec_toplevels(ldv.take(li as int)),
            ),
            // before the first entry nothing has matched at all
            match_count == 0 ==> idx == 0 && spec_toplevels(ldv.take(li as int)).len() == 0,
            // every entry so far is matched, and only at or below idx
            forall|e: int|
                0 <= e < spec_toplevels(ldv.take(li as int)).len() ==> spec_top_matched(
                    #[trigger] spec_toplevels(ldv.take(li as int))[e],
                    msvcup_pkgs@,
                ),
            forall|e: int, k: int|
                0 <= e < spec_toplevels(ldv.take(li as int)).len() && 0 <= k < np
                    && spec_id_order_eq(
                    #[trigger] spec_toplevels(ldv.take(li as int))[e],
                    #[trigger] msvcup_pkgs@[k],
                ) ==> k <= idx,
            // entries so far are matched in requested order
            forall|e1: int, e2: int, k1: int, k2: int|
                0 <= e1 <= e2 < spec_toplevels(ldv.take(li as int)).len() && 0 <= k1 < np && 0 <= k2
                    < np && spec_id_order_eq(
                    #[trigger] spec_toplevels(ldv.take(li as int))[e1],
                    #[trigger] msvcup_pkgs@[k1],
                ) && spec_id_order_eq(
                    #[trigger] spec_toplevels(ldv.take(li as int))[e2],
                    #[trigger] msvcup_pkgs@[k2],
                ) ==> k1 <= k2,
        decreases nl - li,
    {
        let line: &str = lines[li];
        proof {
            assert(line@ == ldv[li as int]);
            assert(ldv.take(li + 1) =~= ldv.take(li as int).push(ldv[li as int]));
            lemma_toplevels_snoc(ldv.take(li as int), ldv[li as int]);
        }
        let ghost oldtops = spec_toplevels(ldv.take(li as int));
        if line.unicode_len() == 0 {
            proof {
                assert(spec_toplevels(ldv.take(li + 1)) =~= oldtops);
            }
            li = li + 1;
            continue ;
        }
        let parsed = match parse_lock_file_payload(line) {
            Ok(p) => p,
            Err(e) => {
                proof {
                    assert(ldv[li as int].len() > 0);
                    assert(spec_parse_line(ldv[li as int]) matches LockLineView::Bad(_));
                    assert(!spec_all_lines_ok(ldv));
                }
                return Some(Mismatch::ParseError(e));
            },
        };
        match parsed.url_kind {
            LockFilePayloadKind::Cab(_) => {
                proof {
                    assert(spec_toplevels(ldv.take(li + 1)) =~= oldtops);
                }
                li = li + 1;
                continue ;
            },
            LockFilePayloadKind::TopLevel(payload_pkg) => {
                let ghost t = (payload_pkg.kind, payload_pkg.version@);
                let ghost fulltops = spec_toplevels(ldv);
                let ghost resttops = spec_toplevels(ldv.skip(li + 1));
                proof {
                    assert(spec_line_tops(line@) =~= seq![t]);
                    assert(spec_toplevels(ldv.take(li + 1)) =~= oldtops.push(t));
                    assert(ldv =~= ldv.take(li as int) + ldv.skip(li as int));
                    lemma_toplevels_concat(ldv.take(li as int), ldv.skip(li as int));
                    let tail = ldv.skip(li as int);
                    assert(tail[0] == ldv[li as int]);
                    assert(tail.drop_first() =~= ldv.skip(li + 1));
                    assert(spec_toplevels(tail) =~= seq![t] + resttops);
                    assert(fulltops =~= oldtops + seq![t] + resttops);
                }
                loop
                    invariant_except_break
                        match_count > 0 ==> spec_req_covered(msvcup_pkgs@[idx as int], oldtops),
                    invariant
                        0 <= idx < np,
                        np == msvcup_pkgs@.len(),
                        np > 0,
                        t == (payload_pkg.kind, payload_pkg.version@),
                        fulltops == oldtops + seq![t] + resttops,
                        fulltops == spec_toplevels(spec_lines_of(lock_file_content@)),
                        match_count == 0 ==> (oldtops.len() == 0 && idx == 0)
                            || crate::packages::spec_pkg_order(
                            msvcup_pkgs@[idx - 1],
                            payload_pkg,
                        ) == Ordering::Less,
                        match_count == 0 ==> forall|e: int|
                            0 <= e < oldtops.len() ==> !spec_id_order_eq(
                                #[trigger] oldtops[e],
                                msvcup_pkgs@[idx as int],
                            ),
                        crate::packages::spec_pkgs_sorted(msvcup_pkgs@),
                        forall|k: int|
                            0 <= k < idx ==> spec_req_covered(#[trigger] msvcup_pkgs@[k], oldtops),
                        forall|e: int|
                            0 <= e < oldtops.len() ==> spec_top_matched(
                                #[trigger] oldtops[e],
                                msvcup_pkgs@,
                            ),
                        forall|e: int, k: int|
                            0 <= e < oldtops.len() && 0 <= k < np && spec_id_order_eq(
                                #[trigger] oldtops[e],
                                #[trigger] msvcup_pkgs@[k],
                            ) ==> k <= idx,
                        forall|e1: int, e2: int, k1: int, k2: int|
                            0 <= e1 <= e2 < oldtops.len() && 0 <= k1 < np && 0 <= k2 < np
                                && spec_id_order_eq(
                                #[trigger] oldtops[e1],
                                #[trigger] msvcup_pkgs@[k1],
                            ) && spec_id_order_eq(
                                #[trigger] oldtops[e2],
                                #[trigger] msvcup_pkgs@[k2],
                            ) ==> k1 <= k2,
                    ensures
                        0 <= idx < np,
                        match_count > 0,
                        spec_id_order_eq(t, msvcup_pkgs@[idx as int]),
                        forall|k: int|
                            0 <= k < idx ==> spec_req_covered(#[trigger] msvcup_pkgs@[k], oldtops),
                        forall|e: int, k: int|
                            0 <= e < oldtops.len() && 0 <= k < np && spec_id_order_eq(
                                #[trigger] oldtops[e],
                                #[trigger] msvcup_pkgs@[k],
                            ) ==> k <= idx,
                        forall|e1: int, e2: int, k1: int, k2: int|
                            0 <= e1 <= e2 < oldtops.len() && 0 <= k1 < np && 0 <= k2 < np
                                && spec_id_order_eq(
                                #[trigger] oldtops[e1],
                                #[trigger] msvcup_pkgs@[k1],
                            ) && spec_id_order_eq(
                                #[trigger] oldtops[e2],
                                #[trigger] msvcup_pkgs@[k2],
                            ) ==> k1 <= k2,
                    decreases np - idx,
                {
                    let probe: &MsvcupPackage = &msvcup_pkgs[idx];
                    match MsvcupPackage::order(probe, &payload_pkg) {
                        Ordering::Equal => {
                            proof {
                                crate::packages::lemma_kind_rank_inj(
                                    probe.kind,
                                    payload_pkg.kind,
                                );
                                lemma_id_eq_is_order_eq(msvcup_pkgs@[idx as int], payload_pkg);
                            }
                            if match_count < usize::MAX {
                                match_count = match_count + 1;
                            }
                            break ;
                        },
                        Ordering::Less => {
                            if match_count == 0 {
                                proof {
                                    lemma_check_refutes_missing(
                                        fulltops,
                                        oldtops,
                                        resttops,
                                        t,
                                        payload_pkg,
                                        msvcup_pkgs@,
                                        idx as int,
                                    );
                                }
                                let p = msvcup_pkgs[idx].duplicate();
                                proof {
                                    assert(msvcup_pkgs@[idx as int].kind == p.kind
                                        && msvcup_pkgs@[idx as int].version@ == p.version@);
                                }
                                return Some(Mismatch::MissingPackage(p));
                            }
                            if idx + 1 == np {
                                proof {
                                    lemma_check_refutes_extra_low(
                                        fulltops,
                                        oldtops,
                                        resttops,
                                        t,
                                        payload_pkg,
                                        msvcup_pkgs@,
                                        idx as int,
                                    );
                                    assert(fulltops[oldtops.len() as int] == (
                                        payload_pkg.kind,
                                        payload_pkg.version@,
                                    ));
                                }
                                return Some(Mismatch::ExtraPackage(payload_pkg));
                            }
                            proof {
                                assert forall|e: int|
                                    0 <= e < oldtops.len() implies !spec_id_order_eq(
                                    #[trigger] oldtops[e],
                                    msvcup_pkgs@[idx + 1],
                                ) by {
                                    if spec_id_order_eq(oldtops[e], msvcup_pkgs@[idx + 1]) {
                                        assert(idx + 1 <= idx);
                                    }
                                }
                            }
                            idx = idx + 1;
                            match_count = 0;
                        },
                        Ordering::Greater => {
                            proof {
                                lemma_check_refutes_extra_high(
                                    fulltops,
                                    oldtops,
                                    resttops,
                                    t,
                                    payload_pkg,
                                    msvcup_pkgs@,
                                    idx as int,
                                    match_count > 0,
                                );
                                assert(fulltops[oldtops.len() as int] == (
                                    payload_pkg.kind,
                                    payload_pkg.version@,
                                ));
                            }
                            return Some(Mismatch::ExtraPackage(payload_pkg));
                        },
                    }
                }
                proof {
                    let newtops = oldtops.push(t);
                    assert(newtops[newtops.len() - 1] == t);
                    assert forall|e: int|
                        0 <= e < newtops.len() implies spec_top_matched(
                        #[trigger] newtops[e],
                        msvcup_pkgs@,
                    ) by {
                        if e < oldtops.len() {
                            assert(newtops[e] == oldtops[e]);
                        } else {
                            assert(newtops[e] == t);
                            assert(spec_top_matched(t, msvcup_pkgs@)) by {
                                reveal(spec_top_matched);
                                assert(spec_id_order_eq(t, msvcup_pkgs@[idx as int]));
                            }
                        }
                    }
                    assert forall|e: int, k: int|
                        0 <= e < newtops.len() && 0 <= k < np && spec_id_order_eq(
                            #[trigger] newtops[e],
                            #[trigger] msvcup_pkgs@[k],
                        ) implies k <= idx by {
                        if e < oldtops.len() {
                            assert(newtops[e] == oldtops[e]);
                        } else {
                            assert(newtops[e] == t);
                            lemma_match_unique(msvcup_pkgs@, t, k, idx as int);
                        }
                    }
                    assert forall|e1: int, e2: int, k1: int, k2: int|
                        0 <= e1 <= e2 < newtops.len() && 0 <= k1 < np && 0 <= k2 < np
                            && spec_id_order_eq(
                            #[trigger] newtops[e1],
                            #[trigger] msvcup_pkgs@[k1],
                        ) && spec_id_order_eq(
                            #[trigger] newtops[e2],
                            #[trigger] msvcup_pkgs@[k2],
                        ) implies k1 <= k2 by {
                        if e2 < oldtops.len() {
                            assert(newtops[e1] == oldtops[e1]);
                            assert(newtops[e2] == oldtops[e2]);
                        } else if e1 < oldtops.len() {
                            assert(newtops[e1] == oldtops[e1]);
                            assert(newtops[e2] == t);
                            lemma_match_unique(msvcup_pkgs@, t, k2, idx as int);
                        } else {
                            assert(newtops[e1] == t);
                            assert(newtops[e2] == t);
                            lemma_match_unique(msvcup_pkgs@, t, k1, idx as int);
                            lemma_match_unique(msvcup_pkgs@, t, k2, idx as int);
                        }
                    }
                    assert forall|k: int|
                        0 <= k < idx implies spec_req_covered(
                        #[trigger] msvcup_pkgs@[k],
                        newtops,
                    ) by {
                        lemma_covered_push(msvcup_pkgs@[k], oldtops, t);
                    }
                    assert(spec_req_covered(msvcup_pkgs@[idx as int], newtops)) by {
                        reveal(spec_req_covered);
                        assert(newtops[newtops.len() - 1] == t);
                        assert(spec_id_order_eq(t, msvcup_pkgs@[idx as int]));
                    }
                }
                li = li + 1;
            },
        }
    }
    if idx + 1 < np || match_count == 0 {
        proof {
            let req = msvcup_pkgs@;
            let ftops = spec_toplevels(ldv);
            assert(ldv.take(nl as int) =~= ldv);
            if spec_lock_matches(ftops, req) {
                if match_count == 0 {
                    assert(ftops.len() == 0);
                    assert(spec_req_covered(req[idx as int], ftops));
                    lemma_covered_witness(req[idx as int], ftops);
                    let e = choose|e: int|
                        0 <= e < ftops.len() && spec_id_order_eq(#[trigger] ftops[e], req[idx as int]);
                    assert(false);
                } else {
                    assert(spec_req_covered(req[np - 1], ftops));
                    lemma_covered_witness(req[np - 1], ftops);
                    let e = choose|e: int|
                        0 <= e < ftops.len() && spec_id_order_eq(#[trigger] ftops[e], req[np - 1]);
                    assert(np - 1 <= idx);
                    assert(false);
                }
            }
        }
        let p = msvcup_pkgs[idx].duplicate();
        proof {
            assert(msvcup_pkgs@[idx as int].kind == p.kind && msvcup_pkgs@[idx as int].version@
                == p.version@);
        }
        return Some(Mismatch::MissingPackage(p));
    }
    proof {
        assert(ldv.take(nl as int) =~= ldv);
        let tops = spec_toplevels(ldv);
        assert forall|k: int| 0 <= k < np implies spec_req_covered(
            #[trigger] msvcup_pkgs@[k],
            tops,
        ) by {
            assert(k < idx || k == idx);
        }
    }
    None
}

/// Coverage survives appending another entry.
proof fn lemma_covered_push(
    p: MsvcupPackage,
    tops: Seq<(MsvcupPackageKind, Seq<char>)>,
    t: (MsvcupPackageKind, Seq<char>),
)
    requires
        spec_req_covered(p, tops),
    ensures
        spec_req_covered(p, tops.push(t)),
{
    reveal(spec_req_covered);
    let i = choose|i: int| 0 <= i < tops.len() && spec_id_order_eq(#[trigger] tops[i], p);
    assert(tops.push(t)[i] == tops[i]);
}

} // verus!
