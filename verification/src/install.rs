//! The atomic install engine's decision logic: the idempotence gate,
//! crash recovery from a stale in-progress manifest, finalizing the
//! durable manifest, cache entry naming, zip entry planning, and the
//! generated vcvars scripts.
//!
//! Paths computed here use `/` as the separator; the surrounding
//! program converts where the platform wants another one.
use vstd::prelude::*;

verus! {

use vstd::string::StrSliceExecFns;
use vstd::string::StringExecFns;
use crate::arch::Arch;
use crate::arch::spec_arch_str;
use crate::sha::Sha256;
use crate::sha::spec_sha_hex;
use crate::strutil::spec_has_prefix;
use crate::strutil::spec_find_char;
use crate::strutil::str_has_prefix;
use crate::strutil::str_eq;
use crate::strutil::string_push;
use crate::strutil::find_char_from;
use crate::lockfile_parse::spec_lines_of;
use crate::lockfile_parse::split_lines;
use crate::util::spec_percent_decode;
use crate::util::alloc_url_percent_decoded;

/// The tool's data directory.
pub struct MsvcupDir {
    pub root_path: String,
}

/// `root` with each part appended behind a `/`.
pub open spec fn spec_path_join(root: Seq<char>, parts: Seq<Seq<char>>) -> Seq<char>
    decreases parts.len(),
{
    if parts.len() == 0 {
        root
    } else {
        spec_path_join(root + "/"@ + parts[0], parts.drop_first())
    }
}

impl MsvcupDir {
    /// A path under the data directory.
    pub fn path(&self, parts: &[&str]) -> (r: String)
        ensures
            r@ == spec_path_join(self.root_path@, parts.deep_view()),
    {
        let ghost pdv = parts.deep_view();
        let mut p = String::new();
        p.append(self.root_path.as_str());
        let n = parts.len();
        let mut i: usize = 0;
        proof {
            assert(pdv.skip(0) =~= pdv);
        }
        while i < n
            invariant
                0 <= i <= n,
                n == pdv.len(),
                pdv == parts.deep_view(),
                spec_path_join(self.root_path@, pdv) == spec_path_join(p@, pdv.skip(i as int)),
            decreases n - i,
        {
            proof {
                assert(pdv.skip(i as int)[0] == pdv[i as int]);
                assert(pdv.skip(i as int).drop_first() =~= pdv.skip(i + 1));
            }
            p.append("/");
            let part: &str = parts[i];
            proof {
                assert(part@ == pdv[i as int]);
            }
            p.append(part);
            i = i + 1;
        }
        proof {
            assert(pdv.skip(n as int) =~= Seq::<Seq<char>>::empty());
        }
        p
    }
}

/// The cache entry path `<cache_dir>/<sha256-hex>-<basename>`.
pub fn cache_entry_path(cache_dir: &str, sha256: &Sha256, name: &str) -> (r: String)
    ensures
        r@ == cache_dir@ + "/"@ + spec_sha_hex(sha256.bytes@) + "-"@ + name@,
{
    let mut p = String::new();
    p.append(cache_dir);
    p.append("/");
    let hex = sha256.to_hex();
    p.append(hex.as_str());
    p.append("-");
    p.append(name);
    p
}

/// One line of the in-progress install manifest: `new <path>` for a
/// file this payload created, `add <path>` for one that already
/// existed.
pub fn manifest_entry_line(is_new: bool, path: &str) -> (r: String)
    ensures
        is_new ==> r@ == "new "@ + path@,
        !is_new ==> r@ == "add "@ + path@,
{
    let mut out = String::new();
    if is_new {
        out.append("new ");
    } else {
        out.append("add ");
    }
    out.append(path);
    out
}

/// The paths named on `new` lines after the first line of an
/// in-progress manifest: what crash recovery deletes.
pub open spec fn spec_new_paths(lines: Seq<Seq<char>>) -> Seq<Seq<char>>
    decreases lines.len(),
{
    if lines.len() == 0 {
        Seq::<Seq<char>>::empty()
    } else {
        let rest = spec_new_paths(lines.drop_first());
        let l = lines[0];
        if l.len() > 0 && spec_has_prefix(l, "new "@) {
            seq![l.skip(4)] + rest
        } else {
            rest
        }
    }
}

/// What a stale `current` manifest obliges recovery to delete: the
/// `new` files; `add` files are left untouched.
pub open spec fn spec_recovery_deletions(content: Seq<char>) -> Seq<Seq<char>> {
    let lines = spec_lines_of(content);
    if lines.len() == 0 {
        Seq::<Seq<char>>::empty()
    } else {
        spec_new_paths(lines.drop_first())
    }
}

proof fn lemma_new_paths_snoc(lines: Seq<Seq<char>>, l: Seq<char>)
    ensures
        spec_new_paths(lines.push(l)) == spec_new_paths(lines) + (if l.len() > 0
            && spec_has_prefix(l, "new "@) {
            seq![l.skip(4)]
        } else {
            Seq::<Seq<char>>::empty()
        }),
    decreases lines.len(),
{
    let added: Seq<Seq<char>> = if l.len() > 0 && spec_has_prefix(l, "new "@) {
        seq![l.skip(4)]
    } else {
        Seq::<Seq<char>>::empty()
    };
    if lines.len() == 0 {
        assert(lines.push(l).drop_first() =~= Seq::<Seq<char>>::empty());
        assert(lines.push(l)[0] == l);
        assert(spec_new_paths(Seq::<Seq<char>>::empty()) =~= Seq::<Seq<char>>::empty());
        assert(spec_new_paths(lines.push(l)) =~= added);
        assert(spec_new_paths(lines) + added =~= added);
    } else {
        assert(lines.push(l).drop_first() =~= lines.drop_first().push(l));
        lemma_new_paths_snoc(lines.drop_first(), l);
        assert(spec_new_paths(lines.push(l)) =~= spec_new_paths(lines) + added);
    }
}

/// The files a stale in-progress manifest obliges recovery to delete.
pub fn recovery_deletions(current_content: &str) -> (r: Vec<String>)
    ensures
        r.deep_view() == spec_recovery_deletions(current_content@),
{
    let lines = split_lines(current_content);
    let ghost ldv = lines.deep_view();
    let mut out: Vec<String> = Vec::new();
    let nl = lines.len();
    if nl == 0 {
        proof {
            assert(out.deep_view() =~= Seq::<Seq<char>>::empty());
        }
        return out;
    }
    let mut li: usize = 1;
    proof {
        assert(ldv.drop_first().take(0) =~= Seq::<Seq<char>>::empty());
        assert(spec_new_paths(Seq::<Seq<char>>::empty()) =~= Seq::<Seq<char>>::empty());
        assert(out.deep_view() =~= Seq::<Seq<char>>::empty());
    }
    while li < nl
        invariant
            1 <= li <= nl,
            nl == ldv.len(),
            nl > 0,
            ldv == lines.deep_view(),
            out.deep_view() == spec_new_paths(ldv.drop_first().take(li - 1)),
        decreases nl - li,
    {
        let line: &str = lines[li];
        proof {
            assert(line@ == ldv[li as int]);
            assert(ldv.drop_first()[li - 1] == ldv[li as int]);
            assert(ldv.drop_first().take(li as int) =~= ldv.drop_first().take(li - 1).push(
                ldv[li as int],
            ));
            lemma_new_paths_snoc(ldv.drop_first().take(li - 1), ldv[li as int]);
        }
        let n = line.unicode_len();
        if n > 0 && str_has_prefix(line, "new ") {
            proof {
                reveal_strlit("new ");
            }
            let path = line.substring_char(4, n);
            proof {
                assert(path@ =~= line@.skip(4));
            }
            let ghost olddv = out.deep_view();
            out.push(path.to_owned());
            proof {
                assert(out.deep_view() =~= olddv.push(path@));
                assert(out.deep_view() =~= spec_new_paths(ldv.drop_first().take(li as int)));
            }
        } else {
            proof {
                assert(out.deep_view() =~= spec_new_paths(ldv.drop_first().take(li as int)));
            }
        }
        li = li + 1;
    }
    proof {
        assert(ldv.drop_first().take(nl - 1) =~= ldv.drop_first());
    }
    out
}

/// The finalized `.files` manifest: the `new`/`add` lines of the
/// in-progress manifest, each reduced to its path, newline-terminated;
/// the first (bookkeeping) line is dropped.
pub open spec fn spec_finalized_lines(lines: Seq<Seq<char>>) -> Seq<char>
    decreases lines.len(),
{
    if lines.len() == 0 {
        Seq::<char>::empty()
    } else {
        let rest = spec_finalized_lines(lines.drop_first());
        let l = lines[0];
        if l.len() > 0 && spec_has_prefix(l, "new "@) {
            l.skip(4) + "\n"@ + rest
        } else if l.len() > 0 && spec_has_prefix(l, "add "@) {
            l.skip(4) + "\n"@ + rest
        } else {
            rest
        }
    }
}

pub open spec fn spec_finalized_manifest(content: Seq<char>) -> Seq<char> {
    let lines = spec_lines_of(content);
    if lines.len() == 0 {
        Seq::<char>::empty()
    } else {
        spec_finalized_lines(lines.drop_first())
    }
}

proof fn lemma_finalized_snoc(lines: Seq<Seq<char>>, l: Seq<char>)
    ensures
        spec_finalized_lines(lines.push(l)) == spec_finalized_lines(lines) + (if l.len() > 0
            && spec_has_prefix(l, "new "@) {
            l.skip(4) + "\n"@
        } else if l.len() > 0 && spec_has_prefix(l, "add "@) {
            l.skip(4) + "\n"@
        } else {
            Seq::<char>::empty()
        }),
    decreases lines.len(),
{
    let added: Seq<char> = if l.len() > 0 && spec_has_prefix(l, "new "@) {
        l.skip(4) + "\n"@
    } else if l.len() > 0 && spec_has_prefix(l, "add "@) {
        l.skip(4) + "\n"@
    } else {
        Seq::<char>::empty()
    };
    if lines.len() == 0 {
        assert(lines.push(l).drop_first() =~= Seq::<Seq<char>>::empty());
        assert(lines.push(l)[0] == l);
        assert(spec_finalized_lines(Seq::<Seq<char>>::empty()) =~= Seq::<char>::empty());
        assert(spec_finalized_lines(lines.push(l)) =~= added);
        assert(spec_finalized_lines(lines) + added =~= added);
    } else {
        assert(lines.push(l).drop_first() =~= lines.drop_first().push(l));
        lemma_finalized_snoc(lines.drop_first(), l);
        assert(spec_finalized_lines(lines.push(l)) =~= spec_finalized_lines(lines) + added);
    }
}

/// Rewrite an in-progress manifest into the durable `.files` form.
pub fn finalize_manifest_content(current_content: &str) -> (r: String)
    ensures
        r@ == spec_finalized_manifest(current_content@),
{
    let lines = split_lines(current_content);
    let ghost ldv = lines.deep_view();
    let mut out = String::new();
    let nl = lines.len();
    if nl == 0 {
        proof {
            assert(out@ =~= Seq::<char>::empty());
        }
        return out;
    }
    let mut li: usize = 1;
    proof {
        assert(ldv.drop_first().take(0) =~= Seq::<Seq<char>>::empty());
        assert(spec_finalized_lines(Seq::<Seq<char>>::empty()) =~= Seq::<char>::empty());
        assert(out@ =~= Seq::<char>::empty());
    }
    while li < nl
        invariant
            1 <= li <= nl,
            nl == ldv.len(),
            nl > 0,
            ldv == lines.deep_view(),
            out@ == spec_finalized_lines(ldv.drop_first().take(li - 1)),
        decreases nl - li,
    {
        let line: &str = lines[li];
        proof {
            assert(line@ == ldv[li as int]);
            assert(ldv.drop_first()[li - 1] == ldv[li as int]);
            assert(ldv.drop_first().take(li as int) =~= ldv.drop_first().take(li - 1).push(
                ldv[li as int],
            ));
            lemma_finalized_snoc(ldv.drop_first().take(li - 1), ldv[li as int]);
        }
        let n = line.unicode_len();
        if n > 0 && (str_has_prefix(line, "new ") || str_has_prefix(line, "add ")) {
            proof {
                reveal_strlit("new ");
                reveal_strlit("add ");
            }
            let path = line.substring_char(4, n);
            proof {
                assert(path@ =~= line@.skip(4));
            }
            out.append(path);
            out.append("\n");
        }
        proof {
            assert(out@ =~= spec_finalized_lines(ldv.drop_first().take(li as int)));
        }
        li = li + 1;
    }
    proof {
        assert(ldv.drop_first().take(nl - 1) =~= ldv.drop_first());
    }
    out
}

/// What entering an install must do, given the durable and the
/// in-progress state found on disk.
pub enum InstallStartAction {
    /// The payload's `.files` manifest exists: installed, nothing to do.
    Skip,
    /// Install, after deleting the named leftovers of a crashed run.
    Proceed { deletions: Vec<String> },
}

/// The idempotence gate and crash recovery of the install engine: a
/// present `.files` manifest makes the install a no-op; otherwise a
/// stale `current` manifest names the files to delete first.
pub fn start_install_plan(files_manifest_exists: bool, stale_current: Option<&str>) -> (r:
    InstallStartAction)
    ensures
        files_manifest_exists <==> r is Skip,
        !files_manifest_exists ==> (r matches InstallStartAction::Proceed { deletions }
            && deletions.deep_view() == (match stale_current {
            Some(c) => spec_recovery_deletions(c@),
            None => Seq::<Seq<char>>::empty(),
        })),
{
    if files_manifest_exists {
        return InstallStartAction::Skip;
    }
    let deletions = match stale_current {
        Some(c) => recovery_deletions(c),
        None => Vec::new(),
    };
    proof {
        if stale_current is None {
            assert(deletions.deep_view() =~= Seq::<Seq<char>>::empty());
        }
    }
    InstallStartAction::Proceed { deletions }
}

// --- Zip extraction planning ---

#[derive(Debug, Clone, Copy)]
pub enum ZipKind {
    Vsix,
    Zip,
}

/// What to do with one archive entry.
pub enum ZipEntryPlan {
    /// Not extracted: empty, absolute, outside the prefix, a directory.
    Skip,
    /// Extract to `rel_path` under the install root; `root_dir` is the
    /// stripped root seen so far, to carry to the next entry.
    Install { rel_path: String, root_dir: Option<String> },
}

#[derive(Debug, Clone, Copy, PartialEq, Eq, Structural)]
pub enum ZipEntryError {
    /// The entry name holds a `.` or `..` path component.
    DotComponent,
    /// Root stripping was asked for, but the entry has no directory.
    NoRootDir,
    /// Root stripping was asked for, and the entry's first directory
    /// differs from the previous entries' one.
    RootDirChanged,
}

/// The entry name with `\` separators turned into `/`.
pub open spec fn spec_norm_seps(s: Seq<char>) -> Seq<char> {
    Seq::new(
        s.len(),
        |i: int|
            if s[i] == '\\' {
                '/'
            } else {
                s[i]
            },
    )
}

/// The prefix an archive kind keeps.
pub open spec fn spec_zip_prefix(kind: ZipKind) -> Seq<char> {
    match kind {
        ZipKind::Vsix => "Contents/"@,
        ZipKind::Zip => Seq::<char>::empty(),
    }
}

/// What `zip_entry_plan` must decide for an entry name.
pub open spec fn spec_zip_entry_ok(
    raw_name: Seq<char>,
    kind: ZipKind,
    strip_root_dir: bool,
    last_root_dir: Option<Seq<char>>,
    r: Result<ZipEntryPlan, ZipEntryError>,
) -> bool {
    let filename = spec_norm_seps(raw_name);
    if filename.len() == 0 || filename[0] == '/' {
        r matches Ok(ZipEntryPlan::Skip)
    } else if exists|p: int|
        0 <= p < crate::util::spec_split_char(filename, '/').len() && (
        #[trigger] crate::util::spec_split_char(filename, '/')[p] == "."@
            || crate::util::spec_split_char(filename, '/')[p] == ".."@) {
        r matches Err(ZipEntryError::DotComponent)
    } else if !spec_has_prefix(filename, spec_zip_prefix(kind)) {
        r matches Ok(ZipEntryPlan::Skip)
    } else if filename.last() == '/' {
        r matches Ok(ZipEntryPlan::Skip)
    } else {
        let decoded = spec_percent_decode(filename.skip(spec_zip_prefix(kind).len() as int));
        if strip_root_dir {
            match spec_find_char(decoded, '/') {
                None => r matches Err(ZipEntryError::NoRootDir),
                Some(sep) => {
                    let root = decoded.take(sep);
                    if last_root_dir matches Some(lr) && lr != root {
                        r matches Err(ZipEntryError::RootDirChanged)
                    } else {
                        let sub = decoded.skip(sep);
                        let rel = if sub.len() > 0 && sub[0] == '/' {
                            sub.drop_first()
                        } else {
                            sub
                        };
                        r matches Ok(ZipEntryPlan::Install { rel_path, root_dir }) && rel_path@
                            == rel && (root_dir matches Some(rd) && rd@ == root)
                    }
                },
            }
        } else {
            let rel = if decoded.len() > 0 && decoded[0] == '/' {
                decoded.drop_first()
            } else {
                decoded
            };
            r matches Ok(ZipEntryPlan::Install { rel_path, root_dir }) && rel_path@ == rel && (
            match (root_dir, last_root_dir) {
                (Some(rd), Some(lr)) => rd@ == lr,
                (None, None) => true,
                _ => false,
            })
        }
    }
}

/// Normalize the separators of an entry name.
fn norm_seps(raw: &str) -> (r: String)
    ensures
        r@ == spec_norm_seps(raw@),
{
    let n = raw.unicode_len();
    let mut out = String::new();
    let mut i: usize = 0;
    while i < n
        invariant
            0 <= i <= n,
            n == raw@.len(),
            out@.len() == i,
            forall|j: int|
                0 <= j < i ==> out@[j] == (if raw@[j] == '\\' {
                    '/'
                } else {
                    raw@[j]
                }),
        decreases n - i,
    {
        let c = raw.get_char(i);
        if c == '\\' {
            string_push(&mut out, '/');
        } else {
            string_push(&mut out, c);
        }
        i = i + 1;
    }
    assert(out@ =~= spec_norm_seps(raw@));
    out
}

/// Decide how one archive entry is extracted: normalize separators,
/// refuse dot components, keep only the kind's prefix, skip
/// directories, percent-decode, and optionally strip the shared root
/// directory.
#[verifier::rlimit(60)]
pub fn zip_entry_plan(
    raw_name: &str,
    kind: ZipKind,
    strip_root_dir: bool,
    last_root_dir: Option<&str>,
) -> (r: Result<ZipEntryPlan, ZipEntryError>)
    ensures
        spec_zip_entry_ok(
            raw_name@,
            kind,
            strip_root_dir,
            match last_root_dir {
                Some(s) => Some(s@),
                None => None,
            },
            r,
        ),
{
    let filename = norm_seps(raw_name);
    let n = filename.as_str().unicode_len();
    if n == 0 || filename.as_str().get_char(0) == '/' {
        return Ok(ZipEntryPlan::Skip);
    }
    let parts = crate::util::split_on(filename.as_str(), '/');
    let ghost pdv = parts.deep_view();
    let np = parts.len();
    let mut pi: usize = 0;
    while pi < np
        invariant
            0 <= pi <= np,
            np == pdv.len(),
            pdv == parts.deep_view(),
            pdv == crate::util::spec_split_char(spec_norm_seps(raw_name@), '/'),
            spec_norm_seps(raw_name@).len() > 0,
            spec_norm_seps(raw_name@)[0] != '/',
            forall|p: int| 0 <= p < pi ==> #[trigger] pdv[p] != "."@ && pdv[p] != ".."@,
        decreases np - pi,
    {
        let part: &str = parts[pi];
        proof {
            assert(part@ == pdv[pi as int]);
        }
        if str_eq(part, ".") || str_eq(part, "..") {
            proof {
                let sp = crate::util::spec_split_char(spec_norm_seps(raw_name@), '/');
                assert(sp[pi as int] == "."@ || sp[pi as int] == ".."@);
            }
            return Err(ZipEntryError::DotComponent);
        }
        pi = pi + 1;
    }
    let prefix = match kind {
        ZipKind::Vsix => "Contents/",
        ZipKind::Zip => "",
    };
    proof {
        reveal_strlit("");
        assert(""@ =~= Seq::<char>::empty());
        assert(spec_zip_prefix(kind) == prefix@);
    }
    if !str_has_prefix(filename.as_str(), prefix) {
        return Ok(ZipEntryPlan::Skip);
    }
    if filename.as_str().get_char(n - 1) == '/' {
        return Ok(ZipEntryPlan::Skip);
    }
    let plen = prefix.unicode_len();
    let sub_path_encoded = filename.as_str().substring_char(plen, n);
    proof {
        assert(sub_path_encoded@ =~= spec_norm_seps(raw_name@).skip(prefix@.len() as int));
    }
    let decoded = alloc_url_percent_decoded(sub_path_encoded);
    let dn = decoded.as_str().unicode_len();
    if strip_root_dir {
        let sep_pos = match find_char_from(decoded.as_str(), 0, '/') {
            Some(i) => i,
            None => {
                proof {
                    assert(decoded@.skip(0) =~= decoded@);
                }
                return Err(ZipEntryError::NoRootDir);
            },
        };
        proof {
            assert(decoded@.skip(0) =~= decoded@);
        }
        let root = decoded.as_str().substring_char(0, sep_pos);
        proof {
            assert(root@ =~= decoded@.take(sep_pos as int));
        }
        match last_root_dir {
            Some(lr) => {
                if !str_eq(lr, root) {
                    return Err(ZipEntryError::RootDirChanged);
                }
            },
            None => {},
        }
        let sub = decoded.as_str().substring_char(sep_pos, dn);
        proof {
            assert(sub@ =~= decoded@.skip(sep_pos as int));
        }
        let sn = sub.unicode_len();
        let rel = if sn > 0 && sub.get_char(0) == '/' {
            let rel0 = sub.substring_char(1, sn);
            proof {
                assert(rel0@ =~= sub@.drop_first());
            }
            rel0
        } else {
            sub
        };
        Ok(ZipEntryPlan::Install { rel_path: rel.to_owned(), root_dir: Some(root.to_owned()) })
    } else {
        let rel = if dn > 0 && decoded.as_str().get_char(0) == '/' {
            let rel0 = decoded.as_str().substring_char(1, dn);
            proof {
                assert(rel0@ =~= decoded@.drop_first());
            }
            rel0.to_owned()
        } else {
            decoded
        };
        let root_dir = match last_root_dir {
            Some(lr) => Some(lr.to_owned()),
            None => None,
        };
        Ok(ZipEntryPlan::Install { rel_path: rel, root_dir })
    }
}

// --- Finishing a package: the vcvars scripts ---

#[derive(Debug, Clone, Copy)]
pub enum FinishKind {
    Msvc,
    Sdk,
}

/// The vcvars batch text for an MSVC install.
pub open spec fn spec_vcvars_msvc(v: Seq<char>, host: Seq<char>, target: Seq<char>) -> Seq<char> {
    "set \"INCLUDE=%~dp0VC\\Tools\\MSVC\\"@ + v + "\\include;%INCLUDE%\"\n"@
        + "set \"PATH=%~dp0VC\\Tools\\MSVC\\"@ + v + "\\bin\\Host"@ + host + "\\"@ + target
        + ";%PATH%\"\n"@ + "set \"LIB=%~dp0VC\\Tools\\MSVC\\"@ + v + "\\lib\\"@ + target
        + ";%LIB%\"\n"@
}

/// The vcvars batch text for a Windows SDK install.
pub open spec fn spec_vcvars_sdk(v: Seq<char>, host: Seq<char>, target: Seq<char>) -> Seq<char> {
    "set \"INCLUDE=%~dp0Windows Kits\\10\\Include\\"@ + v + "\\ucrt;"@
        + "%~dp0Windows Kits\\10\\Include\\"@ + v + "\\shared;"@
        + "%~dp0Windows Kits\\10\\Include\\"@ + v + "\\um;"@
        + "%~dp0Windows Kits\\10\\Include\\"@ + v + "\\winrt;"@
        + "%~dp0Windows Kits\\10\\Include\\"@ + v + "\\cppwinrt;"@ + "%INCLUDE%\"\n"@
        + "set \"PATH=%~dp0Windows Kits\\10\\bin\\"@ + v + "\\"@ + host + ";%PATH%\"\n"@
        + "set \"LIB=%~dp0Windows Kits\\10\\Lib\\"@ + v + "\\ucrt\\"@ + target
        + ";%~dp0Windows Kits\\10\\Lib\\"@ + v + "\\um\\"@ + target + ";%LIB%\"\n"@
}

/// Generate the vcvars batch file contents for one target CPU; the
/// host architecture is passed in by the caller.
pub fn generate_vcvars_bat(
    finish_kind: FinishKind,
    install_version: &str,
    host_arch: Arch,
    target_arch: Arch,
) -> (r: String)
    ensures
        (finish_kind matches FinishKind::Msvc) ==> r@ == spec_vcvars_msvc(
            install_version@,
            spec_arch_str(host_arch),
            spec_arch_str(target_arch),
        ),
        (finish_kind matches FinishKind::Sdk) ==> r@ == spec_vcvars_sdk(
            install_version@,
            spec_arch_str(host_arch),
            spec_arch_str(target_arch),
        ),
{
    let host = host_arch.as_str();
    let target = target_arch.as_str();
    let mut out = String::new();
    match finish_kind {
        FinishKind::Msvc => {
            out.append("set \"INCLUDE=%~dp0VC\\Tools\\MSVC\\");
            out.append(install_version);
            out.append("\\include;%INCLUDE%\"\n");
            out.append("set \"PATH=%~dp0VC\\Tools\\MSVC\\");
            out.append(install_version);
            out.append("\\bin\\Host");
            out.append(host);
            out.append("\\");
            out.append(target);
            out.append(";%PATH%\"\n");
            out.append("set \"LIB=%~dp0VC\\Tools\\MSVC\\");
            out.append(install_version);
            out.append("\\lib\\");
            out.append(target);
            out.append(";%LIB%\"\n");
        },
        FinishKind::Sdk => {
            out.append("set \"INCLUDE=%~dp0Windows Kits\\10\\Include\\");
            out.append(install_version);
            out.append("\\ucrt;");
            out.append("%~dp0Windows Kits\\10\\Include\\");
            out.append(install_version);
            out.append("\\shared;");
            out.append("%~dp0Windows Kits\\10\\Include\\");
            out.append(install_version);
            out.append("\\um;");
            out.append("%~dp0Windows Kits\\10\\Include\\");
            out.append(install_version);
            out.append("\\winrt;");
            out.append("%~dp0Windows Kits\\10\\Include\\");
            out.append(install_version);
            out.append("\\cppwinrt;");
            out.append("%INCLUDE%\"\n");
            out.append("set \"PATH=%~dp0Windows Kits\\10\\bin\\");
            out.append(install_version);
            out.append("\\");
            out.append(host);
            out.append(";%PATH%\"\n");
            out.append("set \"LIB=%~dp0Windows Kits\\10\\Lib\\");
            out.append(install_version);
            out.append("\\ucrt\\");
            out.append(target);
            out.append(";%~dp0Windows Kits\\10\\Lib\\");
            out.append(install_version);
            out.append("\\um\\");
            out.append(target);
            out.append(";%LIB%\"\n");
        },
    }
    out
}

/// From the names found in an install's version directory, the unique
/// valid version name; an error when there is none or more than one.
#[derive(Debug, Clone, Copy, PartialEq, Eq, Structural)]
pub enum VersionQueryError {
    NoVersionDir,
    MultipleVersionDirs,
}

pub fn select_version_entry(names: &Vec<String>) -> (r: Result<String, VersionQueryError>)
    ensures
        match r {
            Ok(v) => exists|i: int|
                0 <= i < names@.len() && v@ == (#[trigger] names@[i])@
                    && crate::util::spec_is_valid_version(names@[i]@),
            Err(VersionQueryError::NoVersionDir) => forall|i: int|
                0 <= i < names@.len() ==> !crate::util::spec_is_valid_version(
                    (#[trigger] names@[i])@,
                ),
            Err(VersionQueryError::MultipleVersionDirs) => exists|i: int, j: int|
                0 <= i < j < names@.len() && crate::util::spec_is_valid_version(
                    (#[trigger] names@[i])@,
                ) && crate::util::spec_is_valid_version((#[trigger] names@[j])@),
        },
{
    let n = names.len();
    let mut found: Option<usize> = None;
    let mut i: usize = 0;
    while i < n
        invariant
            0 <= i <= n,
            n == names@.len(),
            match found {
                Some(fi) => fi < i && crate::util::spec_is_valid_version(names@[fi as int]@)
                    && forall|j: int|
                    0 <= j < i && j != fi ==> !crate::util::spec_is_valid_version(
                        (#[trigger] names@[j])@,
                    ),
                None => forall|j: int|
                    0 <= j < i ==> !crate::util::spec_is_valid_version((#[trigger] names@[j])@),
            },
        decreases n - i,
    {
        let name: &String = &names[i];
        if crate::util::is_valid_version(name.as_str()) {
            match found {
                Some(fi) => {
                    return Err(VersionQueryError::MultipleVersionDirs);
                },
                None => {
                    found = Some(i);
                },
            }
        }
        i = i + 1;
    }
    match found {
        Some(fi) => {
            let v: &String = &names[fi];
            Ok(clone_string(v))
        },
        None => Err(VersionQueryError::NoVersionDir),
    }
}

/// A copy of a string with the same characters.
fn clone_string(s: &String) -> (r: String)
    ensures
        r@ == s@,
{
    s.as_str().to_owned()
}

} // verus!
