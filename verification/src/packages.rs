//! Canonical package identities, their total order, and the
//! classification of vendor manifest package ids and payload names.
use vstd::prelude::*;

verus! {

use core::cmp::Ordering;
use vstd::string::StrSliceExecFns;
use vstd::string::StringExecFns;
use crate::arch::Arch;
use crate::sha::Sha256;
use crate::strutil::spec_has_prefix;
use crate::strutil::spec_has_suffix;
use crate::strutil::spec_eq_ignore_case;
use crate::strutil::str_has_prefix;
use crate::strutil::str_has_suffix;
use crate::strutil::str_eq;
use crate::strutil::str_eq_ignore_ascii_case;
use crate::strutil::ord_swap;
use crate::util::spec_order_dotted_numeric;
use crate::util::spec_is_valid_version;
use crate::util::spec_scan_id_version;
use crate::util::spec_scan_to;
use crate::util::spec_basename;
use crate::util::order_dotted_numeric;
use crate::util::is_valid_version;
use crate::util::scan_id_version;
use crate::util::scan_id_part;
use crate::util::basename_from_url;

#[derive(Debug, Clone, Copy, PartialEq, Eq, Structural, Hash)]
pub enum MsvcupPackageKind {
    Msvc,
    Sdk,
    Msbuild,
    Diasdk,
    Ninja,
    Cmake,
}

/// The canonical name of a package kind.
pub open spec fn spec_kind_str(k: MsvcupPackageKind) -> Seq<char> {
    match k {
        MsvcupPackageKind::Msvc => "msvc"@,
        MsvcupPackageKind::Sdk => "sdk"@,
        MsvcupPackageKind::Msbuild => "msbuild"@,
        MsvcupPackageKind::Diasdk => "diasdk"@,
        MsvcupPackageKind::Ninja => "ninja"@,
        MsvcupPackageKind::Cmake => "cmake"@,
    }
}

/// The pool-string prefix of a package kind: its name and a dash.
pub open spec fn spec_kind_prefix(k: MsvcupPackageKind) -> Seq<char> {
    match k {
        MsvcupPackageKind::Msvc => "msvc-"@,
        MsvcupPackageKind::Sdk => "sdk-"@,
        MsvcupPackageKind::Msbuild => "msbuild-"@,
        MsvcupPackageKind::Diasdk => "diasdk-"@,
        MsvcupPackageKind::Ninja => "ninja-"@,
        MsvcupPackageKind::Cmake => "cmake-"@,
    }
}

/// The kind whose pool-string prefix starts `s`, if any.
pub open spec fn spec_kind_from_prefix(s: Seq<char>) -> Option<MsvcupPackageKind> {
    if spec_has_prefix(s, "msvc-"@) {
        Some(MsvcupPackageKind::Msvc)
    } else if spec_has_prefix(s, "sdk-"@) {
        Some(MsvcupPackageKind::Sdk)
    } else if spec_has_prefix(s, "msbuild-"@) {
        Some(MsvcupPackageKind::Msbuild)
    } else if spec_has_prefix(s, "diasdk-"@) {
        Some(MsvcupPackageKind::Diasdk)
    } else if spec_has_prefix(s, "ninja-"@) {
        Some(MsvcupPackageKind::Ninja)
    } else if spec_has_prefix(s, "cmake-"@) {
        Some(MsvcupPackageKind::Cmake)
    } else {
        None
    }
}

/// The rank of a kind in the declaration order, which is its sort order.
pub open spec fn spec_kind_rank(k: MsvcupPackageKind) -> int {
    match k {
        MsvcupPackageKind::Msvc => 0,
        MsvcupPackageKind::Sdk => 1,
        MsvcupPackageKind::Msbuild => 2,
        MsvcupPackageKind::Diasdk => 3,
        MsvcupPackageKind::Ninja => 4,
        MsvcupPackageKind::Cmake => 5,
    }
}

impl MsvcupPackageKind {
    pub fn as_str(&self) -> (r: &'static str)
        ensures
            r@ == spec_kind_str(*self),
    {
        match self {
            MsvcupPackageKind::Msvc => "msvc",
            MsvcupPackageKind::Sdk => "sdk",
            MsvcupPackageKind::Msbuild => "msbuild",
            MsvcupPackageKind::Diasdk => "diasdk",
            MsvcupPackageKind::Ninja => "ninja",
            MsvcupPackageKind::Cmake => "cmake",
        }
    }

    /// Strip the kind prefix off a pool string.
    pub fn from_prefix<'a>(s: &'a str) -> (r: Option<(MsvcupPackageKind, &'a str)>)
        ensures
            match r {
                Some(kv) => spec_kind_from_prefix(s@) == Some(kv.0) && kv.1@ == s@.skip(
                    spec_kind_prefix(kv.0).len() as int,
                ),
                None => spec_kind_from_prefix(s@) is None,
            },
    {
        proof {
            reveal_strlit("msvc-");
            reveal_strlit("sdk-");
            reveal_strlit("msbuild-");
            reveal_strlit("diasdk-");
            reveal_strlit("ninja-");
            reveal_strlit("cmake-");
        }
        let n = s.unicode_len();
        if str_has_prefix(s, "msvc-") {
            Some((MsvcupPackageKind::Msvc, s.substring_char(5, n)))
        } else if str_has_prefix(s, "sdk-") {
            Some((MsvcupPackageKind::Sdk, s.substring_char(4, n)))
        } else if str_has_prefix(s, "msbuild-") {
            Some((MsvcupPackageKind::Msbuild, s.substring_char(8, n)))
        } else if str_has_prefix(s, "diasdk-") {
            Some((MsvcupPackageKind::Diasdk, s.substring_char(7, n)))
        } else if str_has_prefix(s, "ninja-") {
            Some((MsvcupPackageKind::Ninja, s.substring_char(6, n)))
        } else if str_has_prefix(s, "cmake-") {
            Some((MsvcupPackageKind::Cmake, s.substring_char(6, n)))
        } else {
            None
        }
    }

    fn rank(&self) -> (r: u8)
        ensures
            r as int == spec_kind_rank(*self),
    {
        match self {
            MsvcupPackageKind::Msvc => 0,
            MsvcupPackageKind::Sdk => 1,
            MsvcupPackageKind::Msbuild => 2,
            MsvcupPackageKind::Diasdk => 3,
            MsvcupPackageKind::Ninja => 4,
            MsvcupPackageKind::Cmake => 5,
        }
    }
}

#[derive(Debug, Clone, Hash)]
pub struct MsvcupPackage {
    pub kind: MsvcupPackageKind,
    pub version: String,
}

#[derive(Debug)]
pub enum MsvcupPackageParseError {
    UnknownName,
    InvalidVersion(String),
}

/// The canonical `<kind>-<version>` text of a package.
pub open spec fn spec_pool_string(p: MsvcupPackage) -> Seq<char> {
    spec_kind_str(p.kind) + "-"@ + p.version@
}

/// The total order over package identities: kind rank first, then the
/// dotted-numeric version order.
pub open spec fn spec_pkg_order(a: MsvcupPackage, b: MsvcupPackage) -> Ordering {
    if spec_kind_rank(a.kind) < spec_kind_rank(b.kind) {
        Ordering::Less
    } else if spec_kind_rank(a.kind) > spec_kind_rank(b.kind) {
        Ordering::Greater
    } else {
        spec_order_dotted_numeric(a.version@, b.version@)
    }
}

pub proof fn lemma_pkg_order_refl(a: MsvcupPackage)
    ensures
        spec_pkg_order(a, a) == Ordering::Equal,
{
    crate::util::lemma_order_dotted_numeric_refl(a.version@);
}

pub proof fn lemma_pkg_order_swap(a: MsvcupPackage, b: MsvcupPackage)
    ensures
        spec_pkg_order(b, a) == ord_swap(spec_pkg_order(a, b)),
{
    crate::util::lemma_order_dotted_numeric_swap(a.version@, b.version@);
}

pub proof fn lemma_pkg_order_trans(a: MsvcupPackage, b: MsvcupPackage, c: MsvcupPackage)
    requires
        spec_pkg_order(a, b) != Ordering::Greater,
        spec_pkg_order(b, c) != Ordering::Greater,
    ensures
        spec_pkg_order(a, c) != Ordering::Greater,
        spec_pkg_order(a, b) == Ordering::Less || spec_pkg_order(b, c) == Ordering::Less
            ==> spec_pkg_order(a, c) == Ordering::Less,
{
    if spec_kind_rank(a.kind) == spec_kind_rank(b.kind) && spec_kind_rank(b.kind)
        == spec_kind_rank(c.kind) {
        crate::util::lemma_order_dotted_numeric_trans(a.version@, b.version@, c.version@);
    }
}

impl MsvcupPackage {
    pub fn new(kind: MsvcupPackageKind, version: String) -> (r: MsvcupPackage)
        ensures
            r.kind == kind,
            r.version@ == version@,
    {
        MsvcupPackage { kind, version }
    }

    /// Parse a pool string, rejecting unknown kinds and bad versions.
    pub fn from_string(s: &str) -> (r: Result<MsvcupPackage, MsvcupPackageParseError>)
        ensures
            match r {
                Ok(p) => {
                    &&& spec_kind_from_prefix(s@) == Some(p.kind)
                    &&& p.version@ == s@.skip(spec_kind_prefix(p.kind).len() as int)
                    &&& spec_is_valid_version(p.version@)
                },
                Err(MsvcupPackageParseError::UnknownName) => spec_kind_from_prefix(s@) is None,
                Err(MsvcupPackageParseError::InvalidVersion(v)) => {
                    &&& spec_kind_from_prefix(s@) is Some
                    &&& v@ == s@.skip(
                        spec_kind_prefix(spec_kind_from_prefix(s@)->Some_0).len() as int,
                    )
                    &&& !spec_is_valid_version(v@)
                },
            },
    {
        let kv = match MsvcupPackageKind::from_prefix(s) {
            Some(kv) => kv,
            None => {
                return Err(MsvcupPackageParseError::UnknownName);
            },
        };
        let (kind, version) = kv;
        if !is_valid_version(version) {
            return Err(MsvcupPackageParseError::InvalidVersion(version.to_owned()));
        }
        Ok(MsvcupPackage { kind, version: version.to_owned() })
    }

    /// A copy with the same kind and version.
    pub fn duplicate(&self) -> (r: MsvcupPackage)
        ensures
            r.kind == self.kind,
            r.version@ == self.version@,
    {
        MsvcupPackage { kind: self.kind, version: self.version.as_str().to_owned() }
    }

    /// The canonical `<kind>-<version>` text.
    pub fn pool_string(&self) -> (r: String)
        ensures
            r@ == spec_pool_string(*self),
    {
        let mut out = String::new();
        out.append(self.kind.as_str());
        out.append("-");
        out.append(self.version.as_str());
        out
    }

    /// Compare two package identities.
    pub fn order(lhs: &MsvcupPackage, rhs: &MsvcupPackage) -> (r: Ordering)
        ensures
            r == spec_pkg_order(*lhs, *rhs),
    {
        let lr = lhs.kind.rank();
        let rr = rhs.kind.rank();
        if lr < rr {
            Ordering::Less
        } else if lr > rr {
            Ordering::Greater
        } else {
            order_dotted_numeric(self_version(lhs), self_version(rhs))
        }
    }
}

fn self_version(p: &MsvcupPackage) -> (r: &str)
    ensures
        r@ == p.version@,
{
    p.version.as_str()
}

impl PartialEq for MsvcupPackage {
    fn eq(&self, other: &MsvcupPackage) -> (r: bool) {
        self.kind == other.kind && str_eq(self.version.as_str(), other.version.as_str())
    }
}

impl vstd::std_specs::cmp::PartialEqSpecImpl for MsvcupPackage {
    open spec fn obeys_eq_spec() -> bool {
        true
    }

    open spec fn eq_spec(&self, other: &MsvcupPackage) -> bool {
        self.kind == other.kind && self.version@ == other.version@
    }
}

impl Eq for MsvcupPackage {

}

/// A strictly sorted package list: the canonical requested set.
pub open spec fn spec_pkgs_sorted(s: Seq<MsvcupPackage>) -> bool {
    forall|i: int, j: int|
        0 <= i < j < s.len() ==> spec_pkg_order(#[trigger] s[i], #[trigger] s[j]) == Ordering::Less
}

/// Insert into a sorted package list, keeping it sorted and dropping
/// the item when an equal one is already present.
pub fn insert_sorted(list: &mut Vec<MsvcupPackage>, item: MsvcupPackage)
    requires
        spec_pkgs_sorted(old(list)@),
    ensures
        spec_pkgs_sorted(final(list)@),
        (exists|i: int|
            0 <= i < old(list)@.len() && spec_pkg_order(#[trigger] old(list)@[i], item)
                == Ordering::Equal) ==> final(list)@ == old(list)@,
        !(exists|i: int|
            0 <= i < old(list)@.len() && spec_pkg_order(#[trigger] old(list)@[i], item)
                == Ordering::Equal) ==> exists|pos: int|
            0 <= pos <= old(list)@.len() && final(list)@ == old(list)@.insert(pos, item),
{
    let n = list.len();
    let mut pos: usize = 0;
    loop
        invariant
            0 <= pos <= n,
            n == list@.len(),
            spec_pkgs_sorted(list@),
            forall|j: int| 0 <= j < pos ==> spec_pkg_order(#[trigger] list@[j], item) == Ordering::Less,
        ensures
            0 <= pos <= n,
            n == list@.len(),
            forall|j: int| 0 <= j < pos ==> spec_pkg_order(#[trigger] list@[j], item) == Ordering::Less,
            pos < n ==> spec_pkg_order(list@[pos as int], item) != Ordering::Less,
        decreases n - pos,
    {
        if pos >= n {
            break;
        }
        let probe = &list[pos];
        match MsvcupPackage::order(probe, &item) {
            Ordering::Less => {
                pos = pos + 1;
            },
            _ => {
                break;
            },
        }
    }
    if pos < n {
        let probe = &list[pos];
        match MsvcupPackage::order(probe, &item) {
            Ordering::Equal => {
                return ;
            },
            _ => {},
        }
    }
    proof {
        assert forall|i: int|
            0 <= i < list@.len() implies spec_pkg_order(#[trigger] list@[i], item)
            != Ordering::Equal by {
            if i < pos {
            } else if i == pos {
            } else {
                if pos < list@.len() {
                    lemma_pkg_order_swap(list@[pos as int], item);
                    lemma_pkg_order_trans(item, list@[pos as int], list@[i]);
                    lemma_pkg_order_swap(item, list@[i]);
                }
            }
        }
    }
    let ghost oldlist = list@;
    list.insert(pos, item);
    proof {
        assert(list@ == oldlist.insert(pos as int, item));
        assert forall|i: int, j: int|
            0 <= i < j < list@.len() implies spec_pkg_order(#[trigger] list@[i], #[trigger] list@[j])
            == Ordering::Less by {
            let p = pos as int;
            if i < p && j == p {
                assert(list@[i] == oldlist[i]);
            } else if i == p && j > p {
                assert(list@[j] == oldlist[j - 1]);
                lemma_pkg_order_swap(oldlist[p], item);
                if j - 1 > p {
                    lemma_pkg_order_trans(item, oldlist[p], oldlist[j - 1]);
                }
            } else if i < p && j > p {
                assert(list@[i] == oldlist[i]);
                assert(list@[j] == oldlist[j - 1]);
            } else if j < p {
                assert(list@[i] == oldlist[i]);
                assert(list@[j] == oldlist[j]);
            } else if i > p {
                assert(list@[i] == oldlist[i - 1]);
                assert(list@[j] == oldlist[j - 1]);
            }
        }
    }
}

/// `s` is a well-formed pool string: a known kind prefix followed by
/// a valid version.
pub open spec fn spec_pool_parses(s: Seq<char>) -> bool {
    spec_kind_from_prefix(s) is Some && spec_is_valid_version(
        s.skip(spec_kind_prefix(spec_kind_from_prefix(s)->Some_0).len() as int),
    )
}

/// `p` is exactly the parse of the pool string `s`.
pub open spec fn spec_pkg_matches_string(p: MsvcupPackage, s: Seq<char>) -> bool {
    spec_kind_from_prefix(s) == Some(p.kind) && p.version@ == s.skip(
        spec_kind_prefix(p.kind).len() as int,
    )
}

/// `p` has the kind of the pool string `s` and a version that compares
/// equal to its version text.
pub open spec fn spec_pkg_equiv_string(p: MsvcupPackage, s: Seq<char>) -> bool {
    spec_kind_from_prefix(s) == Some(p.kind) && spec_order_dotted_numeric(
        p.version@,
        s.skip(spec_kind_prefix(p.kind).len() as int),
    ) == Ordering::Equal
}

/// Some string among the first `n` parses exactly to `p`.
#[verifier::opaque]
pub open spec fn spec_pkg_covered(p: MsvcupPackage, strs: Seq<String>, n: int) -> bool {
    exists|k: int| 0 <= k < n && spec_pkg_matches_string(p, #[trigger] strs[k]@)
}

/// Some package of `pkgs` compares equal to the parse of `s`.
#[verifier::opaque]
pub open spec fn spec_str_represented(s: Seq<char>, pkgs: Seq<MsvcupPackage>) -> bool {
    exists|j: int| 0 <= j < pkgs.len() && spec_pkg_equiv_string(#[trigger] pkgs[j], s)
}

/// Where each element of a list went after an insertion.
proof fn lemma_insert_index_map(
    old: Seq<MsvcupPackage>,
    new: Seq<MsvcupPackage>,
    pos: int,
    item: MsvcupPackage,
)
    requires
        0 <= pos <= old.len(),
        new == old.insert(pos, item),
    ensures
        new.len() == old.len() + 1,
        new[pos] == item,
        forall|j: int| 0 <= j < pos ==> #[trigger] new[j] == old[j],
        forall|j: int| pos < j < new.len() ==> #[trigger] new[j] == old[j - 1],
{
}

/// Parse and sort-merge the requested package strings into the
/// canonical sorted, duplicate-free requested set: every entry of the
/// result is the parse of some input, and every input is represented
/// by an entry comparing equal to its parse.
pub fn parse_msvcup_packages(pkg_strings: &Vec<String>) -> (r: Result<
    Vec<MsvcupPackage>,
    (usize, MsvcupPackageParseError),
>)
    ensures
        match r {
            Ok(pkgs) => {
                &&& spec_pkgs_sorted(pkgs@)
                &&& forall|i: int|
                    0 <= i < pkg_strings@.len() ==> spec_pool_parses(
                        (#[trigger] pkg_strings@[i])@,
                    )
                &&& forall|j: int|
                    0 <= j < pkgs@.len() ==> spec_pkg_covered(
                        #[trigger] pkgs@[j],
                        pkg_strings@,
                        pkg_strings@.len() as int,
                    )
                &&& forall|i: int|
                    0 <= i < pkg_strings@.len() ==> spec_str_represented(
                        #[trigger] pkg_strings@[i]@,
                        pkgs@,
                    )
            },
            Err(ie) => {
                &&& ie.0 < pkg_strings@.len()
                &&& !spec_pool_parses(pkg_strings@[ie.0 as int]@)
                &&& forall|j: int|
                    0 <= j < ie.0 ==> spec_pool_parses((#[trigger] pkg_strings@[j])@)
                &&& (match ie.1 {
                    MsvcupPackageParseError::UnknownName => spec_kind_from_prefix(
                        pkg_strings@[ie.0 as int]@,
                    ) is None,
                    MsvcupPackageParseError::InvalidVersion(v) => spec_kind_from_prefix(
                        pkg_strings@[ie.0 as int]@,
                    ) is Some && !spec_is_valid_version(v@),
                })
            },
        },
{
    let mut pkgs: Vec<MsvcupPackage> = Vec::new();
    let n = pkg_strings.len();
    let mut i: usize = 0;
    while i < n
        invariant
            0 <= i <= n,
            n == pkg_strings@.len(),
            spec_pkgs_sorted(pkgs@),
            forall|j: int| 0 <= j < i ==> spec_pool_parses((#[trigger] pkg_strings@[j])@),
            forall|j: int|
                0 <= j < pkgs@.len() ==> spec_pkg_covered(#[trigger] pkgs@[j], pkg_strings@, i as int),
            forall|k: int|
                0 <= k < i ==> spec_str_represented(#[trigger] pkg_strings@[k]@, pkgs@),
        decreases n - i,
    {
        let s: &String = &pkg_strings[i];
        match MsvcupPackage::from_string(s.as_str()) {
            Ok(pkg) => {
                let ghost oldpkgs = pkgs@;
                let ghost newpkg = pkg;
                insert_sorted(&mut pkgs, pkg);
                proof {
                    lemma_parse_step(oldpkgs, pkgs@, newpkg, pkg_strings@, i as int);
                }
            },
            Err(e) => {
                return Err((i, e));
            },
        }
        i = i + 1;
    }
    proof {
        assert forall|j: int|
            0 <= j < pkgs@.len() implies spec_pkg_covered(
            #[trigger] pkgs@[j],
            pkg_strings@,
            pkg_strings@.len() as int,
        ) by {
            lemma_covered_widen(pkgs@[j], pkg_strings@, i as int, pkg_strings@.len() as int);
        }
    }
    Ok(pkgs)
}

/// Coverage within the first `n` strings extends to any larger bound.
proof fn lemma_covered_widen(p: MsvcupPackage, strs: Seq<String>, n: int, m: int)
    requires
        spec_pkg_covered(p, strs, n),
        n <= m,
    ensures
        spec_pkg_covered(p, strs, m),
{
    reveal(spec_pkg_covered);
}

/// One step of `parse_msvcup_packages`: after inserting the parse of
/// string `i`, coverage and representation extend from `i` to `i + 1`.
proof fn lemma_parse_step(
    oldpkgs: Seq<MsvcupPackage>,
    newpkgs: Seq<MsvcupPackage>,
    newpkg: MsvcupPackage,
    strs: Seq<String>,
    i: int,
)
    requires
        0 <= i < strs.len(),
        spec_pkg_matches_string(newpkg, strs[i]@),
        forall|j: int|
            0 <= j < oldpkgs.len() ==> spec_pkg_covered(#[trigger] oldpkgs[j], strs, i),
        forall|k: int| 0 <= k < i ==> spec_str_represented(#[trigger] strs[k]@, oldpkgs),
        (exists|x: int|
            0 <= x < oldpkgs.len() && spec_pkg_order(#[trigger] oldpkgs[x], newpkg)
                == Ordering::Equal) ==> newpkgs == oldpkgs,
        !(exists|x: int|
            0 <= x < oldpkgs.len() && spec_pkg_order(#[trigger] oldpkgs[x], newpkg)
                == Ordering::Equal) ==> exists|pos: int|
            0 <= pos <= oldpkgs.len() && newpkgs == oldpkgs.insert(pos, newpkg),
    ensures
        forall|j: int|
            0 <= j < newpkgs.len() ==> spec_pkg_covered(#[trigger] newpkgs[j], strs, i + 1),
        forall|k: int| 0 <= k < i + 1 ==> spec_str_represented(#[trigger] strs[k]@, newpkgs),
{
    if exists|x: int|
        0 <= x < oldpkgs.len() && spec_pkg_order(#[trigger] oldpkgs[x], newpkg)
            == Ordering::Equal {
        let x = choose|x: int|
            0 <= x < oldpkgs.len() && spec_pkg_order(#[trigger] oldpkgs[x], newpkg)
                == Ordering::Equal;
        assert forall|j: int|
            0 <= j < newpkgs.len() implies spec_pkg_covered(#[trigger] newpkgs[j], strs, i + 1) by {
            lemma_covered_widen(newpkgs[j], strs, i, i + 1);
        }
        assert(spec_pkg_equiv_string(oldpkgs[x], strs[i]@)) by {
            lemma_kind_rank_inj(oldpkgs[x].kind, newpkg.kind);
        }
        assert(spec_str_represented(strs[i]@, newpkgs)) by {
            reveal(spec_str_represented);
            assert(0 <= x < newpkgs.len() && spec_pkg_equiv_string(newpkgs[x], strs[i]@));
        }
    } else {
        let pos = choose|pos: int|
            0 <= pos <= oldpkgs.len() && newpkgs == oldpkgs.insert(pos, newpkg);
        lemma_insert_index_map(oldpkgs, newpkgs, pos, newpkg);
        assert(spec_pkg_equiv_string(newpkg, strs[i]@)) by {
            crate::util::lemma_order_dotted_numeric_refl(newpkg.version@);
        }
        assert forall|j: int|
            0 <= j < newpkgs.len() implies spec_pkg_covered(#[trigger] newpkgs[j], strs, i + 1) by {
            if j < pos {
                assert(newpkgs[j] == oldpkgs[j]);
                lemma_covered_widen(newpkgs[j], strs, i, i + 1);
            } else if j > pos {
                assert(newpkgs[j] == oldpkgs[j - 1]);
                lemma_covered_widen(newpkgs[j], strs, i, i + 1);
            } else {
                assert(newpkgs[j] == newpkg);
                assert(spec_pkg_covered(newpkg, strs, i + 1)) by {
                    reveal(spec_pkg_covered);
                    assert(0 <= i < i + 1 && spec_pkg_matches_string(newpkg, strs[i]@));
                }
            }
        }
        assert forall|k: int| 0 <= k < i + 1 implies spec_str_represented(
            #[trigger] strs[k]@,
            newpkgs,
        ) by {
            if k < i {
                lemma_represented_insert(strs[k]@, oldpkgs, newpkgs, pos, newpkg);
            } else {
                assert(spec_str_represented(strs[k]@, newpkgs)) by {
                    reveal(spec_str_represented);
                    assert(0 <= pos < newpkgs.len() && spec_pkg_equiv_string(
                        newpkgs[pos],
                        strs[k]@,
                    ));
                }
            }
        }
    }
}

/// Representation survives inserting one more package.
proof fn lemma_represented_insert(
    s: Seq<char>,
    oldpkgs: Seq<MsvcupPackage>,
    newpkgs: Seq<MsvcupPackage>,
    pos: int,
    item: MsvcupPackage,
)
    requires
        spec_str_represented(s, oldpkgs),
        0 <= pos <= oldpkgs.len(),
        newpkgs == oldpkgs.insert(pos, item),
    ensures
        spec_str_represented(s, newpkgs),
{
    reveal(spec_str_represented);
    let j0 = choose|j0: int| 0 <= j0 < oldpkgs.len() && spec_pkg_equiv_string(#[trigger] oldpkgs[j0], s);
    lemma_insert_index_map(oldpkgs, newpkgs, pos, item);
    if j0 < pos {
        assert(newpkgs[j0] == oldpkgs[j0]);
    } else {
        assert(newpkgs[j0 + 1] == oldpkgs[j0]);
    }
}


/// Kinds with the same rank are the same kind.
pub proof fn lemma_kind_rank_inj(a: MsvcupPackageKind, b: MsvcupPackageKind)
    requires
        spec_kind_rank(a) == spec_kind_rank(b),
    ensures
        a == b,
{
}

// --- Package identification (from the vendor manifest) ---

#[derive(Debug)]
pub enum PackageId<'a> {
    Unknown,
    Unexpected { offset: usize, expected: &'static str },
    MsvcVersionSomething { build_version: &'a str, something: &'a str },
    MsvcVersionToolsSomething { build_version: &'a str, something: &'a str },
    MsvcVersionHostTarget { build_version: &'a str, host_arch: Arch, target_arch: Arch, name: &'a str },
    Msbuild(&'a str),
    Diasdk,
    Ninja(&'a str),
    Cmake(&'a str),
}

/// What `identify_package` must return for the vendor id `id`.
pub open spec fn spec_identify_package_ok(id: Seq<char>, r: PackageId) -> bool {
    if id == "Microsoft.Build"@ || id == "Microsoft.Build.Arm64"@ {
        r matches PackageId::Msbuild(v) && v@ == "170"@
    } else if spec_has_prefix(id, "Microsoft.VisualStudio.VC.MSBuild."@) {
        let rest = id.skip("Microsoft.VisualStudio.VC.MSBuild."@.len() as int);
        if spec_scan_to(rest, 0, '.').0 == "v170"@ {
            r matches PackageId::Msbuild(v) && v@ == "170"@
        } else {
            r matches PackageId::Unknown
        }
    } else if id == "Microsoft.VisualCpp.DIA.SDK"@ {
        r matches PackageId::Diasdk
    } else if spec_has_prefix(id, "Microsoft.VC."@) {
        let plen = "Microsoft.VC."@.len() as int;
        let rest = id.skip(plen);
        let version = spec_scan_id_version(rest, 0).0;
        let version_end = spec_scan_id_version(rest, 0).1;
        if version.len() == 0 {
            r matches PackageId::Unexpected { offset, expected } && offset == plen && expected@
                == "version"@
        } else {
            let rest2 = rest.skip(version_end);
            if rest2.len() == 0 || rest2[0] != '.' {
                r matches PackageId::Unexpected { offset, expected } && offset == plen
                    + version_end && expected@ == "anything"@
            } else {
                let rest2b = rest2.skip(1);
                let tools_part = spec_scan_to(rest2b, 0, '.').0;
                let tools_end = spec_scan_to(rest2b, 0, '.').1;
                if tools_part != "Tools"@ {
                    r matches PackageId::MsvcVersionSomething { build_version, something }
                        && build_version@ == version && something@ == rest.skip(version_end)
                } else {
                    let rest3 = rest2b.skip(tools_end);
                    let host_part = spec_scan_to(rest3, 0, '.').0;
                    let host_end = spec_scan_to(rest3, 0, '.').1;
                    if host_part.len() == 0 {
                        r matches PackageId::Unexpected { offset, expected } && offset == plen
                            + version_end + 1 + tools_end && expected@ == "anything"@
                    } else if !spec_has_prefix(host_part, "Host"@) {
                        r matches PackageId::MsvcVersionToolsSomething { build_version, something }
                            && build_version@ == version && something@ == rest.skip(version_end)
                    } else {
                        match crate::arch::spec_arch_from_ignore_case(host_part.skip(4)) {
                            None => r matches PackageId::Unexpected { offset, expected } && offset
                                == plen + version_end + 1 + tools_end + 4 && expected@ == "arch"@,
                            Some(host_arch) => {
                                let rest4 = rest3.skip(host_end);
                                let target_part = spec_scan_to(rest4, 0, '.').0;
                                let target_end = spec_scan_to(rest4, 0, '.').1;
                                if !spec_has_prefix(target_part, "Target"@) {
                                    r matches PackageId::Unexpected { offset, expected } && offset
                                        == plen + version_end + 1 + tools_end + host_end
                                        && expected@ == "target_arch"@
                                } else {
                                    match crate::arch::spec_arch_from_ignore_case(
                                        target_part.skip(6),
                                    ) {
                                        None => r matches PackageId::Unexpected {
                                            offset,
                                            expected,
                                        } && offset == plen + version_end + 1 + tools_end
                                            + host_end + 6 && expected@ == "arch"@,
                                        Some(target_arch) => r matches PackageId::MsvcVersionHostTarget {
                                            build_version,
                                            host_arch: ha,
                                            target_arch: ta,
                                            name,
                                        } && build_version@ == version && ha == host_arch && ta
                                            == target_arch && name@ == rest4.skip(target_end),
                                    }
                                }
                            },
                        }
                    }
                }
            }
        }
    } else if spec_has_prefix(id, "ninja-"@) {
        let rest = id.skip(6);
        let version = spec_scan_id_version(rest, 0).0;
        let version_end = spec_scan_id_version(rest, 0).1;
        if version.len() == 0 {
            r matches PackageId::Unexpected { offset, expected } && offset == 6 && expected@
                == "version"@
        } else if version_end != rest.len() {
            r matches PackageId::Unexpected { offset, expected } && offset == 6 + version_end
                && expected@ == "end"@
        } else {
            r matches PackageId::Ninja(v) && v@ == version
        }
    } else if spec_has_prefix(id, "cmake-"@) {
        let rest = id.skip(6);
        let version = spec_scan_id_version(rest, 0).0;
        let version_end = spec_scan_id_version(rest, 0).1;
        if version.len() == 0 {
            r matches PackageId::Unexpected { offset, expected } && offset == 6 && expected@
                == "version"@
        } else if version_end != rest.len() {
            r matches PackageId::Unexpected { offset, expected } && offset == 6 + version_end
                && expected@ == "end"@
        } else {
            r matches PackageId::Cmake(v) && v@ == version
        }
    } else {
        r matches PackageId::Unknown
    }
}

/// Classify a vendor manifest package id.
#[verifier::rlimit(60)]
pub fn identify_package<'a>(id: &'a str) -> (r: PackageId<'a>)
    ensures
        spec_identify_package_ok(id@, r),
{
    let n = id.unicode_len();
    // MSBuild packages
    if str_eq(id, "Microsoft.Build") || str_eq(id, "Microsoft.Build.Arm64") {
        return PackageId::Msbuild("170");
    }
    let msbuild_prefix = "Microsoft.VisualStudio.VC.MSBuild.";
    if str_has_prefix(id, msbuild_prefix) {
        let plen = msbuild_prefix.unicode_len();
        let rest = id.substring_char(plen, n);
        proof {
            assert(rest@ =~= id@.skip(msbuild_prefix@.len() as int));
        }
        let pv = scan_id_part(rest, 0);
        if str_eq(pv.0, "v170") {
            return PackageId::Msbuild("170");
        }
        return PackageId::Unknown;
    }
    // DIA SDK
    if str_eq(id, "Microsoft.VisualCpp.DIA.SDK") {
        return PackageId::Diasdk;
    }
    // MSVC packages
    let msvc_prefix = "Microsoft.VC.";
    if str_has_prefix(id, msvc_prefix) {
        proof {
            reveal_strlit("Microsoft.VC.");
        }
        let plen = msvc_prefix.unicode_len();
        let rest = id.substring_char(plen, n);
        proof {
            assert(rest@ =~= id@.skip(msvc_prefix@.len() as int));
        }
        let rn = rest.unicode_len();
        let sv = scan_id_version(rest, 0);
        let version = sv.0;
        let version_end = sv.1;
        if version.unicode_len() == 0 {
            return PackageId::Unexpected { offset: plen, expected: "version" };
        }
        let rest2 = rest.substring_char(version_end, rn);
        proof {
            assert(rest2@ =~= rest@.skip(version_end as int));
        }
        if rest2.unicode_len() == 0 || rest2.get_char(0) != '.' {
            return PackageId::Unexpected { offset: plen + version_end, expected: "anything" };
        }
        let r2n = rest2.unicode_len();
        let rest2b = rest2.substring_char(1, r2n);
        proof {
            assert(rest2b@ =~= rest2@.skip(1));
        }
        let tp = scan_id_part(rest2b, 0);
        let tools_part = tp.0;
        let tools_end = tp.1;
        let something = rest.substring_char(version_end, rn);
        proof {
            assert(something@ =~= rest@.skip(version_end as int));
        }
        if !str_eq(tools_part, "Tools") {
            return PackageId::MsvcVersionSomething { build_version: version, something };
        }
        let r2bn = rest2b.unicode_len();
        let rest3 = rest2b.substring_char(tools_end, r2bn);
        proof {
            assert(rest3@ =~= rest2b@.skip(tools_end as int));
        }
        let hp = scan_id_part(rest3, 0);
        let host_part = hp.0;
        let host_end = hp.1;
        if host_part.unicode_len() == 0 {
            return PackageId::Unexpected {
                offset: plen + version_end + 1 + tools_end,
                expected: "anything",
            };
        }
        if !str_has_prefix(host_part, "Host") {
            return PackageId::MsvcVersionToolsSomething { build_version: version, something };
        }
        proof {
            reveal_strlit("Host");
        }
        let hpn = host_part.unicode_len();
        let host_arch_str = host_part.substring_char(4, hpn);
        proof {
            assert(host_arch_str@ =~= host_part@.skip(4));
        }
        let host_arch = match Arch::from_str_ignore_case(host_arch_str) {
            Some(a) => a,
            None => {
                return PackageId::Unexpected {
                    offset: plen + version_end + 1 + tools_end + 4,
                    expected: "arch",
                };
            },
        };
        let r3n = rest3.unicode_len();
        let rest4 = rest3.substring_char(host_end, r3n);
        proof {
            assert(rest4@ =~= rest3@.skip(host_end as int));
        }
        let tgp = scan_id_part(rest4, 0);
        let target_part = tgp.0;
        let target_end = tgp.1;
        if !str_has_prefix(target_part, "Target") {
            return PackageId::Unexpected {
                offset: plen + version_end + 1 + tools_end + host_end,
                expected: "target_arch",
            };
        }
        proof {
            reveal_strlit("Target");
        }
        let tpn = target_part.unicode_len();
        let target_arch_str = target_part.substring_char(6, tpn);
        proof {
            assert(target_arch_str@ =~= target_part@.skip(6));
        }
        let target_arch = match Arch::from_str_ignore_case(target_arch_str) {
            Some(a) => a,
            None => {
                return PackageId::Unexpected {
                    offset: plen + version_end + 1 + tools_end + host_end + 6,
                    expected: "arch",
                };
            },
        };
        let r4n = rest4.unicode_len();
        let name = rest4.substring_char(target_end, r4n);
        proof {
            assert(name@ =~= rest4@.skip(target_end as int));
        }
        return PackageId::MsvcVersionHostTarget {
            build_version: version,
            host_arch,
            target_arch,
            name,
        };
    }
    // Ninja
    if str_has_prefix(id, "ninja-") {
        proof {
            reveal_strlit("ninja-");
        }
        let rest = id.substring_char(6, n);
        proof {
            assert(rest@ =~= id@.skip(6));
        }
        let rn = rest.unicode_len();
        let sv = scan_id_version(rest, 0);
        if sv.0.unicode_len() == 0 {
            return PackageId::Unexpected { offset: 6, expected: "version" };
        }
        if sv.1 != rn {
            return PackageId::Unexpected { offset: 6 + sv.1, expected: "end" };
        }
        return PackageId::Ninja(sv.0);
    }
    // CMake
    if str_has_prefix(id, "cmake-") {
        proof {
            reveal_strlit("cmake-");
        }
        let rest = id.substring_char(6, n);
        proof {
            assert(rest@ =~= id@.skip(6));
        }
        let rn = rest.unicode_len();
        let sv = scan_id_version(rest, 0);
        if sv.0.unicode_len() == 0 {
            return PackageId::Unexpected { offset: 6, expected: "version" };
        }
        if sv.1 != rn {
            return PackageId::Unexpected { offset: 6 + sv.1, expected: "end" };
        }
        return PackageId::Cmake(sv.0);
    }
    PackageId::Unknown
}

// --- Payload identification ---

#[derive(Debug, PartialEq, Eq, Structural)]
pub enum PayloadId {
    Unknown,
    Sdk,
}

/// The fixed table of SDK payload filename prefixes.
pub open spec fn spec_is_sdk_payload(name: Seq<char>) -> bool {
    ||| spec_has_prefix(name, "Installers\\Universal CRT Headers Libraries and Sources-"@)
    ||| spec_has_prefix(name, "Installers\\Windows SDK Desktop Headers "@)
    ||| spec_has_prefix(name, "Installers\\Windows SDK Desktop Libs "@)
    ||| spec_has_prefix(name, "Installers\\Windows SDK Signing Tools-"@)
    ||| spec_has_prefix(name, "Installers\\Windows SDK for Windows Store Apps Headers-"@)
    ||| spec_has_prefix(name, "Installers\\Windows SDK for Windows Store Apps Libs-"@)
    ||| spec_has_prefix(name, "Installers\\Windows SDK for Windows Store Apps Tools-"@)
}

/// Recognize the Windows SDK component payloads by filename.
pub fn identify_payload(payload_filename: &str) -> (r: PayloadId)
    ensures
        r == (if spec_is_sdk_payload(payload_filename@) {
            PayloadId::Sdk
        } else {
            PayloadId::Unknown
        }),
{
    if str_has_prefix(payload_filename, "Installers\\Universal CRT Headers Libraries and Sources-")
        || str_has_prefix(payload_filename, "Installers\\Windows SDK Desktop Headers ")
        || str_has_prefix(payload_filename, "Installers\\Windows SDK Desktop Libs ")
        || str_has_prefix(payload_filename, "Installers\\Windows SDK Signing Tools-")
        || str_has_prefix(payload_filename, "Installers\\Windows SDK for Windows Store Apps Headers-")
        || str_has_prefix(payload_filename, "Installers\\Windows SDK for Windows Store Apps Libs-")
        || str_has_prefix(payload_filename, "Installers\\Windows SDK for Windows Store Apps Tools-") {
        PayloadId::Sdk
    } else {
        PayloadId::Unknown
    }
}

// --- Lock file URL kind ---

#[derive(Debug, Clone, Copy, PartialEq, Eq, Structural)]
pub enum LockFileUrlKind {
    Vsix,
    Msi,
    Cab,
    Zip,
}

/// The payload kind a URL's extension implies, if any.
pub open spec fn spec_url_kind(url: Seq<char>) -> Option<LockFileUrlKind> {
    if spec_has_suffix(url, ".vsix"@) {
        Some(LockFileUrlKind::Vsix)
    } else if spec_has_suffix(url, ".msi"@) {
        Some(LockFileUrlKind::Msi)
    } else if spec_has_suffix(url, ".cab"@) {
        Some(LockFileUrlKind::Cab)
    } else if spec_has_suffix(url, ".zip"@) {
        Some(LockFileUrlKind::Zip)
    } else {
        None
    }
}

pub fn get_lock_file_url_kind(url: &str) -> (r: Option<LockFileUrlKind>)
    ensures
        r == spec_url_kind(url@),
{
    if str_has_suffix(url, ".vsix") {
        Some(LockFileUrlKind::Vsix)
    } else if str_has_suffix(url, ".msi") {
        Some(LockFileUrlKind::Msi)
    } else if str_has_suffix(url, ".cab") {
        Some(LockFileUrlKind::Cab)
    } else if str_has_suffix(url, ".zip") {
        Some(LockFileUrlKind::Zip)
    } else {
        None
    }
}

// --- Language ---

#[derive(Debug, Clone, Copy, PartialEq, Eq, Structural)]
pub enum Language {
    Neutral,
    EnUs,
    Other,
}

/// A language tag of the fixed list of other installer languages.
pub open spec fn spec_is_other_language(s: Seq<char>) -> bool {
    ||| s == "cs-CZ"@
    ||| s == "de-DE"@
    ||| s == "es-ES"@
    ||| s == "fr-FR"@
    ||| s == "it-IT"@
    ||| s == "ja-JP"@
    ||| s == "ko-KR"@
    ||| s == "pl-PL"@
    ||| s == "pt-BR"@
    ||| s == "ru-RU"@
    ||| s == "tr-TR"@
    ||| s == "zh-CN"@
    ||| s == "zh-TW"@
}

/// How a package language tag is classified.
pub open spec fn spec_language_from(s: Seq<char>) -> Language {
    if s == "neutral"@ {
        Language::Neutral
    } else if s == "en-US"@ {
        Language::EnUs
    } else if spec_is_other_language(s) {
        Language::Other
    } else if spec_eq_ignore_case(s, "en-US"@) {
        Language::EnUs
    } else {
        Language::Other
    }
}

impl Language {
    pub fn from_str(s: &str) -> (r: Language)
        ensures
            r == spec_language_from(s@),
    {
        if str_eq(s, "neutral") {
            Language::Neutral
        } else if str_eq(s, "en-US") {
            Language::EnUs
        } else if str_eq(s, "cs-CZ") || str_eq(s, "de-DE") || str_eq(s, "es-ES") || str_eq(
            s,
            "fr-FR",
        ) || str_eq(s, "it-IT") || str_eq(s, "ja-JP") || str_eq(s, "ko-KR") || str_eq(s, "pl-PL")
            || str_eq(s, "pt-BR") || str_eq(s, "ru-RU") || str_eq(s, "tr-TR") || str_eq(s, "zh-CN")
            || str_eq(s, "zh-TW") {
            Language::Other
        } else if str_eq_ignore_ascii_case(s, "en-US") {
            Language::EnUs
        } else {
            Language::Other
        }
    }
}

// --- Package and Payload records of the parsed vendor manifest ---

#[derive(Debug, Clone)]
pub struct Package {
    pub id: String,
    pub version: String,
    pub payloads_offset: usize,
    pub language: Language,
}

#[derive(Debug, Clone)]
pub struct Payload {
    pub url_decoded: String,
    pub sha256: Sha256,
    pub file_name: String,
}

impl Payload {
    /// The basename of the decoded payload URL.
    pub fn name_decoded<'a>(&'a self) -> (r: &'a str)
        ensures
            r@ == spec_basename(self.url_decoded@),
    {
        basename_from_url(self.url_decoded.as_str())
    }
}

#[derive(Debug)]
pub struct Packages {
    pub packages: Vec<Package>,
    pub payloads: Vec<Payload>,
}

/// Payload ranges are well formed: they start at zero, never step
/// backwards, and end within the payload array.
pub open spec fn spec_packages_wf(ps: Packages) -> bool {
    &&& ps.packages@.len() > 0 ==> ps.packages@[0].payloads_offset == 0
    &&& ps.packages@.len() == 0 ==> ps.payloads@.len() == 0
    &&& forall|i: int|
        0 <= i < ps.packages@.len() ==> (#[trigger] ps.packages@[i].payloads_offset)
            <= ps.payloads@.len()
    &&& forall|i: int, j: int|
        0 <= i < j < ps.packages@.len() ==> (#[trigger] ps.packages@[i].payloads_offset)
            <= (#[trigger] ps.packages@[j].payloads_offset)
}

/// The payload index range of package `i`: from its offset up to the
/// next package's offset, or the end of the payload array for the
/// last package.
pub open spec fn spec_payload_range(ps: Packages, i: int) -> (int, int) {
    (
        ps.packages@[i].payloads_offset as int,
        if i == ps.packages@.len() - 1 {
            ps.payloads@.len() as int
        } else {
            ps.packages@[i + 1].payloads_offset as int
        },
    )
}

impl Packages {
    /// The payload index range belonging to the package at `pkg_index`.
    pub fn payload_range_from_pkg_index(&self, pkg_index: usize) -> (r: core::ops::Range<usize>)
        requires
            spec_packages_wf(*self),
            pkg_index < self.packages@.len(),
        ensures
            r.start as int == spec_payload_range(*self, pkg_index as int).0,
            r.end as int == spec_payload_range(*self, pkg_index as int).1,
            r.start <= r.end <= self.payloads@.len(),
    {
        let start = self.packages[pkg_index].payloads_offset;
        let limit = if pkg_index == self.packages.len() - 1 {
            self.payloads.len()
        } else {
            self.packages[pkg_index + 1].payloads_offset
        };
        core::ops::Range { start, end: limit }
    }

    /// The payloads belonging to the package at `pkg_index`.
    pub fn payloads_from_pkg_index<'a>(&'a self, pkg_index: usize) -> (r: &'a [Payload])
        requires
            spec_packages_wf(*self),
            pkg_index < self.packages@.len(),
        ensures
            r@ == self.payloads@.subrange(
                spec_payload_range(*self, pkg_index as int).0,
                spec_payload_range(*self, pkg_index as int).1,
            ),
    {
        let range = self.payload_range_from_pkg_index(pkg_index);
        vstd::slice::slice_subrange(self.payloads.as_slice(), range.start, range.end)
    }

    /// An empty, well-formed package table.
    pub fn new_empty() -> (r: Packages)
        ensures
            spec_packages_wf(r),
            r.packages@.len() == 0,
            r.payloads@.len() == 0,
    {
        Packages { packages: Vec::new(), payloads: Vec::new() }
    }

    /// Append a package; its payload range starts where the payload
    /// array currently ends.
    pub fn push_package(&mut self, id: String, version: String, language: Language)
        requires
            spec_packages_wf(*old(self)),
        ensures
            spec_packages_wf(*final(self)),
            final(self).payloads@ == old(self).payloads@,
            final(self).packages@.len() == old(self).packages@.len() + 1,
            final(self).packages@ == old(self).packages@.push(
                (Package {
                    id,
                    version,
                    payloads_offset: old(self).payloads@.len() as usize,
                    language,
                }),
            ),
    {
        let payloads_offset = self.payloads.len();
        self.packages.push(Package { id, version, payloads_offset, language });
    }

    /// Append a payload; it belongs to the most recent package.
    pub fn push_payload(&mut self, p: Payload)
        requires
            spec_packages_wf(*old(self)),
            old(self).packages@.len() > 0,
        ensures
            spec_packages_wf(*final(self)),
            final(self).packages@ == old(self).packages@,
            final(self).payloads@ == old(self).payloads@.push(p),
    {
        self.payloads.push(p);
    }

    /// The unique package whose payload range holds `payload_index`,
    /// found by binary search over the range boundaries.
    pub fn pkg_index_from_payload_index(&self, payload_index: usize) -> (r: usize)
        requires
            spec_packages_wf(*self),
            self.packages@.len() > 0,
            payload_index < self.payloads@.len(),
        ensures
            r < self.packages@.len(),
            spec_payload_range(*self, r as int).0 <= payload_index < spec_payload_range(
                *self,
                r as int,
            ).1,
    {
        let mut min: usize = 0;
        let mut max: usize = self.packages.len() - 1;
        loop
            invariant
                spec_packages_wf(*self),
                self.packages@.len() > 0,
                payload_index < self.payloads@.len(),
                0 <= min <= max < self.packages@.len(),
                spec_payload_range(*self, min as int).0 <= payload_index,
                payload_index < spec_payload_range(*self, max as int).1,
            decreases max - min,
        {
            if min == max {
                return min;
            }
            let mid = min + (max - min) / 2;
            let range = self.payload_range_from_pkg_index(mid);
            if payload_index < range.start {
                proof {
                    assert(mid >= 1);
                }
                max = mid - 1;
            } else if payload_index < range.end {
                return mid;
            } else {
                min = mid + 1;
            }
        }
    }
}

// --- Install decisions ---

#[derive(Debug)]
pub enum InstallPkgKind {
    Msvc(String),
    Msbuild(String),
    Diasdk,
    Ninja(String),
    Cmake(String),
}

/// Whether an MSVC sub-id (the text after the build version, starting
/// with a dot) names a CRT component that is installed.
pub open spec fn spec_msvc_crt_install(something: Seq<char>) -> bool {
    let crt = spec_scan_to(something, 1, '.').0;
    if crt != "CRT"@ {
        false
    } else {
        let after_crt = something.skip(1 + crt.len() as int);
        if spec_has_prefix(after_crt, "."@) {
            let after_dot = after_crt.skip(1);
            if after_dot == "Headers.base"@ {
                true
            } else {
                let next_part = spec_scan_to(after_dot, 0, '.').0;
                let next_end = spec_scan_to(after_dot, 0, '.').1;
                if next_part == "Redist"@ {
                    let rest2 = after_dot.skip(next_end);
                    let arch_part = spec_scan_to(rest2, 0, '.').0;
                    let arch_end = spec_scan_to(rest2, 0, '.').1;
                    crate::arch::spec_arch_from_ignore_case(arch_part) is Some && rest2.skip(
                        arch_end,
                    ) == "base"@
                } else if crate::arch::spec_arch_from_ignore_case(next_part) is Some {
                    let final_rest = after_dot.skip(next_end);
                    ||| final_rest == "Desktop.base"@
                    ||| final_rest == "Desktop.debug.base"@
                    ||| final_rest == "Store.base"@
                } else {
                    false
                }
            }
        } else {
            false
        }
    }
}

/// The install decision for a vendor package id, at the
/// specification level.
pub enum InstallPkgView {
    Msvc(Seq<char>),
    Msbuild(Seq<char>),
    Diasdk,
    Ninja(Seq<char>),
    Cmake(Seq<char>),
}

/// The install decision for a vendor package id, `None` when it is
/// not installed.
pub open spec fn spec_install_pkg_of(id: Seq<char>) -> Option<InstallPkgView> {
    if id == "Microsoft.Build"@ || id == "Microsoft.Build.Arm64"@ {
        Some(InstallPkgView::Msbuild("170"@))
    } else if spec_has_prefix(id, "Microsoft.VisualStudio.VC.MSBuild."@) {
        let rest = id.skip("Microsoft.VisualStudio.VC.MSBuild."@.len() as int);
        if spec_scan_to(rest, 0, '.').0 == "v170"@ {
            Some(InstallPkgView::Msbuild("170"@))
        } else {
            None
        }
    } else if id == "Microsoft.VisualCpp.DIA.SDK"@ {
        Some(InstallPkgView::Diasdk)
    } else if spec_has_prefix(id, "Microsoft.VC."@) {
        let plen = "Microsoft.VC."@.len() as int;
        let rest = id.skip(plen);
        let version = spec_scan_id_version(rest, 0).0;
        let version_end = spec_scan_id_version(rest, 0).1;
        if version.len() == 0 {
            None
        } else {
            let rest2 = rest.skip(version_end);
            if rest2.len() == 0 || rest2[0] != '.' {
                None
            } else {
                let rest2b = rest2.skip(1);
                let tools_part = spec_scan_to(rest2b, 0, '.').0;
                let tools_end = spec_scan_to(rest2b, 0, '.').1;
                if tools_part != "Tools"@ {
                    if spec_msvc_crt_install(rest2) {
                        Some(InstallPkgView::Msvc(version))
                    } else {
                        None
                    }
                } else {
                    let rest3 = rest2b.skip(tools_end);
                    let host_part = spec_scan_to(rest3, 0, '.').0;
                    let host_end = spec_scan_to(rest3, 0, '.').1;
                    if host_part.len() == 0 {
                        None
                    } else if !spec_has_prefix(host_part, "Host"@) {
                        None
                    } else {
                        match crate::arch::spec_arch_from_ignore_case(host_part.skip(4)) {
                            None => None,
                            Some(host_arch) => {
                                let rest4 = rest3.skip(host_end);
                                let target_part = spec_scan_to(rest4, 0, '.').0;
                                let target_end = spec_scan_to(rest4, 0, '.').1;
                                if !spec_has_prefix(target_part, "Target"@) {
                                    None
                                } else {
                                    match crate::arch::spec_arch_from_ignore_case(
                                        target_part.skip(6),
                                    ) {
                                        None => None,
                                        Some(target_arch) => {
                                            let name = rest4.skip(target_end);
                                            if name == "base"@ || name == "Res.base"@ {
                                                Some(InstallPkgView::Msvc(version))
                                            } else {
                                                None
                                            }
                                        },
                                    }
                                }
                            },
                        }
                    }
                }
            }
        }
    } else if spec_has_prefix(id, "ninja-"@) {
        let rest = id.skip(6);
        let version = spec_scan_id_version(rest, 0).0;
        let version_end = spec_scan_id_version(rest, 0).1;
        if version.len() > 0 && version_end == rest.len() {
            Some(InstallPkgView::Ninja(version))
        } else {
            None
        }
    } else if spec_has_prefix(id, "cmake-"@) {
        let rest = id.skip(6);
        let version = spec_scan_id_version(rest, 0).0;
        let version_end = spec_scan_id_version(rest, 0).1;
        if version.len() > 0 && version_end == rest.len() {
            Some(InstallPkgView::Cmake(version))
        } else {
            None
        }
    } else {
        None
    }
}

/// What `get_install_pkg` must return for the id `id`.
pub open spec fn spec_get_install_pkg_ok(id: Seq<char>, r: Option<InstallPkgKind>) -> bool {
    match spec_install_pkg_of(id) {
        None => r is None,
        Some(InstallPkgView::Msvc(v)) => r matches Some(InstallPkgKind::Msvc(s)) && s@ == v,
        Some(InstallPkgView::Msbuild(v)) => r matches Some(InstallPkgKind::Msbuild(s)) && s@ == v,
        Some(InstallPkgView::Diasdk) => r matches Some(InstallPkgKind::Diasdk),
        Some(InstallPkgView::Ninja(v)) => r matches Some(InstallPkgKind::Ninja(s)) && s@ == v,
        Some(InstallPkgView::Cmake(v)) => r matches Some(InstallPkgKind::Cmake(s)) && s@ == v,
    }
}

/// Decide whether a vendor package is installed, and as what.
#[verifier::rlimit(100)]
pub fn get_install_pkg(id: &str) -> (r: Option<InstallPkgKind>)
    ensures
        spec_get_install_pkg_ok(id@, r),
{
    match identify_package(id) {
        PackageId::Unknown => None,
        PackageId::Unexpected { .. } => None,
        PackageId::MsvcVersionSomething { build_version, something } => {
            if msvc_crt_install(something) {
                Some(InstallPkgKind::Msvc(build_version.to_owned()))
            } else {
                None
            }
        },
        PackageId::MsvcVersionToolsSomething { .. } => None,
        PackageId::MsvcVersionHostTarget { build_version, name, .. } => {
            if str_eq(name, "base") || str_eq(name, "Res.base") {
                Some(InstallPkgKind::Msvc(build_version.to_owned()))
            } else {
                None
            }
        },
        PackageId::Msbuild(version) => Some(InstallPkgKind::Msbuild(version.to_owned())),
        PackageId::Diasdk => Some(InstallPkgKind::Diasdk),
        PackageId::Ninja(version) => Some(InstallPkgKind::Ninja(version.to_owned())),
        PackageId::Cmake(version) => Some(InstallPkgKind::Cmake(version.to_owned())),
    }
}

/// The CRT decision on the text after an MSVC build version.
fn msvc_crt_install(something: &str) -> (r: bool)
    requires
        something@.len() >= 1,
    ensures
        r == spec_msvc_crt_install(something@),
{
    let n = something.unicode_len();
    let cr = scan_id_part(something, 1);
    let crt = cr.0;
    if !str_eq(crt, "CRT") {
        return false;
    }
    proof {
        reveal_strlit("CRT");
    }
    let cl = crt.unicode_len();
    let after_crt = something.substring_char(1 + cl, n);
    proof {
        assert(after_crt@ =~= something@.skip(1 + crt@.len() as int));
    }
    if !str_has_prefix(after_crt, ".") {
        return false;
    }
    proof {
        reveal_strlit(".");
    }
    let an = after_crt.unicode_len();
    let after_dot = after_crt.substring_char(1, an);
    proof {
        assert(after_dot@ =~= after_crt@.skip(1));
    }
    if str_eq(after_dot, "Headers.base") {
        return true;
    }
    let np = scan_id_part(after_dot, 0);
    let next_part = np.0;
    let next_end = np.1;
    let adn = after_dot.unicode_len();
    if str_eq(next_part, "Redist") {
        let rest2 = after_dot.substring_char(next_end, adn);
        proof {
            assert(rest2@ =~= after_dot@.skip(next_end as int));
        }
        let ap = scan_id_part(rest2, 0);
        let arch_part = ap.0;
        let arch_end = ap.1;
        if Arch::from_str_ignore_case(arch_part).is_some() {
            let rn = rest2.unicode_len();
            let final_rest = rest2.substring_char(arch_end, rn);
            proof {
                assert(final_rest@ =~= rest2@.skip(arch_end as int));
            }
            return str_eq(final_rest, "base");
        }
        return false;
    }
    if Arch::from_str_ignore_case(next_part).is_some() {
        let final_rest = after_dot.substring_char(next_end, adn);
        proof {
            assert(final_rest@ =~= after_dot@.skip(next_end as int));
        }
        return str_eq(final_rest, "Desktop.base") || str_eq(final_rest, "Desktop.debug.base")
            || str_eq(final_rest, "Store.base");
    }
    false
}

// --- Manifest update policy ---

#[derive(Debug, Clone, Copy, PartialEq, Eq, Structural)]
pub enum ManifestUpdate {
    Off,
    Daily,
    Always,
}

/// Parse a manifest update policy name.
pub fn parse_manifest_update(s: &str) -> (r: Result<ManifestUpdate, ()>)
    ensures
        r == (if s@ == "off"@ {
            Ok::<ManifestUpdate, ()>(ManifestUpdate::Off)
        } else if s@ == "daily"@ {
            Ok::<ManifestUpdate, ()>(ManifestUpdate::Daily)
        } else if s@ == "always"@ {
            Ok::<ManifestUpdate, ()>(ManifestUpdate::Always)
        } else {
            Err::<ManifestUpdate, ()>(())
        }),
{
    if str_eq(s, "off") {
        Ok(ManifestUpdate::Off)
    } else if str_eq(s, "daily") {
        Ok(ManifestUpdate::Daily)
    } else if str_eq(s, "always") {
        Ok(ManifestUpdate::Always)
    } else {
        Err(())
    }
}

} // verus!
