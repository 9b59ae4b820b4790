//! Rebuilding the lock file from the vendor manifest: select every
//! payload of the vendor packages that the requested set names, as a
//! sorted, duplicate-free list of (target, payload index) pairs, and
//! render it through the lock file codec.
use vstd::prelude::*;

verus! {

use core::cmp::Ordering;
use vstd::string::StringExecFns;
use crate::packages::InstallPkgKind;
use crate::packages::InstallPkgView;
use crate::packages::Language;
use crate::packages::MsvcupPackage;
use crate::packages::MsvcupPackageKind;
use crate::packages::Packages;
use crate::packages::PayloadId;
use crate::packages::spec_install_pkg_of;
use crate::packages::spec_is_sdk_payload;
use crate::packages::spec_packages_wf;
use crate::packages::spec_payload_range;
use crate::packages::spec_pkg_order;
use crate::packages::spec_url_kind;
use crate::packages::lemma_pkg_order_swap;
use crate::packages::lemma_pkg_order_trans;
use crate::packages::get_install_pkg;
use crate::packages::identify_payload;
use crate::packages::get_lock_file_url_kind;
use crate::strutil::ord_swap;
use crate::strutil::str_eq;
use crate::lockfile_parse::spec_written_line;
use crate::lockfile_parse::write_payload;

/// The order over (target, payload index) pairs: target first, then
/// payload index.
pub open spec fn spec_pair_order(a: (MsvcupPackage, usize), b: (MsvcupPackage, usize)) -> Ordering {
    match spec_pkg_order(a.0, b.0) {
        Ordering::Equal => if a.1 < b.1 {
            Ordering::Less
        } else if a.1 > b.1 {
            Ordering::Greater
        } else {
            Ordering::Equal
        },
        o => o,
    }
}

pub open spec fn spec_pairs_sorted(s: Seq<(MsvcupPackage, usize)>) -> bool {
    forall|i: int, j: int|
        0 <= i < j < s.len() ==> spec_pair_order(#[trigger] s[i], #[trigger] s[j])
            == Ordering::Less
}

proof fn lemma_pair_order_swap(a: (MsvcupPackage, usize), b: (MsvcupPackage, usize))
    ensures
        spec_pair_order(b, a) == ord_swap(spec_pair_order(a, b)),
{
    lemma_pkg_order_swap(a.0, b.0);
}

proof fn lemma_pair_order_trans(
    a: (MsvcupPackage, usize),
    b: (MsvcupPackage, usize),
    c: (MsvcupPackage, usize),
)
    requires
        spec_pair_order(a, b) != Ordering::Greater,
        spec_pair_order(b, c) != Ordering::Greater,
    ensures
        spec_pair_order(a, c) != Ordering::Greater,
        spec_pair_order(a, b) == Ordering::Less || spec_pair_order(b, c) == Ordering::Less
            ==> spec_pair_order(a, c) == Ordering::Less,
{
    lemma_pkg_order_trans(a.0, b.0, c.0);
    lemma_pkg_order_swap(a.0, b.0);
    lemma_pkg_order_swap(b.0, c.0);
    if spec_pkg_order(a.0, b.0) == Ordering::Equal {
        crate::util::lemma_order_dotted_numeric_refl(a.0.version@);
        crate::packages::lemma_pkg_order_refl(a.0);
    }
}

/// Compare two (target, payload index) pairs.
fn pair_order(a: &(MsvcupPackage, usize), b: &(MsvcupPackage, usize)) -> (r: Ordering)
    ensures
        r == spec_pair_order(*a, *b),
{
    match MsvcupPackage::order(&a.0, &b.0) {
        Ordering::Equal => {
            if a.1 < b.1 {
                Ordering::Less
            } else if a.1 > b.1 {
                Ordering::Greater
            } else {
                Ordering::Equal
            }
        },
        o => o,
    }
}

/// Insert a pair into a sorted list, dropping duplicates that compare
/// equal: nothing else is added, every old element survives, and an
/// element comparing equal to the item is present afterwards.
#[verifier::rlimit(100)]
fn insert_sorted_pair(list: &mut Vec<(MsvcupPackage, usize)>, item: (MsvcupPackage, usize))
    requires
        spec_pairs_sorted(old(list)@),
    ensures
        spec_pairs_sorted(final(list)@),
        forall|e: int|
            #![trigger final(list)@[e]]
            0 <= e < final(list)@.len() ==> final(list)@[e] == item || exists|e0: int|
                0 <= e0 < old(list)@.len() && #[trigger] old(list)@[e0] == final(list)@[e],
        spec_pairs_kept(old(list)@, final(list)@),
        exists|e: int|
            0 <= e < final(list)@.len() && spec_pair_order(#[trigger] final(list)@[e], item)
                == Ordering::Equal,
        final(list)@.len() <= old(list)@.len() + 1,
{
    let n = list.len();
    let mut pos: usize = 0;
    loop
        invariant
            0 <= pos <= n,
            n == list@.len(),
            spec_pairs_sorted(list@),
            forall|j: int|
                0 <= j < pos ==> spec_pair_order(#[trigger] list@[j], item) == Ordering::Less,
        ensures
            0 <= pos <= n,
            n == list@.len(),
            forall|j: int|
                0 <= j < pos ==> spec_pair_order(#[trigger] list@[j], item) == Ordering::Less,
            pos < n ==> spec_pair_order(list@[pos as int], item) != Ordering::Less,
        decreases n - pos,
    {
        if pos >= n {
            break ;
        }
        let probe: &(MsvcupPackage, usize) = &list[pos];
        match pair_order(probe, &item) {
            Ordering::Less => {
                pos = pos + 1;
            },
            _ => {
                break ;
            },
        }
    }
    if pos < n {
        let probe: &(MsvcupPackage, usize) = &list[pos];
        match pair_order(probe, &item) {
            Ordering::Equal => {
                proof {
                    assert(spec_pair_order(list@[pos as int], item) == Ordering::Equal);
                    lemma_kept_refl(list@);
                }
                return ;
            },
            _ => {},
        }
    }
    let ghost oldlist = list@;
    list.insert(pos, item);
    proof {
        assert(list@ == oldlist.insert(pos as int, item));
        let p = pos as int;
        assert(list@[p] == item);
        assert(forall|j: int| 0 <= j < p ==> #[trigger] list@[j] == oldlist[j]);
        assert(forall|j: int| p < j < list@.len() ==> #[trigger] list@[j] == oldlist[j - 1]);
        assert forall|i: int, j: int|
            0 <= i < j < list@.len() implies spec_pair_order(#[trigger] list@[i], #[trigger] list@[j])
            == Ordering::Less by {
            if i < p && j == p {
                assert(list@[i] == oldlist[i]);
            } else if i == p && j > p {
                assert(list@[j] == oldlist[j - 1]);
                lemma_pair_order_swap(oldlist[p], item);
                if j - 1 > p {
                    lemma_pair_order_trans(item, oldlist[p], oldlist[j - 1]);
                }
            } else if i < p && j > p {
                assert(list@[i] == oldlist[i]);
                assert(list@[j] == oldlist[j - 1]);
            } else if j < p {
                assert(list@[i] == oldlist[i]);
                assert(list@[j] == oldlist[j]);
            } else if i > p {
                assert(list@[i] == oldlist[i - 1]);
                assert(list@[j] == oldlist[j - 1]);
            }
        }
        crate::packages::lemma_pkg_order_refl(item.0);
        assert(spec_pair_order(list@[p], item) == Ordering::Equal);
        assert forall|e0: int| #![trigger oldlist[e0]] 0 <= e0 < oldlist.len() implies spec_pair_kept_at(
            list@,
            oldlist[e0],
        ) by {
            reveal(spec_pair_kept_at);
            if e0 < p {
                assert(list@[e0] == oldlist[e0]);
            } else {
                assert(list@[e0 + 1] == oldlist[e0]);
            }
        }
    }
}

/// The target a vendor package installs as, when it is installed:
/// its kind and the version the requested set must name (the DIA SDK
/// is matched by the vendor package version).
pub open spec fn spec_target_of(id: Seq<char>, vendor_version: Seq<char>) -> Option<
    (MsvcupPackageKind, Seq<char>),
> {
    match spec_install_pkg_of(id) {
        None => None,
        Some(InstallPkgView::Msvc(v)) => Some((MsvcupPackageKind::Msvc, v)),
        Some(InstallPkgView::Msbuild(v)) => Some((MsvcupPackageKind::Msbuild, v)),
        Some(InstallPkgView::Diasdk) => Some((MsvcupPackageKind::Diasdk, vendor_version)),
        Some(InstallPkgView::Ninja(v)) => Some((MsvcupPackageKind::Ninja, v)),
        Some(InstallPkgView::Cmake(v)) => Some((MsvcupPackageKind::Cmake, v)),
    }
}

/// A language that participates in installation.
pub open spec fn spec_lang_ok(l: Language) -> bool {
    l == Language::Neutral || l == Language::EnUs
}

/// The pair (target `t`, payload index `pi`) is justified: some
/// vendor package in an installable language either installs as `t`
/// and owns payload `pi`, or owns the SDK payload `pi` while the
/// requested set names the SDK at the vendor package's version; and
/// `t` is drawn from the requested set.
#[verifier::opaque]
pub open spec fn spec_pair_selected(
    ps: Packages,
    req: Seq<MsvcupPackage>,
    t: MsvcupPackage,
    pi: int,
) -> bool {
    exists|g: int, k: int|
        0 <= g < ps.packages@.len() && 0 <= k < req.len() && spec_lang_ok(
            (#[trigger] ps.packages@[g]).language,
        ) && (#[trigger] req[k]).kind == t.kind && req[k].version@ == t.version@
            && spec_payload_range(ps, g).0 <= pi < spec_payload_range(ps, g).1 && (spec_target_of(
            ps.packages@[g].id@,
            ps.packages@[g].version@,
        ) == Some((t.kind, t.version@)) || (spec_is_sdk_payload(ps.payloads@[pi].file_name@)
            && t.kind == MsvcupPackageKind::Sdk && t.version@ == ps.packages@[g].version@))
}

/// Every pair of a list is justified and in bounds.
pub open spec fn spec_pairs_selected(
    ps: Packages,
    req: Seq<MsvcupPackage>,
    pairs: Seq<(MsvcupPackage, usize)>,
) -> bool {
    forall|e: int|
        #![trigger pairs[e]]
        0 <= e < pairs.len() ==> spec_pair_selected(ps, req, pairs[e].0, pairs[e].1 as int)
            && pairs[e].1 < ps.payloads@.len()
}

/// Inserting a justified pair into a justified list keeps it justified.
proof fn lemma_selected_after_insert(
    ps: Packages,
    req: Seq<MsvcupPackage>,
    oldp: Seq<(MsvcupPackage, usize)>,
    newp: Seq<(MsvcupPackage, usize)>,
    item: (MsvcupPackage, usize),
)
    requires
        spec_pairs_selected(ps, req, oldp),
        spec_pair_selected(ps, req, item.0, item.1 as int),
        item.1 < ps.payloads@.len(),
        forall|e: int|
            #![trigger newp[e]]
            0 <= e < newp.len() ==> newp[e] == item || exists|e0: int|
                0 <= e0 < oldp.len() && #[trigger] oldp[e0] == newp[e],
    ensures
        spec_pairs_selected(ps, req, newp),
{
    assert forall|e: int|
        #![trigger newp[e]]
        0 <= e < newp.len() implies spec_pair_selected(ps, req, newp[e].0, newp[e].1 as int)
        && newp[e].1 < ps.payloads@.len() by {
        if newp[e] != item {
            let e0 = choose|e0: int| 0 <= e0 < oldp.len() && #[trigger] oldp[e0] == newp[e];
            assert(spec_pair_selected(ps, req, oldp[e0].0, oldp[e0].1 as int));
        }
    }
}

/// `x` is an element of `newp`.
#[verifier::opaque]
pub open spec fn spec_pair_kept_at(
    newp: Seq<(MsvcupPackage, usize)>,
    x: (MsvcupPackage, usize),
) -> bool {
    exists|e: int| 0 <= e < newp.len() && #[trigger] newp[e] == x
}

/// Every element of `oldp` is also an element of `newp`.
pub open spec fn spec_pairs_kept(
    oldp: Seq<(MsvcupPackage, usize)>,
    newp: Seq<(MsvcupPackage, usize)>,
) -> bool {
    forall|e0: int|
        #![trigger oldp[e0]]
        0 <= e0 < oldp.len() ==> spec_pair_kept_at(newp, oldp[e0])
}

proof fn lemma_kept_at_witness(newp: Seq<(MsvcupPackage, usize)>, x: (MsvcupPackage, usize))
    requires
        spec_pair_kept_at(newp, x),
    ensures
        exists|e: int| 0 <= e < newp.len() && #[trigger] newp[e] == x,
{
    reveal(spec_pair_kept_at);
}

proof fn lemma_kept_refl(p: Seq<(MsvcupPackage, usize)>)
    ensures
        spec_pairs_kept(p, p),
{
    assert forall|e0: int| #![trigger p[e0]] 0 <= e0 < p.len() implies spec_pair_kept_at(
        p,
        p[e0],
    ) by {
        reveal(spec_pair_kept_at);
        assert(p[e0] == p[e0]);
    }
}

proof fn lemma_kept_trans(
    a: Seq<(MsvcupPackage, usize)>,
    b: Seq<(MsvcupPackage, usize)>,
    c: Seq<(MsvcupPackage, usize)>,
)
    requires
        spec_pairs_kept(a, b),
        spec_pairs_kept(b, c),
    ensures
        spec_pairs_kept(a, c),
{
    assert forall|e0: int| #![trigger a[e0]] 0 <= e0 < a.len() implies spec_pair_kept_at(
        c,
        a[e0],
    ) by {
        lemma_kept_at_witness(b, a[e0]);
        let e1 = choose|e1: int| 0 <= e1 < b.len() && #[trigger] b[e1] == a[e0];
        lemma_kept_at_witness(c, b[e1]);
        let e2 = choose|e2: int| 0 <= e2 < c.len() && #[trigger] c[e2] == b[e1];
        assert(spec_pair_kept_at(c, a[e0])) by {
            reveal(spec_pair_kept_at);
            assert(c[e2] == a[e0]);
        }
    }
}

/// A pair with this identity and payload index is in the list.
#[verifier::opaque]
pub open spec fn spec_pair_present(
    pairs: Seq<(MsvcupPackage, usize)>,
    kind: MsvcupPackageKind,
    version: Seq<char>,
    pi: int,
) -> bool {
    exists|e: int|
        0 <= e < pairs.len() && (#[trigger] pairs[e]).0.kind == kind && pairs[e].0.version@
            == version && pairs[e].1 as int == pi
}

/// Pairs with this identity cover the whole index range.
#[verifier::opaque]
pub open spec fn spec_range_present(
    pairs: Seq<(MsvcupPackage, usize)>,
    kind: MsvcupPackageKind,
    version: Seq<char>,
    lo: int,
    hi: int,
) -> bool {
    forall|pi: int| lo <= pi < hi ==> spec_pair_present(pairs, kind, version, pi)
}

/// Completeness of the selection by package id, below package `glim`:
/// every payload of a vendor package in an installable language that
/// installs as a requested package is paired with that package.
pub open spec fn spec_ids_complete(
    ps: Packages,
    req: Seq<MsvcupPackage>,
    pairs: Seq<(MsvcupPackage, usize)>,
    glim: int,
) -> bool {
    forall|g: int, k: int|
        #![trigger ps.packages@[g], req[k]]
        0 <= g < glim && 0 <= k < req.len() && spec_lang_ok(ps.packages@[g].language)
            && spec_target_of(ps.packages@[g].id@, ps.packages@[g].version@) == Some(
            (req[k].kind, req[k].version@),
        ) ==> spec_range_present(
            pairs,
            req[k].kind,
            req[k].version@,
            spec_payload_range(ps, g).0,
            spec_payload_range(ps, g).1,
        )
}

/// Completeness of the selection by payload file name, below package
/// `glim`: every SDK payload of a vendor package in an installable
/// language whose version the requested set names as an SDK is paired
/// with that requested package.
pub open spec fn spec_sdks_complete(
    ps: Packages,
    req: Seq<MsvcupPackage>,
    pairs: Seq<(MsvcupPackage, usize)>,
    glim: int,
) -> bool {
    forall|g: int, k: int, pi: int|
        #![trigger ps.packages@[g], req[k], ps.payloads@[pi]]
        0 <= g < glim && 0 <= k < req.len() && 0 <= pi < ps.payloads@.len() && spec_lang_ok(
            ps.packages@[g].language,
        ) && spec_payload_range(ps, g).0 <= pi < spec_payload_range(ps, g).1
            && spec_is_sdk_payload(ps.payloads@[pi].file_name@) && req[k].kind
            == MsvcupPackageKind::Sdk && req[k].version@ == ps.packages@[g].version@
            ==> spec_pair_present(pairs, MsvcupPackageKind::Sdk, req[k].version@, pi)
}

/// Presence survives when every element survives.
proof fn lemma_present_mono(
    oldp: Seq<(MsvcupPackage, usize)>,
    newp: Seq<(MsvcupPackage, usize)>,
    kind: MsvcupPackageKind,
    version: Seq<char>,
    pi: int,
)
    requires
        spec_pair_present(oldp, kind, version, pi),
        spec_pairs_kept(oldp, newp),
    ensures
        spec_pair_present(newp, kind, version, pi),
{
    reveal(spec_pair_present);
    let e0 = choose|e0: int|
        0 <= e0 < oldp.len() && (#[trigger] oldp[e0]).0.kind == kind && oldp[e0].0.version@
            == version && oldp[e0].1 as int == pi;
    lemma_kept_at_witness(newp, oldp[e0]);
    let e = choose|e: int| 0 <= e < newp.len() && #[trigger] newp[e] == oldp[e0];
    assert(newp[e].0.kind == kind && newp[e].0.version@ == version && newp[e].1 as int == pi);
}

proof fn lemma_range_present_mono(
    oldp: Seq<(MsvcupPackage, usize)>,
    newp: Seq<(MsvcupPackage, usize)>,
    kind: MsvcupPackageKind,
    version: Seq<char>,
    lo: int,
    hi: int,
)
    requires
        spec_range_present(oldp, kind, version, lo, hi),
        spec_pairs_kept(oldp, newp),
    ensures
        spec_range_present(newp, kind, version, lo, hi),
{
    reveal(spec_range_present);
    assert forall|pi: int| lo <= pi < hi implies spec_pair_present(newp, kind, version, pi) by {
        lemma_present_mono(oldp, newp, kind, version, pi);
    }
}

/// Both completeness facts survive insertions.
proof fn lemma_complete_mono(
    ps: Packages,
    req: Seq<MsvcupPackage>,
    oldp: Seq<(MsvcupPackage, usize)>,
    newp: Seq<(MsvcupPackage, usize)>,
    glim: int,
)
    requires
        spec_ids_complete(ps, req, oldp, glim),
        spec_sdks_complete(ps, req, oldp, glim),
        spec_pairs_kept(oldp, newp),
    ensures
        spec_ids_complete(ps, req, newp, glim),
        spec_sdks_complete(ps, req, newp, glim),
{
    assert forall|g: int, k: int|
        #![trigger ps.packages@[g], req[k]]
        0 <= g < glim && 0 <= k < req.len() && spec_lang_ok(ps.packages@[g].language)
            && spec_target_of(ps.packages@[g].id@, ps.packages@[g].version@) == Some(
            (req[k].kind, req[k].version@),
        ) implies spec_range_present(
        newp,
        req[k].kind,
        req[k].version@,
        spec_payload_range(ps, g).0,
        spec_payload_range(ps, g).1,
    ) by {
        lemma_range_present_mono(
            oldp,
            newp,
            req[k].kind,
            req[k].version@,
            spec_payload_range(ps, g).0,
            spec_payload_range(ps, g).1,
        );
    }
    assert forall|g: int, k: int, pi: int|
        #![trigger ps.packages@[g], req[k], ps.payloads@[pi]]
        0 <= g < glim && 0 <= k < req.len() && 0 <= pi < ps.payloads@.len() && spec_lang_ok(
            ps.packages@[g].language,
        ) && spec_payload_range(ps, g).0 <= pi < spec_payload_range(ps, g).1
            && spec_is_sdk_payload(ps.payloads@[pi].file_name@) && req[k].kind
            == MsvcupPackageKind::Sdk && req[k].version@ == ps.packages@[g].version@ implies spec_pair_present(
        newp,
        MsvcupPackageKind::Sdk,
        req[k].version@,
        pi,
    ) by {
        lemma_present_mono(oldp, newp, MsvcupPackageKind::Sdk, req[k].version@, pi);
    }
}

/// A justified pair carries the identity of some requested package.
proof fn lemma_selected_identity(ps: Packages, req: Seq<MsvcupPackage>, t: MsvcupPackage, pi: int)
    requires
        spec_pair_selected(ps, req, t, pi),
    ensures
        exists|k: int|
            0 <= k < req.len() && (#[trigger] req[k]).kind == t.kind && req[k].version@
                == t.version@,
{
    reveal(spec_pair_selected);
    let (g, k) = choose|g: int, k: int|
        0 <= g < ps.packages@.len() && 0 <= k < req.len() && spec_lang_ok(
            (#[trigger] ps.packages@[g]).language,
        ) && (#[trigger] req[k]).kind == t.kind && req[k].version@ == t.version@
            && spec_payload_range(ps, g).0 <= pi < spec_payload_range(ps, g).1 && (spec_target_of(
            ps.packages@[g].id@,
            ps.packages@[g].version@,
        ) == Some((t.kind, t.version@)) || (spec_is_sdk_payload(ps.payloads@[pi].file_name@)
            && t.kind == MsvcupPackageKind::Sdk && t.version@ == ps.packages@[g].version@));
    assert(0 <= k < req.len() && req[k].kind == t.kind && req[k].version@ == t.version@);
}

/// After an insertion of a pair drawn from requested package `mi`, a
/// pair with exactly that identity and payload index is present: the
/// surviving order-equal element carries the same identity, because
/// the requested set is sorted and every element is drawn from it.
proof fn lemma_pair_present_after_insert(
    ps: Packages,
    req: Seq<MsvcupPackage>,
    newp: Seq<(MsvcupPackage, usize)>,
    item: (MsvcupPackage, usize),
    mi: int,
)
    requires
        crate::packages::spec_pkgs_sorted(req),
        spec_pairs_selected(ps, req, newp),
        0 <= mi < req.len(),
        item.0.kind == req[mi].kind,
        item.0.version@ == req[mi].version@,
        exists|e: int|
            0 <= e < newp.len() && spec_pair_order(#[trigger] newp[e], item) == Ordering::Equal,
    ensures
        spec_pair_present(newp, req[mi].kind, req[mi].version@, item.1 as int),
{
    reveal(spec_pair_present);
    let e = choose|e: int|
        0 <= e < newp.len() && spec_pair_order(#[trigger] newp[e], item) == Ordering::Equal;
    crate::packages::lemma_kind_rank_inj(newp[e].0.kind, item.0.kind);
    assert(newp[e].1 == item.1);
    assert(spec_pair_selected(ps, req, newp[e].0, newp[e].1 as int));
    lemma_selected_identity(ps, req, newp[e].0, newp[e].1 as int);
    let k2 = choose|k2: int|
        0 <= k2 < req.len() && (#[trigger] req[k2]).kind == newp[e].0.kind && req[k2].version@
            == newp[e].0.version@;
    assert(crate::packages::spec_pkg_order(req[k2], req[mi]) == Ordering::Equal);
    if k2 != mi {
        crate::packages::lemma_pkg_order_swap(req[k2], req[mi]);
        assert(false);
    }
    assert(newp[e].0.kind == req[mi].kind && newp[e].0.version@ == req[mi].version@
        && newp[e].1 as int == item.1 as int);
}

/// Add the pairs that one vendor package contributes: its whole
/// payload range when its id installs as a requested package, and its
/// SDK payloads when the requested set names the SDK at its version.
#[verifier::rlimit(100)]
fn collect_package_payloads(
    pkgs: &Packages,
    msvcup_pkgs: &Vec<MsvcupPackage>,
    g: usize,
    out: &mut Vec<(MsvcupPackage, usize)>,
)
    requires
        spec_packages_wf(*pkgs),
        crate::packages::spec_pkgs_sorted(msvcup_pkgs@),
        g < pkgs.packages@.len(),
        spec_pairs_sorted(old(out)@),
        spec_pairs_selected(*pkgs, msvcup_pkgs@, old(out)@),
    ensures
        spec_pairs_sorted(final(out)@),
        spec_pairs_selected(*pkgs, msvcup_pkgs@, final(out)@),
        spec_pairs_kept(old(out)@, final(out)@),
        forall|k: int|
            #![trigger msvcup_pkgs@[k]]
            0 <= k < msvcup_pkgs@.len() && spec_lang_ok(pkgs.packages@[g as int].language)
                && spec_target_of(
                pkgs.packages@[g as int].id@,
                pkgs.packages@[g as int].version@,
            ) == Some((msvcup_pkgs@[k].kind, msvcup_pkgs@[k].version@)) ==> spec_range_present(
                final(out)@,
                msvcup_pkgs@[k].kind,
                msvcup_pkgs@[k].version@,
                spec_payload_range(*pkgs, g as int).0,
                spec_payload_range(*pkgs, g as int).1,
            ),
        forall|k: int, pi: int|
            #![trigger msvcup_pkgs@[k], pkgs.payloads@[pi]]
            0 <= k < msvcup_pkgs@.len() && 0 <= pi < pkgs.payloads@.len() && spec_lang_ok(
                pkgs.packages@[g as int].language,
            ) && spec_payload_range(*pkgs, g as int).0 <= pi < spec_payload_range(
                *pkgs,
                g as int,
            ).1 && spec_is_sdk_payload(pkgs.payloads@[pi].file_name@) && msvcup_pkgs@[k].kind
                == MsvcupPackageKind::Sdk && msvcup_pkgs@[k].version@
                == pkgs.packages@[g as int].version@ ==> spec_pair_present(
                final(out)@,
                MsvcupPackageKind::Sdk,
                msvcup_pkgs@[k].version@,
                pi,
            ),
{
    let ghost req = msvcup_pkgs@;
    let nk = msvcup_pkgs.len();
    let lang = pkgs.packages[g].language;
    let lang_ok = match lang {
        Language::Neutral | Language::EnUs => true,
        Language::Other => false,
    };
    if !lang_ok {
        proof {
            lemma_kept_refl(out@);
        }
        return ;
    }
    let range = pkgs.payload_range_from_pkg_index(g);
    // selection by package id
    let decision = get_install_pkg(pkgs.packages[g].id.as_str());
    let ghost tvopt = spec_target_of(
        pkgs.packages@[g as int].id@,
        pkgs.packages@[g as int].version@,
    );
    let mut id_matched: Option<usize> = None;
    match &decision {
        Some(install_pkg) => {
            let (needed_kind, needs_vendor_version) = match install_pkg {
                InstallPkgKind::Msvc(_) => (MsvcupPackageKind::Msvc, false),
                InstallPkgKind::Msbuild(_) => (MsvcupPackageKind::Msbuild, false),
                InstallPkgKind::Diasdk => (MsvcupPackageKind::Diasdk, true),
                InstallPkgKind::Ninja(_) => (MsvcupPackageKind::Ninja, false),
                InstallPkgKind::Cmake(_) => (MsvcupPackageKind::Cmake, false),
            };
            let ghost tv = tvopt->Some_0;
            proof {
                assert(needed_kind == tv.0);
                assert(match *install_pkg {
                    InstallPkgKind::Diasdk => tv.1 == pkgs.packages@[g as int].version@,
                    InstallPkgKind::Msvc(ref v)
                    | InstallPkgKind::Msbuild(ref v)
                    | InstallPkgKind::Ninja(ref v)
                    | InstallPkgKind::Cmake(ref v) => v@ == tv.1,
                });
            }
            let mut k: usize = 0;
            while k < nk
                invariant
                    0 <= k <= nk,
                    nk == req.len(),
                    req == msvcup_pkgs@,
                    g < pkgs.packages@.len(),
                    tvopt is Some,
                    tv == tvopt->Some_0,
                    needed_kind == tv.0,
                    needs_vendor_version == (*install_pkg matches InstallPkgKind::Diasdk),
                    (match *install_pkg {
                        InstallPkgKind::Diasdk => tv.1 == pkgs.packages@[g as int].version@,
                        InstallPkgKind::Msvc(ref v)
                        | InstallPkgKind::Msbuild(ref v)
                        | InstallPkgKind::Ninja(ref v)
                        | InstallPkgKind::Cmake(ref v) => v@ == tv.1,
                    }),
                    match id_matched {
                        Some(mi) => mi < nk && req[mi as int].kind == tv.0
                            && req[mi as int].version@ == tv.1,
                        None => forall|j: int|
                            0 <= j < k ==> !((#[trigger] req[j]).kind == tv.0 && req[j].version@
                                == tv.1),
                    },
                decreases nk - k,
            {
                let req_pkg: &MsvcupPackage = &msvcup_pkgs[k];
                let kind_matches = match (&req_pkg.kind, &needed_kind) {
                    (MsvcupPackageKind::Msvc, MsvcupPackageKind::Msvc) => true,
                    (MsvcupPackageKind::Sdk, MsvcupPackageKind::Sdk) => true,
                    (MsvcupPackageKind::Msbuild, MsvcupPackageKind::Msbuild) => true,
                    (MsvcupPackageKind::Diasdk, MsvcupPackageKind::Diasdk) => true,
                    (MsvcupPackageKind::Ninja, MsvcupPackageKind::Ninja) => true,
                    (MsvcupPackageKind::Cmake, MsvcupPackageKind::Cmake) => true,
                    _ => false,
                };
                let version_matches = if needs_vendor_version {
                    str_eq(req_pkg.version.as_str(), pkgs.packages[g].version.as_str())
                } else {
                    match install_pkg {
                        InstallPkgKind::Msvc(v)
                        | InstallPkgKind::Msbuild(v)
                        | InstallPkgKind::Ninja(v)
                        | InstallPkgKind::Cmake(v) => str_eq(req_pkg.version.as_str(), v.as_str()),
                        InstallPkgKind::Diasdk => false,
                    }
                };
                if kind_matches && version_matches {
                    proof {
                        assert(req[k as int].kind == tv.0);
                        assert(req[k as int].version@ == tv.1);
                    }
                    id_matched = Some(k);
                    k = nk;
                } else {
                    k = k + 1;
                }
            }
        },
        None => {},
    }
    proof {
        assert(decision is None ==> tvopt is None);
        assert(match id_matched {
            Some(mi) => tvopt is Some && mi < nk && req[mi as int].kind == (tvopt->Some_0).0
                && req[mi as int].version@ == (tvopt->Some_0).1,
            None => tvopt is Some ==> forall|j: int|
                0 <= j < req.len() ==> !((#[trigger] req[j]).kind == (tvopt->Some_0).0
                    && req[j].version@ == (tvopt->Some_0).1),
        });
    }
    match id_matched {
        Some(mi) => {
            let ghost tv = tvopt->Some_0;
            let mut pi: usize = range.start;
            let hi = range.end;
            proof {
                assert(spec_range_present(out@, tv.0, tv.1, range.start as int, pi as int)) by {
                    reveal(spec_range_present);
                }
                lemma_kept_refl(out@);
            }
            while pi < hi
                invariant
                    range.start <= pi <= hi,
                    g < pkgs.packages@.len(),
                    nk == req.len(),
                    req == msvcup_pkgs@,
                    mi < nk,
                    spec_packages_wf(*pkgs),
                    crate::packages::spec_pkgs_sorted(req),
                    range.start as int == spec_payload_range(*pkgs, g as int).0,
                    hi as int == spec_payload_range(*pkgs, g as int).1,
                    hi <= pkgs.payloads@.len(),
                    spec_lang_ok(pkgs.packages@[g as int].language),
                    req[mi as int].kind == tv.0,
                    req[mi as int].version@ == tv.1,
                    tvopt is Some,
                    tv == tvopt->Some_0,
                    tvopt == spec_target_of(
                        pkgs.packages@[g as int].id@,
                        pkgs.packages@[g as int].version@,
                    ),
                    spec_pairs_sorted(out@),
                    spec_pairs_selected(*pkgs, req, out@),
                    spec_pairs_kept(old(out)@, out@),
                    spec_range_present(out@, tv.0, tv.1, range.start as int, pi as int),
                decreases hi - pi,
            {
                let target = msvcup_pkgs[mi].duplicate();
                let ghost item = (target, pi);
                proof {
                    assert(spec_pair_selected(*pkgs, req, item.0, item.1 as int)) by {
                        reveal(spec_pair_selected);
                        assert(req[mi as int].kind == item.0.kind && req[mi as int].version@
                            == item.0.version@);
                    }
                }
                let ghost oldout = out@;
                insert_sorted_pair(out, (target, pi));
                proof {
                    lemma_selected_after_insert(*pkgs, req, oldout, out@, item);
                    lemma_kept_trans(old(out)@, oldout, out@);
                    lemma_pair_present_after_insert(*pkgs, req, out@, item, mi as int);
                    lemma_range_present_mono(
                        oldout,
                        out@,
                        tv.0,
                        tv.1,
                        range.start as int,
                        pi as int,
                    );
                    assert(spec_range_present(out@, tv.0, tv.1, range.start as int, pi + 1)) by {
                        reveal(spec_range_present);
                    }
                }
                pi = pi + 1;
            }
        },
        None => {
            proof {
                lemma_kept_refl(out@);
            }
        },
    }
    let ghost outmid = out@;
    // selection of SDK payloads by file name: the requested SDK
    // package at this vendor version, if any
    let mut sdk_matched: Option<usize> = None;
    let mut k: usize = 0;
    while k < nk
        invariant
            0 <= k <= nk,
            nk == req.len(),
            req == msvcup_pkgs@,
            g < pkgs.packages@.len(),
            match sdk_matched {
                Some(mi) => mi < nk && req[mi as int].kind == MsvcupPackageKind::Sdk
                    && req[mi as int].version@ == pkgs.packages@[g as int].version@,
                None => forall|j: int|
                    0 <= j < k ==> !((#[trigger] req[j]).kind == MsvcupPackageKind::Sdk
                        && req[j].version@ == pkgs.packages@[g as int].version@),
            },
        decreases nk - k,
    {
        let req_pkg: &MsvcupPackage = &msvcup_pkgs[k];
        let is_sdk_kind = match req_pkg.kind {
            MsvcupPackageKind::Sdk => true,
            _ => false,
        };
        if is_sdk_kind && str_eq(req_pkg.version.as_str(), pkgs.packages[g].version.as_str()) {
            sdk_matched = Some(k);
            k = nk;
        } else {
            k = k + 1;
        }
    }
    match sdk_matched {
        Some(mi) => {
            let ghost sdkver = req[mi as int].version@;
            let mut pi: usize = range.start;
            let hi = range.end;
            proof {
                lemma_kept_refl(outmid);
            }
            while pi < hi
                invariant
                    range.start <= pi <= hi,
                    g < pkgs.packages@.len(),
                    nk == req.len(),
                    req == msvcup_pkgs@,
                    mi < nk,
                    spec_packages_wf(*pkgs),
                    crate::packages::spec_pkgs_sorted(req),
                    range.start as int == spec_payload_range(*pkgs, g as int).0,
                    hi as int == spec_payload_range(*pkgs, g as int).1,
                    hi <= pkgs.payloads@.len(),
                    spec_lang_ok(pkgs.packages@[g as int].language),
                    req[mi as int].kind == MsvcupPackageKind::Sdk,
                    req[mi as int].version@ == pkgs.packages@[g as int].version@,
                    sdkver == req[mi as int].version@,
                    spec_pairs_sorted(out@),
                    spec_pairs_selected(*pkgs, req, out@),
                    spec_pairs_kept(old(out)@, out@),
                    spec_pairs_kept(outmid, out@),
                    forall|pi2: int|
                        range.start <= pi2 < pi && spec_is_sdk_payload(
                            (#[trigger] pkgs.payloads@[pi2]).file_name@,
                        ) ==> spec_pair_present(out@, MsvcupPackageKind::Sdk, sdkver, pi2),
                decreases hi - pi,
            {
                let payload = &pkgs.payloads[pi];
                let is_sdk = match identify_payload(payload.file_name.as_str()) {
                    PayloadId::Sdk => true,
                    PayloadId::Unknown => false,
                };
                if is_sdk {
                    let target = msvcup_pkgs[mi].duplicate();
                    let ghost item = (target, pi);
                    proof {
                        assert(spec_pair_selected(*pkgs, req, item.0, item.1 as int)) by {
                            reveal(spec_pair_selected);
                            assert(spec_is_sdk_payload(pkgs.payloads@[pi as int].file_name@));
                        }
                    }
                    let ghost oldout = out@;
                    insert_sorted_pair(out, (target, pi));
                    proof {
                        lemma_selected_after_insert(*pkgs, req, oldout, out@, item);
                        lemma_kept_trans(old(out)@, oldout, out@);
                        lemma_kept_trans(outmid, oldout, out@);
                        lemma_pair_present_after_insert(*pkgs, req, out@, item, mi as int);
                        assert forall|pi2: int|
                            range.start <= pi2 < pi + 1 && spec_is_sdk_payload(
                                (#[trigger] pkgs.payloads@[pi2]).file_name@,
                            ) implies spec_pair_present(
                            out@,
                            MsvcupPackageKind::Sdk,
                            sdkver,
                            pi2,
                        ) by {
                            if pi2 < pi {
                                lemma_present_mono(
                                    oldout,
                                    out@,
                                    MsvcupPackageKind::Sdk,
                                    sdkver,
                                    pi2,
                                );
                            }
                        }
                    }
                }
                pi = pi + 1;
            }
        },
        None => {
            proof {
                lemma_kept_refl(outmid);
            }
        },
    }
    proof {
        let g0 = g as int;
        let lo = spec_payload_range(*pkgs, g0).0;
        let hi0 = spec_payload_range(*pkgs, g0).1;
        assert forall|k2: int|
            #![trigger req[k2]]
            0 <= k2 < req.len() && spec_lang_ok(pkgs.packages@[g0].language) && spec_target_of(
                pkgs.packages@[g0].id@,
                pkgs.packages@[g0].version@,
            ) == Some((req[k2].kind, req[k2].version@)) implies spec_range_present(
            out@,
            req[k2].kind,
            req[k2].version@,
            lo,
            hi0,
        ) by {
            assert(tvopt == Some((req[k2].kind, req[k2].version@)));
            match id_matched {
                Some(mi) => {
                    lemma_range_present_mono(outmid, out@, req[k2].kind, req[k2].version@, lo, hi0);
                },
                None => {
                    assert(false);
                },
            }
        }
        assert forall|k2: int, pi: int|
            #![trigger req[k2], pkgs.payloads@[pi]]
            0 <= k2 < req.len() && 0 <= pi < pkgs.payloads@.len() && spec_lang_ok(
                pkgs.packages@[g0].language,
            ) && lo <= pi < hi0 && spec_is_sdk_payload(pkgs.payloads@[pi].file_name@)
                && req[k2].kind == MsvcupPackageKind::Sdk && req[k2].version@
                == pkgs.packages@[g0].version@ implies spec_pair_present(
            out@,
            MsvcupPackageKind::Sdk,
            req[k2].version@,
            pi,
        ) by {
            match sdk_matched {
                Some(mi) => {
                    assert(req[mi as int].version@ == req[k2].version@);
                },
                None => {
                    assert(false);
                },
            }
        }
    }
}

/// Collect the sorted, duplicate-free (target, payload index) pairs
/// that the lock file must name for the requested set: every pair is
/// justified by a vendor package, and every payload of every matching
/// vendor package is present, for both selection rules.
pub fn collect_install_payloads(pkgs: &Packages, msvcup_pkgs: &Vec<MsvcupPackage>) -> (r: Vec<
    (MsvcupPackage, usize),
>)
    requires
        spec_packages_wf(*pkgs),
        crate::packages::spec_pkgs_sorted(msvcup_pkgs@),
    ensures
        spec_pairs_sorted(r@),
        spec_pairs_selected(*pkgs, msvcup_pkgs@, r@),
        spec_ids_complete(*pkgs, msvcup_pkgs@, r@, pkgs.packages@.len() as int),
        spec_sdks_complete(*pkgs, msvcup_pkgs@, r@, pkgs.packages@.len() as int),
{
    let mut out: Vec<(MsvcupPackage, usize)> = Vec::new();
    let ng = pkgs.packages.len();
    let mut g: usize = 0;
    while g < ng
        invariant
            0 <= g <= ng,
            ng == pkgs.packages@.len(),
            spec_packages_wf(*pkgs),
            crate::packages::spec_pkgs_sorted(msvcup_pkgs@),
            spec_pairs_sorted(out@),
            spec_pairs_selected(*pkgs, msvcup_pkgs@, out@),
            spec_ids_complete(*pkgs, msvcup_pkgs@, out@, g as int),
            spec_sdks_complete(*pkgs, msvcup_pkgs@, out@, g as int),
        decreases ng - g,
    {
        let ghost oldout = out@;
        collect_package_payloads(pkgs, msvcup_pkgs, g, &mut out);
        proof {
            lemma_complete_mono(*pkgs, msvcup_pkgs@, oldout, out@, g as int);
            assert forall|g2: int, k: int|
                #![trigger pkgs.packages@[g2], msvcup_pkgs@[k]]
                0 <= g2 < g + 1 && 0 <= k < msvcup_pkgs@.len() && spec_lang_ok(
                    pkgs.packages@[g2].language,
                ) && spec_target_of(pkgs.packages@[g2].id@, pkgs.packages@[g2].version@) == Some(
                    (msvcup_pkgs@[k].kind, msvcup_pkgs@[k].version@),
                ) implies spec_range_present(
                out@,
                msvcup_pkgs@[k].kind,
                msvcup_pkgs@[k].version@,
                spec_payload_range(*pkgs, g2).0,
                spec_payload_range(*pkgs, g2).1,
            ) by {
            }
            assert forall|g2: int, k: int, pi: int|
                #![trigger pkgs.packages@[g2], msvcup_pkgs@[k], pkgs.payloads@[pi]]
                0 <= g2 < g + 1 && 0 <= k < msvcup_pkgs@.len() && 0 <= pi < pkgs.payloads@.len()
                    && spec_lang_ok(pkgs.packages@[g2].language) && spec_payload_range(
                    *pkgs,
                    g2,
                ).0 <= pi < spec_payload_range(*pkgs, g2).1 && spec_is_sdk_payload(
                    pkgs.payloads@[pi].file_name@,
                ) && msvcup_pkgs@[k].kind == MsvcupPackageKind::Sdk && msvcup_pkgs@[k].version@
                    == pkgs.packages@[g2].version@ implies spec_pair_present(
                out@,
                MsvcupPackageKind::Sdk,
                msvcup_pkgs@[k].version@,
                pi,
            ) by {
            }
        }
        g = g + 1;
    }
    out
}

/// The lock file text for a pair list: one line per pair, as
/// `write_payload` renders it, newline-terminated.
pub open spec fn spec_rendered_lines(ps: Packages, pairs: Seq<(MsvcupPackage, usize)>) -> Seq<char>
    decreases pairs.len(),
{
    if pairs.len() == 0 {
        Seq::<char>::empty()
    } else {
        let p = pairs[0];
        let payload = ps.payloads@[p.1 as int];
        let line = match spec_url_kind(payload.url_decoded@) {
            Some(kind) => spec_written_line(
                Some(p.0),
                kind,
                payload.url_decoded@,
                payload.sha256.bytes@,
                payload.file_name@,
            ),
            None => Seq::<char>::empty(),
        };
        line + "\n"@ + spec_rendered_lines(ps, pairs.drop_first())
    }
}

#[derive(Debug, Clone, Copy, PartialEq, Eq, Structural)]
pub enum RenderLockError {
    UnknownUrlKind,
}

/// Render the collected pairs as lock file text.
pub fn render_lock_file(pkgs: &Packages, pairs: &Vec<(MsvcupPackage, usize)>) -> (r: Result<
    String,
    RenderLockError,
>)
    requires
        forall|e: int|
            #![trigger pairs@[e]]
            0 <= e < pairs@.len() ==> pairs@[e].1 < pkgs.payloads@.len(),
    ensures
        match r {
            Ok(s) => (forall|e: int|
                #![trigger pairs@[e]]
                0 <= e < pairs@.len() ==> spec_url_kind(
                    pkgs.payloads@[pairs@[e].1 as int].url_decoded@,
                ) is Some) && s@ == spec_rendered_lines(*pkgs, pairs@),
            Err(RenderLockError::UnknownUrlKind) => exists|e: int|
                0 <= e < pairs@.len() && spec_url_kind(
                    pkgs.payloads@[(#[trigger] pairs@[e]).1 as int].url_decoded@,
                ) is None,
        },
{
    let n = pairs.len();
    let mut out = String::new();
    let mut i: usize = 0;
    proof {
        assert(pairs@.skip(0) =~= pairs@);
    }
    while i < n
        invariant
            0 <= i <= n,
            n == pairs@.len(),
            forall|e: int|
                #![trigger pairs@[e]]
                0 <= e < pairs@.len() ==> pairs@[e].1 < pkgs.payloads@.len(),
            forall|e: int|
                #![trigger pairs@[e]]
                0 <= e < i ==> spec_url_kind(pkgs.payloads@[pairs@[e].1 as int].url_decoded@) is Some,
            spec_rendered_lines(*pkgs, pairs@) == out@ + spec_rendered_lines(
                *pkgs,
                pairs@.skip(i as int),
            ),
        decreases n - i,
    {
        proof {
            assert(pairs@.skip(i as int)[0] == pairs@[i as int]);
            assert(pairs@.skip(i as int).drop_first() =~= pairs@.skip(i + 1));
        }
        let target: &MsvcupPackage = &pairs[i].0;
        let payload_index = pairs[i].1;
        let payload = &pkgs.payloads[payload_index];
        let url_kind = match get_lock_file_url_kind(payload.url_decoded.as_str()) {
            Some(k) => k,
            None => {
                return Err(RenderLockError::UnknownUrlKind);
            },
        };
        let line = write_payload(
            Some(target),
            url_kind,
            payload.url_decoded.as_str(),
            &payload.sha256,
            payload.file_name.as_str(),
        );
        out.append(line.as_str());
        out.append("\n");
        i = i + 1;
    }
    proof {
        assert(pairs@.skip(n as int) =~= Seq::<(MsvcupPackage, usize)>::empty());
    }
    Ok(out)
}

} // verus!
