//! Version-text utilities: dotted-numeric ordering, version scanning,
//! URL helpers and percent decoding.
//!
//! The ordering over dotted version strings splits on `.` and compares
//! the resulting groups numerically, falling back to lexicographic
//! comparison for non-numeric groups; it is proved to be a total
//! preorder (`lemma_order_dotted_numeric_*`).
use vstd::prelude::*;

verus! {

use core::cmp::Ordering;
use vstd::string::StrSliceExecFns;
use crate::strutil::spec_parse_u64;
use crate::strutil::spec_lex_cmp;
use crate::strutil::spec_is_digit;
use crate::strutil::spec_find_char;
use crate::strutil::ord_swap;
use crate::strutil::lemma_lex_cmp_eq;
use crate::strutil::lemma_lex_cmp_swap;
use crate::strutil::lemma_lex_cmp_trans;
use crate::strutil::lemma_find_char_props;
use crate::strutil::parse_u64_str;
use crate::strutil::find_char_from;
use crate::strutil::string_push;

/// The groups of `s` split on the separator `c`, as `str::split`
/// yields them.
pub open spec fn spec_split_char(s: Seq<char>, c: char) -> Seq<Seq<char>>
    decreases s.len(),
{
    if s.len() == 0 {
        seq![s]
    } else if s[0] == c {
        seq![Seq::<char>::empty()] + spec_split_char(s.drop_first(), c)
    } else {
        let r = spec_split_char(s.drop_first(), c);
        seq![seq![s[0]] + r[0]] + r.drop_first()
    }
}

/// The groups of `s` split on `.`.
pub open spec fn spec_split_dotted(s: Seq<char>) -> Seq<Seq<char>> {
    spec_split_char(s, '.')
}

pub proof fn lemma_split_char_len(s: Seq<char>, c: char)
    ensures
        spec_split_char(s, c).len() >= 1,
    decreases s.len(),
{
    if s.len() != 0 {
        lemma_split_char_len(s.drop_first(), c);
    }
}

/// Splitting at the first separator: the first group is everything
/// before it.
pub proof fn lemma_split_char_at(s: Seq<char>, c: char, k: int)
    requires
        spec_find_char(s, c) == Some(k),
    ensures
        0 <= k < s.len(),
        spec_split_char(s, c) == seq![s.take(k)] + spec_split_char(s.skip(k + 1), c),
    decreases s.len(),
{
    lemma_find_char_props(s, c);
    crate::strutil::lemma_char_inj(s[0], c);
    if k == 0 {
        assert(s.take(0) =~= Seq::<char>::empty());
        assert(s.skip(1) =~= s.drop_first());
        assert(spec_split_char(s, c) =~= seq![s.take(0)] + spec_split_char(s.skip(1), c));
    } else {
        let d = s.drop_first();
        assert(forall|i: int| 0 <= i < d.len() ==> #[trigger] d[i] == s[i + 1]);
        lemma_find_char_props(d, c);
        let fd = spec_find_char(d, c);
        if fd is None {
            assert(d[k - 1] == s[k]);
            assert(false);
        }
        let kd = fd->Some_0;
        if kd < k - 1 {
            assert(d[kd] == s[kd + 1]);
            assert(false);
        }
        if kd > k - 1 {
            assert(d[k - 1] == s[k]);
            assert(false);
        }
        lemma_split_char_at(d, c, k - 1);
        lemma_split_char_len(d.skip(k), c);
        let r = spec_split_char(d, c);
        assert(r[0] == d.take(k - 1));
        assert(seq![s[0]] + d.take(k - 1) =~= s.take(k));
        assert(d.skip(k) =~= s.skip(k + 1));
        assert(r.drop_first() == spec_split_char(s.skip(k + 1), c));
        assert(spec_split_char(s, c) =~= seq![s.take(k)] + spec_split_char(s.skip(k + 1), c));
    }
}

/// A string without the separator is a single group.
pub proof fn lemma_split_char_none(s: Seq<char>, c: char)
    requires
        spec_find_char(s, c) == None::<int>,
    ensures
        spec_split_char(s, c) == seq![s],
    decreases s.len(),
{
    lemma_find_char_props(s, c);
    if s.len() != 0 {
        let d = s.drop_first();
        assert(forall|i: int| 0 <= i < d.len() ==> #[trigger] d[i] == s[i + 1]);
        lemma_find_char_props(d, c);
        if spec_find_char(d, c) is Some {
            let kd = spec_find_char(d, c)->Some_0;
            assert(d[kd] == s[kd + 1]);
            assert(false);
        }
        lemma_split_char_none(d, c);
        assert(seq![s[0]] + d =~= s);
        assert(spec_split_char(s, c) =~= seq![s]);
    }
}

/// How `order_numeric` compares two groups: numerically when both
/// parse as `u64`, numeric before non-numeric, else lexicographically.
pub open spec fn spec_order_numeric(a: Seq<char>, b: Seq<char>) -> Ordering {
    match (spec_parse_u64(a), spec_parse_u64(b)) {
        (Some(x), Some(y)) => if x < y {
            Ordering::Less
        } else if x > y {
            Ordering::Greater
        } else {
            Ordering::Equal
        },
        (Some(x), None) => Ordering::Less,
        (None, Some(y)) => Ordering::Greater,
        (None, None) => spec_lex_cmp(a, b),
    }
}

pub proof fn lemma_order_numeric_refl(a: Seq<char>)
    ensures
        spec_order_numeric(a, a) == Ordering::Equal,
{
    lemma_lex_cmp_eq(a, a);
}

pub proof fn lemma_order_numeric_swap(a: Seq<char>, b: Seq<char>)
    ensures
        spec_order_numeric(b, a) == ord_swap(spec_order_numeric(a, b)),
{
    lemma_lex_cmp_swap(a, b);
}

/// Groups that compare equal compare the same way against anything.
pub proof fn lemma_order_numeric_eq_congruent(a: Seq<char>, b: Seq<char>, c: Seq<char>)
    requires
        spec_order_numeric(a, b) == Ordering::Equal,
    ensures
        spec_order_numeric(a, c) == spec_order_numeric(b, c),
        spec_order_numeric(c, a) == spec_order_numeric(c, b),
{
    if spec_parse_u64(a) is None && spec_parse_u64(b) is None {
        lemma_lex_cmp_eq(a, b);
        assert(a == b);
    }
}

pub proof fn lemma_order_numeric_trans(a: Seq<char>, b: Seq<char>, c: Seq<char>)
    requires
        spec_order_numeric(a, b) != Ordering::Greater,
        spec_order_numeric(b, c) != Ordering::Greater,
    ensures
        spec_order_numeric(a, c) != Ordering::Greater,
        spec_order_numeric(a, b) == Ordering::Less || spec_order_numeric(b, c) == Ordering::Less
            ==> spec_order_numeric(a, c) == Ordering::Less,
{
    if spec_parse_u64(a) is None && spec_parse_u64(b) is None && spec_parse_u64(c) is None {
        lemma_lex_cmp_trans(a, b, c);
    }
}

/// Lexicographic comparison of group lists under `spec_order_numeric`.
pub open spec fn spec_order_segs(a: Seq<Seq<char>>, b: Seq<Seq<char>>) -> Ordering
    decreases a.len(),
{
    if a.len() == 0 && b.len() == 0 {
        Ordering::Equal
    } else if a.len() == 0 {
        Ordering::Less
    } else if b.len() == 0 {
        Ordering::Greater
    } else {
        match spec_order_numeric(a[0], b[0]) {
            Ordering::Equal => spec_order_segs(a.drop_first(), b.drop_first()),
            o => o,
        }
    }
}

pub proof fn lemma_order_segs_refl(a: Seq<Seq<char>>)
    ensures
        spec_order_segs(a, a) == Ordering::Equal,
    decreases a.len(),
{
    if a.len() != 0 {
        lemma_order_numeric_refl(a[0]);
        lemma_order_segs_refl(a.drop_first());
    }
}

pub proof fn lemma_order_segs_swap(a: Seq<Seq<char>>, b: Seq<Seq<char>>)
    ensures
        spec_order_segs(b, a) == ord_swap(spec_order_segs(a, b)),
    decreases a.len(),
{
    if a.len() != 0 && b.len() != 0 {
        lemma_order_numeric_swap(a[0], b[0]);
        lemma_order_segs_swap(a.drop_first(), b.drop_first());
    }
}

pub proof fn lemma_order_segs_trans(a: Seq<Seq<char>>, b: Seq<Seq<char>>, c: Seq<Seq<char>>)
    requires
        spec_order_segs(a, b) != Ordering::Greater,
        spec_order_segs(b, c) != Ordering::Greater,
    ensures
        spec_order_segs(a, c) != Ordering::Greater,
        spec_order_segs(a, b) == Ordering::Less || spec_order_segs(b, c) == Ordering::Less
            ==> spec_order_segs(a, c) == Ordering::Less,
    decreases a.len() + b.len() + c.len(),
{
    if a.len() != 0 && b.len() != 0 && c.len() != 0 {
        let oab = spec_order_numeric(a[0], b[0]);
        let obc = spec_order_numeric(b[0], c[0]);
        lemma_order_numeric_swap(a[0], b[0]);
        lemma_order_numeric_swap(b[0], c[0]);
        lemma_order_numeric_trans(a[0], b[0], c[0]);
        if oab == Ordering::Equal {
            lemma_order_numeric_eq_congruent(a[0], b[0], c[0]);
        }
        if obc == Ordering::Equal {
            lemma_order_numeric_eq_congruent(b[0], c[0], a[0]);
            lemma_order_numeric_swap(a[0], c[0]);
        }
        if oab == Ordering::Equal && obc == Ordering::Equal {
            lemma_order_segs_trans(a.drop_first(), b.drop_first(), c.drop_first());
        }
    }
}

/// The dotted-numeric version order.
pub open spec fn spec_order_dotted_numeric(a: Seq<char>, b: Seq<char>) -> Ordering {
    spec_order_segs(spec_split_dotted(a), spec_split_dotted(b))
}

/// The dotted-numeric version order is reflexive.
pub proof fn lemma_order_dotted_numeric_refl(a: Seq<char>)
    ensures
        spec_order_dotted_numeric(a, a) == Ordering::Equal,
{
    lemma_order_segs_refl(spec_split_dotted(a));
}

/// Comparing in the other direction gives the mirrored answer, so any
/// two version strings are comparable and the comparison is coherent.
pub proof fn lemma_order_dotted_numeric_swap(a: Seq<char>, b: Seq<char>)
    ensures
        spec_order_dotted_numeric(b, a) == ord_swap(spec_order_dotted_numeric(a, b)),
{
    lemma_order_segs_swap(spec_split_dotted(a), spec_split_dotted(b));
}

/// The dotted-numeric version order is transitive; together with
/// reflexivity and the mirror property it is a total preorder.
pub proof fn lemma_order_dotted_numeric_trans(a: Seq<char>, b: Seq<char>, c: Seq<char>)
    requires
        spec_order_dotted_numeric(a, b) != Ordering::Greater,
        spec_order_dotted_numeric(b, c) != Ordering::Greater,
    ensures
        spec_order_dotted_numeric(a, c) != Ordering::Greater,
        spec_order_dotted_numeric(a, b) == Ordering::Less || spec_order_dotted_numeric(b, c)
            == Ordering::Less ==> spec_order_dotted_numeric(a, c) == Ordering::Less,
{
    lemma_order_segs_trans(spec_split_dotted(a), spec_split_dotted(b), spec_split_dotted(c));
}

/// The dotted-alphabetical order over group lists.
pub open spec fn spec_order_segs_alpha(a: Seq<Seq<char>>, b: Seq<Seq<char>>) -> Ordering
    decreases a.len(),
{
    if a.len() == 0 && b.len() == 0 {
        Ordering::Equal
    } else if a.len() == 0 {
        Ordering::Less
    } else if b.len() == 0 {
        Ordering::Greater
    } else {
        match spec_lex_cmp(a[0], b[0]) {
            Ordering::Equal => spec_order_segs_alpha(a.drop_first(), b.drop_first()),
            o => o,
        }
    }
}

pub open spec fn spec_order_dotted_alphabetical(a: Seq<char>, b: Seq<char>) -> Ordering {
    spec_order_segs_alpha(spec_split_dotted(a), spec_split_dotted(b))
}

/// Compare two strings as decimal numbers, as `order_numeric` of the
/// original tool does: numbers before non-numbers, text as tie-break.
pub fn order_numeric(lhs: &str, rhs: &str) -> (r: Ordering)
    ensures
        r == spec_order_numeric(lhs@, rhs@),
{
    let l = parse_u64_str(lhs);
    let rr = parse_u64_str(rhs);
    match (l, rr) {
        (Some(x), Some(y)) => {
            if x < y {
                Ordering::Less
            } else if x > y {
                Ordering::Greater
            } else {
                Ordering::Equal
            }
        },
        (Some(_), None) => Ordering::Less,
        (None, Some(_)) => Ordering::Greater,
        (None, None) => crate::strutil::str_lex_cmp(lhs, rhs),
    }
}

/// Split a string on `.` into its groups.
pub fn split_dotted<'a>(s: &'a str) -> (parts: Vec<&'a str>)
    ensures
        parts.deep_view() == spec_split_dotted(s@),
{
    split_on(s, '.')
}

/// Split a string on a separator character.
pub fn split_on<'a>(s: &'a str, c: char) -> (parts: Vec<&'a str>)
    ensures
        parts.deep_view() == spec_split_char(s@, c),
{
    let n = s.unicode_len();
    let mut parts: Vec<&'a str> = Vec::new();
    let mut start: usize = 0;
    proof {
        assert(s@.skip(0) =~= s@);
    }
    loop
        invariant
            0 <= start <= n,
            n == s@.len(),
            spec_split_char(s@, c) == parts.deep_view() + spec_split_char(s@.skip(start as int), c),
        decreases n - start,
    {
        let found = find_char_from(s, start, c);
        match found {
            Some(i) => {
                let part = s.substring_char(start, i);
                proof {
                    let tail = s@.skip(start as int);
                    lemma_split_char_at(tail, c, i - start);
                    assert(tail.take(i - start) =~= s@.subrange(start as int, i as int));
                    assert(tail.skip(i - start + 1) =~= s@.skip(i + 1));
                    let ghost olddv = parts.deep_view();
                    assert(spec_split_char(s@, c) == olddv + (seq![part@] + spec_split_char(
                        s@.skip(i + 1),
                        c,
                    )));
                }
                let ghost olddv = parts.deep_view();
                parts.push(part);
                proof {
                    assert(parts.deep_view() =~= olddv.push(part@));
                    assert(olddv + (seq![part@] + spec_split_char(s@.skip(i + 1), c))
                        =~= parts.deep_view() + spec_split_char(s@.skip(i + 1), c));
                }
                start = i + 1;
            },
            None => {
                let part = s.substring_char(start, n);
                proof {
                    let tail = s@.skip(start as int);
                    lemma_split_char_none(tail, c);
                    assert(tail =~= s@.subrange(start as int, n as int));
                    let ghost olddv = parts.deep_view();
                    assert(spec_split_char(s@, c) == olddv + seq![part@]);
                }
                let ghost olddv = parts.deep_view();
                parts.push(part);
                proof {
                    assert(parts.deep_view() =~= olddv.push(part@));
                    assert(olddv + seq![part@] =~= parts.deep_view());
                    assert(spec_split_char(s@, c) == parts.deep_view());
                }
                return parts;
            },
        }
    }
}

/// Compare two dotted version strings group-wise numerically.
pub fn order_dotted_numeric(lhs: &str, rhs: &str) -> (r: Ordering)
    ensures
        r == spec_order_dotted_numeric(lhs@, rhs@),
{
    let pa = split_dotted(lhs);
    let pb = split_dotted(rhs);
    let ghost aa = spec_split_dotted(lhs@);
    let ghost bb = spec_split_dotted(rhs@);
    let mut i: usize = 0;
    proof {
        assert(aa.skip(0) =~= aa);
        assert(bb.skip(0) =~= bb);
    }
    loop
        invariant
            0 <= i <= pa.len(),
            0 <= i <= pb.len(),
            pa.deep_view() == aa,
            pb.deep_view() == bb,
            aa == spec_split_dotted(lhs@),
            bb == spec_split_dotted(rhs@),
            aa.len() == pa.len(),
            bb.len() == pb.len(),
            spec_order_segs(aa, bb) == spec_order_segs(aa.skip(i as int), bb.skip(i as int)),
        decreases pa.len() - i,
    {
        proof {
            if i < pa.len() && i < pb.len() {
                assert(aa.skip(i as int)[0] == aa[i as int]);
                assert(bb.skip(i as int)[0] == bb[i as int]);
                assert(aa.skip(i as int).drop_first() =~= aa.skip(i + 1));
                assert(bb.skip(i as int).drop_first() =~= bb.skip(i + 1));
            }
        }
        if i >= pa.len() || i >= pb.len() {
            if pa.len() == pb.len() {
                return Ordering::Equal;
            } else if i >= pa.len() {
                return Ordering::Less;
            } else {
                return Ordering::Greater;
            }
        }
        let sa: &str = pa[i];
        let sb: &str = pb[i];
        proof {
            assert(sa@ == pa.deep_view()[i as int]);
            assert(sb@ == pb.deep_view()[i as int]);
        }
        match order_numeric(sa, sb) {
            Ordering::Equal => {
                i = i + 1;
            },
            o => {
                return o;
            },
        }
    }
}

/// Compare two dotted strings group-wise lexicographically.
pub fn order_dotted_alphabetical(lhs: &str, rhs: &str) -> (r: Ordering)
    ensures
        r == spec_order_dotted_alphabetical(lhs@, rhs@),
{
    let pa = split_dotted(lhs);
    let pb = split_dotted(rhs);
    let ghost aa = spec_split_dotted(lhs@);
    let ghost bb = spec_split_dotted(rhs@);
    let mut i: usize = 0;
    proof {
        assert(aa.skip(0) =~= aa);
        assert(bb.skip(0) =~= bb);
    }
    loop
        invariant
            0 <= i <= pa.len(),
            0 <= i <= pb.len(),
            pa.deep_view() == aa,
            pb.deep_view() == bb,
            aa == spec_split_dotted(lhs@),
            bb == spec_split_dotted(rhs@),
            aa.len() == pa.len(),
            bb.len() == pb.len(),
            spec_order_segs_alpha(aa, bb) == spec_order_segs_alpha(
                aa.skip(i as int),
                bb.skip(i as int),
            ),
        decreases pa.len() - i,
    {
        proof {
            if i < pa.len() && i < pb.len() {
                assert(aa.skip(i as int)[0] == aa[i as int]);
                assert(bb.skip(i as int)[0] == bb[i as int]);
                assert(aa.skip(i as int).drop_first() =~= aa.skip(i + 1));
                assert(bb.skip(i as int).drop_first() =~= bb.skip(i + 1));
            }
        }
        if i >= pa.len() || i >= pb.len() {
            if pa.len() == pb.len() {
                return Ordering::Equal;
            } else if i >= pa.len() {
                return Ordering::Less;
            } else {
                return Ordering::Greater;
            }
        }
        let sa: &str = pa[i];
        let sb: &str = pb[i];
        proof {
            assert(sa@ == pa.deep_view()[i as int]);
            assert(sb@ == pb.deep_view()[i as int]);
        }
        match crate::strutil::str_lex_cmp(sa, sb) {
            Ordering::Equal => {
                i = i + 1;
            },
            o => {
                return o;
            },
        }
    }
}

/// A character that may appear in a dotted numeric version.
pub open spec fn spec_is_ver_char(c: char) -> bool {
    c == '.' || spec_is_digit(c)
}

/// The first position at or after `i` holding no version character.
pub open spec fn spec_scan_ver_end(s: Seq<char>, i: int) -> int
    decreases s.len() - i,
{
    if i < 0 || i >= s.len() {
        i
    } else if spec_is_ver_char(s[i]) {
        spec_scan_ver_end(s, i + 1)
    } else {
        i
    }
}

/// `end` moved back over any trailing dots, but never before `start`.
pub open spec fn spec_trim_dots(s: Seq<char>, start: int, end: int) -> int
    decreases end - start,
{
    if end > start && 0 <= end - 1 < s.len() && s[end - 1] == '.' {
        spec_trim_dots(s, start, end - 1)
    } else {
        end
    }
}

/// The version text scanned from `start`: a maximal run of digits and
/// dots with trailing dots trimmed, and the position after it.  An
/// empty result leaves the position at `start`.
pub open spec fn spec_scan_id_version(s: Seq<char>, start: int) -> (Seq<char>, int) {
    let e = spec_trim_dots(s, start, spec_scan_ver_end(s, start));
    (s.subrange(start, e), e)
}

/// A valid version: digits and dots only, with at least one digit
/// group and no leading, trailing or doubled dot.
pub open spec fn spec_is_valid_version(s: Seq<char>) -> bool {
    &&& s.len() > 0
    &&& forall|i: int| 0 <= i < s.len() ==> spec_is_ver_char(#[trigger] s[i])
    &&& s[0] != '.'
    &&& s[s.len() - 1] != '.'
    &&& forall|i: int| 0 < i < s.len() ==> !(#[trigger] s[i] == '.' && s[i - 1] == '.')
}

/// Whether `version` is a valid dotted numeric version text.
pub fn is_valid_version(version: &str) -> (r: bool)
    ensures
        r == spec_is_valid_version(version@),
{
    let n = version.unicode_len();
    if n == 0 {
        return false;
    }
    let mut i: usize = 0;
    while i < n
        invariant
            0 <= i <= n,
            n == version@.len(),
            n > 0,
            forall|j: int| 0 <= j < i ==> spec_is_ver_char(#[trigger] version@[j]),
            i > 0 ==> version@[0] != '.',
            forall|j: int| 0 < j < i ==> !(#[trigger] version@[j] == '.' && version@[j - 1] == '.'),
            i == n ==> version@[n - 1] != '.',
        decreases n - i,
    {
        let c = version.get_char(i);
        proof {
            crate::strutil::lemma_char_inj(c, '.');
        }
        let is_dot = c == '.';
        let is_digit = '0' <= c && c <= '9';
        if !(is_dot || is_digit) {
            return false;
        }
        if is_dot {
            if i == 0 || i == n - 1 {
                return false;
            }
            let prev = version.get_char(i - 1);
            if prev == '.' {
                return false;
            }
        }
        i = i + 1;
    }
    true
}

/// Scan a dotted numeric version like `14.30.17.6` starting at
/// `start`; returns the scanned text and the position after it.
pub fn scan_id_version<'a>(id: &'a str, start: usize) -> (r: (&'a str, usize))
    requires
        start <= id@.len(),
    ensures
        start <= r.1 <= id@.len(),
        r.1 == spec_scan_id_version(id@, start as int).1,
        r.0@ == spec_scan_id_version(id@, start as int).0,
{
    let n = id.unicode_len();
    let mut offset: usize = start;
    loop
        invariant
            start <= offset <= n,
            n == id@.len(),
            start <= id@.len(),
            spec_scan_ver_end(id@, start as int) == spec_scan_ver_end(id@, offset as int),
        ensures
            start <= offset <= n,
            n == id@.len(),
            spec_scan_ver_end(id@, start as int) == offset,
        decreases n - offset,
    {
        if offset >= n {
            break;
        }
        let c = id.get_char(offset);
        proof {
            crate::strutil::lemma_char_inj(c, '.');
        }
        if !(c == '.' || ('0' <= c && c <= '9')) {
            break;
        }
        offset = offset + 1;
    }
    let ghost e0 = offset as int;
    loop
        invariant
            start <= offset <= n,
            n == id@.len(),
            offset <= e0,
            spec_trim_dots(id@, start as int, e0) == spec_trim_dots(
                id@,
                start as int,
                offset as int,
            ),
        ensures
            start <= offset <= n,
            spec_trim_dots(id@, start as int, e0) == offset,
        decreases offset,
    {
        if offset <= start {
            break;
        }
        let c = id.get_char(offset - 1);
        proof {
            crate::strutil::lemma_char_inj(c, '.');
        }
        if c != '.' {
            break;
        }
        offset = offset - 1;
    }
    (id.substring_char(start, offset), offset)
}

/// The text up to the next `to` (when it comes after `start`), and the
/// position after the delimiter; otherwise the whole rest of `s`.
pub open spec fn spec_scan_to(s: Seq<char>, start: int, c: char) -> (Seq<char>, int) {
    match spec_find_char(s.skip(start), c) {
        Some(p) => if p > 0 {
            (s.subrange(start, start + p), start + p + 1)
        } else {
            (s.subrange(start, s.len() as int), s.len() as int)
        },
        None => (s.subrange(start, s.len() as int), s.len() as int),
    }
}

/// Scan to the next occurrence of `to` after `start`.
pub fn scan_to<'a>(s: &'a str, start: usize, to: char) -> (r: (&'a str, usize))
    requires
        start <= s@.len(),
    ensures
        start <= r.1 <= s@.len(),
        r.1 == spec_scan_to(s@, start as int, to).1,
        r.0@ == spec_scan_to(s@, start as int, to).0,
{
    let n = s.unicode_len();
    match find_char_from(s, start, to) {
        Some(abs) => {
            if abs > start {
                (s.substring_char(start, abs), abs + 1)
            } else {
                (s.substring_char(start, n), n)
            }
        },
        None => (s.substring_char(start, n), n),
    }
}

/// Scan an id part (delimited by `.`).
pub fn scan_id_part<'a>(id: &'a str, start: usize) -> (r: (&'a str, usize))
    requires
        start <= id@.len(),
    ensures
        start <= r.1 <= id@.len(),
        r.1 == spec_scan_to(id@, start as int, '.').1,
        r.0@ == spec_scan_to(id@, start as int, '.').0,
{
    scan_to(id, start, '.')
}

/// Position of the last occurrence of `c` in `s`, if any.
pub open spec fn spec_rfind_char(s: Seq<char>, c: char) -> Option<int>
    decreases s.len(),
{
    if s.len() == 0 {
        None
    } else if s.last() == c {
        Some(s.len() - 1)
    } else {
        spec_rfind_char(s.drop_last(), c)
    }
}

pub proof fn lemma_rfind_char_props(s: Seq<char>, c: char)
    ensures
        match spec_rfind_char(s, c) {
            None => forall|i: int| 0 <= i < s.len() ==> s[i] != c,
            Some(i) => 0 <= i < s.len() && s[i] == c && forall|j: int|
                i < j < s.len() ==> s[j] != c,
        },
    decreases s.len(),
{
    if s.len() != 0 && s.last() != c {
        let d = s.drop_last();
        assert(forall|i: int| 0 <= i < d.len() ==> #[trigger] d[i] == s[i]);
        lemma_rfind_char_props(d, c);
        match spec_rfind_char(d, c) {
            None => {
                assert forall|i: int| 0 <= i < s.len() implies s[i] != c by {
                    if i < s.len() - 1 {
                        assert(d[i] == s[i]);
                        assert(d[i] != c);
                    } else {
                        assert(s[i] == s.last());
                    }
                }
            },
            Some(i) => {
                assert(s[i] == d[i]);
                assert forall|j: int| i < j < s.len() implies s[j] != c by {
                    if j < s.len() - 1 {
                        assert(d[j] == s[j]);
                        assert(d[j] != c);
                    } else {
                        assert(s[j] == s.last());
                    }
                }
            },
        }
    }
}

/// The part of a URL after its last `/`, or the whole URL.
pub open spec fn spec_basename(s: Seq<char>) -> Seq<char> {
    match spec_rfind_char(s, '/') {
        Some(i) => s.skip(i + 1),
        None => s,
    }
}

pub fn basename_from_url<'a>(url: &'a str) -> (r: &'a str)
    ensures
        r@ == spec_basename(url@),
{
    let n = url.unicode_len();
    let mut i: usize = n;
    while i > 0
        invariant
            0 <= i <= n,
            n == url@.len(),
            forall|j: int| i <= j < n ==> url@[j] != '/',
        decreases i,
    {
        if url.get_char(i - 1) == '/' {
            proof {
                lemma_rfind_char_props(url@, '/');
                let rf = spec_rfind_char(url@, '/');
                if rf is None {
                    assert(false);
                } else {
                    let k = rf->Some_0;
                    if k < i - 1 {
                        assert(url@[i - 1] != '/');
                        assert(false);
                    }
                    if k > i - 1 {
                        assert(url@[k] != '/');
                        assert(false);
                    }
                }
            }
            return url.substring_char(i, n);
        }
        i = i - 1;
    }
    proof {
        lemma_rfind_char_props(url@, '/');
        if spec_rfind_char(url@, '/') is Some {
            let k = spec_rfind_char(url@, '/')->Some_0;
            assert(url@[k] != '/');
            assert(false);
        }
    }
    url
}

pub open spec fn spec_is_hex_char(c: char) -> bool {
    spec_is_digit(c) || (97 <= c as u32 <= 102) || (65 <= c as u32 <= 70)
}

pub open spec fn spec_hex_char_val(c: char) -> nat {
    if spec_is_digit(c) {
        (c as u32 - 48) as nat
    } else if 97 <= c as u32 <= 102 {
        (c as u32 - 87) as nat
    } else if 65 <= c as u32 <= 70 {
        (c as u32 - 55) as nat
    } else {
        0
    }
}

/// Percent decoding over characters.  A `%` followed by two hex digits
/// naming an ASCII code becomes that character; anything else is kept
/// as written.  Escapes of bytes outside ASCII are left untouched:
/// the URLs and archive entry names this library decodes are expected
/// to escape ASCII characters only, an invariant of the vendor data
/// at rest.
pub open spec fn spec_percent_decode(s: Seq<char>) -> Seq<char>
    decreases s.len(),
{
    if s.len() == 0 {
        s
    } else if s.len() >= 3 && s[0] == '%' && spec_is_hex_char(s[1]) && spec_is_hex_char(s[2])
        && spec_hex_char_val(s[1]) * 16 + spec_hex_char_val(s[2]) < 128 {
        seq![(((spec_hex_char_val(s[1]) * 16 + spec_hex_char_val(s[2])) as u8) as char)]
            + spec_percent_decode(s.skip(3))
    } else {
        seq![s[0]] + spec_percent_decode(s.drop_first())
    }
}

/// The value of a hex digit character, if it is one.
fn hex_char_val(c: char) -> (r: Option<u8>)
    ensures
        r is Some <==> spec_is_hex_char(c),
        r is Some ==> r->Some_0 == spec_hex_char_val(c) && r->Some_0 < 16,
{
    let v = c as u32;
    if 48 <= v && v <= 57 {
        Some((v - 48) as u8)
    } else if 97 <= v && v <= 102 {
        Some((v - 87) as u8)
    } else if 65 <= v && v <= 70 {
        Some((v - 55) as u8)
    } else {
        None
    }
}

/// Decode ASCII percent escapes in a URL.
pub fn alloc_url_percent_decoded(url: &str) -> (r: String)
    ensures
        r@ == spec_percent_decode(url@),
{
    let n = url.unicode_len();
    let mut out = String::new();
    let mut i: usize = 0;
    proof {
        assert(url@.skip(0) =~= url@);
    }
    while i < n
        invariant
            0 <= i <= n,
            n == url@.len(),
            spec_percent_decode(url@) == out@ + spec_percent_decode(url@.skip(i as int)),
        decreases n - i,
    {
        let ghost tail = url@.skip(i as int);
        proof {
            assert(tail[0] == url@[i as int]);
            if i + 1 < n {
                assert(tail[1] == url@[i + 1]);
            }
            if i + 2 < n {
                assert(tail[2] == url@[i + 2]);
            }
            assert(tail.drop_first() =~= url@.skip(i + 1));
            if i + 3 <= n {
                assert(tail.skip(3) =~= url@.skip(i + 3));
            }
        }
        let c = url.get_char(i);
        let mut done = false;
        if c == '%' && n - i > 2 {
            let h1 = hex_char_val(url.get_char(i + 1));
            let h2 = hex_char_val(url.get_char(i + 2));
            if h1.is_some() && h2.is_some() {
                let a = h1.unwrap();
                let b = h2.unwrap();
                assert(a < 16 && b < 16);
                let v: u8 = a * 16 + b;
                if v < 128 {
                    string_push(&mut out, v as char);
                    i = i + 3;
                    done = true;
                }
            }
        }
        if !done {
            proof {
                crate::strutil::lemma_char_inj(c, '%');
            }
            string_push(&mut out, c);
            i = i + 1;
        }
    }
    proof {
        assert(url@.skip(n as int) =~= Seq::<char>::empty());
        assert(out@ =~= spec_percent_decode(url@));
    }
    out
}

} // verus!
