//! SHA-256 digests: hex parsing and rendering, and hashing of payload
//! bytes through the `sha2` crate.
use vstd::prelude::*;

verus! {

use vstd::string::StrSliceExecFns;
use crate::strutil::string_push;
use crate::util::spec_is_hex_char;
use crate::util::spec_hex_char_val;

/// A SHA-256 digest.
#[derive(Debug, Clone)]
pub struct Sha256 {
    pub bytes: [u8; 32],
}

/// A well-formed 64-character hex digest text.
pub open spec fn spec_sha_hex_ok(s: Seq<char>) -> bool {
    s.len() == 64 && forall|i: int| 0 <= i < 64 ==> spec_is_hex_char(#[trigger] s[i])
}

/// The byte at index `i` encoded by the hex text `s`.
pub open spec fn spec_sha_byte(s: Seq<char>, i: int) -> u8 {
    (spec_hex_char_val(s[2 * i]) * 16 + spec_hex_char_val(s[2 * i + 1])) as u8
}

/// The lowercase hex digit for a value below 16.
pub open spec fn spec_hex_digit(d: nat) -> char {
    if d < 10 {
        ((48 + d) as u8) as char
    } else {
        ((87 + d) as u8) as char
    }
}

/// The lowercase hex rendering of a byte sequence.
pub open spec fn spec_sha_hex(b: Seq<u8>) -> Seq<char>
    decreases b.len(),
{
    if b.len() == 0 {
        Seq::<char>::empty()
    } else {
        seq![
            spec_hex_digit((b[0] / 16) as nat),
            spec_hex_digit((b[0] % 16) as nat),
        ] + spec_sha_hex(b.drop_first())
    }
}

/// The value of one hex digit character, as in the original scheme:
/// `0-9`, `a-f` and `A-F` are accepted.
pub fn nibble_from_hex(c: char) -> (r: Option<u8>)
    ensures
        r is Some <==> spec_is_hex_char(c),
        r is Some ==> r->Some_0 == spec_hex_char_val(c) && r->Some_0 < 16,
{
    let v = c as u32;
    if 48 <= v && v <= 57 {
        Some((v - 48) as u8)
    } else if 97 <= v && v <= 102 {
        Some((v - 87) as u8)
    } else if 65 <= v && v <= 70 {
        Some((v - 55) as u8)
    } else {
        None
    }
}

impl Sha256 {
    /// Parse a 64-character hex digest, either case.
    pub fn parse_hex(hex: &str) -> (r: Option<Sha256>)
        ensures
            r is Some <==> spec_sha_hex_ok(hex@),
            r is Some ==> forall|i: int|
                0 <= i < 32 ==> #[trigger] r->Some_0.bytes@[i] == spec_sha_byte(hex@, i),
    {
        if hex.unicode_len() != 64 {
            return None;
        }
        let mut bytes = [0u8; 32];
        let mut i: usize = 0;
        while i < 32
            invariant
                0 <= i <= 32,
                hex@.len() == 64,
                forall|j: int| 0 <= j < 2 * i ==> spec_is_hex_char(#[trigger] hex@[j]),
                forall|j: int| 0 <= j < i ==> #[trigger] bytes@[j] == spec_sha_byte(hex@, j),
            decreases 32 - i,
        {
            let hc = hex.get_char(2 * i);
            let lc = hex.get_char(2 * i + 1);
            let high = match nibble_from_hex(hc) {
                Some(h) => h,
                None => {
                    return None;
                },
            };
            let low = match nibble_from_hex(lc) {
                Some(l) => l,
                None => {
                    return None;
                },
            };
            bytes[i] = high * 16 + low;
            proof {
                assert(forall|j: int|
                    0 <= j < 2 * i ==> spec_is_hex_char(#[trigger] hex@[j]));
                assert(spec_is_hex_char(hex@[2 * i]));
                assert(spec_is_hex_char(hex@[2 * i + 1]));
            }
            i = i + 1;
        }
        Some(Sha256 { bytes })
    }

    /// Render the digest as 64 lowercase hex characters.
    pub fn to_hex(&self) -> (r: String)
        ensures
            r@ == spec_sha_hex(self.bytes@),
    {
        sha_bytes_to_hex(&self.bytes)
    }

    /// Whether two digests hold the same bytes.
    pub fn equals(&self, other: &Sha256) -> (r: bool)
        ensures
            r == (self.bytes@ == other.bytes@),
    {
        let mut i: usize = 0;
        while i < 32
            invariant
                0 <= i <= 32,
                forall|j: int| 0 <= j < i ==> self.bytes@[j] == other.bytes@[j],
            decreases 32 - i,
        {
            if self.bytes[i] != other.bytes[i] {
                return false;
            }
            i = i + 1;
        }
        assert(self.bytes@ =~= other.bytes@);
        true
    }
}

impl PartialEq for Sha256 {
    fn eq(&self, other: &Sha256) -> (r: bool) {
        self.equals(other)
    }
}

impl vstd::std_specs::cmp::PartialEqSpecImpl for Sha256 {
    open spec fn obeys_eq_spec() -> bool {
        true
    }

    open spec fn eq_spec(&self, other: &Sha256) -> bool {
        self.bytes@ == other.bytes@
    }
}

impl Eq for Sha256 {

}

/// Render a byte array as lowercase hex.
fn sha_bytes_to_hex(bytes: &[u8; 32]) -> (r: String)
    ensures
        r@ == spec_sha_hex(bytes@),
{
    let mut out = String::new();
    let mut i: usize = 0;
    proof {
        assert(bytes@.skip(0) =~= bytes@);
    }
    while i < 32
        invariant
            0 <= i <= 32,
            bytes@.len() == 32,
            spec_sha_hex(bytes@) == out@ + spec_sha_hex(bytes@.skip(i as int)),
        decreases 32 - i,
    {
        let ghost tail = bytes@.skip(i as int);
        proof {
            assert(tail[0] == bytes@[i as int]);
            assert(tail.drop_first() =~= bytes@.skip(i + 1));
        }
        let b = bytes[i];
        let hi: u8 = b / 16;
        let lo: u8 = b % 16;
        let hc: char = if hi < 10 {
            ((48 + hi) as u8) as char
        } else {
            ((87 + hi) as u8) as char
        };
        let lc: char = if lo < 10 {
            ((48 + lo) as u8) as char
        } else {
            ((87 + lo) as u8) as char
        };
        string_push(&mut out, hc);
        string_push(&mut out, lc);
        i = i + 1;
    }
    proof {
        assert(bytes@.skip(32) =~= Seq::<u8>::empty());
        assert(out@ =~= spec_sha_hex(bytes@));
    }
    out
}

/// The hex rendering is well formed and parses back to the same bytes.
pub proof fn lemma_sha_hex_round_trip(b: Seq<u8>)
    ensures
        spec_sha_hex(b).len() == 2 * b.len(),
        forall|i: int| 0 <= i < spec_sha_hex(b).len() ==> spec_is_hex_char(#[trigger] spec_sha_hex(b)[i]),
        forall|i: int|
            0 <= i < b.len() ==> spec_sha_byte(spec_sha_hex(b), i) == b[i],
    decreases b.len(),
{
    if b.len() != 0 {
        lemma_sha_hex_round_trip(b.drop_first());
        let h = spec_sha_hex(b);
        let ht = spec_sha_hex(b.drop_first());
        let b0 = b[0];
        assert(spec_hex_char_val(spec_hex_digit((b0 / 16) as nat)) == b0 / 16);
        assert(spec_hex_char_val(spec_hex_digit((b0 % 16) as nat)) == b0 % 16);
        assert(spec_is_hex_char(spec_hex_digit((b0 / 16) as nat)));
        assert(spec_is_hex_char(spec_hex_digit((b0 % 16) as nat)));
        assert(h[0] == spec_hex_digit((b0 / 16) as nat));
        assert(h[1] == spec_hex_digit((b0 % 16) as nat));
        assert((b0 / 16) * 16 + b0 % 16 == b0) by {
            vstd::arithmetic::div_mod::lemma_fundamental_div_mod(b0 as int, 16);
        }
        assert(spec_sha_byte(h, 0) == b0);
        assert forall|i: int| 1 <= i < b.len() implies spec_sha_byte(h, i) == b[i] by {
            assert(h[2 * i] == ht[2 * i - 2]);
            assert(h[2 * i + 1] == ht[2 * i - 1]);
            assert(spec_sha_byte(ht, i - 1) == b.drop_first()[i - 1]);
            assert(b.drop_first()[i - 1] == b[i]);
        }
        assert forall|i: int| 0 <= i < h.len() implies spec_is_hex_char(#[trigger] h[i]) by {
            if i >= 2 {
                assert(h[i] == ht[i - 2]);
            }
        }
    }
}

/// Lowercase the ASCII letters of a string, as
/// `str::to_ascii_lowercase` does.
pub open spec fn spec_lower_char(c: char) -> char {
    if 65 <= c as u32 <= 90 {
        ((c as u32 + 32) as u8) as char
    } else {
        c
    }
}

pub open spec fn spec_ascii_lower(s: Seq<char>) -> Seq<char> {
    Seq::new(s.len(), |i: int| spec_lower_char(s[i]))
}

pub fn lower_sha_hex(hex: &str) -> (r: String)
    ensures
        r@ == spec_ascii_lower(hex@),
{
    let n = hex.unicode_len();
    let mut out = String::new();
    let mut i: usize = 0;
    while i < n
        invariant
            0 <= i <= n,
            n == hex@.len(),
            out@.len() == i,
            forall|j: int| 0 <= j < i ==> out@[j] == spec_lower_char(hex@[j]),
        decreases n - i,
    {
        let c = hex.get_char(i);
        let v = c as u32;
        let lc: char = if 65 <= v && v <= 90 {
            ((v + 32) as u8) as char
        } else {
            c
        };
        string_push(&mut out, lc);
        i = i + 1;
    }
    assert(out@ =~= spec_ascii_lower(hex@));
    out
}

/// What SHA-256 returns on the given bytes; fixed by the algorithm,
/// the same in every process and on every machine.
pub uninterp spec fn sha256_of(data: Seq<u8>) -> Seq<u8>;

/// Relies on `sha2::Sha256::digest` (one-shot SHA-256): 32 bytes that
/// depend on the input bytes alone.
#[verifier::external_body]
fn sha256_digest(data: &[u8]) -> (r: [u8; 32])
    ensures
        r@ == sha256_of(data@),
        r@.len() == 32,
{
    let out = <sha2::Sha256 as sha2::Digest>::digest(data);
    let mut bytes = [0u8; 32];
    bytes.copy_from_slice(&out);
    bytes
}

/// Hash bytes and compare with an expected digest.
pub fn sha256_matches(data: &[u8], expected: &Sha256) -> (r: bool)
    ensures
        r == (sha256_of(data@) == expected.bytes@),
{
    let got = sha256_digest(data);
    let mut i: usize = 0;
    while i < 32
        invariant
            0 <= i <= 32,
            got@ == sha256_of(data@),
            got@.len() == 32,
            forall|j: int| 0 <= j < i ==> got@[j] == expected.bytes@[j],
        decreases 32 - i,
    {
        if got[i] != expected.bytes[i] {
            return false;
        }
        i = i + 1;
    }
    assert(got@ =~= expected.bytes@);
    true
}

/// A hasher fed incrementally; the digest of everything it was fed.
pub struct Sha256Streaming {
    buf: Vec<u8>,
}

impl Sha256Streaming {
    /// The bytes fed so far.
    pub closed spec fn data(&self) -> Seq<u8> {
        self.buf@
    }

    pub fn new() -> (r: Sha256Streaming)
        ensures
            r.data() == Seq::<u8>::empty(),
    {
        Sha256Streaming { buf: Vec::new() }
    }

    pub fn update(&mut self, data: &[u8])
        ensures
            final(self).data() == old(self).data() + data@,
    {
        self.buf.extend_from_slice(data);
    }

    pub fn finalize(self) -> (r: Sha256)
        ensures
            r.bytes@ == sha256_of(self.data()),
    {
        let bytes = sha256_digest(self.buf.as_slice());
        Sha256 { bytes }
    }
}

} // verus!
