//! SHA-256 digests and hex rendering of byte strings.

use vstd::prelude::*;
use vstd::string::StringExecFns;

verus! {

/// A SHA-256 digest: 32 raw bytes.
pub type Digest = Vec<u8>;

/// Whether a byte sequence has the shape of a SHA-256 digest.
pub open spec fn is_digest(d: Seq<u8>) -> bool {
    d.len() == 32
}

/// The SHA-256 digest of a byte sequence, named but not defined: it is a
/// pure function of the data, computed by an outside implementation.
pub uninterp spec fn sha256_of(data: Seq<u8>) -> Seq<u8>;

/// Relies on sha2::Sha256::digest: the SHA-256 digest of the input bytes,
/// a function of the data alone, always 32 bytes long.
#[verifier::external_body]
pub fn sha256(data: &[u8]) -> (digest: Digest)
    ensures
        digest@ == sha256_of(data@),
        is_digest(digest@),
{
    <sha2::Sha256 as sha2::Digest>::digest(data).to_vec()
}

/// Byte-wise equality of two digests.
pub fn digest_eq(a: &Digest, b: &Digest) -> (r: bool)
    ensures
        r == (a@ == b@),
{
    if a.len() != b.len() {
        return false;
    }
    let n = a.len();
    let mut i: usize = 0;
    while i < n
        invariant
            n == a@.len() == b@.len(),
            i <= n,
            forall|j: int| 0 <= j < i ==> a@[j] == b@[j],
        decreases n - i,
    {
        if a[i] != b[i] {
            return false;
        }
        i = i + 1;
    }
    proof {
        assert(a@ =~= b@);
    }
    true
}

/// The sixteen hexadecimal digit characters, least to greatest.
pub open spec fn hex_digits() -> Seq<char> {
    "0123456789abcdef"@
}

/// The two lower-case hex characters that render one byte.
pub open spec fn hex_of_byte(b: u8) -> Seq<char> {
    seq![hex_digits()[(b >> 4) as int], hex_digits()[(b & 0x0f) as int]]
}

/// The lower-case hex rendering of a byte sequence, two characters a byte.
pub open spec fn hex_of_bytes(s: Seq<u8>) -> Seq<char>
    decreases s.len(),
{
    if s.len() == 0 {
        Seq::empty()
    } else {
        hex_of_byte(s[0]) + hex_of_bytes(s.drop_first())
    }
}

proof fn lemma_hex_of_bytes_push(s: Seq<u8>, b: u8)
    ensures
        hex_of_bytes(s.push(b)) == hex_of_bytes(s) + hex_of_byte(b),
    decreases s.len(),
{
    if s.len() == 0 {
        assert(s.push(b).drop_first() =~= s);
        assert(hex_of_bytes(s.push(b)) =~= hex_of_bytes(s) + hex_of_byte(b));
    } else {
        assert(s.push(b).drop_first() =~= s.drop_first().push(b));
        lemma_hex_of_bytes_push(s.drop_first(), b);
        assert(hex_of_bytes(s.push(b)) =~= hex_of_bytes(s) + hex_of_byte(b));
    }
}

/// Renders a byte string as lower-case hex, two characters a byte.
pub fn bytes_to_hex_string(slice: &[u8]) -> (r: String)
    ensures
        r@ == hex_of_bytes(slice@),
{
    let digits = "0123456789abcdef";
    proof {
        reveal_strlit("0123456789abcdef");
    }
    let digits_ascii = digits.is_ascii();
    assert(digits@.len() == 16);
    let mut out = String::new();
    let n = slice.len();
    let mut i: usize = 0;
    while i < n
        invariant
            n == slice@.len(),
            i <= n,
            out@ == hex_of_bytes(slice@.take(i as int)),
            digits@ == hex_digits(),
            digits@.len() == 16,
            digits_ascii == digits.is_ascii(),
            digits_ascii,
        decreases n - i,
    {
        let b = slice[i];
        assert((b >> 4) < 16 && (b & 0x0f) < 16) by (bit_vector);
        let hi = (b >> 4) as usize;
        let lo = (b & 0x0f) as usize;
        let c_hi = digits.substring_ascii(hi, hi + 1);
        let c_lo = digits.substring_ascii(lo, lo + 1);
        out.append(c_hi);
        out.append(c_lo);
        proof {
            assert(c_hi@ + c_lo@ =~= hex_of_byte(b));
            lemma_hex_of_bytes_push(slice@.take(i as int), b);
            assert(slice@.take(i as int).push(b) =~= slice@.take(i as int + 1));
        }
        i = i + 1;
    }
    proof {
        assert(slice@.take(n as int) =~= slice@);
    }
    out
}

/// Renders a byte string as hex with a `0x` marker.
pub fn journal_to_str(journal: &Vec<u8>) -> (r: String)
    ensures
        r@ == "0x"@ + hex_of_bytes(journal@),
{
    let mut out = String::from_str("0x");
    let hex = bytes_to_hex_string(journal.as_slice());
    out.append(hex.as_str());
    out
}

/// Renders a digest as hex with a `0x` marker.
pub fn digest_to_str(digest: &Digest) -> (r: String)
    ensures
        r@ == "0x"@ + hex_of_bytes(digest@),
{
    journal_to_str(digest)
}

/// The big-endian bytes of a word sequence, four bytes a word.
pub open spec fn be_bytes_of_words(words: Seq<u32>) -> Seq<u8>
    decreases words.len(),
{
    if words.len() == 0 {
        Seq::empty()
    } else {
        seq![
            ((words[0] >> 24) & 0xff) as u8,
            ((words[0] >> 16) & 0xff) as u8,
            ((words[0] >> 8) & 0xff) as u8,
            (words[0] & 0xff) as u8,
        ] + be_bytes_of_words(words.drop_first())
    }
}

proof fn lemma_be_bytes_of_words_push(words: Seq<u32>, w: u32)
    ensures
        be_bytes_of_words(words.push(w)) == be_bytes_of_words(words) + seq![
            ((w >> 24) & 0xff) as u8,
            ((w >> 16) & 0xff) as u8,
            ((w >> 8) & 0xff) as u8,
            (w & 0xff) as u8,
        ],
    decreases words.len(),
{
    if words.len() == 0 {
        assert(words.push(w).drop_first() =~= words);
        assert(be_bytes_of_words(words.push(w)) =~= be_bytes_of_words(words) + seq![
            ((w >> 24) & 0xff) as u8,
            ((w >> 16) & 0xff) as u8,
            ((w >> 8) & 0xff) as u8,
            (w & 0xff) as u8,
        ]);
    } else {
        assert(words.push(w).drop_first() =~= words.drop_first().push(w));
        lemma_be_bytes_of_words_push(words.drop_first(), w);
        assert(be_bytes_of_words(words.push(w)) =~= be_bytes_of_words(words) + seq![
            ((w >> 24) & 0xff) as u8,
            ((w >> 16) & 0xff) as u8,
            ((w >> 8) & 0xff) as u8,
            (w & 0xff) as u8,
        ]);
    }
}

/// Renders a proving seal — a word sequence — as hex with a `0x` marker,
/// eight digits a word.
pub fn seal_to_str(seal: &Vec<u32>) -> (r: String)
    ensures
        r@ == "0x"@ + hex_of_bytes(be_bytes_of_words(seal@)),
{
    let n = seal.len();
    let mut bytes: Vec<u8> = Vec::new();
    let mut i: usize = 0;
    proof {
        assert(seal@.take(0) =~= Seq::<u32>::empty());
    }
    while i < n
        invariant
            n == seal@.len(),
            i <= n,
            bytes@ == be_bytes_of_words(seal@.take(i as int)),
        decreases n - i,
    {
        let w = seal[i];
        bytes.push(((w >> 24) & 0xff) as u8);
        bytes.push(((w >> 16) & 0xff) as u8);
        bytes.push(((w >> 8) & 0xff) as u8);
        bytes.push((w & 0xff) as u8);
        proof {
            lemma_be_bytes_of_words_push(seal@.take(i as int), w);
            assert(seal@.take(i as int).push(w) =~= seal@.take(i as int + 1));
            assert(bytes@ =~= be_bytes_of_words(seal@.take(i as int + 1)));
        }
        i = i + 1;
    }
    proof {
        assert(seal@.take(n as int) =~= seal@);
    }
    journal_to_str(&bytes)
}

} // verus!
