use vstd::prelude::*;
use vstd::utf8::encode_utf8;

verus! {

/// The MD5 digest of a run of bytes: sixteen bytes that depend on the input alone.
pub uninterp spec fn md5_of(data: Seq<u8>) -> Seq<u8>;

/// `md5::compute` of the md5 crate, with the sixteen bytes taken out of the
/// `Digest` it returns. The contract only names the result: the same bytes
/// always hash to the same digest.
#[verifier::external_body]
fn md5_digest(data: &[u8]) -> (digest: [u8; 16])
    ensures
        digest@ == md5_of(data@),
{
    md5::compute(data).0
}

/// What became of the integrity check of one file.
#[derive(Clone, Copy, Debug, PartialEq, Eq, Structural)]
pub enum Integrity {
    /// The content hashes to the declared checksum.
    Verified,
    /// No checksum was declared, so nothing could be compared.
    Unverifiable,
    /// The content hashes to something else than what was declared.
    Mismatch,
}

/// The ASCII code of the lower-case hexadecimal digit for `nibble`.
pub open spec fn hex_digit(nibble: int) -> u8 {
    if nibble < 10 {
        (48 + nibble) as u8
    } else {
        (87 + nibble) as u8
    }
}

/// Two lower-case hexadecimal digits for each byte, high nibble first.
pub open spec fn hex_of(bytes: Seq<u8>) -> Seq<u8> {
    Seq::new(
        2 * bytes.len(),
        |i: int|
            if i % 2 == 0 {
                hex_digit(bytes[i / 2] as int / 16)
            } else {
                hex_digit(bytes[i / 2] as int % 16)
            },
    )
}

/// An ASCII upper-case letter becomes its lower-case form; every other byte stays.
pub open spec fn fold_case(b: u8) -> u8 {
    if 65 <= b <= 90 {
        (b + 32) as u8
    } else {
        b
    }
}

/// Equality of two byte strings up to the case of ASCII letters.
pub open spec fn same_ignoring_case(a: Seq<u8>, b: Seq<u8>) -> bool {
    &&& a.len() == b.len()
    &&& forall|i: int| 0 <= i < a.len() ==> fold_case(#[trigger] a[i]) == fold_case(b[i])
}

/// The verdict on content with digest `digest` against a declared checksum:
/// without a declaration nothing can be said; with one, the declaration must
/// spell the digest in hexadecimal, in either case of the letters.
pub open spec fn verdict(declared: Option<Seq<char>>, digest: Seq<u8>) -> Integrity {
    match declared {
        None => Integrity::Unverifiable,
        Some(text) => if same_ignoring_case(encode_utf8(text), hex_of(digest)) {
            Integrity::Verified
        } else {
            Integrity::Mismatch
        },
    }
}

fn hex_digit_of(nibble: u8) -> (d: u8)
    requires
        nibble < 16,
    ensures
        d == hex_digit(nibble as int),
{
    if nibble < 10 {
        48 + nibble
    } else {
        87 + nibble
    }
}

/// Spells a digest in lower-case hexadecimal.
pub fn hex_lower(digest: &[u8; 16]) -> (hex: Vec<u8>)
    ensures
        hex@ == hex_of(digest@),
{
    let mut hex: Vec<u8> = Vec::new();
    let mut i: usize = 0;
    while i < 16
        invariant
            i <= 16,
            hex@.len() == 2 * i,
            forall|j: int| 0 <= j < 2 * i ==> #[trigger] hex@[j] == hex_of(digest@)[j],
        decreases 16 - i,
    {
        let byte: u8 = digest[i];
        hex.push(hex_digit_of(byte / 16));
        hex.push(hex_digit_of(byte % 16));
        i += 1;
    }
    proof {
        assert(hex@ =~= hex_of(digest@));
    }
    hex
}

fn fold(b: u8) -> (f: u8)
    ensures
        f == fold_case(b),
{
    if 65 <= b && b <= 90 {
        b + 32
    } else {
        b
    }
}

/// Compares two byte strings, taking ASCII letters of either case as equal.
pub fn same_hex(a: &[u8], b: &[u8]) -> (same: bool)
    ensures
        same == same_ignoring_case(a@, b@),
{
    if a.len() != b.len() {
        return false;
    }
    let mut i: usize = 0;
    while i < a.len()
        invariant
            i <= a.len(),
            a@.len() == b@.len(),
            forall|j: int| 0 <= j < i ==> fold_case(#[trigger] a@[j]) == fold_case(b@[j]),
        decreases a.len() - i,
    {
        if fold(a[i]) != fold(b[i]) {
            return false;
        }
        i += 1;
    }
    true
}

/// Judges a digest against the checksum an entry declares.
pub fn judge(declared: &Option<String>, digest: &[u8; 16]) -> (result: Integrity)
    ensures
        result == verdict(crate::google_drive::text_of(*declared), digest@),
{
    match declared {
        None => Integrity::Unverifiable,
        Some(text) => {
            let hex = hex_lower(digest);
            if same_hex(text.as_str().as_bytes(), hex.as_slice()) {
                Integrity::Verified
            } else {
                Integrity::Mismatch
            }
        },
    }
}

/// Hashes `content` and judges the digest against the declared checksum.
pub fn check_content(declared: &Option<String>, content: &[u8]) -> (result: Integrity)
    ensures
        result == verdict(crate::google_drive::text_of(*declared), md5_of(content@)),
{
    let digest = md5_digest(content);
    judge(declared, &digest)
}

} // verus!
