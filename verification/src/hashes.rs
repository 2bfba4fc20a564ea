//! Digest model: hash algorithm identity and fixed-width digest values.
//!
//! Exactly one algorithm exists today (a 256-bit scheme); the enums are kept
//! open so that new algorithms can be added as new variants plus one new
//! branch wherever code switches on digest size or streaming-hash choice.

use vstd::prelude::*;
use vstd::string::StringSliceAdditionalSpecFns;
use vstd::string::StringExecFns;

verus! {

/// Identity of a checksum scheme, with a canonical lowercase textual token.
#[derive(Copy, Clone, Debug, PartialEq, Eq, Structural)]
#[non_exhaustive]
pub enum HashType {
    Sha256,
}

/// A digest value tagged with its algorithm, carrying the fixed-width byte
/// array whose length the algorithm dictates.
#[derive(Copy, Clone, Debug, PartialEq, Eq)]
#[non_exhaustive]
pub enum HashValue {
    Sha256([u8; 32]),
}

impl HashType {
    /// The canonical token of the algorithm, as it appears in map documents.
    pub open spec fn spec_token(&self) -> Seq<char> {
        "sha256"@
    }

    /// Number of bytes in a digest of this algorithm.
    pub open spec fn spec_digest_size(&self) -> int {
        32
    }

    /// Parses an algorithm from its canonical token; case-sensitive, no
    /// surrounding whitespace.
    pub fn from_str(s: &str) -> (r: Option<HashType>)
        ensures
            r == if s@ == HashType::Sha256.spec_token() {
                Some(HashType::Sha256)
            } else {
                None::<HashType>
            },
    {
        let b = s.as_bytes();
        proof {
            lemma_sha256_token_bytes();
            vstd::utf8::encode_utf8_decode_utf8(s@);
            vstd::utf8::encode_utf8_decode_utf8("sha256"@);
        }
        if b.len() == 6 && b[0] == 115 && b[1] == 104 && b[2] == 97 && b[3] == 50 && b[4] == 53
            && b[5] == 54 {
            proof {
                assert(s.spec_bytes() =~= "sha256".spec_bytes());
            }
            Some(HashType::Sha256)
        } else {
            proof {
                if s@ == "sha256"@ {
                    assert(s.spec_bytes() =~= "sha256".spec_bytes());
                }
            }
            None
        }
    }

    /// The canonical lowercase token of the algorithm.
    pub fn to_string(&self) -> (r: String)
        ensures
            r@ == self.spec_token(),
    {
        match self {
            HashType::Sha256 => String::from_str("sha256"),
        }
    }

    /// Digest byte length dictated by the algorithm.
    pub fn digest_size(&self) -> (n: usize)
        ensures
            n == self.spec_digest_size(),
    {
        match self {
            HashType::Sha256 => 32,
        }
    }
}

/// The byte sequence of the canonical token of the 256-bit scheme.
proof fn lemma_sha256_token_bytes()
    ensures
        "sha256".spec_bytes() =~= seq![115u8, 104u8, 97u8, 50u8, 53u8, 54u8],
        "sha256"@.len() == 6,
{
    reveal_strlit("sha256");
    assert(vstd::string::is_ascii("sha256")) by {
        assert(forall|i: int|
            0 <= i < "sha256"@.len() ==> '\0' <= #[trigger] "sha256"@[i] <= '\u{7f}');
    }
    vstd::string::is_ascii_spec_bytes("sha256");
    assert("sha256".spec_bytes() =~= seq![115u8, 104u8, 97u8, 50u8, 53u8, 54u8]);
}

impl HashValue {
    /// The algorithm this digest value belongs to.
    pub fn to_type(&self) -> (t: HashType)
        ensures
            t == self.spec_type(),
    {
        match self {
            HashValue::Sha256(_) => HashType::Sha256,
        }
    }

    /// The algorithm tag of the value.
    pub open spec fn spec_type(&self) -> HashType {
        match self {
            HashValue::Sha256(_) => HashType::Sha256,
        }
    }

    /// The raw digest bytes.
    pub open spec fn spec_bytes(&self) -> Seq<u8> {
        match self {
            HashValue::Sha256(v) => v@,
        }
    }

    /// The raw digest bytes as a slice.
    pub fn as_slice(&self) -> (r: &[u8])
        ensures
            r@ == self.spec_bytes(),
    {
        match self {
            HashValue::Sha256(v) => v.as_slice(),
        }
    }
}

/// The digest that the 256-bit scheme assigns to a byte sequence.
pub uninterp spec fn sha256_of(bytes: Seq<u8>) -> Seq<u8>;

/// The bytes a streaming hasher has been fed since it was created or last
/// reset.
pub uninterp spec fn hasher_input(h: Sha256Hasher) -> Seq<u8>;

/// A reusable streaming hasher of the 256-bit scheme.  It holds a
/// sha2::Sha256, whose type Verus cannot see; its abstract state is the byte
/// sequence fed so far, [`hasher_input`].
#[verifier::external_body]
pub struct Sha256Hasher {
    inner: sha2::Sha256,
}

impl Sha256Hasher {
    /// Relies on sha2::Sha256::new: a fresh hasher has processed no data.
    #[verifier::external_body]
    pub fn new() -> (h: Sha256Hasher)
        ensures
            hasher_input(h) == Seq::<u8>::empty(),
    {
        Sha256Hasher { inner: <sha2::Sha256 as sha2::Digest>::new() }
    }

    /// Relies on sha2::Sha256::update: processes the data, appending it to
    /// what the hasher has seen.
    #[verifier::external_body]
    pub fn update(&mut self, data: &[u8])
        ensures
            hasher_input(*final(self)) == hasher_input(*old(self)) + data@,
    {
        <sha2::Sha256 as sha2::Digest>::update(&mut self.inner, data)
    }

    /// Relies on sha2::Sha256::finalize_reset: returns the 32-byte digest of
    /// all data fed so far and resets the hasher to its initial state.
    #[verifier::external_body]
    pub fn finalize_reset(&mut self) -> (d: Vec<u8>)
        ensures
            d@ == sha256_of(hasher_input(*old(self))),
            d@.len() == 32,
            hasher_input(*final(self)) == Seq::<u8>::empty(),
    {
        <sha2::Sha256 as sha2::Digest>::finalize_reset(&mut self.inner).to_vec()
    }
}

/// Byte-for-byte comparison of two slices.
pub(crate) fn bytes_equal(a: &[u8], b: &[u8]) -> (r: bool)
    ensures
        r <==> a@ == b@,
{
    if a.len() != b.len() {
        proof {
            assert(a@.len() != b@.len());
        }
        return false;
    }
    let mut i: usize = 0;
    while i < a.len()
        invariant
            0 <= i <= a@.len(),
            a@.len() == b@.len(),
            forall|j: int| 0 <= j < i ==> a@[j] == b@[j],
        decreases a@.len() - i,
    {
        if a[i] != b[i] {
            return false;
        }
        i += 1;
    }
    proof {
        assert(a@ =~= b@);
    }
    true
}

} // verus!
