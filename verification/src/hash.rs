//! SHA-256 content hashes.
use vstd::prelude::*;
use crate::text::string_from;
use vstd::string::StringSliceAdditionalSpecFns;

verus! {

/// The SHA-256 hasher of the `sha2` crate, carried opaquely.
#[verifier::external_type_specification]
#[verifier::external_body]
pub struct ExSha256(sha2::Sha256);

/// The SHA-256 digest of `data` (FIPS 180-4); only named here.
pub uninterp spec fn sha256_of(data: Seq<u8>) -> Seq<u8>;

/// The bytes fed to a hasher so far.
pub uninterp spec fn sha_fed(h: sha2::Sha256) -> Seq<u8>;

/// `Sha256::new`: a hasher that has been fed nothing.
#[verifier::external_body]
pub(crate) fn sha_new() -> (r: sha2::Sha256)
    ensures
        sha_fed(r) == Seq::<u8>::empty(),
{
    <sha2::Sha256 as sha2::Digest>::new()
}

/// `Digest::update`: feed more bytes; the digest covers the concatenation
/// of everything fed.
#[verifier::external_body]
pub(crate) fn sha_update(h: &mut sha2::Sha256, data: &[u8])
    ensures
        sha_fed(*final(h)) == sha_fed(*old(h)) + data@,
{
    sha2::Digest::update(h, data)
}

/// `Digest::finalize`: the digest of everything fed.
#[verifier::external_body]
pub(crate) fn sha_finalize(h: sha2::Sha256) -> (r: [u8; 32])
    ensures
        r@ == sha256_of(sha_fed(h)),
{
    sha2::Digest::finalize(h).into()
}

/// A 32-byte content hash, rendered as 64 hex chars when displayed.
#[derive(Debug, Clone, Copy, PartialEq, Eq, Hash)]
pub struct Hash(pub [u8; 32]);

/// Lowercase hex digit of a nibble.
pub open spec fn hex_digit(d: int) -> char {
    if d < 10 {
        ((d + 48) as u8) as char
    } else {
        ((d + 87) as u8) as char
    }
}

/// Two lowercase hex digits per byte (`format!("{b:02x}")`).
pub open spec fn hex_spec(bytes: Seq<u8>) -> Seq<char>
    decreases bytes.len(),
{
    if bytes.len() == 0 {
        seq![]
    } else {
        let b = bytes.last();
        hex_spec(bytes.drop_last()) + seq![hex_digit((b / 16) as int), hex_digit((b % 16) as int)]
    }
}

proof fn lemma_hex_len(bytes: Seq<u8>)
    ensures
        hex_spec(bytes).len() == 2 * bytes.len(),
    decreases bytes.len(),
{
    if bytes.len() > 0 {
        lemma_hex_len(bytes.drop_last());
    }
}

fn hex_digit_exec(d: u8) -> (c: char)
    requires
        d < 16,
    ensures
        c == hex_digit(d as int),
{
    if d < 10 {
        (d + 48) as char
    } else {
        (d + 87) as char
    }
}

/// Append the lowercase hex form of `bytes`.
pub fn push_hex(out: &mut Vec<char>, bytes: &[u8])
    ensures
        final(out)@ == old(out)@ + hex_spec(bytes@),
{
    let ghost o = out@;
    let mut i: usize = 0;
    while i < bytes.len()
        invariant
            i <= bytes@.len(),
            out@ == o + hex_spec(bytes@.take(i as int)),
        decreases bytes@.len() - i,
    {
        let b = bytes[i];
        assert(bytes@.take(i + 1).drop_last() =~= bytes@.take(i as int));
        out.push(hex_digit_exec(b / 16));
        out.push(hex_digit_exec(b % 16));
        i = i + 1;
        assert(out@ =~= o + hex_spec(bytes@.take(i as int)));
    }
    assert(bytes@.take(bytes@.len() as int) =~= bytes@);
}

impl Hash {
    /// Hash a single byte slice.
    pub fn of(bytes: &[u8]) -> (r: Self)
        ensures
            r.0@ == sha256_of(bytes@),
    {
        let mut h = sha_new();
        sha_update(&mut h, bytes);
        assert(sha_fed(h) =~= bytes@);
        Hash(sha_finalize(h))
    }

    /// Hex representation. Useful as a stable key or cache lookup.
    pub fn hex(&self) -> (r: String)
        ensures
            r@ == hex_spec(self.0@),
            r@.len() == 64,
    {
        let mut out: Vec<char> = Vec::new();
        push_hex(&mut out, &self.0);
        proof {
            lemma_hex_len(self.0@);
        }
        assert(out@ =~= hex_spec(self.0@));
        string_from(out)
    }

    pub fn as_bytes(&self) -> (r: &[u8; 32])
        ensures
            r@ == self.0@,
    {
        &self.0
    }
}

/// Incrementally build a Hash from multiple updates. Useful when combining
/// many inputs (content + config + dependency hashes).
pub struct Hasher(sha2::Sha256);

impl Hasher {
    /// The bytes fed so far.
    pub closed spec fn fed(&self) -> Seq<u8> {
        sha_fed(self.0)
    }

    pub fn new() -> (r: Self)
        ensures
            r.fed() == Seq::<u8>::empty(),
    {
        Hasher(sha_new())
    }

    pub fn update(self, bytes: &[u8]) -> (r: Self)
        ensures
            r.fed() == self.fed() + bytes@,
    {
        let mut h = self.0;
        sha_update(&mut h, bytes);
        Hasher(h)
    }

    /// Mix in a domain tag to prevent collisions between unrelated streams:
    /// the tag's UTF-8 bytes and a zero byte.
    pub fn tag(self, tag: &str) -> (r: Self)
        ensures
            r.fed() == self.fed() + tag.spec_bytes() + seq![0u8],
    {
        let mut h = self.0;
        sha_update(&mut h, tag.as_bytes());
        let zero: [u8; 1] = [0u8];
        sha_update(&mut h, &zero);
        assert(zero@ =~= seq![0u8]);
        Hasher(h)
    }

    /// The digest of everything fed.
    pub fn finish(self) -> (r: Hash)
        ensures
            r.0@ == sha256_of(self.fed()),
    {
        Hash(sha_finalize(self.0))
    }
}


/// Feeding a hasher one byte string and finishing gives the digest of that
/// string: `Hasher::new().update(b).finish()` equals `Hash::of(b)`.
pub proof fn lemma_incremental_is_single(b: Seq<u8>)
    ensures
        sha256_of(Seq::<u8>::empty() + b) == sha256_of(b),
{
    assert(Seq::<u8>::empty() + b =~= b);
}

/// Different domain tags feed different byte streams for the same data:
/// `tag(t1).update(x)` and `tag(t2).update(x)` never hash the same input.
pub proof fn lemma_tags_separate(t1: Seq<u8>, t2: Seq<u8>, x: Seq<u8>)
    requires
        t1 != t2,
    ensures
        Seq::<u8>::empty() + t1 + seq![0u8] + x != Seq::<u8>::empty() + t2 + seq![0u8] + x,
{
    let a = Seq::<u8>::empty() + t1 + seq![0u8] + x;
    let b = Seq::<u8>::empty() + t2 + seq![0u8] + x;
    if a == b {
        assert(a.len() == b.len());
        assert(t1.len() == t2.len());
        assert forall|i: int| 0 <= i < t1.len() implies t1[i] == t2[i] by {
            assert(a[i] == t1[i]);
            assert(b[i] == t2[i]);
        }
        assert(t1 =~= t2);
    }
}

} // verus!
