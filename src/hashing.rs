use vstd::prelude::*;

verus! {

#[verifier::external_type_specification]
#[verifier::external_body]
pub struct ExBlake3Hasher(blake3::Hasher);

/// The bytes fed to a BLAKE3 hasher since it was created.
pub uninterp spec fn hashed_input(h: blake3::Hasher) -> Seq<u8>;

/// The lowercase hexadecimal BLAKE3 digest of `data`.
pub uninterp spec fn blake3_hex(data: Seq<u8>) -> Seq<char>;

/// Relies on blake3::Hasher::new: a hasher that has been fed nothing.
#[verifier::external_body]
fn hasher_new() -> (r: blake3::Hasher)
    ensures
        hashed_input(r) == Seq::<u8>::empty(),
{
    blake3::Hasher::new()
}

/// Relies on blake3::Hasher::update: the chunk is appended to the hashed input.
#[verifier::external_body]
fn hasher_update(h: &mut blake3::Hasher, chunk: &[u8])
    ensures
        hashed_input(*final(h)) == hashed_input(*old(h)) + chunk@,
{
    h.update(chunk);
}

/// Relies on blake3::Hasher::finalize and blake3::Hash::to_hex: the digest of all
/// input fed so far, as 64 lowercase hexadecimal digits. (`finalize` asserts only on
/// an input offset set through blake3's hazmat API, which this library never uses.)
#[verifier::external_body]
fn hasher_hex(h: &blake3::Hasher) -> (r: String)
    ensures
        r@ == blake3_hex(hashed_input(*h)),
        r@.len() == 64,
        forall|i: int| 0 <= i < r@.len() ==> is_lower_hex(#[trigger] r@[i]),
{
    h.finalize().to_hex().to_string()
}

/// A lowercase hexadecimal digit.
pub open spec fn is_lower_hex(c: char) -> bool {
    ('0' <= c && c <= '9') || ('a' <= c && c <= 'f')
}

/// The primary content digest of one file, computed over its bytes chunk by chunk
/// so that memory use does not grow with the file.
pub struct Blake3Stream {
    hasher: blake3::Hasher,
}

impl Blake3Stream {
    /// The bytes fed so far.
    pub closed spec fn input(&self) -> Seq<u8> {
        hashed_input(self.hasher)
    }

    pub fn new() -> (r: Blake3Stream)
        ensures
            r.input() == Seq::<u8>::empty(),
    {
        Blake3Stream { hasher: hasher_new() }
    }

    /// Feeds the next chunk of the file.
    pub fn update(&mut self, chunk: &[u8])
        ensures
            final(self).input() == old(self).input() + chunk@,
    {
        hasher_update(&mut self.hasher, chunk);
    }

    /// The digest of everything fed, in hexadecimal.
    pub fn hex_digest(&self) -> (r: String)
        ensures
            r@ == blake3_hex(self.input()),
            r@.len() == 64,
            forall|i: int| 0 <= i < r@.len() ==> is_lower_hex(#[trigger] r@[i]),
    {
        hasher_hex(&self.hasher)
    }
}

/// The primary digest of bytes held in memory.
pub fn digest_bytes(data: &[u8]) -> (r: String)
    ensures
        r@ == blake3_hex(data@),
{
    let mut s = Blake3Stream::new();
    s.update(data);
    proof {
        assert(Seq::<u8>::empty() + data@ == data@);
    }
    s.hex_digest()
}

} // verus!
