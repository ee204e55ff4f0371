use vstd::prelude::*;

use fastcrypto::hash::HashFunction;

verus! {

/// A 32-byte digest (parcel digest, batch digest, broadcast message digest).
pub type Digest = [u8; 32];

/// What blake3 returns on the given bytes.
pub uninterp spec fn blake3_of(bytes: Seq<u8>) -> Seq<u8>;

/// What Blake2b-256, fed each transaction in order, returns.
pub uninterp spec fn batch_digest_of(transactions: Seq<Seq<u8>>) -> Seq<u8>;

/// Relies on fleek_blake3::hash: the 32-byte blake3 hash of the input.
#[verifier::external_body]
pub(crate) fn blake3_hash(bytes: &Vec<u8>) -> (r: Digest)
    ensures
        r@ == blake3_of(bytes@),
{
    fleek_blake3::hash(bytes.as_slice()).into()
}

/// Relies on fastcrypto's Blake2b256::digest_iterator: one update per transaction, in order.
#[verifier::external_body]
fn blake2b_batch(transactions: &Vec<Vec<u8>>) -> (r: Digest)
    ensures
        r@ == batch_digest_of(transactions.deep_view()),
{
    fastcrypto::hash::Blake2b256::digest_iterator(transactions.iter()).digest
}

/// Byte-wise equality of two digests.
pub fn digest_eq(a: &Digest, b: &Digest) -> (r: bool)
    ensures
        r == (a@ == b@),
{
    let mut i: usize = 0;
    while i < 32
        invariant
            0 <= i <= 32,
            forall|j: int| 0 <= j < i ==> a@[j] == b@[j],
        decreases 32 - i,
    {
        if a[i] != b[i] {
            return false;
        }
        i = i + 1;
    }
    assert(a@ =~= b@);
    true
}

/// A copy of a byte string.
pub fn clone_bytes(v: &Vec<u8>) -> (r: Vec<u8>)
    ensures
        r@ == v@,
{
    let mut r: Vec<u8> = Vec::new();
    let mut i: usize = 0;
    while i < v.len()
        invariant
            0 <= i <= v@.len(),
            r@ == v@.subrange(0, i as int),
        decreases v@.len() - i,
    {
        r.push(v[i]);
        assert(r@ =~= v@.subrange(0, i + 1));
        i = i + 1;
    }
    assert(v@.subrange(0, v@.len() as int) =~= v@);
    r
}

/// A copy of a list of byte strings.
pub fn clone_batch(v: &Vec<Vec<u8>>) -> (r: Vec<Vec<u8>>)
    ensures
        r.deep_view() == v.deep_view(),
{
    let mut r: Vec<Vec<u8>> = Vec::new();
    let mut i: usize = 0;
    while i < v.len()
        invariant
            0 <= i <= v@.len(),
            r@.len() == i,
            forall|j: int| 0 <= j < i ==> #[trigger] r@[j]@ == v@[j]@,
        decreases v@.len() - i,
    {
        let b = clone_bytes(&v[i]);
        r.push(b);
        i = i + 1;
    }
    assert forall|j: int| 0 <= j < v@.len() implies #[trigger] r@[j].deep_view()
        == v@[j].deep_view() by {
        assert(r@[j]@ == v@[j]@);
        assert(r@[j].deep_view() =~= v@[j].deep_view());
    }
    assert(r.deep_view() =~= v.deep_view());
    r
}

/// The little-endian bytes of a `u32`.
pub open spec fn u32_le(x: u32) -> Seq<u8> {
    seq![
        (x % 256) as u8,
        ((x / 256) % 256) as u8,
        ((x / 65536) % 256) as u8,
        ((x / 16777216) % 256) as u8,
    ]
}

/// The bytes that a parcel digest hashes: the number of transactions as a
/// little-endian `u32`, the batch digest, and the digest of the previous parcel.
pub open spec fn parcel_preimage(n: u32, batch: Seq<u8>, last_executed: Seq<u8>) -> Seq<u8> {
    u32_le(n) + batch + last_executed
}

/// The digest of a parcel with the given transactions and back-pointer.
pub open spec fn parcel_digest_of(transactions: Seq<Seq<u8>>, last_executed: Seq<u8>) -> Seq<u8> {
    blake3_of(
        parcel_preimage(
            transactions.len() as u32,
            batch_digest_of(transactions),
            last_executed,
        ),
    )
}

/// Appends the little-endian bytes of `x`.
pub fn push_u32_le(out: &mut Vec<u8>, x: u32)
    ensures
        final(out)@ == old(out)@ + u32_le(x),
{
    out.push((x % 256) as u8);
    out.push(((x / 256) % 256) as u8);
    out.push(((x / 65536) % 256) as u8);
    out.push(((x / 16777216) % 256) as u8);
    assert(final(out)@ =~= old(out)@ + u32_le(x));
}

/// Appends the bytes of a digest.
pub fn push_digest(out: &mut Vec<u8>, d: &Digest)
    ensures
        final(out)@ == old(out)@ + d@,
{
    let ghost start = out@;
    let mut i: usize = 0;
    while i < 32
        invariant
            0 <= i <= 32,
            out@ == start + d@.subrange(0, i as int),
        decreases 32 - i,
    {
        out.push(d[i]);
        assert(out@ =~= start + d@.subrange(0, i + 1));
        i = i + 1;
    }
    assert(d@.subrange(0, 32) =~= d@);
}

/// The digest of a parcel: blake3 over the transaction count (as `u32`), the
/// batch digest of the transactions, and the previous parcel's digest.
/// The count is truncated to 32 bits, as the wire format of the digest fixes.
pub fn parcel_digest(transactions: &Vec<Vec<u8>>, last_executed: &Digest) -> (r: Digest)
    ensures
        r@ == parcel_digest_of(transactions.deep_view(), last_executed@),
{
    let batch = blake2b_batch(transactions);
    let mut bytes: Vec<u8> = Vec::new();
    push_u32_le(&mut bytes, transactions.len() as u32);
    push_digest(&mut bytes, &batch);
    push_digest(&mut bytes, last_executed);
    assert(bytes@ =~= parcel_preimage(
        transactions@.len() as u32,
        batch_digest_of(transactions.deep_view()),
        last_executed@,
    ));
    blake3_hash(&bytes)
}

} // verus!
