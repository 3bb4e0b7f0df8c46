//! Group and item identity digests.
//!
//! Every identity in the system is a 32-byte keyless digest: the digest of a
//! URL list names a feed group, the digest over update-key values names an
//! item within its group, and the digest of the criteria names the group's
//! matching semantics.  Lists are always hashed as
//! `H(H(part_1) ++ H(part_2) ++ ...)` so that two distinct part sequences
//! cannot collide by running parts together.

use vstd::prelude::*;

verus! {

use vstd::utf8::encode_utf8;

/// The 32-byte keyless digest that the outside hash function assigns to a
/// byte sequence.  It is a function of the input bytes alone.
pub uninterp spec fn blake3_of(bytes: Seq<u8>) -> Seq<u8>;

/// Relies on blake3::hash: a 32-byte keyless digest of the input bytes,
/// depending on the input bytes alone.
#[verifier::external_body]
pub fn hash_bytes(bytes: &[u8]) -> (r: Vec<u8>)
    ensures
        r@ == blake3_of(bytes@),
        r@.len() == 32,
{
    blake3::hash(bytes).as_bytes().to_vec()
}

/// The digests of the parts, concatenated in order.
pub open spec fn digests_concat(parts: Seq<Seq<u8>>) -> Seq<u8>
    decreases parts.len(),
{
    if parts.len() == 0 {
        Seq::empty()
    } else {
        digests_concat(parts.drop_last()) + blake3_of(parts.last())
    }
}

/// `H(H(part_1) ++ H(part_2) ++ ...)`: the order-sensitive list digest.
pub open spec fn chain_digest(parts: Seq<Seq<u8>>) -> Seq<u8> {
    blake3_of(digests_concat(parts))
}

/// The UTF-8 bytes of each string in the list.
pub open spec fn utf8_each(parts: Seq<Seq<char>>) -> Seq<Seq<u8>> {
    parts.map_values(|p: Seq<char>| encode_utf8(p))
}

/// The list digest of a string list: the group identity shape.
pub open spec fn strings_digest(parts: Seq<Seq<char>>) -> Seq<u8> {
    chain_digest(utf8_each(parts))
}

proof fn lemma_digests_concat_push(parts: Seq<Seq<u8>>, x: Seq<u8>)
    ensures
        digests_concat(parts.push(x)) == digests_concat(parts) + blake3_of(x),
{
    assert(parts.push(x).drop_last() =~= parts);
    assert(parts.push(x).last() == x);
}

/// Hash one string: the digest of its UTF-8 bytes.
pub fn hash_str(s: &str) -> (r: Vec<u8>)
    ensures
        r@ == blake3_of(encode_utf8(s@)),
        r@.len() == 32,
{
    hash_bytes(s.as_bytes())
}

/// The order-sensitive digest of a string list, as used for the URL list
/// and for the update-key list of a group.
pub fn chain_hash_strings(parts: &Vec<String>) -> (r: Vec<u8>)
    ensures
        r@ == strings_digest(parts.deep_view()),
        r@.len() == 32,
{
    let ghost all: Seq<Seq<char>> = parts.deep_view();
    let mut buf: Vec<u8> = Vec::new();
    for i in 0..parts.len()
        invariant
            all == parts.deep_view(),
            buf@ == digests_concat(utf8_each(all.take(i as int))),
    {
        let mut h = hash_str(parts[i].as_str());
        proof {
            assert(all.take(i as int).push(all[i as int]) =~= all.take(i + 1));
            assert(utf8_each(all.take(i + 1)) =~= utf8_each(all.take(i as int)).push(
                encode_utf8(all[i as int]),
            ));
            lemma_digests_concat_push(utf8_each(all.take(i as int)), encode_utf8(all[i as int]));
        }
        buf.append(&mut h);
    }
    proof {
        assert(all.take(parts.len() as int) =~= all);
    }
    hash_bytes(buf.as_slice())
}

/// The 32 zero bytes standing in for "no filter configured".
pub open spec fn zero_digest() -> Seq<u8> {
    Seq::new(32, |i: int| 0u8)
}

/// A vector holding the 32 zero bytes.
pub fn zero_digest_bytes() -> (r: Vec<u8>)
    ensures
        r@ == zero_digest(),
{
    let mut r: Vec<u8> = Vec::new();
    for i in 0..32usize
        invariant
            r@ =~= Seq::new(i as nat, |j: int| 0u8),
    {
        r.push(0u8);
        proof {
            assert(r@ =~= Seq::new((i + 1) as nat, |j: int| 0u8));
        }
    }
    proof {
        assert(r@ =~= zero_digest());
    }
    r
}

/// Append a byte slice to a vector.
pub fn append_bytes(dst: &mut Vec<u8>, src: &[u8])
    ensures
        final(dst)@ == old(dst)@ + src@,
{
    for i in 0..src.len()
        invariant
            dst@ == old(dst)@ + src@.take(i as int),
    {
        dst.push(src[i]);
        proof {
            assert(old(dst)@ + src@.take(i + 1) =~= (old(dst)@ + src@.take(i as int)).push(
                src@[i as int],
            ));
        }
    }
    proof {
        assert(src@.take(src@.len() as int) =~= src@);
    }
}

/// Whether two byte vectors hold the same bytes.
pub fn bytes_eq(a: &Vec<u8>, b: &Vec<u8>) -> (r: bool)
    ensures
        r == (a@ == b@),
{
    if a.len() != b.len() {
        return false;
    }
    for i in 0..a.len()
        invariant
            a@.len() == b@.len(),
            forall|j: int| 0 <= j < i ==> a@[j] == b@[j],
    {
        if a[i] != b[i] {
            return false;
        }
    }
    proof {
        assert(a@ =~= b@);
    }
    true
}

} // verus!
