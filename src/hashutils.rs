//! The hash capability: ring digests with domain separation between leaves
//! (prefix byte 0x00) and internal nodes (prefix byte 0x01).
use vstd::prelude::*;
use vstd::utf8::encode_utf8;

verus! {

/// The digest algorithms that a tree can be built with.
#[derive(Clone, Copy, Debug, PartialEq, Eq, Structural)]
pub enum HashAlgorithm {
    Sha1,
    Sha256,
    Sha384,
    Sha512,
    Sha512_256,
}

/// The longest message, in bytes, that ring accepts: its bit length must fit in a `u64`.
pub const MAX_MESSAGE_LEN: u64 = 0x2000_0000_0000_0000;

/// What `ring::digest::digest` returns for the algorithm and the message bytes.
pub uninterp spec fn digest_of(alg: HashAlgorithm, data: Seq<u8>) -> Seq<u8>;

/// Relies on `ring::digest::digest`: the digest of `data` under the chosen
/// algorithm, a function of the two alone. It panics when `8 * data.len()`
/// overflows a `u64`, hence the bound.
#[verifier::external_body]
fn ring_digest(alg: HashAlgorithm, data: &[u8]) -> (r: Vec<u8>)
    requires
        data@.len() < MAX_MESSAGE_LEN,
    ensures
        r@ == digest_of(alg, data@),
{
    let algorithm: &'static ring::digest::Algorithm = match alg {
        HashAlgorithm::Sha1 => &ring::digest::SHA1_FOR_LEGACY_USE_ONLY,
        HashAlgorithm::Sha256 => &ring::digest::SHA256,
        HashAlgorithm::Sha384 => &ring::digest::SHA384,
        HashAlgorithm::Sha512 => &ring::digest::SHA512,
        HashAlgorithm::Sha512_256 => &ring::digest::SHA512_256,
    };
    ring::digest::digest(algorithm, data).as_ref().to_vec()
}

/// The byte that precedes a leaf's payload in the message that is hashed.
pub const LEAF_PREFIX: u8 = 0x00;

/// The byte that precedes two child digests in the message that is hashed.
pub const NODE_PREFIX: u8 = 0x01;

/// The digest of a tree with no leaves: that of the empty message.
pub open spec fn empty_hash(alg: HashAlgorithm) -> Seq<u8> {
    digest_of(alg, Seq::empty())
}

/// The digest of a leaf: that of its UTF-8 bytes after the leaf prefix.
pub open spec fn leaf_hash(alg: HashAlgorithm, value: Seq<char>) -> Seq<u8> {
    digest_of(alg, seq![LEAF_PREFIX] + encode_utf8(value))
}

/// The digest of an internal node: that of both child digests after the node prefix.
pub open spec fn node_hash(alg: HashAlgorithm, left: Seq<u8>, right: Seq<u8>) -> Seq<u8> {
    digest_of(alg, seq![NODE_PREFIX] + left + right)
}

/// Appends the bytes of `src` to `dst`.
fn append_bytes(dst: &mut Vec<u8>, src: &[u8])
    ensures
        final(dst)@ == old(dst)@ + src@,
{
    let mut i: usize = 0;
    while i < src.len()
        invariant
            i <= src@.len(),
            dst@ == old(dst)@ + src@.subrange(0, i as int),
        decreases src@.len() - i,
    {
        dst.push(src[i]);
        i = i + 1;
        assert(src@.subrange(0, i as int) =~= src@.subrange(0, i - 1) + seq![src@[i - 1]]);
    }
    assert(src@.subrange(0, i as int) =~= src@);
}

/// The digest of a tree with no leaves.
pub fn hash_empty(alg: HashAlgorithm) -> (r: Vec<u8>)
    ensures
        r@ == empty_hash(alg),
{
    let msg: Vec<u8> = Vec::new();
    ring_digest(alg, msg.as_slice())
}

/// The digest of a leaf holding `value`.
pub fn hash_leaf(alg: HashAlgorithm, value: &String) -> (r: Vec<u8>)
    requires
        encode_utf8(value@).len() + 1 < MAX_MESSAGE_LEN,
    ensures
        r@ == leaf_hash(alg, value@),
{
    let mut msg: Vec<u8> = Vec::new();
    msg.push(LEAF_PREFIX);
    let bytes: &[u8] = value.as_str().as_bytes();
    append_bytes(&mut msg, bytes);
    assert(msg@ =~= seq![LEAF_PREFIX] + encode_utf8(value@));
    ring_digest(alg, msg.as_slice())
}

/// The digest of an internal node whose children have the digests `left` and `right`.
pub fn hash_nodes(alg: HashAlgorithm, left: &Vec<u8>, right: &Vec<u8>) -> (r: Vec<u8>)
    requires
        left@.len() + right@.len() + 1 < MAX_MESSAGE_LEN,
    ensures
        r@ == node_hash(alg, left@, right@),
{
    let mut msg: Vec<u8> = Vec::new();
    msg.push(NODE_PREFIX);
    append_bytes(&mut msg, left.as_slice());
    append_bytes(&mut msg, right.as_slice());
    assert(msg@ =~= seq![NODE_PREFIX] + left@ + right@);
    ring_digest(alg, msg.as_slice())
}

} // verus!
