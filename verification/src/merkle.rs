use vstd::prelude::*;

use crate::errors::OracleError;
use crate::hashes::{keccak256, keccak256_of, sha256, sha256_of};
use crate::hexutil::{parse_b256, parse_hex_to_b256};
use crate::outputs::{output_views, MoneroOutput, OutputModel};

verus! {

/// The all-zero digest that stands for an empty tree.
pub open spec fn zero32() -> Seq<u8> {
    Seq::new(32, |i: int| 0u8)
}

/// The all-zero digest as a value.
pub fn zero_root() -> (r: Vec<u8>)
    ensures
        r@ == zero32(),
{
    let mut v: Vec<u8> = Vec::new();
    while v.len() < 32
        invariant
            v@.len() <= 32,
            forall|j: int| 0 <= j < v@.len() ==> v@[j] == 0u8,
        decreases 32 - v@.len(),
    {
        v.push(0u8);
    }
    proof {
        assert(v@ =~= zero32());
    }
    v
}

/// The two pairwise combining primitives the engine can be run with: the
/// destination chain's native hash for the transaction tree, and a
/// general-purpose digest for the output tree. The split is deliberate and
/// is part of what the on-chain verifier recomputes.
pub enum PairHash {
    Keccak,
    Sha,
}

/// The parent of two nodes: the chosen primitive over the concatenation of
/// the two 32-byte children, left first.
pub open spec fn pair_fn(k: PairHash) -> spec_fn(Seq<u8>, Seq<u8>) -> Seq<u8> {
    match k {
        PairHash::Keccak => |a: Seq<u8>, b: Seq<u8>| keccak256_of(a + b),
        PairHash::Sha => |a: Seq<u8>, b: Seq<u8>| sha256_of(a + b),
    }
}

/// Append the bytes of `src` to `dst`.
fn append_bytes(dst: &mut Vec<u8>, src: &Vec<u8>)
    ensures
        final(dst)@ == old(dst)@ + src@,
{
    let mut i: usize = 0;
    proof {
        assert(old(dst)@ + src@.take(0) =~= old(dst)@);
    }
    while i < src.len()
        invariant
            i <= src@.len(),
            dst@ == old(dst)@ + src@.take(i as int),
        decreases src@.len() - i,
    {
        let b = src[i];
        proof {
            assert(old(dst)@ + src@.take(i as int + 1) =~= (old(dst)@ + src@.take(i as int)).push(
                src@[i as int],
            ));
        }
        dst.push(b);
        i = i + 1;
    }
    proof {
        assert(src@.take(src@.len() as int) =~= src@);
    }
}

/// Compute the parent digest of two children under the chosen primitive.
fn pair_digest(k: &PairHash, a: &Vec<u8>, b: &Vec<u8>) -> (r: Vec<u8>)
    ensures
        r@ == pair_fn(*k)(a@, b@),
{
    let mut data: Vec<u8> = Vec::new();
    append_bytes(&mut data, a);
    append_bytes(&mut data, b);
    match k {
        PairHash::Keccak => keccak256(&data),
        PairHash::Sha => sha256(&data),
    }
}

/// The byte-string views of a sequence of byte vectors.
pub open spec fn byte_views(s: Seq<Vec<u8>>) -> Seq<Seq<u8>> {
    s.map_values(|v: Vec<u8>| v@)
}

/// One pairing pass over a level: adjacent children left to right; an odd
/// trailing child is duplicated as its own pair partner.
pub open spec fn combine_level(
    level: Seq<Seq<u8>>,
    h: spec_fn(Seq<u8>, Seq<u8>) -> Seq<u8>,
) -> Seq<Seq<u8>>
    decreases level.len(),
{
    if level.len() == 0 {
        Seq::empty()
    } else if level.len() == 1 {
        seq![h(level[0], level[0])]
    } else {
        seq![h(level[0], level[1])] + combine_level(level.skip(2), h)
    }
}

pub proof fn lemma_combine_level_len(level: Seq<Seq<u8>>, h: spec_fn(Seq<u8>, Seq<u8>) -> Seq<u8>)
    ensures
        combine_level(level, h).len() == (level.len() + 1) / 2,
    decreases level.len(),
{
    if level.len() >= 2 {
        lemma_combine_level_len(level.skip(2), h);
    }
}

/// Where a level has an odd node count, its trailing node is paired with
/// itself: the last parent of the pass is the hash of the last child twice
/// over. Every level of a tree is built by such a pass, so this holds at
/// every level where an odd count occurs.
pub proof fn lemma_odd_level_duplicates_last(
    level: Seq<Seq<u8>>,
    h: spec_fn(Seq<u8>, Seq<u8>) -> Seq<u8>,
)
    requires
        level.len() % 2 == 1,
    ensures
        combine_level(level, h).len() >= 1,
        combine_level(level, h).last() == h(level.last(), level.last()),
    decreases level.len(),
{
    lemma_combine_level_len(level, h);
    if level.len() >= 2 {
        lemma_odd_level_duplicates_last(level.skip(2), h);
        assert(level.skip(2).last() == level.last());
        lemma_combine_level_len(level.skip(2), h);
    }
}

/// The root a level reduces to: pairing passes until one node remains.
pub open spec fn root_from_level(
    level: Seq<Seq<u8>>,
    h: spec_fn(Seq<u8>, Seq<u8>) -> Seq<u8>,
) -> Seq<u8>
    decreases level.len(),
    via root_from_level_dec
{
    if level.len() == 0 {
        zero32()
    } else if level.len() == 1 {
        level[0]
    } else {
        root_from_level(combine_level(level, h), h)
    }
}

#[via_fn]
proof fn root_from_level_dec(level: Seq<Seq<u8>>, h: spec_fn(Seq<u8>, Seq<u8>) -> Seq<u8>) {
    lemma_combine_level_len(level, h);
}

/// Reduce a non-empty level to its root under the chosen primitive.
fn merkle_reduce(k: &PairHash, leaves: Vec<Vec<u8>>) -> (r: Vec<u8>)
    requires
        leaves@.len() >= 1,
    ensures
        r@ == root_from_level(byte_views(leaves@), pair_fn(*k)),
{
    let ghost h = pair_fn(*k);
    let ghost leaves0 = byte_views(leaves@);
    let mut level = leaves;
    while level.len() > 1
        invariant
            level@.len() >= 1,
            root_from_level(byte_views(level@), h) == root_from_level(leaves0, h),
            h == pair_fn(*k),
        decreases level@.len(),
    {
        let ghost cur = byte_views(level@);
        let mut next: Vec<Vec<u8>> = Vec::new();
        let mut i: usize = 0;
        proof {
            assert(cur.skip(0) =~= cur);
            assert(byte_views(next@) + combine_level(cur, h) =~= combine_level(cur, h));
        }
        while i < level.len()
            invariant
                byte_views(level@) == cur,
                level@.len() >= 2,
                i <= level@.len(),
                h == pair_fn(*k),
                combine_level(cur, h) == byte_views(next@) + combine_level(
                    cur.skip(i as int),
                    h,
                ),
            decreases level@.len() - i,
        {
            let ghost rest = cur.skip(i as int);
            let parent: Vec<u8>;
            if i + 1 < level.len() {
                parent = pair_digest(k, &level[i], &level[i + 1]);
                proof {
                    assert(rest[0] == cur[i as int]);
                    assert(rest[1] == cur[i as int + 1]);
                    assert(rest.skip(2) =~= cur.skip(i as int + 2));
                    assert(byte_views(next@.push(parent)) =~= byte_views(next@).push(parent@));
                    assert(byte_views(next@).push(parent@) + combine_level(
                        cur.skip(i as int + 2),
                        h,
                    ) =~= byte_views(next@) + combine_level(rest, h));
                }
                next.push(parent);
                i = i + 2;
            } else {
                parent = pair_digest(k, &level[i], &level[i]);
                proof {
                    assert(rest.len() == 1);
                    assert(rest[0] == cur[i as int]);
                    assert(combine_level(rest, h) == seq![h(rest[0], rest[0])]);
                    assert(cur.skip(i as int + 1).len() == 0);
                    assert(byte_views(next@.push(parent)) =~= byte_views(next@).push(parent@));
                    assert(byte_views(next@).push(parent@) + combine_level(
                        cur.skip(i as int + 1),
                        h,
                    ) =~= byte_views(next@) + combine_level(rest, h));
                }
                next.push(parent);
                i = i + 1;
            }
        }
        proof {
            assert(cur.skip(level@.len() as int).len() == 0);
            assert(byte_views(next@) + combine_level(cur.skip(level@.len() as int), h)
                =~= byte_views(next@));
            assert(byte_views(next@) == combine_level(cur, h));
            lemma_combine_level_len(cur, h);
            assert(root_from_level(combine_level(cur, h), h) == root_from_level(cur, h));
        }
        level = next;
    }
    let ghost lv = byte_views(level@);
    proof {
        assert(lv.len() == 1);
        assert(lv[0] == level@[0]@);
    }
    match level.pop() {
        Some(r) => {
            proof {
                assert(r@ == lv[0]);
            }
            r
        },
        None => {
            proof {
                assert(false);
            }
            zero_root()
        },
    }
}

/// Whether every entry of a transaction hash list parses as a 32-byte
/// hexadecimal digest.
pub open spec fn tx_hashes_ok(hashes: Seq<Seq<char>>) -> bool {
    forall|i: int| 0 <= i < hashes.len() ==> parse_b256(#[trigger] hashes[i]) is Some
}

/// The leaves of the transaction tree: the decoded digest of each entry,
/// in order. Meaningful when every entry parses.
pub open spec fn tx_leaves(hashes: Seq<Seq<char>>) -> Seq<Seq<u8>> {
    hashes.map_values(
        |h: Seq<char>|
            match parse_b256(h) {
                Some(b) => b,
                None => Seq::empty(),
            },
    )
}

/// The character views of a sequence of strings.
pub open spec fn char_views(s: Seq<String>) -> Seq<Seq<char>> {
    s.map_values(|x: String| x@)
}

/// The transaction tree root over a fully decodable hash list: the
/// all-zero digest for an empty list, otherwise the Keccak-paired
/// reduction of the decoded leaves (a single leaf is the root itself).
pub open spec fn tx_root_spec(hashes: Seq<Seq<char>>) -> Seq<u8> {
    if hashes.len() == 0 {
        zero32()
    } else {
        root_from_level(tx_leaves(hashes), pair_fn(PairHash::Keccak))
    }
}

/// Build the transaction Merkle root from a block's transaction hash list.
/// An entry that is not valid hexadecimal, or does not decode to exactly
/// 32 bytes, is an encoding error that aborts the block: the root is never
/// computed over fewer leaves than the list holds.
pub fn compute_tx_merkle_root(tx_hashes: &Vec<String>) -> (r: Result<Vec<u8>, OracleError>)
    ensures
        match r {
            Ok(v) => tx_hashes_ok(char_views(tx_hashes@)) && v@ == tx_root_spec(
                char_views(tx_hashes@),
            ),
            Err(e) => !tx_hashes_ok(char_views(tx_hashes@)) && e is Encoding,
        },
{
    let ghost hs = char_views(tx_hashes@);
    let mut leaves: Vec<Vec<u8>> = Vec::new();
    let mut i: usize = 0;
    while i < tx_hashes.len()
        invariant
            hs == char_views(tx_hashes@),
            i <= tx_hashes@.len(),
            forall|j: int| 0 <= j < i ==> parse_b256(#[trigger] hs[j]) is Some,
            byte_views(leaves@) == tx_leaves(hs).take(i as int),
        decreases tx_hashes@.len() - i,
    {
        let entry: &String = &tx_hashes[i];
        proof {
            assert(hs[i as int] == tx_hashes@[i as int]@);
        }
        match parse_hex_to_b256(entry.as_str()) {
            Ok(v) => {
                proof {
                    assert(tx_leaves(hs)[i as int] == v@);
                    assert(byte_views(leaves@.push(v)) =~= byte_views(leaves@).push(v@));
                    assert(tx_leaves(hs).take(i as int).push(tx_leaves(hs)[i as int])
                        =~= tx_leaves(hs).take(i as int + 1));
                }
                leaves.push(v);
            },
            Err(_) => {
                assert(parse_b256(hs[i as int]) is None);
                return Err(OracleError::Encoding);
            },
        }
        i = i + 1;
    }
    proof {
        assert(tx_leaves(hs).take(tx_hashes@.len() as int) =~= tx_leaves(hs));
    }
    if leaves.len() == 0 {
        return Ok(zero_root());
    }
    Ok(merkle_reduce(&PairHash::Keccak, leaves))
}

/// A 64-bit index written as a 32-byte big-endian unsigned integer.
pub open spec fn u64_be32(x: u64) -> Seq<u8> {
    Seq::new(24, |i: int| 0u8) + seq![
        ((x >> 56) & 0xff) as u8,
        ((x >> 48) & 0xff) as u8,
        ((x >> 40) & 0xff) as u8,
        ((x >> 32) & 0xff) as u8,
        ((x >> 24) & 0xff) as u8,
        ((x >> 16) & 0xff) as u8,
        ((x >> 8) & 0xff) as u8,
        (x & 0xff) as u8,
    ]
}

fn u64_to_be32(x: u64) -> (r: Vec<u8>)
    ensures
        r@ == u64_be32(x),
{
    let mut out: Vec<u8> = Vec::new();
    while out.len() < 24
        invariant
            out@.len() <= 24,
            forall|j: int| 0 <= j < out@.len() ==> out@[j] == 0u8,
        decreases 24 - out@.len(),
    {
        out.push(0u8);
    }
    proof {
        assert(((x >> 56) & 0xff) < 256 && ((x >> 48) & 0xff) < 256 && ((x >> 40) & 0xff) < 256 && (
        (x >> 32) & 0xff) < 256 && ((x >> 24) & 0xff) < 256 && ((x >> 16) & 0xff) < 256 && ((x >> 8)
            & 0xff) < 256 && (x & 0xff) < 256) by (bit_vector);
    }
    out.push(((x >> 56) & 0xff) as u8);
    out.push(((x >> 48) & 0xff) as u8);
    out.push(((x >> 40) & 0xff) as u8);
    out.push(((x >> 32) & 0xff) as u8);
    out.push(((x >> 24) & 0xff) as u8);
    out.push(((x >> 16) & 0xff) as u8);
    out.push(((x >> 8) & 0xff) as u8);
    out.push((x & 0xff) as u8);
    proof {
        assert(out@ =~= u64_be32(x));
    }
    out
}

/// The packed preimage of one output leaf: transaction hash, output index
/// as a 32-byte big-endian integer, encrypted amount, output public key,
/// and commitment, concatenated in that order.
pub open spec fn output_leaf_bytes(m: OutputModel) -> Seq<u8> {
    m.tx_hash + u64_be32(m.output_index) + m.ecdh_amount + m.output_pub_key + m.commitment
}

/// One output record's leaf digest under the destination chain's native
/// hash.
pub open spec fn output_leaf(m: OutputModel) -> Seq<u8> {
    keccak256_of(output_leaf_bytes(m))
}

fn output_leaf_digest(o: &MoneroOutput) -> (r: Vec<u8>)
    ensures
        r@ == output_leaf(o@),
{
    let mut data: Vec<u8> = Vec::new();
    append_bytes(&mut data, &o.tx_hash);
    let idx = u64_to_be32(o.output_index);
    append_bytes(&mut data, &idx);
    append_bytes(&mut data, &o.ecdh_amount);
    append_bytes(&mut data, &o.output_pub_key);
    append_bytes(&mut data, &o.commitment);
    proof {
        assert(data@ =~= output_leaf_bytes(o@));
    }
    keccak256(&data)
}

/// The output tree root: the all-zero digest for no records, the single
/// record's leaf digest unchanged for one record, and otherwise the
/// SHA-paired reduction of the leaf digests.
pub open spec fn output_root_spec(ms: Seq<OutputModel>) -> Seq<u8> {
    if ms.len() == 0 {
        zero32()
    } else if ms.len() == 1 {
        output_leaf(ms[0])
    } else {
        root_from_level(ms.map_values(|m: OutputModel| output_leaf(m)), pair_fn(PairHash::Sha))
    }
}

/// Build the output Merkle root from a block's normalized output records.
pub fn compute_output_merkle_root(outputs: &Vec<MoneroOutput>) -> (r: Vec<u8>)
    ensures
        r@ == output_root_spec(output_views(outputs@)),
{
    let ghost ms = output_views(outputs@);
    if outputs.len() == 0 {
        return zero_root();
    }
    let ghost leaf_models = ms.map_values(|m: OutputModel| output_leaf(m));
    let mut leaves: Vec<Vec<u8>> = Vec::new();
    let mut i: usize = 0;
    proof {
        assert(byte_views(leaves@) =~= leaf_models.take(0));
    }
    while i < outputs.len()
        invariant
            ms == output_views(outputs@),
            leaf_models == ms.map_values(|m: OutputModel| output_leaf(m)),
            i <= outputs@.len(),
            byte_views(leaves@) == leaf_models.take(i as int),
        decreases outputs@.len() - i,
    {
        let leaf = output_leaf_digest(&outputs[i]);
        proof {
            assert(ms[i as int] == outputs@[i as int]@);
            assert(leaf_models[i as int] == output_leaf(ms[i as int]));
            assert(byte_views(leaves@.push(leaf)) =~= byte_views(leaves@).push(leaf@));
            assert(leaf_models.take(i as int).push(leaf_models[i as int]) =~= leaf_models.take(
                i as int + 1,
            ));
        }
        leaves.push(leaf);
        i = i + 1;
    }
    proof {
        assert(leaf_models.take(outputs@.len() as int) =~= leaf_models);
    }
    if outputs.len() == 1 {
        return match leaves.pop() {
            Some(l) => {
                proof {
                    assert(l@ == leaf_models[0]);
                }
                l
            },
            None => {
                proof {
                    assert(false);
                }
                zero_root()
            },
        };
    }
    merkle_reduce(&PairHash::Sha, leaves)
}

/// An empty leaf sequence gives the all-zero digest for both trees.
pub proof fn lemma_empty_roots()
    ensures
        tx_root_spec(Seq::empty()) == zero32(),
        output_root_spec(Seq::empty()) == zero32(),
{
}

/// A single leaf is the root itself, not re-hashed: the transaction tree
/// hands back the decoded digest unchanged, and the output tree the single
/// record's leaf digest unchanged.
pub proof fn lemma_single_leaf_roots(h: Seq<char>, m: OutputModel)
    ensures
        match parse_b256(h) {
            Some(b) => tx_root_spec(seq![h]) == b,
            None => true,
        },
        output_root_spec(seq![m]) == output_leaf(m),
{
    if parse_b256(h) is Some {
        let leaves = tx_leaves(seq![h]);
        assert(leaves.len() == 1);
        assert(leaves[0] == (match parse_b256(h) {
            Some(b) => b,
            None => Seq::<u8>::empty(),
        }));
    }
}

} // verus!
