//! The canonical codec: a tree's exact, self-describing byte encoding,
//! and the decoder that reproduces the tree from it. The layout is a
//! 32-bit little-endian leaf count, then each leaf as a 32-bit
//! little-endian length followed by its bytes, and nothing else.

use vstd::prelude::*;

use crate::errors::TreeError;
use crate::tree::{bytes_views, MerkleTree};
use vstd::slice::{slice_subrange, slice_to_vec};

verus! {

/// The four little-endian bytes of a 32-bit value.
pub open spec fn u32_le(n: u32) -> Seq<u8> {
    seq![
        (n & 0xff) as u8,
        ((n >> 8) & 0xff) as u8,
        ((n >> 16) & 0xff) as u8,
        ((n >> 24) & 0xff) as u8,
    ]
}

/// The 32-bit value four little-endian bytes hold.
pub open spec fn le_val(b: Seq<u8>) -> u32
    recommends
        b.len() == 4,
{
    (b[0] as u32) | ((b[1] as u32) << 8) | ((b[2] as u32) << 16) | ((b[3] as u32) << 24)
}

/// Reading back the four little-endian bytes of a value gives the value.
pub proof fn lemma_le_round_trip(n: u32)
    ensures
        le_val(u32_le(n)) == n,
{
    let b0 = (n & 0xff) as u8;
    let b1 = ((n >> 8) & 0xff) as u8;
    let b2 = ((n >> 16) & 0xff) as u8;
    let b3 = ((n >> 24) & 0xff) as u8;
    assert((b0 as u32) | ((b1 as u32) << 8) | ((b2 as u32) << 16) | ((b3 as u32) << 24) == n)
        by (bit_vector)
        requires
            b0 == (n & 0xff) as u8,
            b1 == ((n >> 8) & 0xff) as u8,
            b2 == ((n >> 16) & 0xff) as u8,
            b3 == ((n >> 24) & 0xff) as u8,
    ;
}

/// One leaf's encoding: its length, then its bytes.
pub open spec fn encode_leaf(l: Seq<u8>) -> Seq<u8>
    recommends
        l.len() <= u32::MAX,
{
    u32_le(l.len() as u32) + l
}

/// The encodings of a sequence of leaves, in order.
pub open spec fn encode_leaves(ls: Seq<Seq<u8>>) -> Seq<u8>
    decreases ls.len(),
{
    if ls.len() == 0 {
        Seq::empty()
    } else {
        encode_leaf(ls[0]) + encode_leaves(ls.drop_first())
    }
}

/// The canonical encoding of a whole tree: the leaf count, then the
/// leaves.
pub open spec fn encode_tree(ls: Seq<Seq<u8>>) -> Seq<u8>
    recommends
        ls.len() <= u32::MAX,
{
    u32_le(ls.len() as u32) + encode_leaves(ls)
}

/// Encoding one more leaf extends the encoding of the leaves before it.
pub proof fn lemma_encode_leaves_snoc(ls: Seq<Seq<u8>>, i: int)
    requires
        0 <= i < ls.len(),
    ensures
        encode_leaves(ls.take(i + 1)) == encode_leaves(ls.take(i)) + encode_leaf(ls[i]),
    decreases i,
{
    let a = ls.take(i + 1);
    if i == 0 {
        assert(a.drop_first().len() == 0);
        assert(a[0] == ls[0]);
        assert(encode_leaves(a) == encode_leaf(a[0]) + encode_leaves(a.drop_first()));
        assert(encode_leaves(a.drop_first()) == Seq::<u8>::empty());
        assert(encode_leaves(ls.take(0)) == Seq::<u8>::empty());
        assert(encode_leaf(ls[0]) + Seq::<u8>::empty() =~= encode_leaf(ls[0]));
        assert(Seq::<u8>::empty() + encode_leaf(ls[0]) =~= encode_leaf(ls[0]));
    } else {
        lemma_encode_leaves_snoc(ls.drop_first(), i - 1);
        let d = ls.drop_first();
        assert(a.drop_first() =~= d.take(i));
        assert(a[0] == ls[0]);
        assert(encode_leaves(a) == encode_leaf(ls[0]) + encode_leaves(d.take(i)));
        assert(encode_leaves(d.take(i)) == encode_leaves(d.take(i - 1)) + encode_leaf(d[i - 1]));
        assert(d[i - 1] == ls[i]);
        let p = ls.take(i);
        assert(p.drop_first() =~= d.take(i - 1));
        assert(p[0] == ls[0]);
        assert(p.len() == i);
        assert(encode_leaves(p) == encode_leaf(ls[0]) + encode_leaves(d.take(i - 1)));
        assert(encode_leaf(ls[0]) + (encode_leaves(d.take(i - 1)) + encode_leaf(ls[i])) =~= (
        encode_leaf(ls[0]) + encode_leaves(d.take(i - 1))) + encode_leaf(ls[i]));
    }
}

/// Append the four little-endian bytes of a value.
fn push_u32_le(out: &mut Vec<u8>, n: u32)
    ensures
        final(out)@ == old(out)@ + u32_le(n),
{
    out.push((n & 0xff) as u8);
    out.push(((n >> 8) & 0xff) as u8);
    out.push(((n >> 16) & 0xff) as u8);
    out.push(((n >> 24) & 0xff) as u8);
    proof {
        assert(out@ =~= old(out)@ + u32_le(n));
    }
}

/// Read the 32-bit value at the given position.
fn read_u32_le(bytes: &Vec<u8>, pos: usize) -> (n: u32)
    requires
        pos + 4 <= bytes@.len(),
    ensures
        n == le_val(bytes@.subrange(pos as int, pos as int + 4)),
{
    let _total = bytes.len();
    let b0 = bytes[pos] as u32;
    let b1 = bytes[pos + 1] as u32;
    let b2 = bytes[pos + 2] as u32;
    let b3 = bytes[pos + 3] as u32;
    b0 | (b1 << 8u32) | (b2 << 16u32) | (b3 << 24u32)
}

/// Encode a tree into its canonical byte sequence. Encoding never fails
/// for a well-formed tree.
pub fn encode(t: &MerkleTree) -> (r: Vec<u8>)
    requires
        t.wf(),
    ensures
        r@ == encode_tree(t@),
{
    let leaves = t.leaves_ref();
    let mut out: Vec<u8> = Vec::new();
    push_u32_le(&mut out, leaves.len() as u32);
    proof {
        assert(encode_leaves(t@.take(0)).len() == 0);
        assert(u32_le(t@.len() as u32) + encode_leaves(t@.take(0)) =~= u32_le(t@.len() as u32));
    }
    let mut i: usize = 0;
    while i < leaves.len()
        invariant
            i <= leaves@.len(),
            bytes_views(leaves@) == t@,
            t.wf(),
            out@ == u32_le(t@.len() as u32) + encode_leaves(t@.take(i as int)),
        decreases leaves@.len() - i,
    {
        let leaf = &leaves[i];
        proof {
            assert(leaf@ == t@[i as int]);
        }
        push_u32_le(&mut out, leaf.len() as u32);
        out.extend_from_slice(leaf.as_slice());
        proof {
            lemma_encode_leaves_snoc(t@, i as int);
            assert(out@ =~= u32_le(t@.len() as u32) + encode_leaves(t@.take(i + 1)));
        }
        i += 1;
    }
    proof {
        assert(t@.take(t@.len() as int) =~= t@);
    }
    out
}

/// What a byte sequence holds when a given number of leaves is read off
/// its front: the leaves, exactly consuming the bytes, or nothing.
pub open spec fn decode_leaves(b: Seq<u8>, n: nat) -> Option<Seq<Seq<u8>>>
    decreases n,
{
    if n == 0 {
        if b.len() == 0 {
            Option::Some(Seq::empty())
        } else {
            Option::None
        }
    } else if b.len() < 4 {
        Option::None
    } else {
        let l = le_val(b.take(4)) as int;
        if b.len() - 4 < l {
            Option::None
        } else {
            match decode_leaves(b.skip(4 + l), (n - 1) as nat) {
                Option::Some(rest) => Option::Some(seq![b.subrange(4, 4 + l)] + rest),
                Option::None => Option::None,
            }
        }
    }
}

/// What a byte sequence decodes to: the leaf sequence whose canonical
/// encoding the bytes are, or nothing when they are no such encoding.
pub open spec fn decode_tree(b: Seq<u8>) -> Option<Seq<Seq<u8>>> {
    if b.len() < 4 {
        Option::None
    } else {
        decode_leaves(b.skip(4), le_val(b.take(4)) as nat)
    }
}

/// Decode a persisted byte sequence back into the tree it encodes.
/// Succeeds exactly on canonical encodings; truncated bytes, trailing
/// bytes or an inconsistent declared length fail, and corrupt input is
/// never read as an empty tree.
pub fn decode(bytes: &Vec<u8>) -> (r: Result<MerkleTree, TreeError>)
    ensures
        match r {
            Result::Ok(t) => decode_tree(bytes@) == Option::Some(t@) && t.wf(),
            Result::Err(e) => decode_tree(bytes@) is None && e == TreeError::DecodeFailure,
        },
{
    if bytes.len() < 4 {
        return Result::Err(TreeError::DecodeFailure);
    }
    let count = read_u32_le(bytes, 0);
    proof {
        assert(bytes@.subrange(0, 4) =~= bytes@.take(4));
    }
    let mut acc: Vec<Vec<u8>> = Vec::new();
    let mut pos: usize = 4;
    let mut i: u32 = 0;
    proof {
        assert(bytes_views(acc@).len() == 0);
    }
    while i < count
        invariant
            4 <= pos <= bytes@.len(),
            i <= count,
            acc@.len() == i,
            count == le_val(bytes@.take(4)),
            bytes@.len() >= 4,
            forall|k: int|
                0 <= k < acc@.len() ==> (#[trigger] acc@[k])@.len() <= u32::MAX,
            match decode_leaves(bytes@.skip(pos as int), (count - i) as nat) {
                Option::Some(rest) => decode_leaves(bytes@.skip(4), count as nat) == Option::Some(
                    bytes_views(acc@) + rest,
                ),
                Option::None => decode_leaves(bytes@.skip(4), count as nat) is None,
            },
        decreases count - i,
    {
        let ghost s = bytes@.skip(pos as int);
        let ghost n_left = (count - i) as nat;
        let remaining = bytes.len() - pos;
        if remaining < 4 {
            proof {
                assert(s.len() < 4);
                assert(decode_leaves(s, n_left) is None);
            }
            return Result::Err(TreeError::DecodeFailure);
        }
        let l = read_u32_le(bytes, pos);
        proof {
            assert(s.take(4) =~= bytes@.subrange(pos as int, pos as int + 4));
        }
        let l_us = l as usize;
        if remaining - 4 < l_us {
            proof {
                assert(s.len() - 4 < le_val(s.take(4)) as int);
                assert(decode_leaves(s, n_left) is None);
            }
            return Result::Err(TreeError::DecodeFailure);
        }
        let leaf = slice_to_vec(slice_subrange(bytes.as_slice(), pos + 4, pos + 4 + l_us));
        let ghost prev = acc@;
        acc.push(leaf);
        proof {
            assert(leaf@ =~= s.subrange(4, 4 + l as int));
            assert(s.skip(4 + l as int) =~= bytes@.skip(pos as int + 4 + l as int));
            match decode_leaves(bytes@.skip(pos as int + 4 + l as int), (count - i - 1) as nat) {
                Option::Some(rest) => {
                    assert(decode_leaves(s, n_left) == Option::Some(
                        seq![s.subrange(4, 4 + l as int)] + rest,
                    ));
                    assert(bytes_views(acc@) =~= bytes_views(prev).push(leaf@));
                    assert(bytes_views(prev) + (seq![leaf@] + rest) =~= bytes_views(acc@) + rest);
                },
                Option::None => {
                    assert(decode_leaves(s, n_left) is None);
                },
            }
        }
        pos = pos + 4 + l_us;
        i = i + 1;
    }
    if pos != bytes.len() {
        proof {
            assert(bytes@.skip(pos as int).len() != 0);
            assert(decode_leaves(bytes@.skip(pos as int), 0) is None);
        }
        return Result::Err(TreeError::DecodeFailure);
    }
    proof {
        assert(bytes@.skip(pos as int).len() == 0);
        assert(decode_leaves(bytes@.skip(pos as int), 0) == Option::Some(Seq::<Seq<u8>>::empty()));
        assert(bytes_views(acc@) + Seq::<Seq<u8>>::empty() =~= bytes_views(acc@));
    }
    let t = MerkleTree::from_leaves(acc);
    Result::Ok(t)
}

/// Law: decoding an encoding gives back exactly the leaves encoded, for
/// every leaf sequence the format can hold.
pub proof fn lemma_leaves_round_trip(ls: Seq<Seq<u8>>)
    requires
        forall|i: int| 0 <= i < ls.len() ==> (#[trigger] ls[i]).len() <= u32::MAX,
    ensures
        decode_leaves(encode_leaves(ls), ls.len()) == Option::Some(ls),
    decreases ls.len(),
{
    if ls.len() == 0 {
        assert(encode_leaves(ls).len() == 0);
    } else {
        let b = encode_leaves(ls);
        let l0 = ls[0].len() as int;
        lemma_le_round_trip(ls[0].len() as u32);
        assert(b =~= encode_leaf(ls[0]) + encode_leaves(ls.drop_first()));
        assert(b.take(4) =~= u32_le(ls[0].len() as u32));
        assert(le_val(b.take(4)) == l0);
        assert(b.len() >= 4 + l0);
        assert(b.subrange(4, 4 + l0) =~= ls[0]);
        assert(b.skip(4 + l0) =~= encode_leaves(ls.drop_first()));
        lemma_leaves_round_trip(ls.drop_first());
        assert(seq![ls[0]] + ls.drop_first() =~= ls);
    }
}

/// Law: the codec round-trips: decoding the canonical encoding of any
/// leaf sequence the format can hold gives back exactly that sequence.
pub proof fn lemma_round_trip(ls: Seq<Seq<u8>>)
    requires
        ls.len() <= u32::MAX,
        forall|i: int| 0 <= i < ls.len() ==> (#[trigger] ls[i]).len() <= u32::MAX,
    ensures
        decode_tree(encode_tree(ls)) == Option::Some(ls),
{
    let b = encode_tree(ls);
    lemma_le_round_trip(ls.len() as u32);
    assert(b.take(4) =~= u32_le(ls.len() as u32));
    assert(b.skip(4) =~= encode_leaves(ls));
    lemma_leaves_round_trip(ls);
}

} // verus!
