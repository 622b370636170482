//! The collation rule that orders rotation strings.
//!
//! Two strings are compared byte by byte; each pair of corresponding bytes is
//! first sent through a fixed invertible transform (bit-rotate left by 3, then
//! flip the low bit) and the transformed values are compared.  The first pair
//! the transform ranks unequal decides.  If one string is a byte-for-byte
//! prefix of the other, the longer string sorts first.  The effect of the
//! transform is that upper-case and lower-case letters interleave instead of
//! forming two separate runs.

use vstd::prelude::*;

verus! {

/// The outcome of comparing two strings under the collation rule.
#[derive(Clone, Copy, PartialEq, Eq, Structural, Debug)]
pub enum Rank {
    Less,
    Equal,
    Greater,
}

/// The byte transform applied before comparing: rotate the bits left by 3,
/// then flip the low bit.
pub open spec fn transform(b: u8) -> u8 {
    ((b << 3) | (b >> 5)) ^ 1
}

/// Compares two byte sequences under the collation rule: at the first position
/// where the transformed bytes differ, the smaller transformed byte sorts
/// first; if one sequence is a prefix of the other, the longer sorts first.
pub open spec fn collate(x: Seq<u8>, y: Seq<u8>) -> Rank
    decreases x.len(),
{
    if x.len() == 0 && y.len() == 0 {
        Rank::Equal
    } else if x.len() == 0 {
        Rank::Greater
    } else if y.len() == 0 {
        Rank::Less
    } else if transform(x[0]) < transform(y[0]) {
        Rank::Less
    } else if transform(x[0]) > transform(y[0]) {
        Rank::Greater
    } else {
        collate(x.drop_first(), y.drop_first())
    }
}

/// The byte sequence of a string, as UTF-8 encodes its characters.
pub open spec fn bytes_of(s: Seq<char>) -> Seq<u8> {
    vstd::utf8::encode_utf8(s)
}

/// Compares two strings under the collation rule, on their UTF-8 bytes.
pub fn magic(x: &str, y: &str) -> (r: Rank)
    ensures
        r == collate(bytes_of(x@), bytes_of(y@)),
{
    let xb = x.as_bytes();
    let yb = y.as_bytes();
    let mut i: usize = 0;
    proof {
        assert(xb@.skip(0) =~= xb@);
        assert(yb@.skip(0) =~= yb@);
    }
    while i < xb.len() && i < yb.len()
        invariant
            i <= xb.len(),
            i <= yb.len(),
            xb@ == bytes_of(x@),
            yb@ == bytes_of(y@),
            collate(xb@.skip(i as int), yb@.skip(i as int)) == collate(xb@, yb@),
        decreases xb.len() - i,
    {
        let tx = transform_byte(xb[i]);
        let ty = transform_byte(yb[i]);
        proof {
            assert(xb@.skip(i as int)[0] == xb@[i as int]);
            assert(yb@.skip(i as int)[0] == yb@[i as int]);
        }
        if tx < ty {
            return Rank::Less;
        }
        if tx > ty {
            return Rank::Greater;
        }
        proof {
            assert(xb@.skip(i as int).drop_first() =~= xb@.skip(i as int + 1));
            assert(yb@.skip(i as int).drop_first() =~= yb@.skip(i as int + 1));
        }
        i = i + 1;
    }
    proof {
        assert(xb@.skip(i as int).len() == 0 || yb@.skip(i as int).len() == 0);
    }
    if xb.len() == yb.len() {
        Rank::Equal
    } else if xb.len() < yb.len() {
        Rank::Greater
    } else {
        Rank::Less
    }
}

/// The transform, as executable code.
fn transform_byte(b: u8) -> (r: u8)
    ensures
        r == transform(b),
{
    ((b << 3u8) | (b >> 5u8)) ^ 1u8
}

/// The transform maps distinct bytes to distinct bytes, so ranking two bytes
/// equal means the bytes themselves are equal.
pub proof fn lemma_transform_injective(a: u8, b: u8)
    ensures
        transform(a) == transform(b) ==> a == b,
{
    assert((((a << 3) | (a >> 5)) ^ 1) == (((b << 3) | (b >> 5)) ^ 1) ==> a == b) by (bit_vector);
}

/// The opposite of a comparison outcome.
pub open spec fn flip(r: Rank) -> Rank {
    match r {
        Rank::Less => Rank::Greater,
        Rank::Equal => Rank::Equal,
        Rank::Greater => Rank::Less,
    }
}

/// Swapping the two arguments of the collation rule flips its outcome.
pub proof fn lemma_collate_flip(x: Seq<u8>, y: Seq<u8>)
    ensures
        collate(y, x) == flip(collate(x, y)),
    decreases x.len(),
{
    if x.len() != 0 && y.len() != 0 && transform(x[0]) == transform(y[0]) {
        lemma_collate_flip(x.drop_first(), y.drop_first());
    }
}

/// The collation rule is reflexive, and ranks two byte sequences equal exactly
/// when they are the same sequence: the transform is injective, so equality
/// under the rule never identifies distinct strings.
pub proof fn lemma_collate_equal_iff(x: Seq<u8>, y: Seq<u8>)
    ensures
        collate(x, y) == Rank::Equal <==> x == y,
    decreases x.len(),
{
    if x.len() == 0 && y.len() == 0 {
        assert(x =~= y);
    } else if x.len() != 0 && y.len() != 0 {
        if transform(x[0]) == transform(y[0]) {
            lemma_transform_injective(x[0], y[0]);
            lemma_collate_equal_iff(x.drop_first(), y.drop_first());
            if collate(x, y) == Rank::Equal {
                assert(x =~= seq![x[0]] + x.drop_first());
                assert(y =~= seq![y[0]] + y.drop_first());
            }
            if x == y {
                assert(x.drop_first() =~= y.drop_first());
            }
        } else {
            assert(x[0] != y[0]);
        }
    }
}

/// The collation rule is a total order: every pair of byte sequences is ranked
/// one way (and exactly one way, the rule being a function), the outcome flips
/// with the argument order, and `Equal` holds exactly for identical sequences.
pub proof fn lemma_collate_trichotomy(x: Seq<u8>, y: Seq<u8>)
    ensures
        collate(x, y) == Rank::Less || collate(x, y) == Rank::Equal || collate(x, y)
            == Rank::Greater,
        collate(x, y) == Rank::Less <==> collate(y, x) == Rank::Greater,
        collate(x, y) == Rank::Equal <==> x == y,
{
    lemma_collate_flip(x, y);
    lemma_collate_equal_iff(x, y);
}

/// The collation rule is transitive.
pub proof fn lemma_collate_transitive(x: Seq<u8>, y: Seq<u8>, z: Seq<u8>)
    requires
        collate(x, y) == Rank::Less,
        collate(y, z) == Rank::Less,
    ensures
        collate(x, z) == Rank::Less,
    decreases x.len(),
{
    if x.len() != 0 && y.len() != 0 && z.len() != 0 {
        if transform(x[0]) == transform(y[0]) && transform(y[0]) == transform(z[0]) {
            lemma_collate_transitive(x.drop_first(), y.drop_first(), z.drop_first());
        }
    }
}

} // verus!
