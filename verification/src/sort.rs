//! Sorting rotation strings under the collation rule.

use crate::collate::{
    bytes_of, collate, lemma_collate_equal_iff, lemma_collate_flip, lemma_collate_transitive, magic,
    Rank,
};
use crate::text::views_of;
use vstd::prelude::*;

verus! {

broadcast use vstd::seq_lib::group_to_multiset_ensures;

/// `x` sorts no later than `y` under the collation rule.
pub open spec fn le(x: Seq<char>, y: Seq<char>) -> bool {
    collate(bytes_of(x), bytes_of(y)) != Rank::Greater
}

/// The strings appear in collation order.
pub open spec fn sorted(vs: Seq<Seq<char>>) -> bool {
    forall|p: int, q: int| 0 <= p < q < vs.len() ==> le(#[trigger] vs[p], #[trigger] vs[q])
}

/// The order `le` is transitive.
pub proof fn lemma_le_trans(x: Seq<char>, y: Seq<char>, z: Seq<char>)
    requires
        le(x, y),
        le(y, z),
    ensures
        le(x, z),
{
    let xb = bytes_of(x);
    let yb = bytes_of(y);
    let zb = bytes_of(z);
    lemma_collate_equal_iff(xb, yb);
    lemma_collate_equal_iff(yb, zb);
    if collate(xb, yb) == Rank::Less && collate(yb, zb) == Rank::Less {
        lemma_collate_transitive(xb, yb, zb);
    }
}

/// Sorts `v` under the collation rule: the result is in collation order and
/// holds exactly the strings of `v`, multiplicities included.
pub fn sort_strings(v: Vec<String>) -> (r: Vec<String>)
    ensures
        sorted(views_of(r@)),
        views_of(r@).to_multiset() == views_of(v@).to_multiset(),
{
    let ghost orig = views_of(v@);
    let mut v = v;
    let n = v.len();
    let mut i: usize = 0;
    while i < n
        invariant
            i <= n,
            n == v@.len(),
            sorted(views_of(v@).take(i as int)),
            views_of(v@).to_multiset() == orig.to_multiset(),
        decreases n - i,
    {
        let ghost whole = views_of(v@);
        let x = v.remove(i);
        let ghost before = views_of(v@);
        proof {
            assert(before =~= whole.remove(i as int));
            assert(before.take(i as int) =~= whole.take(i as int));
            assert(whole[i as int] == x@);
        }
        let mut j: usize = i;
        while j > 0 && magic(v[j - 1].as_str(), x.as_str()) == Rank::Greater
            invariant
                j <= i,
                i < n,
                n - 1 == v@.len(),
                views_of(v@) == before,
                forall|q: int|
                    j <= q < i ==> collate(bytes_of(#[trigger] before[q]), bytes_of(x@))
                        == Rank::Greater,
            decreases j,
        {
            j = j - 1;
        }
        let ghost at_j = if j > 0 {
            collate(bytes_of(before[j as int - 1]), bytes_of(x@))
        } else {
            Rank::Equal
        };
        v.insert(j, x);
        proof {
            let now = views_of(v@);
            assert(now =~= before.insert(j as int, x@));
            assert(now.to_multiset() == before.to_multiset().insert(x@));
            assert(before.to_multiset() == whole.to_multiset().remove(x@));
            assert(whole.contains(x@));
            assert(whole.to_multiset().count(x@) > 0);
            assert(whole.to_multiset().remove(x@).insert(x@) =~= whole.to_multiset());
            assert forall|p: int, q: int|
                0 <= p < q < i + 1 implies le(#[trigger] now.take(i as int + 1)[p], #[trigger] now.take(
                i as int + 1,
            )[q]) by {
                let s = before.take(i as int);
                if q < j {
                    assert(now[p] == s[p] && now[q] == s[q]);
                } else if p > j {
                    assert(now[p] == s[p - 1] && now[q] == s[q - 1]);
                } else if p < j && q > j {
                    assert(now[p] == s[p] && now[q] == s[q - 1]);
                } else if p == j {
                    // `x` against an element the scan passed over
                    assert(now[q] == s[q - 1]);
                    assert(collate(bytes_of(s[q - 1]), bytes_of(x@)) == Rank::Greater);
                    lemma_collate_flip(bytes_of(x@), bytes_of(s[q - 1]));
                } else {
                    // an element of the stopped prefix against `x`
                    assert(now[p] == s[p] && now[q] == x@);
                    assert(j > 0);
                    assert(collate(bytes_of(s[j - 1]), bytes_of(x@)) != Rank::Greater);
                    if p < j - 1 {
                        lemma_le_trans(s[p], s[j - 1], x@);
                    }
                }
            }
        }
        i = i + 1;
    }
    proof {
        assert(views_of(v@).take(n as int) =~= views_of(v@));
    }
    v
}

} // verus!
