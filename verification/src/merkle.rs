//! The merkle branch of one transaction within a block: the sibling hashes
//! a light client needs to check inclusion, computed over the block's txids
//! with double-SHA-256 pair hashing.

use vstd::prelude::*;

use crate::bridge::{sha256, sha256_of};
use crate::types::{Hash32, HASH_LEN};

verus! {

/// Reverse a byte vector (txids are hashed in the byte order opposite to
/// their display order).
fn reversed(v: &Vec<u8>) -> (r: Vec<u8>)
    ensures
        r@.len() == v@.len(),
        forall|i: int| 0 <= i < r@.len() ==> r@[i] == v@[v@.len() - 1 - i],
{
    let n = v.len();
    let mut r: Vec<u8> = Vec::new();
    let mut i: usize = 0;
    while i < n
        invariant
            i <= n,
            n == v@.len(),
            r@.len() == i,
            forall|k: int| 0 <= k < i ==> r@[k] == v@[n - 1 - k],
        decreases n - i,
    {
        r.push(v[n - 1 - i]);
        i = i + 1;
    }
    r
}

/// The double-SHA-256 of two concatenated nodes.
fn hash_pair(left: &Vec<u8>, right: &Vec<u8>) -> (r: Vec<u8>)
    ensures
        r@ == sha256_of(sha256_of(left@ + right@)),
        r@.len() == 32,
{
    let mut cat: Vec<u8> = Vec::new();
    let mut i: usize = 0;
    while i < left.len()
        invariant
            i <= left@.len(),
            cat@ =~= left@.take(i as int),
        decreases left@.len() - i,
    {
        cat.push(left[i]);
        proof {
            assert(cat@ =~= left@.take(i + 1));
        }
        i = i + 1;
    }
    let mut j: usize = 0;
    while j < right.len()
        invariant
            j <= right@.len(),
            cat@ =~= left@ + right@.take(j as int),
        decreases right@.len() - j,
    {
        cat.push(right[j]);
        proof {
            assert(cat@ =~= left@ + right@.take(j + 1));
        }
        j = j + 1;
    }
    proof {
        assert(left@.take(left@.len() as int) =~= left@);
        assert(right@.take(right@.len() as int) =~= right@);
        assert(cat@ =~= left@ + right@);
    }
    let inner = sha256(&cat);
    sha256(&inner)
}

/// The byte reversal of a node.
pub open spec fn spec_reverse(s: Seq<u8>) -> Seq<u8> {
    Seq::new(s.len(), |i: int| s[s.len() - 1 - i])
}

/// A level padded to even length by duplicating its last node.
pub open spec fn pad_even(s: Seq<Seq<u8>>) -> Seq<Seq<u8>> {
    if s.len() % 2 == 1 {
        s.push(s.last())
    } else {
        s
    }
}

/// One level up the tree: neighbouring nodes pairwise double-SHA-256.
pub open spec fn level_up(s: Seq<Seq<u8>>) -> Seq<Seq<u8>> {
    Seq::new(s.len() / 2, |i: int| sha256_of(sha256_of(s[2 * i] + s[2 * i + 1])))
}

/// The branch from a level of internal-order nodes: the target's sibling at
/// each level (after padding), reversed back to display order, then the
/// branch of the level above.
pub open spec fn spec_branch(nodes: Seq<Seq<u8>>, p: int) -> Seq<Seq<u8>>
    decreases nodes.len(),
{
    if nodes.len() <= 1 {
        Seq::empty()
    } else {
        let e = pad_even(nodes);
        let sib = if p % 2 == 0 {
            p + 1
        } else {
            p - 1
        };
        seq![spec_reverse(e[sib])] + spec_branch(level_up(e), p / 2)
    }
}

/// The leaves of a block's tree: its txids in internal byte order.
pub open spec fn leaf_nodes(txids: Seq<Hash32>) -> Seq<Seq<u8>> {
    txids.map_values(|t: Hash32| spec_reverse(t@))
}

/// The merkle branch for the transaction at `pos` among a block's txids, as
/// display-order hashes from the leaves up. Each level pairs neighbours,
/// duplicating a trailing odd node, and records the target's sibling.
pub fn merkle_branch(txids: &Vec<Hash32>, pos: usize) -> (r: Vec<Hash32>)
    requires
        pos < txids@.len(),
        forall|i: int| 0 <= i < txids@.len() ==> (#[trigger] txids@[i]).wf(),
    ensures
        r@.map_values(|h: Hash32| h@) == spec_branch(leaf_nodes(txids@), pos as int),
        forall|i: int| 0 <= i < r@.len() ==> (#[trigger] r@[i]).wf(),
{
    let ghost leaves = leaf_nodes(txids@);
    let mut nodes: Vec<Vec<u8>> = Vec::new();
    let mut i: usize = 0;
    while i < txids.len()
        invariant
            i <= txids@.len(),
            nodes@.len() == i,
            forall|k: int| 0 <= k < txids@.len() ==> (#[trigger] txids@[k]).wf(),
            forall|k: int| 0 <= k < i ==> (#[trigger] nodes@[k])@.len() == HASH_LEN,
            leaves == leaf_nodes(txids@),
            forall|k: int| 0 <= k < i ==> (#[trigger] nodes@[k])@ == leaves[k],
        decreases txids@.len() - i,
    {
        proof {
            assert(txids@[i as int].wf());
        }
        let rev = reversed(&txids[i].bytes);
        proof {
            assert(rev@ =~= spec_reverse(txids@[i as int]@));
        }
        nodes.push(rev);
        i = i + 1;
    }
    let mut branch: Vec<Hash32> = Vec::new();
    let mut p = pos;
    proof {
        assert(nodes@.map_values(|n: Vec<u8>| n@) =~= leaves);
        assert(branch@.map_values(|h: Hash32| h@) + spec_branch(
            nodes@.map_values(|n: Vec<u8>| n@),
            p as int,
        ) =~= spec_branch(leaves, pos as int));
    }
    while nodes.len() > 1
        invariant
            p < nodes@.len(),
            forall|k: int| 0 <= k < nodes@.len() ==> (#[trigger] nodes@[k])@.len() == HASH_LEN,
            forall|k: int| 0 <= k < branch@.len() ==> (#[trigger] branch@[k]).wf(),
            leaves == leaf_nodes(txids@),
            spec_branch(leaves, pos as int) == branch@.map_values(|h: Hash32| h@) + spec_branch(
                nodes@.map_values(|n: Vec<u8>| n@),
                p as int,
            ),
        decreases nodes@.len(),
    {
        let ghost nv = nodes@.map_values(|n: Vec<u8>| n@);
        let ghost e = pad_even(nv);
        if nodes.len() % 2 == 1 {
            let last = nodes[nodes.len() - 1].clone();
            nodes.push(last);
        }
        proof {
            assert(nodes@.map_values(|n: Vec<u8>| n@) =~= e);
        }
        let sib = if p % 2 == 0 {
            p + 1
        } else {
            p - 1
        };
        let ghost spec_sib: int = if p as int % 2 == 0 {
            p + 1
        } else {
            p - 1
        };
        proof {
            assert(sib as int == spec_sib);
        }
        let piece = Hash32::new(reversed(&nodes[sib]));
        proof {
            assert(piece@ =~= spec_reverse(e[spec_sib]));
        }
        branch.push(piece);
        let mut next: Vec<Vec<u8>> = Vec::new();
        let mut k: usize = 0;
        let half = nodes.len() / 2;
        while k < half
            invariant
                k <= half,
                half == nodes@.len() / 2,
                nodes@.len() <= usize::MAX,
                nodes@.len() % 2 == 0,
                next@.len() == k,
                e == nodes@.map_values(|n: Vec<u8>| n@),
                forall|w: int| 0 <= w < nodes@.len() ==> (#[trigger] nodes@[w])@.len()
                    == HASH_LEN,
                forall|w: int| 0 <= w < k ==> (#[trigger] next@[w])@.len() == HASH_LEN,
                forall|w: int| 0 <= w < k ==> (#[trigger] next@[w])@ == level_up(e)[w],
            decreases half - k,
        {
            let pair = hash_pair(&nodes[2 * k], &nodes[2 * k + 1]);
            proof {
                assert(e[2 * k] == nodes@[2 * k]@ && e[2 * k + 1] == nodes@[2 * k + 1]@);
                assert(pair@ == level_up(e)[k as int]);
            }
            next.push(pair);
            k = k + 1;
        }
        proof {
            assert(next@.map_values(|n: Vec<u8>| n@) =~= level_up(e));
            assert(spec_branch(nv, p as int) == seq![spec_reverse(e[spec_sib])] + spec_branch(
                level_up(e),
                p as int / 2,
            ));
            assert(branch@.map_values(|h: Hash32| h@) =~= branch@.map_values(
                |h: Hash32| h@,
            ).drop_last().push(spec_reverse(e[spec_sib])));
            assert((branch@.map_values(|h: Hash32| h@).drop_last() + seq![
                spec_reverse(e[spec_sib]),
            ]) + spec_branch(level_up(e), p as int / 2) =~= branch@.map_values(|h: Hash32| h@)
                + spec_branch(level_up(e), p as int / 2));
            assert(branch@.map_values(|h: Hash32| h@).drop_last() + (seq![
                spec_reverse(e[spec_sib]),
            ] + spec_branch(level_up(e), p as int / 2)) =~= (branch@.map_values(|h: Hash32| h@)
                .drop_last() + seq![spec_reverse(e[spec_sib])]) + spec_branch(
                level_up(e),
                p as int / 2,
            ));
        }
        p = p / 2;
        nodes = next;
    }
    proof {
        assert(spec_branch(nodes@.map_values(|n: Vec<u8>| n@), p as int) =~= Seq::<
            Seq<u8>,
        >::empty());
        assert(branch@.map_values(|h: Hash32| h@) + Seq::<Seq<u8>>::empty() =~= branch@.map_values(
            |h: Hash32| h@,
        ));
    }
    branch
}

} // verus!
