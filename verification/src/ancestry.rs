//! Lowest-common-ancestor search over a chain backend.
//!
//! The search walks parent links: it first brings both blocks to the same
//! height, then steps both chains down in lock step until they meet. The
//! meeting point is unique, so no tie-break is ever needed.

use vstd::prelude::*;

use crate::backend::ChainBackend;
use crate::block::{
    ancestor_at, common_at, lca_hash, lca_height, lemma_ancestor_at_genesis,
    lemma_ancestor_at_parent_step, lemma_ancestor_at_resolves, lemma_meet_height_unique,
    BlockHash, BlockId, ChainModel,
};

verus! {

/// What the lowest-common-ancestor search returns: the identifier of the
/// lowest common ancestor when both blocks resolve, and nothing otherwise.
pub open spec fn lca_spec(m: ChainModel, a: BlockHash, b: BlockHash) -> Option<BlockId> {
    if m.headers.dom().contains(a) && m.headers.dom().contains(b) {
        Some(BlockId { hash: lca_hash(m, a, b), number: lca_height(m, a, b) })
    } else {
        None
    }
}

/// Finds the lowest common ancestor of two blocks, by walking parent links
/// through the backend. Returns `None` when either block is unknown to the
/// store.
pub fn lowest_common_ancestor<B: ChainBackend>(backend: &B, a: BlockHash, b: BlockHash) -> (r:
    Option<BlockId>)
    requires
        backend.wf(),
    ensures
        r == lca_spec(backend.chain(), a, b),
{
    proof {
        backend.wf_implies_chain_wf();
    }
    let ghost m = backend.chain();
    let ha = match backend.header_for_hash(a) {
        Some(h) => h,
        None => {
            return None;
        },
    };
    let hb = match backend.header_for_hash(b) {
        Some(h) => h,
        None => {
            return None;
        },
    };
    let ghost low = if ha.number <= hb.number { ha.number } else { hb.number };
    let mut x = ha;
    let mut y = hb;
    proof {
        assert(ancestor_at(m, a, ha.number) == a);
        assert(ancestor_at(m, b, hb.number) == b);
    }
    // Bring `x` down to the lower of the two heights.
    while x.number > y.number
        invariant
            backend.wf(),
            m == backend.chain(),
            crate::block::chain_wf(m),
            m.headers.dom().contains(a) && m.headers[a] == ha,
            m.headers.dom().contains(b) && m.headers[b] == hb,
            low <= ha.number && low <= hb.number,
            m.headers.dom().contains(x.hash),
            m.headers[x.hash] == x,
            y == hb,
            low <= x.number <= ha.number,
            x.hash == ancestor_at(m, a, x.number),
        decreases x.number,
    {
        proof {
            lemma_ancestor_at_parent_step(m, a, x.number);
        }
        x = match backend.header_for_hash(x.parent_hash) {
            Some(h) => h,
            None => unreached(),
        };
    }
    // Bring `y` down to the same height.
    while y.number > x.number
        invariant
            backend.wf(),
            m == backend.chain(),
            crate::block::chain_wf(m),
            m.headers.dom().contains(a) && m.headers[a] == ha,
            m.headers.dom().contains(b) && m.headers[b] == hb,
            low <= ha.number && low <= hb.number,
            m.headers.dom().contains(y.hash),
            m.headers[y.hash] == y,
            m.headers.dom().contains(x.hash),
            m.headers[x.hash] == x,
            x.number == low,
            low <= y.number <= hb.number,
            x.hash == ancestor_at(m, a, x.number),
            y.hash == ancestor_at(m, b, y.number),
        decreases y.number,
    {
        proof {
            lemma_ancestor_at_parent_step(m, b, y.number);
        }
        y = match backend.header_for_hash(y.parent_hash) {
            Some(h) => h,
            None => unreached(),
        };
    }
    // Step both chains down in lock step until they meet.
    while x.hash != y.hash
        invariant
            backend.wf(),
            m == backend.chain(),
            crate::block::chain_wf(m),
            m.headers.dom().contains(a) && m.headers[a] == ha,
            m.headers.dom().contains(b) && m.headers[b] == hb,
            low <= ha.number && low <= hb.number,
            m.headers.dom().contains(x.hash),
            m.headers[x.hash] == x,
            m.headers.dom().contains(y.hash),
            m.headers[y.hash] == y,
            x.number == y.number,
            x.number <= low,
            x.hash == ancestor_at(m, a, x.number),
            y.hash == ancestor_at(m, b, y.number),
            forall|k: crate::block::BlockNumber|
                x.number < k <= low ==> !common_at(m, a, b, k),
        decreases x.number,
    {
        let ghost n = x.number;
        proof {
            if n == 0 {
                lemma_ancestor_at_genesis(m, a);
                lemma_ancestor_at_genesis(m, b);
                assert(false);
            }
            lemma_ancestor_at_parent_step(m, a, n);
            lemma_ancestor_at_parent_step(m, b, n);
            assert(!common_at(m, a, b, n));
        }
        x = match backend.header_for_hash(x.parent_hash) {
            Some(h) => h,
            None => unreached(),
        };
        y = match backend.header_for_hash(y.parent_hash) {
            Some(h) => h,
            None => unreached(),
        };
        proof {
            assert(x.hash == ancestor_at(m, a, x.number));
            assert(y.hash == ancestor_at(m, b, y.number));
            assert forall|k: crate::block::BlockNumber|
                x.number < k <= low implies !common_at(m, a, b, k) by {
                if k == n {
                    assert(!common_at(m, a, b, n));
                }
            }
        }
    }
    proof {
        assert(common_at(m, a, b, x.number));
        lemma_meet_height_unique(m, a, b, low, x.number);
        lemma_ancestor_at_resolves(m, a, x.number);
    }
    Some(BlockId { hash: x.hash, number: x.number })
}

} // verus!
