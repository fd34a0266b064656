//! Block identifiers, headers, and the mathematical model of a block store.
//!
//! A chain is a DAG of headers linked by parent hashes, rooted in a single
//! genesis block at height zero. The spec-level [`ChainModel`] describes what
//! a backend knows: the headers it can resolve, the stored raw justifications,
//! the canonical hash at each height, and the current best/finalized tips.

use vstd::prelude::*;

verus! {

/// Height of a block; assigned monotonically from the genesis block at zero.
pub type BlockNumber = u32;

/// Content hash of a block, modelled as a plain integer.
pub type BlockHash = u64;

/// A `{hash, number}` pair identifying one block.
#[derive(Clone, Copy, Debug, PartialEq, Eq, Structural)]
pub struct BlockId {
    pub hash: BlockHash,
    pub number: BlockNumber,
}

/// The part of a block header this layer reads: its own hash, its height and
/// the hash of its parent. The parent link of the genesis block carries no
/// meaning.
#[derive(Clone, Copy, Debug, PartialEq, Eq, Structural)]
pub struct Header {
    pub hash: BlockHash,
    pub number: BlockNumber,
    pub parent_hash: BlockHash,
}

/// The best and finalized tips as reported by a backend.
#[derive(Clone, Copy, Debug, PartialEq, Eq, Structural)]
pub struct ChainInfo {
    pub best_hash: BlockHash,
    pub finalized_hash: BlockHash,
}

/// Mathematical model of everything a backend knows about the chain.
pub struct ChainModel {
    /// The headers the backend can resolve, keyed by block hash.
    pub headers: Map<BlockHash, Header>,
    /// Raw justification bytes stored for blocks, keyed by block hash.
    pub justifications: Map<BlockHash, Seq<u8>>,
    /// The canonical block hash at each height, where one is known.
    pub canonical: Map<BlockNumber, BlockHash>,
    /// The unique block at height zero.
    pub genesis: BlockHash,
    /// The backend's current best tip.
    pub best: BlockHash,
    /// The backend's current finalized tip.
    pub finalized: BlockHash,
}

/// Internal consistency of a block store: every resolvable header knows its
/// own hash, every non-genesis header's parent resolves one height below it,
/// height zero holds exactly the genesis block, and every canonical entry
/// resolves to a header at that height. The best and finalized tips are *not*
/// required to resolve: a backend that cannot produce a header for them is a
/// data-availability violation that the status queries report as an error.
pub open spec fn chain_wf(m: ChainModel) -> bool {
    &&& forall|h: BlockHash| #[trigger] m.headers.dom().contains(h) ==> m.headers[h].hash == h
    &&& forall|h: BlockHash|
        #[trigger] m.headers.dom().contains(h) && m.headers[h].number > 0 ==> {
            &&& m.headers.dom().contains(m.headers[h].parent_hash)
            &&& m.headers[m.headers[h].parent_hash].number + 1 == m.headers[h].number
        }
    &&& m.headers.dom().contains(m.genesis)
    &&& m.headers[m.genesis].number == 0
    &&& forall|h: BlockHash|
        #[trigger] m.headers.dom().contains(h) && m.headers[h].number == 0 ==> h == m.genesis
    &&& forall|n: BlockNumber| #[trigger] m.canonical.dom().contains(n) ==> {
            &&& m.headers.dom().contains(m.canonical[n])
            &&& m.headers[m.canonical[n]].number == n
        }
}

/// The hash of the ancestor of `h` at height `n`, reached by walking parent
/// links.
pub open spec fn ancestor_at(m: ChainModel, h: BlockHash, n: BlockNumber) -> BlockHash
    decreases m.headers[h].number,
        when chain_wf(m) && m.headers.dom().contains(h) && n <= m.headers[h].number
{
    if m.headers[h].number == n {
        h
    } else {
        ancestor_at(m, m.headers[h].parent_hash, n)
    }
}

/// `anc` lies on the ancestor chain of `h` (possibly `anc == h`).
pub open spec fn is_ancestor_or_self(m: ChainModel, anc: BlockHash, h: BlockHash) -> bool {
    &&& m.headers.dom().contains(anc)
    &&& m.headers.dom().contains(h)
    &&& m.headers[anc].number <= m.headers[h].number
    &&& ancestor_at(m, h, m.headers[anc].number) == anc
}

/// The ancestor chains of `a` and `b` pass through the same block at height
/// `n`.
pub open spec fn common_at(m: ChainModel, a: BlockHash, b: BlockHash, n: BlockNumber) -> bool {
    ancestor_at(m, a, n) == ancestor_at(m, b, n)
}

/// The greatest height `<= n` at which the ancestor chains of `a` and `b`
/// meet.
pub open spec fn meet_height(m: ChainModel, a: BlockHash, b: BlockHash, n: BlockNumber) -> BlockNumber
    decreases n,
        when chain_wf(m) && m.headers.dom().contains(a) && m.headers.dom().contains(b)
{
    if common_at(m, a, b, n) || n == 0 {
        n
    } else {
        meet_height(m, a, b, (n - 1) as BlockNumber)
    }
}

/// The height of the lowest common ancestor of `a` and `b`.
pub open spec fn lca_height(m: ChainModel, a: BlockHash, b: BlockHash) -> BlockNumber {
    let top = if m.headers[a].number <= m.headers[b].number {
        m.headers[a].number
    } else {
        m.headers[b].number
    };
    meet_height(m, a, b, top)
}

/// The hash of the lowest common ancestor of `a` and `b`.
pub open spec fn lca_hash(m: ChainModel, a: BlockHash, b: BlockHash) -> BlockHash {
    ancestor_at(m, a, lca_height(m, a, b))
}

/// The ancestor of a block at any admissible height resolves, and sits at
/// exactly that height.
pub proof fn lemma_ancestor_at_resolves(m: ChainModel, h: BlockHash, n: BlockNumber)
    requires
        chain_wf(m),
        m.headers.dom().contains(h),
        n <= m.headers[h].number,
    ensures
        m.headers.dom().contains(ancestor_at(m, h, n)),
        m.headers[ancestor_at(m, h, n)].number == n,
    decreases m.headers[h].number,
{
    if m.headers[h].number != n {
        lemma_ancestor_at_resolves(m, m.headers[h].parent_hash, n);
    }
}

/// Walking to height `j` and then on down to height `k` reaches the same
/// block as walking to `k` directly.
pub proof fn lemma_ancestor_at_compose(m: ChainModel, h: BlockHash, j: BlockNumber, k: BlockNumber)
    requires
        chain_wf(m),
        m.headers.dom().contains(h),
        k <= j <= m.headers[h].number,
    ensures
        m.headers.dom().contains(ancestor_at(m, h, j)),
        ancestor_at(m, ancestor_at(m, h, j), k) == ancestor_at(m, h, k),
    decreases m.headers[h].number,
{
    lemma_ancestor_at_resolves(m, h, j);
    if m.headers[h].number != j {
        lemma_ancestor_at_compose(m, m.headers[h].parent_hash, j, k);
    }
}

/// Every block's ancestor chain reaches the genesis block at height zero.
pub proof fn lemma_ancestor_at_genesis(m: ChainModel, h: BlockHash)
    requires
        chain_wf(m),
        m.headers.dom().contains(h),
    ensures
        ancestor_at(m, h, 0) == m.genesis,
    decreases m.headers[h].number,
{
    if m.headers[h].number != 0 {
        lemma_ancestor_at_genesis(m, m.headers[h].parent_hash);
    }
}

/// One step down the ancestor chain follows the parent link of the ancestor
/// above it.
pub proof fn lemma_ancestor_at_parent_step(m: ChainModel, h: BlockHash, n: BlockNumber)
    requires
        chain_wf(m),
        m.headers.dom().contains(h),
        0 < n <= m.headers[h].number,
    ensures
        m.headers.dom().contains(ancestor_at(m, h, n)),
        ancestor_at(m, h, (n - 1) as BlockNumber)
            == m.headers[ancestor_at(m, h, n)].parent_hash,
{
    lemma_ancestor_at_resolves(m, h, n);
    lemma_ancestor_at_compose(m, h, n, (n - 1) as BlockNumber);
    let z = ancestor_at(m, h, n);
    let p = m.headers[z].parent_hash;
    assert(m.headers[z].number == n);
    assert(m.headers.dom().contains(p) && m.headers[p].number == n - 1);
    assert(ancestor_at(m, z, (n - 1) as BlockNumber) == ancestor_at(m, p, (n - 1) as BlockNumber));
    assert(ancestor_at(m, p, (n - 1) as BlockNumber) == p);
}

/// What `meet_height` returns: a height at most `n`, at which the two
/// ancestor chains meet, above which (up to `n`) they never meet.
pub proof fn lemma_meet_height_props(m: ChainModel, a: BlockHash, b: BlockHash, n: BlockNumber)
    requires
        chain_wf(m),
        m.headers.dom().contains(a),
        m.headers.dom().contains(b),
        n <= m.headers[a].number,
        n <= m.headers[b].number,
    ensures
        meet_height(m, a, b, n) <= n,
        common_at(m, a, b, meet_height(m, a, b, n)),
        forall|k: BlockNumber|
            meet_height(m, a, b, n) < k <= n ==> !common_at(m, a, b, k),
    decreases n,
{
    if common_at(m, a, b, n) {
    } else if n == 0 {
        lemma_ancestor_at_genesis(m, a);
        lemma_ancestor_at_genesis(m, b);
    } else {
        lemma_meet_height_props(m, a, b, (n - 1) as BlockNumber);
    }
}

/// `meet_height` is pinned by its characteristic properties: any height where
/// the chains meet, above which they do not, is the meet height.
pub proof fn lemma_meet_height_unique(
    m: ChainModel,
    a: BlockHash,
    b: BlockHash,
    n: BlockNumber,
    c: BlockNumber,
)
    requires
        chain_wf(m),
        m.headers.dom().contains(a),
        m.headers.dom().contains(b),
        c <= n,
        common_at(m, a, b, c),
        forall|k: BlockNumber| c < k <= n ==> !common_at(m, a, b, k),
    ensures
        meet_height(m, a, b, n) == c,
    decreases n,
{
    if n != c {
        lemma_meet_height_unique(m, a, b, (n - 1) as BlockNumber, c);
    }
}

/// The lowest common ancestor is an ancestor (or the block itself) of both of
/// its arguments.
pub proof fn lemma_lca_is_common_ancestor(m: ChainModel, a: BlockHash, b: BlockHash)
    requires
        chain_wf(m),
        m.headers.dom().contains(a),
        m.headers.dom().contains(b),
    ensures
        is_ancestor_or_self(m, lca_hash(m, a, b), a),
        is_ancestor_or_self(m, lca_hash(m, a, b), b),
        m.headers[lca_hash(m, a, b)].number == lca_height(m, a, b),
{
    let top = if m.headers[a].number <= m.headers[b].number {
        m.headers[a].number
    } else {
        m.headers[b].number
    };
    lemma_meet_height_props(m, a, b, top);
    let r = meet_height(m, a, b, top);
    lemma_ancestor_at_resolves(m, a, r);
    lemma_ancestor_at_resolves(m, b, r);
    lemma_ancestor_at_compose(m, a, r, r);
    lemma_ancestor_at_compose(m, b, r, r);
}

/// `prev` lies on the ancestor chain of `best` exactly when the lowest common
/// ancestor of the two is `prev` itself.
pub proof fn lemma_lca_equals_prev_iff_ancestor(m: ChainModel, best: BlockHash, prev: BlockHash)
    requires
        chain_wf(m),
        m.headers.dom().contains(best),
        m.headers.dom().contains(prev),
    ensures
        lca_hash(m, best, prev) == prev <==> is_ancestor_or_self(m, prev, best),
        lca_height(m, best, prev) == m.headers[prev].number
            <==> is_ancestor_or_self(m, prev, best),
        lca_height(m, best, prev) <= m.headers[prev].number,
{
    let np = m.headers[prev].number;
    let nb = m.headers[best].number;
    let top = if nb <= np { nb } else { np };
    lemma_lca_is_common_ancestor(m, best, prev);
    lemma_meet_height_props(m, best, prev, top);
    if is_ancestor_or_self(m, prev, best) {
        // The chains already meet at prev's own height, so the meet height is
        // exactly that height and the meet point is prev.
        assert(np <= nb);
        assert(ancestor_at(m, prev, np) == prev);
        assert(common_at(m, best, prev, np));
        lemma_meet_height_unique(m, best, prev, top, np);
        assert(lca_hash(m, best, prev) == ancestor_at(m, best, np) == prev);
    }
    if lca_hash(m, best, prev) == prev {
        // lca is an ancestor-or-self of best by the common-ancestor lemma.
        assert(is_ancestor_or_self(m, prev, best));
    }
    if lca_height(m, best, prev) == np {
        lemma_ancestor_at_resolves(m, prev, np);
        assert(ancestor_at(m, prev, np) == prev);
        assert(lca_hash(m, best, prev) == ancestor_at(m, best, np) == ancestor_at(m, prev, np));
    }
}

} // verus!
