//! Capability interface of the block store this layer sits on.
//!
//! The store itself is an external collaborator, assumed internally
//! consistent and safe for concurrent read access; this layer never mutates
//! it. The interface exposes only the operations the status queries and the
//! reorg tracker need, each specified against the abstract [`ChainModel`] the
//! implementation presents. [`crate::memory::InMemoryChain`] is a verified
//! implementation; a node wires in an adapter over its real store.

use vstd::prelude::*;

use crate::block::{chain_wf, BlockHash, BlockNumber, ChainInfo, ChainModel, Header};

verus! {

pub trait ChainBackend: Sized {
    /// The abstract chain this backend currently presents.
    spec fn chain(&self) -> ChainModel;

    /// Well-formedness of the backend; implementations fold their own
    /// structural invariants into this.
    spec fn wf(&self) -> bool;

    /// A well-formed backend presents an internally consistent chain.
    proof fn wf_implies_chain_wf(&self)
        requires
            self.wf(),
        ensures
            chain_wf(self.chain()),
    ;

    /// The header for a block hash, where the store can resolve it.
    fn header_for_hash(&self, hash: BlockHash) -> (r: Option<Header>)
        requires
            self.wf(),
        ensures
            r == if self.chain().headers.dom().contains(hash) {
                Some(self.chain().headers[hash])
            } else {
                None::<Header>
            },
    ;

    /// The canonical block hash at a height, where one is known.
    fn hash_for_number(&self, number: BlockNumber) -> (r: Option<BlockHash>)
        requires
            self.wf(),
        ensures
            r == if self.chain().canonical.dom().contains(number) {
                Some(self.chain().canonical[number])
            } else {
                None::<BlockHash>
            },
    ;

    /// The hashes of all known blocks whose parent is `hash`, in no
    /// particular order. The genesis block is never anyone's child: its
    /// parent link carries no meaning.
    fn children_of(&self, hash: BlockHash) -> (r: Vec<BlockHash>)
        requires
            self.wf(),
        ensures
            forall|h: BlockHash|
                #[trigger] r@.contains(h) <==> {
                    &&& self.chain().headers.dom().contains(h)
                    &&& self.chain().headers[h].parent_hash == hash
                    &&& self.chain().headers[h].number > 0
                },
            r@.no_duplicates(),
    ;

    /// The raw justification bytes stored for a block, if any.
    fn justification_of(&self, hash: BlockHash) -> (r: Option<Vec<u8>>)
        requires
            self.wf(),
        ensures
            match r {
                Some(v) => self.chain().justifications.dom().contains(hash)
                    && v@ == self.chain().justifications[hash],
                None => !self.chain().justifications.dom().contains(hash),
            },
    ;

    /// The current best and finalized tips.
    fn chain_info(&self) -> (r: ChainInfo)
        requires
            self.wf(),
        ensures
            r.best_hash == self.chain().best,
            r.finalized_hash == self.chain().finalized,
    ;
}

} // verus!
