//! Typed, read-only view of block and justification state.
//!
//! [`SubstrateChainStatus`] translates a backend's raw block/justification
//! storage into a typed status API. All failures are typed and returned,
//! never swallowed — with one deliberate exception: a stored justification
//! that does not decode degrades the block to merely `Present`, because a
//! legacy or corrupted justification must not make an otherwise-valid block
//! appear unavailable.

use vstd::prelude::*;

use crate::backend::ChainBackend;
use crate::block::{BlockHash, BlockId, BlockNumber, ChainModel, Header};

verus! {

/// What can go wrong when checking chain status.
#[derive(Clone, Copy, Debug, PartialEq, Eq, Structural)]
pub enum Error {
    /// The backend guaranteed a hash it cannot produce a header for: a
    /// data-availability violation, to be treated as a bug signal.
    MissingHash(BlockHash),
    /// A finalized block has no stored, decodable justification.
    MissingJustification(BlockHash),
    /// A header resolved by hash declares a height other than the one it was
    /// looked up with.
    MismatchedId,
}

/// A header together with the raw bytes of the justification finalizing it.
#[derive(Clone, Debug, PartialEq, Eq)]
pub struct Justification {
    pub header: Header,
    pub raw_justification: Vec<u8>,
}

/// The status of a block: never seen, known, or known and finalized. Per
/// hash this only ever moves forward, never backward.
#[derive(Clone, Debug, PartialEq, Eq)]
pub enum BlockStatus {
    Unknown,
    Present(Header),
    Justified(Justification),
}

/// Spec-level counterpart of [`BlockStatus`], carrying justification bytes
/// as a sequence.
pub enum StatusModel {
    Unknown,
    Present(Header),
    Justified(Header, Seq<u8>),
}

impl View for BlockStatus {
    type V = StatusModel;

    open spec fn view(&self) -> StatusModel {
        match self {
            BlockStatus::Unknown => StatusModel::Unknown,
            BlockStatus::Present(h) => StatusModel::Present(*h),
            BlockStatus::Justified(j) => StatusModel::Justified(j.header, j.raw_justification@),
        }
    }
}

/// A `Result` of a status query, with the success value abstracted.
pub open spec fn status_result_view(r: Result<BlockStatus, Error>) -> Result<StatusModel, Error> {
    match r {
        Ok(s) => Ok(s@),
        Err(e) => Err(e),
    }
}

/// Whether stored justification bytes decode. The bytes are otherwise opaque
/// to this layer; an empty byte string is the undecodable (legacy or
/// corrupted) case.
pub open spec fn justification_decodes(raw: Seq<u8>) -> bool {
    raw.len() > 0
}

/// The chain has a decodable justification stored for `hash`.
pub open spec fn has_justification(m: ChainModel, hash: BlockHash) -> bool {
    m.justifications.dom().contains(hash) && justification_decodes(m.justifications[hash])
}

/// What a status query returns for `id` on chain `m`.
pub open spec fn status_spec(m: ChainModel, id: BlockId) -> Result<StatusModel, Error> {
    if !m.headers.dom().contains(id.hash) {
        Ok(StatusModel::Unknown)
    } else if m.headers[id.hash].number != id.number {
        Err(Error::MismatchedId)
    } else if has_justification(m, id.hash) {
        Ok(StatusModel::Justified(m.headers[id.hash], m.justifications[id.hash]))
    } else {
        Ok(StatusModel::Present(m.headers[id.hash]))
    }
}

/// What a finalized-at query returns for height `number` on chain `m`.
pub open spec fn finalized_at_spec(m: ChainModel, number: BlockNumber) -> Result<
    Option<StatusModel>,
    Error,
> {
    if !m.canonical.dom().contains(number) {
        Ok(None)
    } else {
        match status_spec(m, BlockId { hash: m.canonical[number], number }) {
            Ok(StatusModel::Justified(h, j)) => Ok(Some(StatusModel::Justified(h, j))),
            Ok(_) => Ok(None),
            Err(e) => Err(e),
        }
    }
}

/// Typed status queries over an injected chain backend.
pub struct SubstrateChainStatus<B: ChainBackend> {
    client: B,
}

impl<B: ChainBackend> SubstrateChainStatus<B> {
    /// The chain the underlying backend presents.
    pub closed spec fn chain(&self) -> ChainModel {
        self.client.chain()
    }

    /// Well-formedness of the underlying backend.
    pub closed spec fn wf(&self) -> bool {
        self.client.wf()
    }

    pub fn new(client: B) -> (r: SubstrateChainStatus<B>)
        ensures
            r.chain() == client.chain(),
            r.wf() == client.wf(),
    {
        SubstrateChainStatus { client }
    }

    /// Resolves a header by hash, and rejects an identifier whose height
    /// does not match the resolved header.
    fn header(&self, id: &BlockId) -> (r: Result<Option<Header>, Error>)
        requires
            self.wf(),
        ensures
            r == if !self.chain().headers.dom().contains(id.hash) {
                Ok::<Option<Header>, Error>(None)
            } else if self.chain().headers[id.hash].number != id.number {
                Err::<Option<Header>, Error>(Error::MismatchedId)
            } else {
                Ok::<Option<Header>, Error>(Some(self.chain().headers[id.hash]))
            },
    {
        match self.client.header_for_hash(id.hash) {
            None => Ok(None),
            Some(header) => {
                if header.number != id.number {
                    Err(Error::MismatchedId)
                } else {
                    Ok(Some(header))
                }
            },
        }
    }

    /// The stored justification for `hash`, where one exists and decodes.
    /// Bytes that fail to decode are reported as no justification available.
    fn justification(&self, hash: BlockHash) -> (r: Option<Vec<u8>>)
        requires
            self.wf(),
        ensures
            match r {
                Some(v) => has_justification(self.chain(), hash) && v@
                    == self.chain().justifications[hash],
                None => !has_justification(self.chain(), hash),
            },
    {
        match self.client.justification_of(hash) {
            None => None,
            Some(raw) => {
                if raw.len() > 0 {
                    Some(raw)
                } else {
                    None
                }
            },
        }
    }

    /// The status of the block identified by `id`.
    pub fn status_of(&self, id: BlockId) -> (r: Result<BlockStatus, Error>)
        requires
            self.wf(),
        ensures
            status_result_view(r) == status_spec(self.chain(), id),
    {
        let header = match self.header(&id) {
            Err(e) => {
                return Err(e);
            },
            Ok(None) => {
                return Ok(BlockStatus::Unknown);
            },
            Ok(Some(header)) => header,
        };
        match self.justification(id.hash) {
            Some(raw_justification) => Ok(
                BlockStatus::Justified(Justification { header, raw_justification }),
            ),
            None => Ok(BlockStatus::Present(header)),
        }
    }

    /// The justification finalizing the canonical block at `number`, where
    /// the chain has one; `None` where no block is known at that height or
    /// the block there is present but not justified.
    pub fn finalized_at(&self, number: BlockNumber) -> (r: Result<Option<Justification>, Error>)
        requires
            self.wf(),
        ensures
            match r {
                Ok(Some(j)) => finalized_at_spec(self.chain(), number) == Ok::<
                    Option<StatusModel>,
                    Error,
                >(Some(StatusModel::Justified(j.header, j.raw_justification@))),
                Ok(None) => finalized_at_spec(self.chain(), number) == Ok::<
                    Option<StatusModel>,
                    Error,
                >(None),
                Err(e) => finalized_at_spec(self.chain(), number) == Err::<
                    Option<StatusModel>,
                    Error,
                >(e),
            },
    {
        let hash = match self.client.hash_for_number(number) {
            Some(hash) => hash,
            None => {
                return Ok(None);
            },
        };
        match self.status_of(BlockId { hash, number }) {
            Err(e) => Err(e),
            Ok(BlockStatus::Justified(justification)) => Ok(Some(justification)),
            Ok(_) => Ok(None),
        }
    }

    /// The header of the backend's current best block. A best hash the
    /// backend cannot resolve is a fatal data-availability error.
    pub fn best_block(&self) -> (r: Result<Header, Error>)
        requires
            self.wf(),
        ensures
            r == if self.chain().headers.dom().contains(self.chain().best) {
                Ok::<Header, Error>(self.chain().headers[self.chain().best])
            } else {
                Err::<Header, Error>(Error::MissingHash(self.chain().best))
            },
    {
        let best_hash = self.client.chain_info().best_hash;
        match self.client.header_for_hash(best_hash) {
            Some(header) => Ok(header),
            None => Err(Error::MissingHash(best_hash)),
        }
    }

    /// The justification of the backend's current finalized block. Under
    /// correct node operation both the header and the justification exist;
    /// either missing is a fatal error, not a transient condition.
    pub fn top_finalized(&self) -> (r: Result<Justification, Error>)
        requires
            self.wf(),
        ensures
            match r {
                Ok(j) => {
                    &&& self.chain().headers.dom().contains(self.chain().finalized)
                    &&& j.header == self.chain().headers[self.chain().finalized]
                    &&& has_justification(self.chain(), self.chain().finalized)
                    &&& j.raw_justification@ == self.chain().justifications[self.chain().finalized]
                },
                Err(Error::MissingHash(h)) => h == self.chain().finalized
                    && !self.chain().headers.dom().contains(self.chain().finalized),
                Err(Error::MissingJustification(h)) => {
                    &&& h == self.chain().finalized
                    &&& self.chain().headers.dom().contains(self.chain().finalized)
                    &&& !has_justification(self.chain(), self.chain().finalized)
                },
                Err(_) => false,
            },
    {
        let finalized_hash = self.client.chain_info().finalized_hash;
        let header = match self.client.header_for_hash(finalized_hash) {
            Some(header) => header,
            None => {
                return Err(Error::MissingHash(finalized_hash));
            },
        };
        let raw_justification = match self.justification(finalized_hash) {
            Some(raw) => raw,
            None => {
                return Err(Error::MissingJustification(finalized_hash));
            },
        };
        Ok(Justification { header, raw_justification })
    }

    /// The headers of all known children of the block identified by `id`.
    /// An identifier whose height does not match its resolved header is
    /// rejected; an identifier for an unknown block simply has no children.
    pub fn children(&self, id: BlockId) -> (r: Result<Vec<Header>, Error>)
        requires
            self.wf(),
        ensures
            match r {
                Ok(v) => {
                    &&& !(self.chain().headers.dom().contains(id.hash)
                        && self.chain().headers[id.hash].number != id.number)
                    &&& forall|hd: Header|
                        #[trigger] v@.contains(hd) <==> {
                            &&& self.chain().headers.dom().contains(hd.hash)
                            &&& self.chain().headers[hd.hash] == hd
                            &&& hd.parent_hash == id.hash
                            &&& hd.number > 0
                        }
                    &&& v@.no_duplicates()
                },
                Err(e) => e == Error::MismatchedId && self.chain().headers.dom().contains(id.hash)
                    && self.chain().headers[id.hash].number != id.number,
            },
    {
        proof {
            self.client.wf_implies_chain_wf();
        }
        // This checks whether we have the block at all and the provided id
        // is consistent.
        match self.header(&id) {
            Err(e) => {
                return Err(e);
            },
            Ok(_) => {},
        }
        let ghost m = self.chain();
        let child_hashes = self.client.children_of(id.hash);
        let mut out: Vec<Header> = Vec::new();
        let mut i: usize = 0;
        while i < child_hashes.len()
            invariant
                self.wf(),
                m == self.chain(),
                crate::block::chain_wf(m),
                i <= child_hashes@.len(),
                forall|h: BlockHash|
                    #[trigger] child_hashes@.contains(h) <==> {
                        &&& m.headers.dom().contains(h)
                        &&& m.headers[h].parent_hash == id.hash
                        &&& m.headers[h].number > 0
                    },
                child_hashes@.no_duplicates(),
                out@.len() == i,
                forall|j: int|
                    0 <= j < i ==> m.headers.dom().contains(#[trigger] child_hashes@[j]),
                forall|j: int|
                    0 <= j < i ==> (#[trigger] out@[j]) == m.headers[child_hashes@[j]],
            decreases child_hashes@.len() - i,
        {
            proof {
                assert(child_hashes@.contains(child_hashes@[i as int]));
            }
            let ghost prev = out@;
            let header = match self.client.header_for_hash(child_hashes[i]) {
                Some(header) => header,
                None => unreached(),
            };
            out.push(header);
            proof {
                assert(out@ == prev.push(header));
                assert(header == m.headers[child_hashes@[i as int]]);
                assert forall|j: int|
                    0 <= j < i + 1 implies m.headers.dom().contains(child_hashes@[j]) && (
                #[trigger] out@[j]) == m.headers[child_hashes@[j]] by {
                    if j < i {
                        assert(out@[j] == prev[j]);
                        assert(prev[j] == m.headers[child_hashes@[j]]);
                    } else {
                        assert(out@[j] == header);
                    }
                }
            }
            i += 1;
        }
        proof {
            assert forall|hd: Header| #[trigger] out@.contains(hd) implies {
                &&& m.headers.dom().contains(hd.hash)
                &&& m.headers[hd.hash] == hd
                &&& hd.parent_hash == id.hash
                &&& hd.number > 0
            } by {
                let j = choose|j: int| 0 <= j < out@.len() && out@[j] == hd;
                assert(child_hashes@.contains(child_hashes@[j]));
                assert(hd == m.headers[child_hashes@[j]]);
                assert(hd.hash == child_hashes@[j]);
            }
            assert forall|hd: Header|
                {
                    &&& m.headers.dom().contains(hd.hash)
                    &&& m.headers[hd.hash] == hd
                    &&& hd.parent_hash == id.hash
                    &&& hd.number > 0
                } implies #[trigger] out@.contains(hd) by {
                assert(child_hashes@.contains(hd.hash));
                let j = choose|j: int| 0 <= j < child_hashes@.len() && child_hashes@[j] == hd.hash;
                assert(out@[j] == m.headers[hd.hash]);
            }
            assert(out@.no_duplicates()) by {
                assert forall|j1: int, j2: int|
                    0 <= j1 < j2 < out@.len() implies out@[j1] != out@[j2] by {
                    assert(child_hashes@.contains(child_hashes@[j1]));
                    assert(child_hashes@.contains(child_hashes@[j2]));
                    assert(out@[j1].hash == child_hashes@[j1]);
                    assert(out@[j2].hash == child_hashes@[j2]);
                }
            }
        }
        Ok(out)
    }
}

/// One store extends another: everything the smaller one resolves, the
/// larger one resolves identically. Imports and stored justifications only
/// ever add entries.
pub open spec fn chain_extends(m2: ChainModel, m1: ChainModel) -> bool {
    &&& forall|h: BlockHash|
        #[trigger] m1.headers.dom().contains(h) ==> m2.headers.dom().contains(h)
            && m2.headers[h] == m1.headers[h]
    &&& forall|h: BlockHash|
        #[trigger] m1.justifications.dom().contains(h) ==> m2.justifications.dom().contains(h)
            && m2.justifications[h] == m1.justifications[h]
}

/// How far along its lifecycle a status outcome is.
pub open spec fn status_rank(r: Result<StatusModel, Error>) -> int {
    match r {
        Ok(StatusModel::Unknown) => 0,
        Ok(StatusModel::Present(_)) => 1,
        Ok(StatusModel::Justified(_, _)) => 2,
        Err(_) => 3,
    }
}

/// Per hash a status only ever moves forward over time: as the store grows,
/// `Unknown` may become `Present` and `Present` may become `Justified`, never
/// the other way; and an identifier the store rejects stays rejected.
pub proof fn lemma_status_is_monotonic(m1: ChainModel, m2: ChainModel, id: BlockId)
    requires
        chain_extends(m2, m1),
    ensures
        status_rank(status_spec(m2, id)) >= status_rank(status_spec(m1, id)),
        status_spec(m1, id) is Err ==> status_spec(m2, id) == status_spec(m1, id),
{
}

/// Two status queries for the same identifier, with no chain mutation in
/// between, return identical results: the outcome is a function of the chain
/// and the identifier alone.
pub proof fn lemma_status_of_deterministic(
    m: ChainModel,
    id: BlockId,
    r1: Result<BlockStatus, Error>,
    r2: Result<BlockStatus, Error>,
)
    requires
        status_result_view(r1) == status_spec(m, id),
        status_result_view(r2) == status_spec(m, id),
    ensures
        status_result_view(r1) == status_result_view(r2),
{
}

} // verus!
