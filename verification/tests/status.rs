//! The typed status queries over an in-memory store.

use finality_aleph::block::{BlockId, Header};
use finality_aleph::chain_status::{BlockStatus, Error, SubstrateChainStatus};
use finality_aleph::client::{CodeOwnerInfo, ContractsApi};
use finality_aleph::memory::InMemoryChain;

const G: u64 = 10;
const A1: u64 = 11;
const A2: u64 = 12;
const B1: u64 = 21;

fn header(hash: u64, number: u32, parent_hash: u64) -> Header {
    Header { hash, number, parent_hash }
}

/// A small store: genesis, a two-block chain A1-A2 above it, a competing B1,
/// with A1 canonical at height 1 and justified, and A2 the best tip.
fn fixture() -> SubstrateChainStatus<InMemoryChain> {
    let mut chain = InMemoryChain::new(header(G, 0, 0));
    chain.import(header(A1, 1, G));
    chain.import(header(A2, 2, A1));
    chain.import(header(B1, 1, G));
    chain.set_justification(A1, vec![7, 7, 7]);
    chain.set_canonical(0, G);
    chain.set_canonical(1, A1);
    chain.set_best(A2);
    chain.set_finalized(A1);
    SubstrateChainStatus::new(chain)
}

#[test]
fn status_of_unknown_block() {
    let status = fixture();
    let r = status.status_of(BlockId { hash: 99, number: 4 });
    assert_eq!(r, Ok(BlockStatus::Unknown));
}

#[test]
fn status_of_present_block() {
    let status = fixture();
    let r = status.status_of(BlockId { hash: A2, number: 2 });
    assert_eq!(r, Ok(BlockStatus::Present(header(A2, 2, A1))));
}

#[test]
fn status_of_justified_block() {
    let status = fixture();
    let r = status.status_of(BlockId { hash: A1, number: 1 });
    match r {
        Ok(BlockStatus::Justified(j)) => {
            assert_eq!(j.header, header(A1, 1, G));
            assert_eq!(j.raw_justification, vec![7, 7, 7]);
        }
        other => panic!("expected a justified status, got {:?}", other),
    }
}

#[test]
fn status_of_mismatched_id_is_an_error() {
    let status = fixture();
    let r = status.status_of(BlockId { hash: A1, number: 2 });
    assert_eq!(r, Err(Error::MismatchedId));
}

#[test]
fn undecodable_justification_degrades_to_present() {
    // An empty stored justification does not decode; the block is reported
    // merely present, not as an error.
    let mut chain = InMemoryChain::new(header(G, 0, 0));
    chain.import(header(A1, 1, G));
    chain.set_justification(A1, vec![]);
    let status = SubstrateChainStatus::new(chain);
    let r = status.status_of(BlockId { hash: A1, number: 1 });
    assert_eq!(r, Ok(BlockStatus::Present(header(A1, 1, G))));
}

#[test]
fn status_of_is_idempotent() {
    let status = fixture();
    for id in [
        BlockId { hash: 99, number: 4 },
        BlockId { hash: A1, number: 1 },
        BlockId { hash: A2, number: 2 },
        BlockId { hash: A1, number: 2 },
    ] {
        let first = status.status_of(id);
        let second = status.status_of(id);
        assert_eq!(first, second);
    }
}

#[test]
fn finalized_at_known_heights() {
    let status = fixture();
    // Height 1 is canonical and justified.
    let r = status.finalized_at(1).unwrap().unwrap();
    assert_eq!(r.header, header(A1, 1, G));
    assert_eq!(r.raw_justification, vec![7, 7, 7]);
    // Height 0 is canonical but carries no justification.
    assert_eq!(status.finalized_at(0).unwrap(), None);
    // Height 2 has no canonical entry.
    assert_eq!(status.finalized_at(2).unwrap(), None);
}

#[test]
fn best_block_resolves() {
    let status = fixture();
    assert_eq!(status.best_block(), Ok(header(A2, 2, A1)));
}

#[test]
fn unresolvable_best_hash_is_missing_hash() {
    let mut chain = InMemoryChain::new(header(G, 0, 0));
    chain.set_best(99);
    let status = SubstrateChainStatus::new(chain);
    assert_eq!(status.best_block(), Err(Error::MissingHash(99)));
}

#[test]
fn top_finalized_resolves() {
    let status = fixture();
    let j = status.top_finalized().unwrap();
    assert_eq!(j.header, header(A1, 1, G));
    assert_eq!(j.raw_justification, vec![7, 7, 7]);
}

#[test]
fn unresolvable_finalized_hash_is_missing_hash() {
    let mut chain = InMemoryChain::new(header(G, 0, 0));
    chain.set_finalized(99);
    let status = SubstrateChainStatus::new(chain);
    match status.top_finalized() {
        Err(Error::MissingHash(h)) => assert_eq!(h, 99),
        other => panic!("expected a missing-hash error, got {:?}", other),
    }
}

#[test]
fn finalized_block_without_justification_is_missing_justification() {
    let mut chain = InMemoryChain::new(header(G, 0, 0));
    chain.import(header(A1, 1, G));
    chain.set_finalized(A1);
    let status = SubstrateChainStatus::new(chain);
    match status.top_finalized() {
        Err(Error::MissingJustification(h)) => assert_eq!(h, A1),
        other => panic!("expected a missing-justification error, got {:?}", other),
    }
}

#[test]
fn children_of_a_block() {
    let status = fixture();
    let mut children = status.children(BlockId { hash: G, number: 0 }).unwrap();
    children.sort_by_key(|h| h.hash);
    assert_eq!(children, vec![header(A1, 1, G), header(B1, 1, G)]);
    let children = status.children(BlockId { hash: A2, number: 2 }).unwrap();
    assert_eq!(children, Vec::new());
}

#[test]
fn children_of_unknown_block_is_empty() {
    let status = fixture();
    assert_eq!(status.children(BlockId { hash: 99, number: 7 }).unwrap(), Vec::new());
}

#[test]
fn children_of_mismatched_id_is_an_error() {
    let status = fixture();
    assert_eq!(status.children(BlockId { hash: G, number: 3 }), Err(Error::MismatchedId));
}

/// A store of owner records, answering the contracts capability interface.
struct OwnerRecords {
    records: Vec<(u64, CodeOwnerInfo)>,
}

impl ContractsApi for OwnerRecords {
    fn get_owner_info(&self, code_hash: u64, _at: Option<u64>) -> Option<CodeOwnerInfo> {
        for (hash, info) in &self.records {
            if *hash == code_hash {
                return Some(*info);
            }
        }
        None
    }
}

#[test]
fn owner_info_lookup() {
    let info = CodeOwnerInfo { owner: 42, deposit: 1000, refcount: 2 };
    let records = OwnerRecords { records: vec![(7, info)] };
    assert_eq!(records.get_owner_info(7, None), Some(info));
    assert_eq!(records.get_owner_info(8, None), None);
}
