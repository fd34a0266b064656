//! Reorg detection and lowest-common-ancestor search over a fixture chain.
//!
//! The fixture, by heights (genesis at 0):
//!
//! ```text
//!                  - C0 - C1
//!                /
//! G - A0 - A1 - A2 - A3 - A4
//!      \
//!        - B0 - B1 - B2
//! ```

use finality_aleph::ancestry::lowest_common_ancestor;
use finality_aleph::block::{BlockId, Header};
use finality_aleph::chain_state::detect_reorgs;
use finality_aleph::memory::InMemoryChain;

const G: u64 = 10;
const A: [u64; 5] = [11, 12, 13, 14, 15];
const B: [u64; 3] = [21, 22, 23];
const C: [u64; 2] = [31, 32];

fn header(hash: u64, number: u32, parent_hash: u64) -> Header {
    Header { hash, number, parent_hash }
}

/// Builds the fixture chain and returns the store and the headers of the
/// three branches.
fn fixture() -> (InMemoryChain, Vec<Header>, Vec<Header>, Vec<Header>) {
    let genesis = header(G, 0, 0);
    let mut chain = InMemoryChain::new(genesis);
    let mut a = Vec::new();
    let mut parent = G;
    for (i, &hash) in A.iter().enumerate() {
        let h = header(hash, (i + 1) as u32, parent);
        chain.import(h);
        a.push(h);
        parent = hash;
    }
    let mut b = Vec::new();
    let mut parent = A[0];
    for (i, &hash) in B.iter().enumerate() {
        let h = header(hash, (i + 2) as u32, parent);
        chain.import(h);
        b.push(h);
        parent = hash;
    }
    let mut c = Vec::new();
    let mut parent = A[2];
    for (i, &hash) in C.iter().enumerate() {
        let h = header(hash, (i + 4) as u32, parent);
        chain.import(h);
        c.push(h);
        parent = hash;
    }
    (chain, a, b, c)
}

#[test]
fn test_reorg_detection() {
    let (chain, a, b, c) = fixture();
    let cases = [
        (a[1], a[2], None),
        (a[1], a[4], None),
        (a[1], a[1], None),
        (a[2], b[0], Some(2)),
        (b[0], a[2], Some(1)),
        (c[1], b[2], Some(4)),
    ];
    for (prev, new_best, expected) in cases {
        assert_eq!(detect_reorgs(&chain, Some(prev), new_best), expected);
    }
}

#[test]
fn reorg_without_previous_best_is_none() {
    let (chain, a, _, _) = fixture();
    assert_eq!(detect_reorgs(&chain, None, a[3]), None);
}

#[test]
fn reorg_with_unknown_block_is_none() {
    let (chain, a, _, _) = fixture();
    let stranger = header(99, 3, 98);
    assert_eq!(detect_reorgs(&chain, Some(stranger), a[4]), None);
    assert_eq!(detect_reorgs(&chain, Some(a[4]), stranger), None);
}

#[test]
fn lowest_common_ancestor_of_branches() {
    let (chain, a, b, c) = fixture();
    // The A and C branches split above A2.
    assert_eq!(
        lowest_common_ancestor(&chain, a[4].hash, c[1].hash),
        Some(BlockId { hash: A[2], number: 3 })
    );
    // The A and B branches split above A0.
    assert_eq!(
        lowest_common_ancestor(&chain, b[2].hash, a[3].hash),
        Some(BlockId { hash: A[0], number: 1 })
    );
    // The B and C branches also split above A0.
    assert_eq!(
        lowest_common_ancestor(&chain, b[1].hash, c[0].hash),
        Some(BlockId { hash: A[0], number: 1 })
    );
}

#[test]
fn lowest_common_ancestor_of_ancestor_is_the_ancestor() {
    let (chain, a, _, _) = fixture();
    assert_eq!(
        lowest_common_ancestor(&chain, a[4].hash, a[1].hash),
        Some(BlockId { hash: A[1], number: 2 })
    );
    assert_eq!(
        lowest_common_ancestor(&chain, G, a[4].hash),
        Some(BlockId { hash: G, number: 0 })
    );
}

#[test]
fn lowest_common_ancestor_of_unknown_block_is_none() {
    let (chain, a, _, _) = fixture();
    assert_eq!(lowest_common_ancestor(&chain, a[0].hash, 99), None);
    assert_eq!(lowest_common_ancestor(&chain, 99, a[0].hash), None);
}
