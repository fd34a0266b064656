//! The chain-state tracker over event sequences: hopeless-block accounting,
//! gauge updates, reorg samples, and the no-op metrics mode.
//!
//! The fixture, by heights (genesis at 0):
//!
//! ```text
//!                  - C0 - C1
//!                /
//! G - A0 - A1 - A2 - A3 - A4
//!      \
//!        - B0 - B1 - B2
//! ```

use finality_aleph::block::Header;
use finality_aleph::chain_state::{
    BlockImportNotification, BlockOrigin, ChainStateEvent, ChainStateMetricsRunner,
    FinalityNotification,
};
use finality_aleph::memory::InMemoryChain;
use finality_aleph::metrics::{ChainStateMetrics, Registry};

const G: u64 = 10;
const A: [u64; 5] = [11, 12, 13, 14, 15];
const B: [u64; 3] = [21, 22, 23];
const C: [u64; 2] = [31, 32];

fn header(hash: u64, number: u32, parent_hash: u64) -> Header {
    Header { hash, number, parent_hash }
}

fn fixture() -> (InMemoryChain, Vec<Header>, Vec<Header>, Vec<Header>) {
    let genesis = header(G, 0, 0);
    let mut chain = InMemoryChain::new(genesis);
    let mut a = Vec::new();
    let mut parent = G;
    for (i, &hash) in A.iter().enumerate() {
        let h = header(hash, (i + 1) as u32, parent);
        chain.import(h);
        a.push(h);
        parent = hash;
    }
    let mut b = Vec::new();
    let mut parent = A[0];
    for (i, &hash) in B.iter().enumerate() {
        let h = header(hash, (i + 2) as u32, parent);
        chain.import(h);
        b.push(h);
        parent = hash;
    }
    let mut c = Vec::new();
    let mut parent = A[2];
    for (i, &hash) in C.iter().enumerate() {
        let h = header(hash, (i + 4) as u32, parent);
        chain.import(h);
        c.push(h);
        parent = hash;
    }
    (chain, a, b, c)
}

fn import(header: Header, is_new_best: bool) -> ChainStateEvent {
    ChainStateEvent::Import(BlockImportNotification {
        header,
        is_new_best,
        origin: BlockOrigin::Own,
    })
}

fn finality(header: Header) -> ChainStateEvent {
    ChainStateEvent::Finality(FinalityNotification { header })
}

/// Importing all three self-authored branches and then finalizing the main
/// chain makes exactly the five competing blocks hopeless, with one pair of
/// gauge updates per finalized height.
#[test]
fn random_test() {
    let (chain, a, b, c) = fixture();
    let mut events = Vec::new();
    for h in &a {
        events.push(import(*h, true));
    }
    for h in b.iter().chain(c.iter()) {
        events.push(import(*h, false));
    }
    for h in &a {
        events.push(finality(*h));
    }
    let mut runner = ChainStateMetricsRunner::new(Some(Registry {}));
    runner.run_chain_state_metrics(&chain, &events);
    match runner.metrics {
        ChainStateMetrics::Recording {
            own_finalized_blocks,
            own_hopeless_blocks,
            top_finalized_block,
            best_block,
            reorgs,
        } => {
            // B0..B2 and C0..C1 lost the race: five hopeless blocks.
            assert_eq!(own_hopeless_blocks, 5);
            // One top-finalized update per finalized height.
            assert_eq!(own_finalized_blocks, 5);
            assert_eq!(top_finalized_block, 5);
            // The best-block gauge followed the A imports to height 5.
            assert_eq!(best_block, 5);
            // The A chain was imported in order: no reorg was ever signalled.
            assert_eq!(reorgs.observations, 0);
        }
        ChainStateMetrics::Noop => panic!("expected recording metrics"),
    }
    assert!(runner.own_pending.is_empty());
}

#[test]
fn reorg_is_sampled_in_the_histogram() {
    let (chain, a, b, _) = fixture();
    // Best moves A0, A1, then to the competing B0 at the same height:
    // one block of the previous best chain is dropped.
    let events = vec![import(a[0], true), import(a[1], true), import(b[0], true)];
    let mut runner = ChainStateMetricsRunner::new(Some(Registry {}));
    runner.run_chain_state_metrics(&chain, &events);
    match runner.metrics {
        ChainStateMetrics::Recording { reorgs, .. } => {
            assert_eq!(reorgs.observations, 1);
            assert_eq!(reorgs.sum, 1);
            assert_eq!(reorgs.le_1, 1);
            assert_eq!(reorgs.le_2, 1);
            assert_eq!(reorgs.le_10, 1);
        }
        ChainStateMetrics::Noop => panic!("expected recording metrics"),
    }
}

#[test]
fn finality_before_import_counts_nothing() {
    let (chain, a, b, _) = fixture();
    // The finality notification for height 2 arrives before the own import
    // at that height: there is nothing pending to count, and the import
    // afterwards stays pending.
    let events = vec![finality(a[1]), import(b[0], false)];
    let mut runner = ChainStateMetricsRunner::new(Some(Registry {}));
    runner.run_chain_state_metrics(&chain, &events);
    match runner.metrics {
        ChainStateMetrics::Recording { own_hopeless_blocks, top_finalized_block, .. } => {
            assert_eq!(own_hopeless_blocks, 0);
            assert_eq!(top_finalized_block, 2);
        }
        ChainStateMetrics::Noop => panic!("expected recording metrics"),
    }
    assert_eq!(runner.own_pending, vec![(2, B[0])]);
}

#[test]
fn import_before_finality_counts_the_loser() {
    let (chain, a, b, _) = fixture();
    let events = vec![import(b[0], false), finality(a[1])];
    let mut runner = ChainStateMetricsRunner::new(Some(Registry {}));
    runner.run_chain_state_metrics(&chain, &events);
    match runner.metrics {
        ChainStateMetrics::Recording { own_hopeless_blocks, .. } => {
            assert_eq!(own_hopeless_blocks, 1);
        }
        ChainStateMetrics::Noop => panic!("expected recording metrics"),
    }
    assert!(runner.own_pending.is_empty());
}

/// Pending own blocks form a set per height: notifying the same
/// self-authored block twice records it once, and finalizing its height with
/// a different hash counts it hopeless exactly once.
#[test]
fn duplicate_own_import_is_counted_once() {
    let (chain, a, b, _) = fixture();
    let mut runner = ChainStateMetricsRunner::new(Some(Registry {}));
    runner.run_chain_state_metrics(&chain, &vec![import(b[0], false), import(b[0], false)]);
    assert_eq!(runner.own_pending, vec![(2, B[0])]);
    runner.run_chain_state_metrics(&chain, &vec![finality(a[1])]);
    match runner.metrics {
        ChainStateMetrics::Recording { own_hopeless_blocks, .. } => {
            assert_eq!(own_hopeless_blocks, 1);
        }
        ChainStateMetrics::Noop => panic!("expected recording metrics"),
    }
    assert!(runner.own_pending.is_empty());
}

#[test]
fn uninteresting_imports_are_discarded() {
    let (chain, a, _, _) = fixture();
    let events = vec![ChainStateEvent::Import(BlockImportNotification {
        header: a[0],
        is_new_best: false,
        origin: BlockOrigin::Other,
    })];
    let mut runner = ChainStateMetricsRunner::new(Some(Registry {}));
    runner.run_chain_state_metrics(&chain, &events);
    assert!(runner.own_pending.is_empty());
    assert_eq!(runner.previous_best, None);
}

/// Every operation is callable without a configured registry, and no event
/// ever touches the metrics state.
#[test]
fn no_registry_mode_is_a_no_op() {
    let mut metrics = ChainStateMetrics::new(None);
    assert_eq!(metrics, ChainStateMetrics::Noop);
    metrics.increment_own_hopeless_blocks();
    metrics.update_best_block(7);
    metrics.update_top_finalized_block(9);
    metrics.report_reorg(3);
    assert_eq!(metrics, ChainStateMetrics::Noop);
    assert_eq!(ChainStateMetrics::noop(), ChainStateMetrics::Noop);

    let (chain, a, b, c) = fixture();
    let mut events = Vec::new();
    for h in a.iter().chain(b.iter()).chain(c.iter()) {
        events.push(import(*h, true));
    }
    for h in &a {
        events.push(finality(*h));
    }
    let mut runner = ChainStateMetricsRunner::new(None);
    runner.run_chain_state_metrics(&chain, &events);
    assert_eq!(runner.metrics, ChainStateMetrics::Noop);
}
