//! The chain-state tracker: reorg detection and own-hopeless-block
//! accounting over two notification streams.
//!
//! The tracker consumes block-import and block-finality notifications, in
//! whichever order they arrive, keeps small bookkeeping (the self-authored
//! blocks not yet finalized, and the previous best header), and updates the
//! chain-state metrics. The surrounding task polls the two streams with no
//! priority between them and hands each event to [`ChainStateMetricsRunner`]
//! as it arrives; either stream ending terminates the whole tracking task.

use vstd::prelude::*;

use crate::ancestry::lowest_common_ancestor;
use crate::backend::ChainBackend;
use crate::block::{chain_wf, lca_height, BlockHash, BlockNumber, ChainModel, Header};
use crate::metrics::{
    after_best, after_hopeless, after_reorg, after_top_finalized, ChainStateMetrics, Registry,
};

verus! {

/// Where an imported block came from: this node's own authorship, or
/// anywhere else.
#[derive(Clone, Copy, Debug, PartialEq, Eq, Structural)]
pub enum BlockOrigin {
    Own,
    Other,
}

/// One block-import notification.
#[derive(Clone, Copy, Debug, PartialEq, Eq, Structural)]
pub struct BlockImportNotification {
    pub header: Header,
    pub is_new_best: bool,
    pub origin: BlockOrigin,
}

/// One block-finality notification.
#[derive(Clone, Copy, Debug, PartialEq, Eq, Structural)]
pub struct FinalityNotification {
    pub header: Header,
}

/// An event from either notification stream, in arrival order.
#[derive(Clone, Copy, Debug, PartialEq, Eq, Structural)]
pub enum ChainStateEvent {
    Import(BlockImportNotification),
    Finality(FinalityNotification),
}

/// The import notifications that reach the tracker: those marked new best or
/// self-authored. All others are discarded at the stream.
pub open spec fn interesting_spec(n: BlockImportNotification) -> bool {
    n.is_new_best || n.origin == BlockOrigin::Own
}

/// Whether an import notification reaches the tracker.
pub fn is_interesting(notification: &BlockImportNotification) -> (r: bool)
    ensures
        r == interesting_spec(*notification),
{
    notification.is_new_best || notification.origin == BlockOrigin::Own
}

/// The reorg measurement for a best-block change from `previous_best` to
/// `best` on chain `m`: `None` when there was no previous best, when the new
/// best equals it or extends it directly, when either block is unknown to
/// the store, or when the computed depth degenerates to zero; otherwise the
/// number of blocks dropped from the previous best chain down to the lowest
/// common ancestor.
pub open spec fn reorg_spec(m: ChainModel, previous_best: Option<Header>, best: Header) -> Option<
    BlockNumber,
> {
    match previous_best {
        None => None,
        Some(prev) => {
            if best.hash == prev.hash || best.parent_hash == prev.hash {
                None
            } else if !(m.headers.dom().contains(best.hash) && m.headers.dom().contains(
                prev.hash,
            )) {
                None
            } else {
                let l = lca_height(m, best.hash, prev.hash);
                let depth = if prev.number >= l {
                    (prev.number - l) as BlockNumber
                } else {
                    0
                };
                if depth == 0 {
                    None
                } else {
                    Some(depth)
                }
            }
        },
    }
}

/// Measures the reorg, if any, between the previous best header and a newly
/// imported best header. Quits early when there is no change or the new best
/// is a child of the previous best; otherwise walks to the lowest common
/// ancestor and reports how many blocks of the previous best chain were
/// dropped, saturating at zero and treating a zero depth as no reorg.
pub fn detect_reorgs<B: ChainBackend>(
    backend: &B,
    previous_best: Option<Header>,
    best: Header,
) -> (r: Option<BlockNumber>)
    requires
        backend.wf(),
    ensures
        r == reorg_spec(backend.chain(), previous_best, best),
{
    let prev = match previous_best {
        Some(prev) => prev,
        None => {
            return None;
        },
    };
    if best.hash == prev.hash || best.parent_hash == prev.hash {
        // No change, or the best is a child of the previous best.
        return None;
    }
    let lca = match lowest_common_ancestor(backend, best.hash, prev.hash) {
        Some(lca) => lca,
        None => {
            return None;
        },
    };
    let depth = if prev.number >= lca.number {
        prev.number - lca.number
    } else {
        0
    };
    if depth == 0 {
        return None;
    }
    Some(depth)
}

/// The self-authored blocks whose heights have not been finalized yet, as
/// `(height, hash)` pairs in import order. The pairs form a set per height:
/// recording one is idempotent, so a pair lives at most once, from the first
/// import of an own block until its height is finalized.
pub type PendingOwn = Seq<(BlockNumber, BlockHash)>;

/// The pending own blocks form a set: no `(height, hash)` pair is recorded
/// twice.
pub open spec fn pending_wf(own: PendingOwn) -> bool {
    own.no_duplicates()
}

/// How many distinct pending own hashes at height `number` differ from the
/// finalized hash `hash`: the blocks that lost the fork race. Each hash
/// counts once, however often an entry for it appears.
pub open spec fn hopeless_count(own: PendingOwn, number: BlockNumber, hash: BlockHash) -> nat
    decreases own.len(),
{
    if own.len() == 0 {
        0
    } else {
        hopeless_count(own.drop_last(), number, hash) + if own.last().0 == number && own.last().1
            != hash && !own.drop_last().contains(own.last()) {
            1nat
        } else {
            0nat
        }
    }
}

/// The pending own blocks left after height `number` is finalized.
pub open spec fn retain_other_levels(own: PendingOwn, number: BlockNumber) -> PendingOwn
    decreases own.len(),
{
    if own.len() == 0 {
        own
    } else if own.last().0 == number {
        retain_other_levels(own.drop_last(), number)
    } else {
        retain_other_levels(own.drop_last(), number).push(own.last())
    }
}

/// Dropping a finalized height keeps only entries that were pending before.
proof fn lemma_retain_other_levels_subset(own: PendingOwn, number: BlockNumber)
    ensures
        forall|x: (BlockNumber, BlockHash)|
            #[trigger] retain_other_levels(own, number).contains(x) ==> own.contains(x),
    decreases own.len(),
{
    if own.len() > 0 {
        let tail = own.drop_last();
        lemma_retain_other_levels_subset(tail, number);
        assert forall|x: (BlockNumber, BlockHash)|
            #[trigger] retain_other_levels(own, number).contains(x) implies own.contains(x) by {
            let r = retain_other_levels(tail, number);
            if own.last().0 == number {
                assert(r.contains(x));
            } else {
                let k = choose|k: int|
                    0 <= k < r.push(own.last()).len() && r.push(own.last())[k] == x;
                if k < r.len() {
                    assert(r[k] == x);
                    assert(r.contains(x));
                } else {
                    assert(x == own.last());
                    assert(own[own.len() - 1] == x);
                }
            }
            if tail.contains(x) {
                let j = choose|j: int| 0 <= j < tail.len() && tail[j] == x;
                assert(own[j] == x);
            }
        }
    }
}

/// Dropping a finalized height keeps the pending own blocks a set.
proof fn lemma_retain_other_levels_no_duplicates(own: PendingOwn, number: BlockNumber)
    requires
        own.no_duplicates(),
    ensures
        retain_other_levels(own, number).no_duplicates(),
    decreases own.len(),
{
    if own.len() > 0 {
        let tail = own.drop_last();
        assert(tail.no_duplicates()) by {
            assert forall|k1: int, k2: int|
                0 <= k1 < tail.len() && 0 <= k2 < tail.len() && k1 != k2 implies tail[k1]
                != tail[k2] by {
                assert(own[k1] != own[k2]);
            }
        }
        lemma_retain_other_levels_no_duplicates(tail, number);
        if own.last().0 != number {
            let r = retain_other_levels(tail, number);
            assert(!tail.contains(own.last())) by {
                if tail.contains(own.last()) {
                    let j = choose|j: int| 0 <= j < tail.len() && tail[j] == own.last();
                    assert(own[j] == own[own.len() - 1]);
                }
            }
            lemma_retain_other_levels_subset(tail, number);
            assert(!r.contains(own.last()));
            let pushed = r.push(own.last());
            assert forall|k1: int, k2: int|
                0 <= k1 < pushed.len() && 0 <= k2 < pushed.len() && k1 != k2 implies pushed[k1]
                != pushed[k2] by {
                if k1 == r.len() as int {
                    if pushed[k2] == own.last() {
                        assert(r[k2] == own.last());
                        assert(r.contains(own.last()));
                    }
                } else if k2 == r.len() as int {
                    if pushed[k1] == own.last() {
                        assert(r[k1] == own.last());
                        assert(r.contains(own.last()));
                    }
                } else {
                    assert(r[k1] != r[k2]);
                }
            }
        }
    }
}

/// The metrics after `k` own-hopeless-block increments.
pub open spec fn inc_hopeless_times(m: ChainStateMetrics, k: nat) -> ChainStateMetrics
    decreases k,
{
    if k == 0 {
        m
    } else {
        after_hopeless(inc_hopeless_times(m, (k - 1) as nat))
    }
}

/// The tracker's whole state: the metrics readings, the previous best
/// header, and the pending own blocks.
pub struct TrackerState {
    pub metrics: ChainStateMetrics,
    pub previous_best: Option<Header>,
    pub own_pending: PendingOwn,
}

/// The tracker state after one import notification on chain `m`. Recording a
/// self-authored block is idempotent: a pair already pending is not recorded
/// again.
pub open spec fn import_transition(
    m: ChainModel,
    s: TrackerState,
    n: BlockImportNotification,
) -> TrackerState {
    let pair = (n.header.number, n.header.hash);
    let own1 = if n.origin == BlockOrigin::Own && !s.own_pending.contains(pair) {
        s.own_pending.push(pair)
    } else {
        s.own_pending
    };
    if n.is_new_best {
        let metrics1 = after_best(s.metrics, n.header.number);
        let metrics2 = match reorg_spec(m, s.previous_best, n.header) {
            Some(depth) => after_reorg(metrics1, depth),
            None => metrics1,
        };
        TrackerState { metrics: metrics2, previous_best: Some(n.header), own_pending: own1 }
    } else {
        TrackerState { metrics: s.metrics, previous_best: s.previous_best, own_pending: own1 }
    }
}

/// The tracker state after one finality notification: the top-finalized
/// gauge moves, the finalized height's pending entries leave, and every
/// distinct pending hash at that height other than the finalized one counts
/// as hopeless, exactly once.
pub open spec fn finality_transition(s: TrackerState, n: FinalityNotification) -> TrackerState {
    TrackerState {
        metrics: inc_hopeless_times(
            after_top_finalized(s.metrics, n.header.number),
            hopeless_count(s.own_pending, n.header.number, n.header.hash),
        ),
        previous_best: s.previous_best,
        own_pending: retain_other_levels(s.own_pending, n.header.number),
    }
}

/// The tracker state after one event, whichever stream it arrived on.
/// Uninteresting import notifications never reach the tracker.
pub open spec fn event_step(m: ChainModel, s: TrackerState, ev: ChainStateEvent) -> TrackerState {
    match ev {
        ChainStateEvent::Import(n) => if interesting_spec(n) {
            import_transition(m, s, n)
        } else {
            s
        },
        ChainStateEvent::Finality(n) => finality_transition(s, n),
    }
}

/// The tracker state after a whole sequence of events, in arrival order.
pub open spec fn run_spec(m: ChainModel, s: TrackerState, events: Seq<ChainStateEvent>) -> TrackerState
    decreases events.len(),
{
    if events.len() == 0 {
        s
    } else {
        event_step(m, run_spec(m, s, events.drop_last()), events.last())
    }
}

/// Consumes import and finality notifications and keeps the chain-state
/// metrics current.
pub struct ChainStateMetricsRunner {
    pub metrics: ChainStateMetrics,
    pub previous_best: Option<Header>,
    pub own_pending: Vec<(BlockNumber, BlockHash)>,
}

impl View for ChainStateMetricsRunner {
    type V = TrackerState;

    open spec fn view(&self) -> TrackerState {
        TrackerState {
            metrics: self.metrics,
            previous_best: self.previous_best,
            own_pending: self.own_pending@,
        }
    }
}

impl ChainStateMetricsRunner {
    /// The tracker's invariant: the pending own blocks form a set.
    pub open spec fn wf(&self) -> bool {
        pending_wf(self.own_pending@)
    }

    /// A fresh tracker: recording metrics when a registry is supplied,
    /// no-op metrics otherwise, no previous best, nothing pending.
    pub fn new(registry: Option<Registry>) -> (r: ChainStateMetricsRunner)
        ensures
            r.wf(),
            registry is Some ==> r@.metrics == (ChainStateMetrics::Recording {
                own_finalized_blocks: 0u64,
                own_hopeless_blocks: 0u64,
                top_finalized_block: 0u32,
                best_block: 0u32,
                reorgs: crate::metrics::ReorgHistogram {
                    le_1: 0,
                    le_2: 0,
                    le_3: 0,
                    le_5: 0,
                    le_10: 0,
                    observations: 0,
                    sum: 0,
                },
            }),
            registry is None ==> r@.metrics == ChainStateMetrics::Noop,
            r@.previous_best is None,
            r@.own_pending == Seq::<(BlockNumber, BlockHash)>::empty(),
    {
        ChainStateMetricsRunner {
            metrics: ChainStateMetrics::new(registry),
            previous_best: None,
            own_pending: Vec::new(),
        }
    }

    /// Whether a `(height, hash)` pair is already pending.
    fn is_pending(&self, number: BlockNumber, hash: BlockHash) -> (r: bool)
        ensures
            r == self.own_pending@.contains((number, hash)),
    {
        let ghost own = self.own_pending@;
        let mut i: usize = 0;
        while i < self.own_pending.len()
            invariant
                i <= own.len(),
                self.own_pending@ == own,
                forall|j: int| 0 <= j < i ==> own[j] != (number, hash),
            decreases own.len() - i,
        {
            let entry = self.own_pending[i];
            if entry.0 == number && entry.1 == hash {
                proof {
                    assert(own[i as int] == (number, hash));
                }
                return true;
            }
            i += 1;
        }
        proof {
            if own.contains((number, hash)) {
                let j = choose|j: int| 0 <= j < own.len() && own[j] == (number, hash);
                assert(own[j] != (number, hash));
            }
        }
        false
    }

    /// Handles one import notification: a self-authored block becomes
    /// pending at its height, idempotently; a new best moves the best-block
    /// gauge, runs reorg detection against the previous best, and becomes
    /// the previous best itself.
    pub fn handle_import<B: ChainBackend>(&mut self, backend: &B, notification: &BlockImportNotification)
        requires
            backend.wf(),
            old(self).wf(),
        ensures
            final(self)@ == import_transition(backend.chain(), old(self)@, *notification),
            final(self).wf(),
    {
        if notification.origin == BlockOrigin::Own {
            if !self.is_pending(notification.header.number, notification.header.hash) {
                let ghost prev = self.own_pending@;
                self.own_pending.push((notification.header.number, notification.header.hash));
                proof {
                    let pair = (notification.header.number, notification.header.hash);
                    assert(self.own_pending@ == prev.push(pair));
                    assert forall|k1: int, k2: int|
                        0 <= k1 < self.own_pending@.len() && 0 <= k2 < self.own_pending@.len()
                            && k1 != k2 implies self.own_pending@[k1] != self.own_pending@[k2] by {
                        if k1 == prev.len() as int {
                            if self.own_pending@[k2] == pair {
                                assert(prev[k2] == pair);
                                assert(prev.contains(pair));
                            }
                        } else if k2 == prev.len() as int {
                            if self.own_pending@[k1] == pair {
                                assert(prev[k1] == pair);
                                assert(prev.contains(pair));
                            }
                        } else {
                            assert(prev[k1] != prev[k2]);
                        }
                    }
                }
            }
        }
        if notification.is_new_best {
            self.metrics.update_best_block(notification.header.number);
            let previous_best = self.previous_best;
            match detect_reorgs(backend, previous_best, notification.header) {
                Some(depth) => self.metrics.report_reorg(depth),
                None => {},
            }
            self.previous_best = Some(notification.header);
        }
    }

    /// Handles one finality notification: moves the top-finalized gauge,
    /// drops the finalized height's pending entries, and counts every
    /// dropped hash other than the finalized one as hopeless, once each.
    pub fn handle_finality(&mut self, notification: &FinalityNotification)
        requires
            old(self).wf(),
        ensures
            final(self)@ == finality_transition(old(self)@, *notification),
            final(self).wf(),
    {
        let number = notification.header.number;
        let hash = notification.header.hash;
        self.metrics.update_top_finalized_block(number);
        let ghost own0 = self.own_pending@;
        let ghost metrics1 = self.metrics;
        let mut retained: Vec<(BlockNumber, BlockHash)> = Vec::new();
        let mut i: usize = 0;
        while i < self.own_pending.len()
            invariant
                i <= own0.len(),
                self.own_pending@ == own0,
                own0.no_duplicates(),
                retained@ == retain_other_levels(own0.take(i as int), number),
                self.metrics == inc_hopeless_times(
                    metrics1,
                    hopeless_count(own0.take(i as int), number, hash),
                ),
                self.previous_best == old(self).previous_best,
            decreases own0.len() - i,
        {
            let entry = self.own_pending[i];
            proof {
                assert(own0.take(i + 1).drop_last() =~= own0.take(i as int));
                assert(own0.take(i + 1).last() == entry);
                // The pairs form a set, so this entry cannot have appeared
                // already: it is counted at most once.
                if own0.take(i as int).contains(entry) {
                    let j = choose|j: int|
                        0 <= j < i && own0.take(i as int)[j] == entry;
                    assert(own0[j] == own0[i as int]);
                    assert(false);
                }
            }
            if entry.0 == number {
                if entry.1 != hash {
                    self.metrics.increment_own_hopeless_blocks();
                }
            } else {
                retained.push(entry);
            }
            i += 1;
        }
        proof {
            assert(own0.take(own0.len() as int) =~= own0);
            lemma_retain_other_levels_no_duplicates(own0, number);
        }
        self.own_pending = retained;
    }

    /// Runs the tracker over a sequence of events, in their arrival order.
    /// Import notifications that are neither new best nor self-authored are
    /// discarded before reaching the tracker.
    pub fn run_chain_state_metrics<B: ChainBackend>(
        &mut self,
        backend: &B,
        events: &Vec<ChainStateEvent>,
    )
        requires
            backend.wf(),
            old(self).wf(),
        ensures
            final(self)@ == run_spec(backend.chain(), old(self)@, events@),
            final(self).wf(),
    {
        let ghost s0 = self@;
        let ghost m = backend.chain();
        let mut i: usize = 0;
        while i < events.len()
            invariant
                backend.wf(),
                m == backend.chain(),
                i <= events@.len(),
                self.wf(),
                self@ == run_spec(m, s0, events@.take(i as int)),
            decreases events@.len() - i,
        {
            proof {
                assert(events@.take(i + 1).drop_last() =~= events@.take(i as int));
                assert(events@.take(i + 1).last() == events@[i as int]);
            }
            match &events[i] {
                ChainStateEvent::Import(notification) => {
                    if is_interesting(notification) {
                        self.handle_import(backend, notification);
                    }
                },
                ChainStateEvent::Finality(notification) => {
                    self.handle_finality(notification);
                },
            }
            i += 1;
        }
        proof {
            assert(events@.take(events@.len() as int) =~= events@);
        }
    }
}

/// Recording a pending own block is idempotent: a repeated import
/// notification for the same self-authored block leaves the tracker exactly
/// where the first one left it, so no block is ever pending twice and none
/// can be counted hopeless more than once.
pub proof fn lemma_duplicate_own_import_is_ignored(
    m: ChainModel,
    s: TrackerState,
    n: BlockImportNotification,
)
    requires
        n.origin == BlockOrigin::Own,
        !n.is_new_best,
    ensures
        import_transition(m, import_transition(m, s, n), n) == import_transition(m, s, n),
{
    let pair = (n.header.number, n.header.hash);
    let s1 = import_transition(m, s, n);
    if !s.own_pending.contains(pair) {
        assert(s1.own_pending == s.own_pending.push(pair));
        assert(s1.own_pending[s.own_pending.len() as int] == pair);
        assert(s1.own_pending.contains(pair));
    }
}

/// No reorg is signalled exactly when the new best is the previous best or
/// its direct child — and a signalled reorg is the positive number of blocks
/// dropped from the previous best chain down to the lowest common ancestor.
/// The inputs on which the previous best is a strict ancestor of the new
/// best more than one block above it are left out: there the depth
/// degenerates to zero and no reorg is signalled either.
pub proof fn lemma_reorg_characterization(m: ChainModel, prev: Header, best: Header)
    requires
        chain_wf(m),
        m.headers.dom().contains(prev.hash),
        m.headers[prev.hash] == prev,
        m.headers.dom().contains(best.hash),
        m.headers[best.hash] == best,
        crate::block::is_ancestor_or_self(m, prev.hash, best.hash) ==> (best.hash == prev.hash
            || best.parent_hash == prev.hash),
    ensures
        reorg_spec(m, Some(prev), best) is None <==> (best.hash == prev.hash || best.parent_hash
            == prev.hash),
        (reorg_spec(m, Some(prev), best) matches Some(depth) ==> depth == prev.number - lca_height(
            m,
            best.hash,
            prev.hash,
        ) && depth > 0),
{
    if !(best.hash == prev.hash || best.parent_hash == prev.hash) {
        crate::block::lemma_lca_equals_prev_iff_ancestor(m, best.hash, prev.hash);
        let l = lca_height(m, best.hash, prev.hash);
        assert(l <= prev.number);
        if l == prev.number {
            assert(crate::block::is_ancestor_or_self(m, prev.hash, best.hash));
            assert(false);
        }
    }
}

/// Without a configured registry, no event ever touches the metrics: the
/// tracker still runs, but its metrics stay the inert no-op strategy through
/// every transition.
pub proof fn lemma_noop_tracker_never_touches_metrics(
    m: ChainModel,
    s: TrackerState,
    ev: ChainStateEvent,
)
    requires
        s.metrics == ChainStateMetrics::Noop,
    ensures
        event_step(m, s, ev).metrics == ChainStateMetrics::Noop,
{
    match ev {
        ChainStateEvent::Import(n) => {},
        ChainStateEvent::Finality(n) => {
            lemma_inc_hopeless_times_noop(
                hopeless_count(s.own_pending, n.header.number, n.header.hash),
            );
        },
    }
}

/// Any number of hopeless increments leaves no-op metrics no-op.
proof fn lemma_inc_hopeless_times_noop(k: nat)
    ensures
        inc_hopeless_times(ChainStateMetrics::Noop, k) == ChainStateMetrics::Noop,
    decreases k,
{
    if k > 0 {
        lemma_inc_hopeless_times_noop((k - 1) as nat);
    }
}

} // verus!
