//! Chain-state metrics: counters, gauges, and a reorg-depth histogram.
//!
//! The metrics are a strategy selected once at construction: with a
//! configured registry every reading is recorded; without one every
//! operation is a no-op that never touches any state. Counters saturate at
//! their maximum rather than wrap.

use vstd::prelude::*;

use crate::block::BlockNumber;

verus! {

/// A handle standing for an attached observability registry. Constructing
/// [`ChainStateMetrics`] with one selects the recording strategy; the
/// recorded readings are then exported by whoever owns the registry.
#[derive(Clone, Copy, Debug, PartialEq, Eq, Structural)]
pub struct Registry {}

/// A histogram of reorg depths with the bucket boundaries 1, 2, 3, 5 and 10.
/// Each bucket counts the observations at most its boundary; `observations`
/// and `sum` count and add up every observation.
#[derive(Clone, Copy, Debug, PartialEq, Eq, Structural)]
pub struct ReorgHistogram {
    pub le_1: u64,
    pub le_2: u64,
    pub le_3: u64,
    pub le_5: u64,
    pub le_10: u64,
    pub observations: u64,
    pub sum: u64,
}

/// Chain-state metrics, either recording against a registry or doing
/// nothing.
#[derive(Clone, Copy, Debug, PartialEq, Eq, Structural)]
pub enum ChainStateMetrics {
    Recording {
        own_finalized_blocks: u64,
        own_hopeless_blocks: u64,
        top_finalized_block: BlockNumber,
        best_block: BlockNumber,
        reorgs: ReorgHistogram,
    },
    Noop,
}

/// `x + 1`, saturating at the maximum.
pub open spec fn sat_inc(x: u64) -> u64 {
    if x < u64::MAX {
        (x + 1) as u64
    } else {
        x
    }
}

/// `x + y`, saturating at the maximum.
pub open spec fn sat_add(x: u64, y: u64) -> u64 {
    if x + y <= u64::MAX {
        (x + y) as u64
    } else {
        u64::MAX
    }
}

/// A histogram after one more observation of `length`.
pub open spec fn observe_spec(h: ReorgHistogram, length: BlockNumber) -> ReorgHistogram {
    ReorgHistogram {
        le_1: if length <= 1 { sat_inc(h.le_1) } else { h.le_1 },
        le_2: if length <= 2 { sat_inc(h.le_2) } else { h.le_2 },
        le_3: if length <= 3 { sat_inc(h.le_3) } else { h.le_3 },
        le_5: if length <= 5 { sat_inc(h.le_5) } else { h.le_5 },
        le_10: if length <= 10 { sat_inc(h.le_10) } else { h.le_10 },
        observations: sat_inc(h.observations),
        sum: sat_add(h.sum, length as u64),
    }
}

/// The metrics after one own-hopeless-block increment.
pub open spec fn after_hopeless(m: ChainStateMetrics) -> ChainStateMetrics {
    match m {
        ChainStateMetrics::Noop => ChainStateMetrics::Noop,
        ChainStateMetrics::Recording {
            own_finalized_blocks,
            own_hopeless_blocks,
            top_finalized_block,
            best_block,
            reorgs,
        } => ChainStateMetrics::Recording {
            own_finalized_blocks,
            own_hopeless_blocks: sat_inc(own_hopeless_blocks),
            top_finalized_block,
            best_block,
            reorgs,
        },
    }
}

/// The metrics after the best-block gauge is set to `number`.
pub open spec fn after_best(m: ChainStateMetrics, number: BlockNumber) -> ChainStateMetrics {
    match m {
        ChainStateMetrics::Noop => ChainStateMetrics::Noop,
        ChainStateMetrics::Recording {
            own_finalized_blocks,
            own_hopeless_blocks,
            top_finalized_block,
            best_block,
            reorgs,
        } => ChainStateMetrics::Recording {
            own_finalized_blocks,
            own_hopeless_blocks,
            top_finalized_block,
            best_block: number,
            reorgs,
        },
    }
}

/// The metrics after the top-finalized gauge is set to `number`; each such
/// update also counts one finalized block.
pub open spec fn after_top_finalized(m: ChainStateMetrics, number: BlockNumber) -> ChainStateMetrics {
    match m {
        ChainStateMetrics::Noop => ChainStateMetrics::Noop,
        ChainStateMetrics::Recording {
            own_finalized_blocks,
            own_hopeless_blocks,
            top_finalized_block,
            best_block,
            reorgs,
        } => ChainStateMetrics::Recording {
            own_finalized_blocks: sat_inc(own_finalized_blocks),
            own_hopeless_blocks,
            top_finalized_block: number,
            best_block,
            reorgs,
        },
    }
}

/// The metrics after one reorg of depth `length` is recorded.
pub open spec fn after_reorg(m: ChainStateMetrics, length: BlockNumber) -> ChainStateMetrics {
    match m {
        ChainStateMetrics::Noop => ChainStateMetrics::Noop,
        ChainStateMetrics::Recording {
            own_finalized_blocks,
            own_hopeless_blocks,
            top_finalized_block,
            best_block,
            reorgs,
        } => ChainStateMetrics::Recording {
            own_finalized_blocks,
            own_hopeless_blocks,
            top_finalized_block,
            best_block,
            reorgs: observe_spec(reorgs, length),
        },
    }
}

impl ReorgHistogram {
    /// An empty histogram.
    pub fn empty() -> (r: ReorgHistogram)
        ensures
            r == (ReorgHistogram {
                le_1: 0,
                le_2: 0,
                le_3: 0,
                le_5: 0,
                le_10: 0,
                observations: 0,
                sum: 0,
            }),
    {
        ReorgHistogram { le_1: 0, le_2: 0, le_3: 0, le_5: 0, le_10: 0, observations: 0, sum: 0 }
    }
}

/// `x + 1`, saturating, executable.
fn sat_inc_exec(x: u64) -> (r: u64)
    ensures
        r == sat_inc(x),
{
    if x < u64::MAX {
        x + 1
    } else {
        x
    }
}

impl ChainStateMetrics {
    /// Recording metrics when a registry is supplied, no-op metrics
    /// otherwise.
    pub fn new(registry: Option<Registry>) -> (r: ChainStateMetrics)
        ensures
            registry is Some ==> r == (ChainStateMetrics::Recording {
                own_finalized_blocks: 0u64,
                own_hopeless_blocks: 0u64,
                top_finalized_block: 0u32,
                best_block: 0u32,
                reorgs: ReorgHistogram {
                    le_1: 0,
                    le_2: 0,
                    le_3: 0,
                    le_5: 0,
                    le_10: 0,
                    observations: 0,
                    sum: 0,
                },
            }),
            registry is None ==> r == ChainStateMetrics::Noop,
    {
        match registry {
            Some(_) => ChainStateMetrics::Recording {
                own_finalized_blocks: 0,
                own_hopeless_blocks: 0,
                top_finalized_block: 0,
                best_block: 0,
                reorgs: ReorgHistogram::empty(),
            },
            None => ChainStateMetrics::Noop,
        }
    }

    /// Metrics that do nothing.
    pub fn noop() -> (r: ChainStateMetrics)
        ensures
            r == ChainStateMetrics::Noop,
    {
        ChainStateMetrics::Noop
    }

    /// Counts one self-authored block whose height was finalized with a
    /// different hash.
    pub fn increment_own_hopeless_blocks(&mut self)
        ensures
            *final(self) == after_hopeless(*old(self)),
    {
        match self {
            ChainStateMetrics::Recording { own_hopeless_blocks, .. } => {
                *own_hopeless_blocks = sat_inc_exec(*own_hopeless_blocks);
            },
            ChainStateMetrics::Noop => {},
        }
    }

    /// Sets the best-block gauge.
    pub fn update_best_block(&mut self, number: BlockNumber)
        ensures
            *final(self) == after_best(*old(self), number),
    {
        match self {
            ChainStateMetrics::Recording { best_block, .. } => {
                *best_block = number;
            },
            ChainStateMetrics::Noop => {},
        }
    }

    /// Sets the top-finalized gauge and counts one finalized block.
    pub fn update_top_finalized_block(&mut self, number: BlockNumber)
        ensures
            *final(self) == after_top_finalized(*old(self), number),
    {
        match self {
            ChainStateMetrics::Recording {
                top_finalized_block,
                own_finalized_blocks,
                ..
            } => {
                *top_finalized_block = number;
                *own_finalized_blocks = sat_inc_exec(*own_finalized_blocks);
            },
            ChainStateMetrics::Noop => {},
        }
    }

    /// Records one reorg-depth sample.
    pub fn report_reorg(&mut self, length: BlockNumber)
        ensures
            *final(self) == after_reorg(*old(self), length),
    {
        match self {
            ChainStateMetrics::Recording { reorgs, .. } => {
                if length <= 1 {
                    reorgs.le_1 = sat_inc_exec(reorgs.le_1);
                }
                if length <= 2 {
                    reorgs.le_2 = sat_inc_exec(reorgs.le_2);
                }
                if length <= 3 {
                    reorgs.le_3 = sat_inc_exec(reorgs.le_3);
                }
                if length <= 5 {
                    reorgs.le_5 = sat_inc_exec(reorgs.le_5);
                }
                if length <= 10 {
                    reorgs.le_10 = sat_inc_exec(reorgs.le_10);
                }
                reorgs.observations = sat_inc_exec(reorgs.observations);
                let add = length as u64;
                if reorgs.sum <= u64::MAX - add {
                    reorgs.sum = reorgs.sum + add;
                } else {
                    reorgs.sum = u64::MAX;
                }
            },
            ChainStateMetrics::Noop => {},
        }
    }
}

/// Without a configured registry every metrics operation is a no-op: it
/// leaves the metrics exactly as they were, whatever the operation and its
/// argument.
pub proof fn lemma_noop_metrics_are_inert(number: BlockNumber, length: BlockNumber)
    ensures
        after_hopeless(ChainStateMetrics::Noop) == ChainStateMetrics::Noop,
        after_best(ChainStateMetrics::Noop, number) == ChainStateMetrics::Noop,
        after_top_finalized(ChainStateMetrics::Noop, number) == ChainStateMetrics::Noop,
        after_reorg(ChainStateMetrics::Noop, length) == ChainStateMetrics::Noop,
{
}

} // verus!
