//! A verified in-memory chain backend.
//!
//! Holds headers, justifications, canonical-height entries and the two tips
//! as plain vectors, and implements the [`ChainBackend`] capability
//! interface against the abstract [`ChainModel`] it presents. It serves as
//! the injectable store for tests and for nodes that keep their chain in
//! memory.

use vstd::prelude::*;

use crate::backend::ChainBackend;
use crate::block::{chain_wf, BlockHash, BlockNumber, ChainInfo, ChainModel, Header};

verus! {

broadcast use vstd::map::group_map_axioms, vstd::seq::group_seq_axioms;

/// Some entry of `s` carries the header hash `h`.
pub open spec fn header_seq_has(s: Seq<Header>, h: BlockHash) -> bool {
    exists|i: int| 0 <= i < s.len() && s[i].hash == h
}

/// The position of the entry carrying hash `h`.
pub open spec fn header_seq_index(s: Seq<Header>, h: BlockHash) -> int {
    choose|i: int| 0 <= i < s.len() && s[i].hash == h
}

/// No two entries of `s` carry the same hash.
pub open spec fn header_seq_distinct(s: Seq<Header>) -> bool {
    forall|i: int, j: int| 0 <= i < j < s.len() ==> (#[trigger] s[i]).hash != (#[trigger] s[j]).hash
}

/// The headers of `s` as a map keyed by hash.
pub open spec fn header_map(s: Seq<Header>) -> Map<BlockHash, Header> {
    Map::new(|h: BlockHash| header_seq_has(s, h), |h: BlockHash| s[header_seq_index(s, h)])
}

/// Some entry of `s` carries the key `k`.
pub open spec fn assoc_has_key<K, V>(s: Seq<(K, V)>, k: K) -> bool {
    exists|i: int| 0 <= i < s.len() && (#[trigger] s[i]).0 == k
}

/// The position of the entry carrying key `k`.
pub open spec fn assoc_index<K, V>(s: Seq<(K, V)>, k: K) -> int {
    choose|i: int| 0 <= i < s.len() && (#[trigger] s[i]).0 == k
}

/// No two entries of `s` carry the same key.
pub open spec fn assoc_distinct<K, V>(s: Seq<(K, V)>) -> bool {
    forall|i: int, j: int| 0 <= i < j < s.len() ==> (#[trigger] s[i]).0 != (#[trigger] s[j]).0
}

/// Justification entries as a map from hash to raw bytes.
pub open spec fn justification_map(s: Seq<(BlockHash, Vec<u8>)>) -> Map<BlockHash, Seq<u8>> {
    Map::new(
        |k: BlockHash| assoc_has_key(s, k),
        |k: BlockHash| s[assoc_index(s, k)].1@,
    )
}

/// Canonical-height entries as a map from height to hash.
pub open spec fn canonical_map(s: Seq<(BlockNumber, BlockHash)>) -> Map<BlockNumber, BlockHash> {
    Map::new(
        |k: BlockNumber| assoc_has_key(s, k),
        |k: BlockNumber| s[assoc_index(s, k)].1,
    )
}

proof fn lemma_header_map_at(s: Seq<Header>, i: int)
    requires
        header_seq_distinct(s),
        0 <= i < s.len(),
    ensures
        header_map(s).dom().contains(s[i].hash),
        header_map(s)[s[i].hash] == s[i],
{
    let h = s[i].hash;
    assert(header_seq_has(s, h));
    let j = header_seq_index(s, h);
    if i != j {
        assert(s[i].hash != s[j].hash);
    }
}

proof fn lemma_header_map_push(s: Seq<Header>, hd: Header)
    requires
        header_seq_distinct(s),
        !header_seq_has(s, hd.hash),
    ensures
        header_map(s.push(hd)) == header_map(s).insert(hd.hash, hd),
        header_seq_distinct(s) ==> header_seq_distinct(s.push(hd)),
{
    let t = s.push(hd);
    assert forall|h: BlockHash| header_seq_has(t, h) <==> (header_seq_has(s, h) || h
        == hd.hash) by {
        if header_seq_has(t, h) {
            let i = header_seq_index(t, h);
            if i < s.len() {
                assert(s[i].hash == h);
            }
        }
        if header_seq_has(s, h) {
            let i = header_seq_index(s, h);
            assert(t[i].hash == h);
        }
        if h == hd.hash {
            assert(t[s.len() as int].hash == h);
        }
    }
    assert forall|h: BlockHash| #[trigger] header_seq_has(t, h) implies header_map(t)[h]
        == header_map(s).insert(hd.hash, hd)[h] by {
        let i = header_seq_index(t, h);
        assert(0 <= i < t.len() && t[i].hash == h);
        if h == hd.hash {
            assert(i == s.len()) by {
                if i < s.len() {
                    assert(s[i].hash == h);
                }
            }
            assert(header_map(t)[h] == hd);
        } else {
            assert(i < s.len());
            assert(s[i].hash == h);
            assert(header_seq_has(s, h));
            let j = header_seq_index(s, h);
            assert(0 <= j < s.len() && s[j].hash == h);
            if i != j {
                if i < j {
                    assert(s[i].hash != s[j].hash);
                } else {
                    assert(s[j].hash != s[i].hash);
                }
            }
            assert(header_map(t)[h] == t[i]);
            assert(t[i] == s[i]);
            assert(header_map(s)[h] == s[j]);
        }
    }
    assert(header_map(t) =~= header_map(s).insert(hd.hash, hd));
}

proof fn lemma_justification_map_push(s: Seq<(BlockHash, Vec<u8>)>, k: BlockHash, v: Vec<u8>)
    requires
        assoc_distinct(s),
        !assoc_has_key(s, k),
    ensures
        justification_map(s.push((k, v))) == justification_map(s).insert(k, v@),
        assoc_distinct(s) ==> assoc_distinct(s.push((k, v))),
{
    let t = s.push((k, v));
    assert forall|x: BlockHash| assoc_has_key(t, x) <==> (assoc_has_key(s, x) || x == k) by {
        if assoc_has_key(t, x) {
            let i = assoc_index(t, x);
            if i < s.len() {
                assert(s[i].0 == x);
            }
        }
        if assoc_has_key(s, x) {
            let i = assoc_index(s, x);
            assert(t[i].0 == x);
        }
        if x == k {
            assert(t[s.len() as int].0 == x);
        }
    }
    assert forall|x: BlockHash| #[trigger] assoc_has_key(t, x) implies justification_map(t)[x]
        == justification_map(s).insert(k, v@)[x] by {
        let i = assoc_index(t, x);
        assert(0 <= i < t.len() && t[i].0 == x);
        if x == k {
            assert(i == s.len()) by {
                if i < s.len() {
                    assert(s[i].0 == x);
                }
            }
        } else {
            assert(i < s.len());
            assert(s[i].0 == x);
            assert(assoc_has_key(s, x));
            let j = assoc_index(s, x);
            assert(0 <= j < s.len() && s[j].0 == x);
            if i != j {
                if i < j {
                    assert(s[i].0 != s[j].0);
                } else {
                    assert(s[j].0 != s[i].0);
                }
            }
        }
    }
    assert(justification_map(t) =~= justification_map(s).insert(k, v@));
}

proof fn lemma_canonical_map_push(s: Seq<(BlockNumber, BlockHash)>, k: BlockNumber, v: BlockHash)
    requires
        assoc_distinct(s),
        !assoc_has_key(s, k),
    ensures
        canonical_map(s.push((k, v))) == canonical_map(s).insert(k, v),
        assoc_distinct(s) ==> assoc_distinct(s.push((k, v))),
{
    let t = s.push((k, v));
    assert forall|x: BlockNumber| assoc_has_key(t, x) <==> (assoc_has_key(s, x) || x == k) by {
        if assoc_has_key(t, x) {
            let i = assoc_index(t, x);
            if i < s.len() {
                assert(s[i].0 == x);
            }
        }
        if assoc_has_key(s, x) {
            let i = assoc_index(s, x);
            assert(t[i].0 == x);
        }
        if x == k {
            assert(t[s.len() as int].0 == x);
        }
    }
    assert forall|x: BlockNumber| #[trigger] assoc_has_key(t, x) implies canonical_map(t)[x]
        == canonical_map(s).insert(k, v)[x] by {
        let i = assoc_index(t, x);
        assert(0 <= i < t.len() && t[i].0 == x);
        if x == k {
            assert(i == s.len()) by {
                if i < s.len() {
                    assert(s[i].0 == x);
                }
            }
        } else {
            assert(i < s.len());
            assert(s[i].0 == x);
            assert(assoc_has_key(s, x));
            let j = assoc_index(s, x);
            assert(0 <= j < s.len() && s[j].0 == x);
            if i != j {
                if i < j {
                    assert(s[i].0 != s[j].0);
                } else {
                    assert(s[j].0 != s[i].0);
                }
            }
        }
    }
    assert(canonical_map(t) =~= canonical_map(s).insert(k, v));
}

/// In-memory block store: headers, stored justifications, canonical entries
/// and the two tips.
pub struct InMemoryChain {
    headers: Vec<Header>,
    justifications: Vec<(BlockHash, Vec<u8>)>,
    canonical: Vec<(BlockNumber, BlockHash)>,
    genesis: BlockHash,
    best_hash: BlockHash,
    finalized_hash: BlockHash,
}

impl InMemoryChain {
    /// Creates a store holding only the genesis block, which is also the
    /// initial best and finalized tip.
    pub fn new(genesis: Header) -> (r: InMemoryChain)
        requires
            genesis.number == 0,
        ensures
            r.wf(),
            r.chain().headers == Map::<BlockHash, Header>::empty().insert(genesis.hash, genesis),
            r.chain().justifications == Map::<BlockHash, Seq<u8>>::empty(),
            r.chain().canonical == Map::<BlockNumber, BlockHash>::empty(),
            r.chain().genesis == genesis.hash,
            r.chain().best == genesis.hash,
            r.chain().finalized == genesis.hash,
    {
        let mut headers: Vec<Header> = Vec::new();
        headers.push(genesis);
        let r = InMemoryChain {
            headers,
            justifications: Vec::new(),
            canonical: Vec::new(),
            genesis: genesis.hash,
            best_hash: genesis.hash,
            finalized_hash: genesis.hash,
        };
        proof {
            assert(r.headers@ == Seq::<Header>::empty().push(genesis));
            assert forall|h: BlockHash| header_seq_has(r.headers@, h) implies h
                == genesis.hash && header_map(r.headers@)[h] == genesis by {
                let i = header_seq_index(r.headers@, h);
                assert(i == 0);
            }
            assert(header_seq_has(r.headers@, genesis.hash)) by {
                assert(r.headers@[0].hash == genesis.hash);
            }
            assert(header_map(r.headers@) =~= Map::<BlockHash, Header>::empty().insert(
                genesis.hash,
                genesis,
            ));
            assert(justification_map(r.justifications@) =~= Map::<BlockHash, Seq<u8>>::empty());
            assert(canonical_map(r.canonical@) =~= Map::<BlockNumber, BlockHash>::empty());
        }
        r
    }

    /// Adds an imported block. Its parent must already be known, one height
    /// below it, and its hash must be new.
    pub fn import(&mut self, header: Header)
        requires
            old(self).wf(),
            header.number > 0,
            old(self).chain().headers.dom().contains(header.parent_hash),
            old(self).chain().headers[header.parent_hash].number + 1 == header.number,
            !old(self).chain().headers.dom().contains(header.hash),
        ensures
            final(self).wf(),
            final(self).chain() == (ChainModel {
                headers: old(self).chain().headers.insert(header.hash, header),
                ..old(self).chain()
            }),
    {
        proof {
            lemma_header_map_push(self.headers@, header);
        }
        self.headers.push(header);
    }

    /// Stores the raw justification bytes for a known block.
    pub fn set_justification(&mut self, hash: BlockHash, raw_justification: Vec<u8>)
        requires
            old(self).wf(),
            old(self).chain().headers.dom().contains(hash),
            !old(self).chain().justifications.dom().contains(hash),
        ensures
            final(self).wf(),
            final(self).chain() == (ChainModel {
                justifications: old(self).chain().justifications.insert(hash, raw_justification@),
                ..old(self).chain()
            }),
    {
        proof {
            lemma_justification_map_push(self.justifications@, hash, raw_justification);
        }
        self.justifications.push((hash, raw_justification));
    }

    /// Records the canonical hash at a height; the hash must resolve to a
    /// header at exactly that height.
    pub fn set_canonical(&mut self, number: BlockNumber, hash: BlockHash)
        requires
            old(self).wf(),
            old(self).chain().headers.dom().contains(hash),
            old(self).chain().headers[hash].number == number,
            !old(self).chain().canonical.dom().contains(number),
        ensures
            final(self).wf(),
            final(self).chain() == (ChainModel {
                canonical: old(self).chain().canonical.insert(number, hash),
                ..old(self).chain()
            }),
    {
        proof {
            lemma_canonical_map_push(self.canonical@, number, hash);
        }
        self.canonical.push((number, hash));
    }

    /// Moves the best tip. The tip is not required to resolve: the status
    /// queries report an unresolvable tip as an error.
    pub fn set_best(&mut self, hash: BlockHash)
        requires
            old(self).wf(),
        ensures
            final(self).wf(),
            final(self).chain() == (ChainModel { best: hash, ..old(self).chain() }),
    {
        self.best_hash = hash;
    }

    /// Moves the finalized tip. The tip is not required to resolve.
    pub fn set_finalized(&mut self, hash: BlockHash)
        requires
            old(self).wf(),
        ensures
            final(self).wf(),
            final(self).chain() == (ChainModel { finalized: hash, ..old(self).chain() }),
    {
        self.finalized_hash = hash;
    }
}

impl ChainBackend for InMemoryChain {
    closed spec fn chain(&self) -> ChainModel {
        ChainModel {
            headers: header_map(self.headers@),
            justifications: justification_map(self.justifications@),
            canonical: canonical_map(self.canonical@),
            genesis: self.genesis,
            best: self.best_hash,
            finalized: self.finalized_hash,
        }
    }

    closed spec fn wf(&self) -> bool {
        &&& header_seq_distinct(self.headers@)
        &&& assoc_distinct(self.justifications@)
        &&& assoc_distinct(self.canonical@)
        &&& chain_wf(self.chain())
    }

    proof fn wf_implies_chain_wf(&self) {
    }

    fn header_for_hash(&self, hash: BlockHash) -> (r: Option<Header>) {
        let ghost s = self.headers@;
        let mut i: usize = 0;
        while i < self.headers.len()
            invariant
                self.headers@ == s,
                i <= s.len(),
                header_seq_distinct(s),
                forall|j: int| 0 <= j < i ==> (#[trigger] s[j]).hash != hash,
            decreases s.len() - i,
        {
            if self.headers[i].hash == hash {
                proof {
                    lemma_header_map_at(s, i as int);
                }
                return Some(self.headers[i]);
            }
            i += 1;
        }
        proof {
            if header_seq_has(s, hash) {
                let j = header_seq_index(s, hash);
                assert(s[j].hash == hash);
            }
        }
        None
    }

    fn hash_for_number(&self, number: BlockNumber) -> (r: Option<BlockHash>) {
        let ghost s = self.canonical@;
        let mut i: usize = 0;
        while i < self.canonical.len()
            invariant
                self.canonical@ == s,
                i <= s.len(),
                assoc_distinct(s),
                forall|j: int| 0 <= j < i ==> (#[trigger] s[j]).0 != number,
            decreases s.len() - i,
        {
            if self.canonical[i].0 == number {
                proof {
                    assert(assoc_has_key(s, number));
                    let j = assoc_index(s, number);
                    if j != i {
                        assert(s[j].0 == s[i as int].0);
                    }
                }
                return Some(self.canonical[i].1);
            }
            i += 1;
        }
        proof {
            if assoc_has_key(s, number) {
                let j = assoc_index(s, number);
                assert(s[j].0 == number);
            }
        }
        None
    }

    fn children_of(&self, hash: BlockHash) -> (r: Vec<BlockHash>) {
        let ghost s = self.headers@;
        let ghost m = self.chain();
        let mut out: Vec<BlockHash> = Vec::new();
        let mut i: usize = 0;
        while i < self.headers.len()
            invariant
                self.headers@ == s,
                m == self.chain(),
                i <= s.len(),
                header_seq_distinct(s),
                forall|h: BlockHash|
                    #[trigger] out@.contains(h) <==> exists|j: int|
                        0 <= j < i && (#[trigger] s[j]).hash == h && s[j].parent_hash == hash
                            && s[j].number > 0,
                out@.no_duplicates(),
            decreases s.len() - i,
        {
            let hd = self.headers[i];
            let ghost prev = out@;
            if hd.parent_hash == hash && hd.number > 0 {
                proof {
                    if prev.contains(hd.hash) {
                        let j = choose|j: int|
                            0 <= j < i && (#[trigger] s[j]).hash == hd.hash && s[j].parent_hash
                                == hash && s[j].number > 0;
                        assert(s[j].hash == s[i as int].hash);
                        assert(false);
                    }
                }
                out.push(hd.hash);
                proof {
                    assert(out@ == prev.push(hd.hash));
                    assert forall|h: BlockHash| #[trigger] out@.contains(h) implies exists|j: int|
                        0 <= j < i + 1 && (#[trigger] s[j]).hash == h && s[j].parent_hash == hash
                            && s[j].number > 0 by {
                        let k = choose|k: int| 0 <= k < out@.len() && out@[k] == h;
                        if k < prev.len() {
                            assert(prev[k] == h);
                            assert(prev.contains(h));
                        } else {
                            assert(h == hd.hash);
                            assert(s[i as int].hash == h && s[i as int].parent_hash == hash
                                && s[i as int].number > 0);
                        }
                    }
                    assert forall|h: BlockHash|
                        (exists|j: int|
                            0 <= j < i + 1 && (#[trigger] s[j]).hash == h && s[j].parent_hash
                                == hash && s[j].number > 0) implies #[trigger] out@.contains(
                        h,
                    ) by {
                        let j = choose|j: int|
                            0 <= j < i + 1 && (#[trigger] s[j]).hash == h && s[j].parent_hash
                                == hash && s[j].number > 0;
                        if j < i {
                            assert(prev.contains(h));
                            let k = choose|k: int| 0 <= k < prev.len() && prev[k] == h;
                            assert(out@[k] == h);
                        } else {
                            assert(out@[prev.len() as int] == h);
                        }
                    }
                    assert(out@.no_duplicates()) by {
                        assert forall|k1: int, k2: int|
                            0 <= k1 < k2 < out@.len() implies out@[k1] != out@[k2] by {
                            if k2 == prev.len() {
                                if out@[k1] == hd.hash {
                                    assert(prev[k1] == hd.hash);
                                    assert(prev.contains(hd.hash));
                                }
                            } else {
                                assert(prev[k1] == out@[k1] && prev[k2] == out@[k2]);
                            }
                        }
                    }
                }
            } else {
                proof {
                    assert forall|h: BlockHash|
                        (exists|j: int|
                            0 <= j < i + 1 && (#[trigger] s[j]).hash == h && s[j].parent_hash
                                == hash && s[j].number > 0) implies #[trigger] out@.contains(
                        h,
                    ) by {
                        let j = choose|j: int|
                            0 <= j < i + 1 && (#[trigger] s[j]).hash == h && s[j].parent_hash
                                == hash && s[j].number > 0;
                        assert(j < i);
                    }
                }
            }
            i += 1;
        }
        proof {
            assert forall|h: BlockHash| #[trigger] out@.contains(h) implies (
                m.headers.dom().contains(h) && m.headers[h].parent_hash == hash
                    && m.headers[h].number > 0) by {
                let j = choose|j: int|
                    0 <= j < s.len() && (#[trigger] s[j]).hash == h && s[j].parent_hash == hash
                        && s[j].number > 0;
                lemma_header_map_at(s, j);
            }
            assert forall|h: BlockHash|
                m.headers.dom().contains(h) && m.headers[h].parent_hash == hash
                    && m.headers[h].number > 0 implies #[trigger] out@.contains(h) by {
                let j = header_seq_index(s, h);
                lemma_header_map_at(s, j);
            }
        }
        out
    }

    fn justification_of(&self, hash: BlockHash) -> (r: Option<Vec<u8>>) {
        let ghost s = self.justifications@;
        let mut i: usize = 0;
        while i < self.justifications.len()
            invariant
                self.justifications@ == s,
                i <= s.len(),
                assoc_distinct(s),
                forall|j: int| 0 <= j < i ==> (#[trigger] s[j]).0 != hash,
            decreases s.len() - i,
        {
            if self.justifications[i].0 == hash {
                proof {
                    assert(assoc_has_key(s, hash));
                    let j = assoc_index(s, hash);
                    if j != i {
                        assert(s[j].0 == s[i as int].0);
                    }
                }
                let raw = self.justifications[i].1.clone();
                proof {
                    assert(raw@ == s[i as int].1@);
                }
                return Some(raw);
            }
            i += 1;
        }
        proof {
            if assoc_has_key(s, hash) {
                let j = assoc_index(s, hash);
                assert(s[j].0 == hash);
            }
        }
        None
    }

    fn chain_info(&self) -> (r: ChainInfo) {
        ChainInfo { best_hash: self.best_hash, finalized_hash: self.finalized_hash }
    }
}

} // verus!
