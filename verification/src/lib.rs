//! Subscribing to a stream of blockchain block headers and turning it into a
//! reliable sequence of `Connected` / `Disconnected` events.
//!
//! The heart of the crate is [`BlockHeadersCache`]: an in-memory picture of the
//! chain the consumer currently believes in. Each announced candidate header is
//! either accepted as a linear extension of the active chain, or resolved as a
//! fork: the cache rolls its active chain back to the common ancestor and then
//! applies the candidate's branch, emitting `Disconnected` events (newest
//! first) followed by `Connected` events (oldest first).

use vstd::prelude::*;

pub mod api;
pub mod backfill;
pub mod laws;
pub mod messages;

use api::header_of;
use api::BlockEvent;
use api::BlockExtended;
use api::BlockHash;
use api::BlockHeader;

verus! {

/// The chain of headers currently believed active, ordered oldest to newest:
/// each header's `prev_blockhash` is the `id` of the one before it.
pub open spec fn chain_linked(chain: Seq<BlockExtended>) -> bool {
    forall|i: int|
        1 <= i < chain.len() ==> #[trigger] chain[i].prev_blockhash == chain[i - 1].id
}

/// A fork branch, ordered newest first (the announced candidate ahead of its
/// fetched ancestors): each header is the parent of the one before it.
pub open spec fn fork_linked(fork: Seq<BlockExtended>) -> bool {
    forall|i: int| 1 <= i < fork.len() ==> #[trigger] fork[i].id == fork[i - 1].prev_blockhash
}

/// Whether some header of `chain` has the identity `id`.
pub open spec fn has_id(chain: Seq<BlockExtended>, id: BlockHash) -> bool {
    exists|i: int| 0 <= i < chain.len() && (#[trigger] chain[i]).id == id
}

/// The headers that rolling the chain back to the header with identity `id`
/// removes: the suffix strictly above that header, ordered newest first.
pub open spec fn removed_suffix(chain: Seq<BlockExtended>, id: BlockHash) -> Seq<BlockExtended>
    decreases chain.len(),
{
    if chain.len() == 0 || chain.last().id == id {
        Seq::empty()
    } else {
        seq![chain.last()] + removed_suffix(chain.drop_last(), id)
    }
}

/// The part of the chain that rolling back to the header with identity `id`
/// keeps: the prefix up to and including that header.
pub open spec fn retained_prefix(chain: Seq<BlockExtended>, id: BlockHash) -> Seq<BlockExtended>
    decreases chain.len(),
{
    if chain.len() == 0 || chain.last().id == id {
        chain
    } else {
        retained_prefix(chain.drop_last(), id)
    }
}

/// In-memory cache of the fetched and announced headers.
///
/// `active_headers` is the chain currently believed canonical, ordered oldest
/// to newest; `stale_headers` collects headers displaced by reorganizations.
/// It exists to resolve reorganization events into connected and disconnected
/// events.
#[derive(Debug, Clone)]
pub struct BlockHeadersCache {
    pub tip: BlockHash,
    pub active_headers: Vec<BlockExtended>,
    pub stale_headers: Vec<BlockExtended>,
}

impl BlockHeadersCache {
    /// The internal consistency the cache keeps at all times: the active chain
    /// is linked by parent ids, and `tip` is the id of its newest header
    /// (when the chain is still empty, `tip` is the seed the cache was
    /// created with).
    pub open spec fn well_formed(self) -> bool {
        &&& chain_linked(self.active_headers@)
        &&& self.active_headers@.len() > 0 ==> self.active_headers@.last().id == self.tip
    }

    /// A fresh cache, seeded with the tip the block data provider reported.
    pub fn new(seed_tip: BlockHash) -> (cache: BlockHeadersCache)
        ensures
            cache.tip == seed_tip,
            cache.active_headers@ == Seq::<BlockExtended>::empty(),
            cache.stale_headers@ == Seq::<BlockExtended>::empty(),
            cache.well_formed(),
    {
        BlockHeadersCache { tip: seed_tip, active_headers: Vec::new(), stale_headers: Vec::new() }
    }

    /// Whether a header with identity `id` is part of the active chain.
    pub fn contains_active(&self, id: BlockHash) -> (r: bool)
        ensures
            r == has_id(self.active_headers@, id),
    {
        let n = self.active_headers.len();
        let mut i: usize = 0;
        while i < n
            invariant
                0 <= i <= n,
                n == self.active_headers@.len(),
                forall|j: int| 0 <= j < i ==> (#[trigger] self.active_headers@[j]).id != id,
            decreases n - i,
        {
            if self.active_headers[i].id == id {
                return true;
            }
            i = i + 1;
        }
        false
    }

    /// Validate whether the candidate is a valid new tip: if its parent is the
    /// current tip, it is appended to the active chain and becomes the new
    /// tip; otherwise the cache is left untouched.
    pub fn validate_new_header(&mut self, candidate: BlockExtended) -> (accepted: bool)
        requires
            old(self).well_formed(),
        ensures
            final(self).well_formed(),
            accepted == (candidate.prev_blockhash == old(self).tip),
            accepted ==> {
                &&& final(self).tip == candidate.id
                &&& final(self).active_headers@ == old(self).active_headers@.push(candidate)
                &&& final(self).stale_headers@ == old(self).stale_headers@
            },
            !accepted ==> *final(self) == *old(self),
    {
        if self.tip == candidate.prev_blockhash {
            self.tip = candidate.id;
            self.active_headers.push(candidate);
            return true;
        }
        false
    }

    /// Roll the active chain back to the given block: every header above it is
    /// removed from the active chain and recorded stale. The removed headers
    /// are returned newest first, the order in which the caller must emit
    /// `Disconnected` events, since the most recently connected block must be
    /// disconnected before its parent.
    pub fn rollback_active_chain(&mut self, block: BlockExtended) -> (disconnected: Vec<
        BlockExtended,
    >)
        requires
            old(self).well_formed(),
            block.id == old(self).tip || has_id(old(self).active_headers@, block.id),
        ensures
            final(self).well_formed(),
            final(self).tip == block.id,
            disconnected@ == removed_suffix(old(self).active_headers@, block.id),
            final(self).active_headers@ == retained_prefix(old(self).active_headers@, block.id),
            final(self).stale_headers@ == old(self).stale_headers@ + disconnected@,
    {
        let ghost orig = old(self).active_headers@;
        let mut disconnected: Vec<BlockExtended> = Vec::new();
        while self.tip != block.id
            invariant
                self.well_formed(),
                block.id == self.tip || has_id(self.active_headers@, block.id),
                removed_suffix(orig, block.id) == disconnected@ + removed_suffix(
                    self.active_headers@,
                    block.id,
                ),
                retained_prefix(orig, block.id) == retained_prefix(
                    self.active_headers@,
                    block.id,
                ),
                self.stale_headers@ == old(self).stale_headers@ + disconnected@,
            decreases self.active_headers@.len(),
        {
            let ghost cur = self.active_headers@;
            let ghost disc = disconnected@;
            proof {
                if cur.len() == 0 {
                    assert(!has_id(cur, block.id));
                }
            }
            let stale_header = self.active_headers.pop().unwrap();
            disconnected.push(stale_header);
            self.stale_headers.push(stale_header);
            self.tip = stale_header.prev_blockhash;
            proof {
                let next = self.active_headers@;
                assert(next == cur.drop_last());
                assert(removed_suffix(cur, block.id) =~= seq![cur.last()] + removed_suffix(
                    next,
                    block.id,
                ));
                assert(disconnected@ =~= disc + seq![cur.last()]);
                assert(disc + (seq![cur.last()] + removed_suffix(next, block.id)) =~= (disc
                    + seq![cur.last()]) + removed_suffix(next, block.id));
                assert(self.stale_headers@ =~= old(self).stale_headers@ + disconnected@);
                if next.len() > 0 {
                    assert(cur[cur.len() - 1].prev_blockhash == cur[cur.len() - 2].id);
                    assert(next.last().id == self.tip);
                }
                if self.tip != block.id {
                    let i = choose|i: int|
                        0 <= i < cur.len() && (#[trigger] cur[i]).id == block.id;
                    assert(cur[i] == next[i]);
                    assert(has_id(next, block.id));
                }
            }
        }
        disconnected
    }

    /// Apply a fork branch (ordered newest first) to the active chain: the
    /// branch is connected oldest first, so that every `Connected` event comes
    /// after the one for its parent, and the branch's newest header becomes
    /// the tip. Returns the new tip and the connected headers, oldest first.
    pub fn apply_fork_chain(&mut self, fork_branch: Vec<BlockExtended>) -> (r: (
        BlockHash,
        Vec<BlockExtended>,
    ))
        requires
            old(self).well_formed(),
            fork_linked(fork_branch@),
            fork_branch@.len() > 0 ==> fork_branch@.last().prev_blockhash == old(self).tip,
        ensures
            final(self).well_formed(),
            r.1@ == fork_branch@.reverse(),
            final(self).active_headers@ == old(self).active_headers@ + fork_branch@.reverse(),
            final(self).tip == if fork_branch@.len() > 0 {
                fork_branch@[0].id
            } else {
                old(self).tip
            },
            r.0 == final(self).tip,
            final(self).stale_headers@ == old(self).stale_headers@,
    {
        let ghost fork0 = fork_branch@;
        let mut fork_branch = fork_branch;
        let mut connected: Vec<BlockExtended> = Vec::new();
        proof {
            assert(fork0 =~= fork_branch@ + connected@.reverse());
        }
        while fork_branch.len() > 0
            invariant
                self.well_formed(),
                fork0 == fork_branch@ + connected@.reverse(),
                self.active_headers@ == old(self).active_headers@ + connected@,
                self.tip == if connected@.len() > 0 {
                    connected@.last().id
                } else {
                    old(self).tip
                },
                self.stale_headers@ == old(self).stale_headers@,
                fork_linked(fork0),
                fork0.len() > 0 ==> fork0.last().prev_blockhash == old(self).tip,
            decreases fork_branch@.len(),
        {
            let ghost k0 = fork_branch@.len() as int;
            let ghost conn0 = connected@;
            let ghost act0 = self.active_headers@;
            let ghost tip0 = self.tip;
            let block = fork_branch.pop().unwrap();
            connected.push(block);
            self.active_headers.push(block);
            self.tip = block.id;
            proof {
                assert(block == fork0[k0 - 1]);
                assert(connected@.reverse() =~= seq![block] + conn0.reverse());
                assert(fork_branch@ + connected@.reverse() =~= fork0);
                if conn0.len() > 0 {
                    assert(fork0[k0] == conn0.reverse()[0]);
                    assert(conn0.reverse()[0] == conn0.last());
                    assert(fork0[k0].id == fork0[k0 - 1].prev_blockhash);
                } else {
                    assert(fork0.last() == fork0[k0 - 1]);
                }
                assert(block.prev_blockhash == tip0);
                let act = self.active_headers@;
                assert forall|i: int| 1 <= i < act.len() implies (#[trigger] act[i]).prev_blockhash
                    == act[i - 1].id by {
                    if i < act0.len() {
                        assert(act0[i].prev_blockhash == act0[i - 1].id);
                    } else {
                        assert(act0.len() > 0 ==> act0.last().id == tip0);
                    }
                }
            }
        }
        proof {
            assert(connected@ =~= fork0.reverse());
            if fork0.len() > 0 {
                assert(fork0[0] == connected@.reverse()[0]);
                assert(connected@.last() == fork0[0]);
            }
        }
        (self.tip, connected)
    }

    /// Resolve a fork against the active chain, once the common ancestor is
    /// known: first roll the active chain back to the ancestor, then apply the
    /// fork branch (ordered newest first), and return the events in emission
    /// order — every `Disconnected` of the displaced branch, newest first,
    /// followed by every `Connected` of the new branch, oldest first.
    pub fn resolve_fork(&mut self, common_ancestor: BlockExtended, fork_chain: Vec<BlockExtended>)
        -> (events: Vec<BlockEvent<BlockHeader>>)
        requires
            old(self).well_formed(),
            common_ancestor.id == old(self).tip || has_id(
                old(self).active_headers@,
                common_ancestor.id,
            ),
            fork_linked(fork_chain@),
            fork_chain@.len() > 0 ==> fork_chain@.last().prev_blockhash == common_ancestor.id,
        ensures
            final(self).well_formed(),
            events@ == disconnected_events(
                removed_suffix(old(self).active_headers@, common_ancestor.id),
            ) + connected_events(fork_chain@.reverse()),
            final(self).active_headers@ == retained_prefix(
                old(self).active_headers@,
                common_ancestor.id,
            ) + fork_chain@.reverse(),
            final(self).stale_headers@ == old(self).stale_headers@ + removed_suffix(
                old(self).active_headers@,
                common_ancestor.id,
            ),
            final(self).tip == if fork_chain@.len() > 0 {
                fork_chain@[0].id
            } else {
                common_ancestor.id
            },
    {
        let disconnected = self.rollback_active_chain(common_ancestor);
        let mut events: Vec<BlockEvent<BlockHeader>> = Vec::new();
        let n = disconnected.len();
        let mut i: usize = 0;
        while i < n
            invariant
                0 <= i <= n,
                n == disconnected@.len(),
                events@ =~= disconnected_events(disconnected@.take(i as int)),
            decreases n - i,
        {
            let block = disconnected[i];
            events.push(BlockEvent::Disconnected(block.height, block.id));
            proof {
                assert(disconnected@.take(i + 1).drop_last() =~= disconnected@.take(i as int));
                assert(events@ =~= disconnected_events(disconnected@.take(i + 1)));
            }
            i = i + 1;
        }
        proof {
            assert(disconnected@.take(n as int) =~= disconnected@);
        }
        let (_, connected) = self.apply_fork_chain(fork_chain);
        let m = connected.len();
        let mut j: usize = 0;
        while j < m
            invariant
                0 <= j <= m,
                m == connected@.len(),
                events@ =~= disconnected_events(disconnected@) + connected_events(
                    connected@.take(j as int),
                ),
            decreases m - j,
        {
            let block = connected[j];
            events.push(BlockEvent::Connected(BlockHeader::from(block)));
            proof {
                assert(connected@.take(j + 1).drop_last() =~= connected@.take(j as int));
                assert(events@ =~= disconnected_events(disconnected@) + connected_events(
                    connected@.take(j + 1),
                ));
            }
            j = j + 1;
        }
        proof {
            assert(connected@.take(m as int) =~= connected@);
        }
        events
    }
}

/// The events the engine emits when a chain of blocks is connected, in the
/// order of the chain itself.
pub open spec fn connected_events(blocks: Seq<BlockExtended>) -> Seq<BlockEvent<BlockHeader>> {
    blocks.map_values(|b: BlockExtended| BlockEvent::Connected(header_of(b)))
}

/// The events the engine emits when a chain of blocks is disconnected, in the
/// order given.
pub open spec fn disconnected_events(blocks: Seq<BlockExtended>) -> Seq<BlockEvent<BlockHeader>> {
    blocks.map_values(|b: BlockExtended| BlockEvent::Disconnected(b.height, b.id))
}

/// The state of an in-progress search for the common ancestor of the active
/// chain and a fork candidate's lineage: the branch walked so far, newest
/// first, and the identity of the parent that still has to be fetched from
/// the block data provider.
#[derive(Debug, Clone)]
pub struct AncestorSearch {
    /// The identity whose header the provider is being asked for.
    pub awaited: BlockHash,
    /// The fork branch accumulated in visited order, newest first: the
    /// original candidate, then each fetched ancestor.
    pub fork_branch: Vec<BlockExtended>,
}

/// What a well-formed ancestor search looks like: a non-empty branch, each
/// header the parent of the one before it, awaiting the oldest one's parent.
pub open spec fn search_wf(search: AncestorSearch) -> bool {
    &&& search.fork_branch@.len() > 0
    &&& fork_linked(search.fork_branch@)
    &&& search.fork_branch@.last().prev_blockhash == search.awaited
}

/// The engine's answer to one candidate, or to one fetched ancestor: either
/// the events the candidate resolved into, or a request to fetch one more
/// ancestor header before resolution can go on.
#[derive(Debug, Clone)]
pub enum CandidateStep {
    /// The candidate is fully resolved; emit these events, in order.
    Events(Vec<BlockEvent<BlockHeader>>),
    /// The common ancestor is not in the active chain yet: fetch the header
    /// with identity `awaited` and hand it back to `process_fetched`.
    Fetch(AncestorSearch),
}

impl BlockHeadersCache {
    /// Feed one announced candidate to the cache. If it extends the current
    /// tip it is connected at once; if its identity is already active, the
    /// chain above it is disconnected; otherwise its lineage must be walked
    /// back through the provider, one fetch per step, until a header already
    /// in the active chain is found.
    pub fn process_candidate(&mut self, candidate: BlockExtended) -> (step: CandidateStep)
        requires
            old(self).well_formed(),
        ensures
            final(self).well_formed(),
            candidate.prev_blockhash == old(self).tip ==> {
                &&& step matches CandidateStep::Events(events) && events@ == seq![
                    BlockEvent::Connected(header_of(candidate)),
                ] && crate::laws::run_of(*final(self), events@) == crate::laws::linear_step(
                    crate::laws::run_of(*old(self), Seq::empty()),
                    candidate,
                )
                &&& final(self).tip == candidate.id
                &&& final(self).active_headers@ == old(self).active_headers@.push(candidate)
                &&& final(self).stale_headers@ == old(self).stale_headers@
            },
            candidate.prev_blockhash != old(self).tip && has_id(
                old(self).active_headers@,
                candidate.id,
            ) ==> {
                &&& step matches CandidateStep::Events(events) && events@ == disconnected_events(
                    removed_suffix(old(self).active_headers@, candidate.id),
                )
                &&& final(self).tip == candidate.id
                &&& final(self).active_headers@ == retained_prefix(
                    old(self).active_headers@,
                    candidate.id,
                )
                &&& final(self).stale_headers@ == old(self).stale_headers@ + removed_suffix(
                    old(self).active_headers@,
                    candidate.id,
                )
            },
            candidate.prev_blockhash != old(self).tip && !has_id(
                old(self).active_headers@,
                candidate.id,
            ) ==> {
                &&& step matches CandidateStep::Fetch(search) && search.awaited
                    == candidate.prev_blockhash && search.fork_branch@ == seq![candidate]
                    && search_wf(search)
                &&& *final(self) == *old(self)
            },
    {
        if self.validate_new_header(candidate) {
            let mut events: Vec<BlockEvent<BlockHeader>> = Vec::new();
            events.push(BlockEvent::Connected(BlockHeader::from(candidate)));
            proof {
                assert(events@ =~= seq![BlockEvent::Connected(header_of(candidate))]);
                assert(Seq::<BlockEvent<BlockHeader>>::empty().push(
                    BlockEvent::Connected(header_of(candidate)),
                ) =~= events@);
            }
            return CandidateStep::Events(events);
        }
        if self.contains_active(candidate.id) {
            let events = self.resolve_fork(candidate, Vec::new());
            proof {
                assert(Seq::<BlockExtended>::empty().reverse() =~= Seq::<BlockExtended>::empty());
                assert(connected_events(Seq::<BlockExtended>::empty()) =~= Seq::<
                    BlockEvent<BlockHeader>,
                >::empty());
                assert(events@ =~= disconnected_events(
                    removed_suffix(old(self).active_headers@, candidate.id),
                ));
            }
            return CandidateStep::Events(events);
        }
        let mut fork_branch: Vec<BlockExtended> = Vec::new();
        fork_branch.push(candidate);
        proof {
            assert(fork_branch@ =~= seq![candidate]);
        }
        CandidateStep::Fetch(AncestorSearch { awaited: candidate.prev_blockhash, fork_branch })
    }

    /// Feed the ancestor search one header fetched from the provider: the
    /// header whose identity the search was awaiting. If that header is
    /// already part of the active chain it is the common ancestor and the
    /// fork resolves; otherwise the walk goes one parent further back.
    pub fn process_fetched(&mut self, search: AncestorSearch, fetched: BlockExtended) -> (step:
        CandidateStep)
        requires
            old(self).well_formed(),
            search_wf(search),
            fetched.id == search.awaited,
        ensures
            final(self).well_formed(),
            has_id(old(self).active_headers@, fetched.id) ==> {
                &&& step matches CandidateStep::Events(events) && events@ == disconnected_events(
                    removed_suffix(old(self).active_headers@, fetched.id),
                ) + connected_events(search.fork_branch@.reverse())
                &&& final(self).tip == search.fork_branch@[0].id
                &&& final(self).active_headers@ == retained_prefix(
                    old(self).active_headers@,
                    fetched.id,
                ) + search.fork_branch@.reverse()
                &&& final(self).stale_headers@ == old(self).stale_headers@ + removed_suffix(
                    old(self).active_headers@,
                    fetched.id,
                )
            },
            !has_id(old(self).active_headers@, fetched.id) ==> {
                &&& step matches CandidateStep::Fetch(next) && next.awaited
                    == fetched.prev_blockhash && next.fork_branch@ == search.fork_branch@.push(
                    fetched,
                ) && search_wf(next)
                &&& *final(self) == *old(self)
            },
    {
        if self.contains_active(fetched.id) {
            let events = self.resolve_fork(fetched, search.fork_branch);
            return CandidateStep::Events(events);
        }
        let mut fork_branch = search.fork_branch;
        fork_branch.push(fetched);
        CandidateStep::Fetch(AncestorSearch { awaited: fetched.prev_blockhash, fork_branch })
    }
}

} // verus!
