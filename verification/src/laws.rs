//! The ordering laws of the reconciliation engine, stated over a ghost
//! picture of an engine run and proved once and for all.

use vstd::prelude::*;

use crate::api::header_of;
use crate::api::BlockEvent;
use crate::api::BlockExtended;
use crate::api::BlockHash;
use crate::api::BlockHeader;
use crate::chain_linked;
use crate::connected_events;
use crate::disconnected_events;
use crate::fork_linked;
use crate::removed_suffix;
use crate::retained_prefix;

verus! {

/// A ghost picture of one engine run: the tip and active chain of the cache,
/// and the events emitted so far.
pub struct EngineRun {
    pub tip: BlockHash,
    pub chain: Seq<BlockExtended>,
    pub events: Seq<BlockEvent<BlockHeader>>,
}

/// The cache consistency of a run, as `BlockHeadersCache::well_formed` keeps
/// it: a linked chain whose newest header, if any, is the tip.
pub open spec fn run_wf(run: EngineRun) -> bool {
    &&& chain_linked(run.chain)
    &&& run.chain.len() > 0 ==> run.chain.last().id == run.tip
}

/// The ghost picture of a cache together with the events emitted so far.
pub open spec fn run_of(
    cache: crate::BlockHeadersCache,
    events: Seq<BlockEvent<BlockHeader>>,
) -> EngineRun {
    EngineRun { tip: cache.tip, chain: cache.active_headers@, events }
}

/// One linear step of the engine: exactly what
/// `BlockHeadersCache::process_candidate` ensures for a candidate whose
/// parent is the current tip — the candidate joins the chain, becomes the
/// tip, and one `Connected` event is emitted. A candidate that does not
/// extend the tip is left to fork resolution and changes nothing here.
pub open spec fn linear_step(run: EngineRun, candidate: BlockExtended) -> EngineRun {
    if candidate.prev_blockhash == run.tip {
        EngineRun {
            tip: candidate.id,
            chain: run.chain.push(candidate),
            events: run.events.push(BlockEvent::Connected(header_of(candidate))),
        }
    } else {
        run
    }
}

/// The engine run after feeding every candidate, in order.
pub open spec fn run_linear(run: EngineRun, candidates: Seq<BlockExtended>) -> EngineRun
    decreases candidates.len(),
{
    if candidates.len() == 0 {
        run
    } else {
        run_linear(linear_step(run, candidates[0]), candidates.drop_first())
    }
}

/// A sequence of linear block announcements: each candidate's parent is the
/// previous announcement's identity, and the first candidate's parent is the
/// given tip.
pub open spec fn linear_from(tip: BlockHash, candidates: Seq<BlockExtended>) -> bool {
    forall|i: int|
        0 <= i < candidates.len() ==> #[trigger] candidates[i].prev_blockhash == (if i == 0 {
            tip
        } else {
            candidates[i - 1].id
        })
}

/// Law: for every sequence of linear block announcements, the engine emits
/// exactly one `Connected` event per announcement, in announcement order and
/// nothing else, every announcement joins the active chain in order, and the
/// final tip is the last announced identity.
pub proof fn lemma_linear_announcements(run: EngineRun, candidates: Seq<BlockExtended>)
    requires
        run_wf(run),
        linear_from(run.tip, candidates),
    ensures
        run_linear(run, candidates).events == run.events + connected_events(candidates),
        run_linear(run, candidates).chain == run.chain + candidates,
        run_linear(run, candidates).tip == if candidates.len() > 0 {
            candidates.last().id
        } else {
            run.tip
        },
        run_wf(run_linear(run, candidates)),
    decreases candidates.len(),
{
    if candidates.len() == 0 {
        assert(run.events + connected_events(candidates) =~= run.events);
        assert(run.chain + candidates =~= run.chain);
    } else {
        let c = candidates[0];
        assert(c.prev_blockhash == run.tip);
        let run1 = linear_step(run, c);
        assert forall|i: int| 1 <= i < run1.chain.len() implies (#[trigger] run1.chain[i])
            .prev_blockhash == run1.chain[i - 1].id by {
            if i < run.chain.len() {
                assert(run.chain[i].prev_blockhash == run.chain[i - 1].id);
            }
        }
        let rest = candidates.drop_first();
        assert forall|i: int| 0 <= i < rest.len() implies (#[trigger] rest[i]).prev_blockhash == (
        if i == 0 {
            run1.tip
        } else {
            rest[i - 1].id
        }) by {
            assert(rest[i] == candidates[i + 1]);
            assert(candidates[i + 1].prev_blockhash == candidates[i].id);
            if i > 0 {
                assert(rest[i - 1] == candidates[i]);
            }
        }
        lemma_linear_announcements(run1, rest);
        assert(run1.events + connected_events(rest) =~= run.events + connected_events(candidates));
        assert(run1.chain + rest =~= run.chain + candidates);
        if rest.len() > 0 {
            assert(rest.last() == candidates.last());
        }
    }
}

/// Law: a backfill from a valid checkpoint at height `h` on a quiet chain —
/// the replayed candidates sit at heights `h..=tip_height`, ascending, each
/// extending the one before, the first extending the seeded tip — yields
/// exactly `tip_height - h + 1` events, the `i`-th being `Connected` for the
/// candidate at height `h + i`, and leaves the tip at the newest replayed
/// identity.
pub proof fn lemma_checkpoint_backfill(
    run: EngineRun,
    candidates: Seq<BlockExtended>,
    h: int,
    tip_height: int,
)
    requires
        run_wf(run),
        run.events == Seq::<BlockEvent<BlockHeader>>::empty(),
        linear_from(run.tip, candidates),
        h <= tip_height,
        candidates.len() == tip_height - h + 1,
        forall|i: int|
            0 <= i < candidates.len() ==> (#[trigger] candidates[i]).height == h + i,
    ensures
        run_linear(run, candidates).events.len() == tip_height - h + 1,
        forall|i: int|
            0 <= i < candidates.len() ==> #[trigger] run_linear(run, candidates).events[i]
                == BlockEvent::<BlockHeader>::Connected(header_of(candidates[i])),
        run_linear(run, candidates).tip == candidates.last().id,
{
    lemma_linear_announcements(run, candidates);
    assert(run_linear(run, candidates).events =~= connected_events(candidates));
}

/// Law: a reorganization that displaces the last `K` blocks of the active
/// chain in favour of a fork branch of `M` new blocks emits exactly `K`
/// `Disconnected` events — the displaced blocks, newest first, in strictly
/// descending height order — followed by exactly `M` `Connected` events —
/// the new blocks, oldest first, in strictly ascending height order — and
/// the tip ends at the newest new block. The hypotheses are the cache
/// consistency, strictly ascending heights along the active chain, a fork
/// branch with strictly descending heights (it was walked newest first), and
/// a common ancestor at position `j` of the chain whose identity appears
/// nowhere above `j`.
pub proof fn lemma_reorg_events(chain: Seq<BlockExtended>, j: int, fork: Seq<BlockExtended>)
    requires
        chain_linked(chain),
        forall|i: int| 1 <= i < chain.len() ==> (#[trigger] chain[i]).height > chain[i - 1].height,
        0 <= j < chain.len(),
        forall|i: int| j < i < chain.len() ==> (#[trigger] chain[i]).id != chain[j].id,
        fork_linked(fork),
        fork.len() > 0,
        forall|i: int| 1 <= i < fork.len() ==> (#[trigger] fork[i]).height < fork[i - 1].height,
        fork.last().prev_blockhash == chain[j].id,
    ensures
        ({
            let k = chain.len() - 1 - j;
            let disconnected = removed_suffix(chain, chain[j].id);
            let connected = fork.reverse();
            let events = disconnected_events(disconnected) + connected_events(connected);
            &&& disconnected.len() == k
            &&& forall|i: int|
                0 <= i < k ==> #[trigger] disconnected[i] == chain[chain.len() - 1 - i]
            &&& forall|i: int|
                1 <= i < k ==> (#[trigger] disconnected[i]).height < disconnected[i - 1].height
            &&& connected.len() == fork.len()
            &&& forall|i: int| 0 <= i < fork.len() ==> #[trigger] connected[i] == fork[
                fork.len() - 1 - i
            ]
            &&& forall|i: int|
                1 <= i < connected.len() ==> (#[trigger] connected[i]).height > connected[
                    i - 1
                ].height
            &&& events.len() == k + fork.len()
            &&& forall|i: int|
                0 <= i < k ==> #[trigger] events[i] == BlockEvent::<BlockHeader>::Disconnected(
                    disconnected[i].height,
                    disconnected[i].id,
                )
            &&& forall|i: int|
                k <= i < k + fork.len() ==> #[trigger] events[i] == BlockEvent::<
                    BlockHeader,
                >::Connected(header_of(connected[i - k]))
            &&& connected.last() == fork[0]
            &&& retained_prefix(chain, chain[j].id) == chain.subrange(0, j + 1)
        }),
{
    lemma_rollback_reaches_ancestor(chain, j);
    let k = chain.len() - 1 - j;
    let disconnected = removed_suffix(chain, chain[j].id);
    assert(disconnected =~= chain.subrange(j + 1, chain.len() as int).reverse());
    assert forall|i: int| 0 <= i < k implies #[trigger] disconnected[i] == chain[
        chain.len() - 1 - i
    ] by {
        assert(disconnected[i] == chain.subrange(j + 1, chain.len() as int)[k - 1 - i]);
    }
}

/// No two headers of the sequence share an identity.
pub open spec fn ids_unique(chain: Seq<BlockExtended>) -> bool {
    forall|i: int, j: int|
        0 <= i < j < chain.len() ==> (#[trigger] chain[i]).id != (#[trigger] chain[j]).id
}

/// The two sequences share no identity.
pub open spec fn ids_disjoint(a: Seq<BlockExtended>, b: Seq<BlockExtended>) -> bool {
    forall|i: int, j: int|
        0 <= i < a.len() && 0 <= j < b.len() ==> (#[trigger] a[i]).id != (#[trigger] b[j]).id
}

/// Accepting a candidate with a fresh identity keeps the active chain's
/// identities unique and keeps the active and stale sets apart: the shape the
/// cache keeps while identities are what they are meant to be, the content
/// hashes of distinct headers.
pub proof fn lemma_extension_preserves_invariants(
    chain: Seq<BlockExtended>,
    stale: Seq<BlockExtended>,
    candidate: BlockExtended,
)
    requires
        ids_unique(chain),
        ids_disjoint(chain, stale),
        !crate::has_id(chain, candidate.id),
        !crate::has_id(stale, candidate.id),
    ensures
        ids_unique(chain.push(candidate)),
        ids_disjoint(chain.push(candidate), stale),
{
    let extended = chain.push(candidate);
    assert forall|i: int, j: int| 0 <= i < j < extended.len() implies (#[trigger] extended[i]).id
        != (#[trigger] extended[j]).id by {
        if j == extended.len() - 1 {
            assert(extended[i] == chain[i]);
            assert(!crate::has_id(chain, candidate.id));
        }
    }
    assert forall|i: int, j: int|
        0 <= i < extended.len() && 0 <= j < stale.len() implies (#[trigger] extended[i]).id != (
    #[trigger] stale[j]).id by {
        if i < chain.len() {
            assert(extended[i] == chain[i]);
        } else {
            assert(!crate::has_id(stale, candidate.id));
        }
    }
}

/// A reorganization keeps the data-model invariants as well: when the active
/// chain's identities are unique and apart from the stale set, and the fork
/// branch brings distinct identities seen neither on the active chain nor
/// among the stale headers (a header, once stale, is not announced again),
/// then after rolling back to the ancestor at position `j` and applying the
/// branch the new active chain still has unique identities and still shares
/// none with the grown stale set.
pub proof fn lemma_reorg_preserves_invariants(
    chain: Seq<BlockExtended>,
    stale: Seq<BlockExtended>,
    j: int,
    fork: Seq<BlockExtended>,
)
    requires
        ids_unique(chain),
        ids_disjoint(chain, stale),
        0 <= j < chain.len(),
        ids_unique(fork),
        ids_disjoint(fork, chain),
        ids_disjoint(fork, stale),
    ensures
        ({
            let active_after = retained_prefix(chain, chain[j].id) + fork.reverse();
            let stale_after = stale + removed_suffix(chain, chain[j].id);
            &&& ids_unique(active_after)
            &&& ids_disjoint(active_after, stale_after)
        }),
{
    lemma_rollback_reaches_ancestor(chain, j);
    let kept = chain.subrange(0, j + 1);
    let removed = chain.subrange(j + 1, chain.len() as int).reverse();
    let active_after = retained_prefix(chain, chain[j].id) + fork.reverse();
    let stale_after = stale + removed_suffix(chain, chain[j].id);
    assert(active_after == kept + fork.reverse());
    assert(stale_after == stale + removed);
    assert forall|a: int, b: int| 0 <= a < b < active_after.len() implies (
    #[trigger] active_after[a]).id != (#[trigger] active_after[b]).id by {
        if b < kept.len() {
            assert(chain[a].id != chain[b].id);
        } else if a < kept.len() {
            assert(active_after[b] == fork[fork.len() - 1 - (b - kept.len())]);
            assert(active_after[a] == chain[a]);
        } else {
            assert(active_after[a] == fork[fork.len() - 1 - (a - kept.len())]);
            assert(active_after[b] == fork[fork.len() - 1 - (b - kept.len())]);
        }
    }
    assert forall|a: int, b: int|
        0 <= a < active_after.len() && 0 <= b < stale_after.len() implies (
    #[trigger] active_after[a]).id != (#[trigger] stale_after[b]).id by {
        if a < kept.len() {
            assert(active_after[a] == chain[a]);
            if b < stale.len() {
                assert(stale_after[b] == stale[b]);
            } else {
                assert(stale_after[b] == chain[chain.len() - 1 - (b - stale.len())]);
            }
        } else {
            assert(active_after[a] == fork[fork.len() - 1 - (a - kept.len())]);
            if b < stale.len() {
                assert(stale_after[b] == stale[b]);
            } else {
                assert(stale_after[b] == chain[chain.len() - 1 - (b - stale.len())]);
            }
        }
    }
}

/// Rolling the chain back to the header at position `j` removes exactly the
/// part of the chain above `j`, newest first, and keeps the prefix up to and
/// including `j` — provided no header above `j` reuses that identity.
pub proof fn lemma_rollback_reaches_ancestor(chain: Seq<BlockExtended>, j: int)
    requires
        0 <= j < chain.len(),
        forall|i: int| j < i < chain.len() ==> (#[trigger] chain[i]).id != chain[j].id,
    ensures
        removed_suffix(chain, chain[j].id) == chain.subrange(j + 1, chain.len() as int).reverse(),
        retained_prefix(chain, chain[j].id) == chain.subrange(0, j + 1),
    decreases chain.len(),
{
    if chain.last().id == chain[j].id {
        assert(j == chain.len() - 1);
        assert(chain.subrange(j + 1, chain.len() as int).reverse() =~= Seq::<
            BlockExtended,
        >::empty());
        assert(chain.subrange(0, j + 1) =~= chain);
    } else {
        let shorter = chain.drop_last();
        assert(j < chain.len() - 1);
        assert(forall|i: int| j < i < shorter.len() ==> (#[trigger] shorter[i]).id != shorter[j].id);
        lemma_rollback_reaches_ancestor(shorter, j);
        assert(removed_suffix(chain, chain[j].id) =~= chain.subrange(
            j + 1,
            chain.len() as int,
        ).reverse()) by {
            assert(shorter[j] == chain[j]);
            assert(removed_suffix(chain, chain[j].id) == seq![chain.last()] + removed_suffix(
                shorter,
                shorter[j].id,
            ));
            assert(removed_suffix(shorter, shorter[j].id) == shorter.subrange(
                j + 1,
                shorter.len() as int,
            ).reverse());
        }
        assert(retained_prefix(chain, chain[j].id) == chain.subrange(0, j + 1)) by {
            assert(shorter.subrange(0, j + 1) =~= chain.subrange(0, j + 1));
        }
    }
}

} // verus!
