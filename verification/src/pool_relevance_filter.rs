//! Live set of the pools believed to contain both watched tokens.
//!
//! The filter consumes pool-added / pool-removed events, one block's batch at
//! a time. An added pool enters the set when its token list carries both
//! watched symbols (symbol equality, deliberately tolerant of wrapped token
//! variants that share a symbol); a removed pool id leaves the set; removing
//! an unknown id is a no-op. The specification folds the same events over a
//! mathematical set, and the filter-correctness law characterises membership
//! over arbitrary event sequences.

use vstd::prelude::*;

use crate::models::string_vec_contains;

verus! {

/// One pool lifecycle event, as the specifications see it.
pub ghost enum PoolEvent {
    Added { id: Seq<char>, tokens: Seq<Seq<char>> },
    Removed { id: Seq<char> },
}

/// The token list carries both watched symbols.
pub open spec fn token_list_has_both(tokens: Seq<Seq<char>>, sym1: Seq<char>, sym2: Seq<char>) -> bool {
    tokens.contains(sym1) && tokens.contains(sym2)
}

/// Effect of a single event on the relevant-pool set.
pub open spec fn apply_event(
    pools: Set<Seq<char>>,
    e: PoolEvent,
    sym1: Seq<char>,
    sym2: Seq<char>,
) -> Set<Seq<char>> {
    match e {
        PoolEvent::Added { id, tokens } => if token_list_has_both(tokens, sym1, sym2) {
            pools.insert(id)
        } else {
            pools
        },
        PoolEvent::Removed { id } => pools.remove(id),
    }
}

/// Effect of an event sequence, applied left to right.
pub open spec fn apply_events(
    pools: Set<Seq<char>>,
    events: Seq<PoolEvent>,
    sym1: Seq<char>,
    sym2: Seq<char>,
) -> Set<Seq<char>>
    decreases events.len(),
{
    if events.len() == 0 {
        pools
    } else {
        apply_event(apply_events(pools, events.drop_last(), sym1, sym2), events.last(), sym1, sym2)
    }
}

/// The relevant-pool set grown from nothing by `events`.
pub open spec fn relevant_after(events: Seq<PoolEvent>, sym1: Seq<char>, sym2: Seq<char>) -> Set<
    Seq<char>,
> {
    apply_events(Set::empty(), events, sym1, sym2)
}

/// The event removes pool `id`.
pub open spec fn is_removal_of(e: PoolEvent, id: Seq<char>) -> bool {
    match e {
        PoolEvent::Removed { id: rid } => rid == id,
        _ => false,
    }
}

/// The event adds pool `id`, with any token list.
pub open spec fn is_add_of(e: PoolEvent, id: Seq<char>) -> bool {
    match e {
        PoolEvent::Added { id: aid, .. } => aid == id,
        _ => false,
    }
}

/// The event adds pool `id` with both watched symbols in its token list.
pub open spec fn is_relevant_add_of(e: PoolEvent, id: Seq<char>, sym1: Seq<char>, sym2: Seq<char>) -> bool {
    match e {
        PoolEvent::Added { id: aid, tokens } => aid == id && token_list_has_both(
            tokens,
            sym1,
            sym2,
        ),
        _ => false,
    }
}

/// No event strictly after index `j` removes pool `id`.
pub open spec fn no_removal_after(events: Seq<PoolEvent>, id: Seq<char>, j: int) -> bool {
    forall|k: int| j < k < events.len() ==> !is_removal_of(#[trigger] events[k], id)
}

/// No event strictly after index `j` adds pool `id`.
pub open spec fn no_add_after(events: Seq<PoolEvent>, id: Seq<char>, j: int) -> bool {
    forall|k: int| j < k < events.len() ==> !is_add_of(#[trigger] events[k], id)
}

/// No event in the whole sequence removes pool `id`.
pub open spec fn no_removal_in(events: Seq<PoolEvent>, id: Seq<char>) -> bool {
    forall|k: int| 0 <= k < events.len() ==> !is_removal_of(#[trigger] events[k], id)
}

/// Some add of `id` carries both watched symbols and no later event removes
/// `id`.
pub open spec fn live_relevant_add(
    events: Seq<PoolEvent>,
    id: Seq<char>,
    sym1: Seq<char>,
    sym2: Seq<char>,
) -> bool {
    exists|j: int|
        0 <= j < events.len() && #[trigger] is_relevant_add_of(events[j], id, sym1, sym2)
            && no_removal_after(events, id, j)
}

/// The most recent add of `id` carries both watched symbols and no later
/// event removes `id`.
pub open spec fn latest_add_relevant_and_kept(
    events: Seq<PoolEvent>,
    id: Seq<char>,
    sym1: Seq<char>,
    sym2: Seq<char>,
) -> bool {
    exists|j: int|
        0 <= j < events.len() && #[trigger] is_relevant_add_of(events[j], id, sym1, sym2)
            && no_add_after(events, id, j) && no_removal_after(events, id, j)
}

/// An event that neither relevantly adds nor removes `id` changes neither
/// liveness nor removal-freedom of `id`.
proof fn lemma_neutral_last(events: Seq<PoolEvent>, id: Seq<char>, sym1: Seq<char>, sym2: Seq<char>)
    requires
        events.len() > 0,
        !is_relevant_add_of(events.last(), id, sym1, sym2),
        !is_removal_of(events.last(), id),
    ensures
        live_relevant_add(events, id, sym1, sym2) == live_relevant_add(
            events.drop_last(),
            id,
            sym1,
            sym2,
        ),
        no_removal_in(events, id) == no_removal_in(events.drop_last(), id),
{
    let es0 = events.drop_last();
    let n = events.len() - 1;
    assert(forall|k: int| 0 <= k < n ==> (#[trigger] es0[k]) == events[k]);
    if live_relevant_add(events, id, sym1, sym2) {
        let j = choose|j: int|
            0 <= j < events.len() && #[trigger] is_relevant_add_of(events[j], id, sym1, sym2)
                && no_removal_after(events, id, j);
        assert(j != n);
        assert(is_relevant_add_of(es0[j], id, sym1, sym2));
        assert(no_removal_after(es0, id, j)) by {
            assert(forall|k: int| j < k < n ==> !is_removal_of(#[trigger] es0[k], id));
        }
        assert(live_relevant_add(es0, id, sym1, sym2));
    }
    if live_relevant_add(es0, id, sym1, sym2) {
        let j = choose|j: int|
            0 <= j < es0.len() && #[trigger] is_relevant_add_of(es0[j], id, sym1, sym2)
                && no_removal_after(es0, id, j);
        assert(is_relevant_add_of(events[j], id, sym1, sym2));
        assert(no_removal_after(events, id, j)) by {
            assert forall|k: int| j < k < n implies !is_removal_of(#[trigger] events[k], id) by {
                assert(es0[k] == events[k]);
                assert(!is_removal_of(es0[k], id));
            }
            assert(!is_removal_of(events[n], id));
        }
        assert(live_relevant_add(events, id, sym1, sym2));
    }
    if no_removal_in(es0, id) {
        assert forall|k: int| 0 <= k < n implies !is_removal_of(#[trigger] events[k], id) by {
            assert(es0[k] == events[k]);
            assert(!is_removal_of(es0[k], id));
        }
        assert(!is_removal_of(events[n], id));
        assert(no_removal_in(events, id));
    }
    if no_removal_in(events, id) {
        assert(forall|k: int| 0 <= k < n ==> !is_removal_of(#[trigger] es0[k], id));
    }
}

/// Membership after folding `events` over any starting set: the id was
/// relevantly added and never removed afterwards, or it was already present
/// and never removed at all.
pub proof fn lemma_apply_events_membership(
    pools: Set<Seq<char>>,
    events: Seq<PoolEvent>,
    sym1: Seq<char>,
    sym2: Seq<char>,
    id: Seq<char>,
)
    ensures
        apply_events(pools, events, sym1, sym2).contains(id) <==> (live_relevant_add(
            events,
            id,
            sym1,
            sym2,
        ) || (pools.contains(id) && no_removal_in(events, id))),
    decreases events.len(),
{
    if events.len() == 0 {
        assert(!live_relevant_add(events, id, sym1, sym2));
        assert(no_removal_in(events, id));
    } else {
        let es0 = events.drop_last();
        let e = events.last();
        let n = events.len() - 1;
        lemma_apply_events_membership(pools, es0, sym1, sym2, id);
        assert(forall|k: int| 0 <= k < n ==> (#[trigger] es0[k]) == events[k]);
        if is_relevant_add_of(e, id, sym1, sym2) {
            assert(apply_events(pools, events, sym1, sym2).contains(id));
            assert(is_relevant_add_of(events[n], id, sym1, sym2));
            assert(no_removal_after(events, id, n));
            assert(live_relevant_add(events, id, sym1, sym2));
        } else if is_removal_of(e, id) {
            assert(!apply_events(pools, events, sym1, sym2).contains(id));
            assert(!live_relevant_add(events, id, sym1, sym2)) by {
                if live_relevant_add(events, id, sym1, sym2) {
                    let j = choose|j: int|
                        0 <= j < events.len() && #[trigger] is_relevant_add_of(
                            events[j],
                            id,
                            sym1,
                            sym2,
                        ) && no_removal_after(events, id, j);
                    assert(j != n);
                    assert(!is_removal_of(events[n], id));
                }
            }
            assert(!no_removal_in(events, id)) by {
                assert(is_removal_of(events[n], id));
            }
        } else {
            lemma_neutral_last(events, id, sym1, sym2);
            assert(apply_events(pools, events, sym1, sym2).contains(id) == apply_events(
                pools,
                es0,
                sym1,
                sym2,
            ).contains(id));
        }
    }
}

/// Law (filter correctness): over every sequence of add/remove events folded
/// from the empty set, a pool id is relevant exactly when some add event for
/// it carried both watched token symbols and no later event removed it.
pub proof fn lemma_filter_characterization(
    events: Seq<PoolEvent>,
    sym1: Seq<char>,
    sym2: Seq<char>,
    id: Seq<char>,
)
    ensures
        relevant_after(events, sym1, sym2).contains(id) <==> live_relevant_add(
            events,
            id,
            sym1,
            sym2,
        ),
{
    lemma_apply_events_membership(Set::empty(), events, sym1, sym2, id);
}

/// Law (filter correctness, most-recent-add form): a pool id is relevant
/// exactly when its most recent add event carried both watched symbols and
/// no later remove event for the id occurred. The hypothesis excludes the
/// one shape of input on which this reading diverges from the event fold: a
/// later add lacking a watched symbol is a no-op for the filter and keeps an
/// already relevant id relevant, although that add is then the most recent.
pub proof fn lemma_filter_latest_add(
    events: Seq<PoolEvent>,
    sym1: Seq<char>,
    sym2: Seq<char>,
    id: Seq<char>,
)
    requires
        live_relevant_add(events, id, sym1, sym2) ==> latest_add_relevant_and_kept(
            events,
            id,
            sym1,
            sym2,
        ),
    ensures
        relevant_after(events, sym1, sym2).contains(id) <==> latest_add_relevant_and_kept(
            events,
            id,
            sym1,
            sym2,
        ),
{
    lemma_filter_characterization(events, sym1, sym2, id);
    if latest_add_relevant_and_kept(events, id, sym1, sym2) {
        let j = choose|j: int|
            0 <= j < events.len() && #[trigger] is_relevant_add_of(events[j], id, sym1, sym2)
                && no_add_after(events, id, j) && no_removal_after(events, id, j);
        assert(live_relevant_add(events, id, sym1, sym2));
    }
}

/// Folding a pushed event is one more application.
pub proof fn lemma_apply_events_push(
    pools: Set<Seq<char>>,
    events: Seq<PoolEvent>,
    e: PoolEvent,
    sym1: Seq<char>,
    sym2: Seq<char>,
)
    ensures
        apply_events(pools, events.push(e), sym1, sym2) == apply_event(
            apply_events(pools, events, sym1, sym2),
            e,
            sym1,
            sym2,
        ),
{
    assert(events.push(e).drop_last() =~= events);
    assert(events.push(e).last() == e);
}

/// Some added pair of the batch carries pool `id` with both watched
/// symbols.
pub open spec fn batch_adds_relevant(
    adds: Seq<(Seq<char>, Seq<Seq<char>>)>,
    id: Seq<char>,
    sym1: Seq<char>,
    sym2: Seq<char>,
) -> bool {
    exists|j: int|
        0 <= j < adds.len() && (#[trigger] adds[j]).0 == id && token_list_has_both(
            adds[j].1,
            sym1,
            sym2,
        )
}

/// Law (one block's batch): all adds apply before all removes, so a pool id
/// is in the set afterwards exactly when it was already there or relevantly
/// added, and the batch does not remove it.
pub proof fn lemma_batch_membership(
    pools: Set<Seq<char>>,
    adds: Seq<(Seq<char>, Seq<Seq<char>>)>,
    removes: Seq<Seq<char>>,
    sym1: Seq<char>,
    sym2: Seq<char>,
    id: Seq<char>,
)
    ensures
        apply_events(pools, batch_events(adds, removes), sym1, sym2).contains(id) <==> ((
        pools.contains(id) || batch_adds_relevant(adds, id, sym1, sym2)) && !removes.contains(id)),
{
    let batch = batch_events(adds, removes);
    let na = adds.len() as int;
    let nr = removes.len() as int;
    lemma_apply_events_membership(pools, batch, sym1, sym2, id);
    assert(batch.len() == na + nr);
    assert forall|k: int| 0 <= k < na implies #[trigger] batch[k] == (PoolEvent::Added {
        id: adds[k].0,
        tokens: adds[k].1,
    }) by {
        assert(batch[k] == add_events(adds)[k]);
    }
    assert forall|k: int| na <= k < na + nr implies #[trigger] batch[k] == (PoolEvent::Removed {
        id: removes[k - na],
    }) by {
        assert(batch[k] == removal_events(removes)[k - na]);
    }
    assert(no_removal_in(batch, id) == !removes.contains(id)) by {
        if removes.contains(id) {
            let j = choose|j: int| 0 <= j < nr && removes[j] == id;
            assert(is_removal_of(batch[na + j], id));
        } else {
            assert forall|k: int| 0 <= k < batch.len() implies !is_removal_of(
                #[trigger] batch[k],
                id,
            ) by {
                if k >= na {
                    assert(removes[k - na] != id);
                }
            }
        }
    }
    assert(live_relevant_add(batch, id, sym1, sym2) == (batch_adds_relevant(adds, id, sym1, sym2)
        && !removes.contains(id))) by {
        if live_relevant_add(batch, id, sym1, sym2) {
            let j = choose|j: int|
                0 <= j < batch.len() && #[trigger] is_relevant_add_of(batch[j], id, sym1, sym2)
                    && no_removal_after(batch, id, j);
            assert(j < na);
            assert(adds[j].0 == id && token_list_has_both(adds[j].1, sym1, sym2));
            assert(batch_adds_relevant(adds, id, sym1, sym2));
            assert(!removes.contains(id)) by {
                if removes.contains(id) {
                    let r = choose|r: int| 0 <= r < nr && removes[r] == id;
                    assert(is_removal_of(batch[na + r], id));
                    assert(j < na + r < batch.len());
                }
            }
        }
        if batch_adds_relevant(adds, id, sym1, sym2) && !removes.contains(id) {
            let j = choose|j: int|
                0 <= j < adds.len() && (#[trigger] adds[j]).0 == id && token_list_has_both(
                    adds[j].1,
                    sym1,
                    sym2,
                );
            assert(is_relevant_add_of(batch[j], id, sym1, sym2));
            assert(no_removal_after(batch, id, j)) by {
                assert forall|k: int| j < k < batch.len() implies !is_removal_of(
                    #[trigger] batch[k],
                    id,
                ) by {
                    if k >= na {
                        assert(removes[k - na] != id);
                    }
                }
            }
            assert(live_relevant_add(batch, id, sym1, sym2));
        }
    }
}

/// The added pairs of one block, as events.
pub open spec fn add_events(adds: Seq<(Seq<char>, Seq<Seq<char>>)>) -> Seq<PoolEvent> {
    adds.map_values(|p: (Seq<char>, Seq<Seq<char>>)| PoolEvent::Added { id: p.0, tokens: p.1 })
}

/// The removed ids of one block, as events.
pub open spec fn removal_events(removes: Seq<Seq<char>>) -> Seq<PoolEvent> {
    removes.map_values(|id: Seq<char>| PoolEvent::Removed { id })
}

/// One block's batch as an event sequence: all adds, then all removes.
pub open spec fn batch_events(
    adds: Seq<(Seq<char>, Seq<Seq<char>>)>,
    removes: Seq<Seq<char>>,
) -> Seq<PoolEvent> {
    add_events(adds) + removal_events(removes)
}

/// Live set of pool identifiers whose pool contains both watched tokens,
/// for one chain. Never shared across chains.
#[derive(Debug)]
pub struct PoolRelevanceFilter {
    pub token1_symbol: String,
    pub token2_symbol: String,
    pub pool_ids: Vec<String>,
}

impl View for PoolRelevanceFilter {
    type V = Set<Seq<char>>;

    open spec fn view(&self) -> Set<Seq<char>> {
        Set::new(|id: Seq<char>| self.pool_seq().contains(id))
    }
}

impl PoolRelevanceFilter {
    /// The stored pool ids, in insertion order.
    pub open spec fn pool_seq(&self) -> Seq<Seq<char>> {
        self.pool_ids.deep_view()
    }

    /// Structural invariant: no pool id is stored twice.
    pub open spec fn wf(&self) -> bool {
        forall|i: int, j: int|
            0 <= i < j < self.pool_seq().len() ==> #[trigger] self.pool_seq()[i]
                != #[trigger] self.pool_seq()[j]
    }

    /// The watched symbols, as the specifications see them.
    pub open spec fn sym1(&self) -> Seq<char> {
        self.token1_symbol@
    }

    pub open spec fn sym2(&self) -> Seq<char> {
        self.token2_symbol@
    }

    pub fn new(token1_symbol: String, token2_symbol: String) -> (f: Self)
        ensures
            f.wf(),
            f@ == Set::<Seq<char>>::empty(),
            f.sym1() == token1_symbol@,
            f.sym2() == token2_symbol@,
    {
        let f = PoolRelevanceFilter { token1_symbol, token2_symbol, pool_ids: Vec::new() };
        proof {
            assert(f@ =~= Set::<Seq<char>>::empty());
        }
        f
    }

    /// Membership query: is this pool currently believed relevant?
    pub fn is_relevant(&self, id: &String) -> (r: bool)
        ensures
            r == self@.contains(id@),
    {
        string_vec_contains(&self.pool_ids, id)
    }

    /// Insert a pool id, a no-op when it is already present.
    fn insert_pool_id(&mut self, id: &String)
        requires
            old(self).wf(),
        ensures
            final(self).wf(),
            final(self).token1_symbol == old(self).token1_symbol,
            final(self).token2_symbol == old(self).token2_symbol,
            final(self)@ == old(self)@.insert(id@),
    {
        let ghost pre = self.pool_seq();
        if !string_vec_contains(&self.pool_ids, id) {
            self.pool_ids.push(id.clone());
            proof {
                assert(self.pool_seq() =~= pre.push(id@));
                assert forall|x: Seq<char>| self.pool_seq().contains(x) implies (pre.contains(x)
                    || x == id@) by {
                    let j = choose|j: int|
                        0 <= j < self.pool_seq().len() && self.pool_seq()[j] == x;
                    if j < pre.len() {
                        assert(pre[j] == x);
                    }
                }
                assert forall|x: Seq<char>| pre.contains(x) implies self.pool_seq().contains(
                    x,
                ) by {
                    let j = choose|j: int| 0 <= j < pre.len() && pre[j] == x;
                    assert(self.pool_seq()[j] == x);
                }
                assert(self.pool_seq().contains(id@)) by {
                    assert(self.pool_seq()[pre.len() as int] == id@);
                }
                assert(final(self)@ =~= old(self)@.insert(id@));
                assert forall|i: int, j: int|
                    0 <= i < j < self.pool_seq().len() implies #[trigger] self.pool_seq()[i]
                    != #[trigger] self.pool_seq()[j] by {
                    if j == pre.len() {
                        assert(self.pool_seq()[i] == pre[i]);
                        if pre[i] == id@ {
                            assert(pre.contains(id@));
                        }
                    }
                }
            }
        } else {
            proof {
                assert(self@.contains(id@));
                assert(final(self)@ =~= old(self)@.insert(id@));
            }
        }
    }

    /// Delete a pool id, a no-op when it is absent.
    fn remove_pool_id(&mut self, id: &String)
        requires
            old(self).wf(),
        ensures
            final(self).wf(),
            final(self).token1_symbol == old(self).token1_symbol,
            final(self).token2_symbol == old(self).token2_symbol,
            final(self)@ == old(self)@.remove(id@),
    {
        let ghost pre = self.pool_seq();
        let n = self.pool_ids.len();
        let mut i: usize = 0;
        while i < n
            invariant
                n == self.pool_ids.len(),
                i <= n,
                *self == *old(self),
                old(self).wf(),
                pre == self.pool_seq(),
                forall|m: int| 0 <= m < i ==> (#[trigger] pre[m]) != id@,
            decreases n - i,
        {
            proof {
                assert(pre[i as int] == self.pool_ids@[i as int]@);
            }
            if self.pool_ids[i] == *id {
                self.pool_ids.remove(i);
                proof {
                    assert(self.pool_seq() =~= pre.remove(i as int));
                    let post = self.pool_seq();
                    assert forall|x: Seq<char>| post.contains(x) implies (pre.contains(x) && x
                        != id@) by {
                        let j = choose|j: int| 0 <= j < post.len() && post[j] == x;
                        if j < i {
                            assert(pre[j] == x);
                            assert(pre[i as int] != pre[j]);
                        } else {
                            assert(pre[j + 1] == x);
                            assert(pre[i as int] != pre[j + 1]);
                        }
                    }
                    assert forall|x: Seq<char>| pre.contains(x) && x != id@ implies post.contains(
                        x,
                    ) by {
                        let j = choose|j: int| 0 <= j < pre.len() && pre[j] == x;
                        if j < i {
                            assert(post[j] == x);
                        } else if j > i {
                            assert(post[j - 1] == x);
                        }
                    }
                    assert(final(self)@ =~= old(self)@.remove(id@));
                    assert forall|a: int, b: int|
                        0 <= a < b < post.len() implies #[trigger] post[a] != #[trigger] post[b] by {
                        let a0: int = if a < i { a } else { a + 1 };
                        let b0: int = if b < i { b } else { b + 1 };
                        assert(post[a] == pre[a0]);
                        assert(post[b] == pre[b0]);
                    }
                }
                return ;
            }
            i += 1;
        }
        proof {
            assert(!pre.contains(id@)) by {
                if pre.contains(id@) {
                    let j = choose|j: int| 0 <= j < pre.len() && pre[j] == id@;
                }
            }
            assert(!self@.contains(id@));
            assert(final(self)@ =~= old(self)@.remove(id@));
        }
    }

    /// Apply one block's batch: insert each added pool whose token list
    /// carries both watched symbols, then delete each removed pool id.
    /// The result is the event fold of the batch over the previous set.
    pub fn apply(&mut self, added: &Vec<(String, Vec<String>)>, removed: &Vec<String>)
        requires
            old(self).wf(),
        ensures
            final(self).wf(),
            final(self).token1_symbol == old(self).token1_symbol,
            final(self).token2_symbol == old(self).token2_symbol,
            final(self)@ == apply_events(
                old(self)@,
                batch_events(added.deep_view(), removed.deep_view()),
                old(self).sym1(),
                old(self).sym2(),
            ),
            forall|id: Seq<char>|
                #[trigger] final(self)@.contains(id) <==> ((old(self)@.contains(id)
                    || batch_adds_relevant(
                    added.deep_view(),
                    id,
                    old(self).sym1(),
                    old(self).sym2(),
                )) && !removed.deep_view().contains(id)),
    {
        let ghost s1 = self.sym1();
        let ghost s2 = self.sym2();
        let ghost pools0 = self@;
        let ghost adds = added.deep_view();
        let ghost removes = removed.deep_view();
        let na = added.len();
        let mut i: usize = 0;
        proof {
            assert(add_events(adds.subrange(0, 0)) =~= Seq::<PoolEvent>::empty());
        }
        while i < na
            invariant
                na == added.len(),
                i <= na,
                adds == added.deep_view(),
                self.wf(),
                self.token1_symbol == old(self).token1_symbol,
                self.token2_symbol == old(self).token2_symbol,
                s1 == self.sym1(),
                s2 == self.sym2(),
                pools0 == old(self)@,
                self@ == apply_events(pools0, add_events(adds.subrange(0, i as int)), s1, s2),
            decreases na - i,
        {
            let ghost evs = add_events(adds.subrange(0, i as int));
            let ghost ev = PoolEvent::Added { id: adds[i as int].0, tokens: adds[i as int].1 };
            proof {
                assert(adds[i as int] == added@[i as int].deep_view());
                assert(adds[i as int].0 == added@[i as int].0@);
                assert(adds[i as int].1 == added@[i as int].1.deep_view());
                assert(add_events(adds.subrange(0, i + 1)) =~= evs.push(ev));
                lemma_apply_events_push(pools0, evs, ev, s1, s2);
            }
            let has1 = string_vec_contains(&added[i].1, &self.token1_symbol);
            let has2 = string_vec_contains(&added[i].1, &self.token2_symbol);
            if has1 && has2 {
                let pool_id = added[i].0.clone();
                self.insert_pool_id(&pool_id);
            }
            i += 1;
        }
        proof {
            assert(adds.subrange(0, na as int) =~= adds);
            assert(removal_events(removes.subrange(0, 0)) =~= Seq::<PoolEvent>::empty());
            assert(batch_events(adds, removes.subrange(0, 0)) =~= add_events(adds));
        }
        let nr = removed.len();
        let mut j: usize = 0;
        while j < nr
            invariant
                nr == removed.len(),
                j <= nr,
                adds == added.deep_view(),
                removes == removed.deep_view(),
                self.wf(),
                self.token1_symbol == old(self).token1_symbol,
                self.token2_symbol == old(self).token2_symbol,
                s1 == self.sym1(),
                s2 == self.sym2(),
                pools0 == old(self)@,
                self@ == apply_events(
                    pools0,
                    batch_events(adds, removes.subrange(0, j as int)),
                    s1,
                    s2,
                ),
            decreases nr - j,
        {
            let ghost evs = batch_events(adds, removes.subrange(0, j as int));
            let ghost ev = PoolEvent::Removed { id: removes[j as int] };
            proof {
                assert(removes[j as int] == removed@[j as int]@);
                assert(batch_events(adds, removes.subrange(0, j + 1)) =~= evs.push(ev));
                lemma_apply_events_push(pools0, evs, ev, s1, s2);
            }
            self.remove_pool_id(&removed[j]);
            j += 1;
        }
        proof {
            assert(removes.subrange(0, nr as int) =~= removes);
            assert forall|id: Seq<char>| #[trigger] self@.contains(id) <==> ((pools0.contains(id)
                || batch_adds_relevant(adds, id, s1, s2)) && !removes.contains(id)) by {
                lemma_batch_membership(pools0, adds, removes, s1, s2, id);
            }
        }
    }

    /// The relevant pools that have a state entry in this block, in the
    /// filter's storage order: exactly the pools worth asking for a price.
    pub fn pools_to_price(&self, state_ids: &Vec<String>) -> (r: Vec<String>)
        ensures
            r.deep_view() == pools_with_state(self.pool_seq(), state_ids.deep_view()),
    {
        let ghost pools = self.pool_seq();
        let ghost states = state_ids.deep_view();
        let n = self.pool_ids.len();
        let mut r: Vec<String> = Vec::new();
        let mut i: usize = 0;
        proof {
            assert(r.deep_view() =~= pools_with_state(pools.subrange(0, 0), states));
        }
        while i < n
            invariant
                n == self.pool_ids.len(),
                pools == self.pool_seq(),
                states == state_ids.deep_view(),
                i <= n,
                r.deep_view() == pools_with_state(pools.subrange(0, i as int), states),
            decreases n - i,
        {
            let ghost r0 = r.deep_view();
            proof {
                assert(pools.subrange(0, i + 1).drop_last() =~= pools.subrange(0, i as int));
                assert(pools.subrange(0, i + 1).last() == pools[i as int]);
                assert(pools[i as int] == self.pool_ids@[i as int]@);
            }
            if string_vec_contains(state_ids, &self.pool_ids[i]) {
                r.push(self.pool_ids[i].clone());
                proof {
                    assert(r.deep_view() =~= r0.push(pools[i as int]));
                }
            }
            i += 1;
        }
        proof {
            assert(pools.subrange(0, n as int) =~= pools);
        }
        r
    }
}

/// The sub-sequence of `pools` that also occurs in `state_ids`, in pool
/// order.
pub open spec fn pools_with_state(pools: Seq<Seq<char>>, state_ids: Seq<Seq<char>>) -> Seq<
    Seq<char>,
>
    decreases pools.len(),
{
    if pools.len() == 0 {
        Seq::empty()
    } else {
        let rest = pools_with_state(pools.drop_last(), state_ids);
        if state_ids.contains(pools.last()) {
            rest.push(pools.last())
        } else {
            rest
        }
    }
}

} // verus!
