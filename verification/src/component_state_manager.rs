//! Keyed cache of the most recently observed spot price per (chain, pool).
//!
//! The cache is a point-in-time store, not a history: an update overwrites
//! the previous entry for its key, and absence of a key means "no price has
//! been observed yet", never an error.

use vstd::prelude::*;

use crate::kv::{
    kv_has_key, kv_index_of, kv_map, kv_unique, kv_upsert, lemma_kv_index_of_unique,
    lemma_kv_map_index, lemma_kv_map_membership, lemma_kv_upsert_map,
};
use crate::models::{Chain, Price};

verus! {

/// A pool's spot price at the most recent update that carried it.
#[derive(Debug)]
pub struct ComponentState {
    pub spot_price: Price,
    pub id: String,
}

/// Mathematical image of a [`ComponentState`].
pub ghost struct ComponentStateModel {
    pub spot_price: Price,
    pub id: Seq<char>,
}

impl View for ComponentState {
    type V = ComponentStateModel;

    open spec fn view(&self) -> ComponentStateModel {
        ComponentStateModel { spot_price: self.spot_price, id: self.id@ }
    }
}

impl DeepView for ComponentState {
    type V = ComponentStateModel;

    open spec fn deep_view(&self) -> ComponentStateModel {
        self@
    }
}

impl Clone for ComponentState {
    fn clone(&self) -> (r: Self)
        ensures
            r@ == self@,
    {
        ComponentState { spot_price: self.spot_price, id: self.id.clone() }
    }
}

impl ComponentState {
    pub fn new(spot_price: Price, id: String) -> (s: Self)
        ensures
            s@ == (ComponentStateModel { spot_price, id: id@ }),
    {
        ComponentState { spot_price, id }
    }

    pub fn get_spot_price(&self) -> (p: Price)
        ensures
            p == self@.spot_price,
    {
        self.spot_price
    }

    pub fn get_id(&self) -> (id: &String)
        ensures
            id@ == self@.id,
    {
        &self.id
    }
}

/// One cache entry as the specifications see it.
pub type StateEntry = ((Chain, Seq<char>), ComponentStateModel);

/// The sub-sequence of entry values whose key names `chain`, in entry order.
pub open spec fn chain_states(es: Seq<StateEntry>, chain: Chain) -> Seq<ComponentStateModel>
    decreases es.len(),
{
    if es.len() == 0 {
        Seq::empty()
    } else {
        let rest = chain_states(es.drop_last(), chain);
        if es.last().0.0 == chain {
            rest.push(es.last().1)
        } else {
            rest
        }
    }
}

/// Cache mapping (chain, pool id) to the most recently observed state for
/// that pool. At most one entry per key; an update overwrites in place.
#[derive(Debug)]
pub struct ComponentStateManager {
    pub entries: Vec<((Chain, String), ComponentState)>,
}

impl View for ComponentStateManager {
    type V = Map<(Chain, Seq<char>), ComponentStateModel>;

    open spec fn view(&self) -> Map<(Chain, Seq<char>), ComponentStateModel> {
        kv_map(self.entry_seq())
    }
}

impl ComponentStateManager {
    /// The entries in storage order.
    pub open spec fn entry_seq(&self) -> Seq<StateEntry> {
        self.entries.deep_view()
    }

    /// Structural invariant: keys are pairwise distinct.
    pub open spec fn wf(&self) -> bool {
        kv_unique(self.entry_seq())
    }

    pub fn new() -> (m: Self)
        ensures
            m.wf(),
            m.entry_seq() == Seq::<StateEntry>::empty(),
            m@ == Map::<(Chain, Seq<char>), ComponentStateModel>::empty(),
    {
        let m = ComponentStateManager { entries: Vec::new() };
        proof {
            assert(m.entry_seq() =~= Seq::<StateEntry>::empty());
        }
        m
    }

    /// Upsert: unconditionally overwrite whatever the key held before.
    pub fn update_component_state(&mut self, chain: Chain, component_id: String, state: ComponentState)
        requires
            old(self).wf(),
        ensures
            final(self).wf(),
            final(self).entry_seq() == kv_upsert(
                old(self).entry_seq(),
                (chain, component_id@),
                state@,
            ),
            final(self)@ == old(self)@.insert((chain, component_id@), state@),
    {
        let ghost key = (chain, component_id@);
        let ghost es0 = self.entry_seq();
        let n = self.entries.len();
        let mut i: usize = 0;
        while i < n
            invariant
                n == self.entries.len(),
                i <= n,
                *self == *old(self),
                es0 == self.entry_seq(),
                kv_unique(es0),
                key == (chain, component_id@),
                forall|m: int| 0 <= m < i ==> (#[trigger] es0[m]).0 != key,
            decreases n - i,
        {
            proof {
                assert(es0[i as int] == self.entries@[i as int].deep_view());
                assert(es0[i as int].0 == (
                    self.entries@[i as int].0.0,
                    self.entries@[i as int].0.1@,
                ));
            }
            if self.entries[i].0.0 == chain && self.entries[i].0.1 == component_id {
                proof {
                    assert(es0[i as int].0 == key);
                    lemma_kv_index_of_unique(es0, key, i as int);
                    lemma_kv_upsert_map(es0, key, state@);
                }
                self.entries[i] = ((chain, component_id), state);
                proof {
                    assert(final(self).entry_seq() =~= es0.update(i as int, (key, state@)));
                }
                return ;
            }
            i += 1;
        }
        proof {
            assert(!kv_has_key(es0, key));
            lemma_kv_upsert_map(es0, key, state@);
        }
        self.entries.push(((chain, component_id), state));
        proof {
            assert(final(self).entry_seq() =~= es0.push((key, state@)));
        }
    }

    /// Point lookup; `None` means the key has never been written.
    pub fn get_component_state(&self, chain: Chain, component_id: String) -> (r: Option<
        ComponentState,
    >)
        requires
            self.wf(),
        ensures
            match r {
                Some(st) => self@.contains_key((chain, component_id@)) && st@ == self@[(
                    chain,
                    component_id@,
                )],
                None => !self@.contains_key((chain, component_id@)),
            },
    {
        let ghost key = (chain, component_id@);
        let ghost es = self.entry_seq();
        let n = self.entries.len();
        let mut i: usize = 0;
        while i < n
            invariant
                n == self.entries.len(),
                es == self.entry_seq(),
                kv_unique(es),
                i <= n,
                key == (chain, component_id@),
                forall|m: int| 0 <= m < i ==> (#[trigger] es[m]).0 != key,
            decreases n - i,
        {
            proof {
                assert(es[i as int] == self.entries@[i as int].deep_view());
                assert(es[i as int].0 == (
                    self.entries@[i as int].0.0,
                    self.entries@[i as int].0.1@,
                ));
            }
            if self.entries[i].0.0 == chain && self.entries[i].0.1 == component_id {
                proof {
                    assert(es[i as int].0 == key);
                    lemma_kv_map_index(es, i as int);
                }
                return Some(self.entries[i].1.clone());
            }
            i += 1;
        }
        proof {
            assert(!kv_has_key(es, key));
            lemma_kv_map_membership(es, key);
        }
        None
    }

    /// Unordered-snapshot query: every state currently known for `chain`,
    /// in storage order, and nothing keyed by any other chain.
    pub fn get_all_component_state_for_chain(&self, chain: Chain) -> (r: Vec<ComponentState>)
        ensures
            r.deep_view() == chain_states(self.entry_seq(), chain),
    {
        let ghost es = self.entry_seq();
        let n = self.entries.len();
        let mut r: Vec<ComponentState> = Vec::new();
        let mut i: usize = 0;
        proof {
            assert(r.deep_view() =~= chain_states(es.subrange(0, 0), chain));
        }
        while i < n
            invariant
                n == self.entries.len(),
                es == self.entry_seq(),
                i <= n,
                r.deep_view() == chain_states(es.subrange(0, i as int), chain),
            decreases n - i,
        {
            let ghost r0 = r.deep_view();
            proof {
                assert(es.subrange(0, i + 1 as int).drop_last() =~= es.subrange(0, i as int));
                assert(es.subrange(0, i + 1 as int).last() == es[i as int]);
            }
            if self.entries[i].0.0 == chain {
                r.push(self.entries[i].1.clone());
                proof {
                    assert(r.deep_view() =~= r0.push(es[i as int].1));
                }
            }
            i += 1;
        }
        proof {
            assert(es.subrange(0, n as int) =~= es);
        }
        r
    }
}

/// Law: the cache overwrites. Writing `s1` and then `s2` under one
/// (chain, pool id) key leaves exactly the cache that writing `s2` alone
/// would leave, and the lookup at that key yields `s2`; nothing of `s1`
/// remains retrievable.
pub proof fn lemma_cache_overwrite(
    m: Map<(Chain, Seq<char>), ComponentStateModel>,
    chain: Chain,
    id: Seq<char>,
    s1: ComponentStateModel,
    s2: ComponentStateModel,
)
    ensures
        m.insert((chain, id), s1).insert((chain, id), s2) == m.insert((chain, id), s2),
        m.insert((chain, id), s1).insert((chain, id), s2)[(chain, id)] == s2,
{
    assert(m.insert((chain, id), s1).insert((chain, id), s2) =~= m.insert((chain, id), s2));
}

/// Some entry of `es` is keyed by `chain` and holds the value `st`.
pub open spec fn entry_of_chain_with(es: Seq<StateEntry>, chain: Chain, st: ComponentStateModel) -> bool {
    exists|j: int| 0 <= j < es.len() && (#[trigger] es[j]).0.0 == chain && es[j].1 == st
}

/// Law: the per-chain snapshot only ever carries the chain's own entries.
/// Every element of `chain_states(es, chain)` is the value of some entry
/// keyed by `chain`; an entry keyed by any other chain never appears.
pub proof fn lemma_chain_states_sourced(es: Seq<StateEntry>, chain: Chain)
    ensures
        forall|i: int|
            0 <= i < chain_states(es, chain).len() ==> entry_of_chain_with(
                es,
                chain,
                #[trigger] chain_states(es, chain)[i],
            ),
    decreases es.len(),
{
    if es.len() == 0 {
    } else {
        let rest = chain_states(es.drop_last(), chain);
        lemma_chain_states_sourced(es.drop_last(), chain);
        assert(forall|j: int| 0 <= j < es.len() - 1 ==> (#[trigger] es.drop_last()[j]) == es[j]);
        assert forall|i: int| 0 <= i < chain_states(es, chain).len() implies entry_of_chain_with(
            es,
            chain,
            #[trigger] chain_states(es, chain)[i],
        ) by {
            if i < rest.len() {
                assert(chain_states(es, chain)[i] == rest[i]);
                assert(entry_of_chain_with(es.drop_last(), chain, rest[i]));
                let j = choose|j: int|
                    0 <= j < es.drop_last().len() && (#[trigger] es.drop_last()[j]).0.0 == chain
                        && es.drop_last()[j].1 == rest[i];
                assert(0 <= j < es.len() && es[j].0.0 == chain && es[j].1 == chain_states(
                    es,
                    chain,
                )[i]);
            } else {
                assert(es.last().0.0 == chain && chain_states(es, chain)[i] == es.last().1);
                assert(es[es.len() - 1].0.0 == chain);
            }
        }
    }
}

/// Law: chain isolation under interleaved updates. An upsert keyed by chain
/// `b` leaves the snapshot for a different chain `a` exactly as it was, so
/// any interleaving of updates to the two chains never lets one chain's
/// writes surface in the other chain's snapshot.
pub proof fn lemma_chain_isolation(
    es: Seq<StateEntry>,
    a: Chain,
    b: Chain,
    id: Seq<char>,
    st: ComponentStateModel,
)
    requires
        a != b,
        kv_unique(es),
    ensures
        chain_states(kv_upsert(es, (b, id), st), a) == chain_states(es, a),
    decreases es.len(),
{
    let key = (b, id);
    if !kv_has_key(es, key) {
        let es2 = es.push((key, st));
        assert(es2.drop_last() =~= es);
        assert(chain_states(es2, a) == chain_states(es, a));
    } else {
        let i = kv_index_of(es, key);
        assert(0 <= i < es.len() && es[i].0 == key);
        let es2 = es.update(i, (key, st));
        if i == es.len() - 1 {
            assert(es2.drop_last() =~= es.drop_last());
            assert(es2.last() == (key, st));
            assert(es.last().0 == key);
            assert(chain_states(es2, a) == chain_states(es.drop_last(), a));
            assert(chain_states(es, a) == chain_states(es.drop_last(), a));
        } else {
            crate::kv::lemma_kv_unique_drop_last(es);
            assert(es.drop_last()[i] == es[i]);
            lemma_kv_index_of_unique(es.drop_last(), key, i);
            lemma_chain_isolation(es.drop_last(), a, b, id, st);
            assert(kv_upsert(es.drop_last(), key, st) == es.drop_last().update(i, (key, st)));
            assert(es2.drop_last() =~= es.drop_last().update(i, (key, st)));
            assert(es2.last() == es.last());
            assert(chain_states(es2.drop_last(), a) == chain_states(es.drop_last(), a));
            assert(chain_states(es2, a) == chain_states(es, a));
        }
    }
}

} // verus!
