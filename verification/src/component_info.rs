//! Caches of protocol-component descriptors, keyed by component id and by
//! chain. Loaded page by page from the remote component listing at startup;
//! the paging itself is network work and lives with the feed layer, which
//! hands each page's components to [`ComponentMap::add_components`].

use vstd::prelude::*;

use crate::kv::{
    kv_has_key, kv_map, kv_unique, kv_upsert, lemma_kv_index_of_unique, lemma_kv_map_index,
    lemma_kv_map_membership, lemma_kv_upsert_map,
};
use crate::models::Chain;

verus! {

/// Descriptor of one liquidity pool as the component listing reports it:
/// its id, the protocol system it belongs to, and its token symbols.
#[derive(Debug)]
pub struct ProtocolComponent {
    pub id: String,
    pub protocol_system: String,
    pub tokens: Vec<String>,
}

/// Mathematical image of a [`ProtocolComponent`].
pub ghost struct ProtocolComponentModel {
    pub id: Seq<char>,
    pub protocol_system: Seq<char>,
    pub tokens: Seq<Seq<char>>,
}

impl View for ProtocolComponent {
    type V = ProtocolComponentModel;

    open spec fn view(&self) -> ProtocolComponentModel {
        ProtocolComponentModel {
            id: self.id@,
            protocol_system: self.protocol_system@,
            tokens: self.tokens.deep_view(),
        }
    }
}

impl DeepView for ProtocolComponent {
    type V = ProtocolComponentModel;

    open spec fn deep_view(&self) -> ProtocolComponentModel {
        self@
    }
}

impl Clone for ProtocolComponent {
    fn clone(&self) -> (r: Self)
        ensures
            r@ == self@,
    {
        let mut tokens: Vec<String> = Vec::new();
        let n = self.tokens.len();
        let mut i: usize = 0;
        while i < n
            invariant
                n == self.tokens.len(),
                i <= n,
                tokens.deep_view() == self.tokens.deep_view().subrange(0, i as int),
            decreases n - i,
        {
            let ghost t0 = tokens.deep_view();
            tokens.push(self.tokens[i].clone());
            proof {
                assert(tokens.deep_view() =~= t0.push(self.tokens.deep_view()[i as int]));
                assert(self.tokens.deep_view().subrange(0, i + 1) =~= t0.push(
                    self.tokens.deep_view()[i as int],
                ));
            }
            i += 1;
        }
        proof {
            assert(self.tokens.deep_view().subrange(0, n as int) =~= self.tokens.deep_view());
        }
        ProtocolComponent {
            id: self.id.clone(),
            protocol_system: self.protocol_system.clone(),
            tokens,
        }
    }
}

/// One map entry as the specifications see it.
pub type ComponentEntry = (Seq<char>, ProtocolComponentModel);

/// The components written under `es`, in entry order.
pub open spec fn component_values(es: Seq<ComponentEntry>) -> Seq<ProtocolComponentModel> {
    es.map_values(|e: ComponentEntry| e.1)
}

/// The map after adding every component of a page in order, each keyed by
/// its own id.
pub open spec fn add_all(es: Seq<ComponentEntry>, components: Seq<ProtocolComponentModel>) -> Seq<
    ComponentEntry,
>
    decreases components.len(),
{
    if components.len() == 0 {
        es
    } else {
        kv_upsert(add_all(es, components.drop_last()), components.last().id, components.last())
    }
}

/// Cache of protocol components for one chain, keyed by component id.
#[derive(Debug)]
pub struct ComponentMap {
    pub entries: Vec<(String, ProtocolComponent)>,
}

impl View for ComponentMap {
    type V = Map<Seq<char>, ProtocolComponentModel>;

    open spec fn view(&self) -> Map<Seq<char>, ProtocolComponentModel> {
        kv_map(self.entry_seq())
    }
}

impl DeepView for ComponentMap {
    type V = Map<Seq<char>, ProtocolComponentModel>;

    open spec fn deep_view(&self) -> Map<Seq<char>, ProtocolComponentModel> {
        self@
    }
}

impl ComponentMap {
    /// The entries in storage order.
    pub open spec fn entry_seq(&self) -> Seq<ComponentEntry> {
        self.entries.deep_view()
    }

    /// Structural invariant: component ids are pairwise distinct.
    pub open spec fn wf(&self) -> bool {
        kv_unique(self.entry_seq())
    }

    pub fn new() -> (m: Self)
        ensures
            m.wf(),
            m.entry_seq() == Seq::<ComponentEntry>::empty(),
            m@ == Map::<Seq<char>, ProtocolComponentModel>::empty(),
    {
        let m = ComponentMap { entries: Vec::new() };
        proof {
            assert(m.entry_seq() =~= Seq::<ComponentEntry>::empty());
        }
        m
    }

    /// Point lookup by component id.
    pub fn get_component(&self, component_id: String) -> (r: Option<ProtocolComponent>)
        requires
            self.wf(),
        ensures
            match r {
                Some(c) => self@.contains_key(component_id@) && c@ == self@[component_id@],
                None => !self@.contains_key(component_id@),
            },
    {
        let ghost es = self.entry_seq();
        let n = self.entries.len();
        let mut i: usize = 0;
        while i < n
            invariant
                n == self.entries.len(),
                es == self.entry_seq(),
                kv_unique(es),
                i <= n,
                forall|m: int| 0 <= m < i ==> (#[trigger] es[m]).0 != component_id@,
            decreases n - i,
        {
            proof {
                assert(es[i as int] == self.entries@[i as int].deep_view());
            }
            if self.entries[i].0 == component_id {
                proof {
                    lemma_kv_map_index(es, i as int);
                }
                return Some(self.entries[i].1.clone());
            }
            i += 1;
        }
        proof {
            assert(!kv_has_key(es, component_id@));
            lemma_kv_map_membership(es, component_id@);
        }
        None
    }

    /// Every cached component, in storage order.
    pub fn get_all_components(&self) -> (r: Vec<ProtocolComponent>)
        ensures
            r.deep_view() == component_values(self.entry_seq()),
    {
        let ghost es = self.entry_seq();
        let n = self.entries.len();
        let mut r: Vec<ProtocolComponent> = Vec::new();
        let mut i: usize = 0;
        while i < n
            invariant
                n == self.entries.len(),
                es == self.entry_seq(),
                i <= n,
                r.deep_view() == component_values(es).subrange(0, i as int),
            decreases n - i,
        {
            let ghost r0 = r.deep_view();
            r.push(self.entries[i].1.clone());
            proof {
                assert(es[i as int] == self.entries@[i as int].deep_view());
                assert(r.deep_view() =~= r0.push(es[i as int].1));
                assert(component_values(es).subrange(0, i + 1) =~= r0.push(es[i as int].1));
            }
            i += 1;
        }
        proof {
            assert(component_values(es).subrange(0, n as int) =~= component_values(es));
        }
        r
    }

    /// Insert a component under its own id, overwriting any previous
    /// component with that id.
    pub fn add_component(&mut self, component: ProtocolComponent)
        requires
            old(self).wf(),
        ensures
            final(self).wf(),
            final(self).entry_seq() == kv_upsert(
                old(self).entry_seq(),
                component@.id,
                component@,
            ),
            final(self)@ == old(self)@.insert(component@.id, component@),
    {
        let ghost key = component@.id;
        let ghost es0 = self.entry_seq();
        let n = self.entries.len();
        let mut i: usize = 0;
        while i < n
            invariant
                n == self.entries.len(),
                i <= n,
                *self == *old(self),
                es0 == self.entry_seq(),
                kv_unique(es0),
                key == component@.id,
                forall|m: int| 0 <= m < i ==> (#[trigger] es0[m]).0 != key,
            decreases n - i,
        {
            proof {
                assert(es0[i as int] == self.entries@[i as int].deep_view());
            }
            if self.entries[i].0 == component.id {
                proof {
                    lemma_kv_index_of_unique(es0, key, i as int);
                    lemma_kv_upsert_map(es0, key, component@);
                }
                let key_string = component.id.clone();
                self.entries[i] = (key_string, component);
                proof {
                    assert(final(self).entry_seq() =~= es0.update(i as int, (key, component@)));
                }
                return ;
            }
            i += 1;
        }
        proof {
            assert(!kv_has_key(es0, key));
            lemma_kv_upsert_map(es0, key, component@);
        }
        let key_string = component.id.clone();
        self.entries.push((key_string, component));
        proof {
            assert(final(self).entry_seq() =~= es0.push((key, component@)));
        }
    }

    /// Add one page of components, in page order, each keyed by its id.
    pub fn add_components(&mut self, components: Vec<ProtocolComponent>)
        requires
            old(self).wf(),
        ensures
            final(self).wf(),
            final(self).entry_seq() == add_all(old(self).entry_seq(), components.deep_view()),
    {
        let ghost es0 = self.entry_seq();
        let ghost page = components.deep_view();
        let n = components.len();
        let mut i: usize = 0;
        let mut components = components;
        while i < n
            invariant
                n == components.len(),
                i <= n,
                page == components.deep_view(),
                self.wf(),
                self.entry_seq() == add_all(es0, page.subrange(0, i as int)),
            decreases n - i,
        {
            proof {
                assert(page[i as int] == components@[i as int].deep_view());
                assert(page.subrange(0, i + 1).drop_last() =~= page.subrange(0, i as int));
                assert(page.subrange(0, i + 1).last() == page[i as int]);
            }
            let c = components[i].clone();
            self.add_component(c);
            i += 1;
        }
        proof {
            assert(page.subrange(0, n as int) =~= page);
        }
    }
}

/// Per-chain component caches.
#[derive(Debug)]
pub struct ChainComponentMap {
    pub entries: Vec<(Chain, ComponentMap)>,
}

impl View for ChainComponentMap {
    type V = Map<Chain, Map<Seq<char>, ProtocolComponentModel>>;

    open spec fn view(&self) -> Map<Chain, Map<Seq<char>, ProtocolComponentModel>> {
        kv_map(self.entry_seq())
    }
}

impl ChainComponentMap {
    /// The per-chain entries in storage order, each chain paired with the
    /// map its cache denotes.
    pub open spec fn entry_seq(&self) -> Seq<(Chain, Map<Seq<char>, ProtocolComponentModel>)> {
        self.entries.deep_view()
    }

    /// Structural invariant: chains are pairwise distinct and every inner
    /// cache is well formed.
    pub open spec fn wf(&self) -> bool {
        kv_unique(self.entry_seq()) && (forall|i: int|
            0 <= i < self.entries@.len() ==> (#[trigger] self.entries@[i]).1.wf())
    }

    pub fn new() -> (m: Self)
        ensures
            m.wf(),
            m@ == Map::<Chain, Map<Seq<char>, ProtocolComponentModel>>::empty(),
    {
        let m = ChainComponentMap { entries: Vec::new() };
        proof {
            assert(m.entry_seq() =~= Seq::<(Chain, Map<Seq<char>, ProtocolComponentModel>)>::empty());
        }
        m
    }

    /// The cache for one chain, if any component was ever added for it.
    pub fn get_component_map(&self, chain: Chain) -> (r: Option<&ComponentMap>)
        requires
            self.wf(),
        ensures
            match r {
                Some(m) => self@.contains_key(chain) && m@ == self@[chain] && m.wf(),
                None => !self@.contains_key(chain),
            },
    {
        let ghost es = self.entry_seq();
        let n = self.entries.len();
        let mut i: usize = 0;
        while i < n
            invariant
                n == self.entries.len(),
                es == self.entry_seq(),
                kv_unique(es),
                i <= n,
                forall|m: int| 0 <= m < i ==> (#[trigger] es[m]).0 != chain,
                forall|m: int|
                    0 <= m < self.entries@.len() ==> (#[trigger] self.entries@[m]).1.wf(),
            decreases n - i,
        {
            proof {
                assert(es[i as int] == self.entries@[i as int].deep_view());
            }
            if self.entries[i].0 == chain {
                proof {
                    lemma_kv_map_index(es, i as int);
                }
                return Some(&self.entries[i].1);
            }
            i += 1;
        }
        proof {
            assert(!kv_has_key(es, chain));
            lemma_kv_map_membership(es, chain);
        }
        None
    }

    /// Point lookup across chains: the component cached for
    /// (chain, component id), if any.
    pub fn get_component(&self, chain: Chain, component_id: String) -> (r: Option<
        ProtocolComponent,
    >)
        requires
            self.wf(),
        ensures
            match r {
                Some(c) => self@.contains_key(chain) && self@[chain].contains_key(component_id@)
                    && c@ == self@[chain][component_id@],
                None => !self@.contains_key(chain) || !self@[chain].contains_key(component_id@),
            },
    {
        match self.get_component_map(chain) {
            Some(m) => m.get_component(component_id),
            None => None,
        }
    }

    /// Insert a component under (chain, its id), creating the chain's cache
    /// on first use.
    pub fn add_component(&mut self, chain: Chain, component: ProtocolComponent)
        requires
            old(self).wf(),
        ensures
            final(self).wf(),
            final(self)@ == old(self)@.insert(
                chain,
                if old(self)@.contains_key(chain) {
                    old(self)@[chain].insert(component@.id, component@)
                } else {
                    Map::<Seq<char>, ProtocolComponentModel>::empty().insert(
                        component@.id,
                        component@,
                    )
                },
            ),
    {
        let ghost es0 = self.entry_seq();
        let ghost comp = component@;
        let n = self.entries.len();
        let mut i: usize = 0;
        while i < n
            invariant
                n == self.entries.len(),
                i <= n,
                *self == *old(self),
                old(self).wf(),
                es0 == self.entry_seq(),
                comp == component@,
                forall|m: int| 0 <= m < i ==> (#[trigger] es0[m]).0 != chain,
            decreases n - i,
        {
            proof {
                assert(es0[i as int] == self.entries@[i as int].deep_view());
            }
            if self.entries[i].0 == chain {
                proof {
                    lemma_kv_index_of_unique(es0, chain, i as int);
                    lemma_kv_map_index(es0, i as int);
                }
                let ghost inner0 = es0[i as int].1;
                proof {
                    assert(self.entries@[i as int].0 == chain);
                    assert(self.entries@[i as int].1@ == inner0);
                }
                let cm = &mut self.entries[i].1;
                cm.add_component(component);
                proof {
                    let es1 = self.entry_seq();
                    assert(self.entries@[i as int].0 == chain);
                    assert(self.entries@[i as int].1@ == inner0.insert(comp.id, comp));
                    assert(forall|m: int|
                        0 <= m < self.entries@.len() && m != i ==> (#[trigger] self.entries@[m])
                            == old(self).entries@[m]);
                    assert(es1 =~= es0.update(i as int, (chain, inner0.insert(comp.id, comp))));
                    assert(es1 == kv_upsert(es0, chain, inner0.insert(comp.id, comp)));
                    lemma_kv_upsert_map(es0, chain, inner0.insert(comp.id, comp));
                    assert forall|m: int|
                        0 <= m < self.entries@.len() implies (#[trigger] self.entries@[m]).1.wf() by {
                        if m != i {
                            assert(self.entries@[m] == old(self).entries@[m]);
                        }
                    }
                }
                return ;
            }
            i += 1;
        }
        proof {
            assert(!kv_has_key(es0, chain));
            lemma_kv_map_membership(es0, chain);
        }
        let mut component_map = ComponentMap::new();
        component_map.add_component(component);
        proof {
            lemma_kv_upsert_map(
                es0,
                chain,
                Map::<Seq<char>, ProtocolComponentModel>::empty().insert(comp.id, comp),
            );
        }
        self.entries.push((chain, component_map));
        proof {
            assert(final(self).entry_seq() =~= es0.push(
                (chain, Map::<Seq<char>, ProtocolComponentModel>::empty().insert(comp.id, comp)),
            ));
            assert forall|m: int|
                0 <= m < self.entries@.len() implies (#[trigger] self.entries@[m]).1.wf() by {
                if m < self.entries@.len() - 1 {
                    assert(self.entries@[m] == old(self).entries@[m]);
                }
            }
        }
    }
}

} // verus!
