//! The registry: which domains are routable, and the supervised pool of each.
//!
//! A domain is kept under its canonical form, so every operation finds it
//! whatever the case of the letters it is asked with. Each pool that is
//! installed gets an identifier that no earlier pool of this registry had. A
//! probe loop names its pool by domain and identifier: once the pool has been
//! removed or replaced, the loop's reports reach nothing and it is told to end.

use vstd::prelude::*;
use super::address::BackendAddress;
use super::domain::{ascii_lowercase, canonical, lemma_canonical_is_idempotent};
use super::health_check::{
    Lifecycle,
    ProbeAction,
    ProbeActionView,
    ProbeEvent,
    SupervisorView,
    UpstreamsHealthCheck,
};

verus! {

/// What the registry holds for one domain.
pub struct EntryView {
    /// The identifier of the pool.
    pub id: int,
    /// The pool's supervisor.
    pub supervisor: SupervisorView,
}

/// The outcome of a selection by domain.
#[derive(Clone, Copy, Debug, PartialEq, Eq, Structural)]
pub enum Selection {
    /// The domain is not registered.
    NotFound,
    /// The domain is registered and none of its backends is live.
    Unavailable,
    /// The backend chosen.
    Backend(BackendAddress),
}

/// A domain with all its configured backends.
#[derive(Debug, PartialEq, Eq)]
pub struct DomainAddress {
    pub domain: String,
    pub address: Vec<BackendAddress>,
}

/// Mathematical form of a [`DomainAddress`].
pub struct DomainAddressView {
    pub domain: Seq<char>,
    pub address: Seq<BackendAddress>,
}

impl DeepView for DomainAddress {
    type V = DomainAddressView;

    open spec fn deep_view(&self) -> DomainAddressView {
        DomainAddressView { domain: self.domain@, address: self.address@ }
    }
}

/// Mathematical form of a [`Registry`]: a map from canonical domains to entries,
/// and the identifier that the next pool will get.
pub struct RegistryView {
    pub entries: Map<Seq<char>, EntryView>,
    pub next_id: int,
}

impl RegistryView {
    /// The invariant of a registry: every key is a canonical name and not empty,
    /// every supervisor is valid and has been launched, and every identifier in
    /// use is below the next one.
    pub open spec fn wf(self) -> bool {
        &&& 0 <= self.next_id <= u64::MAX
        &&& forall|key: Seq<char>| #[trigger]
            self.entries.dom().contains(key) ==> {
                &&& key.len() > 0
                &&& canonical(key) == key
                &&& self.entries[key].supervisor.wf()
                &&& self.entries[key].supervisor.state != Lifecycle::Starting
                &&& 0 <= self.entries[key].id < self.next_id
            }
    }

    /// Whether `domain` is registered.
    pub open spec fn contains(self, domain: Seq<char>) -> bool {
        self.entries.dom().contains(canonical(domain))
    }

    /// The supervisor of `domain`, where it is registered.
    pub open spec fn get(self, domain: Seq<char>) -> Option<SupervisorView> {
        if self.contains(domain) {
            Some(self.entries[canonical(domain)].supervisor)
        } else {
            None
        }
    }

    /// Whether a pool can still be installed: identifiers are left.
    pub open spec fn has_room(self) -> bool {
        self.next_id < u64::MAX
    }

    /// Whether a pool can be installed under `domain`: the name is not empty and
    /// there is room.
    pub open spec fn accepts(self, domain: Seq<char>) -> bool {
        domain.len() > 0 && self.has_room()
    }

    /// The registry with `supervisor` launched and installed under `domain`, in
    /// place of what was there. Where the domain is not accepted the registry
    /// stays as it is.
    pub open spec fn insert(self, domain: Seq<char>, supervisor: SupervisorView) -> RegistryView {
        if self.accepts(domain) {
            RegistryView {
                entries: self.entries.insert(
                    canonical(domain),
                    EntryView { id: self.next_id, supervisor: supervisor.started() },
                ),
                next_id: self.next_id + 1,
            }
        } else {
            self
        }
    }

    /// The registry without `domain`.
    pub open spec fn remove(self, domain: Seq<char>) -> RegistryView {
        RegistryView { entries: self.entries.remove(canonical(domain)), ..self }
    }

    /// One selection for `domain`: its outcome, and the registry afterwards. Only
    /// the cursor of the domain's pool moves, and only when a backend is chosen.
    pub open spec fn select(self, domain: Seq<char>) -> (Selection, RegistryView) {
        let key = canonical(domain);
        if !self.entries.dom().contains(key) {
            (Selection::NotFound, self)
        } else {
            let entry = self.entries[key];
            match entry.supervisor.pool.select().0 {
                None => (Selection::Unavailable, self),
                Some(backend) => (
                    Selection::Backend(backend),
                    RegistryView {
                        entries: self.entries.insert(
                            key,
                            EntryView {
                                supervisor: SupervisorView {
                                    pool: entry.supervisor.pool.select().1,
                                    ..entry.supervisor
                                },
                                ..entry
                            },
                        ),
                        ..self
                    },
                ),
            }
        }
    }

    /// Whether the pool `id` is the one registered for `domain`.
    pub open spec fn holds(self, domain: Seq<char>, id: int) -> bool {
        self.contains(domain) && self.entries[canonical(domain)].id == id
    }

    /// The registry after the probe loop of pool `id` of `domain` has reported
    /// `event`, and what the loop is told. A loop whose pool is no longer the one
    /// registered changes nothing and is told to end.
    pub open spec fn on_probe(self, domain: Seq<char>, id: int, event: ProbeEvent) -> (
        RegistryView,
        ProbeActionView,
    ) {
        if self.holds(domain, id) {
            let key = canonical(domain);
            let entry = self.entries[key];
            (
                RegistryView {
                    entries: self.entries.insert(
                        key,
                        EntryView { supervisor: entry.supervisor.on_event(event).0, ..entry },
                    ),
                    ..self
                },
                entry.supervisor.on_event(event).1,
            )
        } else {
            (self, ProbeActionView::Exit)
        }
    }

    /// The registry with every supervisor told to stop. No entry leaves.
    pub open spec fn stop_all(self) -> RegistryView {
        RegistryView {
            entries: Map::new(
                |key: Seq<char>| self.entries.dom().contains(key),
                |key: Seq<char>|
                    EntryView {
                        supervisor: self.entries[key].supervisor.stopping(),
                        ..self.entries[key]
                    },
            ),
            ..self
        }
    }

    /// Whether `listing` shows this registry: one item for each registered
    /// domain, none for any other, each with all the configured backends of its
    /// domain, live or not.
    pub open spec fn listed_as(self, listing: Seq<DomainAddressView>) -> bool {
        &&& forall|i: int|
            0 <= i < listing.len() ==> {
                &&& self.entries.dom().contains(#[trigger] listing[i].domain)
                &&& listing[i].address == self.entries[listing[i].domain].supervisor.pool.backends
            }
        &&& forall|i: int, j: int|
            0 <= i < j < listing.len() ==> (#[trigger] listing[i]).domain != (
            #[trigger] listing[j]).domain
        &&& forall|key: Seq<char>| #[trigger]
            self.entries.dom().contains(key) ==> exists|i: int|
                0 <= i < listing.len() && (#[trigger] listing[i]).domain == key
    }
}

struct Entry {
    domain: String,
    id: u64,
    supervisor: UpstreamsHealthCheck,
}

impl Entry {
    spec fn key(self) -> Seq<char> {
        self.domain@
    }

    spec fn value(self) -> EntryView {
        EntryView { id: self.id as int, supervisor: self.supervisor@ }
    }
}

/// Whether no two entries have the same domain.
spec fn keys_distinct(entries: Seq<Entry>) -> bool {
    forall|i: int, j: int|
        0 <= i < j < entries.len() ==> (#[trigger] entries[i]).key() != (#[trigger] entries[j]).key()
}

/// Whether some entry has the domain `key`.
spec fn has_key(entries: Seq<Entry>, key: Seq<char>) -> bool {
    exists|i: int| 0 <= i < entries.len() && (#[trigger] entries[i]).key() == key
}

/// The position of an entry with the domain `key`.
spec fn position_of(entries: Seq<Entry>, key: Seq<char>) -> int {
    choose|i: int| 0 <= i < entries.len() && (#[trigger] entries[i]).key() == key
}

/// The map that the entries stand for.
spec fn mapping(entries: Seq<Entry>) -> Map<Seq<char>, EntryView> {
    Map::new(
        |key: Seq<char>| has_key(entries, key),
        |key: Seq<char>| entries[position_of(entries, key)].value(),
    )
}

/// With distinct keys, the map holds each entry under its key.
proof fn lemma_mapping_at(entries: Seq<Entry>, i: int)
    requires
        keys_distinct(entries),
        0 <= i < entries.len(),
    ensures
        has_key(entries, entries[i].key()),
        position_of(entries, entries[i].key()) == i,
        mapping(entries).dom().contains(entries[i].key()),
        mapping(entries)[entries[i].key()] == entries[i].value(),
{
    let key = entries[i].key();
    let at = position_of(entries, key);
    assert(0 <= at < entries.len() && entries[at].key() == key);
    if at < i {
        assert(entries[at].key() != entries[i].key());
    } else if i < at {
        assert(entries[i].key() != entries[at].key());
    }
}

/// Changing the value at one place, and not its key, changes the map there.
proof fn lemma_mapping_update(before: Seq<Entry>, after: Seq<Entry>, at: int)
    requires
        keys_distinct(before),
        before.len() == after.len(),
        0 <= at < before.len(),
        after[at].key() == before[at].key(),
        forall|i: int|
            0 <= i < before.len() && i != at ==> (#[trigger] after[i]).key() == before[i].key()
                && after[i].value() == before[i].value(),
    ensures
        keys_distinct(after),
        mapping(after) == mapping(before).insert(before[at].key(), after[at].value()),
{
    assert forall|i: int, j: int| 0 <= i < j < after.len() implies (#[trigger] after[i]).key() != (
    #[trigger] after[j]).key() by {
        assert(before[i].key() != before[j].key());
    }
    let target = mapping(before).insert(before[at].key(), after[at].value());
    assert forall|key: Seq<char>| mapping(after).dom().contains(key) == target.dom().contains(
        key,
    ) by {
        if has_key(after, key) {
            let i = position_of(after, key);
            assert(before[i].key() == key);
        }
        if has_key(before, key) {
            let i = position_of(before, key);
            assert(after[i].key() == key);
        }
        assert(after[at].key() == before[at].key());
    }
    assert forall|key: Seq<char>| mapping(after).dom().contains(key) implies mapping(after)[key]
        == target[key] by {
        let i = position_of(after, key);
        lemma_mapping_at(after, i);
        assert(before[i].key() == key);
        lemma_mapping_at(before, i);
    }
    assert(mapping(after) =~= target);
}

/// Appending an entry with a new key adds it to the map.
proof fn lemma_mapping_push(before: Seq<Entry>, entry: Entry)
    requires
        keys_distinct(before),
        !has_key(before, entry.key()),
    ensures
        keys_distinct(before.push(entry)),
        mapping(before.push(entry)) == mapping(before).insert(entry.key(), entry.value()),
{
    let after = before.push(entry);
    assert forall|i: int, j: int| 0 <= i < j < after.len() implies (#[trigger] after[i]).key() != (
    #[trigger] after[j]).key() by {
        if j < before.len() {
            assert(before[i].key() != before[j].key());
        } else {
            assert(before[i].key() != entry.key());
        }
    }
    let target = mapping(before).insert(entry.key(), entry.value());
    assert forall|key: Seq<char>| mapping(after).dom().contains(key) == target.dom().contains(
        key,
    ) by {
        if has_key(after, key) {
            let i = position_of(after, key);
            if i < before.len() {
                assert(before[i].key() == key);
            }
        }
        if has_key(before, key) {
            let i = position_of(before, key);
            assert(after[i].key() == key);
        }
        assert(after[before.len() as int].key() == entry.key());
    }
    assert forall|key: Seq<char>| mapping(after).dom().contains(key) implies mapping(after)[key]
        == target[key] by {
        let i = position_of(after, key);
        lemma_mapping_at(after, i);
        if i < before.len() {
            assert(before[i].key() == key);
            lemma_mapping_at(before, i);
        }
    }
    assert(mapping(after) =~= target);
}

/// Taking an entry out takes its key out of the map.
proof fn lemma_mapping_remove(before: Seq<Entry>, at: int)
    requires
        keys_distinct(before),
        0 <= at < before.len(),
    ensures
        keys_distinct(before.remove(at)),
        mapping(before.remove(at)) == mapping(before).remove(before[at].key()),
{
    let after = before.remove(at);
    assert forall|i: int, j: int| 0 <= i < j < after.len() implies (#[trigger] after[i]).key() != (
    #[trigger] after[j]).key() by {
        let i0 = if i < at {
            i
        } else {
            i + 1
        };
        let j0 = if j < at {
            j
        } else {
            j + 1
        };
        assert(before[i0].key() != before[j0].key());
    }
    let target = mapping(before).remove(before[at].key());
    assert forall|key: Seq<char>| mapping(after).dom().contains(key) == target.dom().contains(
        key,
    ) by {
        if has_key(after, key) {
            let i = position_of(after, key);
            let i0 = if i < at {
                i
            } else {
                i + 1
            };
            assert(before[i0].key() == key);
            if i0 < at {
                assert(before[i0].key() != before[at].key());
            } else {
                assert(before[at].key() != before[i0].key());
            }
        }
        if has_key(before, key) && key != before[at].key() {
            let i = position_of(before, key);
            let i1 = if i < at {
                i
            } else {
                i - 1
            };
            assert(after[i1].key() == key);
        }
    }
    assert forall|key: Seq<char>| mapping(after).dom().contains(key) implies mapping(after)[key]
        == target[key] by {
        let i = position_of(after, key);
        lemma_mapping_at(after, i);
        let i0 = if i < at {
            i
        } else {
            i + 1
        };
        assert(before[i0].key() == key);
        lemma_mapping_at(before, i0);
    }
    assert(mapping(after) =~= target);
}

/// The routable domains and their supervised pools.
pub struct Registry {
    entries: Vec<Entry>,
    next_id: u64,
}

impl View for Registry {
    type V = RegistryView;

    closed spec fn view(&self) -> RegistryView {
        RegistryView { entries: mapping(self.entries@), next_id: self.next_id as int }
    }
}

impl Registry {
    /// Whether no domain is held twice.
    pub closed spec fn distinct(&self) -> bool {
        keys_distinct(self.entries@)
    }

    /// The invariant of a registry: no domain is held twice, and what is held is
    /// valid. Every function of the registry keeps it.
    pub open spec fn wf(&self) -> bool {
        &&& self.distinct()
        &&& self@.wf()
    }

    /// A registry with no domain.
    pub fn new() -> (registry: Registry)
        ensures
            registry.wf(),
            registry@.entries == Map::<Seq<char>, EntryView>::empty(),
            registry@.next_id == 0,
    {
        let registry = Registry { entries: Vec::new(), next_id: 0 };
        assert(registry@.entries =~= Map::<Seq<char>, EntryView>::empty());
        registry
    }

    /// Where the entry of the canonical `key` stands.
    fn position(&self, key: &String) -> (at: Option<usize>)
        requires
            self.wf(),
        ensures
            match at {
                Some(i) => {
                    &&& i < self.entries@.len()
                    &&& self.entries@[i as int].key() == key@
                    &&& self@.entries.dom().contains(key@)
                    &&& self@.entries[key@] == self.entries@[i as int].value()
                },
                None => !self@.entries.dom().contains(key@),
            },
    {
        let mut i: usize = 0;
        while i < self.entries.len()
            invariant
                self.wf(),
                i <= self.entries.len(),
                forall|k: int| 0 <= k < i ==> (#[trigger] self.entries@[k]).key() != key@,
            decreases self.entries.len() - i,
        {
            if self.entries[i].domain == *key {
                proof {
                    lemma_mapping_at(self.entries@, i as int);
                }
                return Some(i);
            }
            i += 1;
        }
        proof {
            if has_key(self.entries@, key@) {
                let k = position_of(self.entries@, key@);
                assert(self.entries@[k].key() != key@);
            }
        }
        None
    }

    /// Whether `domain` is registered.
    pub fn contains(&self, domain: &str) -> (found: bool)
        requires
            self.wf(),
        ensures
            found == self@.contains(domain@),
    {
        let key = ascii_lowercase(domain);
        self.position(&key).is_some()
    }

    /// The supervisor of `domain`, where it is registered.
    pub fn get(&self, domain: &str) -> (found: Option<&UpstreamsHealthCheck>)
        requires
            self.wf(),
        ensures
            match found {
                Some(supervisor) => Some(supervisor@) == self@.get(domain@) && supervisor@.wf(),
                None => self@.get(domain@) is None,
            },
    {
        let key = ascii_lowercase(domain);
        match self.position(&key) {
            Some(i) => Some(&self.entries[i].supervisor),
            None => None,
        }
    }

    /// The identifier of the pool registered for `domain`.
    pub fn id_of(&self, domain: &str) -> (found: Option<u64>)
        requires
            self.wf(),
        ensures
            match found {
                Some(id) => self@.holds(domain@, id as int),
                None => !self@.contains(domain@),
            },
    {
        let key = ascii_lowercase(domain);
        match self.position(&key) {
            Some(i) => Some(self.entries[i].id),
            None => None,
        }
    }

    /// Launches `supervisor` and installs it under `domain`, in place of what was
    /// there, and returns the identifier of the new pool: one that no pool of
    /// this registry had before. So no pool is seen in the registry before it
    /// runs. A supervisor that is displaced is dropped; its probe loop, which
    /// names it by the old identifier, is told to end at its next report.
    ///
    /// `None` means that the domain is not accepted: its name is empty, or
    /// identifiers have run out, after 2^64 - 1 pools. The registry is then as it
    /// was.
    pub fn insert(&mut self, domain: &str, supervisor: UpstreamsHealthCheck) -> (id: Option<u64>)
        requires
            old(self).wf(),
            supervisor@.wf(),
        ensures
            final(self).wf(),
            final(self)@ == old(self)@.insert(domain@, supervisor@),
            match id {
                Some(id) => old(self)@.accepts(domain@) && id == old(self)@.next_id,
                None => !old(self)@.accepts(domain@),
            },
    {
        if domain.is_empty() || self.next_id == u64::MAX {
            return None;
        }
        let key = ascii_lowercase(domain);
        proof {
            lemma_canonical_is_idempotent(domain@);
        }
        let mut supervisor = supervisor;
        supervisor.start();
        let id = self.next_id;
        let ghost before = self.entries@;
        match self.position(&key) {
            Some(i) => {
                self.entries.set(i, Entry { domain: key, id, supervisor });
                self.next_id = id + 1;
                proof {
                    lemma_mapping_update(before, self.entries@, i as int);
                }
            },
            None => {
                let entry = Entry { domain: key, id, supervisor };
                proof {
                    lemma_mapping_push(before, entry);
                }
                self.entries.push(entry);
                self.next_id = id + 1;
            },
        }
        Some(id)
    }

    /// Takes `domain` out and returns its supervisor, told to stop. Where the
    /// domain is not registered this does nothing and returns `None`.
    pub fn remove(&mut self, domain: &str) -> (removed: Option<UpstreamsHealthCheck>)
        requires
            old(self).wf(),
        ensures
            final(self).wf(),
            final(self)@ == old(self)@.remove(domain@),
            !old(self)@.contains(domain@) ==> final(self)@ == old(self)@,
            match removed {
                Some(supervisor) => {
                    &&& old(self)@.contains(domain@)
                    &&& supervisor@ == old(self)@.entries[canonical(domain@)].supervisor.stopping()
                },
                None => !old(self)@.contains(domain@),
            },
    {
        let key = ascii_lowercase(domain);
        let ghost before = self.entries@;
        match self.position(&key) {
            Some(i) => {
                proof {
                    lemma_mapping_remove(before, i as int);
                }
                let entry = self.entries.remove(i);
                let mut supervisor = entry.supervisor;
                supervisor.stop();
                Some(supervisor)
            },
            None => {
                assert(self@.entries.remove(key@) =~= self@.entries);
                None
            },
        }
    }

    /// Every registered domain with all its configured backends, live or not.
    pub fn list(&self) -> (listing: Vec<DomainAddress>)
        requires
            self.wf(),
        ensures
            self@.listed_as(listing.deep_view()),
    {
        let mut listing: Vec<DomainAddress> = Vec::new();
        let mut i: usize = 0;
        while i < self.entries.len()
            invariant
                self.wf(),
                i <= self.entries.len(),
                listing@.len() == i,
                forall|k: int|
                    0 <= k < i ==> {
                        &&& (#[trigger] listing@[k]).domain@ == self.entries@[k].key()
                        &&& listing@[k].address@ == self.entries@[k].supervisor@.pool.backends
                    },
            decreases self.entries.len() - i,
        {
            let item = DomainAddress {
                domain: self.entries[i].domain.clone(),
                address: self.entries[i].supervisor.get_backends(),
            };
            listing.push(item);
            i += 1;
        }
        proof {
            let shown = listing.deep_view();
            assert forall|k: int| 0 <= k < shown.len() implies {
                &&& self@.entries.dom().contains(#[trigger] shown[k].domain)
                &&& shown[k].address == self@.entries[shown[k].domain].supervisor.pool.backends
            } by {
                assert(shown[k].domain == listing@[k].domain@);
                lemma_mapping_at(self.entries@, k);
            }
            assert forall|k: int, l: int| 0 <= k < l < shown.len() implies (
            #[trigger] shown[k]).domain != (#[trigger] shown[l]).domain by {
                assert(shown[k].domain == listing@[k].domain@);
                assert(shown[l].domain == listing@[l].domain@);
                assert(self.entries@[k].key() != self.entries@[l].key());
            }
            assert forall|key: Seq<char>| #[trigger]
                self@.entries.dom().contains(key) implies exists|k: int|
                0 <= k < shown.len() && (#[trigger] shown[k]).domain == key by {
                let k = position_of(self.entries@, key);
                assert(shown[k].domain == listing@[k].domain@);
            }
        }
        listing
    }

    /// Chooses the next live backend of `domain` in rotation.
    pub fn select(&mut self, domain: &str) -> (selection: Selection)
        requires
            old(self).wf(),
        ensures
            final(self).wf(),
            (selection, final(self)@) == old(self)@.select(domain@),
    {
        let key = ascii_lowercase(domain);
        let ghost before = self.entries@;
        match self.position(&key) {
            Some(i) => {
                let picked = self.entries[i].supervisor.select();
                proof {
                    super::pool::lemma_select(before[i as int].supervisor@.pool);
                    lemma_mapping_update(before, self.entries@, i as int);
                }
                match picked {
                    Some(backend) => Selection::Backend(backend),
                    None => {
                        assert(self@.entries =~= old(self)@.entries);
                        Selection::Unavailable
                    },
                }
            },
            None => Selection::NotFound,
        }
    }

    /// Takes one report of the probe loop of pool `id` of `domain` and says what
    /// the loop does next.
    pub fn on_probe(&mut self, domain: &str, id: u64, event: ProbeEvent) -> (action: ProbeAction)
        requires
            old(self).wf(),
        ensures
            final(self).wf(),
            (final(self)@, action@) == old(self)@.on_probe(domain@, id as int, event),
    {
        let key = ascii_lowercase(domain);
        let ghost before = self.entries@;
        match self.position(&key) {
            Some(i) => {
                if self.entries[i].id == id {
                    let action = self.entries[i].supervisor.on_event(event);
                    proof {
                        lemma_mapping_update(before, self.entries@, i as int);
                    }
                    action
                } else {
                    ProbeAction::Exit
                }
            },
            None => ProbeAction::Exit,
        }
    }

    /// Tells every supervisor to stop. The entries stay: a stopped pool still
    /// answers selections from its last known liveness.
    pub fn stop_all(&mut self)
        requires
            old(self).wf(),
        ensures
            final(self).wf(),
            final(self)@ == old(self)@.stop_all(),
    {
        let ghost before = self.entries@;
        let mut i: usize = 0;
        while i < self.entries.len()
            invariant
                i <= self.entries.len(),
                self.entries@.len() == before.len(),
                self.next_id == old(self).next_id,
                forall|k: int|
                    0 <= k < before.len() ==> (#[trigger] self.entries@[k]).key() == before[k].key()
                        && self.entries@[k].id == before[k].id,
                forall|k: int|
                    0 <= k < i ==> (#[trigger] self.entries@[k]).supervisor@
                        == before[k].supervisor@.stopping(),
                forall|k: int|
                    i <= k < before.len() ==> (#[trigger] self.entries@[k]).supervisor@
                        == before[k].supervisor@,
            decreases self.entries.len() - i,
        {
            self.entries[i].supervisor.stop();
            i += 1;
        }
        proof {
            let after = self.entries@;
            assert forall|a: int, b: int| 0 <= a < b < after.len() implies (
            #[trigger] after[a]).key() != (#[trigger] after[b]).key() by {
                assert(before[a].key() != before[b].key());
            }
            let target = old(self)@.stop_all().entries;
            assert forall|key: Seq<char>| mapping(after).dom().contains(key)
                == target.dom().contains(key) by {
                if has_key(after, key) {
                    let k = position_of(after, key);
                    assert(before[k].key() == key);
                }
                if has_key(before, key) {
                    let k = position_of(before, key);
                    assert(after[k].key() == key);
                }
            }
            assert forall|key: Seq<char>| mapping(after).dom().contains(key) implies mapping(
                after,
            )[key] == target[key] by {
                let k = position_of(after, key);
                lemma_mapping_at(after, k);
                assert(before[k].key() == key);
                lemma_mapping_at(before, k);
            }
            assert(mapping(after) =~= target);
        }
    }
}

/// Installing a valid supervisor keeps the invariant of the registry.
pub proof fn lemma_insert_keeps_the_invariant(
    registry: RegistryView,
    domain: Seq<char>,
    supervisor: SupervisorView,
)
    requires
        registry.wf(),
        supervisor.wf(),
    ensures
        registry.insert(domain, supervisor).wf(),
{
    lemma_canonical_is_idempotent(domain);
}

/// Removing, selecting, probing and stopping keep the invariant of the registry.
pub proof fn lemma_operations_keep_the_invariant(
    registry: RegistryView,
    domain: Seq<char>,
    id: int,
    event: ProbeEvent,
)
    requires
        registry.wf(),
    ensures
        registry.remove(domain).wf(),
        registry.select(domain).1.wf(),
        registry.on_probe(domain, id, event).0.wf(),
        registry.stop_all().wf(),
{
    let key = canonical(domain);
    if registry.entries.dom().contains(key) {
        super::pool::lemma_select(registry.entries[key].supervisor.pool);
    }
    let stopped = registry.stop_all();
    assert forall|key: Seq<char>| #[trigger] stopped.entries.dom().contains(key) implies {
        &&& key.len() > 0
        &&& canonical(key) == key
        &&& stopped.entries[key].supervisor.wf()
        &&& stopped.entries[key].supervisor.state != Lifecycle::Starting
        &&& 0 <= stopped.entries[key].id < stopped.next_id
    } by {
        assert(registry.entries.dom().contains(key));
    }
}

/// No operation makes the next identifier smaller, and none but an installation
/// changes it; so an identifier, once given out, is never given out again.
pub proof fn law_identifiers_are_never_reused(
    registry: RegistryView,
    domain: Seq<char>,
    supervisor: SupervisorView,
    id: int,
    event: ProbeEvent,
)
    requires
        registry.wf(),
    ensures
        registry.insert(domain, supervisor).next_id >= registry.next_id,
        registry.accepts(domain) ==> registry.insert(domain, supervisor).holds(
            domain,
            registry.next_id,
        )
            && registry.insert(domain, supervisor).next_id == registry.next_id + 1,
        registry.remove(domain).next_id == registry.next_id,
        registry.select(domain).1.next_id == registry.next_id,
        registry.on_probe(domain, id, event).0.next_id == registry.next_id,
        registry.stop_all().next_id == registry.next_id,
        forall|key: Seq<char>| #[trigger]
            registry.entries.dom().contains(key) ==> registry.entries[key].id < registry.next_id,
{
}

/// A domain that was removed is not registered and not listed, a request for it
/// finds nothing, and the probe loop of its former pool changes nothing from
/// then on and is told to end.
pub proof fn law_removed_domain_is_gone(
    registry: RegistryView,
    domain: Seq<char>,
    listing: Seq<DomainAddressView>,
    id: int,
    event: ProbeEvent,
)
    requires
        registry.remove(domain).listed_as(listing),
    ensures
        !registry.remove(domain).contains(domain),
        forall|i: int| 0 <= i < listing.len() ==> (#[trigger] listing[i]).domain != canonical(domain),
        registry.remove(domain).select(domain) == (Selection::NotFound, registry.remove(domain)),
        registry.remove(domain).on_probe(domain, id, event) == (
            registry.remove(domain),
            ProbeActionView::Exit,
        ),
{
    let after = registry.remove(domain);
    assert forall|i: int| 0 <= i < listing.len() implies (#[trigger] listing[i]).domain
        != canonical(domain) by {
        assert(after.entries.dom().contains(listing[i].domain));
    }
}

/// Removing a domain that is not registered changes nothing; so removing a
/// domain twice is removing it once.
pub proof fn law_removing_an_absent_domain_changes_nothing(registry: RegistryView, domain: Seq<char>)
    ensures
        !registry.contains(domain) ==> registry.remove(domain) == registry,
        registry.remove(domain).remove(domain) == registry.remove(domain),
{
    if !registry.contains(domain) {
        assert(registry.entries.remove(canonical(domain)) =~= registry.entries);
    }
    assert(registry.entries.remove(canonical(domain)).remove(canonical(domain))
        =~= registry.entries.remove(canonical(domain)));
}

/// Once a pool has been replaced, the probe loop of the old pool changes nothing
/// and is told to end: the new pool has an identifier that the old loop does not
/// know.
pub proof fn law_replaced_pool_is_out_of_reach(
    registry: RegistryView,
    domain: Seq<char>,
    supervisor: SupervisorView,
    id: int,
    event: ProbeEvent,
)
    requires
        registry.wf(),
        registry.has_room(),
        registry.holds(domain, id),
    ensures
        registry.insert(domain, supervisor).on_probe(domain, id, event) == (
            registry.insert(domain, supervisor),
            ProbeActionView::Exit,
        ),
{
    lemma_canonical_is_idempotent(domain);
}

/// A request for a domain that is registered with a live backend gets one: a
/// configured, live backend of that domain. One for a domain whose backends are
/// all down gets none, and one for an unknown domain finds nothing; neither
/// changes the registry.
pub proof fn law_selection_follows_liveness(registry: RegistryView, domain: Seq<char>)
    requires
        registry.wf(),
    ensures
        match registry.select(domain).0 {
            Selection::NotFound => !registry.contains(domain) && registry.select(domain).1
                == registry,
            Selection::Unavailable => {
                &&& registry.get(domain) matches Some(supervisor)
                &&& !supervisor.pool.any_healthy()
                &&& registry.select(domain).1 == registry
            },
            Selection::Backend(backend) => {
                &&& registry.get(domain) matches Some(supervisor)
                &&& supervisor.pool.is_healthy(backend)
            },
        },
{
    let key = canonical(domain);
    if registry.entries.dom().contains(key) {
        super::pool::lemma_select(registry.entries[key].supervisor.pool);
    }
}

} // verus!
