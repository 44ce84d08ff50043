//! The agent frontend: the backend implementation that canonicalizes tags,
//! assigns stable ids, and buffers events instead of acting synchronously.
//!
//! The id map is modelled as a mathematical map from canonical keys — a name
//! plus a canonical tag sequence — to ids.  Ids are allocated monotonically;
//! the first registration of a key wins, and every later registration with
//! the same canonical key reuses its id.

use crate::channel::channel_push;
use crate::events::{ControlEvent, UpdateEvent};
use crate::tags::{
    canonical_tags, clone_tags, enrich_tags, tags_equal, to_owned_tags, TagView,
};
use crate::{Id, PreAllocatedMetric, Tags};
use vstd::prelude::*;

verus! {

/// A metric's canonical identity, by view: name and canonical tags.
pub type KeyView = (Seq<char>, Seq<TagView>);

/// A metric's canonical identity: name plus canonical tags.  Used only for
/// id deduplication.
pub struct MetricKey {
    pub name: String,
    pub tags: Vec<(String, String)>,
}

impl MetricKey {
    /// Builds a key from a name and already-canonical tags.
    pub fn new(name: &str, tags: Vec<(String, String)>) -> (r: MetricKey)
        ensures
            r@ == (name@, tags.deep_view()),
    {
        MetricKey { name: name.to_owned(), tags }
    }
}

impl View for MetricKey {
    type V = KeyView;

    open spec fn view(&self) -> KeyView {
        (self.name@, self.tags.deep_view())
    }
}

/// The id map of an association list, oldest entry first.
pub open spec fn entries_map(s: Seq<(KeyView, Id)>) -> Map<KeyView, Id>
    decreases s.len(),
{
    if s.len() == 0 {
        Map::empty()
    } else {
        entries_map(s.drop_last()).insert(s.last().0, s.last().1)
    }
}

/// View of the association list holding the id map.
pub open spec fn entries_view(s: Seq<(MetricKey, Id)>) -> Seq<(KeyView, Id)> {
    Seq::new(s.len(), |i: int| (s[i].0@, s[i].1))
}

/// Well-formedness of the id map: distinct keys, every id below the
/// allocation cursor, and distinct ids.
pub open spec fn entries_wf(s: Seq<(KeyView, Id)>, next_id: Id) -> bool {
    &&& forall|i: int, j: int| 0 <= i < j < s.len() ==> s[i].0 != s[j].0
    &&& forall|i: int| 0 <= i < s.len() ==> (#[trigger] s[i].1) < next_id
    &&& forall|i: int, j: int| 0 <= i < j < s.len() ==> s[i].1 != s[j].1
}

proof fn lemma_entries_map_index(s: Seq<(KeyView, Id)>, i: int)
    requires
        forall|m: int, n: int| 0 <= m < n < s.len() ==> s[m].0 != s[n].0,
        0 <= i < s.len(),
    ensures
        entries_map(s).contains_key(s[i].0),
        entries_map(s)[s[i].0] == s[i].1,
    decreases s.len(),
{
    if i + 1 < s.len() {
        assert(s.drop_last()[i] == s[i]);
        lemma_entries_map_index(s.drop_last(), i);
        assert(s[i].0 != s.last().0);
    }
}

proof fn lemma_entries_map_domain(s: Seq<(KeyView, Id)>, k: KeyView)
    requires
        entries_map(s).contains_key(k),
    ensures
        exists|i: int| 0 <= i < s.len() && s[i].0 == k,
    decreases s.len(),
{
    if s.len() > 0 && s.last().0 != k {
        lemma_entries_map_domain(s.drop_last(), k);
        let i = choose|i: int| 0 <= i < s.drop_last().len() && s.drop_last()[i].0 == k;
        assert(s[i] == s.drop_last()[i]);
    }
}

/// How one registration changes the id map: a known key reuses its id; an
/// unknown key takes the cursor as its id and advances it; once the cursor
/// has exhausted the id space, the cursor value is returned without
/// recording the key.
pub open spec fn register(m: Map<KeyView, Id>, next_id: Id, key: KeyView) -> (
    Map<KeyView, Id>,
    Id,
    Id,
) {
    if m.contains_key(key) {
        (m, next_id, m[key])
    } else if next_id < u64::MAX {
        (m.insert(key, next_id), (next_id + 1) as u64, next_id)
    } else {
        (m, next_id, next_id)
    }
}

/// The canonical key of a registration: the name, with the tags
/// canonicalized under the given type tag and default tags.
pub open spec fn canonical_key_of(
    name: Seq<char>,
    tags: Seq<TagView>,
    type_value: Seq<char>,
    defaults: Seq<TagView>,
) -> KeyView {
    (name, canonical_tags(tags, type_value, defaults))
}

/// Well-formedness of an id map: every id lies below the cursor, and
/// distinct keys carry distinct ids.
pub open spec fn id_map_wf(m: Map<KeyView, Id>, next_id: Id) -> bool {
    &&& forall|k: KeyView| m.contains_key(k) ==> m[k] < next_id
    &&& forall|k1: KeyView, k2: KeyView|
        m.contains_key(k1) && m.contains_key(k2) && k1 != k2 ==> m[k1] != m[k2]
}

/// Registration preserves the id map's well-formedness.
pub proof fn lemma_register_preserves_wf(m: Map<KeyView, Id>, next_id: Id, key: KeyView)
    requires
        id_map_wf(m, next_id),
    ensures
        id_map_wf(register(m, next_id, key).0, register(m, next_id, key).1),
{
}

/// Two registrations with one canonical key, one after the other, yield one
/// id, and the second changes nothing: the first registration for a key
/// wins.
pub proof fn lemma_same_key_reuses_id(m: Map<KeyView, Id>, next_id: Id, key: KeyView)
    ensures
        ({
            let (m1, n1, id1) = register(m, next_id, key);
            let (m2, n2, id2) = register(m1, n1, key);
            id2 == id1 && m2 == m1 && n2 == n1
        }),
{
}

/// Two registrations with distinct canonical keys yield distinct ids, as
/// long as the id space is not exhausted.
pub proof fn lemma_distinct_keys_distinct_ids(
    m: Map<KeyView, Id>,
    next_id: Id,
    k1: KeyView,
    k2: KeyView,
)
    requires
        id_map_wf(m, next_id),
        k1 != k2,
        next_id < u64::MAX,
    ensures
        ({
            let (m1, n1, id1) = register(m, next_id, k1);
            let (m2, n2, id2) = register(m1, n1, k2);
            id2 != id1
        }),
{
}

/// A well-formed agent's id map is well-formed in the map sense.
pub proof fn lemma_agent_id_map_wf(a: MetricsAgent)
    requires
        a.wf(),
    ensures
        id_map_wf(a.key_map(), a.spec_next_id()),
{
    let ev = entries_view(a.metric_key_to_id@);
    assert forall|k: KeyView| a.key_map().contains_key(k) implies a.key_map()[k]
        < a.spec_next_id() by {
        lemma_entries_map_domain(ev, k);
        let i = choose|i: int| 0 <= i < ev.len() && ev[i].0 == k;
        lemma_entries_map_index(ev, i);
    }
    assert forall|k1: KeyView, k2: KeyView|
        a.key_map().contains_key(k1) && a.key_map().contains_key(k2) && k1
        != k2 implies a.key_map()[k1] != a.key_map()[k2] by {
        lemma_entries_map_domain(ev, k1);
        lemma_entries_map_domain(ev, k2);
        let i = choose|i: int| 0 <= i < ev.len() && ev[i].0 == k1;
        let j = choose|j: int| 0 <= j < ev.len() && ev[j].0 == k2;
        lemma_entries_map_index(ev, i);
        lemma_entries_map_index(ev, j);
    }
}

/// For all names and tag lists: two registrations with one name and one tag
/// multiset — however the tags were ordered — share one canonical key, so
/// the second reuses the first one's id and registers nothing new.
pub proof fn lemma_same_registration_same_id(
    m: Map<KeyView, Id>,
    next_id: Id,
    name: Seq<char>,
    tags_a: Seq<TagView>,
    tags_b: Seq<TagView>,
    type_value: Seq<char>,
    defaults: Seq<TagView>,
)
    requires
        tags_a.to_multiset() == tags_b.to_multiset(),
    ensures
        canonical_key_of(name, tags_a, type_value, defaults) == canonical_key_of(
            name,
            tags_b,
            type_value,
            defaults,
        ),
        ({
            let key_a = canonical_key_of(name, tags_a, type_value, defaults);
            let key_b = canonical_key_of(name, tags_b, type_value, defaults);
            let (m1, n1, id1) = register(m, next_id, key_a);
            let (m2, n2, id2) = register(m1, n1, key_b);
            id2 == id1 && m2 == m1 && n2 == n1
        }),
{
    crate::tags::lemma_canonical_tags_permutation(tags_a, tags_b, type_value, defaults);
    lemma_same_key_reuses_id(m, next_id, canonical_key_of(name, tags_a, type_value, defaults));
}

/// For all names and tag lists: a different name, or a different tag
/// multiset, yields a different id — as long as no tag key is repeated or
/// shadowed by the type tag or a default tag (a shadowed tag is dropped by
/// canonicalization, so registrations differing only in it share a key),
/// and the id space is not exhausted.
pub proof fn lemma_different_registration_different_id(
    m: Map<KeyView, Id>,
    next_id: Id,
    name_a: Seq<char>,
    tags_a: Seq<TagView>,
    name_b: Seq<char>,
    tags_b: Seq<TagView>,
    type_value: Seq<char>,
    defaults: Seq<TagView>,
)
    requires
        id_map_wf(m, next_id),
        next_id < u64::MAX,
        crate::tags::keys_unique(
            tags_a.push((crate::tags::type_tag_key(), type_value)) + defaults,
        ),
        crate::tags::keys_unique(
            tags_b.push((crate::tags::type_tag_key(), type_value)) + defaults,
        ),
        name_a != name_b || tags_a.to_multiset() != tags_b.to_multiset(),
    ensures
        ({
            let key_a = canonical_key_of(name_a, tags_a, type_value, defaults);
            let key_b = canonical_key_of(name_b, tags_b, type_value, defaults);
            let (m1, n1, id1) = register(m, next_id, key_a);
            let (m2, n2, id2) = register(m1, n1, key_b);
            id2 != id1
        }),
{
    let key_a = canonical_key_of(name_a, tags_a, type_value, defaults);
    let key_b = canonical_key_of(name_b, tags_b, type_value, defaults);
    if name_a == name_b {
        if canonical_tags(tags_a, type_value, defaults) == canonical_tags(
            tags_b,
            type_value,
            defaults,
        ) {
            crate::tags::lemma_canonical_tags_injective(tags_a, tags_b, type_value, defaults);
        }
        assert(key_a != key_b);
    }
    lemma_distinct_keys_distinct_ids(m, next_id, key_a, key_b);
}

/// The backend that buffers events for the aggregator.
pub struct MetricsAgent {
    tx_upd: rtrb::Producer<UpdateEvent>,
    tx_cnc: rtrb::Producer<ControlEvent>,
    default_tags: Vec<(String, String)>,
    next_id: Id,
    metric_key_to_id: Vec<(MetricKey, Id)>,
}

impl MetricsAgent {
    /// The id map, as a mathematical map.
    pub closed spec fn key_map(&self) -> Map<KeyView, Id> {
        entries_map(entries_view(self.metric_key_to_id@))
    }

    /// The allocation cursor.
    pub closed spec fn spec_next_id(&self) -> Id {
        self.next_id
    }

    /// The agent-wide default tags, by view.
    pub closed spec fn spec_default_tags(&self) -> Seq<TagView> {
        self.default_tags.deep_view()
    }

    /// Internal consistency of the id map.
    pub closed spec fn wf(&self) -> bool {
        entries_wf(entries_view(self.metric_key_to_id@), self.next_id)
    }

    /// A fresh agent: no ids assigned, cursor at zero.
    pub fn new(
        tx_upd: rtrb::Producer<UpdateEvent>,
        tx_cnc: rtrb::Producer<ControlEvent>,
        default_tags: Vec<(String, String)>,
    ) -> (r: MetricsAgent)
        ensures
            r.wf(),
            r.key_map() == Map::<KeyView, Id>::empty(),
            r.spec_next_id() == 0,
            r.spec_default_tags() == default_tags.deep_view(),
    {
        let r = MetricsAgent {
            tx_upd,
            tx_cnc,
            default_tags,
            next_id: 0,
            metric_key_to_id: Vec::new(),
        };
        proof {
            assert(entries_view(r.metric_key_to_id@) =~= Seq::<(KeyView, Id)>::empty());
        }
        r
    }

    /// Looks a canonical key up in the id map.
    fn find_id(&self, name: &str, tags: &Vec<(String, String)>) -> (r: Option<Id>)
        requires
            self.wf(),
        ensures
            match r {
                Some(id) => self.key_map().contains_key((name@, tags.deep_view()))
                    && self.key_map()[(name@, tags.deep_view())] == id,
                None => !self.key_map().contains_key((name@, tags.deep_view())),
            },
    {
        let ghost key: KeyView = (name@, tags.deep_view());
        let ghost ev = entries_view(self.metric_key_to_id@);
        let owned_name: String = name.to_owned();
        let len = self.metric_key_to_id.len();
        let mut i: usize = 0;
        while i < len
            invariant
                i <= len,
                len == self.metric_key_to_id@.len(),
                self.wf(),
                key == (name@, tags.deep_view()),
                ev == entries_view(self.metric_key_to_id@),
                owned_name@ == name@,
                forall|k: int| 0 <= k < i ==> ev[k].0 != key,
            decreases len - i,
        {
            let entry = &self.metric_key_to_id[i];
            let same_name = entry.0.name == owned_name;
            if same_name {
                let same_tags = tags_equal(&entry.0.tags, tags);
                if same_tags {
                    proof {
                        assert(ev[i as int].0 == key);
                        lemma_entries_map_index(ev, i as int);
                    }
                    return Some(entry.1);
                }
            }
            proof {
                assert(ev[i as int].0 != key);
            }
            i = i + 1;
        }
        proof {
            if self.key_map().contains_key(key) {
                lemma_entries_map_domain(ev, key);
            }
        }
        None
    }

    /// Looks the canonical key up, or assigns the next id to it.
    fn assign_next_id(&mut self, name: &str, tags: Vec<(String, String)>) -> (r: (Id, bool))
        requires
            old(self).wf(),
        ensures
            final(self).wf(),
            (final(self).key_map(), final(self).spec_next_id(), r.0) == register(
                old(self).key_map(),
                old(self).spec_next_id(),
                (name@, tags.deep_view()),
            ),
            r.1 == !old(self).key_map().contains_key((name@, tags.deep_view())),
            final(self).spec_default_tags() == old(self).spec_default_tags(),
    {
        let ghost key: KeyView = (name@, tags.deep_view());
        match self.find_id(name, &tags) {
            Some(id) => (id, false),
            None => {
                if self.next_id < u64::MAX {
                    let id = self.next_id;
                    let ghost ev = entries_view(self.metric_key_to_id@);
                    let entry = (MetricKey::new(name, tags), id);
                    proof {
                        assert(entry.0@ == key);
                    }
                    self.metric_key_to_id.push(entry);
                    self.next_id = id + 1;
                    proof {
                        let ev2 = entries_view(self.metric_key_to_id@);
                        assert(ev2 =~= ev.push((key, id)));
                        assert(ev2.drop_last() =~= ev);
                        assert(self.key_map() == entries_map(ev).insert(key, id));
                        if entries_map(ev).contains_key(key) {
                            lemma_entries_map_domain(ev, key);
                        }
                        assert forall|m: int, n: int|
                            0 <= m < n < ev2.len() implies ev2[m].0 != ev2[n].0 by {
                            if n + 1 == ev2.len() {
                                if entries_map(ev).contains_key(ev2[m].0) {
                                }
                                lemma_entries_map_index(ev, m);
                            }
                        }
                    }
                    (id, true)
                } else {
                    (self.next_id, true)
                }
            },
        }
    }

    /// Sends a registration or deletion, dropping it silently when the
    /// control channel is full.
    fn send_control_event(&mut self, event: ControlEvent)
        ensures
            final(self).default_tags == old(self).default_tags,
            final(self).next_id == old(self).next_id,
            final(self).metric_key_to_id == old(self).metric_key_to_id,
    {
        let _ = channel_push(&mut self.tx_cnc, event);
    }

    /// Sends an increment or a recording, dropping it silently when the
    /// update channel is full: producer latency is favoured over
    /// completeness.
    fn send_update_event(&mut self, event: UpdateEvent)
        ensures
            final(self).default_tags == old(self).default_tags,
            final(self).next_id == old(self).next_id,
            final(self).metric_key_to_id == old(self).metric_key_to_id,
    {
        let _ = channel_push(&mut self.tx_upd, event);
    }

    /// Registers a counter: canonicalizes the tags, looks the canonical key
    /// up or assigns the next id, and emits one create event for a key seen
    /// for the first time.  A repeated registration reuses the id and emits
    /// nothing.
    pub fn new_counter(&mut self, name: &str, tags: Tags<'_>) -> (id: Id)
        requires
            old(self).wf(),
        ensures
            final(self).wf(),
            final(self).spec_default_tags() == old(self).spec_default_tags(),
            (final(self).key_map(), final(self).spec_next_id(), id) == register(
                old(self).key_map(),
                old(self).spec_next_id(),
                (
                    name@,
                    canonical_tags(
                        tags.deep_view(),
                        "counter"@,
                        old(self).spec_default_tags(),
                    ),
                ),
            ),
    {
        let mut owned = to_owned_tags(tags);
        enrich_tags(&mut owned, "counter", &self.default_tags);
        let event_tags = clone_tags(&owned);
        let (id, fresh) = self.assign_next_id(name, owned);
        if fresh {
            self.send_control_event(ControlEvent::CounterCreate(id, name.to_owned(), event_tags));
        }
        id
    }

    /// Registers a histogram, exactly as `new_counter` does for counters.
    pub fn new_histogram(&mut self, name: &str, tags: Tags<'_>) -> (id: Id)
        requires
            old(self).wf(),
        ensures
            final(self).wf(),
            final(self).spec_default_tags() == old(self).spec_default_tags(),
            (final(self).key_map(), final(self).spec_next_id(), id) == register(
                old(self).key_map(),
                old(self).spec_next_id(),
                (
                    name@,
                    canonical_tags(
                        tags.deep_view(),
                        "histogram"@,
                        old(self).spec_default_tags(),
                    ),
                ),
            ),
    {
        let mut owned = to_owned_tags(tags);
        enrich_tags(&mut owned, "histogram", &self.default_tags);
        let event_tags = clone_tags(&owned);
        let (id, fresh) = self.assign_next_id(name, owned);
        if fresh {
            self.send_control_event(
                ControlEvent::HistogramCreate(id, name.to_owned(), event_tags),
            );
        }
        id
    }

    /// Emits a counter deletion.  The id map is untouched: ids stay
    /// allocated for the agent's lifetime.
    pub fn delete_counter(&mut self, id: Id)
        requires
            old(self).wf(),
        ensures
            final(self).wf(),
            final(self).key_map() == old(self).key_map(),
            final(self).spec_next_id() == old(self).spec_next_id(),
            final(self).spec_default_tags() == old(self).spec_default_tags(),
    {
        self.send_control_event(ControlEvent::CounterDelete(id));
    }

    /// Emits a histogram deletion.
    pub fn delete_histogram(&mut self, id: Id)
        requires
            old(self).wf(),
        ensures
            final(self).wf(),
            final(self).key_map() == old(self).key_map(),
            final(self).spec_next_id() == old(self).spec_next_id(),
            final(self).spec_default_tags() == old(self).spec_default_tags(),
    {
        self.send_control_event(ControlEvent::HistogramDelete(id));
    }

    /// Emits a counter increment.  The agent's own state never changes on
    /// the hot path.
    pub fn increment_counter_by(&mut self, id: Id, delta: u64)
        requires
            old(self).wf(),
        ensures
            final(self).wf(),
            final(self).key_map() == old(self).key_map(),
            final(self).spec_next_id() == old(self).spec_next_id(),
            final(self).spec_default_tags() == old(self).spec_default_tags(),
    {
        self.send_update_event(UpdateEvent::CounterIncrement(id, delta));
    }

    /// Emits a histogram recording.
    pub fn record(&mut self, id: Id, value: u64)
        requires
            old(self).wf(),
        ensures
            final(self).wf(),
            final(self).key_map() == old(self).key_map(),
            final(self).spec_next_id() == old(self).spec_next_id(),
            final(self).spec_default_tags() == old(self).spec_default_tags(),
    {
        self.send_update_event(UpdateEvent::HistogramRecord(id, value));
    }

    /// The backend's display name.
    pub fn name(&self) -> (r: &'static str)
        ensures
            r@ == "metrics-agent"@,
    {
        "metrics-agent"
    }

    /// Builds an agent and pre-registers the given metrics, which carry
    /// their own ids: the id map stays empty and the cursor at zero.
    pub fn with_pre_allocated(
        tx_upd: rtrb::Producer<UpdateEvent>,
        tx_cnc: rtrb::Producer<ControlEvent>,
        default_tags: Vec<(String, String)>,
        pre_allocated: Vec<PreAllocatedMetric>,
    ) -> (r: MetricsAgent)
        ensures
            r.wf(),
            r.key_map() == Map::<KeyView, Id>::empty(),
            r.spec_next_id() == 0,
            r.spec_default_tags() == default_tags.deep_view(),
    {
        let ghost dv = default_tags.deep_view();
        let mut agent = MetricsAgent::new(tx_upd, tx_cnc, default_tags);
        let mut remaining = pre_allocated;
        while remaining.len() > 0
            invariant
                agent.wf(),
                agent.key_map() == Map::<KeyView, Id>::empty(),
                agent.spec_next_id() == 0,
                agent.spec_default_tags() == dv,
            decreases remaining@.len(),
        {
            let metric = remaining.remove(0);
            agent.register_metric_with_id(metric);
        }
        agent
    }

    /// Registers a metric that carries an explicitly chosen id: the id map
    /// is not consulted, only a create event is emitted.
    pub fn register_metric_with_id(&mut self, metric: PreAllocatedMetric)
        requires
            old(self).wf(),
        ensures
            final(self).wf(),
            final(self).key_map() == old(self).key_map(),
            final(self).spec_next_id() == old(self).spec_next_id(),
            final(self).spec_default_tags() == old(self).spec_default_tags(),
    {
        match metric {
            PreAllocatedMetric::Counter { name, id, mut tags } => {
                enrich_tags(&mut tags, "counter", &self.default_tags);
                self.send_control_event(ControlEvent::CounterCreate(id, name, tags));
            },
            PreAllocatedMetric::Histogram { name, id, mut tags } => {
                enrich_tags(&mut tags, "histogram", &self.default_tags);
                self.send_control_event(ControlEvent::HistogramCreate(id, name, tags));
            },
        }
    }
}

} // verus!
