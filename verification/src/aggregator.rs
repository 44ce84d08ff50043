//! The aggregator: a single loop draining both event channels into
//! in-memory counter and histogram state and flushing periodically.
//!
//! Aggregated state is held in association vectors keyed by id, in creation
//! order, with distinct ids as the standing invariant.  Counters accumulate
//! and are never reset; histograms are reset after each successful flush,
//! so between flushes their statistics reflect only what was recorded since
//! the last one.

use crate::encoder::{
    counter_line, encode_counter_line, encode_histogram_line, encode_json_counter_line,
    histogram_line, json_counter_line, str_bytes, tags_bytes, HistogramStats,
};
use crate::hdr::{hist_len, hist_new, hist_record, hist_reset, hist_values, ValueRecorder};
use crate::channel::{channel_pop, channel_slots};
use crate::error::Error;
use crate::events::{ControlEvent, UpdateEvent};
use crate::tags::TagView;
use crate::Id;
use vstd::multiset::Multiset;
use vstd::prelude::*;

verus! {

/// What an aggregated counter is: its cumulative value and its identity.
#[verifier::ext_equal]
pub struct CounterModel {
    pub value: u64,
    pub name: Seq<char>,
    pub tags: Seq<TagView>,
}

/// What an aggregated histogram is: the multiset of values recorded since
/// the last flush, and its identity.
#[verifier::ext_equal]
pub struct HistogramModel {
    pub values: Multiset<u64>,
    pub name: Seq<char>,
    pub tags: Seq<TagView>,
}

/// A metric's display identity: name and canonical tags.
pub struct MetaData {
    name: String,
    tags: Vec<(String, String)>,
}

impl MetaData {
    spec fn spec_name(&self) -> Seq<char> {
        self.name@
    }

    spec fn spec_tags(&self) -> Seq<TagView> {
        self.tags.deep_view()
    }

    fn new(name: String, tags: Vec<(String, String)>) -> (r: MetaData)
        ensures
            r.spec_name() == name@,
            r.spec_tags() == tags.deep_view(),
    {
        MetaData { name, tags }
    }
}

/// An aggregated counter: cumulative value plus metadata; never reset.
pub struct Counter {
    value: u64,
    meta_data: MetaData,
}

impl Counter {
    /// The counter as a mathematical value.
    pub closed spec fn model(&self) -> CounterModel {
        CounterModel {
            value: self.value,
            name: self.meta_data.spec_name(),
            tags: self.meta_data.spec_tags(),
        }
    }

    fn new(name: String, tags: Vec<(String, String)>) -> (r: Counter)
        ensures
            r.model() == (CounterModel { value: 0, name: name@, tags: tags.deep_view() }),
    {
        Counter { value: 0, meta_data: MetaData::new(name, tags) }
    }

    /// Adds a delta into the cumulative value, saturating at the type's
    /// maximum: counter values never decrease.
    fn increment(&mut self, delta: u64)
        ensures
            final(self).model() == (CounterModel {
                value: sat_add_u64(old(self).model().value, delta),
                ..old(self).model()
            }),
    {
        self.value = self.value.saturating_add(delta);
    }

    /// The accumulated value.
    pub fn value(&self) -> (r: u64)
        ensures
            r == self.model().value,
    {
        self.value
    }
}

/// An aggregated histogram: a value-recording accumulator plus metadata;
/// reset after each successful flush.
pub struct Histogram {
    inner: ValueRecorder,
    meta_data: MetaData,
}

impl Histogram {
    /// The histogram as a mathematical value.
    pub closed spec fn model(&self) -> HistogramModel {
        HistogramModel {
            values: hist_values(self.inner),
            name: self.meta_data.spec_name(),
            tags: self.meta_data.spec_tags(),
        }
    }

    fn new(name: String, tags: Vec<(String, String)>) -> (r: Histogram)
        ensures
            r.model() == (HistogramModel {
                values: Multiset::<u64>::empty(),
                name: name@,
                tags: tags.deep_view(),
            }),
    {
        Histogram { inner: hist_new(), meta_data: MetaData::new(name, tags) }
    }

    /// How many values were recorded since the last flush (saturating).
    pub fn count(&self) -> (r: u64)
        ensures
            self.model().values.len() <= u64::MAX ==> r == self.model().values.len(),
            self.model().values.len() > u64::MAX ==> r == u64::MAX,
    {
        hist_len(&self.inner)
    }

    /// The raw accumulator, for reading its statistics.
    pub fn inner(&self) -> (r: &ValueRecorder)
        ensures
            hist_values(*r) == self.model().values,
    {
        &self.inner
    }
}

/// The serialization format used by an exporter.
#[derive(Clone, Copy)]
pub enum Encoder {
    LineProtocol,
    Json,
}

/// The bytes of one counter record under an encoder.
pub open spec fn counter_record_bytes(enc: Encoder, c: CounterModel, ts: nat) -> Seq<u8> {
    match enc {
        Encoder::LineProtocol => counter_line(str_bytes(c.name), tags_bytes(c.tags), c.value as nat, ts),
        Encoder::Json => json_counter_line(str_bytes(c.name), tags_bytes(c.tags), c.value as nat, ts),
    }
}

/// The bytes of one histogram record under an encoder.  Histograms are a
/// deliberate no-op in the JSON encoding.
pub open spec fn histogram_record_bytes(
    enc: Encoder,
    h: HistogramModel,
    stats: HistogramStats,
    ts: nat,
) -> Seq<u8> {
    match enc {
        Encoder::LineProtocol => histogram_line(str_bytes(h.name), tags_bytes(h.tags), stats, ts),
        Encoder::Json => Seq::empty(),
    }
}

impl Encoder {
    /// Appends one encoded counter record.
    pub fn encode_counter(&self, counter: &Counter, timestamp: u64, dst: &mut Vec<u8>)
        ensures
            final(dst)@ == old(dst)@ + counter_record_bytes(*self, counter.model(), timestamp as nat),
    {
        match self {
            Encoder::LineProtocol => encode_counter_line(
                counter.meta_data.name.as_str(),
                &counter.meta_data.tags,
                counter.value,
                timestamp,
                dst,
            ),
            Encoder::Json => encode_json_counter_line(
                counter.meta_data.name.as_str(),
                &counter.meta_data.tags,
                counter.value,
                timestamp,
                dst,
            ),
        }
    }

    /// Appends one encoded histogram record, with its statistics supplied
    /// as plain values.
    pub fn encode_histogram(
        &self,
        histogram: &Histogram,
        stats: &HistogramStats,
        timestamp: u64,
        dst: &mut Vec<u8>,
    )
        ensures
            final(dst)@ == old(dst)@ + histogram_record_bytes(
                *self,
                histogram.model(),
                *stats,
                timestamp as nat,
            ),
    {
        match self {
            Encoder::LineProtocol => encode_histogram_line(
                histogram.meta_data.name.as_str(),
                &histogram.meta_data.tags,
                stats,
                timestamp,
                dst,
            ),
            Encoder::Json => {},
        }
    }
}

/// Whether an id occurs in an association sequence.
pub open spec fn contains_id<V>(s: Seq<(Id, V)>, id: Id) -> bool {
    exists|i: int| 0 <= i < s.len() && s[i].0 == id
}

/// Whether every id in an association sequence is distinct.
pub open spec fn distinct_ids<V>(s: Seq<(Id, V)>) -> bool {
    forall|i: int, j: int| 0 <= i < j < s.len() ==> s[i].0 != s[j].0
}

/// The sequence without any entry of the given id.
pub open spec fn remove_id<V>(s: Seq<(Id, V)>, id: Id) -> Seq<(Id, V)>
    decreases s.len(),
{
    if s.len() == 0 {
        s
    } else if s.last().0 == id {
        remove_id(s.drop_last(), id)
    } else {
        remove_id(s.drop_last(), id).push(s.last())
    }
}

/// The sequence with the given counter's value raised by a delta,
/// saturating at the type's maximum; an absent id changes nothing.
pub open spec fn update_counter(s: Seq<(Id, CounterModel)>, id: Id, delta: u64) -> Seq<
    (Id, CounterModel),
>
    decreases s.len(),
{
    if s.len() == 0 {
        s
    } else if s.last().0 == id {
        s.drop_last().push(
            (id, CounterModel { value: sat_add_u64(s.last().1.value, delta), ..s.last().1 }),
        )
    } else {
        update_counter(s.drop_last(), id, delta).push(s.last())
    }
}

/// The sequence with one value recorded into the given histogram; an absent
/// id changes nothing — the recording is dropped.
pub open spec fn record_hist(s: Seq<(Id, HistogramModel)>, id: Id, value: u64) -> Seq<
    (Id, HistogramModel),
>
    decreases s.len(),
{
    if s.len() == 0 {
        s
    } else if s.last().0 == id {
        s.drop_last().push(
            (id, HistogramModel { values: s.last().1.values.insert(value), ..s.last().1 }),
        )
    } else {
        record_hist(s.drop_last(), id, value).push(s.last())
    }
}

/// What one control event does to the aggregated state: create inserts if
/// absent — a duplicate create is a no-op and never resets an existing
/// entry — and delete removes.
pub open spec fn apply_control(
    c: Seq<(Id, CounterModel)>,
    h: Seq<(Id, HistogramModel)>,
    event: ControlEvent,
) -> (Seq<(Id, CounterModel)>, Seq<(Id, HistogramModel)>) {
    match event {
        ControlEvent::CounterCreate(id, name, tags) => if contains_id(c, id) {
            (c, h)
        } else {
            (c.push((id, CounterModel { value: 0, name: name@, tags: tags.deep_view() })), h)
        },
        ControlEvent::CounterDelete(id) => (remove_id(c, id), h),
        ControlEvent::HistogramCreate(id, name, tags) => if contains_id(h, id) {
            (c, h)
        } else {
            (
                c,
                h.push(
                    (
                        id,
                        HistogramModel {
                            values: Multiset::<u64>::empty(),
                            name: name@,
                            tags: tags.deep_view(),
                        },
                    ),
                ),
            )
        },
        ControlEvent::HistogramDelete(id) => (c, remove_id(h, id)),
    }
}

/// What one update event does to the aggregated state: increments sum into
/// the counter, recordings feed the histogram, and an unknown or stale id
/// is a silent no-op.
pub open spec fn apply_update(
    c: Seq<(Id, CounterModel)>,
    h: Seq<(Id, HistogramModel)>,
    event: UpdateEvent,
) -> (Seq<(Id, CounterModel)>, Seq<(Id, HistogramModel)>) {
    match event {
        UpdateEvent::CounterIncrement(id, delta) => (update_counter(c, id, delta), h),
        UpdateEvent::HistogramRecord(id, value) => (c, record_hist(h, id, value)),
    }
}

proof fn lemma_remove_id_at<V>(s: Seq<(Id, V)>, id: Id, i: int)
    requires
        distinct_ids(s),
        0 <= i < s.len(),
        s[i].0 == id,
    ensures
        remove_id(s, id) =~= s.remove(i),
    decreases s.len(),
{
    if i + 1 == s.len() {
        lemma_remove_id_absent(s.drop_last(), id);
        assert(s.remove(i) =~= s.drop_last());
    } else {
        assert(s.last().0 != id);
        assert(s.drop_last()[i] == s[i]);
        lemma_remove_id_at(s.drop_last(), id, i);
        assert(remove_id(s, id) =~= s.drop_last().remove(i).push(s.last()));
        assert(s.drop_last().remove(i).push(s.last()) =~= s.remove(i));
    }
}

proof fn lemma_remove_id_absent<V>(s: Seq<(Id, V)>, id: Id)
    requires
        !contains_id(s, id),
    ensures
        remove_id(s, id) =~= s,
    decreases s.len(),
{
    if s.len() > 0 {
        assert(s.last().0 != id);
        assert(!contains_id(s.drop_last(), id)) by {
            if contains_id(s.drop_last(), id) {
                let i = choose|i: int|
                    0 <= i < s.drop_last().len() && s.drop_last()[i].0 == id;
                assert(s[i].0 == id);
            }
        }
        lemma_remove_id_absent(s.drop_last(), id);
    }
}

proof fn lemma_update_counter_at(s: Seq<(Id, CounterModel)>, id: Id, delta: u64, i: int)
    requires
        distinct_ids(s),
        0 <= i < s.len(),
        s[i].0 == id,
    ensures
        update_counter(s, id, delta) =~= s.update(
            i,
            (id, CounterModel { value: sat_add_u64(s[i].1.value, delta), ..s[i].1 }),
        ),
    decreases s.len(),
{
    if i + 1 == s.len() {
    } else {
        assert(s.last().0 != id);
        assert(s.drop_last()[i] == s[i]);
        lemma_update_counter_at(s.drop_last(), id, delta, i);
    }
}

proof fn lemma_update_counter_absent(s: Seq<(Id, CounterModel)>, id: Id, delta: u64)
    requires
        !contains_id(s, id),
    ensures
        update_counter(s, id, delta) =~= s,
    decreases s.len(),
{
    if s.len() > 0 {
        assert(s.last().0 != id);
        assert(!contains_id(s.drop_last(), id)) by {
            if contains_id(s.drop_last(), id) {
                let i = choose|i: int|
                    0 <= i < s.drop_last().len() && s.drop_last()[i].0 == id;
                assert(s[i].0 == id);
            }
        }
        lemma_update_counter_absent(s.drop_last(), id, delta);
    }
}

proof fn lemma_record_hist_at(s: Seq<(Id, HistogramModel)>, id: Id, value: u64, i: int)
    requires
        distinct_ids(s),
        0 <= i < s.len(),
        s[i].0 == id,
    ensures
        record_hist(s, id, value) =~= s.update(
            i,
            (id, HistogramModel { values: s[i].1.values.insert(value), ..s[i].1 }),
        ),
    decreases s.len(),
{
    if i + 1 == s.len() {
    } else {
        assert(s.last().0 != id);
        assert(s.drop_last()[i] == s[i]);
        lemma_record_hist_at(s.drop_last(), id, value, i);
    }
}

proof fn lemma_record_hist_absent(s: Seq<(Id, HistogramModel)>, id: Id, value: u64)
    requires
        !contains_id(s, id),
    ensures
        record_hist(s, id, value) =~= s,
    decreases s.len(),
{
    if s.len() > 0 {
        assert(s.last().0 != id);
        assert(!contains_id(s.drop_last(), id)) by {
            if contains_id(s.drop_last(), id) {
                let i = choose|i: int|
                    0 <= i < s.drop_last().len() && s.drop_last()[i].0 == id;
                assert(s[i].0 == id);
            }
        }
        lemma_record_hist_absent(s.drop_last(), id, value);
    }
}

/// A create for an id already present changes nothing: creation is
/// idempotent, and in particular never resets an accumulated value.
pub proof fn lemma_counter_create_idempotent(
    c: Seq<(Id, CounterModel)>,
    h: Seq<(Id, HistogramModel)>,
    id: Id,
    name: String,
    tags: Vec<(String, String)>,
)
    requires
        contains_id(c, id),
    ensures
        apply_control(c, h, ControlEvent::CounterCreate(id, name, tags)) == (c, h),
{
}

/// The histogram counterpart: a duplicate create never resets an
/// accumulator.
pub proof fn lemma_histogram_create_idempotent(
    c: Seq<(Id, CounterModel)>,
    h: Seq<(Id, HistogramModel)>,
    id: Id,
    name: String,
    tags: Vec<(String, String)>,
)
    requires
        contains_id(h, id),
    ensures
        apply_control(c, h, ControlEvent::HistogramCreate(id, name, tags)) == (c, h),
{
}

/// A sequence of drained increment deltas, applied oldest first.
pub open spec fn apply_increments(
    c: Seq<(Id, CounterModel)>,
    id: Id,
    deltas: Seq<u64>,
) -> Seq<(Id, CounterModel)>
    decreases deltas.len(),
{
    if deltas.len() == 0 {
        c
    } else {
        update_counter(apply_increments(c, id, deltas.drop_last()), id, deltas.last())
    }
}

/// The saturating sum of a delta sequence: the true sum, stopped at the
/// type's maximum.
pub open spec fn sat_sum(deltas: Seq<u64>) -> u64
    decreases deltas.len(),
{
    if deltas.len() == 0 {
        0
    } else {
        sat_add_u64(sat_sum(deltas.drop_last()), deltas.last())
    }
}

/// Removing one delta from a sum and adding it back changes nothing: the
/// saturating sum absorbs elements in any position.
proof fn lemma_sat_sum_remove(deltas: Seq<u64>, j: int)
    requires
        0 <= j < deltas.len(),
    ensures
        sat_sum(deltas) == sat_add_u64(sat_sum(deltas.remove(j)), deltas[j]),
    decreases deltas.len(),
{
    if j + 1 == deltas.len() {
        assert(deltas.remove(j) =~= deltas.drop_last());
    } else {
        lemma_sat_sum_remove(deltas.drop_last(), j);
        assert(deltas.remove(j).drop_last() =~= deltas.drop_last().remove(j));
        assert(deltas.remove(j).last() == deltas.last());
    }
}

/// The saturating sum is a function of the delta multiset alone: drained
/// in any order, the same increments add up to the same total.
pub proof fn lemma_sat_sum_permutation(a: Seq<u64>, b: Seq<u64>)
    requires
        a.to_multiset() == b.to_multiset(),
    ensures
        sat_sum(a) == sat_sum(b),
    decreases a.len(),
{
    broadcast use vstd::seq_lib::group_to_multiset_ensures;

    if a.len() == 0 {
        assert(b.to_multiset().len() == 0);
        assert(b.len() == 0);
    } else {
        let x = a.last();
        assert(a.to_multiset().contains(x)) by {
            assert(a.contains(x));
        }
        assert(b.to_multiset().contains(x));
        assert(b.contains(x));
        let j = choose|j: int| 0 <= j < b.len() && b[j] == x;
        assert(a.drop_last() =~= a.remove(a.len() - 1));
        assert(a.drop_last().to_multiset() =~= a.to_multiset().remove(x));
        assert(b.remove(j).to_multiset() =~= b.to_multiset().remove(x));
        lemma_sat_sum_permutation(a.drop_last(), b.remove(j));
        lemma_sat_sum_remove(b, j);
    }
}

/// After a sequence of drained increments is applied, the aggregated
/// counter holds its starting value plus the saturating sum of every
/// drained delta — and nothing else in the state moved.
pub proof fn lemma_drained_increments_sum(
    c: Seq<(Id, CounterModel)>,
    id: Id,
    deltas: Seq<u64>,
    i: int,
)
    requires
        distinct_ids(c),
        0 <= i < c.len(),
        c[i].0 == id,
    ensures
        apply_increments(c, id, deltas) =~= c.update(
            i,
            (id, CounterModel { value: sat_add_u64(c[i].1.value, sat_sum(deltas)), ..c[i].1 }),
        ),
    decreases deltas.len(),
{
    if deltas.len() == 0 {
        assert(sat_add_u64(c[i].1.value, 0) == c[i].1.value);
        assert((CounterModel { value: sat_add_u64(c[i].1.value, 0), ..c[i].1 }) =~= c[i].1);
        assert(c.update(i, (id, c[i].1)) =~= c);
    } else {
        let prev = apply_increments(c, id, deltas.drop_last());
        lemma_drained_increments_sum(c, id, deltas.drop_last(), i);
        assert(distinct_ids(prev)) by {
            assert(forall|k: int| 0 <= k < c.len() ==> prev[k].0 == c[k].0);
        }
        assert(prev[i].0 == id);
        lemma_update_counter_at(prev, id, deltas.last(), i);
        let s = sat_sum(deltas.drop_last());
        let d = deltas.last();
        assert(sat_add_u64(sat_add_u64(c[i].1.value, s), d) == sat_add_u64(
            c[i].1.value,
            sat_add_u64(s, d),
        ));
    }
}

/// Counter values never decrease: an increment only raises the value,
/// stopping at the type's maximum.
pub proof fn lemma_counter_value_monotone(s: Seq<(Id, CounterModel)>, id: Id, delta: u64, i: int)
    requires
        distinct_ids(s),
        0 <= i < s.len(),
        s[i].0 == id,
    ensures
        update_counter(s, id, delta)[i].1.value >= s[i].1.value,
{
    lemma_update_counter_at(s, id, delta, i);
}

/// A sequence of drained recordings, applied oldest first.
pub open spec fn apply_records(
    h: Seq<(Id, HistogramModel)>,
    id: Id,
    values: Seq<u64>,
) -> Seq<(Id, HistogramModel)>
    decreases values.len(),
{
    if values.len() == 0 {
        h
    } else {
        record_hist(apply_records(h, id, values.drop_last()), id, values.last())
    }
}

/// After a successful flush, a histogram's statistics reflect only what was
/// recorded after it: starting from the freshly reset accumulator, applying
/// the drained recordings leaves exactly their multiset, and nothing else.
pub proof fn lemma_post_flush_reflects_new_records(
    h: Seq<(Id, HistogramModel)>,
    id: Id,
    values: Seq<u64>,
    i: int,
)
    requires
        distinct_ids(h),
        0 <= i < h.len(),
        h[i].0 == id,
        h[i].1.values == Multiset::<u64>::empty(),
    ensures
        apply_records(h, id, values) =~= h.update(
            i,
            (id, HistogramModel { values: values.to_multiset(), ..h[i].1 }),
        ),
    decreases values.len(),
{
    broadcast use vstd::seq_lib::group_to_multiset_ensures;

    if values.len() == 0 {
        assert(values.to_multiset() =~= Multiset::<u64>::empty());
        assert((HistogramModel { values: values.to_multiset(), ..h[i].1 }) =~= h[i].1);
        assert(h.update(i, (id, h[i].1)) =~= h);
    } else {
        let prev = apply_records(h, id, values.drop_last());
        lemma_post_flush_reflects_new_records(h, id, values.drop_last(), i);
        assert(distinct_ids(prev)) by {
            assert(forall|k: int| 0 <= k < h.len() ==> prev[k].0 == h[k].0);
        }
        assert(prev[i].0 == id);
        lemma_record_hist_at(prev, id, values.last(), i);
        assert(values =~= values.drop_last().push(values.last()));
        assert(values.to_multiset() =~= values.drop_last().to_multiset().insert(values.last()));
    }
}

/// A sum that stops at the top of the type instead of overflowing.
pub open spec fn sat_add_u64(a: u64, b: u64) -> u64 {
    if a + b > u64::MAX {
        u64::MAX
    } else {
        (a + b) as u64
    }
}

/// A well-formed aggregator holds each id at most once in each map — the
/// content of `MetricsAggregator::wf`, available to outside proofs.
pub proof fn lemma_aggregator_wf_distinct(a: &MetricsAggregator)
    requires
        a.wf(),
    ensures
        distinct_ids(a.counters_seq()),
        distinct_ids(a.histograms_seq()),
{
}

/// The bytes of a whole counter snapshot: one record per counter, in
/// creation order.
pub open spec fn counters_payload(s: Seq<(Id, CounterModel)>, enc: Encoder, ts: nat) -> Seq<u8>
    decreases s.len(),
{
    if s.len() == 0 {
        Seq::empty()
    } else {
        counters_payload(s.drop_last(), enc, ts) + counter_record_bytes(enc, s.last().1, ts)
    }
}

/// The bytes of a whole histogram snapshot, each histogram paired with its
/// extracted statistics.
pub open spec fn histograms_payload(
    s: Seq<(Id, HistogramModel)>,
    stats: Seq<HistogramStats>,
    enc: Encoder,
    ts: nat,
) -> Seq<u8>
    recommends
        s.len() == stats.len(),
    decreases s.len(),
{
    if s.len() == 0 {
        Seq::empty()
    } else {
        histograms_payload(s.drop_last(), stats.drop_last(), enc, ts) + histogram_record_bytes(
            enc,
            s.last().1,
            stats.last(),
            ts,
        )
    }
}

/// The aggregator's state: both consumer endpoints, the aggregated maps in
/// creation order, and the flush schedule.
pub struct MetricsAggregator {
    rx_upd: rtrb::Consumer<UpdateEvent>,
    rx_cnc: rtrb::Consumer<ControlEvent>,
    encoder: Encoder,
    counters: Vec<(Id, Counter)>,
    histograms: Vec<(Id, Histogram)>,
    next_flush_time_ns: u64,
    flush_interval_ns: u64,
}

impl MetricsAggregator {
    /// The aggregated counters, in creation order.
    pub closed spec fn counters_seq(&self) -> Seq<(Id, CounterModel)> {
        Seq::new(self.counters@.len(), |i: int| (self.counters@[i].0, self.counters@[i].1.model()))
    }

    /// The aggregated histograms, in creation order.
    pub closed spec fn histograms_seq(&self) -> Seq<(Id, HistogramModel)> {
        Seq::new(
            self.histograms@.len(),
            |i: int| (self.histograms@[i].0, self.histograms@[i].1.model()),
        )
    }

    /// When the next flush is due.
    pub closed spec fn spec_next_flush_time(&self) -> u64 {
        self.next_flush_time_ns
    }

    /// The flush interval.
    pub closed spec fn spec_flush_interval(&self) -> u64 {
        self.flush_interval_ns
    }

    /// The encoding this aggregator's snapshots are serialized with.
    pub closed spec fn spec_encoder(&self) -> Encoder {
        self.encoder
    }

    /// The standing invariant: each map holds each id at most once.
    pub closed spec fn wf(&self) -> bool {
        distinct_ids(self.counters_seq()) && distinct_ids(self.histograms_seq())
    }

    /// A fresh aggregator: empty state, first flush one interval from now.
    pub fn new(
        rx_upd: rtrb::Consumer<UpdateEvent>,
        rx_cnc: rtrb::Consumer<ControlEvent>,
        encoder: Encoder,
        flush_interval_ns: u64,
        now_ns: u64,
    ) -> (r: MetricsAggregator)
        ensures
            r.wf(),
            r.counters_seq() == Seq::<(Id, CounterModel)>::empty(),
            r.histograms_seq() == Seq::<(Id, HistogramModel)>::empty(),
            r.spec_flush_interval() == flush_interval_ns,
            r.spec_next_flush_time() == sat_add_u64(now_ns, flush_interval_ns),
            r.spec_encoder() == encoder,
    {
        let next = if now_ns <= u64::MAX - flush_interval_ns {
            now_ns + flush_interval_ns
        } else {
            u64::MAX
        };
        let r = MetricsAggregator {
            rx_upd,
            rx_cnc,
            encoder,
            counters: Vec::new(),
            histograms: Vec::new(),
            next_flush_time_ns: next,
            flush_interval_ns,
        };
        proof {
            assert(r.counters_seq() =~= Seq::<(Id, CounterModel)>::empty());
            assert(r.histograms_seq() =~= Seq::<(Id, HistogramModel)>::empty());
        }
        r
    }

    /// The index of a counter id, when present.
    fn find_counter(&self, id: Id) -> (r: Option<usize>)
        ensures
            match r {
                Some(i) => i < self.counters_seq().len() && self.counters_seq()[i as int].0 == id,
                None => !contains_id(self.counters_seq(), id),
            },
    {
        let len = self.counters.len();
        let mut i: usize = 0;
        while i < len
            invariant
                i <= len,
                len == self.counters@.len(),
                forall|k: int| 0 <= k < i ==> self.counters_seq()[k].0 != id,
            decreases len - i,
        {
            if self.counters[i].0 == id {
                return Some(i);
            }
            i = i + 1;
        }
        None
    }

    /// The index of a histogram id, when present.
    fn find_histogram(&self, id: Id) -> (r: Option<usize>)
        ensures
            match r {
                Some(i) => i < self.histograms_seq().len() && self.histograms_seq()[i as int].0
                    == id,
                None => !contains_id(self.histograms_seq(), id),
            },
    {
        let len = self.histograms.len();
        let mut i: usize = 0;
        while i < len
            invariant
                i <= len,
                len == self.histograms@.len(),
                forall|k: int| 0 <= k < i ==> self.histograms_seq()[k].0 != id,
            decreases len - i,
        {
            if self.histograms[i].0 == id {
                return Some(i);
            }
            i = i + 1;
        }
        None
    }

    /// Applies one control event: create inserts if absent, delete removes.
    /// Within one poll pass, every control event is applied before any
    /// update event.
    pub fn handle_control_event(&mut self, event: ControlEvent)
        requires
            old(self).wf(),
        ensures
            final(self).wf(),
            (final(self).counters_seq(), final(self).histograms_seq()) == apply_control(
                old(self).counters_seq(),
                old(self).histograms_seq(),
                event,
            ),
            final(self).spec_next_flush_time() == old(self).spec_next_flush_time(),
            final(self).spec_flush_interval() == old(self).spec_flush_interval(),
            final(self).spec_encoder() == old(self).spec_encoder(),
    {
        let ghost c0 = self.counters_seq();
        let ghost h0 = self.histograms_seq();
        match event {
            ControlEvent::CounterCreate(id, name, tags) => {
                match self.find_counter(id) {
                    Some(_) => {},
                    None => {
                        let ghost m = CounterModel {
                            value: 0,
                            name: name@,
                            tags: tags.deep_view(),
                        };
                        self.counters.push((id, Counter::new(name, tags)));
                        proof {
                            assert(self.counters_seq() =~= c0.push((id, m)));
                            assert forall|i: int, j: int|
                                0 <= i < j < self.counters_seq().len() implies self.counters_seq()[i].0
                                != self.counters_seq()[j].0 by {
                                if j + 1 == self.counters_seq().len() {
                                    assert(c0[i].0 != id);
                                }
                            }
                        }
                    },
                }
            },
            ControlEvent::CounterDelete(id) => {
                match self.find_counter(id) {
                    Some(i) => {
                        proof {
                            lemma_remove_id_at(c0, id, i as int);
                        }
                        self.counters.remove(i);
                        proof {
                            assert(self.counters_seq() =~= c0.remove(i as int));
                        }
                    },
                    None => {
                        proof {
                            lemma_remove_id_absent(c0, id);
                        }
                    },
                }
            },
            ControlEvent::HistogramCreate(id, name, tags) => {
                match self.find_histogram(id) {
                    Some(_) => {},
                    None => {
                        let ghost m = HistogramModel {
                            values: Multiset::<u64>::empty(),
                            name: name@,
                            tags: tags.deep_view(),
                        };
                        self.histograms.push((id, Histogram::new(name, tags)));
                        proof {
                            assert(self.histograms_seq() =~= h0.push((id, m)));
                            assert forall|i: int, j: int|
                                0 <= i < j < self.histograms_seq().len() implies self.histograms_seq()[i].0
                                != self.histograms_seq()[j].0 by {
                                if j + 1 == self.histograms_seq().len() {
                                    assert(h0[i].0 != id);
                                }
                            }
                        }
                    },
                }
            },
            ControlEvent::HistogramDelete(id) => {
                match self.find_histogram(id) {
                    Some(i) => {
                        proof {
                            lemma_remove_id_at(h0, id, i as int);
                        }
                        self.histograms.remove(i);
                        proof {
                            assert(self.histograms_seq() =~= h0.remove(i as int));
                        }
                    },
                    None => {
                        proof {
                            lemma_remove_id_absent(h0, id);
                        }
                    },
                }
            },
        }
    }

    /// Applies one update event: an increment sums into its counter, a
    /// recording feeds its histogram's accumulator, and an unknown or
    /// already-deleted id is a silent no-op, never an error.  The one
    /// failure is a recording refused by the accumulator — possible only
    /// for a histogram id that is present — and it leaves the aggregated
    /// state unchanged.
    pub fn handle_update_event(&mut self, event: UpdateEvent) -> (r: Result<(), Error>)
        requires
            old(self).wf(),
        ensures
            final(self).wf(),
            r is Ok ==> (final(self).counters_seq(), final(self).histograms_seq()) == apply_update(
                old(self).counters_seq(),
                old(self).histograms_seq(),
                event,
            ),
            r is Err ==> final(self).counters_seq() == old(self).counters_seq()
                && final(self).histograms_seq() == old(self).histograms_seq(),
            event is CounterIncrement ==> r is Ok,
            (event matches UpdateEvent::HistogramRecord(hid, _) && !contains_id(
                old(self).histograms_seq(),
                hid,
            )) ==> r is Ok,
            r matches Err(e) ==> e is Other,
            final(self).spec_next_flush_time() == old(self).spec_next_flush_time(),
            final(self).spec_flush_interval() == old(self).spec_flush_interval(),
            final(self).spec_encoder() == old(self).spec_encoder(),
    {
        let ghost c0 = self.counters_seq();
        let ghost h0 = self.histograms_seq();
        match event {
            UpdateEvent::CounterIncrement(id, delta) => {
                match self.find_counter(id) {
                    Some(i) => {
                        let ghost entry0 = c0[i as int];
                        let entry = &mut self.counters[i];
                        entry.1.increment(delta);
                        proof {
                            lemma_update_counter_at(c0, id, delta, i as int);
                            assert(self.counters_seq() =~= c0.update(
                                i as int,
                                (
                                    id,
                                    CounterModel {
                                        value: sat_add_u64(entry0.1.value, delta),
                                        ..entry0.1
                                    },
                                ),
                            ));
                            assert(self.histograms_seq() =~= h0);
                            assert forall|m: int, n: int|
                                0 <= m < n < self.counters_seq().len() implies self.counters_seq()[m].0
                                != self.counters_seq()[n].0 by {
                                assert(self.counters_seq()[m].0 == c0[m].0);
                                assert(self.counters_seq()[n].0 == c0[n].0);
                            }
                        }
                    },
                    None => {
                        proof {
                            lemma_update_counter_absent(c0, id, delta);
                        }
                    },
                }
                Ok(())
            },
            UpdateEvent::HistogramRecord(id, value) => {
                match self.find_histogram(id) {
                    Some(i) => {
                        let ghost entry0 = h0[i as int];
                        let entry = &mut self.histograms[i];
                        let outcome = hist_record(&mut entry.1.inner, value);
                        match outcome {
                            Ok(()) => {
                                proof {
                                    lemma_record_hist_at(h0, id, value, i as int);
                                    assert(self.histograms_seq() =~= h0.update(
                                        i as int,
                                        (
                                            id,
                                            HistogramModel {
                                                values: entry0.1.values.insert(value),
                                                ..entry0.1
                                            },
                                        ),
                                    ));
                                    assert(self.counters_seq() =~= c0);
                                    assert forall|m: int, n: int|
                                        0 <= m < n < self.histograms_seq().len() implies self.histograms_seq()[m].0
                                        != self.histograms_seq()[n].0 by {
                                        assert(self.histograms_seq()[m].0 == h0[m].0);
                                        assert(self.histograms_seq()[n].0 == h0[n].0);
                                    }
                                }
                                Ok(())
                            },
                            Err(msg) => {
                                proof {
                                    assert(self.histograms_seq() =~= h0);
                                    assert(self.counters_seq() =~= c0);
                                }
                                Err(Error::Other(msg))
                            },
                        }
                    },
                    None => {
                        proof {
                            lemma_record_hist_absent(h0, id, value);
                        }
                        Ok(())
                    },
                }
            },
        }
    }

    /// Drains every control event available at the time of the call, then
    /// every available update event, applying each in arrival order —
    /// whatever events the channels hand over.
    pub fn process_events(&mut self) -> (r: Result<(), Error>)
        requires
            old(self).wf(),
        ensures
            final(self).wf(),
            final(self).spec_next_flush_time() == old(self).spec_next_flush_time(),
            final(self).spec_flush_interval() == old(self).spec_flush_interval(),
            final(self).spec_encoder() == old(self).spec_encoder(),
            r matches Err(e) ==> e is Other,
    {
        let cnc_budget = channel_slots(&self.rx_cnc);
        let mut k: usize = 0;
        while k < cnc_budget
            invariant
                self.wf(),
                self.spec_next_flush_time() == old(self).spec_next_flush_time(),
                self.spec_flush_interval() == old(self).spec_flush_interval(),
                self.spec_encoder() == old(self).spec_encoder(),
            decreases cnc_budget - k,
        {
            match channel_pop(&mut self.rx_cnc) {
                Some(event) => self.handle_control_event(event),
                None => { return Ok(()); },
            }
            k = k + 1;
        }
        let upd_budget = channel_slots(&self.rx_upd);
        let mut j: usize = 0;
        while j < upd_budget
            invariant
                self.wf(),
                self.spec_next_flush_time() == old(self).spec_next_flush_time(),
                self.spec_flush_interval() == old(self).spec_flush_interval(),
                self.spec_encoder() == old(self).spec_encoder(),
            decreases upd_budget - j,
        {
            match channel_pop(&mut self.rx_upd) {
                Some(event) => {
                    let outcome = self.handle_update_event(event);
                    if let Err(e) = outcome {
                        return Err(e);
                    }
                },
                None => { return Ok(()); },
            }
            j = j + 1;
        }
        Ok(())
    }

    /// One turn of the aggregator loop: drain what the channels hold, then
    /// say whether a flush is due.  Control events are always applied
    /// before update events within one turn.
    pub fn poll(&mut self, now_ns: u64) -> (r: Result<bool, Error>)
        requires
            old(self).wf(),
        ensures
            final(self).wf(),
            final(self).spec_next_flush_time() == old(self).spec_next_flush_time(),
            final(self).spec_flush_interval() == old(self).spec_flush_interval(),
            final(self).spec_encoder() == old(self).spec_encoder(),
            r matches Ok(due) ==> due == (now_ns >= old(self).spec_next_flush_time()),
            r matches Err(e) ==> e is Other,
    {
        let outcome = self.process_events();
        match outcome {
            Ok(()) => Ok(now_ns >= self.next_flush_time_ns),
            Err(e) => Err(e),
        }
    }

    /// Encodes the whole counter snapshot, one record per counter in
    /// creation order.
    pub fn encode_counters_payload(&self, timestamp: u64) -> (r: Vec<u8>)
        ensures
            r@ == counters_payload(self.counters_seq(), self.spec_encoder(), timestamp as nat),
    {
        let ghost s = self.counters_seq();
        let mut out: Vec<u8> = Vec::new();
        let len = self.counters.len();
        let mut i: usize = 0;
        while i < len
            invariant
                i <= len,
                len == self.counters@.len(),
                s == self.counters_seq(),
                out@ == counters_payload(s.take(i as int), self.spec_encoder(), timestamp as nat),
            decreases len - i,
        {
            self.encoder.encode_counter(&self.counters[i].1, timestamp, &mut out);
            proof {
                assert(s.take(i + 1).drop_last() =~= s.take(i as int));
                assert(s.take(i + 1).last() == s[i as int]);
                assert(s[i as int].1 == self.counters@[i as int].1.model());
            }
            i = i + 1;
        }
        proof {
            assert(s.take(s.len() as int) =~= s);
        }
        out
    }

    /// The accumulated value of the counter with the given id, when one
    /// exists.
    pub fn counter_value(&self, id: Id) -> (r: Option<u64>)
        ensures
            match r {
                Some(v) => exists|i: int|
                    0 <= i < self.counters_seq().len() && (#[trigger] self.counters_seq()[i]).0
                        == id && self.counters_seq()[i].1.value == v,
                None => !contains_id(self.counters_seq(), id),
            },
    {
        match self.find_counter(id) {
            Some(i) => Some(self.counters[i].1.value()),
            None => None,
        }
    }

    /// How many values the histogram with the given id has recorded since
    /// the last flush (saturating), when one exists.
    pub fn histogram_count(&self, id: Id) -> (r: Option<u64>)
        ensures
            match r {
                Some(c) => exists|i: int|
                    0 <= i < self.histograms_seq().len() && (#[trigger] self.histograms_seq()[i]).0
                        == id && if self.histograms_seq()[i].1.values.len() <= u64::MAX {
                        c == self.histograms_seq()[i].1.values.len()
                    } else {
                        c == u64::MAX
                    },
                None => !contains_id(self.histograms_seq(), id),
            },
    {
        match self.find_histogram(id) {
            Some(i) => Some(self.histograms[i].1.count()),
            None => None,
        }
    }

    /// How many counters the snapshot holds.
    pub fn counters_len(&self) -> (r: usize)
        ensures
            r == self.counters_seq().len(),
    {
        self.counters.len()
    }

    /// How many histograms the snapshot holds.
    pub fn histograms_len(&self) -> (r: usize)
        ensures
            r == self.histograms_seq().len(),
    {
        self.histograms.len()
    }

    /// One aggregated histogram, for reading its statistics.
    pub fn histogram_at(&self, i: usize) -> (r: &Histogram)
        requires
            i < self.histograms_seq().len(),
        ensures
            r.model() == self.histograms_seq()[i as int].1,
    {
        &self.histograms[i].1
    }

    /// Encodes the whole histogram snapshot, the statistics of each
    /// histogram supplied in order.
    pub fn encode_histograms_payload(
        &self,
        stats: &Vec<HistogramStats>,
        timestamp: u64,
    ) -> (r: Vec<u8>)
        requires
            stats@.len() == self.histograms_seq().len(),
        ensures
            r@ == histograms_payload(
                self.histograms_seq(),
                stats@,
                self.spec_encoder(),
                timestamp as nat,
            ),
    {
        let ghost s = self.histograms_seq();
        let mut out: Vec<u8> = Vec::new();
        let len = self.histograms.len();
        let mut i: usize = 0;
        while i < len
            invariant
                i <= len,
                len == self.histograms@.len(),
                s == self.histograms_seq(),
                stats@.len() == s.len(),
                out@ == histograms_payload(
                    s.take(i as int),
                    stats@.take(i as int),
                    self.spec_encoder(),
                    timestamp as nat,
                ),
            decreases len - i,
        {
            self.encoder.encode_histogram(
                &self.histograms[i].1,
                &stats[i],
                timestamp,
                &mut out,
            );
            proof {
                assert(s.take(i + 1).drop_last() =~= s.take(i as int));
                assert(stats@.take(i + 1).drop_last() =~= stats@.take(i as int));
                assert(s.take(i + 1).last() == s[i as int]);
                assert(stats@.take(i + 1).last() == stats@[i as int]);
                assert(s[i as int].1 == self.histograms@[i as int].1.model());
            }
            i = i + 1;
        }
        proof {
            assert(s.take(s.len() as int) =~= s);
            assert(stats@.take(s.len() as int) =~= stats@);
        }
        out
    }

    /// Closes a successful flush: resets every histogram accumulator —
    /// counters are never cleared — and advances the deadline one interval
    /// past the flush time.
    pub fn finish_flush(&mut self, now_ns: u64)
        requires
            old(self).wf(),
        ensures
            final(self).wf(),
            final(self).counters_seq() == old(self).counters_seq(),
            final(self).histograms_seq() == Seq::new(
                old(self).histograms_seq().len(),
                |i: int| (
                    old(self).histograms_seq()[i].0,
                    HistogramModel {
                        values: Multiset::<u64>::empty(),
                        ..old(self).histograms_seq()[i].1
                    },
                ),
            ),
            final(self).spec_next_flush_time() == sat_add_u64(
                now_ns,
                old(self).spec_flush_interval(),
            ),
            final(self).spec_flush_interval() == old(self).spec_flush_interval(),
            final(self).spec_encoder() == old(self).spec_encoder(),
    {
        let ghost h0 = self.histograms_seq();
        let len = self.histograms.len();
        let mut i: usize = 0;
        while i < len
            invariant
                i <= len,
                len == self.histograms@.len(),
                self.counters_seq() == old(self).counters_seq(),
                self.histograms_seq().len() == h0.len(),
                h0 == old(self).histograms_seq(),
                self.spec_flush_interval() == old(self).spec_flush_interval(),
                self.spec_encoder() == old(self).spec_encoder(),
                self.next_flush_time_ns == old(self).next_flush_time_ns,
                forall|k: int|
                    0 <= k < i ==> self.histograms_seq()[k] == (
                    h0[k].0,
                    HistogramModel { values: Multiset::<u64>::empty(), ..h0[k].1 },
                ),
                forall|k: int| i <= k < len ==> self.histograms_seq()[k] == h0[k],
            decreases len - i,
        {
            let ghost pre = self.histograms_seq();
            let entry = &mut self.histograms[i];
            hist_reset(&mut entry.1.inner);
            proof {
                assert forall|k: int|
                    0 <= k < len && k != i implies #[trigger] self.histograms_seq()[k]
                    == pre[k] by {
                    assert(self.histograms@[k] == old(self).histograms@[k]
                        || self.histograms@[k].1.model() == pre[k].1);
                }
                assert(self.histograms_seq()[i as int].0 == h0[i as int].0);
                assert(self.histograms_seq()[i as int].1 =~= HistogramModel {
                    values: Multiset::<u64>::empty(),
                    ..h0[i as int].1
                });
            }
            i = i + 1;
        }
        let next = if now_ns <= u64::MAX - self.flush_interval_ns {
            now_ns + self.flush_interval_ns
        } else {
            u64::MAX
        };
        self.next_flush_time_ns = next;
        proof {
            assert(final(self).histograms_seq() =~= Seq::new(
                h0.len(),
                |i: int| (h0[i].0, HistogramModel { values: Multiset::<u64>::empty(), ..h0[i].1 }),
            ));
            assert forall|m: int, n: int|
                0 <= m < n < final(self).histograms_seq().len() implies final(self).histograms_seq()[m].0
                != final(self).histograms_seq()[n].0 by {
                assert(h0[m].0 != h0[n].0);
            }
        }
    }
}

} // verus!
