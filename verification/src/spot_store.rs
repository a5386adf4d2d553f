//! The store of active spots: one summary per station and frequency, fed by
//! the reports that pass the signal filter and emptied of what grows old.

use crate::spot::{
    key_of_raw, lemma_running_mean_between, next_count, round_to_khz, seeded, spot_views,
    updated, AggregatedSpot, AggregatedSpotView, RawSpot, RawSpotView, SpotKey, SPEED_SCALE,
};
use crate::text::{
    chars_of, lemma_text_before_asymmetric, lemma_text_before_total, lemma_text_before_transitive,
    text_before, text_less,
};
use vstd::prelude::*;

verus! {

/// Milliseconds in a minute.
pub const MINUTE_MS: u64 = 60_000;

/// The state of a store, as mathematical values.
pub struct SpotStoreView {
    /// The summaries, each under its key.
    pub spots: Map<SpotKey, AggregatedSpotView>,
    /// Reports weaker than this are not taken in.
    pub min_snr: i32,
    /// Summaries older than this are purged.
    pub max_age_ms: u64,
}

impl SpotStoreView {
    /// Whether the store holds finitely many summaries, each under its own
    /// key. Every store that the library builds does.
    pub open spec fn well_keyed(self) -> bool {
        &&& self.spots.dom().finite()
        &&& forall|k: SpotKey| #[trigger] self.spots.dom().contains(k) ==> self.spots[k].key() == k
    }

    /// Whether `a` passes the filters of this store at `now_ms`: strong
    /// enough, and not older than the age limit. A summary that has just
    /// reached the limit still passes.
    pub open spec fn admits(self, a: AggregatedSpotView, now_ms: u64) -> bool {
        a.highest_snr >= self.min_snr && a.age_ms(now_ms) <= self.max_age_ms
    }
}

/// The store after the report `raw` came in at `now_ms`: unchanged where the
/// report is too weak; else the summary under the report's key is updated,
/// or seeded where there was none.
pub open spec fn add_step(s: SpotStoreView, raw: RawSpotView, now_ms: u64) -> SpotStoreView {
    if raw.snr < s.min_snr {
        s
    } else if s.spots.dom().contains(key_of_raw(raw)) {
        SpotStoreView {
            spots: s.spots.insert(key_of_raw(raw), updated(s.spots[key_of_raw(raw)], raw, now_ms)),
            ..s
        }
    } else {
        SpotStoreView { spots: s.spots.insert(key_of_raw(raw), seeded(raw, now_ms)), ..s }
    }
}

/// The store after a purge at `now_ms`: every summary older than the age
/// limit is gone, every other is as it was.
pub open spec fn purge_step(s: SpotStoreView, now_ms: u64) -> SpotStoreView {
    SpotStoreView {
        spots: Map::new(
            |k: SpotKey| s.spots.dom().contains(k) && s.spots[k].age_ms(now_ms) <= s.max_age_ms,
            |k: SpotKey| s.spots[k],
        ),
        ..s
    }
}

/// Whether no two of `entries` share a key.
pub open spec fn distinct_keys(entries: Seq<AggregatedSpotView>) -> bool {
    forall|i: int, j: int|
        0 <= i < j < entries.len() ==> (#[trigger] entries[i]).key() != (#[trigger] entries[j]).key()
}

/// Whether one of `entries` has the key `k`.
pub open spec fn has_key(entries: Seq<AggregatedSpotView>, k: SpotKey) -> bool {
    exists|i: int| 0 <= i < entries.len() && (#[trigger] entries[i]).key() == k
}

/// Where among `entries` the key `k` stands.
pub open spec fn index_of_key(entries: Seq<AggregatedSpotView>, k: SpotKey) -> int {
    choose|i: int| 0 <= i < entries.len() && (#[trigger] entries[i]).key() == k
}

/// The summaries of `entries`, each under its key.
pub open spec fn entries_map(entries: Seq<AggregatedSpotView>) -> Map<SpotKey, AggregatedSpotView> {
    Map::new(|k: SpotKey| has_key(entries, k), |k: SpotKey| entries[index_of_key(entries, k)])
}

/// Among entries with distinct keys, each is found under its own key.
pub proof fn lemma_entry_lookup(entries: Seq<AggregatedSpotView>, i: int)
    requires
        distinct_keys(entries),
        0 <= i < entries.len(),
    ensures
        has_key(entries, entries[i].key()),
        index_of_key(entries, entries[i].key()) == i,
        entries_map(entries).dom().contains(entries[i].key()),
        entries_map(entries)[entries[i].key()] == entries[i],
{
    let k = entries[i].key();
    assert(has_key(entries, k));
    let j = index_of_key(entries, k);
    if j < i {
        assert(entries[j].key() != entries[i].key());
    } else if i < j {
        assert(entries[i].key() != entries[j].key());
    }
}

/// Entries with distinct keys make a map with as many keys as entries.
pub proof fn lemma_entries_map_len(entries: Seq<AggregatedSpotView>)
    requires
        distinct_keys(entries),
    ensures
        entries_map(entries).dom().finite(),
        entries_map(entries).dom().len() == entries.len(),
    decreases entries.len(),
{
    if entries.len() == 0 {
        assert(entries_map(entries).dom() =~= Set::<SpotKey>::empty());
    } else {
        let front = entries.drop_last();
        let last = entries.last();
        assert forall|i: int, j: int| 0 <= i < j < front.len() implies (#[trigger] front[i]).key()
            != (#[trigger] front[j]).key() by {
            assert(front[i] == entries[i] && front[j] == entries[j]);
        }
        lemma_entries_map_len(front);
        assert(!has_key(front, last.key())) by {
            if has_key(front, last.key()) {
                let i = index_of_key(front, last.key());
                assert(front[i] == entries[i]);
                assert(entries[i].key() != entries[entries.len() - 1].key());
            }
        }
        assert(entries_map(entries).dom() =~= entries_map(front).dom().insert(last.key())) by {
            assert forall|k: SpotKey| has_key(entries, k) <==> (has_key(front, k) || k
                == last.key()) by {
                if has_key(entries, k) {
                    let i = index_of_key(entries, k);
                    if i < front.len() {
                        assert(front[i] == entries[i]);
                    }
                }
                if has_key(front, k) {
                    let i = index_of_key(front, k);
                    assert(front[i] == entries[i]);
                }
                if k == last.key() {
                    assert(entries[entries.len() - 1].key() == k);
                }
            }
        }
    }
}

/// Entries with distinct keys make a well-keyed map.
pub proof fn lemma_entries_well_keyed(entries: Seq<AggregatedSpotView>, min_snr: i32, max_age_ms: u64)
    requires
        distinct_keys(entries),
    ensures
        (SpotStoreView { spots: entries_map(entries), min_snr, max_age_ms }).well_keyed(),
{
    lemma_entries_map_len(entries);
    assert forall|k: SpotKey| #[trigger]
        entries_map(entries).dom().contains(k) implies entries_map(entries)[k].key() == k by {
        let i = index_of_key(entries, k);
        assert(entries[i].key() == k);
    }
}

/// Putting an entry with a new key anywhere among entries with distinct
/// keys adds it to the map and leaves the rest of the map alone.
pub proof fn lemma_map_insert_at(entries: Seq<AggregatedSpotView>, p: int, e: AggregatedSpotView)
    requires
        distinct_keys(entries),
        0 <= p <= entries.len(),
        !has_key(entries, e.key()),
    ensures
        distinct_keys(entries.insert(p, e)),
        entries_map(entries.insert(p, e)) == entries_map(entries).insert(e.key(), e),
{
    let after = entries.insert(p, e);
    assert forall|i: int, j: int| 0 <= i < j < after.len() implies (#[trigger] after[i]).key() != (
    #[trigger] after[j]).key() by {
        let a = if i < p {
            i
        } else {
            i - 1
        };
        let b = if j < p {
            j
        } else {
            j - 1
        };
        if i != p && j != p {
            assert(after[i] == entries[a] && after[j] == entries[b]);
            assert(entries[a].key() != entries[b].key());
        } else if i == p {
            assert(after[j] == entries[b]);
        } else {
            assert(after[i] == entries[a]);
        }
    }
    let before_map = entries_map(entries);
    let after_map = entries_map(after);
    assert forall|k: SpotKey| after_map.dom().contains(k) <==> before_map.insert(
        e.key(),
        e,
    ).dom().contains(k) by {
        if has_key(after, k) {
            let i = index_of_key(after, k);
            if i < p {
                assert(entries[i].key() == k);
            } else if i > p {
                assert(entries[i - 1].key() == k);
            }
        }
        if has_key(entries, k) {
            let j = index_of_key(entries, k);
            let i = if j < p {
                j
            } else {
                j + 1
            };
            assert(after[i].key() == k);
        }
        if k == e.key() {
            assert(after[p].key() == k);
        }
    }
    assert forall|k: SpotKey| after_map.dom().contains(k) implies after_map[k] == before_map.insert(
        e.key(),
        e,
    )[k] by {
        let i = index_of_key(after, k);
        lemma_entry_lookup(after, i);
        if i != p {
            let j = if i < p {
                i
            } else {
                i - 1
            };
            assert(after[i] == entries[j]);
            lemma_entry_lookup(entries, j);
        }
    }
    assert(after_map =~= before_map.insert(e.key(), e));
}

/// Replacing an entry by one with the same key replaces it in the map and
/// leaves the rest of the map alone.
pub proof fn lemma_map_update(entries: Seq<AggregatedSpotView>, i: int, e: AggregatedSpotView)
    requires
        distinct_keys(entries),
        0 <= i < entries.len(),
        e.key() == entries[i].key(),
    ensures
        distinct_keys(entries.update(i, e)),
        entries_map(entries.update(i, e)) == entries_map(entries).insert(e.key(), e),
{
    let after = entries.update(i, e);
    assert forall|a: int, b: int| 0 <= a < b < after.len() implies (#[trigger] after[a]).key() != (
    #[trigger] after[b]).key() by {
        assert(after[a].key() == entries[a].key() && after[b].key() == entries[b].key());
    }
    let before_map = entries_map(entries);
    let after_map = entries_map(after);
    assert forall|k: SpotKey| after_map.dom().contains(k) <==> before_map.insert(
        e.key(),
        e,
    ).dom().contains(k) by {
        if has_key(after, k) {
            let j = index_of_key(after, k);
            assert(entries[j].key() == k);
        }
        if has_key(entries, k) {
            let j = index_of_key(entries, k);
            assert(after[j].key() == k);
        }
        if k == e.key() {
            assert(after[i].key() == k);
        }
    }
    assert forall|k: SpotKey| after_map.dom().contains(k) implies after_map[k] == before_map.insert(
        e.key(),
        e,
    )[k] by {
        let j = index_of_key(after, k);
        lemma_entry_lookup(after, j);
        assert(entries[j].key() == k);
        lemma_entry_lookup(entries, j);
    }
    assert(after_map =~= before_map.insert(e.key(), e));
}

/// Those of `entries` that meet `pred`, in their order.
pub open spec fn selected(
    entries: Seq<AggregatedSpotView>,
    pred: spec_fn(AggregatedSpotView) -> bool,
) -> Seq<AggregatedSpotView>
    decreases entries.len(),
{
    if entries.len() == 0 {
        entries
    } else if pred(entries.last()) {
        selected(entries.drop_last(), pred).push(entries.last())
    } else {
        selected(entries.drop_last(), pred)
    }
}

/// The part of a map whose summaries meet `pred`.
pub open spec fn selected_map(
    m: Map<SpotKey, AggregatedSpotView>,
    pred: spec_fn(AggregatedSpotView) -> bool,
) -> Map<SpotKey, AggregatedSpotView> {
    Map::new(|k: SpotKey| m.dom().contains(k) && pred(m[k]), |k: SpotKey| m[k])
}

/// Selecting among entries with distinct keys selects the same part of
/// their map.
pub proof fn lemma_selected(
    entries: Seq<AggregatedSpotView>,
    pred: spec_fn(AggregatedSpotView) -> bool,
)
    requires
        distinct_keys(entries),
    ensures
        distinct_keys(selected(entries, pred)),
        entries_map(selected(entries, pred)) == selected_map(entries_map(entries), pred),
    decreases entries.len(),
{
    if entries.len() == 0 {
        assert(entries_map(entries) =~= selected_map(entries_map(entries), pred));
    } else {
        let front = entries.drop_last();
        let last = entries.last();
        assert forall|i: int, j: int| 0 <= i < j < front.len() implies (#[trigger] front[i]).key()
            != (#[trigger] front[j]).key() by {
            assert(front[i] == entries[i] && front[j] == entries[j]);
        }
        lemma_selected(front, pred);
        assert(!has_key(front, last.key())) by {
            if has_key(front, last.key()) {
                let i = index_of_key(front, last.key());
                assert(front[i] == entries[i]);
                assert(entries[i].key() != entries[entries.len() - 1].key());
            }
        }
        assert(front.insert(front.len() as int, last) =~= entries);
        lemma_map_insert_at(front, front.len() as int, last);
        let chosen = selected(front, pred);
        if pred(last) {
            assert(!has_key(chosen, last.key())) by {
                if has_key(chosen, last.key()) {
                    assert(entries_map(chosen).dom().contains(last.key()));
                }
            }
            assert(chosen.insert(chosen.len() as int, last) =~= chosen.push(last));
            lemma_map_insert_at(chosen, chosen.len() as int, last);
        }
        assert(entries_map(selected(entries, pred)) =~= selected_map(entries_map(entries), pred));
    }
}

/// The orders in which a snapshot of the store can be had.
#[derive(Clone, Copy, Debug, PartialEq, Eq, Structural)]
pub enum SpotOrder {
    /// Rising frequency.
    Frequency,
    /// Latest report first.
    Recency,
}

/// Whether the key `a` comes before `b`: by callsign in dictionary order,
/// then by centre frequency.
pub open spec fn key_before(a: SpotKey, b: SpotKey) -> bool {
    text_before(a.callsign, b.callsign) || (a.callsign == b.callsign && a.center_khz
        < b.center_khz)
}

/// Whether `a` stands before `b` in a snapshot in the given order. Equal
/// frequencies, or equal times, are told apart by key.
pub open spec fn comes_before(order: SpotOrder, a: AggregatedSpotView, b: AggregatedSpotView) -> bool {
    match order {
        SpotOrder::Frequency => a.frequency_hz < b.frequency_hz || (a.frequency_hz
            == b.frequency_hz && key_before(a.key(), b.key())),
        SpotOrder::Recency => a.last_spotted_ms > b.last_spotted_ms || (a.last_spotted_ms
            == b.last_spotted_ms && key_before(a.key(), b.key())),
    }
}

/// Whether each of `entries` stands before all that follow it.
pub open spec fn sorted_by(order: SpotOrder, entries: Seq<AggregatedSpotView>) -> bool {
    forall|i: int, j: int|
        0 <= i < j < entries.len() ==> comes_before(order, #[trigger] entries[i], #[trigger] entries[j])
}

/// Of two summaries with different keys one stands before the other.
pub proof fn lemma_order_total(order: SpotOrder, a: AggregatedSpotView, b: AggregatedSpotView)
    requires
        a.key() != b.key(),
    ensures
        comes_before(order, a, b) || comes_before(order, b, a),
{
    lemma_text_before_total(a.callsign, b.callsign);
}

/// The order of a snapshot is transitive.
pub proof fn lemma_order_transitive(
    order: SpotOrder,
    a: AggregatedSpotView,
    b: AggregatedSpotView,
    c: AggregatedSpotView,
)
    requires
        comes_before(order, a, b),
        comes_before(order, b, c),
    ensures
        comes_before(order, a, c),
{
    if text_before(a.callsign, b.callsign) && text_before(b.callsign, c.callsign) {
        lemma_text_before_transitive(a.callsign, b.callsign, c.callsign);
    }
}

/// No summary stands before itself, and of two at most one stands before
/// the other.
pub proof fn lemma_order_asymmetric(order: SpotOrder, a: AggregatedSpotView, b: AggregatedSpotView)
    ensures
        !(comes_before(order, a, b) && comes_before(order, b, a)),
{
    lemma_text_before_asymmetric(a.callsign, b.callsign);
}

/// The entries before the last make the map without the last one's key.
proof fn lemma_map_without_last(entries: Seq<AggregatedSpotView>)
    requires
        distinct_keys(entries),
        entries.len() > 0,
    ensures
        distinct_keys(entries.drop_last()),
        entries_map(entries.drop_last()) == entries_map(entries).remove(entries.last().key()),
{
    let front = entries.drop_last();
    let last = entries.last();
    assert forall|i: int, j: int| 0 <= i < j < front.len() implies (#[trigger] front[i]).key() != (
    #[trigger] front[j]).key() by {
        assert(front[i] == entries[i] && front[j] == entries[j]);
    }
    assert(!has_key(front, last.key())) by {
        if has_key(front, last.key()) {
            let i = index_of_key(front, last.key());
            assert(front[i] == entries[i]);
            assert(entries[i].key() != entries[entries.len() - 1].key());
        }
    }
    assert(front.insert(front.len() as int, last) =~= entries);
    lemma_map_insert_at(front, front.len() as int, last);
    assert(entries_map(front) =~= entries_map(entries).remove(last.key()));
}

/// A snapshot is determined by what it holds: two runs of summaries, both
/// in the same order and without a key twice, that hold the same summaries
/// are the same run.
pub proof fn lemma_snapshot_unique(
    order: SpotOrder,
    a: Seq<AggregatedSpotView>,
    b: Seq<AggregatedSpotView>,
)
    requires
        sorted_by(order, a),
        sorted_by(order, b),
        distinct_keys(a),
        distinct_keys(b),
        entries_map(a) == entries_map(b),
    ensures
        a == b,
    decreases a.len(),
{
    lemma_entries_map_len(a);
    lemma_entries_map_len(b);
    if a.len() == 0 {
        assert(a =~= b);
    } else {
        let n = a.len() as int;
        let x = a.last();
        let y = b.last();
        lemma_entry_lookup(a, n - 1);
        lemma_entry_lookup(b, n - 1);
        let j = index_of_key(b, x.key());
        lemma_entry_lookup(b, j);
        let i = index_of_key(a, y.key());
        lemma_entry_lookup(a, i);
        assert(b[j] == x && a[i] == y);
        if j < n - 1 {
            assert(comes_before(order, b[j], b[n - 1]));
            if i < n - 1 {
                assert(comes_before(order, a[i], a[n - 1]));
                lemma_order_asymmetric(order, x, y);
            } else {
                assert(b[j].key() != b[n - 1].key());
            }
        }
        assert(x == y);
        lemma_map_without_last(a);
        lemma_map_without_last(b);
        let fa = a.drop_last();
        let fb = b.drop_last();
        assert forall|p: int, q: int| 0 <= p < q < fa.len() implies comes_before(
            order,
            #[trigger] fa[p],
            #[trigger] fa[q],
        ) by {
            assert(fa[p] == a[p] && fa[q] == a[q]);
        }
        assert forall|p: int, q: int| 0 <= p < q < fb.len() implies comes_before(
            order,
            #[trigger] fb[p],
            #[trigger] fb[q],
        ) by {
            assert(fb[p] == b[p] && fb[q] == b[q]);
        }
        lemma_snapshot_unique(order, fa, fb);
        assert(a =~= fa.push(x));
        assert(b =~= fb.push(y));
    }
}

/// What a snapshot at `now_ms` shows: the summaries that pass the filters.
pub open spec fn shown_spots(s: SpotStoreView, now_ms: u64) -> Map<SpotKey, AggregatedSpotView> {
    Map::new(
        |k: SpotKey| s.spots.dom().contains(k) && s.admits(s.spots[k], now_ms),
        |k: SpotKey| s.spots[k],
    )
}

/// Whether `a` stands before `b` in the given order.
fn precedes(order: SpotOrder, a: &AggregatedSpot, b: &AggregatedSpot) -> (r: bool)
    ensures
        r == comes_before(order, a@, b@),
{
    let tie: bool = match order {
        SpotOrder::Frequency => {
            if a.frequency_hz != b.frequency_hz {
                return a.frequency_hz < b.frequency_hz;
            }
            true
        },
        SpotOrder::Recency => {
            if a.last_spotted_ms != b.last_spotted_ms {
                return a.last_spotted_ms > b.last_spotted_ms;
            }
            true
        },
    };
    let call_a = chars_of(a.callsign.as_str());
    let call_b = chars_of(b.callsign.as_str());
    if text_less(&call_a, &call_b) {
        true
    } else if text_less(&call_b, &call_a) {
        proof {
            lemma_text_before_asymmetric(a.callsign@, b.callsign@);
        }
        false
    } else {
        proof {
            lemma_text_before_total(a.callsign@, b.callsign@);
        }
        tie && a.center_khz < b.center_khz
    }
}

/// The store of active spots.
pub struct SpotStore {
    spots: Vec<AggregatedSpot>,
    min_snr: i32,
    max_age_ms: u64,
}

impl View for SpotStore {
    type V = SpotStoreView;

    closed spec fn view(&self) -> SpotStoreView {
        SpotStoreView {
            spots: entries_map(spot_views(self.spots@)),
            min_snr: self.min_snr,
            max_age_ms: self.max_age_ms,
        }
    }
}

impl SpotStore {
    #[verifier::type_invariant]
    spec fn keys_are_distinct(self) -> bool {
        distinct_keys(spot_views(self.spots@))
    }

    /// An empty store with the given filters.
    pub fn new(min_snr: i32, max_age_minutes: u32) -> (r: Self)
        ensures
            r@ == (SpotStoreView {
                spots: Map::empty(),
                min_snr,
                max_age_ms: (max_age_minutes * MINUTE_MS) as u64,
            }),
            r@.well_keyed(),
    {
        let r = SpotStore {
            spots: Vec::new(),
            min_snr,
            max_age_ms: max_age_minutes as u64 * MINUTE_MS,
        };
        assert(r@.spots =~= Map::empty());
        r
    }

    /// Sets the weakest signal that is taken in and shown.
    pub fn set_min_snr(&mut self, snr: i32)
        ensures
            final(self)@ == (SpotStoreView { min_snr: snr, ..old(self)@ }),
    {
        proof {
            use_type_invariant(&*self);
        }
        self.min_snr = snr;
    }

    /// Sets the age beyond which summaries are purged and hidden.
    pub fn set_max_age_minutes(&mut self, minutes: u32)
        ensures
            final(self)@ == (SpotStoreView {
                max_age_ms: (minutes * MINUTE_MS) as u64,
                ..old(self)@
            }),
    {
        proof {
            use_type_invariant(&*self);
        }
        self.max_age_ms = minutes as u64 * MINUTE_MS;
    }

    /// The weakest signal that is taken in and shown.
    pub fn min_snr(&self) -> (snr: i32)
        ensures
            snr == self@.min_snr,
    {
        self.min_snr
    }

    /// The age beyond which summaries are purged and hidden, in milliseconds.
    pub fn max_age_ms(&self) -> (age: u64)
        ensures
            age == self@.max_age_ms,
    {
        self.max_age_ms
    }

    /// Where the summary with the given key stands, if there is one.
    fn position(&self, callsign: &String, center_khz: u64) -> (r: Option<usize>)
        ensures
            r is Some <==> self@.spots.dom().contains(SpotKey { callsign: callsign@, center_khz }),
            r matches Some(i) ==> i < self.spots@.len() && self.spots@[i as int]@.key() == (SpotKey {
                callsign: callsign@,
                center_khz,
            }),
    {
        let ghost key = SpotKey { callsign: callsign@, center_khz };
        let ghost entries = spot_views(self.spots@);
        let mut i: usize = 0;
        while i < self.spots.len()
            invariant
                i <= self.spots.len(),
                entries == spot_views(self.spots@),
                key == (SpotKey { callsign: callsign@, center_khz }),
                forall|j: int| 0 <= j < i ==> (#[trigger] entries[j]).key() != key,
            decreases self.spots.len() - i,
        {
            if self.spots[i].center_khz == center_khz && self.spots[i].callsign == *callsign {
                assert(entries[i as int].key() == key);
                return Some(i);
            }
            assert(entries[i as int].key() != key);
            i += 1;
        }
        None
    }

    /// Takes in the report `raw` at `now_ms`. A report weaker than the
    /// signal filter changes nothing. Any other updates the summary under
    /// its key, or starts one where there was none.
    pub fn add_spot(&mut self, raw: RawSpot, now_ms: u64)
        ensures
            final(self)@ == add_step(old(self)@, raw@, now_ms),
            final(self)@.well_keyed(),
    {
        proof {
            use_type_invariant(&*self);
            lemma_entries_well_keyed(spot_views(self.spots@), self.min_snr, self.max_age_ms);
        }
        if raw.snr < self.min_snr {
            return;
        }
        let ghost entries = spot_views(self.spots@);
        let center: u64 = round_to_khz(raw.frequency_hz);
        let found = self.position(&raw.spotted_callsign, center);
        let mut spots: Vec<AggregatedSpot> = Vec::new();
        core::mem::swap(&mut self.spots, &mut spots);
        match found {
            Some(i) => {
                let mut entry = spots[i].clone();
                entry.update(&raw, now_ms);
                proof {
                    lemma_entry_lookup(entries, i as int);
                    lemma_map_update(entries, i as int, entry@);
                    assert(spot_views(spots@.update(i as int, entry)) =~= entries.update(
                        i as int,
                        entry@,
                    ));
                }
                spots.set(i, entry);
            },
            None => {
                let entry = AggregatedSpot::from_raw(&raw, now_ms);
                proof {
                    lemma_map_insert_at(entries, entries.len() as int, entry@);
                    assert(spot_views(spots@.push(entry)) =~= entries.insert(
                        entries.len() as int,
                        entry@,
                    ));
                }
                spots.push(entry);
            },
        }
        proof {
            lemma_entries_well_keyed(spot_views(spots@), self.min_snr, self.max_age_ms);
        }
        self.spots = spots;
    }

    /// Removes every summary that is older than the age limit at `now_ms`.
    /// A summary that has just reached the limit stays.
    pub fn purge_old_spots(&mut self, now_ms: u64)
        ensures
            final(self)@ == purge_step(old(self)@, now_ms),
            final(self)@.well_keyed(),
    {
        proof {
            use_type_invariant(&*self);
        }
        let ghost entries = spot_views(self.spots@);
        let ghost max_age = self.max_age_ms;
        let ghost pred = |a: AggregatedSpotView| a.age_ms(now_ms) <= max_age;
        let mut kept: Vec<AggregatedSpot> = Vec::new();
        let mut i: usize = 0;
        assert(entries.subrange(0, 0) =~= Seq::<AggregatedSpotView>::empty());
        assert(spot_views(kept@) =~= selected(entries.subrange(0, 0), pred));
        while i < self.spots.len()
            invariant
                i <= self.spots.len(),
                entries == spot_views(self.spots@),
                max_age == self.max_age_ms,
                pred == (|a: AggregatedSpotView| a.age_ms(now_ms) <= max_age),
                spot_views(kept@) == selected(entries.subrange(0, i as int), pred),
            decreases self.spots.len() - i,
        {
            let age: u64 = if now_ms >= self.spots[i].last_spotted_ms {
                now_ms - self.spots[i].last_spotted_ms
            } else {
                0
            };
            let ghost before = spot_views(kept@);
            proof {
                assert(entries.subrange(0, i + 1).drop_last() =~= entries.subrange(0, i as int));
                assert(entries.subrange(0, i + 1).last() == entries[i as int]);
            }
            if age <= self.max_age_ms {
                kept.push(self.spots[i].clone());
                assert(spot_views(kept@) =~= before.push(entries[i as int]));
            }
            i += 1;
        }
        proof {
            assert(entries.subrange(0, i as int) =~= entries);
            lemma_selected(entries, pred);
            assert(selected_map(entries_map(entries), pred) =~= purge_step(old(self)@, now_ms).spots);
            lemma_entries_well_keyed(spot_views(kept@), self.min_snr, self.max_age_ms);
        }
        self.spots = kept;
    }

    /// A copy of the summaries that meet `filtered`, sorted in the given
    /// order.
    fn snapshot(&self, order: SpotOrder, now_ms: u64, filtered: bool) -> (r: Vec<AggregatedSpot>)
        ensures
            sorted_by(order, spot_views(r@)),
            distinct_keys(spot_views(r@)),
            filtered ==> entries_map(spot_views(r@)) == shown_spots(self@, now_ms),
            !filtered ==> entries_map(spot_views(r@)) == self@.spots,
    {
        proof {
            use_type_invariant(self);
        }
        let ghost entries = spot_views(self.spots@);
        let ghost view = self@;
        let ghost pred = |a: AggregatedSpotView| !filtered || view.admits(a, now_ms);
        let mut out: Vec<AggregatedSpot> = Vec::new();
        let mut i: usize = 0;
        assert(entries.subrange(0, 0) =~= Seq::<AggregatedSpotView>::empty());
        assert(entries_map(spot_views(out@)) =~= entries_map(
            selected(entries.subrange(0, 0), pred),
        ));
        while i < self.spots.len()
            invariant
                i <= self.spots.len(),
                entries == spot_views(self.spots@),
                distinct_keys(entries),
                view == self@,
                pred == (|a: AggregatedSpotView| !filtered || view.admits(a, now_ms)),
                sorted_by(order, spot_views(out@)),
                distinct_keys(spot_views(out@)),
                entries_map(spot_views(out@)) == entries_map(
                    selected(entries.subrange(0, i as int), pred),
                ),
            decreases self.spots.len() - i,
        {
            let candidate = &self.spots[i];
            let age: u64 = if now_ms >= candidate.last_spotted_ms {
                now_ms - candidate.last_spotted_ms
            } else {
                0
            };
            let passes: bool = !filtered || (candidate.highest_snr >= self.min_snr && age
                <= self.max_age_ms);
            let ghost prefix = entries.subrange(0, i as int);
            let ghost e = entries[i as int];
            let ghost sorted = spot_views(out@);
            proof {
                assert(entries.subrange(0, i + 1).drop_last() =~= prefix);
                assert(entries.subrange(0, i + 1).last() == e);
                assert forall|a: int, b: int| 0 <= a < b < prefix.len() implies (
                #[trigger] prefix[a]).key() != (#[trigger] prefix[b]).key() by {
                    assert(prefix[a] == entries[a] && prefix[b] == entries[b]);
                }
                lemma_selected(prefix, pred);
            }
            if passes {
                proof {
                    assert(!has_key(prefix, e.key())) by {
                        if has_key(prefix, e.key()) {
                            let j = index_of_key(prefix, e.key());
                            assert(prefix[j] == entries[j]);
                            assert(entries[j].key() != entries[i as int].key());
                        }
                    }
                    assert(!has_key(sorted, e.key())) by {
                        if has_key(sorted, e.key()) {
                            assert(entries_map(sorted).dom().contains(e.key()));
                        }
                    }
                    assert(!has_key(selected(prefix, pred), e.key())) by {
                        if has_key(selected(prefix, pred), e.key()) {
                            assert(entries_map(selected(prefix, pred)).dom().contains(e.key()));
                        }
                    }
                }
                let mut at: usize = 0;
                while at < out.len() && !precedes(order, candidate, &out[at])
                    invariant
                        at <= out.len(),
                        sorted == spot_views(out@),
                        e == candidate@,
                        !has_key(sorted, e.key()),
                        forall|j: int| 0 <= j < at ==> comes_before(order, #[trigger] sorted[j], e),
                    decreases out.len() - at,
                {
                    proof {
                        assert(sorted[at as int].key() != e.key());
                        lemma_order_total(order, sorted[at as int], e);
                    }
                    at += 1;
                }
                let copy = candidate.clone();
                proof {
                    let after = sorted.insert(at as int, e);
                    assert(spot_views(out@.insert(at as int, copy)) =~= after);
                    lemma_map_insert_at(sorted, at as int, e);
                    let chosen = selected(prefix, pred);
                    assert(chosen.insert(chosen.len() as int, e) =~= chosen.push(e));
                    lemma_map_insert_at(chosen, chosen.len() as int, e);
                    assert forall|a: int, b: int| 0 <= a < b < after.len() implies comes_before(
                        order,
                        #[trigger] after[a],
                        #[trigger] after[b],
                    ) by {
                        if b < at {
                            assert(after[a] == sorted[a] && after[b] == sorted[b]);
                        } else if b == at {
                            assert(after[a] == sorted[a]);
                        } else if a == at {
                            assert(after[b] == sorted[b - 1]);
                            if b - 1 > at {
                                lemma_order_transitive(order, e, sorted[at as int], sorted[b - 1]);
                            }
                        } else if a < at {
                            assert(after[a] == sorted[a] && after[b] == sorted[b - 1]);
                        } else {
                            assert(after[a] == sorted[a - 1] && after[b] == sorted[b - 1]);
                        }
                    }
                }
                out.insert(at, copy);
            }
            i += 1;
        }
        proof {
            assert(entries.subrange(0, i as int) =~= entries);
            lemma_selected(entries, pred);
            if filtered {
                assert(selected_map(entries_map(entries), pred) =~= shown_spots(self@, now_ms));
            } else {
                assert(selected_map(entries_map(entries), pred) =~= self@.spots);
            }
        }
        out
    }

    /// A copy of the summaries that pass the filters at `now_ms`, by rising
    /// frequency; summaries on one frequency come by callsign, then by
    /// centre frequency.
    pub fn get_spots_by_frequency(&self, now_ms: u64) -> (r: Vec<AggregatedSpot>)
        ensures
            sorted_by(SpotOrder::Frequency, spot_views(r@)),
            distinct_keys(spot_views(r@)),
            entries_map(spot_views(r@)) == shown_spots(self@, now_ms),
    {
        self.snapshot(SpotOrder::Frequency, now_ms, true)
    }

    /// A copy of all summaries, the latest report first; summaries of one
    /// instant come by callsign, then by centre frequency.
    pub fn get_spots_by_recency(&self) -> (r: Vec<AggregatedSpot>)
        ensures
            sorted_by(SpotOrder::Recency, spot_views(r@)),
            distinct_keys(spot_views(r@)),
            entries_map(spot_views(r@)) == self@.spots,
    {
        self.snapshot(SpotOrder::Recency, 0, false)
    }

    /// How many summaries the store holds.
    pub fn count(&self) -> (n: usize)
        ensures
            n == self@.spots.dom().len(),
            self@.well_keyed(),
    {
        proof {
            use_type_invariant(self);
            lemma_entries_map_len(spot_views(self.spots@));
            lemma_entries_well_keyed(spot_views(self.spots@), self.min_snr, self.max_age_ms);
        }
        self.spots.len()
    }

    /// Empties the store. The filters stay.
    pub fn clear(&mut self)
        ensures
            final(self)@ == (SpotStoreView { spots: Map::empty(), ..old(self)@ }),
    {
        self.spots = Vec::new();
        assert(self@.spots =~= Map::empty());
    }
}

/// A report together with the time at which it is taken in.
pub struct Arrival {
    pub raw: RawSpotView,
    pub now_ms: u64,
}

/// The store after a run of reports came in, one after the other.
pub open spec fn after_adds(s: SpotStoreView, arrivals: Seq<Arrival>) -> SpotStoreView
    decreases arrivals.len(),
{
    if arrivals.len() == 0 {
        s
    } else {
        add_step(after_adds(s, arrivals.drop_last()), arrivals.last().raw, arrivals.last().now_ms)
    }
}

/// Whether every report of the run is strong enough for the store.
pub open spec fn all_accepted(s: SpotStoreView, arrivals: Seq<Arrival>) -> bool {
    forall|i: int| 0 <= i < arrivals.len() ==> (#[trigger] arrivals[i]).raw.snr >= s.min_snr
}

/// Taking reports in never changes the filters, keeps the store well keyed,
/// and never removes a key.
pub proof fn lemma_adds_keep_store(s: SpotStoreView, arrivals: Seq<Arrival>)
    requires
        s.well_keyed(),
    ensures
        after_adds(s, arrivals).min_snr == s.min_snr,
        after_adds(s, arrivals).max_age_ms == s.max_age_ms,
        after_adds(s, arrivals).well_keyed(),
        forall|k: SpotKey| s.spots.dom().contains(k) ==> after_adds(s, arrivals).spots.dom().contains(k),
    decreases arrivals.len(),
{
    if arrivals.len() > 0 {
        lemma_adds_keep_store(s, arrivals.drop_last());
    }
}

/// Feeding one report `n` times to a store that has nothing under its key
/// gives a summary that holds the report's own speed, signal and frequency,
/// however large `n` is: the mean of equal values is that value. It counts
/// `n` reports, or as many as the count can hold where `n` is beyond that.
pub proof fn lemma_same_spot_repeated(s: SpotStoreView, raw: RawSpotView, arrivals: Seq<Arrival>)
    requires
        s.well_keyed(),
        raw.snr >= s.min_snr,
        !s.spots.dom().contains(key_of_raw(raw)),
        arrivals.len() >= 1,
        forall|i: int| 0 <= i < arrivals.len() ==> (#[trigger] arrivals[i]).raw == raw,
    ensures
        after_adds(s, arrivals).spots.dom().contains(key_of_raw(raw)),
        after_adds(s, arrivals).spots[key_of_raw(raw)] == (AggregatedSpotView {
            callsign: raw.spotted_callsign,
            frequency_hz: raw.frequency_hz,
            center_khz: key_of_raw(raw).center_khz,
            highest_snr: raw.snr,
            average_speed_milli: (raw.speed_wpm * SPEED_SCALE) as i64,
            spot_count: if arrivals.len() <= u32::MAX {
                arrivals.len() as u32
            } else {
                u32::MAX
            },
            last_spotted_ms: arrivals.last().now_ms,
            mode: raw.mode,
        }),
    decreases arrivals.len(),
{
    let front = arrivals.drop_last();
    lemma_adds_keep_store(s, front);
    if arrivals.len() == 1 {
        assert(front.len() == 0);
    } else {
        assert forall|i: int| 0 <= i < front.len() implies (#[trigger] front[i]).raw == raw by {
            assert(front[i] == arrivals[i]);
        }
        lemma_same_spot_repeated(s, raw, front);
        let before = after_adds(s, front).spots[key_of_raw(raw)];
        let count = next_count(before.spot_count) as int;
        lemma_running_mean_between(raw.frequency_hz as int, raw.frequency_hz as int, count);
        lemma_running_mean_between(
            raw.speed_wpm * SPEED_SCALE,
            raw.speed_wpm * SPEED_SCALE,
            count,
        );
    }
}

/// The keys of the reports of a run.
pub open spec fn arrival_keys(arrivals: Seq<Arrival>) -> Set<SpotKey> {
    Set::new(|k: SpotKey| exists|i: int| 0 <= i < arrivals.len() && key_of_raw((#[trigger] arrivals[i]).raw) == k)
}

/// Whether no two reports of the run share a key.
pub open spec fn distinct_arrival_keys(arrivals: Seq<Arrival>) -> bool {
    forall|i: int, j: int|
        0 <= i < j < arrivals.len() ==> key_of_raw((#[trigger] arrivals[i]).raw) != key_of_raw(
            (#[trigger] arrivals[j]).raw,
        )
}

/// After a run of reports that are all strong enough, the store holds one
/// summary under each key it held before and under each key of the run, and
/// under no other key.
pub proof fn lemma_keys_after_adds(s: SpotStoreView, arrivals: Seq<Arrival>)
    requires
        s.well_keyed(),
        all_accepted(s, arrivals),
    ensures
        after_adds(s, arrivals).spots.dom() == s.spots.dom().union(arrival_keys(arrivals)),
    decreases arrivals.len(),
{
    if arrivals.len() == 0 {
        assert(after_adds(s, arrivals).spots.dom() =~= s.spots.dom().union(arrival_keys(arrivals)));
    } else {
        let front = arrivals.drop_last();
        let last = arrivals.last();
        assert forall|i: int| 0 <= i < front.len() implies (#[trigger] front[i]).raw.snr
            >= s.min_snr by {
            assert(front[i] == arrivals[i]);
        }
        lemma_keys_after_adds(s, front);
        lemma_adds_keep_store(s, front);
        assert(arrival_keys(arrivals) =~= arrival_keys(front).insert(key_of_raw(last.raw))) by {
            assert forall|k: SpotKey| arrival_keys(arrivals).contains(k) <==> (arrival_keys(
                front,
            ).contains(k) || k == key_of_raw(last.raw)) by {
                if arrival_keys(arrivals).contains(k) {
                    let i = choose|i: int|
                        0 <= i < arrivals.len() && key_of_raw((#[trigger] arrivals[i]).raw) == k;
                    if i < front.len() {
                        assert(front[i] == arrivals[i]);
                    }
                }
                if arrival_keys(front).contains(k) {
                    let i = choose|i: int|
                        0 <= i < front.len() && key_of_raw((#[trigger] front[i]).raw) == k;
                    assert(front[i] == arrivals[i]);
                }
                if k == key_of_raw(last.raw) {
                    assert(arrivals[arrivals.len() - 1] == last);
                }
            }
        }
        assert(arrivals[arrivals.len() - 1].raw.snr >= s.min_snr);
        assert(after_adds(s, arrivals).spots.dom() =~= s.spots.dom().union(arrival_keys(arrivals)));
    }
}

/// Fed reports with pairwise distinct keys, all strong enough, an empty
/// store ends up with exactly as many summaries as there were reports.
pub proof fn lemma_count_of_distinct_keys(s: SpotStoreView, arrivals: Seq<Arrival>)
    requires
        s.well_keyed(),
        s.spots.dom().len() == 0,
        all_accepted(s, arrivals),
        distinct_arrival_keys(arrivals),
    ensures
        after_adds(s, arrivals).spots.dom().finite(),
        after_adds(s, arrivals).spots.dom().len() == arrivals.len(),
        forall|i: int|
            0 <= i < arrivals.len() ==> after_adds(s, arrivals).spots.dom().contains(
                key_of_raw((#[trigger] arrivals[i]).raw),
            ),
    decreases arrivals.len(),
{
    lemma_adds_keep_store(s, arrivals);
    lemma_keys_after_adds(s, arrivals);
    if arrivals.len() > 0 {
        let front = arrivals.drop_last();
        let last = arrivals.last();
        assert forall|i: int| 0 <= i < front.len() implies (#[trigger] front[i]).raw.snr
            >= s.min_snr by {
            assert(front[i] == arrivals[i]);
        }
        assert forall|i: int, j: int| 0 <= i < j < front.len() implies key_of_raw(
            (#[trigger] front[i]).raw,
        ) != key_of_raw((#[trigger] front[j]).raw) by {
            assert(front[i] == arrivals[i] && front[j] == arrivals[j]);
        }
        lemma_count_of_distinct_keys(s, front);
        lemma_adds_keep_store(s, front);
        lemma_keys_after_adds(s, front);
        let before = after_adds(s, front);
        assert(s.spots.dom() =~= Set::<SpotKey>::empty());
        assert(!before.spots.dom().contains(key_of_raw(last.raw))) by {
            if before.spots.dom().contains(key_of_raw(last.raw)) {
                assert(arrival_keys(front).contains(key_of_raw(last.raw)));
                let i = choose|i: int|
                    0 <= i < front.len() && key_of_raw((#[trigger] front[i]).raw) == key_of_raw(
                        last.raw,
                    );
                assert(front[i] == arrivals[i]);
                assert(key_of_raw(arrivals[i].raw) != key_of_raw(
                    arrivals[arrivals.len() - 1].raw,
                ));
            }
        }
        assert(arrivals[arrivals.len() - 1].raw.snr >= s.min_snr);
        assert(after_adds(s, arrivals).spots.dom() =~= before.spots.dom().insert(
            key_of_raw(last.raw),
        ));
        assert forall|i: int| 0 <= i < arrivals.len() implies after_adds(
            s,
            arrivals,
        ).spots.dom().contains(key_of_raw((#[trigger] arrivals[i]).raw)) by {
            assert(arrival_keys(arrivals).contains(key_of_raw(arrivals[i].raw)));
        }
    }
}

/// Whether `h` is the greatest signal-to-noise ratio of the run.
pub open spec fn is_max_snr(arrivals: Seq<Arrival>, h: i32) -> bool {
    &&& forall|i: int| 0 <= i < arrivals.len() ==> (#[trigger] arrivals[i]).raw.snr <= h
    &&& exists|i: int| 0 <= i < arrivals.len() && (#[trigger] arrivals[i]).raw.snr == h
}

/// After a run of reports under one key, into a store that had nothing
/// under that key: no summary where every report was too weak, else a
/// summary whose best signal is the greatest of the run.
proof fn lemma_highest_snr_step(s: SpotStoreView, key: SpotKey, arrivals: Seq<Arrival>)
    requires
        s.well_keyed(),
        !s.spots.dom().contains(key),
        forall|i: int| 0 <= i < arrivals.len() ==> key_of_raw((#[trigger] arrivals[i]).raw) == key,
    ensures
        after_adds(s, arrivals).spots.dom().contains(key) <==> exists|i: int|
            0 <= i < arrivals.len() && (#[trigger] arrivals[i]).raw.snr >= s.min_snr,
        after_adds(s, arrivals).spots.dom().contains(key) ==> is_max_snr(
            arrivals,
            after_adds(s, arrivals).spots[key].highest_snr,
        ) && after_adds(s, arrivals).spots[key].highest_snr >= s.min_snr,
    decreases arrivals.len(),
{
    if arrivals.len() > 0 {
        let front = arrivals.drop_last();
        let last = arrivals.last();
        assert forall|i: int| 0 <= i < front.len() implies key_of_raw((#[trigger] front[i]).raw)
            == key by {
            assert(front[i] == arrivals[i]);
        }
        lemma_highest_snr_step(s, key, front);
        lemma_adds_keep_store(s, front);
        let before = after_adds(s, front);
        let after = after_adds(s, arrivals);
        assert(arrivals[arrivals.len() - 1] == last);
        assert(key_of_raw(last.raw) == key);
        if exists|i: int| 0 <= i < front.len() && (#[trigger] front[i]).raw.snr >= s.min_snr {
            let i = choose|i: int| 0 <= i < front.len() && (#[trigger] front[i]).raw.snr >= s.min_snr;
            assert(front[i] == arrivals[i]);
            assert(arrivals[i].raw.snr >= s.min_snr);
        }
        if after.spots.dom().contains(key) {
            let h = after.spots[key].highest_snr;
            if before.spots.dom().contains(key) {
                let hb = before.spots[key].highest_snr;
                let w = choose|i: int| 0 <= i < front.len() && (#[trigger] front[i]).raw.snr == hb;
                assert(front[w] == arrivals[w]);
                assert forall|i: int| 0 <= i < arrivals.len() implies (
                #[trigger] arrivals[i]).raw.snr <= h by {
                    if i < front.len() {
                        assert(front[i] == arrivals[i]);
                    }
                }
                if h == hb {
                    assert(arrivals[w].raw.snr == h);
                } else {
                    assert(arrivals[arrivals.len() - 1].raw.snr == h);
                }
            } else {
                assert(last.raw.snr >= s.min_snr);
                assert forall|i: int| 0 <= i < arrivals.len() implies (
                #[trigger] arrivals[i]).raw.snr <= h by {
                    if i < front.len() {
                        assert(front[i] == arrivals[i]);
                        assert(!(front[i].raw.snr >= s.min_snr));
                    }
                }
                assert(arrivals[arrivals.len() - 1].raw.snr == h);
            }
        } else {
            assert forall|i: int| 0 <= i < arrivals.len() implies !((
            #[trigger] arrivals[i]).raw.snr >= s.min_snr) by {
                if i < front.len() {
                    assert(front[i] == arrivals[i]);
                }
            }
        }
    }
}

/// After a run of reports that share a key, into a store that had nothing
/// under that key, the summary's best signal is the greatest signal of the
/// run, in whatever order the reports came. The run must hold one report at
/// least that the store accepts.
pub proof fn lemma_highest_snr_is_max(s: SpotStoreView, key: SpotKey, arrivals: Seq<Arrival>)
    requires
        s.well_keyed(),
        !s.spots.dom().contains(key),
        forall|i: int| 0 <= i < arrivals.len() ==> key_of_raw((#[trigger] arrivals[i]).raw) == key,
        exists|i: int| 0 <= i < arrivals.len() && (#[trigger] arrivals[i]).raw.snr >= s.min_snr,
    ensures
        after_adds(s, arrivals).spots.dom().contains(key),
        is_max_snr(arrivals, after_adds(s, arrivals).spots[key].highest_snr),
{
    lemma_highest_snr_step(s, key, arrivals);
}

/// The best signal of a summary never falls when a report is taken in.
pub proof fn lemma_highest_snr_monotone(s: SpotStoreView, raw: RawSpotView, now_ms: u64, k: SpotKey)
    requires
        s.spots.dom().contains(k),
    ensures
        add_step(s, raw, now_ms).spots.dom().contains(k),
        add_step(s, raw, now_ms).spots[k].highest_snr >= s.spots[k].highest_snr,
{
}

/// A purge at `now_ms` removes exactly the summaries older than the age
/// limit: one that has just reached the limit stays. What stays is
/// unchanged, and nothing that a snapshot at `now_ms` shows is older than
/// the limit, before the purge or after it.
pub proof fn lemma_purge_evicts_old(s: SpotStoreView, now_ms: u64)
    requires
        s.well_keyed(),
    ensures
        purge_step(s, now_ms).well_keyed(),
        purge_step(s, now_ms).spots.dom().len() <= s.spots.dom().len(),
        forall|k: SpotKey|
            purge_step(s, now_ms).spots.dom().contains(k) <==> #[trigger] s.spots.dom().contains(k)
                && s.spots[k].age_ms(now_ms) <= s.max_age_ms,
        forall|k: SpotKey| #[trigger]
            purge_step(s, now_ms).spots.dom().contains(k) ==> purge_step(s, now_ms).spots[k]
                == s.spots[k],
        forall|k: SpotKey| #[trigger]
            shown_spots(s, now_ms).dom().contains(k) ==> shown_spots(s, now_ms)[k].age_ms(now_ms)
                <= s.max_age_ms,
        shown_spots(purge_step(s, now_ms), now_ms) == shown_spots(s, now_ms),
{
    let p = purge_step(s, now_ms);
    assert(p.spots.dom().subset_of(s.spots.dom()));
    vstd::set_lib::lemma_len_subset(p.spots.dom(), s.spots.dom());
    assert(shown_spots(p, now_ms) =~= shown_spots(s, now_ms));
}

/// Fed reports with pairwise distinct keys, all strong enough and none under
/// a key that the store held before, the store holds under each report's key
/// the summary of that report alone.
pub proof fn lemma_distinct_adds_are_seeds(s: SpotStoreView, arrivals: Seq<Arrival>, i: int)
    requires
        s.well_keyed(),
        all_accepted(s, arrivals),
        distinct_arrival_keys(arrivals),
        forall|j: int|
            0 <= j < arrivals.len() ==> !s.spots.dom().contains(
                key_of_raw((#[trigger] arrivals[j]).raw),
            ),
        0 <= i < arrivals.len(),
    ensures
        after_adds(s, arrivals).spots.dom().contains(key_of_raw(arrivals[i].raw)),
        after_adds(s, arrivals).spots[key_of_raw(arrivals[i].raw)] == seeded(
            arrivals[i].raw,
            arrivals[i].now_ms,
        ),
    decreases arrivals.len(),
{
    let front = arrivals.drop_last();
    let last = arrivals.last();
    assert forall|j: int| 0 <= j < front.len() implies (#[trigger] front[j]).raw.snr
        >= s.min_snr by {
        assert(front[j] == arrivals[j]);
    }
    assert forall|a: int, b: int| 0 <= a < b < front.len() implies key_of_raw(
        (#[trigger] front[a]).raw,
    ) != key_of_raw((#[trigger] front[b]).raw) by {
        assert(front[a] == arrivals[a] && front[b] == arrivals[b]);
    }
    assert forall|j: int| 0 <= j < front.len() implies !s.spots.dom().contains(
        key_of_raw((#[trigger] front[j]).raw),
    ) by {
        assert(front[j] == arrivals[j]);
    }
    lemma_adds_keep_store(s, front);
    lemma_keys_after_adds(s, front);
    let before = after_adds(s, front);
    assert(arrivals[arrivals.len() - 1] == last);
    assert(last.raw.snr >= s.min_snr);
    assert(!before.spots.dom().contains(key_of_raw(last.raw))) by {
        if arrival_keys(front).contains(key_of_raw(last.raw)) {
            let j = choose|j: int|
                0 <= j < front.len() && key_of_raw((#[trigger] front[j]).raw) == key_of_raw(
                    last.raw,
                );
            assert(front[j] == arrivals[j]);
            assert(key_of_raw(arrivals[j].raw) != key_of_raw(arrivals[arrivals.len() - 1].raw));
        }
    }
    if i < arrivals.len() - 1 {
        assert(front[i] == arrivals[i]);
        lemma_distinct_adds_are_seeds(s, front, i);
        assert(key_of_raw(arrivals[i].raw) != key_of_raw(arrivals[arrivals.len() - 1].raw));
    }
}

/// One thing done to a store between two snapshots.
pub enum StoreOp {
    /// A report comes in.
    Add(Arrival),
    /// The signal filter is set.
    SetMinSnr(i32),
    /// The age limit is set, in minutes.
    SetMaxAgeMinutes(u32),
}

/// The store after one operation.
pub open spec fn op_step(s: SpotStoreView, op: StoreOp) -> SpotStoreView {
    match op {
        StoreOp::Add(arrival) => add_step(s, arrival.raw, arrival.now_ms),
        StoreOp::SetMinSnr(snr) => SpotStoreView { min_snr: snr, ..s },
        StoreOp::SetMaxAgeMinutes(minutes) => SpotStoreView {
            max_age_ms: (minutes * MINUTE_MS) as u64,
            ..s
        },
    }
}

/// The store after a run of operations, the first of them first.
pub open spec fn after_ops(s: SpotStoreView, ops: Seq<StoreOp>) -> SpotStoreView
    decreases ops.len(),
{
    if ops.len() == 0 {
        s
    } else {
        after_ops(op_step(s, ops[0]), ops.drop_first())
    }
}

/// The keys of the reports of a run that the store accepts: each report
/// counts if it is as strong as the signal filter asks at the time it
/// comes in, `min_snr` being what the filter asks at the start.
pub open spec fn accepted_keys(min_snr: i32, ops: Seq<StoreOp>) -> Set<SpotKey>
    decreases ops.len(),
{
    if ops.len() == 0 {
        Set::empty()
    } else {
        match ops[0] {
            StoreOp::Add(arrival) => if arrival.raw.snr >= min_snr {
                accepted_keys(min_snr, ops.drop_first()).insert(key_of_raw(arrival.raw))
            } else {
                accepted_keys(min_snr, ops.drop_first())
            },
            StoreOp::SetMinSnr(snr) => accepted_keys(snr, ops.drop_first()),
            StoreOp::SetMaxAgeMinutes(_) => accepted_keys(min_snr, ops.drop_first()),
        }
    }
}

/// Whatever is done to the filters between the reports, and however many
/// reports hit each key, a run without a purge leaves the store with one
/// summary under each key it held before and under each key of an accepted
/// report, and under no other: the count of a store that started empty is
/// the number of distinct keys accepted.
pub proof fn lemma_keys_after_ops(s: SpotStoreView, ops: Seq<StoreOp>)
    requires
        s.well_keyed(),
    ensures
        after_ops(s, ops).well_keyed(),
        accepted_keys(s.min_snr, ops).finite(),
        after_ops(s, ops).spots.dom() == s.spots.dom().union(accepted_keys(s.min_snr, ops)),
        s.spots.dom().len() == 0 ==> after_ops(s, ops).spots.dom().len() == accepted_keys(
            s.min_snr,
            ops,
        ).len(),
    decreases ops.len(),
{
    if ops.len() == 0 {
        assert(after_ops(s, ops).spots.dom() =~= s.spots.dom().union(
            accepted_keys(s.min_snr, ops),
        ));
    } else {
        let next = op_step(s, ops[0]);
        lemma_keys_after_ops(next, ops.drop_first());
        assert(after_ops(s, ops).spots.dom() =~= s.spots.dom().union(
            accepted_keys(s.min_snr, ops),
        ));
    }
    if s.spots.dom().len() == 0 {
        assert(s.spots.dom() =~= Set::<SpotKey>::empty());
        assert(s.spots.dom().union(accepted_keys(s.min_snr, ops)) =~= accepted_keys(
            s.min_snr,
            ops,
        ));
    }
}

/// A snapshot by frequency is as long as the store is large while no
/// summary in the store is weaker than the signal filter or older than the
/// age limit; right after a purge only the signal filter is left to ask.
pub proof fn lemma_snapshot_len(
    spots: Seq<AggregatedSpotView>,
    s: SpotStoreView,
    now_ms: u64,
)
    requires
        s.well_keyed(),
        distinct_keys(spots),
        entries_map(spots) == shown_spots(s, now_ms),
    ensures
        spots.len() <= s.spots.dom().len(),
        (forall|k: SpotKey| #[trigger]
            s.spots.dom().contains(k) ==> s.admits(s.spots[k], now_ms)) ==> spots.len()
            == s.spots.dom().len(),
        (forall|k: SpotKey| #[trigger]
            s.spots.dom().contains(k) ==> s.spots[k].highest_snr >= s.min_snr) ==> entries_map(
            spots,
        ) == shown_spots(purge_step(s, now_ms), now_ms) && shown_spots(
            purge_step(s, now_ms),
            now_ms,
        ) == purge_step(s, now_ms).spots && spots.len() == purge_step(s, now_ms).spots.dom().len(),
{
    lemma_entries_map_len(spots);
    assert(shown_spots(s, now_ms).dom().subset_of(s.spots.dom()));
    vstd::set_lib::lemma_len_subset(shown_spots(s, now_ms).dom(), s.spots.dom());
    if forall|k: SpotKey| #[trigger] s.spots.dom().contains(k) ==> s.admits(s.spots[k], now_ms) {
        assert(shown_spots(s, now_ms).dom() =~= s.spots.dom());
    }
    lemma_purge_evicts_old(s, now_ms);
    if forall|k: SpotKey| #[trigger]
        s.spots.dom().contains(k) ==> s.spots[k].highest_snr >= s.min_snr {
        assert(shown_spots(purge_step(s, now_ms), now_ms) =~= purge_step(s, now_ms).spots);
    }
}

} // verus!
