//! When the messages at committed offsets were produced.
//!
//! There are two ways to tell. In message mode the message at the committed offset is read, and
//! its timestamp remembered for a while. In rate mode the time is estimated from the movement of
//! the watermarks. Both give one timestamp per group and partition with lag.

use crate::collector::lag_calculator::{fits, Stamps, TimestampData};
use crate::collector::offset_collector::{OffsetsSnapshot, SnapshotView, Tp};
use crate::collector::rate_sampler::{recorded, windows, RateSampler, RateWindow};
use crate::collector::stamp_table::{
    fresh_stamps, is_fresh, stamps, stamps_get, stamps_insert, stamps_len, stamps_new,
    stamps_retain_fresh, still_fresh, Stamp, StampKey, StampKeyView,
};
use crate::kafka::client::TopicPartition;
use crate::keymap::{lookup, put, OrderMap};
use crate::text::{flat, flat_step};
use crate::views::{views, views_push};
use dashmap::DashMap;
use vstd::prelude::*;

verus! {

broadcast use views_push;

/// A timestamp that was read from a message.
#[derive(Debug, Clone, Copy, PartialEq, Eq, Structural)]
pub struct CachedTimestamp {
    pub timestamp_ms: i64,
    pub offset: i64,
    /// Nanoseconds of the process clock.
    pub cached_at: u64,
}

/// Timestamps by group and partition.
pub type TimestampMap = OrderMap<(String, TopicPartition), TimestampData>;

/// The remembered timestamp of the message at an offset: only as long as it is fresh, and only
/// while the group has not moved.
pub open spec fn remembered(
    all: Map<StampKeyView, Stamp>,
    key: StampKeyView,
    offset: i64,
    ttl: u64,
    now: u64,
) -> Option<i64> {
    if all.contains_key(key) && still_fresh(all[key], ttl, now) && all[key].1 == offset {
        Some(all[key].0)
    } else {
        None
    }
}

/// A timestamp that was just stored is found until its time to live has passed, as long as the
/// group stays at its offset; a group that has moved, and every other partition, is not affected.
pub proof fn stored_timestamps_read_back(
    all: Map<StampKeyView, Stamp>,
    key: StampKeyView,
    timestamp_ms: i64,
    offset: i64,
    at: u64,
    ttl: u64,
    now: u64,
    other: StampKeyView,
    other_offset: i64,
)
    requires
        at <= now,
    ensures
        ({
            let after = all.insert(key, (timestamp_ms, offset, at));
            &&& now - at < ttl ==> remembered(after, key, offset, ttl, now) == Some(timestamp_ms)
            &&& now - at >= ttl ==> remembered(after, key, offset, ttl, now) is None
            &&& other_offset != offset ==> remembered(after, key, other_offset, ttl, now) is None
            &&& other != key ==> remembered(after, other, other_offset, ttl, now) == remembered(
                all,
                other,
                other_offset,
                ttl,
                now,
            )
        }),
{
}

/// Dropping what is not fresh changes nothing that would still be found.
pub proof fn clearing_keeps_what_counts(
    all: Map<StampKeyView, Stamp>,
    key: StampKeyView,
    offset: i64,
    ttl: u64,
    now: u64,
    later: u64,
)
    requires
        now <= later,
    ensures
        remembered(fresh_stamps(all, ttl, now), key, offset, ttl, later) == remembered(
            all,
            key,
            offset,
            ttl,
            later,
        ),
{
}

/// Message mode: the timestamps that were read, kept for a while.
pub struct MessageSampler {
    cache: DashMap<StampKey, Stamp>,
    cache_ttl: u64,
}

impl MessageSampler {
    /// What is remembered.
    pub closed spec fn cache(&self) -> Map<StampKeyView, Stamp> {
        stamps(self.cache)
    }

    /// For how long.
    pub closed spec fn cache_ttl(&self) -> u64 {
        self.cache_ttl
    }

    /// A sampler that remembers nothing.
    pub fn new(cache_ttl: u64) -> (sampler: Self)
        ensures
            sampler.cache().dom() == Set::<StampKeyView>::empty(),
            sampler.cache_ttl() == cache_ttl,
    {
        MessageSampler { cache: stamps_new(), cache_ttl }
    }

    /// The timestamp at a group's committed offset, as far as it is remembered. Otherwise the
    /// message has to be read.
    pub fn cached_timestamp(
        &self,
        group_id: &str,
        tp: &TopicPartition,
        offset: i64,
        now: u64,
    ) -> (timestamp: Option<i64>)
        ensures
            timestamp == remembered(
                self.cache(),
                (group_id@, tp@.0, tp@.1),
                offset,
                self.cache_ttl(),
                now,
            ),
    {
        let key = (group_id.to_owned(), tp.topic.clone(), tp.partition);
        match stamps_get(&self.cache, &key) {
            Some(stamp) => if is_fresh(&stamp, self.cache_ttl, now) && stamp.1 == offset {
                Some(stamp.0)
            } else {
                None
            },
            None => None,
        }
    }

    /// Takes in what reading the message gave: a timestamp is remembered.
    pub fn fetched_timestamp(
        &mut self,
        group_id: &str,
        tp: &TopicPartition,
        offset: i64,
        fetched: Option<i64>,
        now: u64,
    ) -> (timestamp: Option<i64>)
        ensures
            timestamp == fetched,
            final(self).cache_ttl() == old(self).cache_ttl(),
            final(self).cache() == (match fetched {
                Some(ts) => old(self).cache().insert((group_id@, tp@.0, tp@.1), (ts, offset, now)),
                None => old(self).cache(),
            }),
    {
        if let Some(ts) = fetched {
            let entry = CachedTimestamp { timestamp_ms: ts, offset, cached_at: now };
            stamps_insert(
                &mut self.cache,
                (group_id.to_owned(), tp.topic.clone(), tp.partition),
                (entry.timestamp_ms, entry.offset, entry.cached_at),
            );
        }
        fetched
    }

    /// Forgets what is not fresh any more.
    pub fn clear_stale_entries(&mut self, now: u64)
        ensures
            final(self).cache_ttl() == old(self).cache_ttl(),
            final(self).cache() == fresh_stamps(old(self).cache(), old(self).cache_ttl(), now),
    {
        stamps_retain_fresh(&mut self.cache, self.cache_ttl, now);
    }

    /// How many timestamps are remembered.
    pub fn cache_size(&self) -> (n: usize)
        ensures
            n == self.cache().dom().len(),
    {
        stamps_len(&self.cache)
    }
}

/// A group and a partition whose committed message is to be read.
#[derive(Debug)]
pub struct StampRequest {
    pub group_id: String,
    pub tp: TopicPartition,
    pub committed: i64,
    pub low: i64,
}

/// What a `StampRequest` holds.
#[verifier::ext_equal]
pub struct StampRequestView {
    pub group_id: Seq<char>,
    pub tp: Tp,
    pub committed: i64,
    pub low: i64,
}

impl View for StampRequest {
    type V = StampRequestView;

    open spec fn view(&self) -> StampRequestView {
        StampRequestView {
            group_id: self.group_id@,
            tp: self.tp@,
            committed: self.committed,
            low: self.low,
        }
    }
}

impl StampRequest {
    /// A second request for the same message.
    pub fn duplicate(&self) -> (copy: Self)
        ensures
            copy@ == self@,
    {
        StampRequest {
            group_id: self.group_id.clone(),
            tp: self.tp.clone(),
            committed: self.committed,
            low: self.low,
        }
    }
}

/// The request for a committed offset, if its message is to be read: there must be lag, and
/// where lost messages are to be skipped, it must not be lost.
pub open spec fn request_for(
    snapshot: SnapshotView,
    group_id: Seq<char>,
    tp: Tp,
    committed: i64,
    skip_data_loss: bool,
) -> Seq<StampRequestView> {
    let (low, high) = match lookup(snapshot.watermarks, tp) {
        Some(pair) => pair,
        None => (committed, committed),
    };
    if (skip_data_loss && committed < low) || high <= committed {
        Seq::empty()
    } else {
        seq![StampRequestView { group_id, tp, committed, low }]
    }
}

/// The requests for the committed offsets of a group.
pub open spec fn group_requests(
    snapshot: SnapshotView,
    g: int,
    skip_data_loss: bool,
) -> Seq<StampRequestView> {
    flat(
        snapshot.groups[g].offsets,
        |entry: (Tp, i64)|
            request_for(
                snapshot,
                snapshot.groups[g].group_id,
                entry.0,
                entry.1,
                skip_data_loss,
            ),
    )
}

/// The requests of the first `n` groups.
pub open spec fn all_requests(
    snapshot: SnapshotView,
    n: nat,
    skip_data_loss: bool,
) -> Seq<StampRequestView>
    decreases n,
{
    if n == 0 {
        Seq::empty()
    } else {
        all_requests(snapshot, (n - 1) as nat, skip_data_loss) + group_requests(
            snapshot,
            n - 1,
            skip_data_loss,
        )
    }
}

/// Decides which messages are to be read.
pub fn plan_requests(snapshot: &OffsetsSnapshot, skip_data_loss_partitions: bool) -> (requests: Vec<
    StampRequest,
>)
    ensures
        views(requests@) == all_requests(
            snapshot@,
            snapshot@.groups.len(),
            skip_data_loss_partitions,
        ),
{
    let ghost view = snapshot@;
    let mut requests: Vec<StampRequest> = Vec::new();
    let mut g: usize = 0;
    while g < snapshot.groups.len()
        invariant
            view == snapshot@,
            view.groups.len() == snapshot.groups.len(),
            g <= snapshot.groups.len(),
            views(requests@) =~= all_requests(view, g as nat, skip_data_loss_partitions),
        decreases snapshot.groups.len() - g,
    {
        let group = &snapshot.groups[g];
        assert(view.groups[g as int] == group@);
        let ghost before = views(requests@);
        let ghost offsets = group@.offsets;
        let ghost gi = g as int;
        let ghost f = |entry: (Tp, i64)|
            request_for(
                view,
                view.groups[gi].group_id,
                entry.0,
                entry.1,
                skip_data_loss_partitions,
            );
        let mut i: usize = 0;
        assert(offsets.take(0) =~= Seq::<(Tp, i64)>::empty());
        while i < group.offsets.len()
            invariant
                view == snapshot@,
                g < snapshot.groups.len(),
                group == snapshot.groups[g as int],
                view.groups[gi] == group@,
                offsets == group.offsets@,
                f == (|entry: (Tp, i64)|
                    request_for(
                        view,
                        view.groups[gi].group_id,
                        entry.0,
                        entry.1,
                        skip_data_loss_partitions,
                    )),
                i <= offsets.len(),
                views(requests@) =~= before + flat(offsets.take(i as int), f),
            decreases offsets.len() - i,
        {
            proof {
                flat_step(offsets, f, i as int);
            }
            let tp = group.offsets.key_at(i);
            let committed: i64 = *group.offsets.value_at(i);
            let (low, high) = match snapshot.get_watermark(tp) {
                Some(pair) => pair,
                None => (committed, committed),
            };
            if !(skip_data_loss_partitions && committed < low) && high > committed {
                requests.push(
                    StampRequest {
                        group_id: group.group_id.clone(),
                        tp: tp.clone(),
                        committed,
                        low,
                    },
                );
            }
            i += 1;
        }
        assert(offsets.take(i as int) =~= offsets);
        assert(flat(offsets, f) == group_requests(view, gi, skip_data_loss_partitions));
        g += 1;
    }
    requests
}

/// How reading a message ended.
#[derive(Debug)]
pub enum FetchEnd {
    /// With what was found there.
    Read(Option<i64>),
    /// With an error.
    Failed,
    /// The task that read it broke off.
    Broken,
}

/// The timestamp that a read gave: none where it failed in any way.
pub open spec fn found(end: FetchEnd) -> Option<i64> {
    match end {
        FetchEnd::Read(ts) => ts,
        _ => None,
    }
}

/// `out` and the requests to try again after the read of one message: a timestamp that was
/// found is taken. Of a message that could not be read it counts whether it was deleted: then
/// it is taken to be as old as now, else the group may be held up behind an open transaction,
/// and an earlier message is looked for.
pub open spec fn after_read(
    out: Stamps,
    retry: Seq<StampRequestView>,
    request: StampRequestView,
    timestamp: Option<i64>,
    now_ms: i64,
) -> (Stamps, Seq<StampRequestView>) {
    let key = (request.group_id, request.tp);
    match timestamp {
        Some(ts) => (put(out, key, ts), retry),
        None => if request.committed < request.low {
            (put(out, key, now_ms), retry)
        } else {
            (out, retry.push(request))
        },
    }
}

/// The timestamps after all messages were read, and the requests to try again.
pub open spec fn after_reads(
    requests: Seq<StampRequestView>,
    ends: Seq<FetchEnd>,
    now_ms: i64,
) -> (Stamps, Seq<StampRequestView>)
    decreases requests.len(),
{
    if requests.len() == 0 {
        (Seq::empty(), Seq::empty())
    } else {
        let (out, retry) = after_reads(requests.drop_last(), ends, now_ms);
        after_read(out, retry, requests.last(), found(ends[requests.len() - 1]), now_ms)
    }
}

/// Takes in how the reads ended: gives the timestamps, and the requests for which an earlier
/// message is looked for. No request is lost.
pub fn take_reads(requests: &Vec<StampRequest>, ends: &Vec<FetchEnd>, now_ms: i64) -> (after: (
    TimestampMap,
    Vec<StampRequest>,
))
    requires
        ends.len() == requests.len(),
    ensures
        (after.0@, views(after.1@)) == after_reads(views(requests@), ends@, now_ms),
{
    let ghost all = views(requests@);
    let mut out: TimestampMap = TimestampMap::new();
    let mut retry: Vec<StampRequest> = Vec::new();
    let mut i: usize = 0;
    assert(all.take(0) =~= Seq::<StampRequestView>::empty());
    assert(views(retry@) =~= Seq::<StampRequestView>::empty());
    while i < requests.len()
        invariant
            all == views(requests@),
            ends.len() == requests.len(),
            i <= requests.len(),
            (out@, views(retry@)) == after_reads(all.take(i as int), ends@, now_ms),
        decreases requests.len() - i,
    {
        assert(all.take(i + 1).drop_last() =~= all.take(i as int));
        let request = &requests[i];
        assert(all[i as int] == request@);
        let timestamp = match &ends[i] {
            FetchEnd::Read(ts) => *ts,
            FetchEnd::Failed => None,
            FetchEnd::Broken => None,
        };
        match timestamp {
            Some(ts) => {
                out.insert(
                    (request.group_id.clone(), request.tp.clone()),
                    TimestampData { timestamp_ms: ts },
                );
            },
            None => {
                if request.committed < request.low {
                    out.insert(
                        (request.group_id.clone(), request.tp.clone()),
                        TimestampData { timestamp_ms: now_ms },
                    );
                } else {
                    retry.push(request.duplicate());
                }
            },
        }
        i += 1;
    }
    assert(all.take(i as int) =~= all);
    (out, retry)
}

/// `out` after the earlier messages were read: what was found is taken.
pub open spec fn after_scans(
    out: Stamps,
    requests: Seq<StampRequestView>,
    found: Seq<Option<i64>>,
) -> Stamps
    decreases requests.len(),
{
    if requests.len() == 0 {
        out
    } else {
        let before = after_scans(out, requests.drop_last(), found);
        match found[requests.len() - 1] {
            Some(ts) => put(before, (requests.last().group_id, requests.last().tp), ts),
            None => before,
        }
    }
}

/// Takes in the timestamps of the earlier messages that were found.
pub fn take_scans(out: &mut TimestampMap, requests: &Vec<StampRequest>, found: &Vec<Option<i64>>)
    requires
        found.len() == requests.len(),
    ensures
        final(out)@ == after_scans(old(out)@, views(requests@), found@),
{
    let ghost before = out@;
    let ghost all = views(requests@);
    let mut i: usize = 0;
    assert(all.take(0) =~= Seq::<StampRequestView>::empty());
    while i < requests.len()
        invariant
            all == views(requests@),
            found.len() == requests.len(),
            i <= requests.len(),
            out@ == after_scans(before, all.take(i as int), found@),
        decreases requests.len() - i,
    {
        assert(all.take(i + 1).drop_last() =~= all.take(i as int));
        let request = &requests[i];
        assert(all[i as int] == request@);
        if let Some(ts) = found[i] {
            out.insert(
                (request.group_id.clone(), request.tp.clone()),
                TimestampData { timestamp_ms: ts },
            );
        }
        i += 1;
    }
    assert(all.take(i as int) =~= all);
}

/// How many offsets are tried at most when the committed message cannot be read.
pub const FALLBACK_SCAN_MAX: i64 = 8;

/// The lowest offset that may be tried.
pub open spec fn scan_floor(low: i64) -> int {
    if low > 0 {
        low as int
    } else {
        0
    }
}

/// How many offsets are tried below a committed offset.
pub open spec fn scan_count(committed: i64, low: i64) -> nat {
    let room = committed - scan_floor(low);
    if room <= 0 {
        0
    } else if room < FALLBACK_SCAN_MAX {
        room as nat
    } else {
        FALLBACK_SCAN_MAX as nat
    }
}

/// The offsets to try when the committed message cannot be read: those just below it, nearest
/// first, not below the start of the log, and not too many.
pub fn fallback_scan_offsets(committed: i64, low: i64) -> (offsets: Vec<i64>)
    requires
        committed > i64::MIN,
    ensures
        offsets@ == Seq::new(scan_count(committed, low), |k: int| (committed - 1 - k) as i64),
{
    let floor: i64 = if low > 0 {
        low
    } else {
        0
    };
    let mut offsets: Vec<i64> = Vec::new();
    let mut o: i64 = committed - 1;
    let mut k: i64 = 0;
    while k < FALLBACK_SCAN_MAX && o >= floor
        invariant
            committed > i64::MIN,
            floor == scan_floor(low),
            0 <= k <= scan_count(committed, low),
            o == committed - 1 - k,
            offsets@ =~= Seq::new(k as nat, |j: int| (committed - 1 - j) as i64),
        ensures
            k == scan_count(committed, low),
        decreases FALLBACK_SCAN_MAX - k,
    {
        offsets.push(o);
        k += 1;
        o -= 1;
    }
    offsets
}

/// A search for the last message that can be read.
pub struct ScanBack {
    offsets: Vec<i64>,
    next: usize,
}

/// What follows in a search.
#[derive(Debug, Clone, Copy, PartialEq, Eq, Structural)]
pub enum ScanStep {
    /// Read the message at this offset.
    Probe(i64),
    /// Stop, with what was found.
    Done(Option<i64>),
}

impl ScanBack {
    /// The offsets that have not been tried yet.
    pub closed spec fn left(&self) -> Seq<i64> {
        self.offsets@.skip(self.next as int)
    }

    /// Whether the search stands at one of its offsets or at their end.
    pub closed spec fn well_formed(&self) -> bool {
        self.next <= self.offsets.len()
    }

    /// A search below a committed offset.
    pub fn new(committed: i64, low: i64) -> (scan: Self)
        requires
            committed > i64::MIN,
        ensures
            scan.well_formed(),
            scan.left() == Seq::new(
                scan_count(committed, low),
                |k: int| (committed - 1 - k) as i64,
            ),
    {
        let scan = ScanBack { offsets: fallback_scan_offsets(committed, low), next: 0 };
        assert(scan.left() =~= scan.offsets@);
        scan
    }

    /// The first thing to do.
    pub fn start(&self) -> (step: ScanStep)
        requires
            self.well_formed(),
        ensures
            step == (if self.left().len() > 0 {
                ScanStep::Probe(self.left()[0])
            } else {
                ScanStep::Done(None)
            }),
    {
        if self.next < self.offsets.len() {
            ScanStep::Probe(self.offsets[self.next])
        } else {
            ScanStep::Done(None)
        }
    }

    /// Takes in what the probe at the next offset gave: the first timestamp ends the search.
    pub fn probed(&mut self, timestamp: Option<i64>) -> (step: ScanStep)
        requires
            old(self).well_formed(),
            old(self).left().len() > 0,
        ensures
            final(self).well_formed(),
            final(self).left() == old(self).left().drop_first(),
            step == (match timestamp {
                Some(ts) => ScanStep::Done(Some(ts)),
                None => if final(self).left().len() > 0 {
                    ScanStep::Probe(final(self).left()[0])
                } else {
                    ScanStep::Done(None)
                },
            }),
    {
        let ghost before = self.left();
        self.next += 1;
        assert(self.left() =~= before.drop_first());
        match timestamp {
            Some(ts) => ScanStep::Done(Some(ts)),
            None => self.start(),
        }
    }
}

/// Every offset that is tried lies below the committed one, not below the start of the log, and
/// there are at most as many as allowed; on the start of the log none is tried.
pub proof fn scan_stays_in_the_log(committed: i64, low: i64, k: int)
    requires
        0 <= k < scan_count(committed, low),
    ensures
        scan_floor(low) <= committed - 1 - k < committed,
        scan_count(committed, low) <= FALLBACK_SCAN_MAX,
        scan_count(low, low) == 0,
{
}

/// A group and a partition whose time lag is to be estimated.
#[derive(Debug)]
pub struct RateRequest {
    pub group_id: String,
    pub tp: TopicPartition,
    pub lag: u64,
    pub window: RateWindow,
}

/// What a `RateRequest` holds.
#[verifier::ext_equal]
pub struct RateRequestView {
    pub group_id: Seq<char>,
    pub tp: Tp,
    pub lag: u64,
    pub window: RateWindow,
}

impl View for RateRequest {
    type V = RateRequestView;

    open spec fn view(&self) -> RateRequestView {
        RateRequestView {
            group_id: self.group_id@,
            tp: self.tp@,
            lag: self.lag,
            window: self.window,
        }
    }
}

/// The estimate for a committed offset, if there is lag and a rate.
pub open spec fn estimate_for(
    snapshot: SnapshotView,
    rates: Seq<(Tp, RateWindow)>,
    group_id: Seq<char>,
    tp: Tp,
    committed: i64,
) -> Seq<RateRequestView> {
    let high = match lookup(snapshot.watermarks, tp) {
        Some((_, high)) => high,
        None => committed,
    };
    if high <= committed {
        Seq::empty()
    } else {
        match lookup(rates, tp) {
            Some(window) => seq![
                RateRequestView { group_id, tp, lag: (high - committed) as u64, window },
            ],
            None => Seq::empty(),
        }
    }
}

/// The estimates for the committed offsets of a group.
pub open spec fn group_estimates(
    snapshot: SnapshotView,
    rates: Seq<(Tp, RateWindow)>,
    g: int,
) -> Seq<RateRequestView> {
    flat(
        snapshot.groups[g].offsets,
        |entry: (Tp, i64)|
            estimate_for(snapshot, rates, snapshot.groups[g].group_id, entry.0, entry.1),
    )
}

/// The estimates of the first `n` groups.
pub open spec fn all_estimates(
    snapshot: SnapshotView,
    rates: Seq<(Tp, RateWindow)>,
    n: nat,
) -> Seq<RateRequestView>
    decreases n,
{
    if n == 0 {
        Seq::empty()
    } else {
        all_estimates(snapshot, rates, (n - 1) as nat) + group_estimates(snapshot, rates, n - 1)
    }
}

/// Decides which time lags are to be estimated.
pub fn plan_estimates(
    snapshot: &OffsetsSnapshot,
    rates: &OrderMap<TopicPartition, RateWindow>,
) -> (requests: Vec<RateRequest>)
    ensures
        views(requests@) == all_estimates(snapshot@, rates@, snapshot@.groups.len()),
{
    let ghost view = snapshot@;
    let mut requests: Vec<RateRequest> = Vec::new();
    let mut g: usize = 0;
    while g < snapshot.groups.len()
        invariant
            view == snapshot@,
            view.groups.len() == snapshot.groups.len(),
            g <= snapshot.groups.len(),
            views(requests@) =~= all_estimates(view, rates@, g as nat),
        decreases snapshot.groups.len() - g,
    {
        let group = &snapshot.groups[g];
        assert(view.groups[g as int] == group@);
        let ghost before = views(requests@);
        let ghost offsets = group@.offsets;
        let ghost gi = g as int;
        let ghost known = rates@;
        let ghost f = |entry: (Tp, i64)|
            estimate_for(view, known, view.groups[gi].group_id, entry.0, entry.1);
        let mut i: usize = 0;
        assert(offsets.take(0) =~= Seq::<(Tp, i64)>::empty());
        while i < group.offsets.len()
            invariant
                view == snapshot@,
                g < snapshot.groups.len(),
                group == snapshot.groups[g as int],
                view.groups[gi] == group@,
                offsets == group.offsets@,
                known == rates@,
                f == (|entry: (Tp, i64)|
                    estimate_for(view, known, view.groups[gi].group_id, entry.0, entry.1)),
                i <= offsets.len(),
                views(requests@) =~= before + flat(offsets.take(i as int), f),
            decreases offsets.len() - i,
        {
            proof {
                flat_step(offsets, f, i as int);
            }
            let tp = group.offsets.key_at(i);
            let committed: i64 = *group.offsets.value_at(i);
            let high: i64 = match snapshot.get_high_watermark(tp) {
                Some(high) => high,
                None => committed,
            };
            if high > committed {
                if let Some(window) = rates.get(tp) {
                    let lag: i128 = high as i128 - committed as i128;
                    requests.push(
                        RateRequest {
                            group_id: group.group_id.clone(),
                            tp: tp.clone(),
                            lag: lag as u64,
                            window: *window,
                        },
                    );
                }
            }
            i += 1;
        }
        assert(offsets.take(i as int) =~= offsets);
        assert(flat(offsets, f) == group_estimates(view, known, gi));
        g += 1;
    }
    requests
}

/// The timestamps that estimated time lags, in milliseconds, stand for.
pub open spec fn estimated_stamps(
    requests: Seq<RateRequestView>,
    estimates: Seq<Option<i64>>,
    now_ms: i64,
) -> Stamps
    decreases requests.len(),
{
    if requests.len() == 0 {
        Seq::empty()
    } else {
        let before = estimated_stamps(requests.drop_last(), estimates, now_ms);
        match estimates[requests.len() - 1] {
            Some(millis) => put(
                before,
                (requests.last().group_id, requests.last().tp),
                (now_ms - millis) as i64,
            ),
            None => before,
        }
    }
}

/// Turns estimated time lags into timestamps; where there is no estimate that can be trusted
/// there is none.
pub fn take_estimates(
    requests: &Vec<RateRequest>,
    estimates: &Vec<Option<i64>>,
    now_ms: i64,
) -> (out: TimestampMap)
    requires
        estimates.len() == requests.len(),
        forall|i: int|
            0 <= i < estimates.len() ==> ((#[trigger] estimates@[i]) matches Some(millis)
                ==> fits(now_ms - millis)),
    ensures
        out@ == estimated_stamps(views(requests@), estimates@, now_ms),
{
    let ghost all = views(requests@);
    let mut out: TimestampMap = TimestampMap::new();
    let mut i: usize = 0;
    assert(all.take(0) =~= Seq::<RateRequestView>::empty());
    while i < requests.len()
        invariant
            all == views(requests@),
            estimates.len() == requests.len(),
            forall|i: int|
                0 <= i < estimates.len() ==> ((#[trigger] estimates@[i]) matches Some(millis)
                    ==> fits(now_ms - millis)),
            i <= requests.len(),
            out@ == estimated_stamps(all.take(i as int), estimates@, now_ms),
        decreases requests.len() - i,
    {
        assert(all.take(i + 1).drop_last() =~= all.take(i as int));
        let request = &requests[i];
        assert(all[i as int] == request@);
        if let Some(millis) = estimates[i] {
            out.insert(
                (request.group_id.clone(), request.tp.clone()),
                TimestampData { timestamp_ms: now_ms - millis },
            );
        }
        i += 1;
    }
    assert(all.take(i as int) =~= all);
    out
}

/// One of the two ways to tell time lag.
pub enum TimestampSampler {
    Message(MessageSampler),
    Rate(RateSampler),
}

/// What is to be done to get the timestamps of a snapshot.
pub enum SamplePlan {
    /// Read these messages.
    Read(Vec<StampRequest>),
    /// Estimate these time lags.
    Estimate(Vec<RateRequest>),
}

impl TimestampSampler {
    /// A sampler in message mode.
    pub fn new_message(cache_ttl: u64) -> (sampler: Self)
        ensures
            sampler matches TimestampSampler::Message(s) && s.cache().dom() == Set::<
                StampKeyView,
            >::empty() && s.cache_ttl() == cache_ttl,
    {
        TimestampSampler::Message(MessageSampler::new(cache_ttl))
    }

    /// A sampler in rate mode.
    pub fn new_rate(sampler: RateSampler) -> (made: Self)
        ensures
            made == TimestampSampler::Rate(sampler),
    {
        TimestampSampler::Rate(sampler)
    }

    /// Forgets what is not fresh any more; in rate mode there is nothing of the kind.
    pub fn clear_stale_entries(&mut self, now: u64)
        ensures
            match *old(self) {
                TimestampSampler::Message(before) => *final(self) matches TimestampSampler::Message(
                    after,
                ) && after.cache_ttl() == before.cache_ttl() && after.cache() == fresh_stamps(
                    before.cache(),
                    before.cache_ttl(),
                    now,
                ),
                TimestampSampler::Rate(_) => *final(self) == *old(self),
            },
    {
        match self {
            TimestampSampler::Message(s) => {
                s.clear_stale_entries(now);
            },
            TimestampSampler::Rate(_) => {},
        }
    }

    /// How much is remembered: timestamps in message mode, partitions in rate mode.
    pub fn cache_size(&self) -> (n: usize)
        ensures
            n == match *self {
                TimestampSampler::Message(s) => s.cache().dom().len(),
                TimestampSampler::Rate(s) => s.history().len(),
            },
    {
        match self {
            TimestampSampler::Message(s) => s.cache_size(),
            TimestampSampler::Rate(s) => s.tracked_partitions(),
        }
    }

    /// Decides how the timestamps of a snapshot are to be had. In rate mode the snapshot's
    /// watermarks are sampled first.
    pub fn compute_time_lags(
        &mut self,
        snapshot: &OffsetsSnapshot,
        skip_data_loss_partitions: bool,
        now: u64,
    ) -> (plan: SamplePlan)
        ensures
            match *old(self) {
                TimestampSampler::Message(before) => {
                    &&& *final(self) == *old(self)
                    &&& plan matches SamplePlan::Read(requests) && views(requests@) == all_requests(
                        snapshot@,
                        snapshot@.groups.len(),
                        skip_data_loss_partitions,
                    )
                },
                TimestampSampler::Rate(before) => {
                    let history = recorded(
                        before.history(),
                        snapshot@.watermarks,
                        before.max_samples(),
                        before.max_age(),
                        now,
                    );
                    &&& *final(self) matches TimestampSampler::Rate(after) && after.history()
                        == history && after.max_samples() == before.max_samples()
                        && after.max_age() == before.max_age()
                    &&& plan matches SamplePlan::Estimate(requests) && views(requests@)
                        == all_estimates(snapshot@, windows(history), snapshot@.groups.len())
                },
            },
    {
        match self {
            TimestampSampler::Message(_) => SamplePlan::Read(
                plan_requests(snapshot, skip_data_loss_partitions),
            ),
            TimestampSampler::Rate(s) => {
                s.record_watermarks(&snapshot.watermarks, now);
                let rates = s.rates_snapshot();
                SamplePlan::Estimate(plan_estimates(snapshot, &rates))
            },
        }
    }
}

} // verus!
