//! Production rates from the movement of high watermarks.
//!
//! Reading the message at every committed offset is exact but expensive. Where that costs too
//! much, time lag is estimated: each partition keeps a short list of watermark samples, and the
//! messages that came between its first and its last sample tell how fast the log grows.

use crate::collector::offset_collector::Tp;
use crate::kafka::client::TopicPartition;
use crate::keymap::{
    flagged, has_key, kept, kept_is_part, lookup, lookup_finds, lookup_is_some, put, put_reads_back,
    unique_keys, OrderMap,
};
use crate::metrics::registry::{age, elapsed};
use std::collections::VecDeque;
use vstd::prelude::*;

verus! {

/// A high watermark, and when it was seen.
#[derive(Debug, Clone, Copy, PartialEq, Eq, Structural)]
pub struct WatermarkSample {
    /// Nanoseconds of the process clock.
    pub at: u64,
    pub hwm: i64,
}

/// How many messages came in how much time.
#[derive(Debug, Clone, Copy, PartialEq, Eq, Structural)]
pub struct RateWindow {
    pub messages: u64,
    pub nanos: u64,
}

impl View for RateWindow {
    type V = RateWindow;

    open spec fn view(&self) -> RateWindow {
        *self
    }
}

/// The window between a partition's first and last sample: nothing where there are fewer than
/// two samples, where no time has passed, or where the log has not grown.
pub open spec fn window_of(samples: Seq<WatermarkSample>) -> Option<RateWindow> {
    if samples.len() < 2 {
        None
    } else {
        let grown = samples.last().hwm - samples[0].hwm;
        let nanos = age(samples.last().at, samples[0].at);
        if nanos == 0 || grown <= 0 {
            None
        } else {
            Some(RateWindow { messages: grown as u64, nanos })
        }
    }
}

/// The samples without those at the front that are too old.
pub open spec fn young(samples: Seq<WatermarkSample>, max_age: u64, now: u64) -> Seq<WatermarkSample>
    decreases samples.len(),
{
    if samples.len() > 0 && age(now, samples[0].at) > max_age {
        young(samples.drop_first(), max_age, now)
    } else {
        samples
    }
}

/// The last `n` samples.
pub open spec fn latest(samples: Seq<WatermarkSample>, n: nat) -> Seq<WatermarkSample> {
    if samples.len() > n {
        samples.skip(samples.len() - n)
    } else {
        samples
    }
}

/// A partition's samples after one more was taken.
pub open spec fn sampled(
    samples: Seq<WatermarkSample>,
    hwm: i64,
    max_samples: usize,
    max_age: u64,
    now: u64,
) -> Seq<WatermarkSample> {
    latest(young(samples, max_age, now).push(WatermarkSample { at: now, hwm }), max_samples as nat)
}

/// All partitions' samples.
pub type History = Seq<(Tp, Seq<WatermarkSample>)>;

/// A partition's samples.
pub open spec fn samples_of(history: History, tp: Tp) -> Seq<WatermarkSample> {
    match lookup(history, tp) {
        Some(samples) => samples,
        None => Seq::empty(),
    }
}

/// `history` after a sample was taken of each partition in `watermarks`.
pub open spec fn with_samples(
    history: History,
    watermarks: Seq<(Tp, (i64, i64))>,
    max_samples: usize,
    max_age: u64,
    now: u64,
) -> History
    decreases watermarks.len(),
{
    if watermarks.len() == 0 {
        history
    } else {
        let before = with_samples(history, watermarks.drop_last(), max_samples, max_age, now);
        let (tp, (low, high)) = watermarks.last();
        put(before, tp, sampled(samples_of(before, tp), high, max_samples, max_age, now))
    }
}

/// Which partitions of `history` have a watermark.
pub open spec fn watched_flags(history: History, watermarks: Seq<(Tp, (i64, i64))>) -> Seq<bool> {
    Seq::new(history.len(), |i: int| has_key(watermarks, history[i].0))
}

/// `history` after a cycle: partitions without a watermark are forgotten, and a sample is taken
/// of each of the others.
pub open spec fn recorded(
    history: History,
    watermarks: Seq<(Tp, (i64, i64))>,
    max_samples: usize,
    max_age: u64,
    now: u64,
) -> History {
    with_samples(
        kept(history, watched_flags(history, watermarks)),
        watermarks,
        max_samples,
        max_age,
        now,
    )
}

/// The windows of the partitions that have one.
pub open spec fn windows(history: History) -> Seq<(Tp, RateWindow)>
    decreases history.len(),
{
    if history.len() == 0 {
        Seq::empty()
    } else {
        let before = windows(history.drop_last());
        match window_of(history.last().1) {
            Some(window) => put(before, history.last().0, window),
            None => before,
        }
    }
}

/// A time lag that is still to be computed.
#[derive(Debug, Clone, Copy, PartialEq, Eq, Structural)]
pub enum LagEstimate {
    /// No time at all.
    Zero,
    /// The time in which `lag` messages come, at the rate of the window.
    AtRate { lag: i64, window: RateWindow },
}

/// The samples of all partitions.
pub struct RateSampler {
    history: OrderMap<TopicPartition, VecDeque<WatermarkSample>>,
    max_samples: usize,
    max_age: u64,
}

impl RateSampler {
    /// All partitions' samples.
    pub closed spec fn history(&self) -> History {
        self.history@
    }

    /// How many samples a partition keeps.
    pub closed spec fn max_samples(&self) -> usize {
        self.max_samples
    }

    /// How old a sample may be.
    pub closed spec fn max_age(&self) -> u64 {
        self.max_age
    }

    /// A sampler without samples. A rate needs two, so at least two are kept.
    pub fn new(max_samples: usize, max_age: u64) -> (sampler: Self)
        ensures
            sampler.history() == Seq::<(Tp, Seq<WatermarkSample>)>::empty(),
            sampler.max_samples() == (if max_samples < 2 {
                2
            } else {
                max_samples
            }),
            sampler.max_age() == max_age,
    {
        RateSampler {
            history: OrderMap::new(),
            max_samples: if max_samples < 2 {
                2
            } else {
                max_samples
            },
            max_age,
        }
    }

    /// Takes a sample of each partition, and forgets partitions that are not there any more.
    pub fn record_watermarks(
        &mut self,
        watermarks: &OrderMap<TopicPartition, (i64, i64)>,
        now: u64,
    )
        ensures
            final(self).history() == recorded(
                old(self).history(),
                watermarks@,
                old(self).max_samples(),
                old(self).max_age(),
                now,
            ),
            final(self).max_samples() == old(self).max_samples(),
            final(self).max_age() == old(self).max_age(),
    {
        let ghost before = self.history@;
        let ghost flags_wanted = watched_flags(before, watermarks@);
        let mut flags: Vec<bool> = Vec::new();
        let mut i: usize = 0;
        while i < self.history.len()
            invariant
                *self == *old(self),
                before == self.history@,
                flags_wanted == watched_flags(before, watermarks@),
                i <= before.len(),
                flags@ =~= flags_wanted.take(i as int),
            decreases before.len() - i,
        {
            flags.push(watermarks.contains_key(self.history.key_at(i)));
            i += 1;
        }
        assert(flags@ =~= flags_wanted);
        self.history.keep(&flags);
        let ghost base = self.history@;
        let ghost all = watermarks@;
        let mut i: usize = 0;
        assert(all.take(0) =~= Seq::<(Tp, (i64, i64))>::empty());
        while i < watermarks.len()
            invariant
                all == watermarks@,
                i <= all.len(),
                self.max_samples == old(self).max_samples,
                self.max_age == old(self).max_age,
                self.history@ == with_samples(
                    base,
                    all.take(i as int),
                    self.max_samples,
                    self.max_age,
                    now,
                ),
            decreases all.len() - i,
        {
            assert(all.take(i + 1).drop_last() =~= all.take(i as int));
            let tp = watermarks.key_at(i);
            let (_low, high) = *watermarks.value_at(i);
            self.take_sample(tp, high, now);
            i += 1;
        }
        assert(all.take(i as int) =~= all);
    }

    /// Takes a sample of one partition.
    fn take_sample(&mut self, tp: &TopicPartition, hwm: i64, now: u64)
        ensures
            final(self).history@ == put(
                old(self).history@,
                tp@,
                sampled(
                    samples_of(old(self).history@, tp@),
                    hwm,
                    old(self).max_samples,
                    old(self).max_age,
                    now,
                ),
            ),
            final(self).max_samples == old(self).max_samples,
            final(self).max_age == old(self).max_age,
    {
        let ghost before = self.history@;
        proof {
            use_type_invariant(&self.history);
            lookup_is_some(before, tp@);
        }
        let mut samples: VecDeque<WatermarkSample> = VecDeque::new();
        match self.history.position(tp) {
            Some(p) => {
                proof {
                    lookup_finds(before, p as int);
                }
                samples = self.history.replace_at(p, samples);
            },
            None => {},
        }
        let ghost old_samples = samples_of(before, tp@);
        assert(samples@ =~= old_samples);
        while samples.len() > 0 && elapsed(now, samples[0].at) > self.max_age
            invariant
                young(samples@, self.max_age, now) == young(old_samples, self.max_age, now),
            ensures
                samples@ == young(old_samples, self.max_age, now),
            decreases samples.len(),
        {
            let ghost s = samples@;
            samples.pop_front();
            assert(samples@ =~= s.drop_first());
        }
        samples.push_back(WatermarkSample { at: now, hwm });
        let ghost full = samples@;
        while samples.len() > self.max_samples
            invariant
                latest(samples@, self.max_samples as nat) == latest(full, self.max_samples as nat),
            ensures
                samples@ == latest(full, self.max_samples as nat),
            decreases samples.len(),
        {
            let ghost s = samples@;
            samples.pop_front();
            assert(samples@ =~= s.drop_first());
            assert(latest(samples@, self.max_samples as nat) =~= latest(
                s,
                self.max_samples as nat,
            ));
        }
        let ghost emptied = self.history@;
        self.history.insert(tp.clone(), samples);
        proof {
            let v = sampled(old_samples, hwm, self.max_samples, self.max_age, now);
            if has_key(before, tp@) {
                let p = choose|i: int| 0 <= i < before.len() && #[trigger] before[i].0 == tp@;
                assert(emptied[p].0 == tp@);
                let q = choose|i: int| 0 <= i < emptied.len() && #[trigger] emptied[i].0 == tp@;
                assert(before[q].0 == tp@);
            } else {
                assert(emptied == before);
            }
            assert(put(emptied, tp@, v) =~= put(before, tp@, v));
        }
    }

    /// How long `lag` messages take to come; nothing where the rate of the partition is not
    /// known. Whether a rate is high enough to be trusted is left to the caller.
    pub fn estimate_lag_seconds(&self, tp: &TopicPartition, lag: i64) -> (estimate: Option<
        LagEstimate,
    >)
        ensures
            estimate == if lag <= 0 {
                Some(LagEstimate::Zero)
            } else {
                match lookup(self.history(), tp@) {
                    Some(samples) => match window_of(samples) {
                        Some(window) => Some(LagEstimate::AtRate { lag, window }),
                        None => None,
                    },
                    None => None,
                }
            },
    {
        if lag <= 0 {
            return Some(LagEstimate::Zero);
        }
        match self.history.get(tp) {
            Some(samples) => match compute_rate(samples) {
                Some(window) => Some(LagEstimate::AtRate { lag, window }),
                None => None,
            },
            None => None,
        }
    }

    /// The windows of the partitions that have one.
    pub fn rates_snapshot(&self) -> (rates: OrderMap<TopicPartition, RateWindow>)
        ensures
            rates@ == windows(self.history()),
    {
        let ghost all = self.history@;
        let mut rates: OrderMap<TopicPartition, RateWindow> = OrderMap::new();
        let mut i: usize = 0;
        assert(all.take(0) =~= Seq::<(Tp, Seq<WatermarkSample>)>::empty());
        while i < self.history.len()
            invariant
                all == self.history@,
                i <= all.len(),
                rates@ == windows(all.take(i as int)),
            decreases all.len() - i,
        {
            assert(all.take(i + 1).drop_last() =~= all.take(i as int));
            if let Some(window) = compute_rate(self.history.value_at(i)) {
                rates.insert(self.history.key_at(i).clone(), window);
            }
            i += 1;
        }
        assert(all.take(i as int) =~= all);
        rates
    }

    /// The number of partitions with samples.
    pub fn tracked_partitions(&self) -> (n: usize)
        ensures
            n == self.history().len(),
    {
        self.history.len()
    }

    /// The number of samples of a partition.
    pub fn sample_count(&self, tp: &TopicPartition) -> (n: usize)
        ensures
            n == samples_of(self.history(), tp@).len(),
    {
        match self.history.get(tp) {
            Some(samples) => samples.len(),
            None => 0,
        }
    }

    /// Forgets all samples.
    pub fn clear(&mut self)
        ensures
            final(self).history() == Seq::<(Tp, Seq<WatermarkSample>)>::empty(),
            final(self).max_samples() == old(self).max_samples(),
            final(self).max_age() == old(self).max_age(),
    {
        self.history = OrderMap::new();
    }
}

/// The window between the first and the last sample.
pub fn compute_rate(samples: &VecDeque<WatermarkSample>) -> (window: Option<RateWindow>)
    ensures
        window == window_of(samples@),
{
    if samples.len() < 2 {
        return None;
    }
    let first = samples[0];
    let last = samples[samples.len() - 1];
    let nanos: u64 = elapsed(last.at, first.at);
    if nanos == 0 || last.hwm <= first.hwm {
        return None;
    }
    let grown: i128 = last.hwm as i128 - first.hwm as i128;
    Some(RateWindow { messages: grown as u64, nanos })
}

/// A rate is only given where messages came and time passed.
pub proof fn windows_are_positive(samples: Seq<WatermarkSample>)
    ensures
        window_of(samples) matches Some(window) ==> window.messages > 0 && window.nanos > 0,
{
}

/// A rate is the growth of the log between the first and the last sample, over the time between
/// them; there is one exactly where there are two samples, time passed and the log grew.
pub proof fn windows_reach_from_first_to_last(samples: Seq<WatermarkSample>)
    ensures
        samples.len() < 2 ==> window_of(samples) is None,
        samples.len() >= 2 ==> {
            let first = samples[0];
            let last = samples[samples.len() - 1];
            &&& window_of(samples) is Some <==> first.at < last.at && first.hwm < last.hwm
            &&& window_of(samples) matches Some(window) ==> window.messages == last.hwm - first.hwm
                && window.nanos == last.at - first.at
        },
{
}

/// Every partition whose own samples give a rate has that rate, and no other has one.
pub proof fn every_partition_has_its_own_rate(history: History, tp: Tp)
    requires
        unique_keys(history),
    ensures
        unique_keys(windows(history)),
        !has_key(history, tp) ==> lookup(windows(history), tp) is None,
        forall|h: int|
            0 <= h < history.len() && (#[trigger] history[h]).0 == tp ==> {
                let samples = history[h].1;
                let rate = lookup(windows(history), tp);
                &&& samples.len() < 2 ==> rate is None
                &&& samples.len() >= 2 ==> {
                    let first = samples[0];
                    let last = samples[samples.len() - 1];
                    &&& rate is Some <==> first.at < last.at && first.hwm < last.hwm
                    &&& rate matches Some(window) ==> window.messages == last.hwm - first.hwm
                        && window.nanos == last.at - first.at
                }
            },
    decreases history.len(),
{
    if history.len() > 0 {
        let shorter = history.drop_last();
        let (key, samples) = history.last();
        let n = history.len() - 1;
        assert(unique_keys(shorter)) by {
            assert forall|i: int, j: int| 0 <= i < j < shorter.len() implies #[trigger] shorter[i].0
                != #[trigger] shorter[j].0 by {
                assert(history[i].0 != history[j].0);
            }
        }
        every_partition_has_its_own_rate(shorter, tp);
        windows_reach_from_first_to_last(samples);
        if let Some(window) = window_of(samples) {
            put_reads_back(windows(shorter), key, window, tp);
        }
        if has_key(shorter, tp) {
            let i = choose|i: int| 0 <= i < shorter.len() && #[trigger] shorter[i].0 == tp;
            assert(history[i].0 == tp);
            assert(history[i].0 != history[n].0);
        }
        if key == tp {
            assert(history[n].0 == tp);
        }
        assert forall|h: int| 0 <= h < history.len() && (#[trigger] history[h]).0 == tp implies {
            let samples = history[h].1;
            let rate = lookup(windows(history), tp);
            &&& samples.len() < 2 ==> rate is None
            &&& samples.len() >= 2 ==> {
                let first = samples[0];
                let last = samples[samples.len() - 1];
                &&& rate is Some <==> first.at < last.at && first.hwm < last.hwm
                &&& rate matches Some(window) ==> window.messages == last.hwm - first.hwm
                    && window.nanos == last.at - first.at
            }
        } by {
            if h < n {
                assert(shorter[h] == history[h]);
                assert(history[h].0 != history[n].0);
            }
        }
    }
}

/// A log that was cut back, or that has not grown, gives no rate.
pub proof fn no_rate_without_growth(samples: Seq<WatermarkSample>)
    requires
        samples.len() >= 1,
        samples.last().hwm <= samples[0].hwm,
    ensures
        window_of(samples) is None,
{
}

/// After a cycle no partition holds more samples than allowed, and each has at least the one
/// that was just taken.
pub proof fn samples_are_bounded(
    samples: Seq<WatermarkSample>,
    hwm: i64,
    max_samples: usize,
    max_age: u64,
    now: u64,
)
    requires
        max_samples >= 1,
    ensures
        1 <= sampled(samples, hwm, max_samples, max_age, now).len() <= max_samples,
        sampled(samples, hwm, max_samples, max_age, now).last() == (WatermarkSample {
            at: now,
            hwm,
        }),
{
}

/// Whether no sample is older than one before it.
pub open spec fn in_time_order(samples: Seq<WatermarkSample>) -> bool {
    forall|i: int, j: int|
        0 <= i < j < samples.len() ==> (#[trigger] samples[i]).at <= (#[trigger] samples[j]).at
}

/// Whether every partition's samples are in time order, and none is later than `now`.
pub open spec fn timely(history: History, now: u64) -> bool {
    forall|i: int|
        0 <= i < history.len() ==> in_time_order((#[trigger] history[i]).1) && (history[i].1.len()
            > 0 ==> history[i].1.last().at <= now)
}

/// What too old samples leave behind are the newest ones, and the first of them is young enough.
proof fn young_is_end(samples: Seq<WatermarkSample>, max_age: u64, now: u64) -> (dropped: int)
    ensures
        0 <= dropped <= samples.len(),
        young(samples, max_age, now) == samples.skip(dropped),
        dropped < samples.len() ==> age(now, samples[dropped].at) <= max_age,
        forall|k: int| 0 <= k < dropped ==> age(now, (#[trigger] samples[k]).at) > max_age,
    decreases samples.len(),
{
    if samples.len() > 0 && age(now, samples[0].at) > max_age {
        let dropped = young_is_end(samples.drop_first(), max_age, now);
        assert(samples.drop_first().skip(dropped) =~= samples.skip(dropped + 1));
        assert forall|k: int| 0 <= k < dropped + 1 implies age(now, (#[trigger] samples[k]).at)
            > max_age by {
            if k > 0 {
                assert(samples.drop_first()[k - 1] == samples[k]);
            }
        }
        dropped + 1
    } else {
        assert(samples.skip(0) =~= samples);
        0
    }
}

/// Samples in time order, none of them later than `now`, stay so when one more is taken at
/// `now`. What is left of the old ones are the newest, as many as are young enough and as there
/// is room for, and no sample is too old.
pub proof fn samples_stay_in_time_order(
    samples: Seq<WatermarkSample>,
    hwm: i64,
    max_samples: usize,
    max_age: u64,
    now: u64,
)
    requires
        max_samples >= 1,
        in_time_order(samples),
        samples.len() > 0 ==> samples.last().at <= now,
    ensures
        ({
            let taken = sampled(samples, hwm, max_samples, max_age, now);
            &&& in_time_order(taken)
            &&& taken.len() > 0
            &&& taken.last().at == now
            &&& taken.drop_last().is_suffix_of(samples)
            &&& forall|i: int|
                0 <= i < taken.len() ==> age(now, (#[trigger] taken[i]).at) <= max_age
            &&& forall|k: int|
                0 <= k < samples.len() && age(now, (#[trigger] samples[k]).at) <= max_age
                    && samples.len() - k < max_samples ==> samples.len() - k < taken.len()
        }),
{
    let dropped = young_is_end(samples, max_age, now);
    let all = samples.skip(dropped).push(WatermarkSample { at: now, hwm });
    let taken = sampled(samples, hwm, max_samples, max_age, now);
    assert(taken == latest(all, max_samples as nat));
    let cut = all.len() - taken.len();
    assert(taken =~= all.skip(cut));
    assert forall|i: int| 0 <= i < all.len() implies age(now, (#[trigger] all[i]).at) <= max_age by {
        if 0 < i < all.len() - 1 {
            assert(samples[dropped].at <= samples[dropped + i].at);
        }
    }
    assert(taken.drop_last() =~= samples.skip(dropped + cut));
    assert(taken.drop_last() =~= samples.subrange(
        samples.len() - taken.drop_last().len(),
        samples.len() as int,
    ));
    assert forall|i: int, j: int| 0 <= i < j < taken.len() implies (#[trigger] taken[i]).at <= (
    #[trigger] taken[j]).at by {
        let first = dropped + cut + i;
        if j < taken.len() - 1 {
            assert(samples[first].at <= samples[dropped + cut + j].at);
        } else if first < samples.len() - 1 {
            assert(samples[first].at <= samples[samples.len() - 1].at);
        }
    }
}

/// A cycle leaves samples in time order, none of them later than the cycle. No samples at all
/// are so too, so it holds of every cycle as long as the clock does not go back.
pub proof fn a_cycle_keeps_history_timely(
    history: History,
    watermarks: Seq<(Tp, (i64, i64))>,
    max_samples: usize,
    max_age: u64,
    now: u64,
    later: u64,
)
    requires
        max_samples >= 1,
        unique_keys(history),
        unique_keys(watermarks),
        timely(history, now),
        now <= later,
    ensures
        timely(Seq::empty(), now),
        unique_keys(recorded(history, watermarks, max_samples, max_age, now)),
        timely(recorded(history, watermarks, max_samples, max_age, now), later),
{
    let after = recorded(history, watermarks, max_samples, max_age, now);
    let flags = watched_flags(history, watermarks);
    kept_is_part(history, flags);
    assert forall|i: int| 0 <= i < after.len() implies in_time_order((#[trigger] after[i]).1) && (
    after[i].1.len() > 0 ==> after[i].1.last().at <= later) by {
        let tp = after[i].0;
        with_samples_keys(kept(history, flags), watermarks, max_samples, max_age, now, tp);
        only_watched_partitions_are_tracked(history, watermarks, max_samples, max_age, now, tp);
        assert(has_key(after, tp));
        lookup_finds(after, i);
        watched_partitions_hold_sound_samples(
            history,
            watermarks,
            max_samples,
            max_age,
            now,
            tp,
        );
    }
    with_samples_keys(
        kept(history, flags),
        watermarks,
        max_samples,
        max_age,
        now,
        (Seq::empty(), 0),
    );
}

/// A cycle leaves a partition that has a watermark with the newest of its old samples and one
/// that holds its high watermark. They are in time order, no more than allowed, and none is too
/// old.
pub proof fn watched_partitions_hold_sound_samples(
    history: History,
    watermarks: Seq<(Tp, (i64, i64))>,
    max_samples: usize,
    max_age: u64,
    now: u64,
    tp: Tp,
)
    requires
        max_samples >= 1,
        unique_keys(history),
        unique_keys(watermarks),
        timely(history, now),
        has_key(watermarks, tp),
    ensures
        ({
            let samples = samples_of(
                recorded(history, watermarks, max_samples, max_age, now),
                tp,
            );
            &&& in_time_order(samples)
            &&& 1 <= samples.len() <= max_samples
            &&& samples.last() == (WatermarkSample {
                at: now,
                hwm: (lookup(watermarks, tp)->0).1,
            })
            &&& samples.drop_last().is_suffix_of(samples_of(history, tp))
            &&& forall|i: int|
                0 <= i < samples.len() ==> age(now, (#[trigger] samples[i]).at) <= max_age
            &&& forall|k: int|
                0 <= k < samples_of(history, tp).len() && age(
                    now,
                    (#[trigger] samples_of(history, tp)[k]).at,
                ) <= max_age && samples_of(history, tp).len() - k < max_samples ==> samples_of(
                    history,
                    tp,
                ).len() - k < samples.len()
        }),
{
    let flags = watched_flags(history, watermarks);
    let base = kept(history, flags);
    lookup_is_some(watermarks, tp);
    kept_is_part(history, flags);
    with_samples_of(base, watermarks, max_samples, max_age, now, tp);
    let old_samples = samples_of(history, tp);
    assert(samples_of(base, tp) == old_samples) by {
        lookup_is_some(history, tp);
        lookup_is_some(base, tp);
        if has_key(history, tp) {
            let i = choose|i: int| 0 <= i < history.len() && #[trigger] history[i].0 == tp;
            assert(flags[i]);
            assert(base.contains(history[i]));
            let k = choose|k: int| 0 <= k < base.len() && base[k] == history[i];
            lookup_finds(history, i);
            lookup_finds(base, k);
        } else if has_key(base, tp) {
            let k = choose|k: int| 0 <= k < base.len() && #[trigger] base[k].0 == tp;
            assert(flagged(history, flags, base[k]));
            let i = choose|i: int|
                0 <= i < history.len() && flags[i] && #[trigger] history[i] == base[k];
            assert(history[i].0 == tp);
        }
    }
    assert(in_time_order(old_samples) && (old_samples.len() > 0 ==> old_samples.last().at <= now))
        by {
        lookup_is_some(history, tp);
        if has_key(history, tp) {
            let i = choose|i: int| 0 <= i < history.len() && #[trigger] history[i].0 == tp;
            lookup_finds(history, i);
        }
    }
    let high = (lookup(watermarks, tp)->0).1;
    samples_stay_in_time_order(old_samples, high, max_samples, max_age, now);
    samples_are_bounded(old_samples, high, max_samples, max_age, now);
}

/// Each partition in `watermarks` gets one sample; the others stay as they are.
proof fn with_samples_of(
    history: History,
    watermarks: Seq<(Tp, (i64, i64))>,
    max_samples: usize,
    max_age: u64,
    now: u64,
    tp: Tp,
)
    requires
        unique_keys(history),
        unique_keys(watermarks),
    ensures
        samples_of(with_samples(history, watermarks, max_samples, max_age, now), tp) == (match lookup(
            watermarks,
            tp,
        ) {
            Some((_, high)) => sampled(samples_of(history, tp), high, max_samples, max_age, now),
            None => samples_of(history, tp),
        }),
    decreases watermarks.len(),
{
    if watermarks.len() > 0 {
        let shorter = watermarks.drop_last();
        let before = with_samples(history, shorter, max_samples, max_age, now);
        assert(unique_keys(shorter)) by {
            assert forall|i: int, j: int| 0 <= i < j < shorter.len() implies #[trigger] shorter[i].0
                != #[trigger] shorter[j].0 by {
                assert(watermarks[i].0 != watermarks[j].0);
            }
        }
        with_samples_of(history, shorter, max_samples, max_age, now, tp);
        with_samples_keys(history, shorter, max_samples, max_age, now, tp);
        let (k, (_low, high)) = watermarks.last();
        let v = sampled(samples_of(before, k), high, max_samples, max_age, now);
        put_reads_back(before, k, v, tp);
        if k == tp {
            lookup_is_some(shorter, tp);
            if has_key(shorter, tp) {
                let i = choose|i: int| 0 <= i < shorter.len() && #[trigger] shorter[i].0 == tp;
                assert(watermarks[i].0 != watermarks[watermarks.len() - 1].0);
            }
        }
    }
}

/// After a cycle the partitions with samples are exactly those with a watermark.
pub proof fn only_watched_partitions_are_tracked(
    history: History,
    watermarks: Seq<(Tp, (i64, i64))>,
    max_samples: usize,
    max_age: u64,
    now: u64,
    tp: Tp,
)
    requires
        unique_keys(history),
    ensures
        has_key(recorded(history, watermarks, max_samples, max_age, now), tp) <==> has_key(
            watermarks,
            tp,
        ),
{
    let flags = watched_flags(history, watermarks);
    let base = kept(history, flags);
    kept_is_part(history, flags);
    with_samples_keys(base, watermarks, max_samples, max_age, now, tp);
    if has_key(base, tp) {
        let i = choose|i: int| 0 <= i < base.len() && #[trigger] base[i].0 == tp;
        let j = choose|j: int| 0 <= j < history.len() && flags[j] && history[j] == base[i];
        assert(has_key(watermarks, history[j].0));
    }
}

proof fn with_samples_keys(
    history: History,
    watermarks: Seq<(Tp, (i64, i64))>,
    max_samples: usize,
    max_age: u64,
    now: u64,
    tp: Tp,
)
    requires
        unique_keys(history),
    ensures
        unique_keys(with_samples(history, watermarks, max_samples, max_age, now)),
        has_key(with_samples(history, watermarks, max_samples, max_age, now), tp) == (has_key(
            history,
            tp,
        ) || has_key(watermarks, tp)),
    decreases watermarks.len(),
{
    if watermarks.len() > 0 {
        let shorter = watermarks.drop_last();
        let before = with_samples(history, shorter, max_samples, max_age, now);
        with_samples_keys(history, shorter, max_samples, max_age, now, tp);
        let (k, (_low, high)) = watermarks.last();
        let v = sampled(samples_of(before, k), high, max_samples, max_age, now);
        put_reads_back(before, k, v, tp);
        lookup_is_some(before, tp);
        lookup_is_some(put(before, k, v), tp);
        lookup_is_some(watermarks, tp);
        lookup_is_some(shorter, tp);
    }
}

} // verus!
