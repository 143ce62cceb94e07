//! What holds of every time lag that is sampled, and of every snapshot.

use crate::collector::caches::push_contains;
use crate::collector::lag_calculator::{fits, Stamps};
use crate::collector::offset_collector::{
    allowed_flags, group_view, offsets_for, SnapshotView, Tp,
};
use crate::collector::rate_sampler::{window_of, windows, History, RateWindow};
use crate::collector::stamp_table::{fresh_stamps, Stamp, StampKeyView};
use crate::collector::timestamp_sampler::{
    after_read, after_reads, after_scans, all_estimates, all_requests, estimate_for,
    estimated_stamps, found, group_estimates, group_requests, request_for, scan_count, FetchEnd,
    RateRequestView, StampRequestView,
};
use crate::kafka::admin::DescriptionView;
use crate::keymap::{
    has_key, kept, kept_is_part, lookup, lookup_finds, lookup_is_some, put_reads_back, unique_keys,
};
use crate::text::{flat, flat_holds, flat_origin};
use vstd::prelude::*;

verus! {

/// Whether a request is for a message that a group has still to read, and, where lost messages
/// are skipped, for one that is still there.
pub open spec fn sensible(
    snapshot: SnapshotView,
    request: StampRequestView,
    skip_data_loss: bool,
) -> bool {
    &&& lookup(snapshot.watermarks, request.tp) matches Some((low, high)) && high
        > request.committed && low == request.low
    &&& skip_data_loss ==> request.committed >= request.low
}

/// Messages are only read for partitions with lag; where lost messages are skipped, only
/// messages that are still in the log.
pub proof fn only_lagging_partitions_are_read(
    snapshot: SnapshotView,
    n: nat,
    skip_data_loss: bool,
    i: int,
)
    requires
        0 <= i < all_requests(snapshot, n, skip_data_loss).len(),
    ensures
        sensible(snapshot, all_requests(snapshot, n, skip_data_loss)[i], skip_data_loss),
    decreases n,
{
    let before = all_requests(snapshot, (n - 1) as nat, skip_data_loss);
    if i < before.len() {
        only_lagging_partitions_are_read(snapshot, (n - 1) as nat, skip_data_loss, i);
    } else {
        let g = n - 1;
        let f = |entry: (Tp, i64)|
            request_for(
                snapshot,
                snapshot.groups[g].group_id,
                entry.0,
                entry.1,
                skip_data_loss,
            );
        assert(group_requests(snapshot, g, skip_data_loss) == flat(snapshot.groups[g].offsets, f));
        let origin = flat_origin(snapshot.groups[g].offsets, f, i - before.len());
        let entry = snapshot.groups[g].offsets[origin.0];
        assert(all_requests(snapshot, n, skip_data_loss)[i] == f(entry)[origin.1]);
    }
}

/// No request is lost: after the reads, each has a timestamp or is tried again.
pub proof fn no_request_is_lost(
    requests: Seq<StampRequestView>,
    ends: Seq<FetchEnd>,
    now_ms: i64,
    i: int,
)
    requires
        0 <= i < requests.len(),
    ensures
        unique_keys(after_reads(requests, ends, now_ms).0),
        has_key(after_reads(requests, ends, now_ms).0, (requests[i].group_id, requests[i].tp))
            || after_reads(requests, ends, now_ms).1.contains(requests[i]),
    decreases requests.len(),
{
    reads_keep_keys_unique(requests, ends, now_ms);
    let shorter = requests.drop_last();
    let (out, retry) = after_reads(shorter, ends, now_ms);
    let last = requests.last();
    let ts = found(ends[requests.len() - 1]);
    let (out2, retry2) = after_read(out, retry, last, ts, now_ms);
    reads_keep_keys_unique(shorter, ends, now_ms);
    let key = (requests[i].group_id, requests[i].tp);
    let last_key = (last.group_id, last.tp);
    if i == requests.len() - 1 {
        match ts {
            Some(t) => {
                put_reads_back(out, last_key, t, key);
            },
            None => {
                if last.committed < last.low {
                    put_reads_back(out, last_key, now_ms, key);
                } else {
                    assert(retry2[retry.len() as int] == last);
                }
            },
        }
        lookup_is_some(out2, key);
    } else {
        assert(shorter[i] == requests[i]);
        no_request_is_lost(shorter, ends, now_ms, i);
        lookup_is_some(out, key);
        lookup_is_some(out2, key);
        match ts {
            Some(t) => {
                put_reads_back(out, last_key, t, key);
            },
            None => {
                if last.committed < last.low {
                    put_reads_back(out, last_key, now_ms, key);
                } else if retry.contains(requests[i]) {
                    let k = choose|k: int| 0 <= k < retry.len() && retry[k] == requests[i];
                    assert(retry2[k] == requests[i]);
                }
            },
        }
    }
}

proof fn reads_keep_keys_unique(
    requests: Seq<StampRequestView>,
    ends: Seq<FetchEnd>,
    now_ms: i64,
)
    ensures
        unique_keys(after_reads(requests, ends, now_ms).0),
    decreases requests.len(),
{
    if requests.len() > 0 {
        let shorter = requests.drop_last();
        reads_keep_keys_unique(shorter, ends, now_ms);
        let (out, retry) = after_reads(shorter, ends, now_ms);
        let key = (requests.last().group_id, requests.last().tp);
        match found(ends[requests.len() - 1]) {
            Some(t) => {
                put_reads_back(out, key, t, key);
            },
            None => {
                put_reads_back(out, key, now_ms, key);
            },
        }
    }
}

/// Every estimate is for a real lag and rests on a rate that is not zero.
pub proof fn estimates_rest_on_rates(
    snapshot: SnapshotView,
    history: History,
    n: nat,
    i: int,
)
    requires
        0 <= i < all_estimates(snapshot, windows(history), n).len(),
        unique_keys(history),
    ensures
        ({
            let request = all_estimates(snapshot, windows(history), n)[i];
            &&& request.window.messages > 0
            &&& request.window.nanos > 0
            &&& request.lag > 0
            &&& lookup(snapshot.watermarks, request.tp) is Some
        }),
    decreases n,
{
    let rates = windows(history);
    let before = all_estimates(snapshot, rates, (n - 1) as nat);
    if i < before.len() {
        estimates_rest_on_rates(snapshot, history, (n - 1) as nat, i);
    } else {
        let g = n - 1;
        let f = |entry: (Tp, i64)|
            estimate_for(snapshot, rates, snapshot.groups[g].group_id, entry.0, entry.1);
        assert(group_estimates(snapshot, rates, g) == flat(snapshot.groups[g].offsets, f));
        let origin = flat_origin(snapshot.groups[g].offsets, f, i - before.len());
        let entry = snapshot.groups[g].offsets[origin.0];
        assert(all_estimates(snapshot, rates, n)[i] == f(entry)[origin.1]);
        windows_positive(history, entry.0);
    }
}

proof fn windows_positive(history: History, tp: Tp)
    ensures
        unique_keys(windows(history)),
        lookup(windows(history), tp) matches Some(w) ==> w.messages > 0 && w.nanos > 0,
    decreases history.len(),
{
    if history.len() > 0 {
        windows_positive(history.drop_last(), tp);
        if let Some(w) = window_of(history.last().1) {
            put_reads_back(windows(history.drop_last()), history.last().0, w, tp);
        }
    }
}

/// A snapshot only holds offsets on topics that are allowed, and of those it holds each as it
/// was fetched.
pub proof fn only_allowed_topics_are_shown(
    description: DescriptionView,
    offsets: Seq<(Seq<char>, Seq<(Tp, i64)>)>,
    allowed: Seq<Seq<char>>,
)
    requires
        unique_keys(offsets_for(offsets, description.group_id)),
    ensures
        ({
            let shown = group_view(description, offsets, allowed).offsets;
            let fetched = offsets_for(offsets, description.group_id);
            &&& forall|i: int|
                0 <= i < shown.len() ==> allowed.contains((#[trigger] shown[i]).0.0)
                    && fetched.contains(shown[i])
            &&& forall|i: int|
                0 <= i < fetched.len() && allowed.contains((#[trigger] fetched[i]).0.0)
                    ==> shown.contains(fetched[i])
        }),
{
    let fetched = offsets_for(offsets, description.group_id);
    let flags = allowed_flags(fetched, allowed);
    kept_is_part(fetched, flags);
    let shown = kept(fetched, flags);
    assert forall|i: int| 0 <= i < shown.len() implies allowed.contains((#[trigger] shown[i]).0.0)
        && fetched.contains(shown[i]) by {
        let j = choose|j: int| 0 <= j < fetched.len() && flags[j] && fetched[j] == shown[i];
        assert(fetched[j] == shown[i]);
    }
    assert forall|i: int| 0 <= i < fetched.len() && allowed.contains((#[trigger] fetched[i]).0.0)
        implies shown.contains(fetched[i]) by {
        assert(flags[i]);
    }
}

/// Whether the `i`-th committed offset of group `g` is there, and `w` is where the watermarks of
/// its partition stand.
pub open spec fn located(snapshot: SnapshotView, g: int, i: int, w: int) -> bool {
    &&& 0 <= g < snapshot.groups.len()
    &&& 0 <= i < snapshot.groups[g].offsets.len()
    &&& 0 <= w < snapshot.watermarks.len()
    &&& snapshot.watermarks[w].0 == snapshot.groups[g].offsets[i].0
}

/// Every group that lags on a partition gets its message there read: the one at its own committed
/// offset. Where lost messages are skipped, that holds of messages that are still in the log.
pub proof fn every_lagging_offset_is_read(
    snapshot: SnapshotView,
    skip_data_loss: bool,
    g: int,
    i: int,
    w: int,
)
    requires
        unique_keys(snapshot.watermarks),
        located(snapshot, g, i, w),
        snapshot.watermarks[w].1.1 > snapshot.groups[g].offsets[i].1,
        skip_data_loss ==> snapshot.watermarks[w].1.0 <= snapshot.groups[g].offsets[i].1,
    ensures
        all_requests(snapshot, snapshot.groups.len(), skip_data_loss).contains(
            StampRequestView {
                group_id: snapshot.groups[g].group_id,
                tp: snapshot.groups[g].offsets[i].0,
                committed: snapshot.groups[g].offsets[i].1,
                low: snapshot.watermarks[w].1.0,
            },
        ),
{
    lookup_finds(snapshot.watermarks, w);
    let f = |entry: (Tp, i64)|
        request_for(snapshot, snapshot.groups[g].group_id, entry.0, entry.1, skip_data_loss);
    let mine = group_requests(snapshot, g, skip_data_loss);
    assert(mine == flat(snapshot.groups[g].offsets, f));
    flat_holds(snapshot.groups[g].offsets, f, i, 0);
    group_requests_are_kept(snapshot, snapshot.groups.len(), skip_data_loss, g, f(snapshot.groups[g].offsets[i])[0]);
}

proof fn group_requests_are_kept(
    snapshot: SnapshotView,
    n: nat,
    skip_data_loss: bool,
    g: int,
    request: StampRequestView,
)
    requires
        0 <= g < n,
        group_requests(snapshot, g, skip_data_loss).contains(request),
    ensures
        all_requests(snapshot, n, skip_data_loss).contains(request),
    decreases n,
{
    let before = all_requests(snapshot, (n - 1) as nat, skip_data_loss);
    let last = group_requests(snapshot, n - 1, skip_data_loss);
    let all = all_requests(snapshot, n, skip_data_loss);
    if g < n - 1 {
        group_requests_are_kept(snapshot, (n - 1) as nat, skip_data_loss, g, request);
        let k = choose|k: int| 0 <= k < before.len() && before[k] == request;
        assert(all[k] == request);
    } else {
        let k = choose|k: int| 0 <= k < last.len() && last[k] == request;
        assert(all[before.len() + k] == request);
    }
}

/// Which committed offset a request is for.
proof fn request_origin(
    snapshot: SnapshotView,
    n: nat,
    skip_data_loss: bool,
    k: int,
) -> (origin: (int, int))
    requires
        0 <= k < all_requests(snapshot, n, skip_data_loss).len(),
    ensures
        0 <= origin.0 < n,
        0 <= origin.1 < snapshot.groups[origin.0].offsets.len(),
        ({
            let request = all_requests(snapshot, n, skip_data_loss)[k];
            let group = snapshot.groups[origin.0];
            request_for(
                snapshot,
                group.group_id,
                group.offsets[origin.1].0,
                group.offsets[origin.1].1,
                skip_data_loss,
            ) == seq![request]
        }),
    decreases n,
{
    let before = all_requests(snapshot, (n - 1) as nat, skip_data_loss);
    if k < before.len() {
        request_origin(snapshot, (n - 1) as nat, skip_data_loss, k)
    } else {
        let g = n - 1;
        let f = |entry: (Tp, i64)|
            request_for(snapshot, snapshot.groups[g].group_id, entry.0, entry.1, skip_data_loss);
        assert(group_requests(snapshot, g, skip_data_loss) == flat(snapshot.groups[g].offsets, f));
        let origin = flat_origin(snapshot.groups[g].offsets, f, k - before.len());
        assert(f(snapshot.groups[g].offsets[origin.0]) =~= seq![
            all_requests(snapshot, n, skip_data_loss)[k],
        ]);
        (g, origin.0)
    }
}

/// Every message that is read is the one at the committed offset of a group that lags on its
/// partition; where lost messages are skipped, it is still in the log.
pub proof fn every_read_is_for_a_lagging_offset(
    snapshot: SnapshotView,
    skip_data_loss: bool,
    k: int,
)
    requires
        unique_keys(snapshot.watermarks),
        0 <= k < all_requests(snapshot, snapshot.groups.len(), skip_data_loss).len(),
    ensures
        ({
            let request = all_requests(snapshot, snapshot.groups.len(), skip_data_loss)[k];
            exists|g: int, i: int, w: int|
                {
                    &&& #[trigger] located(snapshot, g, i, w)
                    &&& request.group_id == snapshot.groups[g].group_id
                    &&& request.tp == snapshot.groups[g].offsets[i].0
                    &&& request.committed == snapshot.groups[g].offsets[i].1
                    &&& request.low == snapshot.watermarks[w].1.0
                    &&& request.committed < snapshot.watermarks[w].1.1
                    &&& skip_data_loss ==> request.low <= request.committed
                }
        }),
{
    let n = snapshot.groups.len();
    let request = all_requests(snapshot, n, skip_data_loss)[k];
    let (g, i) = request_origin(snapshot, n, skip_data_loss, k);
    let (tp, committed) = snapshot.groups[g].offsets[i];
    let made = request_for(snapshot, snapshot.groups[g].group_id, tp, committed, skip_data_loss);
    assert(made.len() == 1 && made[0] == request);
    lookup_is_some(snapshot.watermarks, tp);
    let w = choose|w: int|
        0 <= w < snapshot.watermarks.len() && #[trigger] snapshot.watermarks[w].0 == tp;
    lookup_finds(snapshot.watermarks, w);
    assert(located(snapshot, g, i, w));
}

/// No message is read twice for one group.
pub proof fn no_message_is_read_twice(
    snapshot: SnapshotView,
    skip_data_loss: bool,
    a: int,
    b: int,
)
    requires
        distinct_groups(snapshot),
        0 <= a < b < all_requests(snapshot, snapshot.groups.len(), skip_data_loss).len(),
    ensures
        ({
            let all = all_requests(snapshot, snapshot.groups.len(), skip_data_loss);
            (all[a].group_id, all[a].tp) != (all[b].group_id, all[b].tp)
        }),
{
    requests_are_distinct(snapshot, snapshot.groups.len(), skip_data_loss, a, b);
}

/// Whether no two groups have the same name, and no group two offsets on one partition.
pub open spec fn distinct_groups(snapshot: SnapshotView) -> bool {
    &&& forall|g: int, h: int|
        0 <= g < h < snapshot.groups.len() ==> (#[trigger] snapshot.groups[g]).group_id != (
        #[trigger] snapshot.groups[h]).group_id
    &&& forall|g: int|
        0 <= g < snapshot.groups.len() ==> unique_keys((#[trigger] snapshot.groups[g]).offsets)
}

proof fn requests_are_distinct(
    snapshot: SnapshotView,
    n: nat,
    skip_data_loss: bool,
    a: int,
    b: int,
)
    requires
        distinct_groups(snapshot),
        n <= snapshot.groups.len(),
        0 <= a < b < all_requests(snapshot, n, skip_data_loss).len(),
    ensures
        ({
            let all = all_requests(snapshot, n, skip_data_loss);
            (all[a].group_id, all[a].tp) != (all[b].group_id, all[b].tp)
        }),
    decreases n,
{
    let before = all_requests(snapshot, (n - 1) as nat, skip_data_loss);
    let all = all_requests(snapshot, n, skip_data_loss);
    let g = n - 1;
    if b < before.len() {
        requests_are_distinct(snapshot, (n - 1) as nat, skip_data_loss, a, b);
    } else if a < before.len() {
        let first = request_origin(snapshot, (n - 1) as nat, skip_data_loss, a);
        let made = request_for(
            snapshot,
            snapshot.groups[first.0].group_id,
            snapshot.groups[first.0].offsets[first.1].0,
            snapshot.groups[first.0].offsets[first.1].1,
            skip_data_loss,
        );
        assert(made[0] == all[a]);
        let f = |entry: (Tp, i64)|
            request_for(snapshot, snapshot.groups[g].group_id, entry.0, entry.1, skip_data_loss);
        assert(group_requests(snapshot, g, skip_data_loss) == flat(snapshot.groups[g].offsets, f));
        let origin = flat_origin(snapshot.groups[g].offsets, f, b - before.len());
        assert(all[b].group_id == snapshot.groups[g].group_id);
        assert(snapshot.groups[first.0].group_id != snapshot.groups[g].group_id);
    } else {
        let offsets = snapshot.groups[g].offsets;
        let f = |entry: (Tp, i64)|
            request_for(snapshot, snapshot.groups[g].group_id, entry.0, entry.1, skip_data_loss);
        assert(group_requests(snapshot, g, skip_data_loss) == flat(offsets, f));
        assert forall|entry: (Tp, i64)| (#[trigger] f(entry)).len() <= 1 by {
        }
        let (i, j) = flat_in_order(offsets, f, a - before.len(), b - before.len());
        assert(f(offsets[i])[0] == all[a]);
        assert(f(offsets[j])[0] == all[b]);
        assert(unique_keys(offsets));
        assert(offsets[i].0 != offsets[j].0);
    }
}

/// Where each element gives at most one, a later part comes from a later element.
proof fn flat_in_order<A, B>(s: Seq<A>, f: spec_fn(A) -> Seq<B>, a: int, b: int) -> (at: (int, int))
    requires
        forall|x: A| (#[trigger] f(x)).len() <= 1,
        0 <= a < b < flat(s, f).len(),
    ensures
        0 <= at.0 < at.1 < s.len(),
        f(s[at.0]) == seq![flat(s, f)[a]],
        f(s[at.1]) == seq![flat(s, f)[b]],
    decreases s.len(),
{
    let shorter = s.drop_last();
    let before = flat(shorter, f);
    if b < before.len() {
        let at = flat_in_order(shorter, f, a, b);
        assert(shorter[at.0] == s[at.0] && shorter[at.1] == s[at.1]);
        at
    } else {
        assert(f(s.last()).len() == 1);
        assert(f(s.last()) =~= seq![flat(s, f)[b]]);
        let first = flat_origin(shorter, f, a);
        assert(shorter[first.0] == s[first.0]);
        assert(f(s[first.0]).len() <= 1);
        assert(f(s[first.0]) =~= seq![flat(s, f)[a]]);
        (first.0, s.len() - 1)
    }
}

/// Whether no two requests are for one group and partition.
pub open spec fn distinct_requests(requests: Seq<StampRequestView>) -> bool {
    forall|a: int, b: int|
        0 <= a < b < requests.len() ==> ((#[trigger] requests[a]).group_id, requests[a].tp) != (
            (#[trigger] requests[b]).group_id,
            requests[b].tp,
        )
}

proof fn shorter_requests_distinct(requests: Seq<StampRequestView>)
    requires
        distinct_requests(requests),
        requests.len() > 0,
    ensures
        distinct_requests(requests.drop_last()),
{
    let shorter = requests.drop_last();
    assert forall|a: int, b: int| 0 <= a < b < shorter.len() implies (
        (#[trigger] shorter[a]).group_id,
        shorter[a].tp,
    ) != ((#[trigger] shorter[b]).group_id, shorter[b].tp) by {
        assert((requests[a].group_id, requests[a].tp) != (requests[b].group_id, requests[b].tp));
    }
}

/// What a read gave is taken for the group and partition that it was for. A message that could
/// not be read is taken to be as old as now where it was deleted; else there is no timestamp yet,
/// and the request is tried again.
pub proof fn reads_are_taken_for_their_requests(
    requests: Seq<StampRequestView>,
    ends: Seq<FetchEnd>,
    now_ms: i64,
    i: int,
)
    requires
        0 <= i < requests.len(),
        distinct_requests(requests),
    ensures
        ({
            let (out, retry) = after_reads(requests, ends, now_ms);
            let stamp = lookup(out, (requests[i].group_id, requests[i].tp));
            match ends[i] {
                FetchEnd::Read(Some(ts)) => stamp == Some(ts) && !retry.contains(requests[i]),
                _ => if requests[i].committed < requests[i].low {
                    stamp == Some(now_ms) && !retry.contains(requests[i])
                } else {
                    stamp is None && retry.contains(requests[i])
                },
            }
        }),
    decreases requests.len(),
{
    let shorter = requests.drop_last();
    let last = requests.last();
    let last_key = (last.group_id, last.tp);
    let key = (requests[i].group_id, requests[i].tp);
    let (out, retry) = after_reads(shorter, ends, now_ms);
    let (out2, retry2) = after_reads(requests, ends, now_ms);
    reads_keep_keys_unique(shorter, ends, now_ms);
    shorter_requests_distinct(requests);
    reads_are_for_requests(shorter, ends, now_ms);
    let ts = found(ends[requests.len() - 1]);
    if i < shorter.len() {
        assert(shorter[i] == requests[i]);
        reads_are_taken_for_their_requests(shorter, ends, now_ms, i);
        assert((requests[i].group_id, requests[i].tp) != (
            requests[requests.len() - 1].group_id,
            requests[requests.len() - 1].tp,
        ));
        match ts {
            Some(t) => {
                put_reads_back(out, last_key, t, key);
            },
            None => {
                put_reads_back(out, last_key, now_ms, key);
                push_contains(retry, last, requests[i]);
            },
        }
    } else {
        lookup_is_some(out, key);
        if has_key(out, key) {
            let r = choose|r: int|
                0 <= r < shorter.len() && ((#[trigger] shorter[r]).group_id, shorter[r].tp) == key;
            assert((requests[r].group_id, requests[r].tp) != (
                requests[requests.len() - 1].group_id,
                requests[requests.len() - 1].tp,
            ));
        }
        if retry.contains(last) {
            let r = choose|r: int| 0 <= r < shorter.len() && #[trigger] shorter[r] == last;
            assert((requests[r].group_id, requests[r].tp) != (
                requests[requests.len() - 1].group_id,
                requests[requests.len() - 1].tp,
            ));
        }
        match ts {
            Some(t) => {
                put_reads_back(out, last_key, t, key);
            },
            None => {
                put_reads_back(out, last_key, now_ms, key);
                push_contains(retry, last, requests[i]);
            },
        }
    }
}

/// Timestamps and requests that are tried again all go back to requests.
pub proof fn reads_are_for_requests(
    requests: Seq<StampRequestView>,
    ends: Seq<FetchEnd>,
    now_ms: i64,
)
    ensures
        ({
            let (out, retry) = after_reads(requests, ends, now_ms);
            &&& forall|key: (Seq<char>, Tp)| #[trigger]
                has_key(out, key) ==> exists|r: int|
                    0 <= r < requests.len() && (
                        (#[trigger] requests[r]).group_id,
                        requests[r].tp,
                    ) == key
            &&& forall|request: StampRequestView| #[trigger]
                retry.contains(request) ==> exists|r: int|
                    0 <= r < requests.len() && #[trigger] requests[r] == request
            &&& out.len() + retry.len() <= requests.len()
        }),
    decreases requests.len(),
{
    if requests.len() > 0 {
        let shorter = requests.drop_last();
        let last = requests.last();
        let last_key = (last.group_id, last.tp);
        reads_are_for_requests(shorter, ends, now_ms);
        reads_keep_keys_unique(shorter, ends, now_ms);
        let (out, retry) = after_reads(shorter, ends, now_ms);
        let (out2, retry2) = after_reads(requests, ends, now_ms);
        let ts = found(ends[requests.len() - 1]);
        assert forall|key: (Seq<char>, Tp)| #[trigger] has_key(out2, key) implies exists|r: int|
            0 <= r < requests.len() && ((#[trigger] requests[r]).group_id, requests[r].tp) == key by {
            match ts {
                Some(t) => {
                    put_reads_back(out, last_key, t, key);
                },
                None => {
                    put_reads_back(out, last_key, now_ms, key);
                },
            }
            lookup_is_some(out, key);
            lookup_is_some(out2, key);
            if has_key(out, key) {
                let r = choose|r: int|
                    0 <= r < shorter.len() && ((#[trigger] shorter[r]).group_id, shorter[r].tp)
                        == key;
                assert((requests[r].group_id, requests[r].tp) == key);
            } else {
                assert((requests[requests.len() - 1].group_id, requests[requests.len() - 1].tp)
                    == key);
            }
        }
        assert forall|request: StampRequestView| #[trigger] retry2.contains(request) implies exists|
            r: int,
        |
            0 <= r < requests.len() && #[trigger] requests[r] == request by {
            push_contains(retry, last, request);
            if retry.contains(request) {
                let r = choose|r: int| 0 <= r < shorter.len() && #[trigger] shorter[r] == request;
                assert(requests[r] == request);
            } else {
                assert(requests[requests.len() - 1] == request);
            }
        }
    }
}

/// What a search for an earlier message found is taken for the group and partition that it was
/// for; where it found nothing, and for every other group and partition, what was known stays.
pub proof fn scans_are_taken_for_their_requests(
    out: Stamps,
    requests: Seq<StampRequestView>,
    found: Seq<Option<i64>>,
    key: (Seq<char>, Tp),
)
    requires
        unique_keys(out),
        distinct_requests(requests),
    ensures
        unique_keys(after_scans(out, requests, found)),
        forall|i: int|
            0 <= i < requests.len() && ((#[trigger] requests[i]).group_id, requests[i].tp) == key
                ==> lookup(after_scans(out, requests, found), key) == (match found[i] {
                Some(ts) => Some(ts),
                None => lookup(out, key),
            }),
        (forall|i: int|
            0 <= i < requests.len() ==> ((#[trigger] requests[i]).group_id, requests[i].tp) != key)
            ==> lookup(after_scans(out, requests, found), key) == lookup(out, key),
    decreases requests.len(),
{
    if requests.len() > 0 {
        let shorter = requests.drop_last();
        let last = requests.last();
        let n = requests.len() - 1;
        shorter_requests_distinct(requests);
        scans_are_taken_for_their_requests(out, shorter, found, key);
        let before = after_scans(out, shorter, found);
        if let Some(ts) = found[n] {
            put_reads_back(before, (last.group_id, last.tp), ts, key);
        }
        assert forall|i: int| 0 <= i < shorter.len() implies #[trigger] shorter[i] == requests[i] by {
        }
        assert forall|i: int|
            0 <= i < requests.len() && ((#[trigger] requests[i]).group_id, requests[i].tp)
                == key implies lookup(after_scans(out, requests, found), key) == (match found[i] {
            Some(ts) => Some(ts),
            None => lookup(out, key),
        }) by {
            if i < n {
                assert(shorter[i] == requests[i]);
                assert((requests[i].group_id, requests[i].tp) != (
                    requests[n].group_id,
                    requests[n].tp,
                ));
            } else {
                assert forall|k: int| 0 <= k < shorter.len() implies (
                    (#[trigger] shorter[k]).group_id,
                    shorter[k].tp,
                ) != key by {
                    assert((requests[k].group_id, requests[k].tp) != (
                        requests[n].group_id,
                        requests[n].tp,
                    ));
                }
            }
        }
        if forall|i: int|
            0 <= i < requests.len() ==> ((#[trigger] requests[i]).group_id, requests[i].tp) != key {
            assert forall|k: int| 0 <= k < shorter.len() implies (
                (#[trigger] shorter[k]).group_id,
                shorter[k].tp,
            ) != key by {
                assert((requests[k].group_id, requests[k].tp) != key);
            }
            assert((requests[n].group_id, requests[n].tp) != key);
        }
    }
}

/// The offsets that a search tries are those below the committed one, one after the other, down
/// to the start of the log, and never more than eight.
pub proof fn scans_walk_down_to_the_start(committed: i64, low: i64)
    ensures
        ({
            let n = scan_count(committed, low);
            &&& n <= 8
            &&& forall|k: int|
                0 <= k < n ==> low <= #[trigger] (committed - 1 - k) && 0 <= committed - 1 - k
            &&& n < 8 ==> committed - 1 - n < low || committed - 1 - n < 0
        }),
{
}

/// A time lag is estimated for every group that lags on a partition whose rate is known, from how
/// far the group is behind and from that rate.
pub proof fn every_lagging_offset_is_estimated(
    snapshot: SnapshotView,
    rates: Seq<(Tp, RateWindow)>,
    g: int,
    i: int,
    w: int,
    r: int,
)
    requires
        unique_keys(snapshot.watermarks),
        unique_keys(rates),
        located(snapshot, g, i, w),
        snapshot.watermarks[w].1.1 > snapshot.groups[g].offsets[i].1,
        0 <= r < rates.len(),
        rates[r].0 == snapshot.groups[g].offsets[i].0,
    ensures
        all_estimates(snapshot, rates, snapshot.groups.len()).contains(
            RateRequestView {
                group_id: snapshot.groups[g].group_id,
                tp: snapshot.groups[g].offsets[i].0,
                lag: (snapshot.watermarks[w].1.1 - snapshot.groups[g].offsets[i].1) as u64,
                window: rates[r].1,
            },
        ),
{
    lookup_finds(snapshot.watermarks, w);
    lookup_finds(rates, r);
    let f = |entry: (Tp, i64)|
        estimate_for(snapshot, rates, snapshot.groups[g].group_id, entry.0, entry.1);
    assert(group_estimates(snapshot, rates, g) == flat(snapshot.groups[g].offsets, f));
    flat_holds(snapshot.groups[g].offsets, f, i, 0);
    group_estimates_are_kept(
        snapshot,
        rates,
        snapshot.groups.len(),
        g,
        f(snapshot.groups[g].offsets[i])[0],
    );
}

proof fn group_estimates_are_kept(
    snapshot: SnapshotView,
    rates: Seq<(Tp, RateWindow)>,
    n: nat,
    g: int,
    request: RateRequestView,
)
    requires
        0 <= g < n,
        group_estimates(snapshot, rates, g).contains(request),
    ensures
        all_estimates(snapshot, rates, n).contains(request),
    decreases n,
{
    let before = all_estimates(snapshot, rates, (n - 1) as nat);
    let last = group_estimates(snapshot, rates, n - 1);
    let all = all_estimates(snapshot, rates, n);
    if g < n - 1 {
        group_estimates_are_kept(snapshot, rates, (n - 1) as nat, g, request);
        let k = choose|k: int| 0 <= k < before.len() && before[k] == request;
        assert(all[k] == request);
    } else {
        let k = choose|k: int| 0 <= k < last.len() && last[k] == request;
        assert(all[before.len() + k] == request);
    }
}

/// Every estimate is for a group that lags on a partition, by as much as it is behind, at the
/// rate of that partition.
pub proof fn every_estimate_is_for_a_lagging_offset(
    snapshot: SnapshotView,
    rates: Seq<(Tp, RateWindow)>,
    k: int,
)
    requires
        unique_keys(snapshot.watermarks),
        unique_keys(rates),
        0 <= k < all_estimates(snapshot, rates, snapshot.groups.len()).len(),
    ensures
        ({
            let request = all_estimates(snapshot, rates, snapshot.groups.len())[k];
            exists|g: int, i: int, w: int|
                {
                    &&& #[trigger] located(snapshot, g, i, w)
                    &&& request.group_id == snapshot.groups[g].group_id
                    &&& request.tp == snapshot.groups[g].offsets[i].0
                    &&& request.lag == snapshot.watermarks[w].1.1 - snapshot.groups[g].offsets[i].1
                    &&& request.lag > 0
                    &&& rates.contains((request.tp, request.window))
                }
        }),
{
    let request = all_estimates(snapshot, rates, snapshot.groups.len())[k];
    let (g, i) = estimate_origin(snapshot, rates, snapshot.groups.len(), k);
    let (tp, committed) = snapshot.groups[g].offsets[i];
    let made = estimate_for(snapshot, rates, snapshot.groups[g].group_id, tp, committed);
    assert(made.len() == 1 && made[0] == request);
    lookup_is_some(snapshot.watermarks, tp);
    lookup_is_some(rates, tp);
    let w = choose|w: int|
        0 <= w < snapshot.watermarks.len() && #[trigger] snapshot.watermarks[w].0 == tp;
    lookup_finds(snapshot.watermarks, w);
    let r = choose|r: int| 0 <= r < rates.len() && #[trigger] rates[r].0 == tp;
    lookup_finds(rates, r);
    assert(rates[r] == (request.tp, request.window));
    assert(located(snapshot, g, i, w));
}

/// Which committed offset an estimate is for.
proof fn estimate_origin(
    snapshot: SnapshotView,
    rates: Seq<(Tp, RateWindow)>,
    n: nat,
    k: int,
) -> (origin: (int, int))
    requires
        0 <= k < all_estimates(snapshot, rates, n).len(),
    ensures
        0 <= origin.0 < n,
        0 <= origin.1 < snapshot.groups[origin.0].offsets.len(),
        ({
            let group = snapshot.groups[origin.0];
            estimate_for(
                snapshot,
                rates,
                group.group_id,
                group.offsets[origin.1].0,
                group.offsets[origin.1].1,
            ) == seq![all_estimates(snapshot, rates, n)[k]]
        }),
    decreases n,
{
    let before = all_estimates(snapshot, rates, (n - 1) as nat);
    if k < before.len() {
        estimate_origin(snapshot, rates, (n - 1) as nat, k)
    } else {
        let g = n - 1;
        let f = |entry: (Tp, i64)|
            estimate_for(snapshot, rates, snapshot.groups[g].group_id, entry.0, entry.1);
        assert(group_estimates(snapshot, rates, g) == flat(snapshot.groups[g].offsets, f));
        let origin = flat_origin(snapshot.groups[g].offsets, f, k - before.len());
        assert(f(snapshot.groups[g].offsets[origin.0]) =~= seq![
            all_estimates(snapshot, rates, n)[k],
        ]);
        (g, origin.0)
    }
}

/// An estimated time lag stands for a message that came that long ago, for the group and the
/// partition that the estimate was for; without an estimate there is no timestamp.
pub proof fn estimates_are_taken_for_their_requests(
    requests: Seq<RateRequestView>,
    estimates: Seq<Option<i64>>,
    now_ms: i64,
    key: (Seq<char>, Tp),
)
    requires
        forall|a: int, b: int|
            0 <= a < b < requests.len() ==> ((#[trigger] requests[a]).group_id, requests[a].tp) != (
                (#[trigger] requests[b]).group_id,
                requests[b].tp,
            ),
        forall|i: int|
            0 <= i < requests.len() ==> ((#[trigger] estimates[i]) matches Some(millis) ==> fits(
                now_ms - millis,
            )),
    ensures
        unique_keys(estimated_stamps(requests, estimates, now_ms)),
        forall|i: int|
            0 <= i < requests.len() && ((#[trigger] requests[i]).group_id, requests[i].tp) == key
                ==> (match (
                estimates[i],
                lookup(estimated_stamps(requests, estimates, now_ms), key),
            ) {
                (Some(millis), Some(stamp)) => stamp == now_ms - millis,
                (None, None) => true,
                _ => false,
            }),
        (forall|i: int|
            0 <= i < requests.len() ==> ((#[trigger] requests[i]).group_id, requests[i].tp) != key)
            ==> lookup(estimated_stamps(requests, estimates, now_ms), key) is None,
    decreases requests.len(),
{
    if requests.len() > 0 {
        let shorter = requests.drop_last();
        let last = requests.last();
        let n = requests.len() - 1;
        assert forall|a: int, b: int| 0 <= a < b < shorter.len() implies (
            (#[trigger] shorter[a]).group_id,
            shorter[a].tp,
        ) != ((#[trigger] shorter[b]).group_id, shorter[b].tp) by {
            assert((requests[a].group_id, requests[a].tp) != (requests[b].group_id, requests[b].tp));
        }
        estimates_are_taken_for_their_requests(shorter, estimates, now_ms, key);
        let before = estimated_stamps(shorter, estimates, now_ms);
        let after = estimated_stamps(requests, estimates, now_ms);
        assert(estimates[n] matches Some(millis) ==> fits(now_ms - millis));
        if let Some(millis) = estimates[n] {
            put_reads_back(before, (last.group_id, last.tp), (now_ms - millis) as i64, key);
        }
        assert forall|i: int|
            0 <= i < requests.len() && ((#[trigger] requests[i]).group_id, requests[i].tp)
                == key implies (match (estimates[i], lookup(after, key)) {
            (Some(millis), Some(stamp)) => stamp == now_ms - millis,
            (None, None) => true,
            _ => false,
        }) by {
            if i < n {
                assert(shorter[i] == requests[i]);
                assert((requests[i].group_id, requests[i].tp) != (
                    requests[n].group_id,
                    requests[n].tp,
                ));
            } else {
                assert forall|k: int| 0 <= k < shorter.len() implies (
                    (#[trigger] shorter[k]).group_id,
                    shorter[k].tp,
                ) != key by {
                    assert((requests[k].group_id, requests[k].tp) != (
                        requests[n].group_id,
                        requests[n].tp,
                    ));
                }
            }
        }
        if forall|i: int|
            0 <= i < requests.len() ==> ((#[trigger] requests[i]).group_id, requests[i].tp) != key {
            assert forall|k: int| 0 <= k < shorter.len() implies (
                (#[trigger] shorter[k]).group_id,
                shorter[k].tp,
            ) != key by {
                assert((requests[k].group_id, requests[k].tp) != key);
            }
            assert((requests[n].group_id, requests[n].tp) != key);
        }
    }
}

/// Clearing drops exactly what was read too long ago.
pub proof fn clearing_drops_what_is_old(
    all: Map<StampKeyView, Stamp>,
    ttl: u64,
    now: u64,
    key: StampKeyView,
)
    requires
        all.contains_key(key),
        all[key].2 <= now,
    ensures
        fresh_stamps(all, ttl, now).contains_key(key) <==> now - all[key].2 < ttl,
        fresh_stamps(all, ttl, now).contains_key(key) ==> fresh_stamps(all, ttl, now)[key]
            == all[key],
{
}

} // verus!
