use vstd::prelude::*;
use vstd::arithmetic::div_mod::lemma_div_is_ordered;
use crate::errors::FastingAppError;
use crate::models::FastingEvent;
use crate::time::{Timestamp, day_number, minutes_between, hours_between};

verus! {

/// The fast has ended.
pub open spec fn is_completed(e: FastingEvent) -> bool {
    e.stop_time is Some
}

/// A completed fast does not end before it starts.
pub open spec fn is_ordered(e: FastingEvent) -> bool {
    match e.stop_time {
        Some(stop) => e.start_time.seconds <= stop.seconds,
        None => true,
    }
}

/// Every event of the sequence is ordered.
pub open spec fn all_ordered(s: Seq<FastingEvent>) -> bool {
    forall|i: int| 0 <= i < s.len() ==> is_ordered(#[trigger] s[i])
}

/// Length in whole minutes of a completed fast; an open one counts 0.
pub open spec fn duration_minutes(e: FastingEvent) -> int {
    match e.stop_time {
        Some(stop) => minutes_between(e.start_time, stop),
        None => 0,
    }
}

/// Number of completed fasts.
pub open spec fn completed_count(s: Seq<FastingEvent>) -> nat
    decreases s.len(),
{
    if s.len() == 0 {
        0
    } else {
        completed_count(s.drop_last()) + if is_completed(s.last()) {
            1nat
        } else {
            0nat
        }
    }
}

/// Sum of the lengths in minutes of the completed fasts.
pub open spec fn total_minutes(s: Seq<FastingEvent>) -> int
    decreases s.len(),
{
    if s.len() == 0 {
        0
    } else {
        total_minutes(s.drop_last()) + duration_minutes(s.last())
    }
}

/// A completed fast that starts no earlier than `from` and stops no later than `to`.
pub open spec fn in_window(e: FastingEvent, from: Timestamp, to: Timestamp) -> bool {
    match e.stop_time {
        Some(stop) => from.seconds <= e.start_time.seconds && stop.seconds <= to.seconds,
        None => false,
    }
}

/// Sum of the lengths in minutes of the completed fasts that lie wholly in `[from, to]`.
pub open spec fn window_minutes(s: Seq<FastingEvent>, from: Timestamp, to: Timestamp) -> int
    decreases s.len(),
{
    if s.len() == 0 {
        0
    } else {
        window_minutes(s.drop_last(), from, to) + if in_window(s.last(), from, to) {
            duration_minutes(s.last())
        } else {
            0
        }
    }
}

/// The events are well formed and their total length in minutes fits in an `i64`.
pub open spec fn summable(s: Seq<FastingEvent>) -> bool {
    all_ordered(s) && total_minutes(s) <= i64::MAX
}

/// Some fast of the sequence started on calendar day `d`.
pub open spec fn has_fast_on_day(s: Seq<FastingEvent>, d: int) -> bool {
    exists|i: int| 0 <= i < s.len() && day_number(#[trigger] s[i].start_time) == d
}

/// The events are ordered by start time, the most recent first.
pub open spec fn newest_first(s: Seq<FastingEvent>) -> bool {
    forall|i: int, j: int|
        0 <= i < j < s.len() ==> #[trigger] s[j].start_time.seconds <= #[trigger] s[i].start_time.seconds
}

/// Some completed fast lasted at least `hours` whole hours.
pub open spec fn reaches_hours(s: Seq<FastingEvent>, hours: int) -> bool {
    exists|i: int|
        0 <= i < s.len() && is_completed(#[trigger] s[i]) && hours_between(
            s[i].start_time,
            s[i].stop_time.unwrap(),
        ) >= hours
}

/// Each element is smaller than the next.
pub open spec fn strictly_increasing(s: Seq<u32>) -> bool {
    forall|i: int, j: int| 0 <= i < j < s.len() ==> #[trigger] s[i] < #[trigger] s[j]
}

/// The fixed checkpoint thresholds, in hours.
pub open spec fn checkpoint_thresholds() -> Seq<u32> {
    seq![4u32, 12, 14, 16, 18, 24, 36, 48, 72]
}

proof fn lemma_prefix_step(s: Seq<FastingEvent>, i: int)
    requires
        0 <= i < s.len(),
    ensures
        s.subrange(0, i + 1).drop_last() == s.subrange(0, i),
        s.subrange(0, i + 1).last() == s[i],
{
    assert(s.subrange(0, i + 1).drop_last() =~= s.subrange(0, i));
}

proof fn lemma_duration_nonneg(e: FastingEvent)
    requires
        is_ordered(e),
    ensures
        duration_minutes(e) >= 0,
{
}

/// Under ordered events every prefix total lies between 0 and the whole total,
/// and so does every window total.
proof fn lemma_total_bounds(s: Seq<FastingEvent>, i: int, from: Timestamp, to: Timestamp)
    requires
        all_ordered(s),
        0 <= i <= s.len(),
    ensures
        0 <= total_minutes(s.subrange(0, i)) <= total_minutes(s),
        0 <= window_minutes(s, from, to) <= total_minutes(s),
    decreases s.len(),
{
    if s.len() == 0 {
        assert(s.subrange(0, i) =~= s);
    } else {
        let t = s.drop_last();
        assert(all_ordered(t)) by {
            assert forall|k: int| 0 <= k < t.len() implies is_ordered(#[trigger] t[k]) by {
                assert(t[k] == s[k]);
            }
        }
        assert(is_ordered(s[s.len() - 1]));
        lemma_duration_nonneg(s.last());
        if i == s.len() {
            assert(s.subrange(0, i) =~= s);
            lemma_total_bounds(t, t.len() as int, from, to);
            assert(t.subrange(0, t.len() as int) =~= t);
        } else {
            lemma_total_bounds(t, i, from, to);
            assert(t.subrange(0, i) =~= s.subrange(0, i));
        }
    }
}

/// Sum of the minutes of the completed fasts, and their number.
fn sum_completed(events: &[FastingEvent]) -> (r: (i64, u64))
    requires
        summable(events@),
    ensures
        r.0 == total_minutes(events@),
        r.1 == completed_count(events@),
{
    let mut total: i64 = 0;
    let mut count: u64 = 0;
    let mut i: usize = 0;
    while i < events.len()
        invariant
            summable(events@),
            0 <= i <= events@.len(),
            total == total_minutes(events@.subrange(0, i as int)),
            count == completed_count(events@.subrange(0, i as int)),
            count <= i,
        decreases events@.len() - i,
    {
        let e = events[i];
        proof {
            lemma_prefix_step(events@, i as int);
            lemma_total_bounds(events@, i as int + 1, e.start_time, e.start_time);
            assert(is_ordered(events@[i as int]));
        }
        match e.stop_time {
            Some(stop) => {
                let m = e.start_time.minutes_until(stop);
                total = total + m;
                count = count + 1;
            },
            None => {},
        }
        i = i + 1;
    }
    assert(events@.subrange(0, events@.len() as int) =~= events@);
    (total, count)
}

/// Sum of the lengths in minutes of the completed fasts; 0 when there is none.
pub fn total_duration(events: &[FastingEvent]) -> (r: i64)
    requires
        summable(events@),
    ensures
        r == total_minutes(events@),
{
    let (total, _) = sum_completed(events);
    total
}

/// Mean length in minutes of the completed fasts, truncated toward zero;
/// `None` when no fast is completed.
pub fn average_duration(events: &[FastingEvent]) -> (r: Option<i64>)
    requires
        summable(events@),
    ensures
        r == (if completed_count(events@) == 0 {
            None
        } else {
            Some((total_minutes(events@) / completed_count(events@) as int) as i64)
        }),
{
    let (total, count) = sum_completed(events);
    if count == 0 {
        None
    } else {
        proof {
            lemma_total_bounds(events@, 0, events@[0].start_time, events@[0].start_time);
        }
        let avg: u64 = (total as u64) / count;
        Some(avg as i64)
    }
}

/// Sum of the lengths in minutes of the completed fasts that start at or after
/// `range_start` and stop at or before `range_end`. A fast that lies partly
/// outside the range is left out entirely.
pub fn weekly_summary(events: &[FastingEvent], range_start: Timestamp, range_end: Timestamp) -> (r:
    i64)
    requires
        summable(events@),
    ensures
        r == window_minutes(events@, range_start, range_end),
{
    let mut total: i64 = 0;
    let mut i: usize = 0;
    while i < events.len()
        invariant
            summable(events@),
            0 <= i <= events@.len(),
            total == window_minutes(events@.subrange(0, i as int), range_start, range_end),
        decreases events@.len() - i,
    {
        let e = events[i];
        proof {
            lemma_prefix_step(events@, i as int);
            lemma_total_bounds(events@, i as int + 1, range_start, range_end);
            lemma_total_bounds(events@.subrange(0, i as int + 1), i as int + 1, range_start, range_end);
            assert(events@.subrange(0, i as int + 1).subrange(0, i as int + 1) =~= events@.subrange(0, i as int + 1));
            assert(all_ordered(events@.subrange(0, i as int + 1)));
        }
        match e.stop_time {
            Some(stop) => {
                if range_start.seconds <= e.start_time.seconds && stop.seconds <= range_end.seconds {
                    let m = e.start_time.minutes_until(stop);
                    total = total + m;
                }
            },
            None => {},
        }
        i = i + 1;
    }
    assert(events@.subrange(0, events@.len() as int) =~= events@);
    total
}

/// Checks that the events can be summed: `InvalidTimestamp` when a completed
/// fast stops before it starts, else `DurationOverflow` when the total length
/// in minutes does not fit in an `i64`.
pub fn validate_events(events: &[FastingEvent]) -> (r: Result<(), FastingAppError>)
    ensures
        r is Ok <==> summable(events@),
        r == Err::<(), FastingAppError>(FastingAppError::InvalidTimestamp) <==> !all_ordered(events@),
        r == Err::<(), FastingAppError>(FastingAppError::DurationOverflow) <==> (all_ordered(events@)
            && total_minutes(events@) > i64::MAX),
{
    let mut i: usize = 0;
    while i < events.len()
        invariant
            0 <= i <= events@.len(),
            forall|k: int| 0 <= k < i ==> is_ordered(#[trigger] events@[k]),
        decreases events@.len() - i,
    {
        match events[i].stop_time {
            Some(stop) => {
                if stop.seconds < events[i].start_time.seconds {
                    return Err(FastingAppError::InvalidTimestamp);
                }
            },
            None => {},
        }
        i = i + 1;
    }
    let mut total: i64 = 0;
    let mut j: usize = 0;
    while j < events.len()
        invariant
            all_ordered(events@),
            0 <= j <= events@.len(),
            total == total_minutes(events@.subrange(0, j as int)),
        decreases events@.len() - j,
    {
        let e = events[j];
        proof {
            lemma_prefix_step(events@, j as int);
            lemma_total_bounds(events@, j as int + 1, e.start_time, e.start_time);
            assert(is_ordered(events@[j as int]));
        }
        match e.stop_time {
            Some(stop) => {
                let m = e.start_time.minutes_until(stop);
                match total.checked_add(m) {
                    Some(t) => {
                        total = t;
                    },
                    None => {
                        return Err(FastingAppError::DurationOverflow);
                    },
                }
            },
            None => {},
        }
        j = j + 1;
    }
    assert(events@.subrange(0, events@.len() as int) =~= events@);
    Ok(())
}

/// Whether some completed fast lasted at least `hours` whole hours.
fn reaches(events: &[FastingEvent], hours: u32) -> (r: bool)
    ensures
        r == reaches_hours(events@, hours as int),
{
    let mut i: usize = 0;
    while i < events.len()
        invariant
            0 <= i <= events@.len(),
            forall|k: int|
                0 <= k < i && is_completed(#[trigger] events@[k]) ==> hours_between(
                    events@[k].start_time,
                    events@[k].stop_time.unwrap(),
                ) < hours,
        decreases events@.len() - i,
    {
        match events[i].stop_time {
            Some(stop) => {
                let d: i128 = (stop.seconds as i128) - (events[i].start_time.seconds as i128);
                if d >= 0 && d / 3600 >= hours as i128 {
                    return true;
                }
                proof {
                    if d < 0 {
                        lemma_div_is_ordered(d as int, -1, 3600);
                    }
                }
            },
            None => {},
        }
        i = i + 1;
    }
    false
}

/// The thresholds, among `thresholds`, that some completed fast reached:
/// a fast reaches a threshold when its length in whole hours (rounded down)
/// is at least the threshold. The result keeps the ascending order.
pub fn checkpoints_reached(events: &[FastingEvent], thresholds: &[u32]) -> (r: Vec<u32>)
    requires
        strictly_increasing(thresholds@),
    ensures
        strictly_increasing(r@),
        forall|t: u32| #[trigger]
            r@.contains(t) <==> (thresholds@.contains(t) && reaches_hours(events@, t as int)),
{
    let mut out: Vec<u32> = Vec::new();
    let mut k: usize = 0;
    while k < thresholds.len()
        invariant
            strictly_increasing(thresholds@),
            0 <= k <= thresholds@.len(),
            strictly_increasing(out@),
            forall|x: int|
                0 <= x < out@.len() ==> exists|j: int|
                    0 <= j < k && #[trigger] thresholds@[j] == #[trigger] out@[x],
            forall|x: int|
                0 <= x < out@.len() ==> reaches_hours(events@, #[trigger] out@[x] as int),
            forall|j: int|
                0 <= j < k && reaches_hours(events@, #[trigger] thresholds@[j] as int)
                    ==> out@.contains(thresholds@[j]),
        decreases thresholds@.len() - k,
    {
        let t = thresholds[k];
        if reaches(events, t) {
            let ghost old_out = out@;
            out.push(t);
            proof {
                assert forall|a: int, b: int| 0 <= a < b < out@.len() implies #[trigger] out@[a]
                    < #[trigger] out@[b] by {
                    if b == out@.len() - 1 {
                        assert(out@[a] == old_out[a]);
                        let j = choose|j: int| 0 <= j < k && thresholds@[j] == old_out[a];
                        assert(thresholds@[j] < thresholds@[k as int]);
                    } else {
                        assert(out@[a] == old_out[a] && out@[b] == old_out[b]);
                    }
                }
                assert forall|x: int| 0 <= x < out@.len() implies exists|j: int|
                    0 <= j < k + 1 && #[trigger] thresholds@[j] == #[trigger] out@[x] by {
                    if x == out@.len() - 1 {
                        assert(thresholds@[k as int] == out@[x]);
                    } else {
                        assert(out@[x] == old_out[x]);
                        let j = choose|j: int| 0 <= j < k && thresholds@[j] == old_out[x];
                        assert(thresholds@[j] == out@[x]);
                    }
                }
                assert forall|j: int|
                    0 <= j < k + 1 && reaches_hours(events@, #[trigger] thresholds@[j] as int)
                        implies out@.contains(thresholds@[j]) by {
                    if j == k {
                        assert(out@[out@.len() - 1] == thresholds@[j]);
                    } else {
                        assert(old_out.contains(thresholds@[j]));
                        let x = choose|x: int| 0 <= x < old_out.len() && old_out[x] == thresholds@[j];
                        assert(out@[x] == old_out[x]);
                    }
                }
            }
        }
        k = k + 1;
    }
    proof {
        assert forall|t: u32| #[trigger]
            out@.contains(t) <==> (thresholds@.contains(t) && reaches_hours(events@, t as int)) by {
            if out@.contains(t) {
                let x = choose|x: int| 0 <= x < out@.len() && out@[x] == t;
                let j = choose|j: int| 0 <= j < k && #[trigger] thresholds@[j] == out@[x];
                assert(thresholds@[j] == t);
            }
            if thresholds@.contains(t) && reaches_hours(events@, t as int) {
                let j = choose|j: int| 0 <= j < thresholds@.len() && thresholds@[j] == t;
                assert(reaches_hours(events@, thresholds@[j] as int));
            }
        }
    }
    out
}

/// The fixed checkpoint thresholds in hours, ascending.
pub fn checkpoint_hours() -> (r: Vec<u32>)
    ensures
        r@ == checkpoint_thresholds(),
{
    let mut v: Vec<u32> = Vec::new();
    v.push(4);
    v.push(12);
    v.push(14);
    v.push(16);
    v.push(18);
    v.push(24);
    v.push(36);
    v.push(48);
    v.push(72);
    assert(v@ =~= checkpoint_thresholds());
    v
}

/// The checkpoint thresholds that some completed fast of the history reached,
/// ascending and without repeats.
pub fn checkpoints_achieved(events: &[FastingEvent]) -> (r: Vec<u32>)
    ensures
        strictly_increasing(r@),
        forall|t: u32| #[trigger]
            r@.contains(t) <==> (checkpoint_thresholds().contains(t) && reaches_hours(
                events@,
                t as int,
            )),
{
    let thresholds = checkpoint_hours();
    assert(strictly_increasing(thresholds@));
    checkpoints_reached(events, thresholds.as_slice())
}

/// Length of the run of consecutive calendar days, ending on day `today`, on
/// each of which at least one fast started. The events are walked from the
/// most recent; a day with several fasts counts once, and the first day
/// missing from the run ends it.
pub fn current_streak(events: &[FastingEvent], today: i64) -> (r: usize)
    requires
        newest_first(events@),
    ensures
        r <= events@.len(),
        forall|d: int| today - r < d <= today ==> #[trigger] has_fast_on_day(events@, d),
        !has_fast_on_day(events@, today - r),
{
    let mut count: usize = 0;
    let mut expected: i64 = today;
    let mut i: usize = 0;
    let mut stopped = false;
    while i < events.len() && !stopped
        invariant
            newest_first(events@),
            0 <= i <= events@.len(),
            count <= i,
            expected == today - count,
            forall|d: int| today - count < d <= today ==> #[trigger] has_fast_on_day(events@, d),
            forall|k: int|
                0 <= k < i ==> day_number(#[trigger] events@[k].start_time) > expected,
            stopped ==> i < events@.len() && day_number(events@[i as int].start_time) < expected,
        decreases (events@.len() - i) * 2 + (if stopped {
            0int
        } else {
            1int
        }),
    {
        let d = events[i].start_time.day();
        if d == expected {
            assert(day_number(events@[i as int].start_time) == today - count);
            assert(has_fast_on_day(events@, today - count));
            count = count + 1;
            expected = d - 1;
            i = i + 1;
        } else if d < expected {
            stopped = true;
        } else {
            i = i + 1;
        }
    }
    proof {
        if stopped {
            assert forall|k: int| 0 <= k < events@.len() implies day_number(
                #[trigger] events@[k].start_time,
            ) != expected by {
                if k > i {
                    lemma_div_is_ordered(
                        events@[k].start_time.seconds as int,
                        events@[i as int].start_time.seconds as int,
                        86400,
                    );
                }
            }
        }
    }
    count
}

/// The start of the first open fast in the sequence and the whole minutes
/// (truncated toward zero) from it to `now`; `None` when every fast is completed.
pub fn current_status(events: &[FastingEvent], now: Timestamp) -> (r: Option<(Timestamp, i64)>)
    ensures
        match r {
            None => forall|i: int| 0 <= i < events@.len() ==> is_completed(#[trigger] events@[i]),
            Some((start, minutes)) => exists|i: int|
                0 <= i < events@.len() && !is_completed(#[trigger] events@[i]) && (forall|j: int|
                    0 <= j < i ==> is_completed(#[trigger] events@[j])) && start
                    == events@[i].start_time && minutes == minutes_between(start, now),
        },
{
    let mut i: usize = 0;
    while i < events.len()
        invariant
            0 <= i <= events@.len(),
            forall|j: int| 0 <= j < i ==> is_completed(#[trigger] events@[j]),
        decreases events@.len() - i,
    {
        if events[i].stop_time.is_none() {
            let start = events[i].start_time;
            let minutes = start.minutes_until(now);
            assert(!is_completed(events@[i as int]));
            return Some((start, minutes));
        }
        i = i + 1;
    }
    None
}

/// A history with no completed fast has no average (the contract of
/// `average_duration` gives `None` exactly when `completed_count` is 0) and a
/// total of zero minutes.
pub proof fn lemma_no_completed_average_absent_total_zero(events: Seq<FastingEvent>)
    requires
        forall|i: int| 0 <= i < events.len() ==> !is_completed(#[trigger] events[i]),
    ensures
        completed_count(events) == 0,
        total_minutes(events) == 0,
    decreases events.len(),
{
    if events.len() > 0 {
        let t = events.drop_last();
        assert forall|i: int| 0 <= i < t.len() implies !is_completed(#[trigger] t[i]) by {
            assert(t[i] == events[i]);
        }
        assert(!is_completed(events[events.len() - 1]));
        lemma_no_completed_average_absent_total_zero(t);
    }
}

/// A fast that starts before the range does not count toward the range's
/// total, whatever its stop time: adding it to a history leaves the weekly
/// summary as it was.
pub proof fn lemma_weekly_summary_excludes_early_start(
    events: Seq<FastingEvent>,
    e: FastingEvent,
    range_start: Timestamp,
    range_end: Timestamp,
)
    requires
        e.start_time.seconds < range_start.seconds,
    ensures
        !in_window(e, range_start, range_end),
        window_minutes(events.push(e), range_start, range_end) == window_minutes(
            events,
            range_start,
            range_end,
        ),
{
    assert(events.push(e).drop_last() =~= events);
}

} // verus!
