//! What whole exchanges do: the reading of a sensor that answers in time.
//!
//! A sensor is described, for software timing, by how many off-target polls
//! each wait of the reading script sees before the awaited level comes; for
//! cycle-counter timing, by the counter stamps each wait reads. The replies
//! it gives are then fixed, and under either timing the reading completes
//! with the high-phase length of bit `i` recorded as pulse `i`.

use vstd::prelude::*;

use crate::decode::{checksum_of, decoded, encoded_pulses, lemma_decode_encoded, measurement_of, msb_bit};
use crate::error::DHT11Error;
use crate::exchange::{
    answers, initial_view, lemma_next_keeps_wf, lemma_op_facts, lemma_script_len, opening, run,
    script, elapsed_cycles,
    ExchangeKind, ExchangeView, Op, Reply, Stage, Timing, ONE_THRESHOLD_CYCLES, ONE_THRESHOLD_POLLS,
    TIMEOUT_CYCLES, TIMEOUT_US,
};
use crate::measurement::Measurement;

verus! {

/// The replies to a software-timed wait for the line to be high (or low)
/// that sees `k` off-target polls before the awaited level.
pub open spec fn await_replies<E>(high: bool, k: nat) -> Seq<Reply<E>>
    decreases k,
{
    if k == 0 {
        seq![Reply::Level { low: !high }]
    } else {
        seq![Reply::Level { low: high }, Reply::Done] + await_replies(high, (k - 1) as nat)
    }
}

/// The replies to one operation: `Done` for a drive or a pause, the poll
/// replies for a wait with `k` off-target polls.
pub open spec fn op_replies<E>(op: Op, k: nat) -> Seq<Reply<E>> {
    match op {
        Op::Await { high, .. } => await_replies(high, k),
        _ => seq![Reply::Done],
    }
}

/// The replies of a sensor to the reading script from operation `p` on,
/// where wait `q` sees `waits[q]` off-target polls.
pub open spec fn sensor_replies<E>(waits: Seq<nat>, p: nat) -> Seq<Reply<E>>
    decreases 90 - p,
{
    if p >= 90 {
        Seq::empty()
    } else {
        op_replies(script(ExchangeKind::Reading)[p as int], waits[p as int]) + sensor_replies(
            waits,
            p + 1,
        )
    }
}

/// Replies may be taken in parts.
pub proof fn lemma_run_concat<E>(s: ExchangeView<E>, a: Seq<Reply<E>>, b: Seq<Reply<E>>)
    ensures
        run(s, a + b) == run(run(s, a), b),
    decreases a.len(),
{
    if a.len() > 0 {
        assert((a + b)[0] == a[0]);
        assert((a + b).drop_first() =~= a.drop_first() + b);
        lemma_run_concat(s.next(a[0]).0, a.drop_first(), b);
    } else {
        assert(a + b =~= b);
    }
}

/// An exchange answers each reply from its state alone: the answers to two
/// runs of replies, one after the other, are the answers to the first run
/// followed by the answers to the second from where the first left off.
/// Nothing but the state and the replies enters, so readings started in the
/// same state (every reading starts in `initial_view(Reading, timing)`)
/// and given the same replies give the same answers, whatever came before.
pub proof fn lemma_answers_concat<E>(s: ExchangeView<E>, a: Seq<Reply<E>>, b: Seq<Reply<E>>)
    ensures
        answers(s, a + b) == answers(s, a) + answers(run(s, a), b),
        run(s, a + b) == run(run(s, a), b),
    decreases a.len(),
{
    lemma_run_concat(s, a, b);
    if a.len() > 0 {
        assert((a + b)[0] == a[0]);
        assert((a + b).drop_first() =~= a.drop_first() + b);
        lemma_answers_concat(s.next(a[0]).0, a.drop_first(), b);
        assert(answers(s, a + b) =~= answers(s, a) + answers(run(s, a), b));
    } else {
        assert(a + b =~= b);
        assert(answers(s, a) =~= Seq::<crate::exchange::Step>::empty());
        assert(answers(s, a) + answers(run(s, a), b) =~= answers(run(s, a), b));
    }
}

/// A single reply.
pub proof fn lemma_run_single<E>(s: ExchangeView<E>, reply: Reply<E>)
    ensures
        run(s, seq![reply]) == s.next(reply).0,
{
    assert(seq![reply].drop_first() =~= Seq::<Reply<E>>::empty());
    reveal_with_fuel(run, 2);
}

/// Any run keeps the state consistent.
pub proof fn lemma_run_wf<E>(s: ExchangeView<E>, replies: Seq<Reply<E>>)
    requires
        s.wf(),
    ensures
        run(s, replies).wf(),
        run(s, replies).kind == s.kind,
        run(s, replies).timing == s.timing,
    decreases replies.len(),
{
    if replies.len() > 0 {
        lemma_next_keeps_wf(s, replies[0]);
        lemma_run_wf(s.next(replies[0]).0, replies.drop_first());
    }
}

/// A software-timed wait that has counted `s.count` polls and sees `k` more
/// off-target polls records `s.count + k` and moves on.
proof fn lemma_await_run<E>(s: ExchangeView<E>, k: nat)
    requires
        s.wf(),
        !s.finished,
        s.timing == Timing::Software,
        s.stage == Stage::Probe,
        s.current() is Await,
        s.count + k <= TIMEOUT_US,
    ensures
        run(s, await_replies(s.target_high(), k)) == (ExchangeView { count: s.count + k, ..s }).record(
            (s.count + k) as u32,
        ).advance().0,
    decreases k,
{
    let high = s.target_high();
    if k == 0 {
        lemma_run_single(s, Reply::<E>::Level { low: !high });
        assert(ExchangeView { count: s.count + k, ..s } == s);
    } else {
        let a = seq![Reply::<E>::Level { low: high }, Reply::Done];
        assert(a =~= seq![Reply::<E>::Level { low: high }] + seq![Reply::<E>::Done]);
        lemma_run_concat(s, seq![Reply::<E>::Level { low: high }], seq![Reply::<E>::Done]);
        lemma_run_single(s, Reply::<E>::Level { low: high });
        lemma_run_single(s.next(Reply::<E>::Level { low: high }).0, Reply::<E>::Done);
        let rest = await_replies::<E>(high, (k - 1) as nat);
        lemma_run_concat(s, a, rest);
        let s1 = s.next(a[0]).0;
        lemma_next_keeps_wf(s, a[0]);
        let s2 = s1.next(Reply::Done).0;
        lemma_next_keeps_wf(s1, Reply::<E>::Done);
        assert(run(s, a) == s2);
        assert(s2 == ExchangeView { count: s.count + 1, ..s });
        lemma_await_run(s2, (k - 1) as nat);
        assert(ExchangeView { count: s2.count + (k - 1) as nat, ..s2 } == ExchangeView {
            count: s.count + k,
            ..s
        });
    }
}

/// The state of a software-timed exchange at the start of its current operation.
pub open spec fn at_op_start<E>(s: ExchangeView<E>) -> bool {
    &&& s.wf()
    &&& !s.finished
    &&& s.timing == Timing::Software
    &&& s.count == 0
    &&& s.stage == opening(s.current(), Timing::Software).0
}

/// One operation, answered by a sensor whose wait sees `k` off-target polls.
proof fn lemma_op_run<E>(s: ExchangeView<E>, k: nat)
    requires
        at_op_start(s),
        k <= TIMEOUT_US,
    ensures
        run(s, op_replies(s.current(), k)) == (ExchangeView {
            count: if s.current() is Await {
                k
            } else {
                0
            },
            ..s
        }).record(k as u32).advance().0,
{
    match s.current() {
        Op::Await { .. } => {
            lemma_await_run(s, k);
        },
        _ => {
            lemma_run_single(s, Reply::<E>::Done);
            assert(ExchangeView { count: 0, ..s } == s);
        },
    }
}

/// The rest of a reading, from the start of operation `s.pos`, answered by
/// a sensor: it completes, keeping the pulses recorded so far and recording
/// pulse `i` as the off-target polls of wait `11 + 2 * i`.
proof fn lemma_sensor_run<E>(s: ExchangeView<E>, waits: Seq<nat>)
    requires
        at_op_start(s),
        s.kind == ExchangeKind::Reading,
        waits.len() == 90,
        forall|q: int| 0 <= q < 90 ==> #[trigger] waits[q] <= TIMEOUT_US,
        forall|i: int| 0 <= i < s.captured ==> #[trigger] s.pulses[i] == waits[11 + 2 * i],
    ensures
        run(s, sensor_replies(waits, s.pos)).completed(),
        run(s, sensor_replies(waits, s.pos)).wf(),
        forall|i: int|
            0 <= i < 40 ==> #[trigger] run(s, sensor_replies(waits, s.pos)).pulses[i] == waits[11
                + 2 * i],
    decreases 90 - s.pos,
{
    lemma_script_len(s.kind);
    lemma_op_facts(s.kind, s.pos as int);
    let p = s.pos;
    let k = waits[p as int];
    let head = op_replies::<E>(s.current(), k);
    let tail = sensor_replies::<E>(waits, p + 1);
    assert(sensor_replies::<E>(waits, p) == head + tail);
    lemma_run_concat(s, head, tail);
    lemma_op_run(s, k);
    lemma_run_wf(s, head);
    let s1 = run(s, head);
    if is_kept_at(s) {
        assert(s.kind == ExchangeKind::Reading && p >= 10);
        assert(p == 11 + 2 * s.captured);
    }
    assert forall|i: int| 0 <= i < s1.captured implies #[trigger] s1.pulses[i] == waits[11 + 2 * i] by {
        if i < s.captured {
            assert(s.pulses[i] == waits[11 + 2 * i]);
        }
    }
    if p + 1 < 90 {
        lemma_op_facts(s.kind, p + 1 as int);
        lemma_sensor_run(s1, waits);
    } else {
        assert(tail =~= Seq::<Reply<E>>::empty());
    }
}

spec fn is_kept_at<E>(s: ExchangeView<E>) -> bool {
    s.current() matches Op::Await { keep: true, .. }
}

/// A sensor that answers in time is read exactly: when every wait of a
/// software-timed reading sees at most 200 off-target polls, the reading
/// completes, and pulse `i` is the length of the high phase of bit `i`.
pub proof fn lemma_reading_records_high_phases<E>(waits: Seq<nat>)
    requires
        waits.len() == 90,
        forall|q: int| 0 <= q < 90 ==> #[trigger] waits[q] <= TIMEOUT_US,
    ensures
        run(initial_view::<E>(ExchangeKind::Reading, Timing::Software), sensor_replies(waits, 0)).completed(),
        forall|i: int|
            0 <= i < 40 ==> #[trigger] run(
                initial_view::<E>(ExchangeKind::Reading, Timing::Software),
                sensor_replies(waits, 0),
            ).pulses[i] == waits[11 + 2 * i],
{
    let s = initial_view::<E>(ExchangeKind::Reading, Timing::Software);
    lemma_script_len(s.kind);
    lemma_op_facts(s.kind, 0);
    lemma_sensor_run(s, waits);
}

/// A sensor that sends five bytes is read as those bytes: when its high
/// phases last `one` polls for a one bit and `zero` polls for a zero bit
/// (zero at most 40, one above 40 and at most 200) and every other wait is
/// answered in time, the completed reading decodes to the measurement the
/// bytes describe when their checksum holds, and to a checksum mismatch
/// otherwise.
pub proof fn lemma_sensor_bytes_are_read<E>(bytes: Seq<u8>, one: u32, zero: u32, waits: Seq<nat>)
    requires
        bytes.len() == 5,
        zero <= ONE_THRESHOLD_POLLS < one <= TIMEOUT_US,
        waits.len() == 90,
        forall|q: int| 0 <= q < 90 ==> #[trigger] waits[q] <= TIMEOUT_US,
        forall|i: int|
            0 <= i < 40 ==> #[trigger] waits[11 + 2 * i] == (if msb_bit(bytes[i / 8], i % 8) {
                one
            } else {
                zero
            }),
    ensures
        run(initial_view::<E>(ExchangeKind::Reading, Timing::Software), sensor_replies(waits, 0)).completed(),
        decoded::<E>(
            run(initial_view::<E>(ExchangeKind::Reading, Timing::Software), sensor_replies(waits, 0)).pulses,
            ONE_THRESHOLD_POLLS,
        ) == (if checksum_of(bytes) == bytes[4] {
            Ok::<Measurement, DHT11Error<E>>(measurement_of(bytes))
        } else {
            Err(DHT11Error::ChecksumMismatch)
        }),
{
    let s = initial_view::<E>(ExchangeKind::Reading, Timing::Software);
    let f = run(s, sensor_replies::<E>(waits, 0));
    lemma_reading_records_high_phases::<E>(waits);
    lemma_run_wf(s, sensor_replies::<E>(waits, 0));
    assert(f.pulses =~= encoded_pulses(bytes, one, zero)) by {
        assert forall|i: int| 0 <= i < 40 implies f.pulses[i] == encoded_pulses(bytes, one, zero)[i] by {
            assert(f.pulses[i] == waits[11 + 2 * i]);
        }
    }
    lemma_decode_encoded::<E>(bytes, one, zero, ONE_THRESHOLD_POLLS);
}

/// One cycle-counted wait as a sensor answers it: the stamp that opens it,
/// the stamps of the checks after each off-target poll, and the stamp that
/// closes it.
pub struct CycleWait {
    pub start: u32,
    pub checks: Seq<u32>,
    pub end: u32,
}

/// Whether every check of a cycle-counted wait comes within the time limit.
pub open spec fn in_time(w: CycleWait) -> bool {
    forall|j: int| 0 <= j < w.checks.len() ==> elapsed_cycles(#[trigger] w.checks[j], w.start)
        <= TIMEOUT_CYCLES
}

/// The length a cycle-counted wait records.
pub open spec fn cycle_width(w: CycleWait) -> u32 {
    elapsed_cycles(w.end, w.start)
}

/// The off-target polls of a cycle-counted wait and their checks.
pub open spec fn probe_replies<E>(high: bool, checks: Seq<u32>) -> Seq<Reply<E>>
    decreases checks.len(),
{
    if checks.len() == 0 {
        Seq::empty()
    } else {
        seq![Reply::Level { low: high }, Reply::Cycles(checks[0])] + probe_replies(
            high,
            checks.drop_first(),
        )
    }
}

/// The replies to a cycle-counted wait for the line to be high (or low).
pub open spec fn cycle_await_replies<E>(high: bool, w: CycleWait) -> Seq<Reply<E>> {
    seq![Reply::Cycles(w.start)] + probe_replies(high, w.checks) + seq![
        Reply::Level { low: !high },
        Reply::Cycles(w.end),
    ]
}

/// The replies to one operation under cycle-counter timing.
pub open spec fn cycle_op_replies<E>(op: Op, w: CycleWait) -> Seq<Reply<E>> {
    match op {
        Op::Await { high, .. } => cycle_await_replies(high, w),
        _ => seq![Reply::Done],
    }
}

/// The replies of a sensor to the reading script from operation `p` on,
/// under cycle-counter timing, where wait `q` goes as `waits[q]`.
pub open spec fn cycle_sensor_replies<E>(waits: Seq<CycleWait>, p: nat) -> Seq<Reply<E>>
    decreases 90 - p,
{
    if p >= 90 {
        Seq::empty()
    } else {
        cycle_op_replies(script(ExchangeKind::Reading)[p as int], waits[p as int])
            + cycle_sensor_replies(waits, p + 1)
    }
}

/// Checks that come in time leave a waiting exchange as it was.
proof fn lemma_probe_run<E>(s: ExchangeView<E>, checks: Seq<u32>)
    requires
        s.wf(),
        !s.finished,
        s.timing == Timing::CycleCounter,
        s.stage == Stage::Probe,
        s.current() is Await,
        forall|j: int| 0 <= j < checks.len() ==> elapsed_cycles(#[trigger] checks[j], s.start)
            <= TIMEOUT_CYCLES,
    ensures
        run(s, probe_replies(s.target_high(), checks)) == s,
    decreases checks.len(),
{
    let high = s.target_high();
    if checks.len() == 0 {
        assert(probe_replies::<E>(high, checks) =~= Seq::<Reply<E>>::empty());
    } else {
        let x = Reply::<E>::Level { low: high };
        let y = Reply::<E>::Cycles(checks[0]);
        let rest = probe_replies::<E>(high, checks.drop_first());
        lemma_run_concat(s, seq![x, y], rest);
        assert(seq![x, y] =~= seq![x] + seq![y]);
        lemma_run_concat(s, seq![x], seq![y]);
        lemma_run_single(s, x);
        lemma_run_single(s.next(x).0, y);
        assert(run(s, seq![x, y]) == s);
        assert forall|j: int| 0 <= j < checks.drop_first().len() implies elapsed_cycles(
            #[trigger] checks.drop_first()[j],
            s.start,
        ) <= TIMEOUT_CYCLES by {
            assert(checks.drop_first()[j] == checks[j + 1]);
        }
        lemma_probe_run(s, checks.drop_first());
    }
}

/// The state of a cycle-counted exchange at the start of its current operation.
pub open spec fn at_cycle_op_start<E>(s: ExchangeView<E>) -> bool {
    &&& s.wf()
    &&& !s.finished
    &&& s.timing == Timing::CycleCounter
    &&& s.count == 0
    &&& s.stage == opening(s.current(), Timing::CycleCounter).0
}

/// One operation under cycle-counter timing, answered in time.
proof fn lemma_cycle_op_run<E>(s: ExchangeView<E>, w: CycleWait)
    requires
        at_cycle_op_start(s),
        in_time(w),
    ensures
        run(s, cycle_op_replies(s.current(), w)) == (ExchangeView {
            start: if s.current() is Await {
                w.start
            } else {
                s.start
            },
            stage: if s.current() is Await {
                Stage::Close
            } else {
                s.stage
            },
            ..s
        }).record(cycle_width(w)).advance().0,
{
    match s.current() {
        Op::Await { high, .. } => {
            let first = Reply::<E>::Cycles(w.start);
            let probes = probe_replies::<E>(high, w.checks);
            let last = seq![Reply::<E>::Level { low: !high }, Reply::<E>::Cycles(w.end)];
            assert(cycle_op_replies::<E>(s.current(), w) == seq![first] + probes + last);
            lemma_run_concat(s, seq![first] + probes, last);
            lemma_run_concat(s, seq![first], probes);
            lemma_run_single(s, first);
            let s1 = s.next(first).0;
            lemma_next_keeps_wf(s, first);
            assert(s1 == ExchangeView { stage: Stage::Probe, start: w.start, ..s });
            assert(s1.target_high() == high);
            lemma_probe_run(s1, w.checks);
            assert(run(s, seq![first] + probes) == s1);
            let x = Reply::<E>::Level { low: !high };
            let y = Reply::<E>::Cycles(w.end);
            assert(last =~= seq![x] + seq![y]);
            lemma_run_concat(s1, seq![x], seq![y]);
            lemma_run_single(s1, x);
            lemma_run_single(s1.next(x).0, y);
        },
        _ => {
            lemma_run_single(s, Reply::<E>::Done);
            assert(ExchangeView { start: s.start, stage: s.stage, ..s } == s);
        },
    }
}

/// The rest of a cycle-counted reading, answered in time: it completes,
/// recording pulse `i` as the length of wait `11 + 2 * i`.
proof fn lemma_cycle_sensor_run<E>(s: ExchangeView<E>, waits: Seq<CycleWait>)
    requires
        at_cycle_op_start(s),
        s.kind == ExchangeKind::Reading,
        waits.len() == 90,
        forall|q: int| 0 <= q < 90 ==> in_time(#[trigger] waits[q]),
        forall|i: int| 0 <= i < s.captured ==> #[trigger] s.pulses[i] == cycle_width(waits[11 + 2 * i]),
    ensures
        run(s, cycle_sensor_replies(waits, s.pos)).completed(),
        run(s, cycle_sensor_replies(waits, s.pos)).wf(),
        forall|i: int|
            0 <= i < 40 ==> #[trigger] run(s, cycle_sensor_replies(waits, s.pos)).pulses[i]
                == cycle_width(waits[11 + 2 * i]),
    decreases 90 - s.pos,
{
    lemma_script_len(s.kind);
    lemma_op_facts(s.kind, s.pos as int);
    let p = s.pos;
    let w = waits[p as int];
    let head = cycle_op_replies::<E>(s.current(), w);
    let tail = cycle_sensor_replies::<E>(waits, p + 1);
    assert(cycle_sensor_replies::<E>(waits, p) == head + tail);
    lemma_run_concat(s, head, tail);
    lemma_cycle_op_run(s, w);
    lemma_run_wf(s, head);
    let s1 = run(s, head);
    if is_kept_at(s) {
        assert(s.kind == ExchangeKind::Reading && p >= 10);
        assert(p == 11 + 2 * s.captured);
    }
    assert forall|i: int| 0 <= i < s1.captured implies #[trigger] s1.pulses[i] == cycle_width(
        waits[11 + 2 * i],
    ) by {
        if i < s.captured {
            assert(s.pulses[i] == cycle_width(waits[11 + 2 * i]));
        }
    }
    if p + 1 < 90 {
        lemma_op_facts(s.kind, p + 1 as int);
        lemma_cycle_sensor_run(s1, waits);
    } else {
        assert(tail =~= Seq::<Reply<E>>::empty());
    }
}

/// A sensor that answers in time is read exactly under cycle-counter timing
/// too: when no check of any wait finds more than 33600 cycles elapsed, the
/// reading completes, and pulse `i` is the cycle count of the high phase of
/// bit `i`.
pub proof fn lemma_cycle_reading_records_high_phases<E>(waits: Seq<CycleWait>)
    requires
        waits.len() == 90,
        forall|q: int| 0 <= q < 90 ==> in_time(#[trigger] waits[q]),
    ensures
        run(initial_view::<E>(ExchangeKind::Reading, Timing::CycleCounter), cycle_sensor_replies(waits, 0)).completed(),
        forall|i: int|
            0 <= i < 40 ==> #[trigger] run(
                initial_view::<E>(ExchangeKind::Reading, Timing::CycleCounter),
                cycle_sensor_replies(waits, 0),
            ).pulses[i] == cycle_width(waits[11 + 2 * i]),
{
    let s = initial_view::<E>(ExchangeKind::Reading, Timing::CycleCounter);
    lemma_script_len(s.kind);
    lemma_op_facts(s.kind, 0);
    lemma_cycle_sensor_run(s, waits);
}

/// A sensor that sends five bytes is read as those bytes under cycle-counter
/// timing: when its high phases last `one` cycles for a one bit and `zero`
/// cycles for a zero bit (zero at most 8000, one above) and every wait is
/// answered in time, the completed reading decodes to the measurement the
/// bytes describe when their checksum holds, and to a checksum mismatch
/// otherwise.
pub proof fn lemma_cycle_sensor_bytes_are_read<E>(
    bytes: Seq<u8>,
    one: u32,
    zero: u32,
    waits: Seq<CycleWait>,
)
    requires
        bytes.len() == 5,
        zero <= ONE_THRESHOLD_CYCLES < one,
        waits.len() == 90,
        forall|q: int| 0 <= q < 90 ==> in_time(#[trigger] waits[q]),
        forall|i: int|
            0 <= i < 40 ==> #[trigger] cycle_width(waits[11 + 2 * i]) == (if msb_bit(
                bytes[i / 8],
                i % 8,
            ) {
                one
            } else {
                zero
            }),
    ensures
        run(initial_view::<E>(ExchangeKind::Reading, Timing::CycleCounter), cycle_sensor_replies(waits, 0)).completed(),
        decoded::<E>(
            run(initial_view::<E>(ExchangeKind::Reading, Timing::CycleCounter), cycle_sensor_replies(waits, 0)).pulses,
            ONE_THRESHOLD_CYCLES,
        ) == (if checksum_of(bytes) == bytes[4] {
            Ok::<Measurement, DHT11Error<E>>(measurement_of(bytes))
        } else {
            Err(DHT11Error::ChecksumMismatch)
        }),
{
    let s = initial_view::<E>(ExchangeKind::Reading, Timing::CycleCounter);
    let f = run(s, cycle_sensor_replies::<E>(waits, 0));
    lemma_cycle_reading_records_high_phases::<E>(waits);
    lemma_run_wf(s, cycle_sensor_replies::<E>(waits, 0));
    assert(f.pulses =~= encoded_pulses(bytes, one, zero)) by {
        assert forall|i: int| 0 <= i < 40 implies f.pulses[i] == encoded_pulses(bytes, one, zero)[i] by {
            assert(f.pulses[i] == cycle_width(waits[11 + 2 * i]));
        }
    }
    lemma_decode_encoded::<E>(bytes, one, zero, ONE_THRESHOLD_CYCLES);
}

} // verus!
