//! The DHT11 single-wire protocol as a state machine.
//!
//! An [`Exchange`] decides, one reply at a time, what the pin and the clock
//! must do next. Whoever owns the pin performs each [`Action`] and hands the
//! outcome back as a [`Reply`]; [`Exchange::step`] answers with the next
//! action, or with the end of the exchange.
//!
//! Every exchange begins with the start signal: drive the line high, wait
//! 1 ms, pull it low for 20 ms, release it, then wait for the sensor to pull
//! it low. A reading then waits through the sensor's answer (low, high),
//! through one more low/high transition, and finally measures, for each of
//! the 40 bits, how long the line stays high.
//!
//! Waiting for a level is timed in one of two ways ([`Timing`]): by polling
//! with one-microsecond pauses and counting the polls, or by reading a cycle
//! counter.

use vstd::prelude::*;

use crate::decode::{decode_pulses, decoded};
use crate::error::DHT11Error;
use crate::measurement::Measurement;

verus! {

/// Off-target polls after which a software-timed wait gives up.
pub const TIMEOUT_US: u16 = 200;

/// Cycles after which a cycle-counter wait gives up: 200 µs at 168 MHz.
pub const TIMEOUT_CYCLES: u32 = 33600;

/// Polls above which a software-timed high pulse is a one bit.
pub const ONE_THRESHOLD_POLLS: u32 = 40;

/// Cycles above which a cycle-counted high pulse is a one bit
/// (a zero lasts about 4000 cycles, a one about 11700).
pub const ONE_THRESHOLD_CYCLES: u32 = 8000;

/// Position, in every script, of the wait for the sensor's acknowledgment
/// of the start signal.
pub const ACKNOWLEDGMENT_OP: usize = 5;

/// The pause after the start signal's acknowledgment that lets the sensor
/// settle before its first reading: with the 1 ms and 20 ms pauses of the
/// start signal, bringing up the sensor pauses 3000 ms (about 3 s) in all.
pub const SETTLE_MS: u32 = 2979;

/// Budget units of one protocol operation, an upper bound on the replies
/// that a software-timed operation can take.
pub const OP_BUDGET: u32 = 402;

/// How the length of a wait is measured.
#[derive(Debug, Clone, Copy, PartialEq, Eq)]
pub enum Timing {
    /// Poll the line, pausing one microsecond after each poll that did not
    /// see the awaited level, and count those polls.
    Software,
    /// Read a free-running cycle counter before and after the wait.
    CycleCounter,
}

/// The pulse length above which a bit is a one, for a timing.
pub open spec fn one_threshold(timing: Timing) -> u32 {
    match timing {
        Timing::Software => ONE_THRESHOLD_POLLS,
        Timing::CycleCounter => ONE_THRESHOLD_CYCLES,
    }
}

impl Timing {
    /// The pulse length above which a bit is a one.
    pub fn one_threshold(&self) -> (r: u32)
        ensures
            r == one_threshold(*self),
    {
        match self {
            Timing::Software => ONE_THRESHOLD_POLLS,
            Timing::CycleCounter => ONE_THRESHOLD_CYCLES,
        }
    }
}

/// What the owner of the pin must do next.
#[derive(Debug, Clone, Copy, PartialEq, Eq)]
pub enum Action {
    /// Drive (release) the line high; answer `Done` or `PinError`.
    SetHigh,
    /// Pull the line low; answer `Done` or `PinError`.
    SetLow,
    /// Wait this many milliseconds; answer `Done`.
    DelayMs(u32),
    /// Wait this many microseconds; answer `Done`.
    DelayUs(u32),
    /// Read whether the line is low; answer `Level` or `PinError`.
    ReadLevel,
    /// Read the cycle counter; answer `Cycles`.
    ReadCycles,
}

/// The outcome of the last action.
#[derive(Debug, Clone, Copy, PartialEq, Eq)]
pub enum Reply<E> {
    /// The action was carried out.
    Done,
    /// The line was read; `low` is true when it is low.
    Level { low: bool },
    /// The cycle counter was read.
    Cycles(u32),
    /// The pin reported an error.
    PinError(E),
}

/// What an exchange answers to a reply.
#[derive(Debug, Clone, Copy, PartialEq, Eq)]
pub enum Step {
    /// Carry out this action, then reply.
    Perform(Action),
    /// The exchange is over; its outcome is kept in the exchange.
    Finish,
}

/// Which conversation with the sensor an exchange holds.
#[derive(Debug, Clone, Copy, PartialEq, Eq)]
pub enum ExchangeKind {
    /// The start signal and the sensor's acknowledgment.
    StartSignal,
    /// The start signal, then a pause for the sensor to settle (about 3 s in all).
    StartAndSettle,
    /// A full reading of the 40 data bits.
    Reading,
}

/// One operation of the protocol.
#[derive(Debug, Clone, Copy, PartialEq, Eq)]
pub enum Op {
    /// Drive the line high or pull it low.
    Drive { high: bool },
    /// Wait a number of milliseconds.
    Pause { ms: u32 },
    /// Wait until the line is high (or low); `keep` records how long it took.
    Await { high: bool, keep: bool },
}

/// What an exchange has last asked for within its current operation.
#[derive(Debug, Clone, Copy, PartialEq, Eq)]
pub enum Stage {
    /// The drive or pause of the current operation.
    Issued,
    /// The cycle stamp that opens a wait.
    Stamp,
    /// A read of the line level.
    Probe,
    /// The one-microsecond pause after an off-target poll.
    Pace,
    /// A cycle stamp to check a wait against its time limit.
    Check,
    /// The cycle stamp that closes a wait.
    Close,
}

/// The start signal and the wait for the sensor's acknowledgment.
pub open spec fn start_signal_ops() -> Seq<Op> {
    seq![
        Op::Drive { high: true },
        Op::Pause { ms: 1 },
        Op::Drive { high: false },
        Op::Pause { ms: 20 },
        Op::Drive { high: true },
        Op::Await { high: false, keep: false },
    ]
}

/// The sensor's answer and the transition into the data bits.
pub open spec fn answer_ops() -> Seq<Op> {
    seq![
        Op::Await { high: true, keep: false },
        Op::Await { high: false, keep: false },
        Op::Await { high: true, keep: false },
        Op::Await { high: false, keep: false },
    ]
}

/// The 40 data bits: wait for the line to rise, then time how long it stays high.
pub open spec fn bit_ops() -> Seq<Op> {
    Seq::new(
        80,
        |i: int|
            if i % 2 == 0 {
                Op::Await { high: true, keep: false }
            } else {
                Op::Await { high: false, keep: true }
            },
    )
}

/// The operations of an exchange, in order.
pub open spec fn script(kind: ExchangeKind) -> Seq<Op> {
    match kind {
        ExchangeKind::StartSignal => start_signal_ops(),
        ExchangeKind::StartAndSettle => start_signal_ops().push(Op::Pause { ms: SETTLE_MS }),
        ExchangeKind::Reading => start_signal_ops() + answer_ops() + bit_ops(),
    }
}

/// Whether an operation records the length of its wait.
pub open spec fn is_kept(op: Op) -> bool {
    op matches Op::Await { keep: true, .. }
}

/// How many recording operations come before position `p` of a script.
pub open spec fn kept_before(kind: ExchangeKind, p: int) -> nat {
    match kind {
        ExchangeKind::Reading => if p <= 11 {
            0
        } else {
            ((p - 10) / 2) as nat
        },
        _ => 0,
    }
}

/// The stage an operation starts in, and the action that starts it.
pub open spec fn opening(op: Op, timing: Timing) -> (Stage, Action) {
    match op {
        Op::Drive { high } => (Stage::Issued, if high {
            Action::SetHigh
        } else {
            Action::SetLow
        }),
        Op::Pause { ms } => (Stage::Issued, Action::DelayMs(ms)),
        Op::Await { .. } => match timing {
            Timing::Software => (Stage::Probe, Action::ReadLevel),
            Timing::CycleCounter => (Stage::Stamp, Action::ReadCycles),
        },
    }
}

/// Whether a stage can occur within an operation under a timing.
pub open spec fn stage_fits(op: Op, stage: Stage, timing: Timing) -> bool {
    match op {
        Op::Await { .. } => match timing {
            Timing::Software => stage == Stage::Probe || stage == Stage::Pace,
            Timing::CycleCounter => stage == Stage::Stamp || stage == Stage::Probe || stage
                == Stage::Check || stage == Stage::Close,
        },
        _ => stage == Stage::Issued,
    }
}

/// Cycles elapsed from `start` to `now` on a 32-bit counter that wraps.
pub open spec fn elapsed_cycles(now: u32, start: u32) -> u32 {
    if now - start < 0 {
        (now - start + 0x1_0000_0000) as u32
    } else {
        (now - start) as u32
    }
}

/// Whether a reply reports the line low.
pub open spec fn reply_low<E>(reply: Reply<E>) -> bool {
    match reply {
        Reply::Level { low } => low,
        _ => false,
    }
}

/// The counter value a reply carries.
pub open spec fn reply_cycles<E>(reply: Reply<E>) -> u32 {
    match reply {
        Reply::Cycles(c) => c,
        _ => 0,
    }
}

/// The state of an exchange, as the protocol sees it.
pub struct ExchangeView<E> {
    pub kind: ExchangeKind,
    pub timing: Timing,
    /// Index of the current operation in the script.
    pub pos: nat,
    /// What was last asked for within the current operation.
    pub stage: Stage,
    /// Off-target polls so far in the current software-timed wait.
    pub count: nat,
    /// Cycle stamp at the start of the current cycle-counted wait.
    pub start: u32,
    /// The recorded wait lengths (40 slots).
    pub pulses: Seq<u32>,
    /// How many wait lengths were recorded.
    pub captured: nat,
    /// Whether the exchange is over.
    pub finished: bool,
    /// The error that ended the exchange, if one did.
    pub error: Option<DHT11Error<E>>,
}

/// The state in which an exchange begins, having asked to drive the line high.
pub open spec fn initial_view<E>(kind: ExchangeKind, timing: Timing) -> ExchangeView<E> {
    ExchangeView {
        kind,
        timing,
        pos: 0,
        stage: Stage::Issued,
        count: 0,
        start: 0,
        pulses: Seq::new(40, |i: int| 0u32),
        captured: 0,
        finished: false,
        error: None,
    }
}

/// Whether an action drives or reads the pin, and so can fail with a pin error.
pub open spec fn uses_pin(action: Action) -> bool {
    match action {
        Action::SetHigh | Action::SetLow | Action::ReadLevel => true,
        _ => false,
    }
}

impl<E> ExchangeView<E> {
    /// The operations of this exchange.
    pub open spec fn ops(self) -> Seq<Op> {
        script(self.kind)
    }

    /// The current operation.
    pub open spec fn current(self) -> Op {
        self.ops()[self.pos as int]
    }

    /// The level the current wait is for.
    pub open spec fn target_high(self) -> bool {
        match self.current() {
            Op::Await { high, .. } => high,
            _ => false,
        }
    }

    /// Whether the exchange ran through all its operations.
    pub open spec fn completed(self) -> bool {
        self.finished && self.pos == self.ops().len()
    }

    /// What the exchange ended with: success after its last operation, the
    /// error that ended it, and `NoResponse` while it has not run to its end
    /// (the sensor has not answered it through).
    pub open spec fn outcome(self) -> Result<(), DHT11Error<E>> {
        if self.completed() {
            Ok(())
        } else {
            match self.error {
                Some(e) => Err(e),
                None => Err(DHT11Error::NoResponse),
            }
        }
    }

    /// The action the exchange has asked for and waits to hear about.
    pub open spec fn pending(self) -> Action {
        match self.stage {
            Stage::Issued => opening(self.current(), self.timing).1,
            Stage::Probe => Action::ReadLevel,
            Stage::Pace => Action::DelayUs(1),
            _ => Action::ReadCycles,
        }
    }

    /// The consistency of a state that the exchange keeps.
    pub open spec fn wf(self) -> bool {
        &&& self.pulses.len() == 40
        &&& self.pos <= self.ops().len()
        &&& (self.pos == self.ops().len() ==> self.finished)
        &&& self.captured == kept_before(self.kind, self.pos as int)
        &&& self.count <= TIMEOUT_US
        &&& (self.timing == Timing::Software ==> forall|i: int|
            0 <= i < self.captured ==> #[trigger] self.pulses[i] <= TIMEOUT_US)
        &&& (!self.finished ==> stage_fits(self.current(), self.stage, self.timing))
        &&& (self.error is Some <==> (self.finished && self.pos < self.ops().len()))
        &&& (self.error == Some(DHT11Error::<E>::NoResponse) ==> self.pos == ACKNOWLEDGMENT_OP)
        &&& (self.error == Some(DHT11Error::<E>::Timeout) ==> self.pos != ACKNOWLEDGMENT_OP)
        &&& self.error != Some(DHT11Error::<E>::ChecksumMismatch)
    }

    /// Whether the exchange takes this reply: it is not over, and the reply
    /// answers the pending action (a pin error only one that uses the pin).
    pub open spec fn accepts(self, reply: Reply<E>) -> bool {
        &&& !self.finished
        &&& match reply {
            Reply::PinError(_) => uses_pin(self.pending()),
            Reply::Done => self.stage == Stage::Issued || self.stage == Stage::Pace,
            Reply::Level { .. } => self.stage == Stage::Probe,
            Reply::Cycles(_) => self.stage == Stage::Stamp || self.stage == Stage::Check
                || self.stage == Stage::Close,
        }
    }

    /// Stores the length of the current wait when the current operation keeps it.
    pub open spec fn record(self, width: u32) -> ExchangeView<E> {
        if is_kept(self.current()) {
            ExchangeView {
                pulses: self.pulses.update(self.captured as int, width),
                captured: self.captured + 1,
                ..self
            }
        } else {
            self
        }
    }

    /// Moves on to the next operation, or ends the exchange after the last one.
    pub open spec fn advance(self) -> (ExchangeView<E>, Step) {
        let p = self.pos + 1;
        if p == self.ops().len() {
            (ExchangeView { pos: p, finished: true, ..self }, Step::Finish)
        } else {
            let (stage, action) = opening(self.ops()[p as int], self.timing);
            (ExchangeView { pos: p, stage, count: 0, ..self }, Step::Perform(action))
        }
    }

    /// Ends the exchange with an error.
    pub open spec fn fail(self, e: DHT11Error<E>) -> (ExchangeView<E>, Step) {
        (ExchangeView { finished: true, error: Some(e), ..self }, Step::Finish)
    }

    /// The error a wait that ran out of time ends with: `NoResponse` when it
    /// was the wait for the sensor's acknowledgment of the start signal,
    /// `Timeout` otherwise.
    pub open spec fn timeout_error(self) -> DHT11Error<E> {
        if self.pos == ACKNOWLEDGMENT_OP {
            DHT11Error::NoResponse
        } else {
            DHT11Error::Timeout
        }
    }

    /// The protocol: the state and answer that follow a reply. A reply that
    /// the exchange does not take changes nothing, and the pending action is
    /// asked for again (or the end repeated).
    pub open spec fn next(self, reply: Reply<E>) -> (ExchangeView<E>, Step) {
        if !self.accepts(reply) {
            (self, if self.finished {
                Step::Finish
            } else {
                Step::Perform(self.pending())
            })
        } else {
            match reply {
                Reply::PinError(e) => self.fail(DHT11Error::PinError(e)),
                _ => match self.stage {
                    Stage::Issued => self.advance(),
                    Stage::Pace => (ExchangeView { stage: Stage::Probe, ..self }, Step::Perform(
                        Action::ReadLevel,
                    )),
                    Stage::Stamp => (
                        ExchangeView { stage: Stage::Probe, start: reply_cycles(reply), ..self },
                        Step::Perform(Action::ReadLevel),
                    ),
                    Stage::Probe => if reply_low(reply) != self.target_high() {
                        // the awaited level is reached
                        match self.timing {
                            Timing::Software => self.record(self.count as u32).advance(),
                            Timing::CycleCounter => (
                                ExchangeView { stage: Stage::Close, ..self },
                                Step::Perform(Action::ReadCycles),
                            ),
                        }
                    } else {
                        match self.timing {
                            Timing::Software => if self.count + 1 > TIMEOUT_US {
                                self.fail(self.timeout_error())
                            } else {
                                (
                                    ExchangeView {
                                        stage: Stage::Pace,
                                        count: self.count + 1,
                                        ..self
                                    },
                                    Step::Perform(Action::DelayUs(1)),
                                )
                            },
                            Timing::CycleCounter => (
                                ExchangeView { stage: Stage::Check, ..self },
                                Step::Perform(Action::ReadCycles),
                            ),
                        }
                    },
                    Stage::Check => if elapsed_cycles(reply_cycles(reply), self.start)
                        > TIMEOUT_CYCLES {
                        self.fail(self.timeout_error())
                    } else {
                        (
                            ExchangeView { stage: Stage::Probe, ..self },
                            Step::Perform(Action::ReadLevel),
                        )
                    },
                    Stage::Close => self.record(
                        elapsed_cycles(reply_cycles(reply), self.start),
                    ).advance(),
                },
            }
        }
    }

    /// Budget units left in the current operation (software timing).
    pub open spec fn op_budget(self) -> nat {
        match self.stage {
            Stage::Probe => (2 * (TIMEOUT_US - self.count) + 1) as nat,
            Stage::Pace => (2 * (TIMEOUT_US - self.count) + 2) as nat,
            _ => 1,
        }
    }

    /// An upper bound on the replies a software-timed exchange still takes.
    pub open spec fn budget(self) -> nat {
        if self.finished {
            0
        } else {
            ((self.ops().len() - self.pos - 1) * OP_BUDGET + self.op_budget()) as nat
        }
    }
}

/// The state after a sequence of replies.
pub open spec fn run<E>(s: ExchangeView<E>, replies: Seq<Reply<E>>) -> ExchangeView<E>
    decreases replies.len(),
{
    if replies.len() == 0 {
        s
    } else {
        run(s.next(replies[0]).0, replies.drop_first())
    }
}

/// The answers given to a sequence of replies.
pub open spec fn answers<E>(s: ExchangeView<E>, replies: Seq<Reply<E>>) -> Seq<Step>
    decreases replies.len(),
{
    if replies.len() == 0 {
        Seq::empty()
    } else {
        seq![s.next(replies[0]).1] + answers(s.next(replies[0]).0, replies.drop_first())
    }
}

/// The shape of each script: its length, and what recording operations it holds.
pub(crate) proof fn lemma_op_facts(kind: ExchangeKind, p: int)
    requires
        0 <= p < script(kind).len(),
    ensures
        kept_before(kind, p + 1) == kept_before(kind, p) + (if is_kept(script(kind)[p]) {
            1nat
        } else {
            0nat
        }),
        is_kept(script(kind)[p]) ==> kept_before(kind, p) < 40,
        kind == ExchangeKind::Reading && p >= 10 ==> script(kind)[p] == bit_ops()[p - 10],
        kind == ExchangeKind::Reading && 6 <= p < 10 ==> script(kind)[p] == answer_ops()[p - 6],
        p < 6 ==> script(kind)[p] == start_signal_ops()[p],
        kind == ExchangeKind::StartAndSettle && p == 6 ==> script(kind)[p] == (Op::Pause {
            ms: SETTLE_MS,
        }),
{
    lemma_script_len(kind);
    if kind == ExchangeKind::Reading {
        let s = start_signal_ops() + answer_ops();
        assert(s.len() == 10);
        if p >= 10 {
            assert(script(kind)[p] == bit_ops()[p - 10]);
        } else {
            assert(script(kind)[p] == s[p]);
            if p >= 6 {
                assert(s[p] == answer_ops()[p - 6]);
            } else {
                assert(s[p] == start_signal_ops()[p]);
            }
        }
    } else if kind == ExchangeKind::StartAndSettle {
        if p < 6 {
            assert(script(kind)[p] == start_signal_ops()[p]);
        }
    }
}

/// The length of each script.
pub(crate) proof fn lemma_script_len(kind: ExchangeKind)
    ensures
        script(kind).len() == match kind {
            ExchangeKind::StartSignal => 6nat,
            ExchangeKind::StartAndSettle => 7nat,
            ExchangeKind::Reading => 90nat,
        },
        kept_before(kind, script(kind).len() as int) == (if kind == ExchangeKind::Reading {
            40nat
        } else {
            0nat
        }),
{
}

/// The operation at a position of a script.
fn op_at(kind: ExchangeKind, pos: usize) -> (op: Op)
    requires
        pos < script(kind).len(),
    ensures
        op == script(kind)[pos as int],
{
    proof {
        lemma_op_facts(kind, pos as int);
    }
    if pos < 6 {
        match pos {
            0 => Op::Drive { high: true },
            1 => Op::Pause { ms: 1 },
            2 => Op::Drive { high: false },
            3 => Op::Pause { ms: 20 },
            4 => Op::Drive { high: true },
            _ => Op::Await { high: false, keep: false },
        }
    } else {
        match kind {
            ExchangeKind::Reading => if pos < 10 {
                Op::Await { high: pos % 2 == 0, keep: false }
            } else {
                let odd = (pos - 10) % 2 == 1;
                Op::Await { high: !odd, keep: odd }
            },
            _ => Op::Pause { ms: SETTLE_MS },
        }
    }
}

/// The number of operations of a script.
fn script_len(kind: ExchangeKind) -> (n: usize)
    ensures
        n == script(kind).len(),
{
    proof {
        lemma_script_len(kind);
    }
    match kind {
        ExchangeKind::StartSignal => 6,
        ExchangeKind::StartAndSettle => 7,
        ExchangeKind::Reading => 90,
    }
}

/// The stage an operation starts in and the action that starts it.
fn opening_of(op: Op, timing: Timing) -> (r: (Stage, Action))
    ensures
        r == opening(op, timing),
{
    match op {
        Op::Drive { high } => (Stage::Issued, if high {
            Action::SetHigh
        } else {
            Action::SetLow
        }),
        Op::Pause { ms } => (Stage::Issued, Action::DelayMs(ms)),
        Op::Await { .. } => match timing {
            Timing::Software => (Stage::Probe, Action::ReadLevel),
            Timing::CycleCounter => (Stage::Stamp, Action::ReadCycles),
        },
    }
}

/// The protocol keeps its state consistent and its kind and timing fixed;
/// the exchange is over exactly when it answers `Finish`; under software
/// timing every reply it takes uses up budget.
pub(crate) proof fn lemma_next_keeps_wf<E>(s: ExchangeView<E>, reply: Reply<E>)
    requires
        s.wf(),
    ensures
        s.next(reply).0.wf(),
        s.next(reply).0.kind == s.kind,
        s.next(reply).0.timing == s.timing,
        s.next(reply).0.finished <==> s.next(reply).1 is Finish,
        s.accepts(reply) && s.timing == Timing::Software ==> s.next(reply).0.budget()
            < s.budget(),
        !s.accepts(reply) ==> s.next(reply).0 == s,
{
    lemma_script_len(s.kind);
    if s.pos < s.ops().len() {
        lemma_op_facts(s.kind, s.pos as int);
    }
    if s.accepts(reply) {
        match reply {
            Reply::PinError(_) => {},
            _ => {
                let r = s.record(s.count as u32);
                if s.pos + 1 < s.ops().len() {
                    lemma_op_facts(s.kind, s.pos + 1 as int);
                }
                assert forall|i: int|
                    s.timing == Timing::Software && 0 <= i < r.captured implies #[trigger] r.pulses[i]
                    <= TIMEOUT_US by {
                    if i < s.captured {
                        assert(s.pulses[i] <= TIMEOUT_US);
                    }
                }
            },
        }
    }
}

/// The part of an exchange's state that moves as it runs.
#[derive(Clone, Copy)]
struct Cursor {
    pos: usize,
    stage: Stage,
    count: u16,
    start: u32,
    pulses: [u32; 40],
    captured: usize,
    finished: bool,
}

/// The protocol state of an exchange with the given moving part.
closed spec fn view_of<E>(
    kind: ExchangeKind,
    timing: Timing,
    cur: Cursor,
    error: Option<DHT11Error<E>>,
) -> ExchangeView<E> {
    ExchangeView {
        kind,
        timing,
        pos: cur.pos as nat,
        stage: cur.stage,
        count: cur.count as nat,
        start: cur.start,
        pulses: cur.pulses@,
        captured: cur.captured as nat,
        finished: cur.finished,
        error,
    }
}

/// Records the length of the current wait when it is kept, and moves on.
fn complete_op<E>(cur: &mut Cursor, kind: ExchangeKind, timing: Timing, width: u32) -> (r: Step)
    requires
        view_of::<E>(kind, timing, *old(cur), None).wf(),
        !old(cur).finished,
    ensures
        (view_of::<E>(kind, timing, *final(cur), None), r) == view_of::<E>(
            kind,
            timing,
            *old(cur),
            None,
        ).record(width).advance(),
{
    proof {
        lemma_script_len(kind);
        lemma_op_facts(kind, cur.pos as int);
    }
    match op_at(kind, cur.pos) {
        Op::Await { keep: true, .. } => {
            cur.pulses[cur.captured] = width;
            cur.captured = cur.captured + 1;
        },
        _ => {},
    }
    let p = cur.pos + 1;
    if p == script_len(kind) {
        cur.pos = p;
        cur.finished = true;
        Step::Finish
    } else {
        let (stage, action) = opening_of(op_at(kind, p), timing);
        cur.pos = p;
        cur.stage = stage;
        cur.count = 0;
        Step::Perform(action)
    }
}

/// A conversation with the sensor in progress.
pub struct Exchange<E> {
    kind: ExchangeKind,
    timing: Timing,
    cur: Cursor,
    error: Option<DHT11Error<E>>,
}

impl<E> View for Exchange<E> {
    type V = ExchangeView<E>;

    closed spec fn view(&self) -> ExchangeView<E> {
        view_of(self.kind, self.timing, self.cur, self.error)
    }
}

impl<E> Exchange<E> {
    /// Every exchange keeps its protocol state consistent.
    #[verifier::type_invariant]
    closed spec fn consistent(self) -> bool {
        self@.wf()
    }

    /// Begins an exchange of the given kind, asking first to drive the line high.
    pub(crate) fn start(kind: ExchangeKind, timing: Timing) -> (r: (Exchange<E>, Action))
        ensures
            r.0@ == initial_view::<E>(kind, timing),
            r.0@.wf(),
            r.1 == Action::SetHigh,
            r.1 == r.0@.pending(),
            r.0@.budget() <= OP_BUDGET * script(kind).len(),
    {
        proof {
            lemma_script_len(kind);
            lemma_op_facts(kind, 0);
        }
        let cur = Cursor {
            pos: 0,
            stage: Stage::Issued,
            count: 0,
            start: 0,
            pulses: [0u32; 40],
            captured: 0,
            finished: false,
        };
        assert(cur.pulses@ =~= Seq::new(40, |i: int| 0u32));
        (Exchange { kind, timing, cur, error: None }, Action::SetHigh)
    }

    /// The kind of the exchange.
    pub fn kind(&self) -> (r: ExchangeKind)
        ensures
            r == self@.kind,
    {
        self.kind
    }

    /// Whether the exchange is over.
    pub fn is_finished(&self) -> (r: bool)
        ensures
            r == self@.finished,
    {
        self.cur.finished
    }

    /// Whether the exchange ran through all its operations.
    pub fn is_completed(&self) -> (r: bool)
        ensures
            r == self@.completed(),
    {
        proof {
            use_type_invariant(self);
            lemma_script_len(self.kind);
        }
        self.cur.finished && self.cur.pos == script_len(self.kind)
    }

    /// The recorded wait lengths, in the order they were measured.
    pub fn pulses(&self) -> (r: [u32; 40])
        ensures
            r@ == self@.pulses,
    {
        self.cur.pulses
    }

    /// The action the exchange waits to hear about.
    fn pending(&self) -> (r: Action)
        requires
            !self@.finished,
        ensures
            r == self@.pending(),
    {
        proof {
            use_type_invariant(self);
        }
        match self.cur.stage {
            Stage::Issued => opening_of(op_at(self.kind, self.cur.pos), self.timing).1,
            Stage::Probe => Action::ReadLevel,
            Stage::Pace => Action::DelayUs(1),
            _ => Action::ReadCycles,
        }
    }

    /// Whether [`Exchange::step`] takes this reply: the exchange is not over,
    /// and the reply answers the action it asked for.
    pub fn accepts(&self, reply: &Reply<E>) -> (r: bool)
        ensures
            r == self@.accepts(*reply),
    {
        if self.cur.finished {
            return false;
        }
        match reply {
            Reply::PinError(_) => match self.pending() {
                Action::SetHigh | Action::SetLow | Action::ReadLevel => true,
                _ => false,
            },
            Reply::Done => match self.cur.stage {
                Stage::Issued | Stage::Pace => true,
                _ => false,
            },
            Reply::Level { .. } => match self.cur.stage {
                Stage::Probe => true,
                _ => false,
            },
            Reply::Cycles(_) => match self.cur.stage {
                Stage::Stamp | Stage::Check | Stage::Close => true,
                _ => false,
            },
        }
    }

    /// Takes the outcome of the last action and decides what comes next.
    ///
    /// The new state and the answer are exactly those of the protocol
    /// ([`ExchangeView::next`]). A pin error ends the exchange with that
    /// error. A wait that runs out of time (201 off-target polls, or more
    /// than 33600 cycles) ends it with `NoResponse` when it is the wait for
    /// the sensor's acknowledgment, with `Timeout` otherwise. After the last
    /// operation the exchange ends successfully. A reply that does not answer
    /// the pending action changes nothing.
    pub fn step(&mut self, reply: Reply<E>) -> (r: Step)
        ensures
            (final(self)@, r) == old(self)@.next(reply),
            final(self)@.wf(),
            final(self)@.kind == old(self)@.kind,
            final(self)@.timing == old(self)@.timing,
            final(self)@.finished <==> r is Finish,
            !old(self)@.accepts(reply) ==> final(self)@ == old(self)@,
            old(self)@.accepts(reply) && old(self)@.timing == Timing::Software
                ==> final(self)@.budget() < old(self)@.budget(),
            final(self)@.error == Some(DHT11Error::<E>::NoResponse) ==> final(self)@.pos
                == ACKNOWLEDGMENT_OP,
            final(self)@.error == Some(DHT11Error::<E>::Timeout) ==> final(self)@.pos
                != ACKNOWLEDGMENT_OP,
    {
        proof {
            use_type_invariant(&*self);
            lemma_next_keeps_wf(self@, reply);
            lemma_script_len(self.kind);
            if self.cur.pos < script_len_spec(self.kind) {
                lemma_op_facts(self.kind, self.cur.pos as int);
            }
        }
        if !self.accepts(&reply) {
            return if self.cur.finished {
                Step::Finish
            } else {
                Step::Perform(self.pending())
            };
        }
        let kind = self.kind;
        let timing = self.timing;
        let mut cur = self.cur;
        let mut error: Option<DHT11Error<E>> = None;
        let timeout = if cur.pos == ACKNOWLEDGMENT_OP {
            DHT11Error::NoResponse
        } else {
            DHT11Error::Timeout
        };
        let r = match reply {
            Reply::PinError(e) => {
                cur.finished = true;
                error = Some(DHT11Error::PinError(e));
                Step::Finish
            },
            Reply::Done => match cur.stage {
                Stage::Issued => complete_op::<E>(&mut cur, kind, timing, 0),
                _ => {
                    cur.stage = Stage::Probe;
                    Step::Perform(Action::ReadLevel)
                },
            },
            Reply::Level { low } => {
                let target = match op_at(kind, cur.pos) {
                    Op::Await { high, .. } => high,
                    _ => false,
                };
                if low != target {
                    match timing {
                        Timing::Software => {
                            let width = cur.count as u32;
                            complete_op::<E>(&mut cur, kind, timing, width)
                        },
                        Timing::CycleCounter => {
                            cur.stage = Stage::Close;
                            Step::Perform(Action::ReadCycles)
                        },
                    }
                } else {
                    match timing {
                        Timing::Software => if cur.count + 1 > TIMEOUT_US {
                            cur.finished = true;
                            error = Some(timeout);
                            Step::Finish
                        } else {
                            cur.count = cur.count + 1;
                            cur.stage = Stage::Pace;
                            Step::Perform(Action::DelayUs(1))
                        },
                        Timing::CycleCounter => {
                            cur.stage = Stage::Check;
                            Step::Perform(Action::ReadCycles)
                        },
                    }
                }
            },
            Reply::Cycles(now) => match cur.stage {
                Stage::Stamp => {
                    cur.start = now;
                    cur.stage = Stage::Probe;
                    Step::Perform(Action::ReadLevel)
                },
                Stage::Check => if now.wrapping_sub(cur.start) > TIMEOUT_CYCLES {
                    cur.finished = true;
                    error = Some(timeout);
                    Step::Finish
                } else {
                    cur.stage = Stage::Probe;
                    Step::Perform(Action::ReadLevel)
                },
                _ => {
                    let width = now.wrapping_sub(cur.start);
                    complete_op::<E>(&mut cur, kind, timing, width)
                },
            },
        };
        *self = Exchange { kind, timing, cur, error };
        r
    }

    /// What the exchange ended with ([`ExchangeView::outcome`]).
    pub fn into_outcome(self) -> (r: Result<(), DHT11Error<E>>)
        ensures
            r == self@.outcome(),
    {
        if self.is_completed() {
            Ok(())
        } else {
            match self.error {
                Some(e) => Err(e),
                None => Err(DHT11Error::NoResponse),
            }
        }
    }

    /// Decodes the recorded wait lengths as a frame of 40 bits, with the
    /// one-bit threshold of the exchange's timing.
    pub fn measurement(&self) -> (r: Result<Measurement, DHT11Error<E>>)
        ensures
            r == decoded::<E>(self@.pulses, one_threshold(self@.timing)),
    {
        decode_pulses(&self.cur.pulses, self.timing.one_threshold())
    }
}

/// The number of operations of a script.
spec fn script_len_spec(kind: ExchangeKind) -> nat {
    script(kind).len()
}

/// A reading that ran through all its operations has recorded all 40 bit
/// pulses; under software timing none of them exceeds the 200-poll limit.
pub proof fn lemma_completed_reading_has_all_bits<E>(s: ExchangeView<E>)
    requires
        s.wf(),
        s.completed(),
        s.kind == ExchangeKind::Reading,
    ensures
        s.captured == 40,
        s.timing == Timing::Software ==> forall|i: int|
            0 <= i < 40 ==> #[trigger] s.pulses[i] <= TIMEOUT_US,
{
    lemma_script_len(s.kind);
}

/// How a start-and-settle exchange `b` stands to a start-signal exchange `a`
/// that got the same replies: the same state until `a` has completed; after
/// that, `b` is waiting through its settle pause or has completed too.
pub open spec fn settles_after<E>(a: ExchangeView<E>, b: ExchangeView<E>) -> bool {
    &&& a.kind == ExchangeKind::StartSignal
    &&& a.wf()
    &&& if a.completed() {
        ||| b == ExchangeView {
            kind: ExchangeKind::StartAndSettle,
            stage: Stage::Issued,
            count: 0,
            finished: false,
            ..a
        }
        ||| b == ExchangeView {
            kind: ExchangeKind::StartAndSettle,
            pos: 7,
            stage: Stage::Issued,
            count: 0,
            finished: true,
            ..a
        }
    } else {
        b == ExchangeView { kind: ExchangeKind::StartAndSettle, ..a }
    }
}

/// One reply keeps the relation: the two exchanges give the same answer,
/// except that where the start signal completes, the start-and-settle
/// exchange asks for its settle pause instead.
pub proof fn lemma_settle_step<E>(a: ExchangeView<E>, b: ExchangeView<E>, reply: Reply<E>)
    requires
        settles_after(a, b),
    ensures
        settles_after(a.next(reply).0, b.next(reply).0),
        !a.completed() && !a.next(reply).0.completed() ==> b.next(reply).1 == a.next(reply).1,
        !a.completed() && a.next(reply).0.completed() ==> b.next(reply).1 == Step::Perform(
            Action::DelayMs(SETTLE_MS),
        ),
{
    lemma_next_keeps_wf(a, reply);
    lemma_script_len(a.kind);
    lemma_script_len(b.kind);
    if a.pos < 6 {
        lemma_op_facts(a.kind, a.pos as int);
        lemma_op_facts(b.kind, a.pos as int);
        if a.pos + 1 < 6 {
            lemma_op_facts(a.kind, a.pos + 1 as int);
            lemma_op_facts(b.kind, a.pos + 1 as int);
        }
    }
    lemma_op_facts(b.kind, 6);
}

/// Initializing with the settle behaves as the plain start signal followed
/// by one pause of `SETTLE_MS` (2979 ms, 3000 ms of pauses in all): given the same replies, it gives the same
/// answers until the start signal completes, ends with the same error when
/// the start signal fails, and after a completed start signal only pauses.
pub proof fn lemma_settle_is_start_then_pause<E>(timing: Timing, replies: Seq<Reply<E>>)
    ensures
        settles_after(
            run(initial_view::<E>(ExchangeKind::StartSignal, timing), replies),
            run(initial_view::<E>(ExchangeKind::StartAndSettle, timing), replies),
        ),
{
    let a = initial_view::<E>(ExchangeKind::StartSignal, timing);
    let b = initial_view::<E>(ExchangeKind::StartAndSettle, timing);
    lemma_script_len(a.kind);
    lemma_op_facts(a.kind, 0);
    assert(b == ExchangeView { kind: ExchangeKind::StartAndSettle, ..a });
    lemma_settle_runs(a, b, replies);
}

/// The relation of [`settles_after`] holds after any sequence of replies.
pub proof fn lemma_settle_runs<E>(a: ExchangeView<E>, b: ExchangeView<E>, replies: Seq<Reply<E>>)
    requires
        settles_after(a, b),
    ensures
        settles_after(run(a, replies), run(b, replies)),
    decreases replies.len(),
{
    if replies.len() > 0 {
        lemma_settle_step(a, b, replies[0]);
        lemma_settle_runs(a.next(replies[0]).0, b.next(replies[0]).0, replies.drop_first());
    }
}

/// The start signal is the same for every exchange and every timing: an
/// exchange first asks to drive the line high, and answers the next five
/// `Done` replies with a 1 ms pause, pulling the line low, a 20 ms pause,
/// releasing it high, and the first read of the wait for the sensor's
/// acknowledgment (a level read under software timing, a cycle stamp under
/// the cycle counter).
pub proof fn lemma_start_signal_is_fixed<E>(kind: ExchangeKind, timing: Timing)
    ensures
        initial_view::<E>(kind, timing).pending() == Action::SetHigh,
        answers(
            initial_view::<E>(kind, timing),
            seq![Reply::<E>::Done, Reply::Done, Reply::Done, Reply::Done, Reply::Done],
        ) == seq![
            Step::Perform(Action::DelayMs(1)),
            Step::Perform(Action::SetLow),
            Step::Perform(Action::DelayMs(20)),
            Step::Perform(Action::SetHigh),
            Step::Perform(
                if timing == Timing::Software {
                    Action::ReadLevel
                } else {
                    Action::ReadCycles
                },
            ),
        ],
{
    lemma_script_len(kind);
    lemma_op_facts(kind, 0);
    lemma_op_facts(kind, 1);
    lemma_op_facts(kind, 2);
    lemma_op_facts(kind, 3);
    lemma_op_facts(kind, 4);
    lemma_op_facts(kind, 5);
    let d = Reply::<E>::Done;
    let r = seq![d, d, d, d, d];
    let s0 = initial_view::<E>(kind, timing);
    let s1 = s0.next(d).0;
    let s2 = s1.next(d).0;
    let s3 = s2.next(d).0;
    let s4 = s3.next(d).0;
    let s5 = s4.next(d).0;
    assert(s0.next(d).1 == Step::Perform(Action::DelayMs(1)));
    assert(s1.next(d).1 == Step::Perform(Action::SetLow));
    assert(s2.next(d).1 == Step::Perform(Action::DelayMs(20)));
    assert(s3.next(d).1 == Step::Perform(Action::SetHigh));
    assert(r.drop_first() =~= seq![d, d, d, d]);
    assert(seq![d, d, d, d].drop_first() =~= seq![d, d, d]);
    assert(seq![d, d, d].drop_first() =~= seq![d, d]);
    assert(seq![d, d].drop_first() =~= seq![d]);
    assert(seq![d].drop_first() =~= Seq::<Reply<E>>::empty());
    reveal_with_fuel(answers, 6);
    assert(answers(s0, r) =~= seq![
        s0.next(d).1,
        s1.next(d).1,
        s2.next(d).1,
        s3.next(d).1,
        s4.next(d).1,
    ]);
}

/// Software-timed polling. A poll that finds the line away from the awaited
/// level (low while high is awaited, or high while low is awaited) is
/// answered with a one-microsecond pause and counted, until the 201st such
/// poll, which ends the exchange: with `NoResponse` in the wait for the
/// acknowledgment, with `Timeout` in any other. A poll that finds the
/// awaited level moves on to the next operation, recording the polls
/// counted when the wait is one that is kept.
pub proof fn lemma_software_poll<E>(s: ExchangeView<E>, low: bool, high: bool, keep: bool)
    requires
        s.wf(),
        !s.finished,
        s.timing == Timing::Software,
        s.stage == Stage::Probe,
        s.current() == (Op::Await { high, keep }),
    ensures
        low == high && s.count < 200 ==> s.next(Reply::Level { low }).1 == Step::Perform(
            Action::DelayUs(1),
        ) && s.next(Reply::Level { low }).0.count == s.count + 1 && s.next(
            Reply::Level { low },
        ).0.pos == s.pos && !s.next(Reply::Level { low }).0.finished,
        low == high && s.count >= 200 ==> s.next(Reply::Level { low }).1 == Step::Finish && s.next(
            Reply::Level { low },
        ).0.error == Some(
            if s.pos == 5 {
                DHT11Error::<E>::NoResponse
            } else {
                DHT11Error::<E>::Timeout
            },
        ),
        low != high ==> s.next(Reply::Level { low }).0.pos == s.pos + 1,
        low != high && keep ==> s.next(Reply::Level { low }).0.captured == s.captured + 1 && s.next(
            Reply::Level { low },
        ).0.pulses[s.captured as int] == s.count,
        low != high && !keep ==> s.next(Reply::Level { low }).0.captured == s.captured && s.next(
            Reply::Level { low },
        ).0.pulses == s.pulses,
{
    lemma_script_len(s.kind);
    lemma_op_facts(s.kind, s.pos as int);
}

/// After the one-microsecond pause of a software-timed wait, the line is
/// polled again, with the count of off-target polls kept.
pub proof fn lemma_software_pause_then_poll<E>(s: ExchangeView<E>)
    requires
        s.wf(),
        !s.finished,
        s.timing == Timing::Software,
        s.stage == Stage::Pace,
    ensures
        s.pending() == Action::DelayUs(1),
        s.next(Reply::Done).1 == Step::Perform(Action::ReadLevel),
        s.next(Reply::Done).0.count == s.count,
        s.next(Reply::Done).0.pos == s.pos,
        s.next(Reply::Done).0.stage == Stage::Probe,
{
}

/// Cycle-counted waits open with a stamp of the counter and then poll the
/// line; every poll is followed by a stamp: a check after an off-target
/// poll, the closing stamp once the awaited level is seen.
pub proof fn lemma_cycle_poll<E>(s: ExchangeView<E>, low: bool, high: bool, keep: bool, t: u32)
    requires
        s.wf(),
        !s.finished,
        s.timing == Timing::CycleCounter,
        s.current() == (Op::Await { high, keep }),
    ensures
        s.stage == Stage::Stamp ==> s.next(Reply::Cycles(t)).1 == Step::Perform(Action::ReadLevel)
            && s.next(Reply::Cycles(t)).0.start == t && s.next(Reply::Cycles(t)).0.pos == s.pos,
        s.stage == Stage::Probe ==> s.next(Reply::Level { low }).1 == Step::Perform(
            Action::ReadCycles,
        ) && s.next(Reply::Level { low }).0.stage == (if low == high {
            Stage::Check
        } else {
            Stage::Close
        }) && s.next(Reply::Level { low }).0.start == s.start,
{
}

/// A cycle-counted check ends the exchange when more than 33600 cycles have
/// passed since the wait opened (counting across a wrap of the 32-bit
/// counter): with `NoResponse` in the wait for the acknowledgment, with
/// `Timeout` in any other; otherwise the line is polled again. The closing
/// stamp records the cycles passed when the wait is one that is kept, and
/// moves on to the next operation.
pub proof fn lemma_cycle_stamps<E>(s: ExchangeView<E>, now: u32, keep: bool, high: bool)
    requires
        s.wf(),
        !s.finished,
        s.timing == Timing::CycleCounter,
        s.current() == (Op::Await { high, keep }),
    ensures
        ({
            let passed = if now >= s.start {
                now - s.start
            } else {
                now + 0x1_0000_0000 - s.start
            };
            &&& (s.stage == Stage::Check && passed > 33600 ==> s.next(Reply::Cycles(now)).1
                == Step::Finish && s.next(Reply::Cycles(now)).0.error == Some(
                if s.pos == 5 {
                    DHT11Error::<E>::NoResponse
                } else {
                    DHT11Error::<E>::Timeout
                },
            ))
            &&& (s.stage == Stage::Check && passed <= 33600 ==> s.next(Reply::Cycles(now)).1
                == Step::Perform(Action::ReadLevel) && s.next(Reply::Cycles(now)).0.pos == s.pos)
            &&& (s.stage == Stage::Close ==> s.next(Reply::Cycles(now)).0.pos == s.pos + 1)
            &&& (s.stage == Stage::Close && keep ==> s.next(Reply::Cycles(now)).0.captured
                == s.captured + 1 && s.next(Reply::Cycles(now)).0.pulses[s.captured as int]
                == passed)
        }),
{
    lemma_script_len(s.kind);
    lemma_op_facts(s.kind, s.pos as int);
}

/// The protocol's numbers: a poll-timed bit is a one above 40 polls and a
/// cycle-counted one above 8000 cycles; a wait gives up after 200 polls or
/// 33600 cycles; bringing up the sensor with its settle pause pauses
/// 3000 ms in all.
pub proof fn lemma_protocol_numbers()
    ensures
        one_threshold(Timing::Software) == 40,
        one_threshold(Timing::CycleCounter) == 8000,
        TIMEOUT_US == 200,
        TIMEOUT_CYCLES == 33600,
        1 + 20 + SETTLE_MS == 3000,
        ACKNOWLEDGMENT_OP == 5,
{
}

/// The reading script, operation by operation: the start signal (drive
/// high, 1 ms, pull low, 20 ms, release high, wait for low), the sensor's
/// answer and the transition into the data (wait for high, low, high, low),
/// and for each bit `i` a wait for the line to rise (operation `10 + 2i`)
/// followed by the timed wait for it to fall again (operation `11 + 2i`),
/// so that what is recorded for bit `i` is the length of its high phase.
pub proof fn lemma_reading_script_shape()
    ensures
        script(ExchangeKind::Reading).len() == 90,
        script(ExchangeKind::Reading)[0] == (Op::Drive { high: true }),
        script(ExchangeKind::Reading)[1] == (Op::Pause { ms: 1 }),
        script(ExchangeKind::Reading)[2] == (Op::Drive { high: false }),
        script(ExchangeKind::Reading)[3] == (Op::Pause { ms: 20 }),
        script(ExchangeKind::Reading)[4] == (Op::Drive { high: true }),
        script(ExchangeKind::Reading)[5] == (Op::Await { high: false, keep: false }),
        script(ExchangeKind::Reading)[6] == (Op::Await { high: true, keep: false }),
        script(ExchangeKind::Reading)[7] == (Op::Await { high: false, keep: false }),
        script(ExchangeKind::Reading)[8] == (Op::Await { high: true, keep: false }),
        script(ExchangeKind::Reading)[9] == (Op::Await { high: false, keep: false }),
        forall|i: int|
            0 <= i < 40 ==> #[trigger] script(ExchangeKind::Reading)[10 + 2 * i] == (Op::Await {
                high: true,
                keep: false,
            }) && script(ExchangeKind::Reading)[11 + 2 * i] == (Op::Await { high: false, keep: true }),
{
    let k = ExchangeKind::Reading;
    lemma_script_len(k);
    lemma_op_facts(k, 0);
    lemma_op_facts(k, 1);
    lemma_op_facts(k, 2);
    lemma_op_facts(k, 3);
    lemma_op_facts(k, 4);
    lemma_op_facts(k, 5);
    lemma_op_facts(k, 6);
    lemma_op_facts(k, 7);
    lemma_op_facts(k, 8);
    lemma_op_facts(k, 9);
    assert forall|i: int| 0 <= i < 40 implies #[trigger] script(k)[10 + 2 * i] == (Op::Await {
        high: true,
        keep: false,
    }) && script(k)[11 + 2 * i] == (Op::Await { high: false, keep: true }) by {
        lemma_op_facts(k, 10 + 2 * i);
        lemma_op_facts(k, 11 + 2 * i);
    }
}

/// Pin errors: a pin error in answer to driving or reading the line ends
/// the exchange with that error; a delay or a counter read cannot fail, so
/// a pin error in answer to one changes nothing and the action is asked for
/// again.
pub proof fn lemma_pin_errors<E>(s: ExchangeView<E>, e: E)
    requires
        s.wf(),
        !s.finished,
    ensures
        (s.pending() == Action::SetHigh || s.pending() == Action::SetLow || s.pending()
            == Action::ReadLevel) ==> s.next(Reply::PinError(e)).1 == Step::Finish && s.next(
            Reply::PinError(e),
        ).0.error == Some(DHT11Error::PinError(e)),
        (s.pending() is DelayMs || s.pending() is DelayUs || s.pending() == Action::ReadCycles)
            ==> s.next(Reply::PinError(e)).0 == s && s.next(Reply::PinError(e)).1 == Step::Perform(
            s.pending(),
        ),
{
}

/// A reply that does not answer the pending action changes nothing, and
/// the action is asked for again: a level or a counter value after a drive
/// or a delay, a `Done` or a counter value after a level read, a `Done` or
/// a level after a counter read. A finished exchange keeps answering that
/// it is over.
pub proof fn lemma_unanswered_actions_repeat<E>(s: ExchangeView<E>, reply: Reply<E>)
    requires
        s.wf(),
    ensures
        s.finished ==> s.next(reply).0 == s && s.next(reply).1 == Step::Finish,
        !s.finished && (s.pending() == Action::SetHigh || s.pending() == Action::SetLow
            || s.pending() is DelayMs || s.pending() is DelayUs) && (reply is Level
            || reply is Cycles) ==> s.next(reply).0 == s && s.next(reply).1 == Step::Perform(
            s.pending(),
        ),
        !s.finished && s.pending() == Action::ReadLevel && (reply is Done || reply is Cycles)
            ==> s.next(reply).0 == s && s.next(reply).1 == Step::Perform(Action::ReadLevel),
        !s.finished && s.pending() == Action::ReadCycles && (reply is Done || reply is Level)
            ==> s.next(reply).0 == s && s.next(reply).1 == Step::Perform(Action::ReadCycles),
{
    lemma_script_len(s.kind);
    if !s.finished {
        lemma_op_facts(s.kind, s.pos as int);
    }
}

} // verus!
