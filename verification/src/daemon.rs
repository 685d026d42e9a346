//! The daemon's decisions: the polling loop as a state machine (poll on
//! every tick, evict every 120 ticks, stop on a termination signal), what
//! one tick does with newly copied text, reading and writing a PID file's
//! text, and what `daemon start` and `daemon stop` do with the PID file and
//! the process it names.
use vstd::prelude::*;
use vstd::utf8::encode_utf8;
use crate::clipboard::{content_hash, content_type_of, detect_content_type, sha256_hex};
use crate::config::{ignores_app, texts, Config};
use crate::models::{timestamp_in_range, ClipEntry};
use crate::report::{digit_char, int_to_text, nat_text};
use crate::text::{chars_of, is_white_space, trim, trim_end, trim_start, trimmed};

verus! {

broadcast use vstd::string::group_string_axioms;

/// Ticks between eviction passes (about 60 seconds at the default 500 ms
/// poll interval).
pub const EVICT_EVERY_TICKS: u64 = 120;

/// What the daemon loop is woken by.
#[derive(Debug, Clone, Copy, PartialEq, Eq, Structural)]
pub enum DaemonEvent {
    /// The poll interval elapsed.
    Tick,
    /// SIGTERM was received.
    Terminate,
    /// SIGINT (Ctrl-C) was received.
    Interrupt,
}

/// What the daemon loop does next.
#[derive(Debug, Clone, Copy, PartialEq, Eq, Structural)]
pub enum DaemonAction {
    /// Poll the clipboard, then run an eviction pass if `evict` is set.
    Poll { evict: bool },
    /// Leave the loop.
    Stop,
}

/// The state of the daemon loop: ticks since the last eviction pass.
pub struct DaemonLoop {
    ticks_since_evict: u64,
}

impl View for DaemonLoop {
    type V = nat;

    closed spec fn view(&self) -> nat {
        self.ticks_since_evict as nat
    }
}

impl DaemonLoop {
    #[verifier::type_invariant]
    spec fn counter_below_period(&self) -> bool {
        self.ticks_since_evict < EVICT_EVERY_TICKS
    }

    /// The loop as it starts.
    pub fn new() -> (res: Self)
        ensures
            res@ == 0,
    {
        DaemonLoop { ticks_since_evict: 0 }
    }

    /// Decides what to do on `event`: a tick polls, and every
    /// `EVICT_EVERY_TICKS`-th tick also evicts; a signal stops the loop.
    pub fn step(&mut self, event: DaemonEvent) -> (action: DaemonAction)
        ensures
            old(self)@ < EVICT_EVERY_TICKS,
            final(self)@ < EVICT_EVERY_TICKS,
            (action, final(self)@) == loop_step(old(self)@, event),
    {
        proof {
            use_type_invariant(&*self);
        }
        match event {
            DaemonEvent::Tick => {
                let next = self.ticks_since_evict + 1;
                if next >= EVICT_EVERY_TICKS {
                    self.ticks_since_evict = 0;
                    DaemonAction::Poll { evict: true }
                } else {
                    self.ticks_since_evict = next;
                    DaemonAction::Poll { evict: false }
                }
            },
            DaemonEvent::Terminate => DaemonAction::Stop,
            DaemonEvent::Interrupt => DaemonAction::Stop,
        }
    }
}

/// One step of the loop from `ticks` ticks since the last eviction.
pub open spec fn loop_step(ticks: nat, event: DaemonEvent) -> (DaemonAction, nat) {
    match event {
        DaemonEvent::Tick => if ticks + 1 >= EVICT_EVERY_TICKS {
            (DaemonAction::Poll { evict: true }, 0nat)
        } else {
            (DaemonAction::Poll { evict: false }, (ticks + 1) as nat)
        },
        _ => (DaemonAction::Stop, ticks),
    }
}

/// `n` ticks from `ticks`: the counter afterwards and the eviction passes
/// made.
pub open spec fn run_ticks(ticks: nat, n: nat) -> (nat, nat)
    decreases n,
{
    if n == 0 {
        (ticks, 0nat)
    } else {
        let (after, evictions) = run_ticks(ticks, (n - 1) as nat);
        let (action, next) = loop_step(after, DaemonEvent::Tick);
        (next, evictions + if action == (DaemonAction::Poll { evict: true }) {
            1nat
        } else {
            0nat
        })
    }
}

/// From a fresh start, `n` ticks make exactly `n / 120` eviction passes and
/// leave the counter at `n % 120`: one pass every 120 ticks, none early.
pub proof fn lemma_eviction_schedule(n: nat)
    ensures
        run_ticks(0, n) == (n % (EVICT_EVERY_TICKS as nat), n / (EVICT_EVERY_TICKS as nat)),
    decreases n,
{
    if n > 0 {
        lemma_eviction_schedule((n - 1) as nat);
        let m = (n - 1) as int;
        let q = m / 120;
        let r = m % 120;
        vstd::arithmetic::div_mod::lemma_fundamental_div_mod(m, 120);
        assert(0 <= r < 120);
        if r + 1 == 120 {
            vstd::arithmetic::div_mod::lemma_fundamental_div_mod_converse(n as int, 120, q + 1, 0);
        } else {
            vstd::arithmetic::div_mod::lemma_fundamental_div_mod_converse(n as int, 120, q, r + 1);
        }
    }
}

/// Copied text is long enough to keep: its UTF-8 length reaches the
/// configured minimum.
pub fn long_enough(config: &Config, content: &str) -> (res: bool)
    ensures
        res == (encode_utf8(content@).len() >= config.min_content_len),
{
    content.as_bytes().len() >= config.min_content_len
}

/// The entry one tick records for newly copied text, given the application
/// it was copied from; `None` when that application is ignored.
pub fn capture_entry(config: &Config, content: String, source_app: Option<String>) -> (res:
    Option<ClipEntry>)
    ensures
        res is None <==> (source_app matches Some(app) && ignores_app(
            texts(config.ignored_apps@),
            app@,
        )),
        res matches Some(e) ==> {
            &&& e.id == 0
            &&& timestamp_in_range(e.created_at.secs, e.created_at.nanos)
            &&& e.content == content
            &&& e.hash@ == content_hash(content@)
            &&& e.content_type == content_type_of(content@)
            &&& e.source_app == source_app
            &&& !e.pinned
            &&& e.tags@.len() == 0
            &&& e.label is None
        },
{
    match &source_app {
        Some(app) => {
            if config.should_ignore_app(app.as_str()) {
                return None;
            }
        },
        None => {},
    }
    let hash = sha256_hex(content.as_str());
    let content_type = detect_content_type(content.as_str());
    Some(ClipEntry::new(content, content_type, hash, source_app))
}

// ---------------------------------------------------------------------------
// PID file text
// ---------------------------------------------------------------------------

/// `d` is a non-empty run of ASCII digits.
pub open spec fn all_digits(d: Seq<char>) -> bool {
    d.len() > 0 && forall|i: int| 0 <= i < d.len() ==> '0' <= #[trigger] d[i] && d[i] <= '9'
}

/// The value of a run of decimal digits.
pub open spec fn decimal_value(d: Seq<char>) -> nat
    decreases d.len(),
{
    if d.len() == 0 {
        0
    } else {
        decimal_value(d.drop_last()) * 10 + ((d.last() as nat) - 48) as nat
    }
}

/// What `str::parse::<u32>` reads from a text: an optional `+` followed by
/// decimal digits only, whose value fits in 32 bits.
pub open spec fn parsed_u32(s: Seq<char>) -> Option<u32> {
    let digits = if s.len() > 0 && s[0] == '+' {
        s.drop_first()
    } else {
        s
    };
    if all_digits(digits) && decimal_value(digits) <= u32::MAX {
        Some(decimal_value(digits) as u32)
    } else {
        None
    }
}

/// A run of digits is worth at least any of its prefixes.
proof fn lemma_decimal_value_prefix(d: Seq<char>, j: int)
    requires
        0 <= j <= d.len(),
        forall|i: int| 0 <= i < d.len() ==> '0' <= #[trigger] d[i] && d[i] <= '9',
    ensures
        decimal_value(d.take(j)) <= decimal_value(d),
    decreases d.len(),
{
    if j < d.len() {
        assert(d.drop_last().take(j) =~= d.take(j));
        lemma_decimal_value_prefix(d.drop_last(), j);
        assert(decimal_value(d) >= decimal_value(d.drop_last()) * 10) by (nonlinear_arith)
            requires
                decimal_value(d) == decimal_value(d.drop_last()) * 10 + ((d.last() as nat) - 48) as nat,
        ;
        assert(decimal_value(d.drop_last()) <= decimal_value(d.drop_last()) * 10) by (nonlinear_arith);
    } else {
        assert(d.take(j) =~= d);
    }
}

/// Reads a text as `str::parse::<u32>` does: an optional `+` followed by
/// decimal digits only, whose value fits in 32 bits.
fn parse_u32(s: &str) -> (res: Option<u32>)
    ensures
        res == parsed_u32(s@),
{
    let cs = chars_of(s);
    let start: usize = if cs.len() > 0 && cs[0] == '+' {
        1
    } else {
        0
    };
    let ghost digits = if cs@.len() > 0 && cs@[0] == '+' {
        cs@.drop_first()
    } else {
        cs@
    };
    assert(digits =~= cs@.skip(start as int));
    if start == cs.len() {
        return None;
    }
    let mut value: u64 = 0;
    let mut k: usize = start;
    assert(digits.take(0) =~= Seq::<char>::empty());
    while k < cs.len()
        invariant
            start <= k <= cs.len(),
            digits == cs@.skip(start as int),
            cs@ == s@,
            digits == if s@.len() > 0 && s@[0] == '+' {
                s@.drop_first()
            } else {
                s@
            },
            value == decimal_value(digits.take(k - start)),
            value <= u32::MAX,
            forall|i: int| 0 <= i < k - start ==> '0' <= #[trigger] digits[i] && digits[i] <= '9',
        decreases cs.len() - k,
    {
        let c = cs[k];
        assert(digits[k - start] == c);
        if c < '0' || c > '9' {
            assert(!all_digits(digits));
            return None;
        }
        let ghost taken = digits.take(k - start + 1);
        assert(taken.drop_last() =~= digits.take(k - start));
        assert(taken.last() == c);
        value = value * 10 + (c as u64 - 48);
        assert(value == decimal_value(taken));
        k = k + 1;
        if value > 0xffff_ffff {
            proof {
                if all_digits(digits) {
                    lemma_decimal_value_prefix(digits, k - start);
                }
            }
            assert(parsed_u32(s@) is None);
            return None;
        }
    }
    assert(digits.take(k - start) =~= digits);
    Some(value as u32)
}

/// The PID written in a PID file's text: the trimmed text read as a
/// decimal `u32`, if it is one.
pub fn parse_pid(text: &str) -> (res: Option<u32>)
    ensures
        res == parsed_u32(trimmed(text@)),
{
    parse_u32(trim(text))
}

/// The text written to a PID file for `pid`: its decimal digits.
pub fn pid_text(pid: u32) -> (res: String)
    ensures
        res@ == nat_text(pid as nat),
{
    int_to_text(pid as i64)
}

/// The digits of a number are a run of decimal digits with that value.
proof fn lemma_nat_text_digits(n: nat)
    ensures
        all_digits(nat_text(n)),
        decimal_value(nat_text(n)) == n,
    decreases n,
{
    let d = if n < 10 {
        n
    } else {
        n % 10
    };
    assert('0' <= digit_char(d) <= '9' && (digit_char(d) as nat) - 48 == d);
    if n < 10 {
        assert(nat_text(n).drop_last() =~= Seq::<char>::empty());
        assert(decimal_value(Seq::<char>::empty()) == 0);
    } else {
        lemma_nat_text_digits(n / 10);
        let t = nat_text(n);
        assert(t.drop_last() =~= nat_text(n / 10));
        assert(t.last() == digit_char(n % 10));
        assert((n / 10) * 10 + n % 10 == n) by (nonlinear_arith);
        assert forall|i: int| 0 <= i < t.len() implies '0' <= #[trigger] t[i] && t[i] <= '9' by {
            if i < t.len() - 1 {
                assert(t[i] == nat_text(n / 10)[i]);
            }
        }
    }
}

/// A PID written to a PID file reads back: the text `pid_text` writes,
/// read by `parse_pid`, gives the PID.
pub proof fn lemma_pid_roundtrip(pid: u32)
    ensures
        parsed_u32(trimmed(nat_text(pid as nat))) == Some(pid),
{
    let t = nat_text(pid as nat);
    lemma_nat_text_digits(pid as nat);
    assert(!is_white_space(t[0]) && t[0] != '+');
    assert(!is_white_space(t.last()));
    assert(trim_start(t) == t);
    assert(trim_end(t) == t);
}

// ---------------------------------------------------------------------------
// Starting and stopping the daemon
// ---------------------------------------------------------------------------

/// What `daemon start` does, given the PID file.
#[derive(Debug, Clone, Copy, PartialEq, Eq, Structural)]
pub enum StartDecision {
    /// The recorded process is alive: refuse to start a second daemon.
    AlreadyRunning(u32),
    /// The recorded process is gone: remove the stale PID file, then start.
    RemoveStaleThenStart,
    /// No PID file: start.
    Start,
}

/// Decides what `daemon start` does, given the PID recorded in the PID file
/// (if there is a readable one) and whether that process is alive.
pub fn start_decision(recorded: Option<u32>, alive: bool) -> (res: StartDecision)
    ensures
        res == match recorded {
            None => StartDecision::Start,
            Some(pid) => if alive {
                StartDecision::AlreadyRunning(pid)
            } else {
                StartDecision::RemoveStaleThenStart
            },
        },
{
    match recorded {
        None => StartDecision::Start,
        Some(pid) => if alive {
            StartDecision::AlreadyRunning(pid)
        } else {
            StartDecision::RemoveStaleThenStart
        },
    }
}

/// Milliseconds `daemon stop` waits before each check of whether the
/// daemon has exited.
pub const STOP_POLL_MS: u64 = 100;

/// How many times `daemon stop` checks before giving up (five seconds at
/// `STOP_POLL_MS`).
pub const STOP_ROUNDS: u32 = 50;

/// Where `daemon stop` stands.
#[derive(Debug, Clone, Copy, PartialEq, Eq, Structural)]
pub enum StopState {
    /// Nothing read yet.
    Begin,
    /// The PID file named `pid`; whether it is alive is being checked.
    Checking { pid: u32 },
    /// SIGTERM was sent to `pid`, and `rounds` checks after it found it
    /// still alive.
    Waiting { pid: u32, rounds: u32 },
    /// Finished.
    Done,
}

/// What `daemon stop` learns.
#[derive(Debug, Clone, Copy, PartialEq, Eq, Structural)]
pub enum StopEvent {
    /// The PID read from the PID file, if there is a readable one.
    PidFile(Option<u32>),
    /// Whether the process is alive.
    Alive(bool),
}

/// Why `daemon stop` fails.
#[derive(Debug, Clone, Copy, PartialEq, Eq, Structural)]
pub enum StopFailure {
    /// There is no PID file: the daemon is not running.
    NotRunning,
    /// The daemon was still alive after every check.
    TimedOut(u32),
}

/// What `daemon stop` does next.
#[derive(Debug, Clone, Copy, PartialEq, Eq, Structural)]
pub enum StopAction {
    /// Check whether `pid` is alive.
    CheckAlive(u32),
    /// The process is gone: remove the stale PID file; stopping succeeds.
    RemoveStale(u32),
    /// Send SIGTERM to `pid`, wait `wait_ms`, then check whether it is alive.
    Terminate { pid: u32, wait_ms: u64 },
    /// Wait `wait_ms`, then check again whether `pid` is alive.
    WaitAndCheck { pid: u32, wait_ms: u64 },
    /// The daemon exited: remove the PID file and report it stopped.
    Stopped(u32),
    /// Stopping failed.
    Fail(StopFailure),
    /// The event does not belong to this state: nothing to do.
    Ignore,
}

/// One step of `daemon stop`: the next state and action, given the state
/// and what was learnt.
pub open spec fn stop_next(state: StopState, event: StopEvent) -> (StopState, StopAction) {
    match (state, event) {
        (StopState::Begin, StopEvent::PidFile(None)) => (
            StopState::Done,
            StopAction::Fail(StopFailure::NotRunning),
        ),
        (StopState::Begin, StopEvent::PidFile(Some(pid))) => (
            StopState::Checking { pid },
            StopAction::CheckAlive(pid),
        ),
        (StopState::Checking { pid }, StopEvent::Alive(false)) => (
            StopState::Done,
            StopAction::RemoveStale(pid),
        ),
        (StopState::Checking { pid }, StopEvent::Alive(true)) => (
            StopState::Waiting { pid, rounds: 0 },
            StopAction::Terminate { pid, wait_ms: STOP_POLL_MS },
        ),
        (StopState::Waiting { pid, rounds }, StopEvent::Alive(false)) => (
            StopState::Done,
            StopAction::Stopped(pid),
        ),
        (StopState::Waiting { pid, rounds }, StopEvent::Alive(true)) => if rounds + 1
            >= STOP_ROUNDS {
            (StopState::Done, StopAction::Fail(StopFailure::TimedOut(pid)))
        } else {
            (
                StopState::Waiting { pid, rounds: (rounds + 1) as u32 },
                StopAction::WaitAndCheck { pid, wait_ms: STOP_POLL_MS },
            )
        },
        _ => (state, StopAction::Ignore),
    }
}

/// One step of `daemon stop` (see `stop_next`): no PID file fails; a dead
/// process has its stale PID file removed; a live one is sent SIGTERM and
/// checked every `STOP_POLL_MS` milliseconds until it exits, giving up after
/// `STOP_ROUNDS` checks.
pub fn stop_step(state: StopState, event: StopEvent) -> (res: (StopState, StopAction))
    ensures
        res == stop_next(state, event),
{
    match (state, event) {
        (StopState::Begin, StopEvent::PidFile(None)) => (
            StopState::Done,
            StopAction::Fail(StopFailure::NotRunning),
        ),
        (StopState::Begin, StopEvent::PidFile(Some(pid))) => (
            StopState::Checking { pid },
            StopAction::CheckAlive(pid),
        ),
        (StopState::Checking { pid }, StopEvent::Alive(alive)) => if alive {
            (StopState::Waiting { pid, rounds: 0 }, StopAction::Terminate { pid, wait_ms: STOP_POLL_MS })
        } else {
            (StopState::Done, StopAction::RemoveStale(pid))
        },
        (StopState::Waiting { pid, rounds }, StopEvent::Alive(alive)) => if !alive {
            (StopState::Done, StopAction::Stopped(pid))
        } else if rounds >= STOP_ROUNDS - 1 {
            (StopState::Done, StopAction::Fail(StopFailure::TimedOut(pid)))
        } else {
            (
                StopState::Waiting { pid, rounds: rounds + 1 },
                StopAction::WaitAndCheck { pid, wait_ms: STOP_POLL_MS },
            )
        },
        _ => (state, StopAction::Ignore),
    }
}

/// Where `daemon stop` stands after SIGTERM was sent to `pid` and `k`
/// checks found it still alive.
pub open spec fn after_live_checks(pid: u32, k: nat) -> StopState
    decreases k,
{
    if k == 0 {
        StopState::Waiting { pid, rounds: 0 }
    } else {
        stop_next(after_live_checks(pid, (k - 1) as nat), StopEvent::Alive(true)).0
    }
}

/// A daemon that does not exit is checked `STOP_ROUNDS` times, waiting
/// `STOP_POLL_MS` before each, and then given up on: after fewer checks
/// `daemon stop` is still waiting and waits again; the last check fails
/// with a time-out; an exit seen at any check stops it successfully.
pub proof fn lemma_stop_gives_up(pid: u32, k: nat)
    ensures
        k < STOP_ROUNDS ==> after_live_checks(pid, k) == (StopState::Waiting { pid, rounds: k as u32 }),
        k + 1 < STOP_ROUNDS ==> stop_next(after_live_checks(pid, k), StopEvent::Alive(true)).1
            == (StopAction::WaitAndCheck { pid, wait_ms: STOP_POLL_MS }),
        k + 1 == STOP_ROUNDS ==> stop_next(after_live_checks(pid, k), StopEvent::Alive(true))
            == (StopState::Done, StopAction::Fail(StopFailure::TimedOut(pid))),
        k < STOP_ROUNDS ==> stop_next(after_live_checks(pid, k), StopEvent::Alive(false))
            == (StopState::Done, StopAction::Stopped(pid)),
    decreases k,
{
    if k > 0 {
        lemma_stop_gives_up(pid, (k - 1) as nat);
    }
}

} // verus!
