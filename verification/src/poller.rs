//! Waiting for an instance to be ready: first for its address, then for its
//! shell port, both under one deadline.
//!
//! The poller decides and the caller acts: each step takes what the caller
//! observed, and when, and says what to do next.

use vstd::prelude::*;
use crate::failure::Phase;

verus! {

/// The wait between two queries for the address, in milliseconds. It is
/// fixed: the expected wait is short and bounded.
pub const POLL_INTERVAL_MS: u64 = 1000;

/// The most that one connection attempt may take, in milliseconds.
pub const ATTEMPT_TIMEOUT_MS: u64 = 1000;

/// One budget of time for the whole wait. It opens when the wait begins and
/// is not opened again between the two phases.
#[derive(Clone, Copy, Debug, PartialEq, Eq, Structural)]
pub struct DeadlineWindow {
    /// The moment the wait began, in milliseconds of the caller's clock.
    pub start_ms: u64,
    /// How long the wait may take, in milliseconds.
    pub budget_ms: u64,
}

impl DeadlineWindow {
    /// The time spent at `now_ms`. A clock that reads less than at the
    /// start has spent none.
    pub open spec fn elapsed(&self, now_ms: u64) -> int {
        if now_ms >= self.start_ms {
            now_ms - self.start_ms
        } else {
            0
        }
    }

    /// Whether at `now_ms` more than the budget is spent.
    pub open spec fn expired(&self, now_ms: u64) -> bool {
        self.elapsed(now_ms) > self.budget_ms
    }

    /// Opens a window at `start_ms`.
    pub fn opened_at(start_ms: u64, budget_ms: u64) -> (window: DeadlineWindow)
        ensures
            window.start_ms == start_ms,
            window.budget_ms == budget_ms,
    {
        DeadlineWindow { start_ms, budget_ms }
    }

    /// Tells whether the deadline has passed at `now_ms`.
    pub fn is_expired(&self, now_ms: u64) -> (r: bool)
        ensures
            r == self.expired(now_ms),
    {
        now_ms >= self.start_ms && now_ms - self.start_ms > self.budget_ms
    }
}

/// Where the wait stands.
#[derive(Clone, Debug, PartialEq, Eq)]
pub enum PollerState {
    /// No address is known yet.
    AwaitingAddress,
    /// The address is known; the shell port has not answered yet.
    AwaitingReachability { address: String },
    /// The shell port accepted a connection.
    Ready { address: String },
    /// The deadline passed during the given phase.
    TimedOut { phase: Phase },
}

/// What the caller saw after doing what it was told.
#[derive(Clone, Debug, PartialEq, Eq)]
pub enum Observation {
    /// The instance was queried again; this is the address it has, if any.
    Described { assigned_address: Option<String> },
    /// The connection attempt succeeded. The connection is closed at once
    /// and not used.
    Connected,
    /// The connection attempt failed: refused, timed out or unreachable,
    /// which are all the same here.
    Refused,
}

/// What the caller is to do next.
#[derive(Clone, Debug, PartialEq, Eq)]
pub enum Directive {
    /// Wait `delay_ms`, then query the instance again.
    Describe { delay_ms: u64 },
    /// Try to connect, for at most `timeout_ms`.
    Connect { address: String, port: u16, timeout_ms: u64 },
    /// Nothing: the wait is over.
    Stop,
}

/// The directive of a connection attempt.
pub open spec fn attempt(address: String, port: u16) -> Directive {
    Directive::Connect { address, port, timeout_ms: ATTEMPT_TIMEOUT_MS }
}

/// The state that follows and the directive that goes with it.
///
/// An address ends the first phase whenever it is seen. A query without an
/// address, or a failed attempt, is followed by another one unless the
/// deadline has passed. An observation that the state did not ask for is
/// dropped, and the state's own request is made again. A wait that is over
/// stays over.
pub open spec fn next(
    window: DeadlineWindow,
    port: u16,
    state: PollerState,
    now_ms: u64,
    seen: Observation,
) -> (PollerState, Directive) {
    match state {
        PollerState::AwaitingAddress => match seen {
            Observation::Described { assigned_address: Some(address) } => (
                PollerState::AwaitingReachability { address },
                attempt(address, port),
            ),
            Observation::Described { assigned_address: None } => if window.expired(now_ms) {
                (PollerState::TimedOut { phase: Phase::Address }, Directive::Stop)
            } else {
                (PollerState::AwaitingAddress, Directive::Describe { delay_ms: POLL_INTERVAL_MS })
            },
            _ => (PollerState::AwaitingAddress, Directive::Describe { delay_ms: POLL_INTERVAL_MS }),
        },
        PollerState::AwaitingReachability { address } => match seen {
            Observation::Connected => (PollerState::Ready { address }, Directive::Stop),
            Observation::Refused => if window.expired(now_ms) {
                (PollerState::TimedOut { phase: Phase::Reachability }, Directive::Stop)
            } else {
                (PollerState::AwaitingReachability { address }, attempt(address, port))
            },
            _ => (PollerState::AwaitingReachability { address }, attempt(address, port)),
        },
        PollerState::Ready { address } => (PollerState::Ready { address }, Directive::Stop),
        PollerState::TimedOut { phase } => (PollerState::TimedOut { phase }, Directive::Stop),
    }
}

/// A state in which the wait is over.
pub open spec fn is_over(state: PollerState) -> bool {
    state is Ready || state is TimedOut
}

/// The poller: the window, the port to reach, and where the wait stands.
#[derive(Clone, Debug, PartialEq, Eq)]
pub struct Poller {
    pub window: DeadlineWindow,
    pub port: u16,
    pub state: PollerState,
}

impl Poller {
    /// Begins the wait at `now_ms`: the window opens, and the first query
    /// is due at once.
    pub fn begin(now_ms: u64, budget_ms: u64, port: u16) -> (r: (Poller, Directive))
        ensures
            r.0.window == (DeadlineWindow { start_ms: now_ms, budget_ms }),
            r.0.port == port,
            r.0.state == PollerState::AwaitingAddress,
            r.1 == (Directive::Describe { delay_ms: 0 }),
    {
        let window = DeadlineWindow::opened_at(now_ms, budget_ms);
        (
            Poller { window, port, state: PollerState::AwaitingAddress },
            Directive::Describe { delay_ms: 0 },
        )
    }

    /// Takes one observation, made at `now_ms`. The window and the port
    /// stay as they are.
    pub fn step(self, now_ms: u64, seen: Observation) -> (r: (Poller, Directive))
        ensures
            r.0.window == self.window,
            r.0.port == self.port,
            (r.0.state, r.1) == next(self.window, self.port, self.state, now_ms, seen),
    {
        let window = self.window;
        let port = self.port;
        let late = window.is_expired(now_ms);
        let (state, directive) = match self.state {
            PollerState::AwaitingAddress => match seen {
                Observation::Described { assigned_address: Some(address) } => {
                    let target = address.clone();
                    (
                        PollerState::AwaitingReachability { address },
                        Directive::Connect { address: target, port, timeout_ms: ATTEMPT_TIMEOUT_MS },
                    )
                },
                Observation::Described { assigned_address: None } => {
                    if late {
                        (PollerState::TimedOut { phase: Phase::Address }, Directive::Stop)
                    } else {
                        (
                            PollerState::AwaitingAddress,
                            Directive::Describe { delay_ms: POLL_INTERVAL_MS },
                        )
                    }
                },
                _ => (
                    PollerState::AwaitingAddress,
                    Directive::Describe { delay_ms: POLL_INTERVAL_MS },
                ),
            },
            PollerState::AwaitingReachability { address } => match seen {
                Observation::Connected => (PollerState::Ready { address }, Directive::Stop),
                Observation::Refused => {
                    if late {
                        (PollerState::TimedOut { phase: Phase::Reachability }, Directive::Stop)
                    } else {
                        let target = address.clone();
                        (
                            PollerState::AwaitingReachability { address },
                            Directive::Connect {
                                address: target,
                                port,
                                timeout_ms: ATTEMPT_TIMEOUT_MS,
                            },
                        )
                    }
                },
                _ => {
                    let target = address.clone();
                    (
                        PollerState::AwaitingReachability { address },
                        Directive::Connect { address: target, port, timeout_ms: ATTEMPT_TIMEOUT_MS },
                    )
                },
            },
            PollerState::Ready { address } => (PollerState::Ready { address }, Directive::Stop),
            PollerState::TimedOut { phase } => (PollerState::TimedOut { phase }, Directive::Stop),
        };
        (Poller { window, port, state }, directive)
    }
}

/// A wait that is over stays over, whatever is observed, and asks for
/// nothing more.
pub proof fn lemma_over_stays_over(
    window: DeadlineWindow,
    port: u16,
    state: PollerState,
    now_ms: u64,
    seen: Observation,
)
    requires
        is_over(state),
    ensures
        next(window, port, state, now_ms, seen) == (state, Directive::Stop),
{
}

/// The poller asks for another query or another attempt only while the
/// deadline has not passed, or when it drops an observation it did not ask
/// for: a query without an address and a failed attempt that come after the
/// deadline end the wait with a timeout of their phase.
pub proof fn lemma_no_retry_after_deadline(
    window: DeadlineWindow,
    port: u16,
    state: PollerState,
    now_ms: u64,
)
    requires
        window.expired(now_ms),
    ensures
        state is AwaitingAddress ==> next(
            window,
            port,
            state,
            now_ms,
            Observation::Described { assigned_address: None },
        ) == (PollerState::TimedOut { phase: Phase::Address }, Directive::Stop),
        state is AwaitingReachability ==> next(window, port, state, now_ms, Observation::Refused)
            == (PollerState::TimedOut { phase: Phase::Reachability }, Directive::Stop),
{
}

/// The answer to one query of the instance: when it came, and the address
/// the instance had.
#[derive(Clone, Debug, PartialEq, Eq)]
pub struct Poll {
    pub at_ms: u64,
    pub assigned_address: Option<String>,
}

/// The end of one connection attempt: when it came, and whether the port
/// accepted the connection.
#[derive(Clone, Copy, Debug, PartialEq, Eq, Structural)]
pub struct Attempt {
    pub at_ms: u64,
    pub connected: bool,
}

/// How a phase of the wait went over a given run of answers.
#[derive(Clone, Debug, PartialEq, Eq)]
pub struct PhaseRun {
    /// The state reached.
    pub state: PollerState,
    /// How many queries, or attempts, were made.
    pub taken: usize,
}

/// An answer that ends the wait for the address: it holds one, or it comes
/// after the deadline.
pub open spec fn ends_address_wait(window: DeadlineWindow, poll: Poll) -> bool {
    poll.assigned_address.is_some() || window.expired(poll.at_ms)
}

/// The first of the answers before `upto` that ends the wait for the
/// address.
pub open spec fn first_ending_poll(window: DeadlineWindow, polls: Seq<Poll>, upto: int) -> Option<
    int,
>
    decreases upto,
{
    if upto <= 0 {
        None
    } else {
        match first_ending_poll(window, polls, upto - 1) {
            Some(k) => Some(k),
            None => if ends_address_wait(window, polls[upto - 1]) {
                Some(upto - 1)
            } else {
                None
            },
        }
    }
}

/// The state after the answer that ended the wait for the address.
pub open spec fn after_poll(poll: Poll) -> PollerState {
    match poll.assigned_address {
        Some(address) => PollerState::AwaitingReachability { address },
        None => PollerState::TimedOut { phase: Phase::Address },
    }
}

/// The wait for the address over the answers `polls`, each to one query: it
/// ends with the first answer that holds an address or comes after the
/// deadline, and as many queries were made as answers were read. Where no
/// answer ends it, all were read and the wait goes on.
pub open spec fn address_run(window: DeadlineWindow, polls: Seq<Poll>) -> (PollerState, int) {
    match first_ending_poll(window, polls, polls.len() as int) {
        Some(k) => (after_poll(polls[k]), k + 1),
        None => (PollerState::AwaitingAddress, polls.len() as int),
    }
}

/// What `first_ending_poll` finds.
pub proof fn lemma_first_ending_poll(window: DeadlineWindow, polls: Seq<Poll>, upto: int)
    ensures
        match first_ending_poll(window, polls, upto) {
            Some(k) => 0 <= k < upto && ends_address_wait(window, polls[k]) && forall|j: int|
                0 <= j < k ==> !ends_address_wait(window, #[trigger] polls[j]),
            None => forall|j: int|
                0 <= j < upto ==> !ends_address_wait(window, #[trigger] polls[j]),
        },
    decreases upto,
{
    if upto > 0 {
        lemma_first_ending_poll(window, polls, upto - 1);
    }
}

/// An answer that ended the wait is still the first to end it when more
/// answers follow.
pub proof fn lemma_first_ending_poll_stays(
    window: DeadlineWindow,
    polls: Seq<Poll>,
    upto: int,
    more: int,
)
    requires
        upto <= more,
        first_ending_poll(window, polls, upto).is_some(),
    ensures
        first_ending_poll(window, polls, more) == first_ending_poll(window, polls, upto),
    decreases more - upto,
{
    if upto < more {
        lemma_first_ending_poll_stays(window, polls, upto, more - 1);
    }
}

fn same_address(address: &Option<String>) -> (r: Option<String>)
    ensures
        r == *address,
{
    match address {
        Some(a) => Some(a.clone()),
        None => None,
    }
}

/// Runs the wait for the address over the answers `polls`, the k-th being
/// the answer to the k-th query, and stops at the first that ends it.
pub fn await_address(window: DeadlineWindow, port: u16, polls: &Vec<Poll>) -> (run: PhaseRun)
    ensures
        (run.state, run.taken as int) == address_run(window, polls@),
{
    let mut poller = Poller { window, port, state: PollerState::AwaitingAddress };
    let mut i: usize = 0;
    let mut waiting: bool = true;
    while waiting && i < polls.len()
        invariant
            i <= polls.len(),
            poller.window == window,
            poller.port == port,
            waiting ==> poller.state == PollerState::AwaitingAddress && first_ending_poll(
                window,
                polls@,
                i as int,
            ).is_none(),
            !waiting ==> i > 0 && first_ending_poll(window, polls@, i as int) == Some(i - 1)
                && poller.state == after_poll(polls@[i - 1]),
        decreases polls.len() - i,
    {
        let seen = Observation::Described {
            assigned_address: same_address(&polls[i].assigned_address),
        };
        let stepped = poller.step(polls[i].at_ms, seen);
        poller = stepped.0;
        match &poller.state {
            PollerState::AwaitingAddress => {},
            _ => {
                waiting = false;
            },
        }
        i = i + 1;
    }
    proof {
        if !waiting {
            lemma_first_ending_poll_stays(window, polls@, i as int, polls@.len() as int);
        }
    }
    PhaseRun { state: poller.state, taken: i }
}

/// An address that appears with the answer to query `n + 1`, after `n`
/// answers without one that all came before the deadline, is found: the
/// wait ends with that address after exactly `n + 1` queries.
pub proof fn lemma_address_found_after(
    window: DeadlineWindow,
    polls: Seq<Poll>,
    n: int,
    address: String,
)
    requires
        0 <= n < polls.len(),
        forall|k: int|
            0 <= k < n ==> (#[trigger] polls[k]).assigned_address.is_none() && !window.expired(
                polls[k].at_ms,
            ),
        polls[n].assigned_address == Some(address),
    ensures
        address_run(window, polls) == (PollerState::AwaitingReachability { address }, n + 1),
{
    lemma_first_ending_poll(window, polls, polls.len() as int);
    assert(ends_address_wait(window, polls[n]));
}

/// Answer `k` came no later than one interval after the answer before it,
/// or, for the first answer, after the start of the wait: the caller waited
/// no longer than it was told, and the query itself took no time to speak of.
pub open spec fn came_within_interval(window: DeadlineWindow, polls: Seq<Poll>, k: int) -> bool {
    polls[k].at_ms <= (if k == 0 {
        window.start_ms
    } else {
        polls[k - 1].at_ms
    }) + POLL_INTERVAL_MS
}

/// Where no address appears before the deadline has passed, the wait ends
/// with a timeout of the address phase at the first answer that comes after
/// the deadline. Until then each answer was followed by a wait of one
/// interval, and where the answer that ends the wait came within an interval
/// of the one before it, the wait has lasted no more than one interval
/// beyond the deadline.
pub proof fn lemma_address_timeout(window: DeadlineWindow, port: u16, polls: Seq<Poll>, n: int)
    requires
        0 <= n < polls.len(),
        forall|k: int| 0 <= k <= n ==> (#[trigger] polls[k]).assigned_address.is_none(),
        forall|k: int| 0 <= k < n ==> !window.expired((#[trigger] polls[k]).at_ms),
        window.expired(polls[n].at_ms),
    ensures
        address_run(window, polls) == (PollerState::TimedOut { phase: Phase::Address }, n + 1),
        forall|k: int|
            0 <= k < n ==> next(
                window,
                port,
                PollerState::AwaitingAddress,
                (#[trigger] polls[k]).at_ms,
                Observation::Described { assigned_address: None },
            ).1 == (Directive::Describe { delay_ms: POLL_INTERVAL_MS }),
        came_within_interval(window, polls, n) ==> polls[n].at_ms <= window.start_ms
            + window.budget_ms + POLL_INTERVAL_MS,
{
    lemma_first_ending_poll(window, polls, polls.len() as int);
    assert(ends_address_wait(window, polls[n]));
    if n > 0 {
        assert(!window.expired(polls[n - 1].at_ms));
    }
}

/// The answers come on schedule: the caller waits exactly as long as it is
/// told and a query takes no time, so the first answer comes at the start of
/// the wait and each later one an interval after the one before.
pub open spec fn on_schedule(window: DeadlineWindow, polls: Seq<Poll>) -> bool {
    forall|k: int|
        0 <= k < polls.len() ==> (#[trigger] polls[k]).at_ms == window.start_ms + k
            * POLL_INTERVAL_MS
}

/// On schedule, an address that appears with answer `n + 1` is found
/// whenever the budget holds `n` intervals, after exactly `n + 1` queries.
pub proof fn lemma_address_found_on_schedule(
    window: DeadlineWindow,
    polls: Seq<Poll>,
    n: int,
    address: String,
)
    requires
        on_schedule(window, polls),
        0 <= n < polls.len(),
        n * POLL_INTERVAL_MS <= window.budget_ms,
        forall|k: int| 0 <= k < n ==> (#[trigger] polls[k]).assigned_address.is_none(),
        polls[n].assigned_address == Some(address),
    ensures
        address_run(window, polls) == (PollerState::AwaitingReachability { address }, n + 1),
{
    assert forall|k: int| 0 <= k < n implies !window.expired((#[trigger] polls[k]).at_ms) by {
        assert(polls[k].at_ms == window.start_ms + k * POLL_INTERVAL_MS);
    }
    lemma_address_found_after(window, polls, n, address);
}

/// On schedule, a wait in which no address appears ends with a timeout of
/// the address phase at the first answer after the deadline, and that
/// answer comes no more than one interval after the deadline: the wait is
/// never kept longer than the budget and one interval.
pub proof fn lemma_timeout_on_schedule(window: DeadlineWindow, polls: Seq<Poll>)
    requires
        on_schedule(window, polls),
        polls.len() > window.budget_ms / POLL_INTERVAL_MS + 1,
        forall|k: int| 0 <= k < polls.len() ==> (#[trigger] polls[k]).assigned_address.is_none(),
    ensures
        address_run(window, polls) == (
            PollerState::TimedOut { phase: Phase::Address },
            window.budget_ms / POLL_INTERVAL_MS + 2,
        ),
        window.start_ms + window.budget_ms < polls[window.budget_ms / POLL_INTERVAL_MS + 1].at_ms
            <= window.start_ms + window.budget_ms + POLL_INTERVAL_MS,
{
    let n = window.budget_ms as int / POLL_INTERVAL_MS as int + 1;
    assert forall|k: int| 0 <= k < n implies !window.expired((#[trigger] polls[k]).at_ms) by {
        assert(polls[k].at_ms == window.start_ms + k * POLL_INTERVAL_MS);
    }
    assert(polls[n].at_ms == window.start_ms + n * POLL_INTERVAL_MS);
    assert(window.expired(polls[n].at_ms));
    lemma_address_timeout(window, 0, polls, n);
}

/// An attempt that ends the wait for the port: it connected, or it failed
/// after the deadline.
pub open spec fn ends_reachability_wait(window: DeadlineWindow, attempt: Attempt) -> bool {
    attempt.connected || window.expired(attempt.at_ms)
}

/// The first of the attempts before `upto` that ends the wait for the port.
pub open spec fn first_ending_attempt(
    window: DeadlineWindow,
    attempts: Seq<Attempt>,
    upto: int,
) -> Option<int>
    decreases upto,
{
    if upto <= 0 {
        None
    } else {
        match first_ending_attempt(window, attempts, upto - 1) {
            Some(k) => Some(k),
            None => if ends_reachability_wait(window, attempts[upto - 1]) {
                Some(upto - 1)
            } else {
                None
            },
        }
    }
}

/// The state after the attempt that ended the wait for the port.
pub open spec fn after_attempt(address: String, attempt: Attempt) -> PollerState {
    if attempt.connected {
        PollerState::Ready { address }
    } else {
        PollerState::TimedOut { phase: Phase::Reachability }
    }
}

/// The wait for the port over the attempts `attempts`: it ends with the
/// first attempt that connects or fails after the deadline.
pub open spec fn reachability_run(
    window: DeadlineWindow,
    address: String,
    attempts: Seq<Attempt>,
) -> (PollerState, int) {
    match first_ending_attempt(window, attempts, attempts.len() as int) {
        Some(k) => (after_attempt(address, attempts[k]), k + 1),
        None => (PollerState::AwaitingReachability { address }, attempts.len() as int),
    }
}

/// What `first_ending_attempt` finds.
pub proof fn lemma_first_ending_attempt(window: DeadlineWindow, attempts: Seq<Attempt>, upto: int)
    ensures
        match first_ending_attempt(window, attempts, upto) {
            Some(k) => 0 <= k < upto && ends_reachability_wait(window, attempts[k]) && forall|
                j: int,
            |
                0 <= j < k ==> !ends_reachability_wait(window, #[trigger] attempts[j]),
            None => forall|j: int|
                0 <= j < upto ==> !ends_reachability_wait(window, #[trigger] attempts[j]),
        },
    decreases upto,
{
    if upto > 0 {
        lemma_first_ending_attempt(window, attempts, upto - 1);
    }
}

/// An attempt that ended the wait is still the first to end it when more
/// attempts follow.
pub proof fn lemma_first_ending_attempt_stays(
    window: DeadlineWindow,
    attempts: Seq<Attempt>,
    upto: int,
    more: int,
)
    requires
        upto <= more,
        first_ending_attempt(window, attempts, upto).is_some(),
    ensures
        first_ending_attempt(window, attempts, more) == first_ending_attempt(
            window,
            attempts,
            upto,
        ),
    decreases more - upto,
{
    if upto < more {
        lemma_first_ending_attempt_stays(window, attempts, upto, more - 1);
    }
}

/// Runs the wait for the port of `address` over the attempts `attempts`,
/// and stops at the first that ends it. The window is the one that the wait
/// for the address began with.
pub fn await_reachability(
    window: DeadlineWindow,
    port: u16,
    address: String,
    attempts: &Vec<Attempt>,
) -> (run: PhaseRun)
    ensures
        (run.state, run.taken as int) == reachability_run(window, address, attempts@),
{
    let mut poller = Poller { window, port, state: PollerState::AwaitingReachability { address } };
    let mut i: usize = 0;
    let mut waiting: bool = true;
    while waiting && i < attempts.len()
        invariant
            i <= attempts.len(),
            poller.window == window,
            poller.port == port,
            waiting ==> poller.state == (PollerState::AwaitingReachability { address })
                && first_ending_attempt(window, attempts@, i as int).is_none(),
            !waiting ==> i > 0 && first_ending_attempt(window, attempts@, i as int) == Some(i - 1)
                && poller.state == after_attempt(address, attempts@[i - 1]),
        decreases attempts.len() - i,
    {
        let seen = if attempts[i].connected {
            Observation::Connected
        } else {
            Observation::Refused
        };
        let stepped = poller.step(attempts[i].at_ms, seen);
        poller = stepped.0;
        match &poller.state {
            PollerState::AwaitingReachability { .. } => {},
            _ => {
                waiting = false;
            },
        }
        i = i + 1;
    }
    proof {
        if !waiting {
            lemma_first_ending_attempt_stays(window, attempts@, i as int, attempts@.len() as int);
        }
    }
    PhaseRun { state: poller.state, taken: i }
}

/// The two phases share one window: time that the wait for the address took
/// is gone for the wait for the port. An attempt that fails later than the
/// budget after the start of the whole wait ends it with a timeout, however
/// late the address came.
pub proof fn lemma_deadline_is_shared(
    window: DeadlineWindow,
    address: String,
    attempts: Seq<Attempt>,
    n: int,
)
    requires
        0 <= n < attempts.len(),
        forall|k: int| 0 <= k <= n ==> !(#[trigger] attempts[k]).connected,
        forall|k: int| 0 <= k < n ==> !window.expired((#[trigger] attempts[k]).at_ms),
        attempts[n].at_ms > window.start_ms + window.budget_ms,
    ensures
        reachability_run(window, address, attempts) == (
            PollerState::TimedOut { phase: Phase::Reachability },
            n + 1,
        ),
{
    lemma_first_ending_attempt(window, attempts, attempts.len() as int);
    assert(ends_reachability_wait(window, attempts[n]));
}

} // verus!
