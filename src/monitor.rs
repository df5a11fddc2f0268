//! The monitor of one (repository, branch) pair, as a state machine.
//!
//! The monitor decides; its caller acts. Each call of [`Monitor::step`]
//! takes the outcome of the previous action and gives the next one: open
//! the repository, sleep, list a remote's advertised refs, fetch, resolve
//! the local tip, compare it with a remote tip, publish an event, or stop.
//! A tick checks and fetches every remote in turn, reads the local tip once,
//! compares it with every remote tip, publishes one event and sleeps for the
//! interval. Any failure stops this monitor for good, and no other: each
//! monitor is its own value.
use crate::config::{branch_valid, string_views, ConfigError, MonitorConfig};
use crate::event::{statuses_of, Category, Event};
use rand::Rng;
use vstd::prelude::*;

verus! {

/// Relies on rand's `thread_rng().gen_range(0..bound)`: a value drawn
/// uniformly from `[0, bound)`. The range is never empty here.
#[verifier::external_body]
fn draw_below(bound: u64) -> (r: u64)
    requires
        bound > 0,
    ensures
        r < bound,
{
    rand::thread_rng().gen_range(0..bound)
}

/// Relies on uuid's `Uuid::new_v4`: a random identifier, as its 128-bit
/// value. Nothing is known of the value.
#[verifier::external_body]
fn new_event_id() -> (r: u128) {
    uuid::Uuid::new_v4().as_u128()
}

/// The exclusive upper bound of the startup delay for a poll interval: a
/// fifth of it.
pub open spec fn jitter_bound(interval_ms: u64) -> u64 {
    (interval_ms / 5) as u64
}

/// Whether `ms` is a startup delay that the interval allows: below a fifth
/// of it, or zero where that fifth is zero.
pub open spec fn jitter_ok(interval_ms: u64, ms: u64) -> bool {
    if jitter_bound(interval_ms) == 0 {
        ms == 0
    } else {
        ms < jitter_bound(interval_ms)
    }
}

/// Draws the delay before a monitor's first tick, which staggers monitors
/// that share an interval: uniform in `[0, interval_ms / 5)`, and zero where
/// that range is empty.
pub fn startup_delay(interval_ms: u64) -> (r: u64)
    ensures
        jitter_ok(interval_ms, r),
{
    let bound: u64 = interval_ms / 5;
    if bound == 0 {
        0
    } else {
        draw_below(bound)
    }
}

/// Where a monitor stands.
#[derive(Debug, Clone, Copy, PartialEq, Eq, Structural)]
pub enum Phase {
    /// Not started.
    Starting,
    /// Waiting for the repository to be opened or cloned.
    Opening,
    /// Waiting out the startup delay.
    Delaying,
    /// Waiting for the refs that the remote at this position advertises.
    Listing(usize),
    /// Waiting for the fetch from the remote at this position.
    Fetching(usize),
    /// Waiting for the local branch tip.
    ResolvingLocal,
    /// Waiting for the comparison with the remote at this position.
    Comparing(usize),
    /// Waiting for the event to be handed on.
    Publishing,
    /// Waiting out the poll interval.
    Sleeping,
    /// Stopped for good.
    Terminated,
}

/// Why a monitor stopped.
#[derive(Debug, Clone, Copy, PartialEq, Eq, Structural)]
pub enum MonitorError {
    /// The repository could not be opened or cloned.
    OpenFailed,
    /// A remote's advertised refs could not be listed.
    ListFailed,
    /// A remote does not advertise the branch.
    InvalidBranch,
    /// A fetch failed.
    FetchFailed,
    /// A ref could not be resolved to a single commit.
    ResolveFailed,
    /// The ahead/behind counts could not be computed.
    CompareFailed,
    /// An outcome came that does not answer the last action.
    UnexpectedInput,
    /// The monitor had already stopped.
    AlreadyTerminated,
}

/// The outcome of the last action, handed back by the caller.
#[derive(Debug)]
pub enum Input {
    /// Begin monitoring.
    Start,
    /// The repository is open.
    Opened,
    /// The repository could not be opened or cloned.
    OpenFailed,
    /// The sleep is over.
    Slept,
    /// The names of the refs that the remote advertises.
    Advertised(Vec<String>),
    /// The remote's refs could not be listed.
    ListFailed,
    /// The fetch is done.
    Fetched,
    /// The fetch failed.
    FetchFailed,
    /// The commit id of the local branch tip.
    Resolved(Vec<u8>),
    /// A ref could not be resolved.
    ResolveFailed,
    /// The (ahead, behind) commit counts of the local tip against a remote's.
    Compared(u64, u64),
    /// The counts could not be computed.
    CompareFailed,
    /// The event was handed on.
    Published,
}

/// An outcome, as values.
pub enum InputView {
    Start,
    Opened,
    OpenFailed,
    Slept,
    Advertised(Seq<Seq<char>>),
    ListFailed,
    Fetched,
    FetchFailed,
    Resolved(Seq<u8>),
    ResolveFailed,
    Compared(u64, u64),
    CompareFailed,
    Published,
}

/// An outcome's values.
pub open spec fn input_view(i: Input) -> InputView {
    match i {
        Input::Start => InputView::Start,
        Input::Opened => InputView::Opened,
        Input::OpenFailed => InputView::OpenFailed,
        Input::Slept => InputView::Slept,
        Input::Advertised(v) => InputView::Advertised(string_views(v@)),
        Input::ListFailed => InputView::ListFailed,
        Input::Fetched => InputView::Fetched,
        Input::FetchFailed => InputView::FetchFailed,
        Input::Resolved(v) => InputView::Resolved(v@),
        Input::ResolveFailed => InputView::ResolveFailed,
        Input::Compared(a, b) => InputView::Compared(a, b),
        Input::CompareFailed => InputView::CompareFailed,
        Input::Published => InputView::Published,
    }
}

/// What the caller is asked to do next.
#[derive(Debug)]
pub enum Action {
    /// Open the repository, or clone it from `origin` and add the other
    /// remotes.
    Open,
    /// Sleep for this many milliseconds.
    Sleep(u64),
    /// List the refs that this remote advertises.
    ListRefs(String),
    /// Fetch the branch from this remote, pruning stale remote-tracking refs.
    Fetch(String),
    /// Resolve this local branch to its tip commit.
    ResolveLocal(String),
    /// Count the commits of this local tip and of this remote-tracking ref
    /// that the other lacks.
    Compare(Vec<u8>, String),
    /// Hand this event to the hub.
    Publish(Event),
    /// Stop monitoring, for this reason.
    Stop(MonitorError),
}

/// The action that a transition calls for, as values. A startup delay is
/// drawn at random, and an event's id too, so neither is fixed here.
pub enum Planned {
    Open,
    Jitter,
    Sleep(u64),
    ListRefs(Seq<char>),
    Fetch(Seq<char>),
    ResolveLocal(Seq<char>),
    Compare(Seq<u8>, Seq<char>),
    Publish(Seq<(Seq<char>, Category)>),
    Stop(MonitorError),
}

/// A monitor, as values: its repository, branch, interval and remotes, its
/// phase, the local tip read in this tick, and this tick's counts so far.
pub struct MonitorView {
    pub repo: Seq<char>,
    pub branch: Seq<char>,
    pub interval_ms: u64,
    pub remotes: Seq<Seq<char>>,
    pub phase: Phase,
    pub local: Seq<u8>,
    pub counts: Seq<(u64, u64)>,
}

/// The advertised name of a branch on a remote.
pub open spec fn head_ref(branch: Seq<char>) -> Seq<char> {
    "refs/heads/"@ + branch
}

/// The remote-tracking ref of a branch for a remote.
pub open spec fn remote_ref(remote: Seq<char>, branch: Seq<char>) -> Seq<char> {
    remote + "/"@ + branch
}

/// A monitor moved to `phase`, all else kept.
pub open spec fn with_phase(s: MonitorView, phase: Phase) -> MonitorView {
    MonitorView {
        repo: s.repo,
        branch: s.branch,
        interval_ms: s.interval_ms,
        remotes: s.remotes,
        phase,
        local: s.local,
        counts: s.counts,
    }
}

/// A monitor moved to `phase` with this tick's local tip and counts.
pub open spec fn with_tick(
    s: MonitorView,
    phase: Phase,
    local: Seq<u8>,
    counts: Seq<(u64, u64)>,
) -> MonitorView {
    MonitorView {
        repo: s.repo,
        branch: s.branch,
        interval_ms: s.interval_ms,
        remotes: s.remotes,
        phase,
        local,
        counts,
    }
}

/// A monitor stopped for `e`.
pub open spec fn stop(s: MonitorView, e: MonitorError) -> (MonitorView, Planned) {
    (with_phase(s, Phase::Terminated), Planned::Stop(e))
}

/// The transition of a monitor on an outcome: its next state, and the
/// action it calls for.
pub open spec fn next(s: MonitorView, i: InputView) -> (MonitorView, Planned) {
    let n = s.remotes.len();
    match s.phase {
        Phase::Starting => match i {
            InputView::Start => (with_phase(s, Phase::Opening), Planned::Open),
            _ => stop(s, MonitorError::UnexpectedInput),
        },
        Phase::Opening => match i {
            InputView::Opened => (with_phase(s, Phase::Delaying), Planned::Jitter),
            InputView::OpenFailed => stop(s, MonitorError::OpenFailed),
            _ => stop(s, MonitorError::UnexpectedInput),
        },
        Phase::Delaying | Phase::Sleeping => match i {
            InputView::Slept => (with_phase(s, Phase::Listing(0)), Planned::ListRefs(s.remotes[0])),
            _ => stop(s, MonitorError::UnexpectedInput),
        },
        Phase::Listing(k) => match i {
            InputView::Advertised(refs) => if refs.contains(head_ref(s.branch)) {
                (with_phase(s, Phase::Fetching(k)), Planned::Fetch(s.remotes[k as int]))
            } else {
                stop(s, MonitorError::InvalidBranch)
            },
            InputView::ListFailed => stop(s, MonitorError::ListFailed),
            _ => stop(s, MonitorError::UnexpectedInput),
        },
        Phase::Fetching(k) => match i {
            InputView::Fetched => if k + 1 < n {
                (
                    with_phase(s, Phase::Listing((k + 1) as usize)),
                    Planned::ListRefs(s.remotes[k + 1]),
                )
            } else {
                (with_phase(s, Phase::ResolvingLocal), Planned::ResolveLocal(s.branch))
            },
            InputView::FetchFailed => stop(s, MonitorError::FetchFailed),
            _ => stop(s, MonitorError::UnexpectedInput),
        },
        Phase::ResolvingLocal => match i {
            InputView::Resolved(oid) => (
                with_tick(s, Phase::Comparing(0), oid, Seq::empty()),
                Planned::Compare(oid, remote_ref(s.remotes[0], s.branch)),
            ),
            InputView::ResolveFailed => stop(s, MonitorError::ResolveFailed),
            _ => stop(s, MonitorError::UnexpectedInput),
        },
        Phase::Comparing(k) => match i {
            InputView::Compared(a, b) => if k + 1 < n {
                (
                    with_tick(s, Phase::Comparing((k + 1) as usize), s.local, s.counts.push((a, b))),
                    Planned::Compare(s.local, remote_ref(s.remotes[k + 1], s.branch)),
                )
            } else {
                (
                    with_tick(s, Phase::Publishing, s.local, s.counts.push((a, b))),
                    Planned::Publish(statuses_of(s.remotes, s.counts.push((a, b)))),
                )
            },
            InputView::CompareFailed => stop(s, MonitorError::CompareFailed),
            _ => stop(s, MonitorError::UnexpectedInput),
        },
        Phase::Publishing => match i {
            InputView::Published => (with_phase(s, Phase::Sleeping), Planned::Sleep(s.interval_ms)),
            _ => stop(s, MonitorError::UnexpectedInput),
        },
        Phase::Terminated => (s, Planned::Stop(MonitorError::AlreadyTerminated)),
    }
}

/// Whether the action `a` carries out the planned one for monitor `s`.
pub open spec fn performs(a: Action, p: Planned, s: MonitorView) -> bool {
    match a {
        Action::Open => p == Planned::Open,
        Action::Sleep(ms) => p == Planned::Sleep(ms) || (p == Planned::Jitter && jitter_ok(
            s.interval_ms,
            ms,
        )),
        Action::ListRefs(r) => p == Planned::ListRefs(r@),
        Action::Fetch(r) => p == Planned::Fetch(r@),
        Action::ResolveLocal(b) => p == Planned::ResolveLocal(b@),
        Action::Compare(l, r) => p == Planned::Compare(l@, r@),
        Action::Publish(e) => p == Planned::Publish(e@.statuses) && e@.repo == s.repo && e@.branch
            == s.branch,
        Action::Stop(e) => p == Planned::Stop(e),
    }
}

/// The invariant of a monitor: a positive interval, at least one remote (and
/// no more than memory can index),
/// positions within the remotes, and one count per remote compared so far.
pub open spec fn monitor_wf(s: MonitorView) -> bool {
    &&& s.interval_ms > 0
    &&& 0 < s.remotes.len() <= usize::MAX
    &&& match s.phase {
        Phase::Listing(k) => k < s.remotes.len(),
        Phase::Fetching(k) => k < s.remotes.len(),
        Phase::Comparing(k) => k < s.remotes.len() && s.counts.len() == k,
        _ => true,
    }
}

/// A remote that does not advertise the watched branch stops that monitor
/// alone: given the same advertised refs, a sibling monitor of the same
/// repository whose branch is among them goes on to fetch it.
pub proof fn lemma_missing_branch_stops_only_its_monitor(
    s: MonitorView,
    sibling: MonitorView,
    refs: Seq<Seq<char>>,
)
    requires
        monitor_wf(s),
        monitor_wf(sibling),
        s.phase is Listing,
        sibling.phase is Listing,
        s.repo == sibling.repo,
        !refs.contains(head_ref(s.branch)),
        refs.contains(head_ref(sibling.branch)),
    ensures
        next(s, InputView::Advertised(refs)).0.phase == Phase::Terminated,
        next(s, InputView::Advertised(refs)).1 == Planned::Stop(MonitorError::InvalidBranch),
        next(sibling, InputView::Advertised(refs)).0.phase == Phase::Fetching(
            sibling.phase->Listing_0,
        ),
        next(sibling, InputView::Advertised(refs)).0.phase != Phase::Terminated,
{
}

/// The monitor after a run of outcomes, with the actions they call for in
/// turn.
pub open spec fn run_outcomes(s: MonitorView, inputs: Seq<InputView>) -> (MonitorView, Seq<Planned>)
    decreases inputs.len(),
{
    if inputs.len() == 0 {
        (s, Seq::empty())
    } else {
        let t = next(s, inputs[0]);
        let rest = run_outcomes(t.0, inputs.subrange(1, inputs.len() as int));
        (rest.0, seq![t.1] + rest.1)
    }
}

proof fn lemma_terminated_stays(s: MonitorView, inputs: Seq<InputView>)
    requires
        s.phase == Phase::Terminated,
    ensures
        run_outcomes(s, inputs).0 == s,
        forall|j: int|
            0 <= j < inputs.len() ==> #[trigger] run_outcomes(s, inputs).1[j] == Planned::Stop(
                MonitorError::AlreadyTerminated,
            ),
        run_outcomes(s, inputs).1.len() == inputs.len(),
    decreases inputs.len(),
{
    if inputs.len() > 0 {
        lemma_terminated_stays(s, inputs.subrange(1, inputs.len() as int));
    }
}

/// A remote that does not advertise the watched branch ends the monitor for
/// good: whatever outcomes come after, the monitor stays stopped, asks for
/// no fetch and publishes no event; its only actions are stops.
pub proof fn lemma_missing_branch_is_final(
    s: MonitorView,
    refs: Seq<Seq<char>>,
    later: Seq<InputView>,
)
    requires
        monitor_wf(s),
        s.phase is Listing,
        !refs.contains(head_ref(s.branch)),
    ensures
        ({
            let r = run_outcomes(s, seq![InputView::Advertised(refs)] + later);
            &&& r.0.phase == Phase::Terminated
            &&& r.1.len() == later.len() + 1
            &&& r.1[0] == Planned::Stop(MonitorError::InvalidBranch)
            &&& forall|j: int|
                1 <= j < r.1.len() ==> #[trigger] r.1[j] == Planned::Stop(
                    MonitorError::AlreadyTerminated,
                )
        }),
{
    let inputs = seq![InputView::Advertised(refs)] + later;
    let t = next(s, inputs[0]);
    assert(inputs.subrange(1, inputs.len() as int) =~= later);
    lemma_terminated_stays(t.0, later);
    let r = run_outcomes(s, inputs);
    assert forall|j: int| 1 <= j < r.1.len() implies #[trigger] r.1[j] == Planned::Stop(
        MonitorError::AlreadyTerminated,
    ) by {
        assert(r.1[j] == run_outcomes(t.0, later).1[j - 1]);
    }
}

/// Whether two monitors watch the same branch of the same repository, at
/// the same interval, against the same remotes.
pub open spec fn same_config(a: MonitorView, b: MonitorView) -> bool {
    &&& a.repo == b.repo
    &&& a.branch == b.branch
    &&& a.interval_ms == b.interval_ms
    &&& a.remotes == b.remotes
}

proof fn lemma_run_append(s: MonitorView, a: Seq<InputView>, b: Seq<InputView>)
    ensures
        run_outcomes(s, a + b) == (
            run_outcomes(run_outcomes(s, a).0, b).0,
            run_outcomes(s, a).1 + run_outcomes(run_outcomes(s, a).0, b).1,
        ),
    decreases a.len(),
{
    if a.len() == 0 {
        assert(a + b =~= b);
        assert(run_outcomes(s, a).1 + run_outcomes(s, b).1 =~= run_outcomes(s, b).1);
    } else {
        let t = next(s, a[0]);
        let rest_a = a.subrange(1, a.len() as int);
        assert((a + b)[0] == a[0]);
        assert((a + b).subrange(1, (a + b).len() as int) =~= rest_a + b);
        lemma_run_append(t.0, rest_a, b);
        let u = run_outcomes(t.0, rest_a).0;
        assert(seq![t.1] + (run_outcomes(t.0, rest_a).1 + run_outcomes(u, b).1) =~= (seq![t.1]
            + run_outcomes(t.0, rest_a).1) + run_outcomes(u, b).1);
    }
}

/// The outcomes of listing and fetching the remotes from position `k` on,
/// each advertising `refs`.
pub open spec fn fetch_inputs(k: nat, n: nat, refs: Seq<Seq<char>>) -> Seq<InputView>
    decreases n - k,
{
    if k >= n {
        Seq::empty()
    } else {
        seq![InputView::Advertised(refs), InputView::Fetched] + fetch_inputs(k + 1, n, refs)
    }
}

/// The actions that listing and fetching from position `k` on ask for: a
/// fetch from each remote, each followed by a listing of the next one, and
/// after the last fetch the reading of the local tip.
pub open spec fn fetch_plans(s: MonitorView, k: nat) -> Seq<Planned>
    decreases s.remotes.len() - k,
{
    if k + 1 >= s.remotes.len() {
        seq![Planned::Fetch(s.remotes[k as int]), Planned::ResolveLocal(s.branch)]
    } else {
        seq![Planned::Fetch(s.remotes[k as int]), Planned::ListRefs(s.remotes[k + 1 as int])]
            + fetch_plans(s, k + 1)
    }
}

proof fn lemma_fetch_plans_config(a: MonitorView, b: MonitorView, k: nat)
    requires
        a.remotes == b.remotes,
        a.branch == b.branch,
    ensures
        fetch_plans(a, k) == fetch_plans(b, k),
    decreases a.remotes.len() - k,
{
    if k + 1 < a.remotes.len() {
        lemma_fetch_plans_config(a, b, k + 1);
    }
}

proof fn lemma_run_fetches(s: MonitorView, refs: Seq<Seq<char>>, k: nat)
    requires
        monitor_wf(s),
        s.phase == Phase::Listing(k as usize),
        k < s.remotes.len(),
        refs.contains(head_ref(s.branch)),
    ensures
        run_outcomes(s, fetch_inputs(k, s.remotes.len(), refs)) == (
            with_phase(s, Phase::ResolvingLocal),
            fetch_plans(s, k),
        ),
    decreases s.remotes.len() - k,
{
    let n = s.remotes.len();
    let pair = seq![InputView::Advertised(refs), InputView::Fetched];
    let rest = fetch_inputs(k + 1, n, refs);
    assert(fetch_inputs(k, n, refs) == pair + rest);
    lemma_run_append(s, pair, rest);
    let t1 = next(s, pair[0]);
    let t2 = next(t1.0, pair[1]);
    assert(pair.subrange(1, 2) =~= seq![InputView::Fetched]);
    assert(seq![InputView::Fetched].subrange(1, 1) =~= Seq::<InputView>::empty());
    assert(run_outcomes(t2.0, Seq::<InputView>::empty()) == (t2.0, Seq::<Planned>::empty()));
    assert(run_outcomes(t1.0, seq![InputView::Fetched]) == (t2.0, seq![t2.1] + Seq::<
        Planned,
    >::empty()));
    assert(run_outcomes(s, pair) == (t2.0, seq![t1.1] + (seq![t2.1] + Seq::<Planned>::empty())));
    assert(seq![t1.1] + (seq![t2.1] + Seq::<Planned>::empty()) =~= seq![t1.1, t2.1]);
    if k + 1 < n {
        lemma_run_fetches(t2.0, refs, k + 1);
        lemma_fetch_plans_config(t2.0, s, k + 1);
        assert(with_phase(t2.0, Phase::ResolvingLocal) == with_phase(s, Phase::ResolvingLocal));
        assert(seq![t1.1, t2.1] + fetch_plans(s, k + 1) =~= fetch_plans(s, k));
    } else {
        assert(rest =~= Seq::<InputView>::empty());
        assert(seq![t1.1, t2.1] + Seq::<Planned>::empty() =~= fetch_plans(s, k));
    }
}

/// The outcomes of one whole tick in which every remote advertises the
/// branch (`refs`), the local tip reads `local`, and the comparisons give
/// `cs`, one per remote.
pub open spec fn tick_inputs(
    n: nat,
    refs: Seq<Seq<char>>,
    local: Seq<u8>,
    cs: Seq<(u64, u64)>,
) -> Seq<InputView> {
    seq![InputView::Slept] + fetch_inputs(0, n, refs) + seq![InputView::Resolved(local)]
        + compared_inputs(cs) + seq![InputView::Published]
}

/// One whole tick: after the sleep the monitor lists and fetches every remote
/// in turn, reads the local tip once, compares that one tip with every
/// remote in turn, publishes exactly one event, whose statuses are one per
/// remote in order and made from this tick's counts alone, and sleeps for
/// the interval. It then stands at the start of the next tick with the same
/// configuration, so the same holds of every tick.
pub proof fn lemma_whole_tick(
    s: MonitorView,
    refs: Seq<Seq<char>>,
    local: Seq<u8>,
    cs: Seq<(u64, u64)>,
)
    requires
        monitor_wf(s),
        s.phase == Phase::Delaying || s.phase == Phase::Sleeping,
        refs.contains(head_ref(s.branch)),
        cs.len() == s.remotes.len(),
    ensures
        ({
            let r = run_outcomes(s, tick_inputs(s.remotes.len(), refs, local, cs));
            &&& r.0.phase == Phase::Sleeping
            &&& same_config(r.0, s)
            &&& monitor_wf(r.0)
            &&& r.1 == seq![Planned::ListRefs(s.remotes[0])] + fetch_plans(s, 0) + compare_plans(
                s,
                local,
                0,
            ) + seq![
                Planned::Publish(statuses_of(s.remotes, cs)),
                Planned::Sleep(s.interval_ms),
            ]
        }),
{
    let n = s.remotes.len();
    let a = seq![InputView::Slept];
    let f = fetch_inputs(0, n, refs);
    let c = seq![InputView::Resolved(local)] + compared_inputs(cs);
    let p = seq![InputView::Published];
    assert(tick_inputs(n, refs, local, cs) =~= a + (f + (c + p)));
    let s1 = next(s, InputView::Slept);
    assert(a.subrange(1, 1) =~= Seq::<InputView>::empty());
    assert(run_outcomes(s1.0, Seq::<InputView>::empty()) == (s1.0, Seq::<Planned>::empty()));
    assert(run_outcomes(s, a) == (s1.0, seq![s1.1] + Seq::<Planned>::empty()));
    lemma_run_append(s, a, f + (c + p));
    lemma_run_append(s1.0, f, c + p);
    lemma_run_fetches(s1.0, refs, 0);
    let s2 = with_phase(s, Phase::ResolvingLocal);
    assert(with_phase(s1.0, Phase::ResolvingLocal) == s2);
    lemma_fetch_plans_config(s1.0, s, 0);
    lemma_run_append(s2, c, p);
    lemma_tick_compares_one_local_tip(s2, local, cs);
    let u = run_outcomes(s2, c).0;
    let v = next(u, InputView::Published);
    assert(p.subrange(1, 1) =~= Seq::<InputView>::empty());
    assert(run_outcomes(v.0, Seq::<InputView>::empty()) == (v.0, Seq::<Planned>::empty()));
    assert(run_outcomes(u, p) == (v.0, seq![v.1] + Seq::<Planned>::empty()));
    assert(compare_plans(s2, local, 0) == compare_plans(s, local, 0));
    let r = run_outcomes(s, tick_inputs(n, refs, local, cs));
    assert(r.1 =~= seq![Planned::ListRefs(s.remotes[0])] + fetch_plans(s, 0) + compare_plans(
        s,
        local,
        0,
    ) + seq![Planned::Publish(statuses_of(s.remotes, cs)), Planned::Sleep(s.interval_ms)]);
}

/// The outcomes of comparing with each remote in turn.
pub open spec fn compared_inputs(cs: Seq<(u64, u64)>) -> Seq<InputView> {
    cs.map_values(|c: (u64, u64)| InputView::Compared(c.0, c.1))
}

/// The comparisons that a tick asks for, one per remote in order, all
/// against the local tip `local`.
pub open spec fn compare_plans(s: MonitorView, local: Seq<u8>, from: nat) -> Seq<Planned> {
    Seq::new(
        (s.remotes.len() - from) as nat,
        |i: int| Planned::Compare(local, remote_ref(s.remotes[from + i], s.branch)),
    )
}

proof fn lemma_run_compares(s: MonitorView, cs: Seq<(u64, u64)>, k: nat)
    requires
        monitor_wf(s),
        s.phase == Phase::Comparing(k as usize),
        k < s.remotes.len(),
        cs.len() == s.remotes.len(),
        s.counts == cs.subrange(0, k as int),
    ensures
        run_outcomes(s, compared_inputs(cs.subrange(k as int, cs.len() as int))).0.phase
            == Phase::Publishing,
        same_config(run_outcomes(s, compared_inputs(cs.subrange(k as int, cs.len() as int))).0, s),
        run_outcomes(s, compared_inputs(cs.subrange(k as int, cs.len() as int))).1 == compare_plans(
            s,
            s.local,
            k + 1,
        ) + seq![Planned::Publish(statuses_of(s.remotes, cs))],
    decreases s.remotes.len() - k,
{
    let n = s.remotes.len();
    let inputs = compared_inputs(cs.subrange(k as int, n as int));
    assert(inputs[0] == InputView::Compared(cs[k as int].0, cs[k as int].1));
    assert(s.counts.push((cs[k as int].0, cs[k as int].1)) =~= cs.subrange(0, k + 1 as int));
    let t = next(s, inputs[0]);
    assert(inputs.len() == n - k);
    assert(run_outcomes(s, inputs) == (
        run_outcomes(t.0, inputs.subrange(1, inputs.len() as int)).0,
        seq![t.1] + run_outcomes(t.0, inputs.subrange(1, inputs.len() as int)).1,
    ));
    if k + 1 < n {
        assert(inputs.subrange(1, inputs.len() as int) =~= compared_inputs(
            cs.subrange(k + 1 as int, n as int),
        ));
        lemma_run_compares(t.0, cs, k + 1);
        assert(seq![t.1] + compare_plans(t.0, t.0.local, k + 2 as nat) =~= compare_plans(
            s,
            s.local,
            k + 1,
        ));
        assert(seq![t.1] + (compare_plans(t.0, t.0.local, k + 2 as nat) + seq![
            Planned::Publish(statuses_of(s.remotes, cs)),
        ]) =~= compare_plans(s, s.local, k + 1) + seq![
            Planned::Publish(statuses_of(s.remotes, cs)),
        ]);
    } else {
        assert(cs.subrange(0, k + 1 as int) =~= cs);
        assert(inputs.subrange(1, inputs.len() as int) =~= Seq::<InputView>::empty());
        assert(run_outcomes(t.0, inputs.subrange(1, inputs.len() as int)) == (t.0, Seq::<Planned>::empty()));
        assert(compare_plans(s, s.local, k + 1) =~= Seq::<Planned>::empty());
        assert(seq![t.1] + Seq::<Planned>::empty() =~= Seq::<Planned>::empty() + seq![
            Planned::Publish(statuses_of(s.remotes, cs)),
        ]);
    }
}

/// Every tick compares one local tip with every remote: once the local tip
/// `local` is read, the monitor compares that same tip with each remote's
/// tracking ref, in the remotes' order, and then publishes one event with
/// exactly one status per remote, in that order, made from this tick's
/// counts alone, whatever earlier ticks found.
pub proof fn lemma_tick_compares_one_local_tip(
    s: MonitorView,
    local: Seq<u8>,
    cs: Seq<(u64, u64)>,
)
    requires
        monitor_wf(s),
        s.phase == Phase::ResolvingLocal,
        cs.len() == s.remotes.len(),
    ensures
        run_outcomes(s, seq![InputView::Resolved(local)] + compared_inputs(cs)).0.phase
            == Phase::Publishing,
        same_config(run_outcomes(s, seq![InputView::Resolved(local)] + compared_inputs(cs)).0, s),
        run_outcomes(s, seq![InputView::Resolved(local)] + compared_inputs(cs)).1 == compare_plans(
            s,
            local,
            0,
        ) + seq![Planned::Publish(statuses_of(s.remotes, cs))],
{
    let inputs = seq![InputView::Resolved(local)] + compared_inputs(cs);
    let t = next(s, inputs[0]);
    assert(t.0.counts =~= cs.subrange(0, 0));
    assert(inputs.subrange(1, inputs.len() as int) =~= compared_inputs(
        cs.subrange(0, cs.len() as int),
    ));
    lemma_run_compares(t.0, cs, 0);
    assert(seq![t.1] + compare_plans(t.0, local, 1) =~= compare_plans(s, local, 0));
    assert(seq![t.1] + (compare_plans(t.0, local, 1) + seq![
        Planned::Publish(statuses_of(s.remotes, cs)),
    ]) =~= compare_plans(s, local, 0) + seq![Planned::Publish(statuses_of(s.remotes, cs))]);
}

/// A status of `UpToDate` for each remote, in order.
pub open spec fn all_up_to_date(remotes: Seq<Seq<char>>) -> Seq<(Seq<char>, Category)> {
    Seq::new(remotes.len(), |i: int| (remotes[i], Category::UpToDate))
}

/// Polling twice when neither side has new commits reports every remote as
/// up to date both times: two ticks in a row whose comparisons find nothing
/// ahead or behind each publish an event whose status is `UpToDate` for each
/// remote, in order, and the second tick starts from where the first ended.
pub proof fn lemma_quiet_polls_up_to_date(s: MonitorView, refs: Seq<Seq<char>>, local: Seq<u8>)
    requires
        monitor_wf(s),
        s.phase == Phase::Delaying || s.phase == Phase::Sleeping,
        refs.contains(head_ref(s.branch)),
    ensures
        ({
            let n = s.remotes.len();
            let quiet = Seq::new(n, |i: int| (0u64, 0u64));
            let first = run_outcomes(s, tick_inputs(n, refs, local, quiet));
            let second = run_outcomes(first.0, tick_inputs(n, refs, local, quiet));
            &&& first.1[first.1.len() - 2] == Planned::Publish(all_up_to_date(s.remotes))
            &&& second.1[second.1.len() - 2] == Planned::Publish(all_up_to_date(s.remotes))
            &&& second.0.phase == Phase::Sleeping
        }),
{
    let n = s.remotes.len();
    let quiet = Seq::new(n, |i: int| (0u64, 0u64));
    assert(statuses_of(s.remotes, quiet) =~= all_up_to_date(s.remotes));
    lemma_whole_tick(s, refs, local, quiet);
    let first = run_outcomes(s, tick_inputs(n, refs, local, quiet));
    lemma_whole_tick(first.0, refs, local, quiet);
}

/// A monitor of one (repository, branch) pair.
pub struct Monitor {
    repo: String,
    branch: String,
    interval_ms: u64,
    remotes: Vec<String>,
    phase: Phase,
    local: Vec<u8>,
    counts: Vec<(u64, u64)>,
}

impl View for Monitor {
    type V = MonitorView;

    closed spec fn view(&self) -> MonitorView {
        MonitorView {
            repo: self.repo@,
            branch: self.branch@,
            interval_ms: self.interval_ms,
            remotes: string_views(self.remotes@),
            phase: self.phase,
            local: self.local@,
            counts: self.counts@,
        }
    }
}

/// A copy of a list of names.
fn copy_names(v: &Vec<String>) -> (r: Vec<String>)
    ensures
        string_views(r@) == string_views(v@),
{
    let mut r: Vec<String> = Vec::new();
    let mut i: usize = 0;
    while i < v.len()
        invariant
            i <= v@.len(),
            string_views(r@) == string_views(v@).subrange(0, i as int),
        decreases v@.len() - i,
    {
        let ghost before = r@;
        let s = v[i].clone();
        r.push(s);
        proof {
            assert(string_views(r@) =~= string_views(before).push(s@));
            assert(string_views(r@) =~= string_views(v@).subrange(0, i + 1));
        }
        i = i + 1;
    }
    proof {
        assert(string_views(v@).subrange(0, i as int) =~= string_views(v@));
    }
    r
}

/// The advertised name of a branch.
fn head_ref_of(branch: &String) -> (r: String)
    ensures
        r@ == head_ref(branch@),
{
    let mut r = String::new();
    r.append("refs/heads/");
    r.append(branch.as_str());
    r
}

/// The remote-tracking ref of a branch for a remote.
fn remote_ref_of(remote: &String, branch: &String) -> (r: String)
    ensures
        r@ == remote_ref(remote@, branch@),
{
    let mut r = remote.clone();
    r.append("/");
    r.append(branch.as_str());
    r
}

impl Monitor {
    /// A monitor, not yet started, for the configured branch; an error where
    /// the configuration cannot be monitored.
    pub fn new(config: &MonitorConfig) -> (r: Result<Monitor, ConfigError>)
        ensures
            r is Ok <==> branch_valid(*config.branch(), config.remotes()@),
            r is Ok ==> {
                let m = r->Ok_0@;
                &&& monitor_wf(m)
                &&& m.repo == config.repo_name()@
                &&& m.branch == config.branch().name@
                &&& m.interval_ms == config.branch().interval_ms
                &&& m.remotes == string_views(config.branch().remotes@)
                &&& m.phase == Phase::Starting
            },
    {
        match config.validate() {
            Ok(()) => {},
            Err(e) => {
                return Err(e);
            },
        }
        let branch = config.branch();
        let m = Monitor {
            repo: config.repo_name().clone(),
            branch: branch.name.clone(),
            interval_ms: branch.interval_ms,
            remotes: copy_names(&branch.remotes),
            phase: Phase::Starting,
            local: Vec::new(),
            counts: Vec::new(),
        };
        let count: usize = m.remotes.len();
        proof {
            assert(string_views(m.remotes@).len() == count);
        }
        Ok(m)
    }

    /// The phase the monitor is in.
    pub fn phase(&self) -> (r: Phase)
        ensures
            r == self@.phase,
    {
        self.phase
    }

    /// Whether the monitor has stopped for good.
    pub fn is_terminated(&self) -> (r: bool)
        ensures
            r == (self@.phase == Phase::Terminated),
    {
        self.phase == Phase::Terminated
    }

    /// Moves to the state that stops for `e`.
    fn stop(&mut self, e: MonitorError) -> (a: Action)
        requires
            monitor_wf(old(self)@),
        ensures
            monitor_wf(final(self)@),
            final(self)@ == stop(old(self)@, e).0,
            performs(a, stop(old(self)@, e).1, old(self)@),
    {
        self.phase = Phase::Terminated;
        Action::Stop(e)
    }

    /// Takes the outcome of the last action and gives the next action.
    pub fn step(&mut self, input: Input) -> (a: Action)
        requires
            monitor_wf(old(self)@),
        ensures
            monitor_wf(final(self)@),
            final(self)@ == next(old(self)@, input_view(input)).0,
            performs(a, next(old(self)@, input_view(input)).1, old(self)@),
    {
        let ghost iv = input_view(input);
        proof {
            assert(string_views(self.remotes@).len() == self.remotes@.len());
        }
        match self.phase {
            Phase::Starting => match input {
                Input::Start => {
                    self.phase = Phase::Opening;
                    Action::Open
                },
                _ => self.stop(MonitorError::UnexpectedInput),
            },
            Phase::Opening => match input {
                Input::Opened => {
                    self.phase = Phase::Delaying;
                    Action::Sleep(startup_delay(self.interval_ms))
                },
                Input::OpenFailed => self.stop(MonitorError::OpenFailed),
                _ => self.stop(MonitorError::UnexpectedInput),
            },
            Phase::Delaying | Phase::Sleeping => match input {
                Input::Slept => {
                    self.phase = Phase::Listing(0);
                    Action::ListRefs(self.remotes[0].clone())
                },
                _ => self.stop(MonitorError::UnexpectedInput),
            },
            Phase::Listing(k) => match input {
                Input::Advertised(refs) => {
                    let head = head_ref_of(&self.branch);
                    if crate::config::contains_name(&refs, &head) {
                        self.phase = Phase::Fetching(k);
                        Action::Fetch(self.remotes[k].clone())
                    } else {
                        self.stop(MonitorError::InvalidBranch)
                    }
                },
                Input::ListFailed => self.stop(MonitorError::ListFailed),
                _ => self.stop(MonitorError::UnexpectedInput),
            },
            Phase::Fetching(k) => match input {
                Input::Fetched => {
                    if k < self.remotes.len() - 1 {
                        self.phase = Phase::Listing(k + 1);
                        Action::ListRefs(self.remotes[k + 1].clone())
                    } else {
                        self.phase = Phase::ResolvingLocal;
                        Action::ResolveLocal(self.branch.clone())
                    }
                },
                Input::FetchFailed => self.stop(MonitorError::FetchFailed),
                _ => self.stop(MonitorError::UnexpectedInput),
            },
            Phase::ResolvingLocal => match input {
                Input::Resolved(oid) => {
                    let remote = remote_ref_of(&self.remotes[0], &self.branch);
                    let local = copy_bytes(&oid);
                    self.local = oid;
                    self.counts = Vec::new();
                    self.phase = Phase::Comparing(0);
                    Action::Compare(local, remote)
                },
                Input::ResolveFailed => self.stop(MonitorError::ResolveFailed),
                _ => self.stop(MonitorError::UnexpectedInput),
            },
            Phase::Comparing(k) => match input {
                Input::Compared(ahead, behind) => {
                    self.counts.push((ahead, behind));
                    if k < self.remotes.len() - 1 {
                        self.phase = Phase::Comparing(k + 1);
                        let remote = remote_ref_of(&self.remotes[k + 1], &self.branch);
                        Action::Compare(copy_bytes(&self.local), remote)
                    } else {
                        self.phase = Phase::Publishing;
                        let event = Event::new(
                            self.repo.clone(),
                            self.branch.clone(),
                            new_event_id(),
                            &self.remotes,
                            &self.counts,
                        );
                        Action::Publish(event)
                    }
                },
                Input::CompareFailed => self.stop(MonitorError::CompareFailed),
                _ => self.stop(MonitorError::UnexpectedInput),
            },
            Phase::Publishing => match input {
                Input::Published => {
                    self.phase = Phase::Sleeping;
                    Action::Sleep(self.interval_ms)
                },
                _ => self.stop(MonitorError::UnexpectedInput),
            },
            Phase::Terminated => Action::Stop(MonitorError::AlreadyTerminated),
        }
    }
}

/// A copy of a byte string.
fn copy_bytes(v: &Vec<u8>) -> (r: Vec<u8>)
    ensures
        r@ == v@,
{
    v.clone()
}

} // verus!
