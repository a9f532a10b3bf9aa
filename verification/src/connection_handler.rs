//! Upstream connections: which upstream to dial, its handshake, and the count of the
//! connections routed to it.

use vstd::prelude::*;

use crate::frame::{Frame, FrameModel};
use crate::functions::select_backend_server;
use crate::models::{Server, ServerConfigDb, ServerState, ServerStateDb};

verus! {

// ---------------------------------------------------------------------------
// Connection counts and liveness
// ---------------------------------------------------------------------------

/// The states after the state under `endpoint`, where there is one, became `state`.
pub open spec fn with_state(
    states: Map<Seq<char>, ServerState>,
    endpoint: Seq<char>,
    state: ServerState,
) -> Map<Seq<char>, ServerState> {
    if states.contains_key(endpoint) {
        states.insert(endpoint, state)
    } else {
        states
    }
}

/// The states with one more connection on `endpoint`. The counter wraps.
pub open spec fn acquired(
    states: Map<Seq<char>, ServerState>,
    endpoint: Seq<char>,
) -> Map<Seq<char>, ServerState> {
    let s = states[endpoint];
    with_state(
        states,
        endpoint,
        ServerState {
            connections: if s.connections == usize::MAX {
                0
            } else {
                (s.connections + 1) as usize
            },
            ..s
        },
    )
}

/// The states with one connection less on `endpoint`; never below zero.
pub open spec fn released(
    states: Map<Seq<char>, ServerState>,
    endpoint: Seq<char>,
) -> Map<Seq<char>, ServerState> {
    let s = states[endpoint];
    with_state(
        states,
        endpoint,
        ServerState {
            connections: if s.connections == 0 {
                0
            } else {
                (s.connections - 1) as usize
            },
            ..s
        },
    )
}

/// The states with `endpoint` offline.
pub open spec fn offline(
    states: Map<Seq<char>, ServerState>,
    endpoint: Seq<char>,
) -> Map<Seq<char>, ServerState> {
    with_state(states, endpoint, ServerState { online: false, ..states[endpoint] })
}

/// Giving a connection back undoes taking it. (A counter that wrapped to zero stays
/// there.)
pub proof fn law_release_undoes_acquire(states: Map<Seq<char>, ServerState>, endpoint: Seq<char>)
    requires
        states.contains_key(endpoint) ==> states[endpoint].connections < usize::MAX,
    ensures
        released(acquired(states, endpoint), endpoint) == states,
{
    assert(released(acquired(states, endpoint), endpoint) =~= states);
}

/// An upstream that is marked offline is not selected, whatever the request.
pub proof fn law_offline_not_selected(
    states: Map<Seq<char>, ServerState>,
    requested_block: Option<u32>,
    endpoint: Seq<char>,
)
    ensures
        !crate::functions::best_choice(offline(states, endpoint), requested_block, endpoint),
{
}

/// Taking a connection counts one more on that upstream, giving it back one less, down to
/// none, and marking it offline only marks it. Nothing else of it changes, no other upstream
/// changes, and none is added. (A counter at its limit starts again at zero.)
pub proof fn law_counts_and_marks(
    states: Map<Seq<char>, ServerState>,
    endpoint: Seq<char>,
    other: Seq<char>,
)
    ensures
        acquired(states, endpoint).dom() == states.dom(),
        released(states, endpoint).dom() == states.dom(),
        offline(states, endpoint).dom() == states.dom(),
        states.contains_key(other) && other != endpoint ==> {
            &&& acquired(states, endpoint)[other] == states[other]
            &&& released(states, endpoint)[other] == states[other]
            &&& offline(states, endpoint)[other] == states[other]
        },
        states.contains_key(endpoint) ==> {
            let state = states[endpoint];
            &&& acquired(states, endpoint)[endpoint] == (ServerState {
                connections: if state.connections < usize::MAX {
                    (state.connections + 1) as usize
                } else {
                    0
                },
                ..state
            })
            &&& released(states, endpoint)[endpoint] == (ServerState {
                connections: if state.connections > 0 {
                    (state.connections - 1) as usize
                } else {
                    0
                },
                ..state
            })
            &&& offline(states, endpoint)[endpoint] == (ServerState { online: false, ..state })
        },
{
    assert(acquired(states, endpoint).dom() =~= states.dom());
    assert(released(states, endpoint).dom() =~= states.dom());
    assert(offline(states, endpoint).dom() =~= states.dom());
}

/// Takes one connection less on an upstream into account, never going below zero.
pub fn dec(states: &mut ServerStateDb, endpoint: &str)
    ensures
        final(states)@ == released(old(states)@, endpoint@),
        final(states).keys() == old(states).keys(),
{
    if let Some(at) = states.position(endpoint) {
        let mut state: ServerState = *states.value_at(at);
        state.connections = if state.connections == 0 {
            0
        } else {
            state.connections - 1
        };
        states.set_at(at, state);
    }
}

/// Marks an upstream offline until its monitor sees it again.
pub fn mark_offline(states: &mut ServerStateDb, endpoint: &str)
    ensures
        final(states)@ == offline(old(states)@, endpoint@),
        final(states).keys() == old(states).keys(),
{
    if let Some(at) = states.position(endpoint) {
        let mut state: ServerState = *states.value_at(at);
        state.online = false;
        states.set_at(at, state);
    }
}

/// Holds one unit of an upstream's active-connection counter.
#[derive(Debug)]
pub struct ConnectionGuard {
    /// The upstream that the connection is routed to.
    pub endpoint: String,
}

impl ConnectionGuard {
    /// Gives the connection back.
    pub fn release(self, states: &mut ServerStateDb)
        ensures
            final(states)@ == released(old(states)@, self.endpoint@),
            final(states).keys() == old(states).keys(),
    {
        dec(states, &self.endpoint);
    }
}

// ---------------------------------------------------------------------------
// Choosing an upstream
// ---------------------------------------------------------------------------

/// An attempt to connect to an upstream: the endpoint that was selected, whose
/// connection is already counted, and what to dial.
#[derive(Debug)]
pub struct Attempt {
    pub selected: String,
    pub server: Server,
}

/// Every selectable upstream has a configuration.
pub open spec fn configured(
    states: Map<Seq<char>, ServerState>,
    configs: Map<Seq<char>, Server>,
) -> bool {
    forall|k: Seq<char>| #[trigger] states.contains_key(k) ==> configs.contains_key(k)
}

/// Select a backend and optimistically increment its counter. `None`, with nothing
/// changed, where no upstream can be selected or the selected one has no configuration.
pub fn begin_attempt(
    states: &mut ServerStateDb,
    configs: &ServerConfigDb,
    requested_block: Option<u32>,
) -> (attempt: Option<Attempt>)
    ensures
        final(states).keys() == old(states).keys(),
        match attempt {
            Some(a) => {
                &&& crate::functions::best_choice(old(states)@, requested_block, a.selected@)
                &&& configs@.contains_key(a.selected@)
                &&& a.server == configs@[a.selected@]
                &&& final(states)@ == acquired(old(states)@, a.selected@)
            },
            None => {
                &&& final(states)@ == old(states)@
                &&& crate::functions::any_usable(old(states)@) ==> exists|k: Seq<char>|
                    !configs@.contains_key(k) && #[trigger] crate::functions::best_choice(
                        old(states)@,
                        requested_block,
                        k,
                    )
            },
        },
        configured(old(states)@, configs@) ==> (attempt is Some <==> crate::functions::any_usable(
            old(states)@,
        )),
{
    let selected = match select_backend_server(states, requested_block) {
        Ok(endpoint) => endpoint,
        Err(_) => {
            return None;
        },
    };
    let at: usize = match states.position(&selected) {
        Some(at) => at,
        None => {
            return None;
        },
    };
    let server: Server = match configs.get(&selected) {
        Some(server) => server.clone(),
        None => {
            return None;
        },
    };
    let mut state: ServerState = *states.value_at(at);
    state.connections = if state.connections == usize::MAX {
        0
    } else {
        state.connections + 1
    };
    states.set_at(at, state);
    Some(Attempt { selected, server })
}

impl Attempt {
    /// The upstream could not be reached, or its handshake failed: its connection is
    /// given back and it is marked offline.
    pub fn failed(self, states: &mut ServerStateDb)
        ensures
            final(states)@ == offline(
                released(old(states)@, self.selected@),
                self.server.endpoint@,
            ),
            final(states).keys() == old(states).keys(),
    {
        dec(states, &self.selected);
        mark_offline(states, &self.server.endpoint);
    }

    /// The upstream is connected: the connection stays counted while the guard is held.
    pub fn succeeded(self) -> (guard: ConnectionGuard)
        ensures
            guard.endpoint@ == self.selected@,
    {
        ConnectionGuard { endpoint: self.selected }
    }
}

/// After a failed attempt every connection count is what it was before the attempt, the
/// upstream is offline, and no other upstream has changed.
pub proof fn law_failed_attempt(states: Map<Seq<char>, ServerState>, endpoint: Seq<char>)
    requires
        states.contains_key(endpoint),
        states[endpoint].connections < usize::MAX,
    ensures
        offline(released(acquired(states, endpoint), endpoint), endpoint) == offline(
            states,
            endpoint,
        ),
{
    law_release_undoes_acquire(states, endpoint);
}

/// A failover moves one connection from the lost upstream to the one that was found, and
/// changes nothing else; where the same upstream is found again, nothing changes.
pub proof fn law_failover_moves_one_connection(
    states: Map<Seq<char>, ServerState>,
    lost: Seq<char>,
    found: Seq<char>,
)
    requires
        states.contains_key(lost),
        states.contains_key(found),
        states[lost].connections > 0,
        states[found].connections < usize::MAX,
    ensures
        ({
            let after = released(acquired(states, found), lost);
            &&& lost == found ==> after == states
            &&& lost != found ==> after == states.insert(
                lost,
                ServerState {
                    connections: (states[lost].connections - 1) as usize,
                    ..states[lost]
                },
            ).insert(
                found,
                ServerState {
                    connections: (states[found].connections + 1) as usize,
                    ..states[found]
                },
            )
        }),
{
    let after = released(acquired(states, found), lost);
    if lost == found {
        assert(after =~= states);
    } else {
        assert(after =~= states.insert(
            lost,
            ServerState { connections: (states[lost].connections - 1) as usize, ..states[lost] },
        ).insert(
            found,
            ServerState { connections: (states[found].connections + 1) as usize, ..states[found] },
        ));
    }
}

/// The attempts that are left to establish an upstream connection.
#[derive(Debug)]
pub struct Establish {
    /// How many more upstreams may be tried.
    pub attempts_left: u32,
    /// The block that the upstream should have, where one is asked for.
    pub requested_block: Option<u32>,
}

/// What to do next to establish an upstream connection.
#[derive(Debug)]
pub enum EstablishStep {
    /// Connect to this upstream.
    Dial(Attempt),
    /// This attempt found no upstream; there may be another one.
    Again,
    /// All attempts are used up.
    GiveUp,
}

/// The model of an `EstablishStep`: a dial by the endpoint that was selected.
pub enum StepModel {
    Dial(Seq<char>),
    Again,
    GiveUp,
}

impl View for EstablishStep {
    type V = StepModel;

    open spec fn view(&self) -> StepModel {
        match self {
            EstablishStep::Dial(attempt) => StepModel::Dial(attempt.selected@),
            EstablishStep::Again => StepModel::Again,
            EstablishStep::GiveUp => StepModel::GiveUp,
        }
    }
}

/// Whether a step may follow, with `attempts_left` attempts left: no attempt is left
/// exactly where it gives up; it dials one of the best upstreams, and none exactly where
/// none can be selected or the selected one has no configuration.
pub open spec fn step_allowed(
    attempts_left: int,
    states: Map<Seq<char>, ServerState>,
    configs: Map<Seq<char>, Server>,
    requested_block: Option<u32>,
    step: StepModel,
) -> bool {
    &&& step is GiveUp <==> attempts_left <= 0
    &&& match step {
        StepModel::Dial(k) => crate::functions::best_choice(states, requested_block, k)
            && configs.contains_key(k),
        StepModel::Again => crate::functions::any_usable(states) ==> exists|k: Seq<char>|
            !configs.contains_key(k) && #[trigger] crate::functions::best_choice(
                states,
                requested_block,
                k,
            ),
        StepModel::GiveUp => true,
    }
}

/// The states after a step: a dialed upstream's connection is counted.
pub open spec fn after_step(
    states: Map<Seq<char>, ServerState>,
    step: StepModel,
) -> Map<Seq<char>, ServerState> {
    match step {
        StepModel::Dial(k) => acquired(states, k),
        _ => states,
    }
}

/// What a step may be. It gives up exactly where no attempt is left. What it dials is
/// enabled, online and configured, and its connection is counted, once and nowhere else.
/// It goes without a dial, with nothing changed, only where no upstream is enabled and
/// online, or where one without a configuration comes first.
pub proof fn law_step(
    attempts_left: int,
    states: Map<Seq<char>, ServerState>,
    configs: Map<Seq<char>, Server>,
    requested_block: Option<u32>,
    step: StepModel,
)
    requires
        step_allowed(attempts_left, states, configs, requested_block, step),
    ensures
        step is GiveUp <==> attempts_left <= 0,
        step !is Dial ==> after_step(states, step) == states,
        step matches StepModel::Dial(k) ==> {
            &&& states.contains_key(k) && states[k].enabled && states[k].online
            &&& configs.contains_key(k)
            &&& crate::functions::best_choice(states, requested_block, k)
            &&& after_step(states, step)[k].connections == if states[k].connections < usize::MAX {
                states[k].connections + 1
            } else {
                0
            }
            &&& forall|other: Seq<char>| #[trigger]
                states.contains_key(other) && other != k ==> after_step(states, step)[other]
                    == states[other]
        },
        step is Again && (exists|k: Seq<char>| #[trigger]
            states.contains_key(k) && states[k].enabled && states[k].online) ==> exists|k: Seq<
            char,
        >|
            !configs.contains_key(k) && #[trigger] crate::functions::best_choice(
                states,
                requested_block,
                k,
            ),
{
    crate::functions::law_selectable(states);
}

impl Establish {
    /// Up to `max_attempts` attempts, for an upstream that has `requested_block`.
    pub fn new(max_attempts: u32, requested_block: Option<u32>) -> (e: Establish)
        ensures
            e.attempts_left == max_attempts,
            e.requested_block == requested_block,
    {
        Establish { attempts_left: max_attempts, requested_block }
    }

    /// Starts the next attempt.
    pub fn next(&mut self, states: &mut ServerStateDb, configs: &ServerConfigDb) -> (step:
        EstablishStep)
        ensures
            final(states).keys() == old(states).keys(),
            final(self).requested_block == old(self).requested_block,
            step_allowed(
                old(self).attempts_left as int,
                old(states)@,
                configs@,
                old(self).requested_block,
                step@,
            ),
            final(states)@ == after_step(old(states)@, step@),
            step matches EstablishStep::Dial(a) ==> a.server == configs@[a.selected@],
            final(self).attempts_left == if old(self).attempts_left == 0 {
                0
            } else {
                old(self).attempts_left - 1
            },
            old(self).attempts_left > 0 && configured(old(states)@, configs@) ==> (step is Dial
                <==> crate::functions::any_usable(old(states)@)),
    {
        if self.attempts_left == 0 {
            return EstablishStep::GiveUp;
        }
        self.attempts_left = self.attempts_left - 1;
        match begin_attempt(states, configs, self.requested_block) {
            Some(attempt) => EstablishStep::Dial(attempt),
            None => EstablishStep::Again,
        }
    }
}

// ---------------------------------------------------------------------------
// The whole run of establishing a connection
// ---------------------------------------------------------------------------

/// Every configuration is that of the endpoint it stands under.
pub open spec fn keyed_by_endpoint(configs: Map<Seq<char>, Server>) -> bool {
    forall|k: Seq<char>| #[trigger] configs.contains_key(k) ==> configs[k].endpoint@ == k
}

/// The states before step `n`, where every upstream dialed before it has failed.
pub open spec fn before_step(
    states: Map<Seq<char>, ServerState>,
    configs: Map<Seq<char>, Server>,
    steps: Seq<StepModel>,
    n: int,
) -> Map<Seq<char>, ServerState>
    decreases n,
{
    if n <= 0 {
        states
    } else {
        let before = before_step(states, configs, steps, n - 1);
        match steps[n - 1] {
            StepModel::Dial(k) => offline(
                released(after_step(before, steps[n - 1]), k),
                configs[k].endpoint@,
            ),
            _ => before,
        }
    }
}

/// Steps that an `Establish` with `max_attempts` attempts takes one after the other, where
/// every upstream but, possibly, the last one dialed fails, and nothing else changes the
/// states.
pub open spec fn establish_run(
    max_attempts: u32,
    states: Map<Seq<char>, ServerState>,
    configs: Map<Seq<char>, Server>,
    requested_block: Option<u32>,
    steps: Seq<StepModel>,
) -> bool {
    forall|i: int|
        0 <= i < steps.len() ==> step_allowed(
            max_attempts - i,
            before_step(states, configs, steps, i),
            configs,
            requested_block,
            #[trigger] steps[i],
        )
}

/// How many of the first `n` steps dial an upstream.
pub open spec fn dials(steps: Seq<StepModel>, n: int) -> nat
    decreases n,
{
    if n <= 0 {
        0
    } else {
        dials(steps, n - 1) + if steps[n - 1] is Dial {
            1nat
        } else {
            0
        }
    }
}

/// Whether some of the first `n` steps dials this upstream.
pub open spec fn dialed(steps: Seq<StepModel>, n: int, endpoint: Seq<char>) -> bool {
    exists|i: int| 0 <= i < n && #[trigger] steps[i] == StepModel::Dial(endpoint)
}

proof fn lemma_dialed(steps: Seq<StepModel>, n: int, endpoint: Seq<char>)
    requires
        0 < n <= steps.len(),
    ensures
        dialed(steps, n, endpoint) <==> dialed(steps, n - 1, endpoint) || steps[n - 1]
            == StepModel::Dial(endpoint),
{
    if dialed(steps, n, endpoint) {
        let i = choose|i: int| 0 <= i < n && #[trigger] steps[i] == StepModel::Dial(endpoint);
        if i < n - 1 {
            assert(steps[i] == StepModel::Dial(endpoint));
        }
    }
    if dialed(steps, n - 1, endpoint) {
        let i = choose|i: int| 0 <= i < n - 1 && #[trigger] steps[i] == StepModel::Dial(endpoint);
        assert(steps[i] == StepModel::Dial(endpoint));
    }
    if steps[n - 1] == StepModel::Dial(endpoint) {
        assert(steps[n - 1] == StepModel::Dial(endpoint));
    }
}

proof fn lemma_dials(
    max_attempts: u32,
    states: Map<Seq<char>, ServerState>,
    configs: Map<Seq<char>, Server>,
    requested_block: Option<u32>,
    steps: Seq<StepModel>,
    n: int,
)
    requires
        0 <= n <= steps.len(),
        establish_run(max_attempts, states, configs, requested_block, steps),
    ensures
        dials(steps, n) <= n,
        dials(steps, n) <= max_attempts,
    decreases n,
{
    if n > 0 {
        lemma_dials(max_attempts, states, configs, requested_block, steps, n - 1);
        assert(step_allowed(
            max_attempts - (n - 1),
            before_step(states, configs, steps, n - 1),
            configs,
            requested_block,
            steps[n - 1],
        ));
    }
}

/// The states after the first `n` steps have failed.
spec fn after_failures(
    states: Map<Seq<char>, ServerState>,
    after: Map<Seq<char>, ServerState>,
    steps: Seq<StepModel>,
    n: int,
) -> bool {
    &&& after.dom() == states.dom()
    &&& forall|k: Seq<char>| #[trigger]
        states.contains_key(k) ==> after[k] == (ServerState {
            online: states[k].online && !dialed(steps, n, k),
            ..states[k]
        })
    &&& forall|k: Seq<char>| dialed(steps, n, k) ==> #[trigger] states.contains_key(k)
}

proof fn lemma_failed_step(
    states: Map<Seq<char>, ServerState>,
    before: Map<Seq<char>, ServerState>,
    after: Map<Seq<char>, ServerState>,
    steps: Seq<StepModel>,
    n: int,
)
    requires
        0 < n <= steps.len(),
        after_failures(states, before, steps, n - 1),
        match steps[n - 1] {
            StepModel::Dial(e) => before.contains_key(e) && after == offline(before, e),
            _ => after == before,
        },
    ensures
        after_failures(states, after, steps, n),
{
    assert(after.dom() =~= states.dom());
    assert forall|k: Seq<char>| #[trigger] states.contains_key(k) implies after[k] == (ServerState {
        online: states[k].online && !dialed(steps, n, k),
        ..states[k]
    }) by {
        lemma_dialed(steps, n, k);
        assert(before.dom().contains(k));
    }
    assert forall|k: Seq<char>| dialed(steps, n, k) implies #[trigger] states.contains_key(k) by {
        lemma_dialed(steps, n, k);
        if steps[n - 1] == StepModel::Dial(k) {
            assert(before.dom().contains(k));
        }
    }
}

proof fn lemma_failed_steps(
    max_attempts: u32,
    states: Map<Seq<char>, ServerState>,
    configs: Map<Seq<char>, Server>,
    requested_block: Option<u32>,
    steps: Seq<StepModel>,
    n: int,
)
    requires
        0 <= n <= steps.len(),
        keyed_by_endpoint(configs),
        establish_run(max_attempts, states, configs, requested_block, steps),
        forall|k: Seq<char>| #[trigger]
            states.contains_key(k) ==> states[k].connections < usize::MAX,
    ensures
        after_failures(states, before_step(states, configs, steps, n), steps, n),
    decreases n,
{
    if n > 0 {
        lemma_failed_steps(max_attempts, states, configs, requested_block, steps, n - 1);
        let before = before_step(states, configs, steps, n - 1);
        assert(step_allowed(
            max_attempts - (n - 1),
            before,
            configs,
            requested_block,
            steps[n - 1],
        ));
        if let StepModel::Dial(e) = steps[n - 1] {
            assert(before.dom().contains(e));
            assert(states.contains_key(e));
            law_failed_attempt(before, e);
        }
        lemma_failed_step(states, before, before_step(states, configs, steps, n), steps, n);
    }
}

/// Establishing a connection, as a whole: at most `max_attempts` upstreams are dialed, none
/// of them twice. Where all have failed, every connection count is what it was before,
/// exactly the dialed upstreams are offline on top of those that were, and nothing else
/// has changed.
pub proof fn law_establish_failed(
    max_attempts: u32,
    states: Map<Seq<char>, ServerState>,
    configs: Map<Seq<char>, Server>,
    requested_block: Option<u32>,
    steps: Seq<StepModel>,
)
    requires
        keyed_by_endpoint(configs),
        establish_run(max_attempts, states, configs, requested_block, steps),
        forall|k: Seq<char>| #[trigger]
            states.contains_key(k) ==> states[k].connections < usize::MAX,
    ensures
        ({
            let n = steps.len() as int;
            let after = before_step(states, configs, steps, n);
            &&& dials(steps, n) <= max_attempts
            &&& forall|i: int, j: int|
                0 <= i < j < n && steps[i] is Dial ==> #[trigger] steps[i] != #[trigger] steps[j]
            &&& after.dom() == states.dom()
            &&& forall|k: Seq<char>| #[trigger]
                states.contains_key(k) ==> after[k] == (ServerState {
                    online: states[k].online && !dialed(steps, n, k),
                    ..states[k]
                })
        }),
{
    let n = steps.len() as int;
    lemma_failed_steps(max_attempts, states, configs, requested_block, steps, n);
    lemma_dials(max_attempts, states, configs, requested_block, steps, n);
    assert forall|i: int, j: int| 0 <= i < j < n && steps[i] is Dial implies #[trigger] steps[i]
        != #[trigger] steps[j] by {
        if steps[i] == steps[j] {
            let k = steps[i]->Dial_0;
            lemma_failed_steps(max_attempts, states, configs, requested_block, steps, j);
            let before = before_step(states, configs, steps, j);
            assert(step_allowed(max_attempts - j, before, configs, requested_block, steps[j]));
            assert(dialed(steps, j, k));
            assert(states.contains_key(k));
            assert(before[k].online == false);
        }
    }
}

/// Where the last upstream dialed is connected, it has one connection more than before the
/// run, and every other count is what it was. Exactly the upstreams dialed before it are
/// offline on top of those that were.
pub proof fn law_establish_succeeded(
    max_attempts: u32,
    states: Map<Seq<char>, ServerState>,
    configs: Map<Seq<char>, Server>,
    requested_block: Option<u32>,
    steps: Seq<StepModel>,
    connected: Seq<char>,
)
    requires
        keyed_by_endpoint(configs),
        establish_run(max_attempts, states, configs, requested_block, steps),
        steps.len() > 0,
        steps.last() == StepModel::Dial(connected),
        forall|k: Seq<char>| #[trigger]
            states.contains_key(k) ==> states[k].connections < usize::MAX,
    ensures
        ({
            let n = steps.len() - 1;
            let after = after_step(before_step(states, configs, steps, n), steps.last());
            &&& steps.len() <= max_attempts
            &&& states.contains_key(connected)
            &&& !dialed(steps, n, connected)
            &&& after.dom() == states.dom()
            &&& forall|k: Seq<char>| #[trigger]
                states.contains_key(k) ==> after[k] == (ServerState {
                    online: states[k].online && !dialed(steps, n, k),
                    connections: (states[k].connections + if k == connected {
                        1int
                    } else {
                        0
                    }) as usize,
                    ..states[k]
                })
        }),
{
    let n = steps.len() - 1;
    lemma_failed_steps(max_attempts, states, configs, requested_block, steps, n);
    let before = before_step(states, configs, steps, n);
    assert(step_allowed(max_attempts - n, before, configs, requested_block, steps[n]));
    assert(before.dom().contains(connected));
    assert(states.contains_key(connected));
    let after = after_step(before, steps.last());
    assert(after.dom() =~= states.dom());
    assert forall|k: Seq<char>| #[trigger] states.contains_key(k) implies after[k] == (ServerState {
        online: states[k].online && !dialed(steps, n, k),
        connections: (states[k].connections + if k == connected {
            1int
        } else {
            0
        }) as usize,
        ..states[k]
    }) by {
        assert(before.dom().contains(k));
    }
}

// ---------------------------------------------------------------------------
// Load balancing
// ---------------------------------------------------------------------------

/// The states after the first `n` choices have each taken a connection.
pub open spec fn after_choices(
    states: Map<Seq<char>, ServerState>,
    choices: Seq<Seq<char>>,
    n: int,
) -> Map<Seq<char>, ServerState>
    decreases n,
{
    if n <= 0 {
        states
    } else {
        acquired(after_choices(states, choices, n - 1), choices[n - 1])
    }
}

/// How often `endpoint` is among the first `n` choices.
pub open spec fn times_chosen(choices: Seq<Seq<char>>, endpoint: Seq<char>, n: int) -> nat
    decreases n,
{
    if n <= 0 {
        0
    } else {
        times_chosen(choices, endpoint, n - 1) + if choices[n - 1] == endpoint {
            1nat
        } else {
            0
        }
    }
}

/// Upstreams between which only the number of connections can decide, all with `start`
/// connections.
pub open spec fn on_a_par(
    states: Map<Seq<char>, ServerState>,
    requested_block: Option<u32>,
    start: nat,
) -> bool {
    &&& forall|k: Seq<char>| #[trigger]
        states.contains_key(k) ==> crate::functions::usable(states[k]) && states[k].connections
            == start
    &&& forall|a: Seq<char>, b: Seq<char>| #[trigger]
        states.contains_key(a) && #[trigger] states.contains_key(b) ==> crate::functions::rank(
            states[a],
            requested_block,
        ) == crate::functions::rank(states[b], requested_block)
}

/// After `n` choices among `m` upstreams: `n % m` of them, the set `ahead`, have one
/// connection more than the others.
spec fn spread(
    states: Map<Seq<char>, ServerState>,
    now: Map<Seq<char>, ServerState>,
    choices: Seq<Seq<char>>,
    n: int,
    start: nat,
    ahead: Set<Seq<char>>,
) -> bool {
    let m = states.dom().len() as int;
    &&& now.dom() == states.dom()
    &&& ahead.finite()
    &&& ahead.subset_of(states.dom())
    &&& ahead.len() == n % m
    &&& forall|k: Seq<char>| #[trigger]
        states.contains_key(k) ==> now[k] == (ServerState {
            connections: now[k].connections,
            ..states[k]
        }) && now[k].connections == start + times_chosen(choices, k, n) && times_chosen(
            choices,
            k,
            n,
        ) == n / m + if ahead.contains(k) {
            1int
        } else {
            0
        }
}

proof fn lemma_next_round(n: int, m: int)
    requires
        0 <= n,
        0 < m,
    ensures
        0 <= n % m < m,
        n % m + 1 < m ==> (n + 1) / m == n / m && (n + 1) % m == n % m + 1,
        n % m + 1 == m ==> (n + 1) / m == n / m + 1 && (n + 1) % m == 0,
{
    vstd::arithmetic::div_mod::lemma_fundamental_div_mod(n, m);
    vstd::arithmetic::div_mod::lemma_mod_bound(n, m);
    let q = n / m;
    let r = n % m;
    if r + 1 < m {
        assert(n + 1 == q * m + (r + 1)) by (nonlinear_arith)
            requires
                n == m * q + r,
        ;
        vstd::arithmetic::div_mod::lemma_fundamental_div_mod_converse(n + 1, m, q, r + 1);
    } else {
        assert(n + 1 == (q + 1) * m + 0) by (nonlinear_arith)
            requires
                n == m * q + r,
                r + 1 == m,
        ;
        vstd::arithmetic::div_mod::lemma_fundamental_div_mod_converse(n + 1, m, q + 1, 0);
    }
}

proof fn lemma_spread(
    states: Map<Seq<char>, ServerState>,
    requested_block: Option<u32>,
    choices: Seq<Seq<char>>,
    n: int,
    start: nat,
) -> (ahead: Set<Seq<char>>)
    requires
        states.dom().finite(),
        states.dom().len() > 0,
        on_a_par(states, requested_block, start),
        0 <= n <= choices.len(),
        start + choices.len() <= usize::MAX,
        forall|i: int|
            0 <= i < choices.len() ==> crate::functions::best_choice(
                after_choices(states, choices, i),
                requested_block,
                #[trigger] choices[i],
            ),
    ensures
        spread(states, after_choices(states, choices, n), choices, n, start, ahead),
    decreases n,
{
    let m = states.dom().len() as int;
    if n == 0 {
        let none = Set::<Seq<char>>::empty();
        assert(0int / m == 0 && 0int % m == 0) by {
            vstd::arithmetic::div_mod::lemma_fundamental_div_mod_converse(0, m, 0, 0);
        }
        none
    } else {
        let ahead = lemma_spread(states, requested_block, choices, n - 1, start);
        let before = after_choices(states, choices, n - 1);
        let now = after_choices(states, choices, n);
        let e = choices[n - 1];
        lemma_next_round(n - 1, m);
        assert(crate::functions::best_choice(before, requested_block, e));
        assert(before.dom().contains(e));
        assert(states.contains_key(e));
        // Some upstream is not ahead, so the one that was chosen is not.
        assert(exists|k: Seq<char>| states.dom().contains(k) && !ahead.contains(k)) by {
            if forall|k: Seq<char>| states.dom().contains(k) ==> ahead.contains(k) {
                assert(ahead =~= states.dom());
            }
        }
        let low = choose|k: Seq<char>| states.dom().contains(k) && !ahead.contains(k);
        assert(states.contains_key(low));
        assert(before.contains_key(low));
        assert(crate::functions::rank(before[low], requested_block) == crate::functions::rank(
            states[low],
            requested_block,
        ));
        assert(crate::functions::rank(before[e], requested_block) == crate::functions::rank(
            states[e],
            requested_block,
        ));
        assert(crate::functions::usable(before[low]));
        assert(before[e].connections <= before[low].connections);
        assert(!ahead.contains(e));
        let more = ahead.insert(e);
        assert(more.len() == ahead.len() + 1);
        assert(times_chosen(choices, e, n - 1) <= n - 1) by {
            vstd::arithmetic::div_mod::lemma_div_is_ordered_by_denominator(n - 1, 1, m);
        }
        assert(now.dom() =~= states.dom());
        assert forall|k: Seq<char>| #[trigger] states.contains_key(k) implies now[k] == (
        ServerState { connections: now[k].connections, ..states[k] }) && now[k].connections == start
            + times_chosen(choices, k, n) by {
            assert(before[k] == (ServerState { connections: before[k].connections, ..states[k] }));
        }
        if more.len() == m {
            // Everyone has caught up: a new round begins.
            assert(more =~= states.dom()) by {
                vstd::set_lib::lemma_subset_equality(more, states.dom());
            }
            let none = Set::<Seq<char>>::empty();
            assert forall|k: Seq<char>| #[trigger] states.contains_key(k) implies times_chosen(
                choices,
                k,
                n,
            ) == n / m by {
                assert(more.contains(k));
                assert(times_chosen(choices, k, n - 1) == (n - 1) / m + if ahead.contains(k) {
                    1int
                } else {
                    0
                });
            }
            none
        } else {
            vstd::set_lib::lemma_len_subset(more, states.dom());
            assert forall|k: Seq<char>| #[trigger] states.contains_key(k) implies times_chosen(
                choices,
                k,
                n,
            ) == n / m + if more.contains(k) {
                1int
            } else {
                0
            } by {
                assert(times_chosen(choices, k, n - 1) == (n - 1) / m + if ahead.contains(k) {
                    1int
                } else {
                    0
                });
            }
            more
        }
    }
}

/// Connections spread evenly: of upstreams on a par with the same number of connections,
/// after any number of selections that each take a connection, every one has been
/// selected equally often, but for one time, and the numbers of connections differ by one
/// at most. After a whole number of rounds every one has been selected exactly once a
/// round.
pub proof fn law_even_spread(
    states: Map<Seq<char>, ServerState>,
    requested_block: Option<u32>,
    choices: Seq<Seq<char>>,
    start: nat,
)
    requires
        states.dom().finite(),
        states.dom().len() > 0,
        on_a_par(states, requested_block, start),
        start + choices.len() <= usize::MAX,
        forall|i: int|
            0 <= i < choices.len() ==> crate::functions::best_choice(
                after_choices(states, choices, i),
                requested_block,
                #[trigger] choices[i],
            ),
    ensures
        ({
            let n = choices.len() as int;
            let m = states.dom().len() as int;
            let after = after_choices(states, choices, n);
            &&& after.dom() == states.dom()
            &&& forall|k: Seq<char>| #[trigger]
                states.contains_key(k) ==> after[k].connections == start + times_chosen(
                    choices,
                    k,
                    n,
                ) && n / m <= times_chosen(choices, k, n) <= n / m + 1
            &&& forall|a: Seq<char>, b: Seq<char>| #[trigger]
                states.contains_key(a) && #[trigger] states.contains_key(b) ==> after[a].connections
                    <= after[b].connections + 1
            &&& n % m == 0 ==> forall|k: Seq<char>| #[trigger]
                states.contains_key(k) ==> times_chosen(choices, k, n) == n / m
        }),
{
    let n = choices.len() as int;
    let m = states.dom().len() as int;
    let ahead = lemma_spread(states, requested_block, choices, n, start);
    if n % m == 0 {
        assert(ahead =~= Set::empty());
    }
}

// ---------------------------------------------------------------------------
// The handshake
// ---------------------------------------------------------------------------

/// A timeout in milliseconds, where 0 means that there is none.
pub fn time_limit(ms: u64) -> (limit: Option<u64>)
    ensures
        limit == if ms > 0 {
            Some(ms)
        } else {
            None
        },
{
    if ms > 0 {
        Some(ms)
    } else {
        None
    }
}

/// What the first frames of an upstream mean.
#[derive(Debug)]
pub enum Handshake {
    /// The ABI; the handshake is complete.
    Abi(String),
    /// A control frame; the ABI is still to come.
    Again,
    /// No ABI will come; another upstream should be tried.
    Failed,
}

/// The model of a `Handshake`.
pub enum HandshakeModel {
    Abi(Seq<char>),
    Again,
    Failed,
}

impl View for Handshake {
    type V = HandshakeModel;

    open spec fn view(&self) -> HandshakeModel {
        match self {
            Handshake::Abi(abi) => HandshakeModel::Abi(abi@),
            Handshake::Again => HandshakeModel::Again,
            Handshake::Failed => HandshakeModel::Failed,
        }
    }
}

/// What a frame means to an upstream's handshake.
pub open spec fn shaken(frame: FrameModel) -> HandshakeModel {
    match frame {
        FrameModel::Text(text) => HandshakeModel::Abi(text),
        FrameModel::Ping(_) | FrameModel::Pong(_) => HandshakeModel::Again,
        FrameModel::Binary(_) | FrameModel::Close(_) => HandshakeModel::Failed,
    }
}

/// What a sequence of frames means to a handshake that takes them one by one.
pub open spec fn shaken_all(frames: Seq<FrameModel>) -> HandshakeModel
    decreases frames.len(),
{
    if frames.len() == 0 {
        HandshakeModel::Again
    } else if shaken(frames[0]) is Again {
        shaken_all(frames.drop_first())
    } else {
        shaken(frames[0])
    }
}

/// The ABI is the first text, as it came, where nothing but control frames comes before it,
/// however many; behind anything else that comes first there is none.
pub proof fn law_abi_behind_control_frames(
    control: Seq<FrameModel>,
    text: Seq<char>,
    other: FrameModel,
    rest: Seq<FrameModel>,
)
    requires
        forall|i: int|
            0 <= i < control.len() ==> (#[trigger] control[i]) is Ping || control[i] is Pong,
        other is Binary || other is Close,
    ensures
        shaken_all(control) == HandshakeModel::Again,
        shaken_all(control + seq![FrameModel::Text(text)] + rest) == HandshakeModel::Abi(text),
        shaken_all(control + seq![other] + rest) == HandshakeModel::Failed,
    decreases control.len(),
{
    let found = control + seq![FrameModel::Text(text)] + rest;
    let failed = control + seq![other] + rest;
    if control.len() == 0 {
        assert(found[0] == FrameModel::Text(text));
        assert(failed[0] == other);
    } else {
        let less = control.drop_first();
        assert(found[0] == control[0] && failed[0] == control[0]);
        assert(found.drop_first() =~= less + seq![FrameModel::Text(text)] + rest);
        assert(failed.drop_first() =~= less + seq![other] + rest);
        assert forall|i: int| 0 <= i < less.len() implies (#[trigger] less[i]) is Ping
            || less[i] is Pong by {
            assert(less[i] == control[i + 1]);
        }
        law_abi_behind_control_frames(less, text, other, rest);
    }
}

/// Takes the next frame of an upstream whose ABI has not come yet (`None`: the stream
/// ended or failed). The first meaningful frame must be the Text ABI; leading Ping/Pong
/// control frames are skipped.
pub fn read_first_abi(next: Option<Frame>) -> (h: Handshake)
    ensures
        match h {
            Handshake::Abi(abi) => next matches Some(Frame::Text(text)) && text == abi,
            Handshake::Again => next matches Some(f) && (f is Ping || f is Pong),
            Handshake::Failed => match next {
                Some(f) => f is Binary || f is Close,
                None => true,
            },
        },
        h@ == match next {
            Some(f) => shaken(f@),
            None => HandshakeModel::Failed,
        },
{
    match next {
        Some(Frame::Text(text)) => Handshake::Abi(text),
        Some(Frame::Ping(_)) => Handshake::Again,
        Some(Frame::Pong(_)) => Handshake::Again,
        _ => Handshake::Failed,
    }
}

} // verus!
