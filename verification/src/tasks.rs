//! Background monitoring: which upstreams are online, what blocks they have, and whether
//! they still advance.

use vstd::prelude::*;

use crate::abi::AbiContext;
use crate::connection_handler::mark_offline;
use crate::frame::{Frame, FrameModel};
use crate::models::{ServerState, ServerStateDb};
use crate::string_map::StringMap;
use crate::zcd::{deserialize_result, deserialize_status_result, ZCDValues};

verus! {

// ---------------------------------------------------------------------------
// Staleness
// ---------------------------------------------------------------------------

/// Number of consecutive monitoring intervals without chain-state advancement
/// before an upstream is flagged stale (and deprioritized for routing).
pub const STALE_THRESHOLD: u32 = 12;

/// How an upstream advances.
#[derive(Debug, Clone, Copy, PartialEq, Eq)]
pub struct Progress {
    /// The last chain-state block that was an advance.
    pub last_block: u32,
    /// How many intervals in a row brought none.
    pub stalled: u32,
}

/// An upstream that was not looked at yet.
pub open spec fn no_progress() -> Progress {
    Progress { last_block: 0, stalled: 0 }
}

/// Looks at an upstream once: an advance clears its stale flag, and the interval that
/// reaches the threshold without one sets it.
pub open spec fn observed(progress: Progress, state: ServerState) -> (Progress, ServerState) {
    if state.chain_state_end_block > progress.last_block {
        (
            Progress { last_block: state.chain_state_end_block, stalled: 0 },
            ServerState { stale: false, ..state },
        )
    } else {
        (
            Progress { stalled: (progress.stalled + 1) as u32, ..progress },
            ServerState { stale: state.stale || progress.stalled + 1 == STALE_THRESHOLD, ..state },
        )
    }
}

/// Looks at an upstream once per element of `seen`: what is known of it at each interval,
/// but for the stale flag, which is the one that the interval before has left. At first it
/// is not stale and has last advanced to `start`, which is 0 for a monitor that has not
/// looked at it yet.
pub open spec fn observed_all(start: u32, seen: Seq<ServerState>) -> (Progress, bool)
    decreases seen.len(),
{
    if seen.len() == 0 {
        (Progress { last_block: start, stalled: 0 }, false)
    } else {
        let (progress, stale) = observed_all(start, seen.drop_last());
        let (after, state) = observed(progress, ServerState { stale, ..seen.last() });
        (after, state.stale)
    }
}

/// Whether interval `i` brings an advance: a block behind `start` and behind all those of
/// the intervals before.
pub open spec fn advances(start: u32, seen: Seq<ServerState>, i: int) -> bool {
    &&& seen[i].chain_state_end_block > start
    &&& forall|j: int|
        0 <= j < i ==> (#[trigger] seen[j]).chain_state_end_block < seen[i].chain_state_end_block
}

/// Each of the intervals can be counted.
pub open spec fn all_countable(start: u32, seen: Seq<ServerState>) -> bool {
    forall|n: int|
        0 <= n < seen.len() ==> observed_all(start, #[trigger] seen.take(n)).0.stalled < u32::MAX
}

/// What is known after some intervals: the highest block so far, and how many intervals
/// have passed since the last advance.
proof fn lemma_observed_all(start: u32, seen: Seq<ServerState>)
    requires
        all_countable(start, seen),
    ensures
        ({
            let n = seen.len();
            let (progress, stale) = observed_all(start, seen);
            &&& progress.last_block >= start
            &&& forall|j: int|
                0 <= j < n ==> (#[trigger] seen[j]).chain_state_end_block <= progress.last_block
            &&& progress.last_block > start ==> exists|j: int|
                0 <= j < n && (#[trigger] seen[j]).chain_state_end_block == progress.last_block
            &&& progress.stalled <= n
            &&& forall|i: int|
                n - progress.stalled <= i < n ==> !#[trigger] advances(start, seen, i)
            &&& progress.stalled < n ==> advances(start, seen, n - progress.stalled - 1)
            &&& stale == (progress.stalled >= STALE_THRESHOLD)
        }),
    decreases seen.len(),
{
    let n = seen.len();
    if n > 0 {
        let earlier = seen.drop_last();
        assert forall|m: int| 0 <= m < earlier.len() implies observed_all(
            start,
            #[trigger] earlier.take(m),
        ).0.stalled < u32::MAX by {
            assert(earlier.take(m) =~= seen.take(m));
        }
        lemma_observed_all(start, earlier);
        let (before, _) = observed_all(start, earlier);
        let (progress, _) = observed_all(start, seen);
        assert(seen.take(n - 1) =~= earlier);
        assert(before.stalled < u32::MAX);
        assert forall|i: int| 0 <= i < n - 1 implies #[trigger] advances(start, seen, i)
            == advances(start, earlier, i) by {
            assert forall|j: int| 0 <= j <= i implies #[trigger] seen[j] == earlier[j] by {}
            assert forall|j: int| 0 <= j <= i implies #[trigger] earlier[j] == seen[j] by {}
        }
        let block = seen[n - 1].chain_state_end_block;
        assert(advances(start, seen, n - 1) <==> block > before.last_block) by {
            if block > before.last_block {
                assert forall|j: int| 0 <= j < n - 1 implies (
                #[trigger] seen[j]).chain_state_end_block < block by {
                    assert(earlier[j] == seen[j]);
                }
            } else if advances(start, seen, n - 1) {
                let j = choose|j: int|
                    0 <= j < n - 1 && (#[trigger] earlier[j]).chain_state_end_block
                        == before.last_block;
                assert(earlier[j] == seen[j]);
            }
        }
        assert forall|j: int| 0 <= j < n implies (#[trigger] seen[j]).chain_state_end_block
            <= progress.last_block by {
            if j < n - 1 {
                assert(earlier[j] == seen[j]);
            }
        }
        if block > before.last_block {
            assert(seen[n - 1].chain_state_end_block == progress.last_block);
        } else {
            if progress.last_block > start {
                let j = choose|j: int|
                    0 <= j < n - 1 && (#[trigger] earlier[j]).chain_state_end_block
                        == before.last_block;
                assert(seen[j].chain_state_end_block == progress.last_block);
            }
            if progress.stalled < n {
                assert(advances(start, earlier, n - 1 - before.stalled - 1));
                assert(advances(start, seen, n - 1 - before.stalled - 1));
            }
            assert forall|i: int| n - progress.stalled <= i < n implies !#[trigger] advances(
                start,
                seen,
                i,
            ) by {
                if i < n - 1 {
                    assert(!advances(start, earlier, i));
                }
            }
        }
    }
}

/// Whatever an upstream's blocks are over the intervals, it is stale after them exactly if
/// there were at least `STALE_THRESHOLD` and none of the last `STALE_THRESHOLD` brought an
/// advance.
pub proof fn law_stale_after_threshold(start: u32, seen: Seq<ServerState>)
    requires
        all_countable(start, seen),
    ensures
        observed_all(start, seen).1 <==> {
            &&& seen.len() >= STALE_THRESHOLD
            &&& forall|i: int|
                seen.len() - STALE_THRESHOLD <= i < seen.len() ==> !#[trigger] advances(
                    start,
                    seen,
                    i,
                )
        },
{
    lemma_observed_all(start, seen);
}

/// An upstream that advances is not stale, however long it had stood still.
pub proof fn law_advance_clears_stale(progress: Progress, state: ServerState)
    requires
        state.chain_state_end_block > progress.last_block,
    ensures
        !observed(progress, state).1.stale,
        observed(progress, state).0.stalled == 0,
        observed(progress, state).0.last_block == state.chain_state_end_block,
{
}

/// Looking at an upstream changes nothing of its state but the stale flag.
pub proof fn law_observing_flags_only(progress: Progress, state: ServerState)
    ensures
        observed(progress, state).1 == (ServerState {
            stale: observed(progress, state).1.stale,
            ..state
        }),
        observed(progress, state).0.last_block >= progress.last_block,
{
}

/// What an interval brought for an upstream.
#[derive(Debug, Clone, Copy, PartialEq, Eq)]
pub enum Change {
    /// It advanced.
    Advanced,
    /// It was stale and advanced again.
    Resumed,
    /// It did not advance.
    Stalled,
    /// It did not advance and is flagged stale from now on.
    FlaggedStale,
}

/// What looking at an upstream once brings.
pub open spec fn change_of(progress: Progress, state: ServerState) -> Change {
    if state.chain_state_end_block > progress.last_block {
        if state.stale {
            Change::Resumed
        } else {
            Change::Advanced
        }
    } else if progress.stalled + 1 == STALE_THRESHOLD && !state.stale {
        Change::FlaggedStale
    } else {
        Change::Stalled
    }
}

/// A change is one of the stale flag exactly where it says so.
pub proof fn law_change_tells_the_flag(progress: Progress, state: ServerState)
    ensures
        change_of(progress, state) == Change::FlaggedStale <==> !state.stale && observed(
            progress,
            state,
        ).1.stale,
        change_of(progress, state) == Change::Resumed <==> state.stale && !observed(
            progress,
            state,
        ).1.stale,
{
}

/// What one interval brings, whatever else is known of the upstream. A block above the
/// highest one so far is an advance: it is the highest one from then on, and the upstream is
/// not stale. Without an advance the highest block stays and one more interval is counted;
/// the one that makes twelve flags the upstream, and a flag that is set stays.
pub proof fn law_interval(progress: Progress, state: ServerState)
    requires
        progress.stalled < u32::MAX,
    ensures
        ({
            let (p, s) = observed(progress, state);
            let change = change_of(progress, state);
            if state.chain_state_end_block > progress.last_block {
                &&& p.last_block == state.chain_state_end_block
                &&& p.stalled == 0
                &&& !s.stale
                &&& change == if state.stale {
                    Change::Resumed
                } else {
                    Change::Advanced
                }
            } else {
                &&& p.last_block == progress.last_block
                &&& p.stalled == progress.stalled + 1
                &&& s.stale == (state.stale || p.stalled == 12)
                &&& change == if s.stale && !state.stale {
                    Change::FlaggedStale
                } else {
                    Change::Stalled
                }
            }
        }),
{
}

/// What is known of the progress of an upstream is what was last noted of it. Of one that
/// was not looked at yet, the highest block is 0 and no interval is counted.
pub proof fn law_progress_noted(progress: Map<Seq<char>, Progress>, endpoint: Seq<char>)
    ensures
        progress.contains_key(endpoint) ==> progress_of(progress, endpoint) == progress[endpoint],
        !progress.contains_key(endpoint) ==> progress_of(progress, endpoint) == (Progress {
            last_block: 0,
            stalled: 0,
        }),
{
}

fn observe(progress: Progress, state: ServerState) -> (r: (Progress, ServerState, Change))
    requires
        progress.stalled < u32::MAX,
    ensures
        (r.0, r.1) == observed(progress, state),
        r.2 == change_of(progress, state),
{
    let mut state: ServerState = state;
    let mut progress: Progress = progress;
    if state.chain_state_end_block > progress.last_block {
        progress.last_block = state.chain_state_end_block;
        progress.stalled = 0;
        if state.stale {
            state.stale = false;
            (progress, state, Change::Resumed)
        } else {
            (progress, state, Change::Advanced)
        }
    } else {
        progress.stalled = progress.stalled + 1;
        if progress.stalled == STALE_THRESHOLD && !state.stale {
            state.stale = true;
            (progress, state, Change::FlaggedStale)
        } else {
            (progress, state, Change::Stalled)
        }
    }
}

/// Watches how the upstreams advance.
#[derive(Debug)]
pub struct StalenessMonitor {
    progress: StringMap<Progress>,
}

impl View for StalenessMonitor {
    type V = Map<Seq<char>, Progress>;

    closed spec fn view(&self) -> Map<Seq<char>, Progress> {
        self.progress@
    }
}

/// What is known of the progress of an upstream.
pub open spec fn progress_of(progress: Map<Seq<char>, Progress>, endpoint: Seq<char>) -> Progress {
    if progress.contains_key(endpoint) {
        progress[endpoint]
    } else {
        no_progress()
    }
}

/// No upstream has stood still for as many intervals as can be counted.
pub open spec fn countable(
    progress: Map<Seq<char>, Progress>,
    states: Map<Seq<char>, ServerState>,
) -> bool {
    forall|k: Seq<char>| #[trigger]
        states.contains_key(k) ==> progress_of(progress, k).stalled < u32::MAX
}

impl StalenessMonitor {
    /// A monitor that has not looked at any upstream yet.
    pub fn new() -> (m: StalenessMonitor)
        ensures
            m@ == Map::<Seq<char>, Progress>::empty(),
    {
        StalenessMonitor { progress: StringMap::new() }
    }

    fn progress_at(&self, endpoint: &str) -> (p: Progress)
        ensures
            p == progress_of(self@, endpoint@),
    {
        match self.progress.get(endpoint) {
            Some(p) => *p,
            None => Progress { last_block: 0, stalled: 0 },
        }
    }

    /// Whether another interval can be counted for every upstream.
    pub fn can_tick(&self, states: &ServerStateDb) -> (r: bool)
        ensures
            r == countable(self@, states@),
    {
        let n: usize = states.len();
        let mut i: usize = 0;
        while i < n
            invariant
                i <= n == states.keys().len(),
                states.well_keyed(),
                forall|j: int|
                    0 <= j < i ==> progress_of(self@, #[trigger] states.keys()[j]).stalled
                        < u32::MAX,
            decreases n - i,
        {
            if self.progress_at(states.key_at(i)).stalled == u32::MAX {
                assert(states@.contains_key(states.keys()[i as int]));
                return false;
            }
            i += 1;
        }
        proof {
            assert forall|k: Seq<char>| #[trigger] states@.contains_key(k) implies progress_of(
                self@,
                k,
            ).stalled < u32::MAX by {
                let j = states.keys().index_of(k);
                assert(states.keys()[j] == k);
            }
        }
        true
    }

    /// One monitoring interval has passed: looks at every upstream once. Returns what the
    /// interval brought for each upstream, in their order.
    pub fn tick(&mut self, states: &mut ServerStateDb) -> (changes: Vec<Change>)
        requires
            countable(old(self)@, old(states)@),
        ensures
            final(states).keys() == old(states).keys(),
            changes@ == old(states).keys().map_values(
                |k: Seq<char>| change_of(progress_of(old(self)@, k), old(states)@[k]),
            ),
            final(states)@.dom() == old(states)@.dom(),
            forall|k: Seq<char>| #[trigger]
                old(states)@.contains_key(k) ==> (final(self)@.contains_key(k) && (
                    final(self)@[k],
                    final(states)@[k],
                ) == observed(progress_of(old(self)@, k), old(states)@[k])),
            forall|k: Seq<char>|
                !(#[trigger] old(states)@.contains_key(k)) ==> progress_of(final(self)@, k)
                    == progress_of(old(self)@, k),
    {
        let ghost before = states@;
        let ghost known = self@;
        let ghost keys = states.keys();
        let mut changes: Vec<Change> = Vec::new();
        let n: usize = states.len();
        let mut i: usize = 0;
        proof {
            assert forall|k: Seq<char>| #[trigger] before.contains_key(k) implies keys.contains(
                k,
            ) by {}
        }
        while i < n
            invariant
                i <= n == keys.len(),
                states.keys() == keys,
                changes@.len() == i,
                forall|j: int|
                    0 <= j < i ==> #[trigger] changes@[j] == change_of(
                        progress_of(known, keys[j]),
                        before[keys[j]],
                    ),
                keys.no_duplicates(),
                states@.dom() == before.dom(),
                countable(known, before),
                forall|j: int| 0 <= j < n ==> before.contains_key(#[trigger] keys[j]),
                forall|k: Seq<char>| #[trigger] before.contains_key(k) ==> keys.contains(k),
                forall|j: int|
                    0 <= j < i ==> self@.contains_key(#[trigger] keys[j]) && (
                        self@[keys[j]],
                        states@[keys[j]],
                    ) == observed(progress_of(known, keys[j]), before[keys[j]]),
                forall|j: int|
                    i <= j < n ==> states@[#[trigger] keys[j]] == before[keys[j]] && progress_of(
                        self@,
                        keys[j],
                    ) == progress_of(known, keys[j]),
                forall|k: Seq<char>|
                    !(#[trigger] before.contains_key(k)) ==> progress_of(self@, k) == progress_of(
                        known,
                        k,
                    ),
            decreases n - i,
        {
            let endpoint = states.key_at(i).clone();
            let state: ServerState = *states.value_at(i);
            let progress: Progress = self.progress_at(&endpoint);
            proof {
                assert(before.contains_key(keys[i as int]));
            }
            let (p, s, change): (Progress, ServerState, Change) = observe(progress, state);
            let ghost mid = self@;
            states.set_at(i, s);
            self.progress.insert(endpoint, p);
            changes.push(change);
            proof {
                assert(states@.dom() =~= before.dom());
                assert forall|j: int| 0 <= j < n && j != i implies #[trigger] keys[j]
                    != keys[i as int] by {}
                assert(self@ == mid.insert(keys[i as int], p));
            }
            i += 1;
        }
        proof {
            assert forall|k: Seq<char>| #[trigger] before.contains_key(k) implies (
            self@.contains_key(k) && (self@[k], states@[k]) == observed(
                progress_of(known, k),
                before[k],
            )) by {
                let j = keys.index_of(k);
                assert(keys[j] == k);
            }
            assert(changes@ =~= keys.map_values(
                |k: Seq<char>| change_of(progress_of(known, k), before[k]),
            ));
        }
        changes
    }
}

// ---------------------------------------------------------------------------
// Reconnecting
// ---------------------------------------------------------------------------

/// The longest pause between two attempts to connect.
pub const MAX_BACKOFF_MS: u64 = 30_000;

/// The pause after `attempts` failed attempts in a row: the reconnect interval, doubled
/// up to five times and capped.
pub open spec fn backoff(reconnect_ms: u64, attempts: u32) -> int {
    let doublings: nat = if attempts < 5 {
        attempts as nat
    } else {
        5
    };
    let pause = reconnect_ms * vstd::arithmetic::power2::pow2(doublings);
    if pause < MAX_BACKOFF_MS {
        pause
    } else {
        MAX_BACKOFF_MS as int
    }
}

/// The pause never shrinks from one failed attempt to the next, and never exceeds the
/// cap.
pub proof fn law_backoff_grows_to_cap(reconnect_ms: u64, attempts: u32)
    requires
        attempts < u32::MAX,
    ensures
        backoff(reconnect_ms, attempts) <= backoff(reconnect_ms, (attempts + 1) as u32),
        0 <= backoff(reconnect_ms, attempts) <= MAX_BACKOFF_MS,
        attempts >= 5 ==> backoff(reconnect_ms, attempts) == backoff(reconnect_ms, 5),
{
    vstd::arithmetic::power2::lemma2_to64();
    let a: nat = if attempts < 5 {
        attempts as nat
    } else {
        5
    };
    let b: nat = if attempts + 1 < 5 {
        (attempts + 1) as nat
    } else {
        5
    };
    let x = vstd::arithmetic::power2::pow2(a);
    let y = vstd::arithmetic::power2::pow2(b);
    assert(x <= y);
    assert(reconnect_ms * x <= reconnect_ms * y) by (nonlinear_arith)
        requires
            x <= y,
            reconnect_ms >= 0,
    ;
    assert(0 <= reconnect_ms * x) by (nonlinear_arith)
        requires
            x >= 0,
            reconnect_ms >= 0,
    ;
}

/// The pause starts at the reconnect interval, and each of the first five failed attempts
/// doubles it. It is never longer than 30 seconds.
pub proof fn law_backoff_doubles(reconnect_ms: u64, attempts: u32)
    requires
        attempts < u32::MAX,
    ensures
        backoff(reconnect_ms, 0) == if reconnect_ms < 30_000 {
            reconnect_ms as int
        } else {
            30_000
        },
        backoff(reconnect_ms, (attempts + 1) as u32) == if attempts >= 5 {
            backoff(reconnect_ms, attempts)
        } else if 2 * backoff(reconnect_ms, attempts) < 30_000 {
            2 * backoff(reconnect_ms, attempts)
        } else {
            30_000
        },
{
    vstd::arithmetic::power2::lemma2_to64();
    if attempts < 5 {
        vstd::arithmetic::power2::lemma_pow2_unfold((attempts + 1) as nat);
        let x = vstd::arithmetic::power2::pow2(attempts as nat);
        assert(reconnect_ms * (2 * x) == 2 * (reconnect_ms * x)) by (nonlinear_arith);
    }
    assert(reconnect_ms * 1 == reconnect_ms);
}

/// The pause after `attempts` failed attempts in a row.
pub fn backoff_ms(reconnect_ms: u64, attempts: u32) -> (ms: u64)
    ensures
        ms == backoff(reconnect_ms, attempts),
{
    proof {
        vstd::arithmetic::power2::lemma2_to64();
    }
    let factor: u64 = match attempts {
        0 => 1,
        1 => 2,
        2 => 4,
        3 => 8,
        4 => 16,
        _ => 32,
    };
    assert(0 <= reconnect_ms * factor <= u64::MAX * 32) by (nonlinear_arith)
        requires
            0 <= factor <= 32,
            0 <= reconnect_ms <= u64::MAX,
    ;
    let pause: u128 = reconnect_ms as u128 * factor as u128;
    if pause < MAX_BACKOFF_MS as u128 {
        pause as u64
    } else {
        MAX_BACKOFF_MS
    }
}

// ---------------------------------------------------------------------------
// Status results
// ---------------------------------------------------------------------------

/// The bytes of a status request.
pub open spec fn status_request_bytes() -> Seq<u8> {
    seq![0u8]
}

/// The frame that asks an upstream for its status.
pub fn status_request() -> (frame: Frame)
    ensures
        frame@ == FrameModel::Binary(status_request_bytes()),
{
    let mut bytes: Vec<u8> = Vec::new();
    bytes.push(0);
    assert(bytes@ =~= status_request_bytes());
    Frame::Binary(bytes)
}

/// An upstream reads the status request as one.
pub proof fn law_status_request_decodes()
    ensures
        crate::protocol::decodable(status_request_bytes()),
        crate::protocol::request(status_request_bytes())
            == crate::protocol::ShipRequest::GetStatusV0,
{
    let s = status_request_bytes();
    assert(s[0] == 0u8);
    assert(crate::protocol::varuint_len(s) == 1);
    assert(crate::protocol::varuint_sum(s) == 0);
}

/// A result that can be taken in: not empty and, where it is a status result (variant 0),
/// with all its fields but, at most, the optional chain id.
pub open spec fn result_readable(bytes: Seq<u8>) -> bool {
    bytes.len() >= 1 && (bytes[0] == 0 ==> bytes.len() > crate::zcd::status_min_len())
}

/// The state of an upstream that reported the status with these fields.
pub open spec fn reported(state: ServerState, fields: Seq<u8>) -> ServerState {
    ServerState {
        enabled: true,
        online: true,
        trace_begin_block: crate::bytes::u32_at(fields, 72),
        trace_end_block: crate::bytes::u32_at(fields, 76),
        chain_state_begin_block: crate::bytes::u32_at(fields, 80),
        chain_state_end_block: crate::bytes::u32_at(fields, 84),
        ..state
    }
}

/// The states after a result of `endpoint` came. Only a status with a head block counts.
pub open spec fn after_result(
    states: Map<Seq<char>, ServerState>,
    endpoint: Seq<char>,
    bytes: Seq<u8>,
) -> Map<Seq<char>, ServerState> {
    let fields = bytes.skip(1);
    if bytes[0] == 0 && crate::bytes::u32_at(fields, 0) > 0 {
        crate::connection_handler::with_state(
            states,
            endpoint,
            reported(states[endpoint], fields),
        )
    } else {
        states
    }
}

/// Whether a result can be taken in.
pub fn is_result_readable(bytes: &[u8]) -> (r: bool)
    ensures
        r == result_readable(bytes@),
{
    bytes.len() >= 1 && (bytes[0] != 0 || bytes.len() > 88)
}

/// Takes in a result of an upstream: a status with a head block puts the upstream online
/// with the block ranges that it reports.
pub fn apply_result(states: &mut ServerStateDb, endpoint: &str, bytes: &[u8])
    requires
        result_readable(bytes@),
    ensures
        final(states)@ == after_result(old(states)@, endpoint@, bytes@),
        final(states).keys() == old(states).keys(),
{
    let result_message = deserialize_result(bytes);
    proof {
        crate::zcd::lemma_result_names(bytes@);
    }
    let Some(ZCDValues::U8(variant)) = result_message.get("variant") else {
        return;
    };
    if variant != 0 {
        return;
    }
    let Some(ZCDValues::Bytes(data)) = result_message.get("data") else {
        return;
    };
    let ghost fields = bytes@.skip(1);
    assert(data@ == fields);
    let result = deserialize_status_result(data.as_slice());
    proof {
        crate::zcd::lemma_status_names(fields);
    }
    let Some(ZCDValues::U32(head_block_num)) = result.get("head_block_num") else {
        return;
    };
    if head_block_num > 0 {
        if let Some(at) = states.position(endpoint) {
            let mut state: ServerState = *states.value_at(at);
            state.enabled = true;
            state.online = true;
            if let Some(ZCDValues::U32(tb)) = result.get("trace_begin_block") {
                state.trace_begin_block = tb;
            }
            if let Some(ZCDValues::U32(te)) = result.get("trace_end_block") {
                state.trace_end_block = te;
            }
            if let Some(ZCDValues::U32(cb)) = result.get("chain_state_begin_block") {
                state.chain_state_begin_block = cb;
            }
            if let Some(ZCDValues::U32(ce)) = result.get("chain_state_end_block") {
                state.chain_state_end_block = ce;
            }
            states.set_at(at, state);
        }
    }
}

/// After an upstream has reported a status, it may be selected, and it covers exactly the
/// blocks that it reported traces of.
pub proof fn law_status_makes_selectable(
    states: Map<Seq<char>, ServerState>,
    endpoint: Seq<char>,
    head_block: u32,
    lib_block: u32,
    chain_id: Seq<u8>,
    trace_begin: u32,
    trace_end: u32,
    block: u32,
)
    requires
        states.contains_key(endpoint),
        0 < head_block < u32::MAX,
        chain_id.len() == 32,
    ensures
        ({
            let bytes = crate::protocol::status_result(
                head_block,
                lib_block,
                chain_id,
                trace_begin,
                trace_end,
            );
            let state = after_result(states, endpoint, bytes)[endpoint];
            &&& result_readable(bytes)
            &&& crate::functions::usable(state)
            &&& crate::functions::covers(state, Some(block)) <==> trace_begin <= block < trace_end
            &&& state.chain_state_end_block == head_block + 1
            &&& state.connections == states[endpoint].connections
            &&& state.stale == states[endpoint].stale
        }),
{
    let bytes = crate::protocol::status_result(
        head_block,
        lib_block,
        chain_id,
        trace_begin,
        trace_end,
    );
    let fields = crate::protocol::status_fields(
        head_block,
        lib_block,
        chain_id,
        trace_begin,
        trace_end,
    );
    crate::zcd::law_status_read_after_write(
        head_block,
        lib_block,
        chain_id,
        trace_begin,
        trace_end,
    );
    crate::zcd::lemma_result_names(bytes);
    crate::zcd::lemma_status_names(fields);
    assert(bytes.take(1)[0] == bytes[0]);
    assert(bytes.skip(1) == fields);
}

/// A result of one upstream changes nothing of another.
pub proof fn law_result_touches_own_upstream(
    states: Map<Seq<char>, ServerState>,
    endpoint: Seq<char>,
    bytes: Seq<u8>,
    other: Seq<char>,
)
    requires
        other != endpoint,
    ensures
        after_result(states, endpoint, bytes).contains_key(other) == states.contains_key(other),
        states.contains_key(other) ==> after_result(states, endpoint, bytes)[other]
            == states[other],
{
}

// ---------------------------------------------------------------------------
// The monitoring connection to an upstream
// ---------------------------------------------------------------------------

/// Where the monitor of an upstream stands.
#[derive(Debug, Clone, Copy, PartialEq, Eq)]
pub enum MonitorPhase {
    /// A connection is being made.
    Connecting,
    /// The pause before the next connection.
    Sleeping,
    /// Connected; the next frame is awaited.
    Receiving,
    /// The monitor is done.
    Stopped,
}

/// What happened to a monitor.
#[derive(Debug)]
pub enum MonitorEvent {
    Connected,
    ConnectFailed,
    /// The pause is over.
    Awake,
    /// The upstream sent a frame. Of an ABI, whether it can be loaded.
    Received { frame: Frame, abi_accepted: bool },
    /// The upstream ended the stream.
    Disconnected,
    /// Reading from the upstream failed.
    ReadFailed,
    Shutdown,
}

/// What a monitor does next.
#[derive(Debug, Clone, Copy, PartialEq, Eq)]
pub enum MonitorAction {
    /// Connect to the upstream.
    Connect,
    /// Drop the connection, if there is one, and pause for this many milliseconds.
    Sleep(u64),
    /// Start to ask for the status at every status interval, and wait for a frame.
    Poll,
    /// Wait for a frame.
    Receive,
    /// Ask for the status at once, then wait for a frame.
    RequestStatus,
    /// Drop the connection; the monitor is done.
    Stop,
    /// Go on with what is being done: the event does not concern it.
    Ignore,
}

/// The model of a `MonitorEvent`.
pub enum MonitorEventModel {
    Connected,
    ConnectFailed,
    Awake,
    Received { frame: FrameModel, abi_accepted: bool },
    Disconnected,
    ReadFailed,
    Shutdown,
}

impl View for MonitorEvent {
    type V = MonitorEventModel;

    open spec fn view(&self) -> MonitorEventModel {
        match self {
            MonitorEvent::Connected => MonitorEventModel::Connected,
            MonitorEvent::ConnectFailed => MonitorEventModel::ConnectFailed,
            MonitorEvent::Awake => MonitorEventModel::Awake,
            MonitorEvent::Received { frame, abi_accepted } => MonitorEventModel::Received {
                frame: frame@,
                abi_accepted: *abi_accepted,
            },
            MonitorEvent::Disconnected => MonitorEventModel::Disconnected,
            MonitorEvent::ReadFailed => MonitorEventModel::ReadFailed,
            MonitorEvent::Shutdown => MonitorEventModel::Shutdown,
        }
    }
}

/// Maintains a monitoring connection to a single upstream: connect, poll status, keep its
/// `ServerState` up to date, and reconnect with capped backoff.
#[derive(Debug)]
pub struct UpstreamMonitor {
    /// The upstream.
    pub endpoint: String,
    /// The pause between a lost connection and the next one.
    pub reconnect_ms: u64,
    pub phase: MonitorPhase,
    /// The ABI that the upstream sent first.
    pub ship_abi: Option<String>,
    /// How many attempts to connect have failed in a row.
    pub backoff_attempts: u32,
}

/// The model of an `UpstreamMonitor`.
pub struct MonitorModel {
    pub endpoint: Seq<char>,
    pub reconnect_ms: u64,
    pub phase: MonitorPhase,
    pub ship_abi: Option<Seq<char>>,
    pub backoff_attempts: u32,
}

impl View for UpstreamMonitor {
    type V = MonitorModel;

    open spec fn view(&self) -> MonitorModel {
        MonitorModel {
            endpoint: self.endpoint@,
            reconnect_ms: self.reconnect_ms,
            phase: self.phase,
            ship_abi: match self.ship_abi {
                Some(abi) => Some(abi@),
                None => None,
            },
            backoff_attempts: self.backoff_attempts,
        }
    }
}

/// A count of failed attempts that does not overflow.
pub open spec fn one_more(attempts: u32) -> u32 {
    if attempts == u32::MAX {
        u32::MAX
    } else {
        (attempts + 1) as u32
    }
}

/// The connection is lost: the upstream is offline and its ABI forgotten until it is
/// connected again, after a pause.
pub open spec fn connection_lost(
    monitor: MonitorModel,
    states: Map<Seq<char>, ServerState>,
) -> (MonitorModel, Map<Seq<char>, ServerState>, MonitorAction) {
    (
        MonitorModel { phase: MonitorPhase::Sleeping, ship_abi: None, ..monitor },
        crate::connection_handler::offline(states, monitor.endpoint),
        MonitorAction::Sleep(monitor.reconnect_ms),
    )
}

/// The state after a frame of the upstream, and what to do next. The first text is the
/// ABI; where it can be loaded, the status is asked for. A close frame is the loss of the
/// connection.
pub open spec fn after_frame(
    monitor: MonitorModel,
    states: Map<Seq<char>, ServerState>,
    frame: FrameModel,
    abi_accepted: bool,
) -> (MonitorModel, Map<Seq<char>, ServerState>, MonitorAction) {
    match frame {
        FrameModel::Text(text) => if monitor.ship_abi is None {
            (
                MonitorModel { ship_abi: Some(text), ..monitor },
                states,
                if abi_accepted {
                    MonitorAction::RequestStatus
                } else {
                    MonitorAction::Receive
                },
            )
        } else {
            (monitor, states, MonitorAction::Receive)
        },
        FrameModel::Binary(bytes) => (
            monitor,
            after_result(states, monitor.endpoint, bytes),
            MonitorAction::Receive,
        ),
        FrameModel::Close(_) => connection_lost(monitor, states),
        _ => (monitor, states, MonitorAction::Receive),
    }
}

/// The state after an event, and what to do next.
pub open spec fn monitored(
    monitor: MonitorModel,
    states: Map<Seq<char>, ServerState>,
    event: MonitorEventModel,
) -> (MonitorModel, Map<Seq<char>, ServerState>, MonitorAction) {
    match (monitor.phase, event) {
        (MonitorPhase::Stopped, _) => (monitor, states, MonitorAction::Stop),
        (_, MonitorEventModel::Shutdown) => (
            MonitorModel { phase: MonitorPhase::Stopped, ..monitor },
            states,
            MonitorAction::Stop,
        ),
        (MonitorPhase::Connecting, MonitorEventModel::Connected) => (
            MonitorModel { phase: MonitorPhase::Receiving, backoff_attempts: 0, ..monitor },
            states,
            MonitorAction::Poll,
        ),
        (MonitorPhase::Connecting, MonitorEventModel::ConnectFailed) => (
            MonitorModel {
                phase: MonitorPhase::Sleeping,
                backoff_attempts: one_more(monitor.backoff_attempts),
                ..monitor
            },
            states,
            MonitorAction::Sleep(backoff(monitor.reconnect_ms, monitor.backoff_attempts) as u64),
        ),
        (MonitorPhase::Sleeping, MonitorEventModel::Awake) => (
            MonitorModel { phase: MonitorPhase::Connecting, ..monitor },
            states,
            MonitorAction::Connect,
        ),
        (MonitorPhase::Receiving, MonitorEventModel::Received { frame, abi_accepted }) =>
            after_frame(monitor, states, frame, abi_accepted),
        (MonitorPhase::Receiving, MonitorEventModel::Disconnected) => connection_lost(
            monitor,
            states,
        ),
        (MonitorPhase::Receiving, MonitorEventModel::ReadFailed) => connection_lost(
            monitor,
            states,
        ),
        _ => (monitor, states, MonitorAction::Ignore),
    }
}

/// Frames that a monitor can take in.
pub open spec fn frame_readable(frame: FrameModel) -> bool {
    match frame {
        FrameModel::Binary(bytes) => result_readable(bytes),
        _ => true,
    }
}

/// Whether a monitor can take in a frame.
pub fn is_frame_readable(frame: &Frame) -> (r: bool)
    ensures
        r == frame_readable(frame@),
{
    match frame {
        Frame::Binary(bytes) => is_result_readable(bytes.as_slice()),
        _ => true,
    }
}

impl UpstreamMonitor {
    /// A monitor that is about to connect.
    pub fn new(endpoint: String, reconnect_ms: u64) -> (r: (UpstreamMonitor, MonitorAction))
        ensures
            r.0@ == (MonitorModel {
                endpoint: endpoint@,
                reconnect_ms,
                phase: MonitorPhase::Connecting,
                ship_abi: None,
                backoff_attempts: 0,
            }),
            r.1 == MonitorAction::Connect,
    {
        (
            UpstreamMonitor {
                endpoint,
                reconnect_ms,
                phase: MonitorPhase::Connecting,
                ship_abi: None,
                backoff_attempts: 0,
            },
            MonitorAction::Connect,
        )
    }

    /// The connection is lost.
    fn lose_connection(&mut self, states: &mut ServerStateDb) -> (action: MonitorAction)
        ensures
            (final(self)@, final(states)@, action) == connection_lost(old(self)@, old(states)@),
            final(states).keys() == old(states).keys(),
    {
        self.phase = MonitorPhase::Sleeping;
        self.ship_abi = None;
        mark_offline(states, &self.endpoint);
        MonitorAction::Sleep(self.reconnect_ms)
    }

    /// Takes in a frame of the upstream.
    fn handle_monitoring_msg(
        &mut self,
        states: &mut ServerStateDb,
        frame: Frame,
        abi_accepted: bool,
    ) -> (action: MonitorAction)
        requires
            frame_readable(frame@),
        ensures
            (final(self)@, final(states)@, action) == after_frame(
                old(self)@,
                old(states)@,
                frame@,
                abi_accepted,
            ),
            final(states).keys() == old(states).keys(),
    {
        match frame {
            Frame::Text(text) => {
                if self.ship_abi.is_none() {
                    self.ship_abi = Some(text);
                    if abi_accepted {
                        MonitorAction::RequestStatus
                    } else {
                        MonitorAction::Receive
                    }
                } else {
                    MonitorAction::Receive
                }
            },
            Frame::Binary(bytes) => {
                apply_result(states, &self.endpoint, bytes.as_slice());
                MonitorAction::Receive
            },
            Frame::Close(_) => self.lose_connection(states),
            _ => MonitorAction::Receive,
        }
    }

    /// Takes an event and decides what to do next.
    pub fn step(&mut self, states: &mut ServerStateDb, event: MonitorEvent) -> (action:
        MonitorAction)
        requires
            event matches MonitorEvent::Received { frame, abi_accepted } ==> frame_readable(frame@),
        ensures
            (final(self)@, final(states)@, action) == monitored(
                old(self)@,
                old(states)@,
                event@,
            ),
            final(states).keys() == old(states).keys(),
    {
        match (self.phase, event) {
            (MonitorPhase::Stopped, _) => MonitorAction::Stop,
            (_, MonitorEvent::Shutdown) => {
                self.phase = MonitorPhase::Stopped;
                MonitorAction::Stop
            },
            (MonitorPhase::Connecting, MonitorEvent::Connected) => {
                self.phase = MonitorPhase::Receiving;
                self.backoff_attempts = 0;
                MonitorAction::Poll
            },
            (MonitorPhase::Connecting, MonitorEvent::ConnectFailed) => {
                let pause: u64 = backoff_ms(self.reconnect_ms, self.backoff_attempts);
                self.phase = MonitorPhase::Sleeping;
                self.backoff_attempts = self.backoff_attempts.saturating_add(1);
                MonitorAction::Sleep(pause)
            },
            (MonitorPhase::Sleeping, MonitorEvent::Awake) => {
                self.phase = MonitorPhase::Connecting;
                MonitorAction::Connect
            },
            (MonitorPhase::Receiving, MonitorEvent::Received { frame, abi_accepted }) => {
                self.handle_monitoring_msg(states, frame, abi_accepted)
            },
            (MonitorPhase::Receiving, MonitorEvent::Disconnected) => self.lose_connection(states),
            (MonitorPhase::Receiving, MonitorEvent::ReadFailed) => self.lose_connection(states),
            _ => MonitorAction::Ignore,
        }
    }

    /// The upstream sent a frame: checks the ABI, where it is one, and takes the event.
    pub fn frame_received(
        &mut self,
        states: &mut ServerStateDb,
        ctx: &AbiContext,
        frame: Frame,
    ) -> (action: MonitorAction)
        requires
            frame_readable(frame@),
        ensures
            (final(self)@, final(states)@, action) == monitored(
                old(self)@,
                old(states)@,
                MonitorEventModel::Received {
                    frame: frame@,
                    abi_accepted: match frame@ {
                        FrameModel::Text(text) => old(self)@.ship_abi is None
                            && crate::abi::abi_loads_native(0, text, usize::BITS),
                        _ => false,
                    },
                },
            ),
            final(states).keys() == old(states).keys(),
    {
        let abi_accepted = match &frame {
            Frame::Text(text) => {
                if self.ship_abi.is_none() {
                    match ctx.check_monitor_abi(text) {
                        Ok(()) => true,
                        Err(_) => false,
                    }
                } else {
                    false
                }
            },
            _ => false,
        };
        self.step(states, MonitorEvent::Received { frame, abi_accepted })
    }
}

/// A monitor that is done stays done and changes nothing.
pub proof fn law_stopped_stays_stopped(
    monitor: MonitorModel,
    states: Map<Seq<char>, ServerState>,
    event: MonitorEventModel,
)
    requires
        monitor.phase == MonitorPhase::Stopped,
    ensures
        monitored(monitor, states, event) == (monitor, states, MonitorAction::Stop),
{
}

/// A monitor stops when the process shuts down, at once and whatever it is doing.
pub proof fn law_shutdown_stops(monitor: MonitorModel, states: Map<Seq<char>, ServerState>)
    ensures
        monitored(monitor, states, MonitorEventModel::Shutdown) == (
            MonitorModel { phase: MonitorPhase::Stopped, ..monitor },
            states,
            MonitorAction::Stop,
        ),
{
}

/// Nothing but a shutdown stops a monitor.
pub proof fn law_only_shutdown_stops(
    monitor: MonitorModel,
    states: Map<Seq<char>, ServerState>,
    event: MonitorEventModel,
)
    requires
        monitor.phase != MonitorPhase::Stopped,
        event !is Shutdown,
    ensures
        monitored(monitor, states, event).0.phase != MonitorPhase::Stopped,
        monitored(monitor, states, event).2 != MonitorAction::Stop,
{
}

/// The events by which a monitor loses its connection: the upstream closes it, its stream
/// ends, or reading from it fails.
pub open spec fn loss(event: MonitorEventModel) -> bool {
    match event {
        MonitorEventModel::Disconnected => true,
        MonitorEventModel::ReadFailed => true,
        MonitorEventModel::Received { frame, abi_accepted } => frame is Close,
        _ => false,
    }
}

/// However a connection is lost, the monitor connects again after the reconnect interval,
/// and takes the first text that then comes for the ABI. Meanwhile the upstream is
/// offline and not selected.
pub proof fn law_loss_reconnects(
    monitor: MonitorModel,
    states: Map<Seq<char>, ServerState>,
    event: MonitorEventModel,
    requested_block: Option<u32>,
)
    requires
        monitor.phase == MonitorPhase::Receiving,
        loss(event),
    ensures
        ({
            let (lost, after, action) = monitored(monitor, states, event);
            let (awake, later, next) = monitored(lost, after, MonitorEventModel::Awake);
            &&& action == MonitorAction::Sleep(monitor.reconnect_ms)
            &&& lost.ship_abi is None
            &&& after == crate::connection_handler::offline(states, monitor.endpoint)
            &&& !crate::functions::best_choice(after, requested_block, monitor.endpoint)
            &&& next == MonitorAction::Connect
            &&& later == after
        }),
{
    crate::connection_handler::law_offline_not_selected(states, requested_block, monitor.endpoint);
}

/// A monitor changes the state of its own upstream alone, and never the number of its
/// connections or its stale flag.
pub proof fn law_monitor_keeps_to_its_upstream(
    monitor: MonitorModel,
    states: Map<Seq<char>, ServerState>,
    event: MonitorEventModel,
)
    ensures
        monitored(monitor, states, event).1.dom() == states.dom(),
        forall|k: Seq<char>| #[trigger]
            states.contains_key(k) && k != monitor.endpoint ==> monitored(
                monitor,
                states,
                event,
            ).1[k] == states[k],
        states.contains_key(monitor.endpoint) ==> monitored(
            monitor,
            states,
            event,
        ).1[monitor.endpoint].connections == states[monitor.endpoint].connections && monitored(
            monitor,
            states,
            event,
        ).1[monitor.endpoint].stale == states[monitor.endpoint].stale,
{
    assert(monitored(monitor, states, event).1.dom() =~= states.dom());
}

/// Every status that a connected upstream reports counts, the first one and each later one,
/// whatever is known of the upstream so far: afterwards it is enabled and online, and its
/// block ranges are the four numbers of this status. How many connections it has and
/// whether it is stale is not touched, no other upstream is, and the next frame is awaited.
/// A status is a binary frame that starts with 0, with a head block above 0 behind it.
pub proof fn law_every_status_counts(
    monitor: MonitorModel,
    states: Map<Seq<char>, ServerState>,
    bytes: Seq<u8>,
    abi_accepted: bool,
)
    requires
        monitor.phase == MonitorPhase::Receiving,
        states.contains_key(monitor.endpoint),
        bytes.len() > 88,
        bytes[0] == 0,
        crate::bytes::u32_at(bytes, 1) > 0,
    ensures
        ({
            let (m, after, action) = monitored(
                monitor,
                states,
                MonitorEventModel::Received { frame: FrameModel::Binary(bytes), abi_accepted },
            );
            let before = states[monitor.endpoint];
            let state = after[monitor.endpoint];
            &&& frame_readable(FrameModel::Binary(bytes))
            &&& m == monitor
            &&& action == MonitorAction::Receive
            &&& after.dom() == states.dom()
            &&& forall|k: Seq<char>| #[trigger]
                states.contains_key(k) && k != monitor.endpoint ==> after[k] == states[k]
            &&& state.enabled && state.online
            &&& state.trace_begin_block == crate::bytes::u32_at(bytes, 73)
            &&& state.trace_end_block == crate::bytes::u32_at(bytes, 77)
            &&& state.chain_state_begin_block == crate::bytes::u32_at(bytes, 81)
            &&& state.chain_state_end_block == crate::bytes::u32_at(bytes, 85)
            &&& state.connections == before.connections
            &&& state.stale == before.stale
        }),
{
    let fields = bytes.skip(1);
    assert(fields.subrange(0, 4) =~= bytes.subrange(1, 5));
    assert(fields.subrange(72, 76) =~= bytes.subrange(73, 77));
    assert(fields.subrange(76, 80) =~= bytes.subrange(77, 81));
    assert(fields.subrange(80, 84) =~= bytes.subrange(81, 85));
    assert(fields.subrange(84, 88) =~= bytes.subrange(85, 89));
    let after = after_result(states, monitor.endpoint, bytes);
    assert(after.dom() =~= states.dom());
}

/// Of two statuses in a row, the later one is what is known of the upstream: the result is
/// the same as if the earlier one had not come.
pub proof fn law_latest_status_wins(
    monitor: MonitorModel,
    states: Map<Seq<char>, ServerState>,
    earlier: Seq<u8>,
    later: Seq<u8>,
)
    requires
        monitor.phase == MonitorPhase::Receiving,
        later.len() > 88,
        later[0] == 0,
        crate::bytes::u32_at(later, 1) > 0,
    ensures
        ({
            let first = MonitorEventModel::Received {
                frame: FrameModel::Binary(earlier),
                abi_accepted: false,
            };
            let second = MonitorEventModel::Received {
                frame: FrameModel::Binary(later),
                abi_accepted: false,
            };
            let (m, between, action) = monitored(monitor, states, first);
            monitored(m, between, second) == monitored(monitor, states, second)
        }),
{
    let fields = later.skip(1);
    assert(fields.subrange(0, 4) =~= later.subrange(1, 5));
    let e = monitor.endpoint;
    let between = after_result(states, e, earlier);
    assert(after_result(between, e, later) =~= after_result(states, e, later));
}

/// What is no status with a head block changes nothing: results of another kind, statuses
/// with a head block of 0, control frames, and what comes from an upstream that is not known.
pub proof fn law_nothing_else_counts(
    monitor: MonitorModel,
    states: Map<Seq<char>, ServerState>,
    frame: FrameModel,
    abi_accepted: bool,
)
    requires
        monitor.phase == MonitorPhase::Receiving,
        frame_readable(frame),
        match frame {
            FrameModel::Binary(bytes) => bytes[0] != 0 || crate::bytes::u32_at(bytes, 1) == 0
                || !states.contains_key(monitor.endpoint),
            FrameModel::Ping(_) => true,
            FrameModel::Pong(_) => true,
            _ => false,
        },
    ensures
        monitored(monitor, states, MonitorEventModel::Received { frame, abi_accepted }) == (
            monitor,
            states,
            MonitorAction::Receive,
        ),
{
    if let FrameModel::Binary(bytes) = frame {
        if bytes[0] == 0 {
            assert(bytes.skip(1).subrange(0, 4) =~= bytes.subrange(1, 5));
        }
    }
}

/// Which frames can be taken in: a binary one that is not empty and, where it starts with 0,
/// has the 88 bytes of a status behind that; and every other one.
pub proof fn law_readable_frames(frame: FrameModel)
    ensures
        frame_readable(frame) <==> match frame {
            FrameModel::Binary(bytes) => bytes.len() >= 1 && (bytes[0] != 0 || bytes.len() >= 89),
            _ => true,
        },
{
}

/// The first text of a connection is taken for the upstream's ABI; where that can be
/// loaded, the status is asked for at once. Later texts change nothing.
pub proof fn law_first_text_is_the_abi(
    monitor: MonitorModel,
    states: Map<Seq<char>, ServerState>,
    text: Seq<char>,
    abi_accepted: bool,
)
    requires
        monitor.phase == MonitorPhase::Receiving,
    ensures
        ({
            let event = MonitorEventModel::Received { frame: FrameModel::Text(text), abi_accepted };
            let (m, after, action) = monitored(monitor, states, event);
            &&& after == states
            &&& monitor.ship_abi is None ==> m == (MonitorModel {
                ship_abi: Some(text),
                ..monitor
            }) && action == if abi_accepted {
                MonitorAction::RequestStatus
            } else {
                MonitorAction::Receive
            }
            &&& monitor.ship_abi is Some ==> m == monitor && action == MonitorAction::Receive
        }),
{
}

/// Connecting: a connection that is made is polled, and the failed attempts before it are
/// forgotten. One that fails is tried again after a pause that grows with the failed
/// attempts in a row. Neither tells anything of the upstream's state.
pub proof fn law_connecting(monitor: MonitorModel, states: Map<Seq<char>, ServerState>)
    requires
        monitor.phase == MonitorPhase::Connecting,
    ensures
        monitored(monitor, states, MonitorEventModel::Connected) == (
            MonitorModel { phase: MonitorPhase::Receiving, backoff_attempts: 0, ..monitor },
            states,
            MonitorAction::Poll,
        ),
        ({
            let (m, after, action) = monitored(monitor, states, MonitorEventModel::ConnectFailed);
            &&& after == states
            &&& action == MonitorAction::Sleep(
                backoff(monitor.reconnect_ms, monitor.backoff_attempts) as u64,
            )
            &&& 0 <= backoff(monitor.reconnect_ms, monitor.backoff_attempts) <= 30_000
            &&& m.phase == MonitorPhase::Sleeping
            &&& m.backoff_attempts == if monitor.backoff_attempts < u32::MAX {
                monitor.backoff_attempts + 1
            } else {
                u32::MAX as int
            }
            &&& m.endpoint == monitor.endpoint && m.reconnect_ms == monitor.reconnect_ms
                && m.ship_abi == monitor.ship_abi
        }),
{
    if monitor.backoff_attempts < u32::MAX {
        law_backoff_grows_to_cap(monitor.reconnect_ms, monitor.backoff_attempts);
    } else {
        law_backoff_grows_to_cap(monitor.reconnect_ms, 5);
    }
}

/// Behind a pause the upstream is connected again, and nothing else changes.
pub proof fn law_awake_connects(monitor: MonitorModel, states: Map<Seq<char>, ServerState>)
    requires
        monitor.phase == MonitorPhase::Sleeping,
    ensures
        monitored(monitor, states, MonitorEventModel::Awake) == (
            MonitorModel { phase: MonitorPhase::Connecting, ..monitor },
            states,
            MonitorAction::Connect,
        ),
{
}

/// A connection that is lost, in whichever way, marks the upstream offline and forgets its
/// ABI, and nothing else: not its block ranges, its connections or its stale flag, and
/// nothing of another upstream.
pub proof fn law_loss_marks_offline(
    monitor: MonitorModel,
    states: Map<Seq<char>, ServerState>,
    event: MonitorEventModel,
)
    requires
        monitor.phase == MonitorPhase::Receiving,
        ({
            ||| event is Disconnected
            ||| event is ReadFailed
            ||| event matches MonitorEventModel::Received { frame, abi_accepted } && frame is Close
        }),
    ensures
        ({
            let (m, after, action) = monitored(monitor, states, event);
            &&& m == (MonitorModel { phase: MonitorPhase::Sleeping, ship_abi: None, ..monitor })
            &&& action == MonitorAction::Sleep(monitor.reconnect_ms)
            &&& after.dom() == states.dom()
            &&& forall|k: Seq<char>| #[trigger]
                states.contains_key(k) ==> after[k] == (ServerState {
                    online: states[k].online && k != monitor.endpoint,
                    ..states[k]
                })
        }),
{
    let (m, after, action) = monitored(monitor, states, event);
    assert(after.dom() =~= states.dom());
}

/// Events that a monitor does not wait for change nothing: each phase has its own.
pub proof fn law_other_monitor_events_ignored(
    monitor: MonitorModel,
    states: Map<Seq<char>, ServerState>,
    event: MonitorEventModel,
)
    requires
        event !is Shutdown,
        match monitor.phase {
            MonitorPhase::Connecting => event !is Connected && event !is ConnectFailed,
            MonitorPhase::Sleeping => event !is Awake,
            MonitorPhase::Receiving => event !is Received && event !is Disconnected
                && event !is ReadFailed,
            MonitorPhase::Stopped => false,
        },
    ensures
        monitored(monitor, states, event) == (monitor, states, MonitorAction::Ignore),
{
}

} // verus!
