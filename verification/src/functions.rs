//! Backend selection and hexadecimal text.

use vstd::prelude::*;

use crate::errors;
use crate::models::ServerState;
use crate::string_map::StringMap;

verus! {

// ---------------------------------------------------------------------------
// Backend selection
// ---------------------------------------------------------------------------

/// An upstream that may be selected.
pub open spec fn usable(state: ServerState) -> bool {
    state.enabled && state.online
}

/// Whether the traces of an upstream cover the requested block. The end of the range
/// is exclusive: SHiP reports `trace_end_block` as one past the last available block.
pub open spec fn covers(state: ServerState, requested_block: Option<u32>) -> bool {
    match requested_block {
        Some(block) => state.trace_end_block > 0 && state.trace_begin_block <= block
            < state.trace_end_block,
        None => false,
    }
}

/// How well an upstream suits a request; lower is better.
pub open spec fn rank(state: ServerState, requested_block: Option<u32>) -> int {
    match (covers(state, requested_block), state.stale) {
        (true, false) => 0,
        (true, true) => 1,
        (false, false) => 2,
        (false, true) => 3,
    }
}

/// `a` suits a request at least as well as `b`: it ranks better, or the same with no
/// more connections.
pub open spec fn at_least_as_good(
    a: ServerState,
    b: ServerState,
    requested_block: Option<u32>,
) -> bool {
    ||| rank(a, requested_block) < rank(b, requested_block)
    ||| rank(a, requested_block) == rank(b, requested_block) && a.connections <= b.connections
}

/// Whether some upstream may be selected.
pub open spec fn any_usable(servers: Map<Seq<char>, ServerState>) -> bool {
    exists|k: Seq<char>| #[trigger] servers.contains_key(k) && usable(servers[k])
}

/// Whether `choice` may be selected for a request: it is usable, and no usable
/// upstream suits the request better. Which one of several equally good ones is
/// selected is left open.
pub open spec fn best_choice(
    servers: Map<Seq<char>, ServerState>,
    requested_block: Option<u32>,
    choice: Seq<char>,
) -> bool {
    &&& servers.contains_key(choice)
    &&& usable(servers[choice])
    &&& forall|k: Seq<char>| #[trigger]
        servers.contains_key(k) && usable(servers[k]) ==> at_least_as_good(
            servers[choice],
            servers[k],
            requested_block,
        )
}

/// A fresh upstream that covers the requested block is never passed over for one that
/// does not cover it or is stale.
pub proof fn law_fresh_coverage_preferred(
    servers: Map<Seq<char>, ServerState>,
    block: u32,
    choice: Seq<char>,
    other: Seq<char>,
)
    requires
        best_choice(servers, Some(block), choice),
        servers.contains_key(other),
        usable(servers[other]),
        covers(servers[other], Some(block)),
        !servers[other].stale,
    ensures
        covers(servers[choice], Some(block)),
        !servers[choice].stale,
{
}

/// An upstream that covers the requested block, stale or not, is never passed over
/// for one that does not.
pub proof fn law_coverage_before_freshness(
    servers: Map<Seq<char>, ServerState>,
    block: u32,
    choice: Seq<char>,
    other: Seq<char>,
)
    requires
        best_choice(servers, Some(block), choice),
        servers.contains_key(other),
        usable(servers[other]),
        covers(servers[other], Some(block)),
    ensures
        covers(servers[choice], Some(block)),
{
}

/// Among upstreams of the same rank, the selected one has the fewest connections.
pub proof fn law_least_connections(
    servers: Map<Seq<char>, ServerState>,
    requested_block: Option<u32>,
    choice: Seq<char>,
    other: Seq<char>,
)
    requires
        best_choice(servers, requested_block, choice),
        servers.contains_key(other),
        usable(servers[other]),
        rank(servers[other], requested_block) == rank(servers[choice], requested_block),
    ensures
        servers[choice].connections <= servers[other].connections,
{
}

/// Without a requested block, a stale upstream is selected only where every usable
/// one is stale.
pub proof fn law_stale_last(servers: Map<Seq<char>, ServerState>, choice: Seq<char>, other: Seq<char>)
    requires
        best_choice(servers, None, choice),
        servers[choice].stale,
        servers.contains_key(other),
        usable(servers[other]),
    ensures
        servers[other].stale,
{
}

/// Whether an upstream has the traces of a block: not where none is asked for.
pub open spec fn has_traces(state: ServerState, requested_block: Option<u32>) -> bool {
    requested_block matches Some(block) && state.trace_begin_block <= block
        < state.trace_end_block
}

/// Only an upstream that is known, enabled and online is selected.
pub proof fn law_selected_is_enabled_and_online(
    servers: Map<Seq<char>, ServerState>,
    requested_block: Option<u32>,
    choice: Seq<char>,
)
    requires
        best_choice(servers, requested_block, choice),
    ensures
        servers.contains_key(choice),
        servers[choice].enabled,
        servers[choice].online,
{
}

/// What the selected upstream has ahead of every other that is enabled and online, whatever
/// block is asked for, if any. If the other one has the block, so has it. Of upstreams that
/// both have the block, or both lack it, a stale one is selected only where the other one
/// is stale too, whatever their connections. Of two that are also both stale, or both
/// fresh, it is the one with no more connections.
pub proof fn law_selection_order(
    servers: Map<Seq<char>, ServerState>,
    requested_block: Option<u32>,
    choice: Seq<char>,
    other: Seq<char>,
)
    requires
        best_choice(servers, requested_block, choice),
        servers.contains_key(other),
        servers[other].enabled,
        servers[other].online,
    ensures
        has_traces(servers[other], requested_block) ==> has_traces(
            servers[choice],
            requested_block,
        ),
        has_traces(servers[other], requested_block) == has_traces(servers[choice], requested_block)
            && servers[choice].stale ==> servers[other].stale,
        has_traces(servers[other], requested_block) == has_traces(servers[choice], requested_block)
            && servers[choice].stale == servers[other].stale ==> servers[choice].connections
            <= servers[other].connections,
{
}

/// With a requested block that no usable upstream has, a stale upstream is selected only
/// where every usable one is stale.
pub proof fn law_stale_last_without_coverage(
    servers: Map<Seq<char>, ServerState>,
    requested_block: Option<u32>,
    choice: Seq<char>,
)
    requires
        best_choice(servers, requested_block, choice),
        servers[choice].stale,
        forall|k: Seq<char>| #[trigger]
            servers.contains_key(k) && servers[k].enabled && servers[k].online ==> !has_traces(
                servers[k],
                requested_block,
            ),
    ensures
        forall|k: Seq<char>| #[trigger]
            servers.contains_key(k) && servers[k].enabled && servers[k].online ==> servers[k].stale,
{
    assert forall|k: Seq<char>| #[trigger]
        servers.contains_key(k) && servers[k].enabled && servers[k].online implies servers[k].stale by {
        law_selection_order(servers, requested_block, choice, k);
    }
}

/// An upstream that has all that ahead of every other one may be selected: nothing else
/// counts, and the upstreams that are disabled or offline do not either.
pub proof fn law_best_may_be_selected(
    servers: Map<Seq<char>, ServerState>,
    requested_block: Option<u32>,
    choice: Seq<char>,
)
    requires
        servers.contains_key(choice),
        servers[choice].enabled,
        servers[choice].online,
        forall|k: Seq<char>| #[trigger]
            servers.contains_key(k) && servers[k].enabled && servers[k].online ==> {
                let (mine, theirs) = (
                    has_traces(servers[choice], requested_block),
                    has_traces(servers[k], requested_block),
                );
                &&& theirs ==> mine
                &&& theirs == mine && servers[choice].stale ==> servers[k].stale
                &&& theirs == mine && servers[choice].stale == servers[k].stale
                    ==> servers[choice].connections <= servers[k].connections
            },
    ensures
        best_choice(servers, requested_block, choice),
{
}

/// Some upstream can be selected exactly where one is enabled and online, stale or not.
pub proof fn law_selectable(servers: Map<Seq<char>, ServerState>)
    ensures
        any_usable(servers) <==> exists|k: Seq<char>| #[trigger]
            servers.contains_key(k) && servers[k].enabled && servers[k].online,
{
    if exists|k: Seq<char>| #[trigger]
        servers.contains_key(k) && servers[k].enabled && servers[k].online {
        let k = choose|k: Seq<char>| #[trigger]
            servers.contains_key(k) && servers[k].enabled && servers[k].online;
        assert(servers.contains_key(k) && usable(servers[k]));
    }
}

/// The rank of an upstream, as a number.
fn rank_of(state: &ServerState, requested_block: Option<u32>) -> (r: u8)
    ensures
        r == rank(*state, requested_block),
{
    let covers_range = match requested_block {
        Some(block) => {
            state.trace_end_block > 0 && state.trace_begin_block <= block && block
                < state.trace_end_block
        },
        None => false,
    };
    match (covers_range, state.stale) {
        (true, false) => 0u8,
        (true, true) => 1,
        (false, false) => 2,
        (false, true) => 3,
    }
}

/// Select a backend server from the list of available (enabled + online) servers.
///
/// Candidates are ranked, best first:
///
/// 1. covers the requested block AND is fresh (advancing)
/// 2. covers the requested block but is stale
/// 3. does not cover the block but is fresh
/// 4. does not cover the block and is stale
///
/// Within the same rank, the server with the fewest active connections wins
/// (least-connections load balancing). Stale servers are deprioritized but never
/// excluded, so selection never starves when every upstream is stale.
pub fn select_backend_server(
    servers: &StringMap<ServerState>,
    requested_block: Option<u32>,
) -> (selected: Result<String, &'static str>)
    ensures
        match selected {
            Ok(endpoint) => best_choice(servers@, requested_block, endpoint@),
            Err(e) => e == errors::NO_SERVERS_AVAILABLE && !any_usable(servers@),
        },
{
    let n: usize = servers.len();
    let mut best: Option<usize> = None;
    let mut i: usize = 0;
    while i < n
        invariant
            i <= n,
            n == servers.keys().len(),
            servers.well_keyed(),
            best matches Some(b) ==> b < i && usable(servers@[servers.keys()[b as int]]),
            best is None ==> forall|j: int|
                0 <= j < i ==> !usable(servers@[#[trigger] servers.keys()[j]]),
            best matches Some(b) ==> forall|j: int|
                0 <= j < i && usable(servers@[#[trigger] servers.keys()[j]]) ==> at_least_as_good(
                    servers@[servers.keys()[b as int]],
                    servers@[servers.keys()[j]],
                    requested_block,
                ),
        decreases n - i,
    {
        let state = servers.value_at(i);
        if state.enabled && state.online {
            let better = match best {
                None => true,
                Some(b) => {
                    let champion = servers.value_at(b);
                    let rank: u8 = rank_of(state, requested_block);
                    let best_rank: u8 = rank_of(champion, requested_block);
                    rank < best_rank || (rank == best_rank && state.connections
                        < champion.connections)
                },
            };
            if better {
                best = Some(i);
            }
        }
        i += 1;
    }
    match best {
        Some(b) => {
            let endpoint = servers.key_at(b).clone();
            proof {
                assert forall|k: Seq<char>| #[trigger]
                    servers@.contains_key(k) && usable(servers@[k]) implies at_least_as_good(
                    servers@[endpoint@],
                    servers@[k],
                    requested_block,
                ) by {
                    let j = servers.keys().index_of(k);
                    assert(servers.keys()[j] == k);
                }
            }
            Ok(endpoint)
        },
        None => {
            proof {
                assert forall|k: Seq<char>| #[trigger] servers@.contains_key(k) implies !usable(
                    servers@[k],
                ) by {
                    let j = servers.keys().index_of(k);
                    assert(servers.keys()[j] == k);
                }
            }
            Err(errors::NO_SERVERS_AVAILABLE)
        },
    }
}

// ---------------------------------------------------------------------------
// Hexadecimal text
// ---------------------------------------------------------------------------

/// The lower-case hexadecimal digit `d`.
pub open spec fn hex_digit(d: u8) -> char {
    if d < 10 {
        (48 + d) as u8 as char
    } else {
        (87 + d) as u8 as char
    }
}

/// Two hexadecimal digits a byte, the high half first.
pub open spec fn hex(bytes: Seq<u8>) -> Seq<char> {
    Seq::new(
        2 * bytes.len(),
        |i: int|
            if i % 2 == 0 {
                hex_digit(bytes[i / 2] / 16)
            } else {
                hex_digit(bytes[i / 2] % 16)
            },
    )
}

fn hex_char(d: u8) -> (c: char)
    requires
        d < 16,
    ensures
        c == hex_digit(d),
{
    if d < 10 {
        (48 + d) as char
    } else {
        (87 + d) as char
    }
}

/// The bytes in lower-case hexadecimal.
pub fn buffer_to_hex(buffer: Vec<u8>) -> (text: String)
    ensures
        text@ == hex(buffer@),
{
    let mut text = String::new();
    let mut i: usize = 0;
    while i < buffer.len()
        invariant
            i <= buffer.len(),
            text@ == hex(buffer@).take(2 * i as int),
        decreases buffer.len() - i,
    {
        text.push(hex_char(buffer[i] / 16));
        text.push(hex_char(buffer[i] % 16));
        proof {
            let whole = hex(buffer@);
            assert(whole[2 * i] == hex_digit(buffer@[i as int] / 16));
            assert(whole[2 * i + 1] == hex_digit(buffer@[i as int] % 16));
        }
        i += 1;
    }
    text
}

/// Every byte is written as two of the sixteen digits, and can be told from them.
pub proof fn law_hex_digits(bytes: Seq<u8>, i: int)
    requires
        0 <= i < bytes.len(),
    ensures
        hex(bytes).len() == 2 * bytes.len(),
        hex(bytes)[2 * i] == "0123456789abcdef"@[(bytes[i] / 16) as int],
        hex(bytes)[2 * i + 1] == "0123456789abcdef"@[(bytes[i] % 16) as int],
{
    reveal_strlit("0123456789abcdef");
    assert((2 * i) / 2 == i && (2 * i) % 2 == 0);
    assert((2 * i + 1) / 2 == i && (2 * i + 1) % 2 == 1);
}

} // verus!
