//! Backend selection, and the map that holds the upstreams.

use fleet_router::errors::NO_SERVERS_AVAILABLE;
use fleet_router::functions::select_backend_server;
use fleet_router::models::{ServerState, ServerStateDb};
use fleet_router::string_map::StringMap;

fn online(begin: u32, end: u32, connections: usize) -> ServerState {
    let mut state = ServerState::new();
    state.online = true;
    state.trace_begin_block = begin;
    state.trace_end_block = end;
    state.connections = connections;
    state
}

fn stale(state: ServerState) -> ServerState {
    let mut state = state;
    state.stale = true;
    state
}

fn db(states: Vec<(&str, ServerState)>) -> ServerStateDb {
    let mut db = StringMap::new();
    for (endpoint, state) in states {
        db.insert(endpoint.to_string(), state);
    }
    db
}

fn select(db: &ServerStateDb, block: Option<u32>) -> String {
    select_backend_server(db, block).unwrap()
}

#[test]
fn nothing_to_select() {
    assert_eq!(select_backend_server(&db(vec![]), None), Err(NO_SERVERS_AVAILABLE));
    let mut disabled = online(1, 10, 0);
    disabled.enabled = false;
    let servers = db(vec![("off", ServerState::new()), ("disabled", disabled)]);
    assert_eq!(select_backend_server(&servers, Some(5)), Err(NO_SERVERS_AVAILABLE));
}

#[test]
fn least_connections() {
    let servers = db(vec![("a", online(1, 10, 3)), ("b", online(1, 10, 1)), ("c", online(1, 10, 2))]);
    assert_eq!(select(&servers, None), "b");
    assert_eq!(select(&servers, Some(5)), "b");
}

#[test]
fn coverage_comes_first() {
    let servers = db(vec![("busy", online(1, 5001, 9)), ("idle", online(5001, 10001, 0))]);
    assert_eq!(select(&servers, Some(500)), "busy");
    assert_eq!(select(&servers, Some(5000)), "busy");
    // The end of a range is not part of it.
    assert_eq!(select(&servers, Some(5001)), "idle");
    // No one covers the block: the least loaded one is taken.
    assert_eq!(select(&servers, Some(20000)), "idle");
}

#[test]
fn a_range_that_was_never_reported_covers_nothing() {
    let servers = db(vec![("new", online(0, 0, 0)), ("old", online(0, 10, 5))]);
    assert_eq!(select(&servers, Some(0)), "old");
    assert_eq!(select(&servers, None), "new");
}

#[test]
fn the_four_ranks() {
    let fresh_cover = online(1, 100, 9);
    let stale_cover = stale(online(1, 100, 0));
    let fresh_other = online(200, 300, 0);
    let stale_other = stale(online(200, 300, 0));
    let mut servers = vec![
        ("4", stale_other),
        ("3", fresh_other),
        ("2", stale_cover),
        ("1", fresh_cover),
    ];
    for best in ["1", "2", "3", "4"] {
        assert_eq!(select(&db(servers.clone()), Some(50)), best);
        servers.pop();
    }
}

#[test]
fn stale_is_not_excluded() {
    let servers = db(vec![("a", stale(online(1, 10, 4))), ("b", stale(online(1, 10, 2)))]);
    assert_eq!(select(&servers, None), "b");
}

#[test]
fn the_map_replaces_and_keeps_order() {
    let mut map: StringMap<u32> = StringMap::new();
    assert_eq!(map.len(), 0);
    map.insert("b".to_string(), 1);
    map.insert("a".to_string(), 2);
    map.insert("b".to_string(), 3);
    assert_eq!(map.len(), 2);
    assert_eq!(map.get("b"), Some(&3));
    assert_eq!(map.get("c"), None);
    assert_eq!(map.key_at(0), "b");
    assert_eq!(map.key_at(1), "a");
    assert_eq!(*map.value_at(1), 2);
    map.set_at(1, 9);
    assert_eq!(map.get("a"), Some(&9));
    assert_eq!(map.position("a"), Some(1));
    assert_eq!(map.position("z"), None);
}
