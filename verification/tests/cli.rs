//! The command line, the connectivity test, and the drain on shutdown.

use fleet_router::cli::{
    drain_connections, probe, process_args, ArgError, Drain, FirstMessage, Paths, Plan, Probe,
    Subcommand, ABI_MARK, DRAIN_POLL_MS,
};
use fleet_router::frame::Frame;

fn paths(out: Option<&str>, test: Option<&str>, config: Option<&str>) -> Paths<String> {
    Paths {
        config_out: out.map(|p| p.to_string()),
        config_test: test.map(|p| p.to_string()),
        config: config.map(|p| p.to_string()),
    }
}

fn plan(sub: Subcommand, paths: Paths<String>) -> Result<Plan<String>, ArgError> {
    process_args(sub, paths, "./config.json".to_string())
}

#[test]
fn plans() {
    let given = || paths(Some("out"), Some("test"), Some("run"));
    assert_eq!(plan(Subcommand::ConfigInit, given()), Ok(Plan::Init("out".to_string())));
    assert_eq!(plan(Subcommand::ConfigTest, given()), Ok(Plan::Test("test".to_string())));
    assert_eq!(plan(Subcommand::Run, given()), Ok(Plan::Run("run".to_string())));
    let missing = || paths(None, None, None);
    assert_eq!(
        plan(Subcommand::ConfigInit, missing()),
        Ok(Plan::Init("./config.json".to_string()))
    );
    assert_eq!(plan(Subcommand::ConfigTest, missing()), Err(ArgError::MissingConfigFile));
    assert_eq!(plan(Subcommand::Run, missing()), Err(ArgError::MissingConfigPath));
    assert_eq!(ArgError::MissingConfigFile.message(), "missing config file");
    assert_eq!(ArgError::MissingConfigPath.message(), "missing config path");
}

#[test]
fn probes() {
    let abi = FirstMessage::Received(Frame::Text("{\"version\":\"eosio::abi/1.1\"}".to_string()));
    assert_eq!(probe(&abi), Probe::AbiReceived);
    let exact = FirstMessage::Received(Frame::Text(ABI_MARK.to_string()));
    assert_eq!(probe(&exact), Probe::AbiReceived);
    let other = FirstMessage::Received(Frame::Text("eosio::ab".to_string()));
    assert_eq!(probe(&other), Probe::InvalidAbi);
    let binary = FirstMessage::Received(Frame::Binary(b"eosio::abi".to_vec()));
    assert_eq!(probe(&binary), Probe::UnexpectedMessage);
    assert_eq!(probe(&FirstMessage::Ended), Probe::NoMessage);
    assert_eq!(probe(&FirstMessage::ReadFailed), Probe::ReadFailed);
}

#[test]
fn draining() {
    assert_eq!(drain_connections(10, 10, 0, 0), Drain::Done);
    assert_eq!(drain_connections(7, 10, 4999, 5000), Drain::Wait);
    assert_eq!(drain_connections(7, 10, 5000, 5000), Drain::Expired { remaining: 3 });
    assert_eq!(drain_connections(7, 10, 0, 0), Drain::Expired { remaining: 3 });
    assert_eq!(DRAIN_POLL_MS, 50);
}
