//! What the command line asks for, the connectivity test, and the drain on shutdown.

use vstd::prelude::*;

use crate::frame::{Frame, FrameModel};
use crate::text::contains_text;

verus! {

// ---------------------------------------------------------------------------
// Arguments
// ---------------------------------------------------------------------------

/// The subcommand on the command line.
#[derive(Debug, Clone, Copy, PartialEq, Eq)]
pub enum Subcommand {
    /// `config init`
    ConfigInit,
    /// `config test`
    ConfigTest,
    /// `run`, or none
    Run,
}

/// The paths on the command line, as far as they are given.
#[derive(Debug)]
pub struct Paths<P> {
    /// Where `config init` writes.
    pub config_out: Option<P>,
    /// What `config test` tests.
    pub config_test: Option<P>,
    /// The value of `--config`.
    pub config: Option<P>,
}

/// What to do.
#[derive(Debug, PartialEq, Eq)]
pub enum Plan<P> {
    /// Write the sample configuration there.
    Init(P),
    /// Validate the configuration there, then test the upstreams.
    Test(P),
    /// Run the proxy with the configuration there.
    Run(P),
}

/// What is wrong with the command line.
#[derive(Debug, Clone, Copy, PartialEq, Eq)]
pub enum ArgError {
    MissingConfigFile,
    MissingConfigPath,
}

impl ArgError {
    /// The text that tells the operator what is wrong.
    pub fn message(&self) -> (text: &'static str)
        ensures
            text@ == match self {
                ArgError::MissingConfigFile => "missing config file"@,
                ArgError::MissingConfigPath => "missing config path"@,
            },
    {
        match self {
            ArgError::MissingConfigFile => "missing config file",
            ArgError::MissingConfigPath => "missing config path",
        }
    }
}

/// What the command line asks for.
pub open spec fn planned<P>(subcommand: Subcommand, paths: Paths<P>, default_out: P) -> Result<
    Plan<P>,
    ArgError,
> {
    match subcommand {
        Subcommand::ConfigInit => Ok(
            Plan::Init(
                match paths.config_out {
                    Some(path) => path,
                    None => default_out,
                },
            ),
        ),
        Subcommand::ConfigTest => match paths.config_test {
            Some(path) => Ok(Plan::Test(path)),
            None => Err(ArgError::MissingConfigFile),
        },
        Subcommand::Run => match paths.config {
            Some(path) => Ok(Plan::Run(path)),
            None => Err(ArgError::MissingConfigPath),
        },
    }
}

/// Each subcommand goes by a path of its own, whatever the others are. Without it, `init`
/// writes to the default place, and the other two cannot go on.
pub proof fn law_each_subcommand_has_its_path<P>(
    path: P,
    a: Option<P>,
    b: Option<P>,
    default_out: P,
)
    ensures
        planned(
            Subcommand::ConfigInit,
            Paths { config_out: Some(path), config_test: a, config: b },
            default_out,
        ) == Ok::<Plan<P>, ArgError>(Plan::Init(path)),
        planned(
            Subcommand::ConfigInit,
            Paths { config_out: None, config_test: a, config: b },
            default_out,
        ) == Ok::<Plan<P>, ArgError>(Plan::Init(default_out)),
        planned(
            Subcommand::ConfigTest,
            Paths { config_out: a, config_test: Some(path), config: b },
            default_out,
        ) == Ok::<Plan<P>, ArgError>(Plan::Test(path)),
        planned(
            Subcommand::ConfigTest,
            Paths { config_out: a, config_test: None, config: b },
            default_out,
        ) == Err::<Plan<P>, ArgError>(ArgError::MissingConfigFile),
        planned(
            Subcommand::Run,
            Paths { config_out: a, config_test: b, config: Some(path) },
            default_out,
        ) == Ok::<Plan<P>, ArgError>(Plan::Run(path)),
        planned(
            Subcommand::Run,
            Paths { config_out: a, config_test: b, config: None },
            default_out,
        ) == Err::<Plan<P>, ArgError>(ArgError::MissingConfigPath),
{
}

/// What the command line asks for. `config init` without a path writes to `default_out`.
pub fn process_args<P>(subcommand: Subcommand, paths: Paths<P>, default_out: P) -> (plan: Result<
    Plan<P>,
    ArgError,
>)
    ensures
        plan == match subcommand {
            Subcommand::ConfigInit => Ok(
                Plan::Init(
                    match paths.config_out {
                        Some(path) => path,
                        None => default_out,
                    },
                ),
            ),
            Subcommand::ConfigTest => match paths.config_test {
                Some(path) => Ok(Plan::Test(path)),
                None => Err(ArgError::MissingConfigFile),
            },
            Subcommand::Run => match paths.config {
                Some(path) => Ok(Plan::Run(path)),
                None => Err(ArgError::MissingConfigPath),
            },
        },
        plan == planned(subcommand, paths, default_out),
{
    match subcommand {
        Subcommand::ConfigInit => match paths.config_out {
            Some(path) => Ok(Plan::Init(path)),
            None => Ok(Plan::Init(default_out)),
        },
        Subcommand::ConfigTest => match paths.config_test {
            Some(path) => Ok(Plan::Test(path)),
            None => Err(ArgError::MissingConfigFile),
        },
        Subcommand::Run => match paths.config {
            Some(path) => Ok(Plan::Run(path)),
            None => Err(ArgError::MissingConfigPath),
        },
    }
}

// ---------------------------------------------------------------------------
// The connectivity test
// ---------------------------------------------------------------------------

/// What an upstream sent first when it was tested.
#[derive(Debug)]
pub enum FirstMessage {
    /// It ended the stream.
    Ended,
    /// Reading from it failed.
    ReadFailed,
    /// It sent a frame.
    Received(Frame),
}

/// The outcome of testing an upstream that could be connected.
#[derive(Debug, Clone, Copy, PartialEq, Eq)]
pub enum Probe {
    /// It sent an ABI.
    AbiReceived,
    /// It sent a text that is no ABI.
    InvalidAbi,
    NoMessage,
    ReadFailed,
    /// It sent something else than a text.
    UnexpectedMessage,
}

/// The text that every ABI holds.
pub const ABI_MARK: &'static str = "eosio::abi";

/// The outcome of testing an upstream that sent `frame` first.
pub open spec fn probed(frame: FrameModel) -> Probe {
    match frame {
        FrameModel::Text(text) => if crate::text::occurs(text, ABI_MARK@) {
            Probe::AbiReceived
        } else {
            Probe::InvalidAbi
        },
        _ => Probe::UnexpectedMessage,
    }
}

/// An upstream passes with a text that names the format of ABIs, whatever stands around it,
/// and with no other text; what is no text is unexpected.
pub proof fn law_probe(frame: FrameModel, before: Seq<char>, after: Seq<char>)
    ensures
        probed(FrameModel::Text(before + "eosio::abi"@ + after)) == Probe::AbiReceived,
        frame is Text && !(exists|a: Seq<char>, b: Seq<char>|
            frame->Text_0 == #[trigger] (a + "eosio::abi"@ + b)) ==> probed(frame)
            == Probe::InvalidAbi,
        frame !is Text ==> probed(frame) == Probe::UnexpectedMessage,
{
    crate::text::law_occurs(before + "eosio::abi"@ + after, "eosio::abi"@);
    if let FrameModel::Text(text) = frame {
        crate::text::law_occurs(text, "eosio::abi"@);
    }
}

/// The outcome of testing an upstream, by what it sent first.
pub fn probe(first: &FirstMessage) -> (outcome: Probe)
    ensures
        outcome == match first {
            FirstMessage::Ended => Probe::NoMessage,
            FirstMessage::ReadFailed => Probe::ReadFailed,
            FirstMessage::Received(frame) => match frame@ {
                FrameModel::Text(text) => if crate::text::occurs(text, ABI_MARK@) {
                    Probe::AbiReceived
                } else {
                    Probe::InvalidAbi
                },
                _ => Probe::UnexpectedMessage,
            },
        },
        first matches FirstMessage::Received(frame) ==> outcome == probed(frame@),
{
    match first {
        FirstMessage::Ended => Probe::NoMessage,
        FirstMessage::ReadFailed => Probe::ReadFailed,
        FirstMessage::Received(Frame::Text(text)) => {
            if contains_text(text, ABI_MARK) {
                Probe::AbiReceived
            } else {
                Probe::InvalidAbi
            }
        },
        FirstMessage::Received(_) => Probe::UnexpectedMessage,
    }
}

// ---------------------------------------------------------------------------
// Shutdown
// ---------------------------------------------------------------------------

/// The pause, in milliseconds, between two looks at the connections that drain.
pub const DRAIN_POLL_MS: u64 = 50;

/// How the drain of the connections stands.
#[derive(Debug, Clone, Copy, PartialEq, Eq)]
pub enum Drain {
    /// No connection is left.
    Done,
    /// Some are left: look again after `DRAIN_POLL_MS`.
    Wait,
    /// The grace period is over with this many left.
    Expired { remaining: usize },
}

/// How the drain stands.
pub open spec fn drained(available: usize, max: usize, elapsed_ms: u64, grace_ms: u64) -> Drain {
    if available >= max {
        Drain::Done
    } else if elapsed_ms >= grace_ms {
        Drain::Expired { remaining: (max - available) as usize }
    } else {
        Drain::Wait
    }
}

/// A drain is done once no connection is left, however long that took. While some are left
/// it waits for as long as the grace period lasts, and no longer, and then tells how many
/// are.
pub proof fn law_drain(available: usize, max: usize, elapsed_ms: u64, grace_ms: u64)
    ensures
        drained(available, max, elapsed_ms, grace_ms) is Done <==> available >= max,
        drained(available, max, elapsed_ms, grace_ms) is Wait <==> available < max && elapsed_ms
            < grace_ms,
        drained(available, max, elapsed_ms, grace_ms) matches Drain::Expired { remaining }
            ==> available + remaining == max,
{
}

/// How the drain stands, with `available` of `max` connections free, `elapsed_ms` into a
/// grace period of `grace_ms`.
pub fn drain_connections(available: usize, max: usize, elapsed_ms: u64, grace_ms: u64) -> (drain:
    Drain)
    ensures
        drain == if available >= max {
            Drain::Done
        } else if elapsed_ms >= grace_ms {
            Drain::Expired { remaining: (max - available) as usize }
        } else {
            Drain::Wait
        },
        drain == drained(available, max, elapsed_ms, grace_ms),
{
    if available >= max {
        Drain::Done
    } else if elapsed_ms >= grace_ms {
        Drain::Expired { remaining: max - available }
    } else {
        Drain::Wait
    }
}

} // verus!
