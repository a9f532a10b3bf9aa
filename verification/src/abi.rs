//! ABI validation by `rs_abieos`.

use rs_abieos::{Abieos, AbieosError};
use vstd::prelude::*;

verus! {

/// The ABI context of `rs_abieos`.
#[verifier::external_type_specification]
#[verifier::external_body]
pub struct ExAbieos(rs_abieos::Abieos);

/// The errors of `rs_abieos`.
#[verifier::external_type_specification]
#[verifier::external_body]
pub struct ExAbieosError(rs_abieos::AbieosError);

/// Whether `Abieos::set_abi_json` loads `abi_json` as the ABI of `contract`, on a
/// little-endian machine whose words have `word_bits` bits (which bounds the sizes of fixed
/// arrays).
pub uninterp spec fn abi_loads(contract: Seq<char>, abi_json: Seq<char>, word_bits: u32) -> bool;

/// Whether `Abieos::set_abi_json_native` loads `abi_json` as the ABI of the contract
/// with the native name `contract`, on a little-endian machine whose words have `word_bits`
/// bits.
pub uninterp spec fn abi_loads_native(contract: u64, abi_json: Seq<char>, word_bits: u32) -> bool;

/// A context in which ABIs are checked. The `Abieos` behind it is one that
/// `Abieos::new` made, which owns a live context.
pub struct AbiContext {
    abieos: Abieos,
}

/// Why an upstream's ABI was not taken.
#[derive(Debug, Clone, Copy, PartialEq, Eq)]
pub enum AbiError {
    /// It is no ABI that can be loaded.
    Rejected,
}

/// `Abieos::new` makes an empty context. Nothing is claimed of it.
#[verifier::external_body]
fn new_abieos() -> (abieos: Abieos) {
    Abieos::new()
}

/// `Abieos::set_abi_json`, on a live context, loads an ABI or fails. On a little-endian
/// machine, which of the two depends on the contract's name, the text and the word size
/// alone, whatever was loaded before. (The scan for white space loads eight bytes in the
/// machine's order.) Where it does not fail, it returns `true`.
#[verifier::external_body]
fn set_abi_json(ctx: &AbiContext, contract: &str, abi_json: &str) -> (r: Result<bool, AbieosError>)
    ensures
        r is Ok <==> abi_loads(contract@, abi_json@, usize::BITS),
        r matches Ok(loaded) ==> loaded,
{
    ctx.abieos.set_abi_json(contract, abi_json)
}

/// `Abieos::set_abi_json_native`, on a live context, loads an ABI or fails. On a
/// little-endian machine, which of the two depends on the contract's native name, the text
/// and the word size alone, whatever was loaded before. (The scan for white space loads
/// eight bytes in the machine's order.) Where it does not fail, it returns `true`.
#[verifier::external_body]
fn set_abi_json_native(ctx: &AbiContext, contract: u64, abi_json: &str) -> (r: Result<
    bool,
    AbieosError,
>)
    ensures
        r is Ok <==> abi_loads_native(contract, abi_json@, usize::BITS),
        r matches Ok(loaded) ==> loaded,
{
    ctx.abieos.set_abi_json_native(contract, abi_json)
}

impl AbiContext {
    /// An empty context.
    pub fn new() -> (ctx: AbiContext) {
        AbiContext { abieos: new_abieos() }
    }

    /// Checks the ABI of an upstream that a client is routed to.
    pub fn check_session_abi(&self, abi_json: &str) -> (r: Result<(), AbiError>)
        ensures
            r is Ok <==> abi_loads("0"@, abi_json@, usize::BITS),
    {
        match set_abi_json(self, "0", abi_json) {
            Ok(_) => Ok(()),
            Err(_) => Err(AbiError::Rejected),
        }
    }

    /// Checks the ABI of an upstream that is monitored.
    pub fn check_monitor_abi(&self, abi_json: &str) -> (r: Result<(), AbiError>)
        ensures
            r is Ok <==> abi_loads_native(0, abi_json@, usize::BITS),
    {
        match set_abi_json_native(self, 0u64, abi_json) {
            Ok(true) => Ok(()),
            Ok(false) => Err(AbiError::Rejected),
            Err(_) => Err(AbiError::Rejected),
        }
    }
}

} // verus!
