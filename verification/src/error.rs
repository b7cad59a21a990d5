//! The failures that the host can report.

use vstd::prelude::*;

verus! {

/// The failure of a sandbox, as `wasmtime` reports it. Carried through, never looked into.
#[verifier::external_type_specification]
#[verifier::external_body]
pub struct ExSandboxFailure(wasmtime::Error);

/// The failure of the store, as `redb` reports it. Carried through, never looked into.
#[verifier::external_type_specification]
#[verifier::external_body]
pub struct ExStoreFailure(redb::Error);

/// The failure to decode an address, as `pallas` reports it. Carried through, never looked into.
#[verifier::external_type_specification]
#[verifier::external_body]
pub struct ExAddressFailure(pallas::ledger::addresses::Error);

/// Identifies a registered worker.
pub type WorkerId = String;

/// Everything that can go wrong on the host side.
#[derive(Debug)]
pub enum RuntimeError {
    /// The sandbox itself failed.
    Wasm(wasmtime::Error),
    /// The store failed.
    Store(redb::Error),
    /// No worker is registered under this id.
    WorkerNotFound(WorkerId),
    /// The component reported a failure of its own, with its code and message.
    Handle(u32, String),
    /// No channel is registered for the request.
    NoTarget,
    /// More than one channel is registered for the request.
    AmbiguousTarget,
    /// An address in a block could not be decoded.
    BadAddress(pallas::ledger::addresses::Error),
    /// The ledger failed.
    Ledger(String),
}

impl RuntimeError {
    /// Whether the failure was reported by the component itself. Such a
    /// failure leaves the host in a known state.
    pub open spec fn is_component_failure(self) -> bool {
        self is Handle
    }
}

impl From<wasmtime::Error> for RuntimeError {
    fn from(value: wasmtime::Error) -> (failure: RuntimeError) {
        RuntimeError::Wasm(value)
    }
}

impl vstd::std_specs::convert::FromSpecImpl<wasmtime::Error> for RuntimeError {
    open spec fn obeys_from_spec() -> bool {
        true
    }

    open spec fn from_spec(value: wasmtime::Error) -> RuntimeError {
        RuntimeError::Wasm(value)
    }
}

impl From<redb::Error> for RuntimeError {
    fn from(value: redb::Error) -> (failure: RuntimeError) {
        RuntimeError::Store(value)
    }
}

impl vstd::std_specs::convert::FromSpecImpl<redb::Error> for RuntimeError {
    open spec fn obeys_from_spec() -> bool {
        true
    }

    open spec fn from_spec(value: redb::Error) -> RuntimeError {
        RuntimeError::Store(value)
    }
}

impl From<pallas::ledger::addresses::Error> for RuntimeError {
    fn from(value: pallas::ledger::addresses::Error) -> (failure: RuntimeError) {
        RuntimeError::BadAddress(value)
    }
}

impl vstd::std_specs::convert::FromSpecImpl<pallas::ledger::addresses::Error> for RuntimeError {
    open spec fn obeys_from_spec() -> bool {
        true
    }

    open spec fn from_spec(value: pallas::ledger::addresses::Error) -> RuntimeError {
        RuntimeError::BadAddress(value)
    }
}

} // verus!
