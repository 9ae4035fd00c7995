//! The fixed set of errors that cross the agent's boundary.

use std::sync::{PoisonError, RwLockReadGuard, RwLockWriteGuard};
use vstd::prelude::*;
use vstd::std_specs::convert::FromSpecImpl;

verus! {

/// The error of a lock whose holder panicked. Nothing inside it is read.
#[verifier::external_type_specification]
#[verifier::external_body]
#[verifier::reject_recursive_types(T)]
pub struct ExPoisonError<T>(PoisonError<T>);

/// A shared guard of a reader-writer lock. Nothing inside it is read.
#[verifier::external_type_specification]
#[verifier::external_body]
#[verifier::reject_recursive_types(T)]
pub struct ExRwLockReadGuard<'a, T: ?Sized>(RwLockReadGuard<'a, T>);

/// An exclusive guard of a reader-writer lock. Nothing inside it is read.
#[verifier::external_type_specification]
#[verifier::external_body]
#[verifier::reject_recursive_types(T)]
pub struct ExRwLockWriteGuard<'a, T: ?Sized + 'a>(RwLockWriteGuard<'a, T>);

/// Every failure that a caller of the agent can observe.
#[derive(Copy, Clone, Debug, PartialEq, Eq, Structural)]
pub enum AgentError {
    InvalidEnvironmentId,
    IoError,
    InvalidFileDescriptor,
    InvalidSeekWhence,
    LockError,
    ProcessStartFailure,
    InvalidProcessId,
    ProcessChannelNotPiped,
    Inconsistent,
    Unknown,
}

impl AgentError {
    /// The text shown for each error.
    pub open spec fn spec_message(self) -> Seq<char> {
        match self {
            AgentError::InvalidEnvironmentId => "Invalid environment ID"@,
            AgentError::IoError => "IO Error"@,
            AgentError::InvalidFileDescriptor => "Invalid file ID"@,
            AgentError::InvalidSeekWhence => "Invalid seek whence"@,
            AgentError::LockError => "Lock Error"@,
            AgentError::ProcessStartFailure => "Failed to start process"@,
            AgentError::InvalidProcessId => "Invalid process ID"@,
            AgentError::ProcessChannelNotPiped => "Process channel not piped"@,
            AgentError::Inconsistent => "The server state is inconsistent"@,
            AgentError::Unknown => "Unknown Error"@,
        }
    }

    /// A short description of the error, free of any detail of the host.
    pub fn message(&self) -> (text: &'static str)
        ensures
            text@ == self.spec_message(),
    {
        match self {
            AgentError::InvalidEnvironmentId => "Invalid environment ID",
            AgentError::IoError => "IO Error",
            AgentError::InvalidFileDescriptor => "Invalid file ID",
            AgentError::InvalidSeekWhence => "Invalid seek whence",
            AgentError::LockError => "Lock Error",
            AgentError::ProcessStartFailure => "Failed to start process",
            AgentError::InvalidProcessId => "Invalid process ID",
            AgentError::ProcessChannelNotPiped => "Process channel not piped",
            AgentError::Inconsistent => "The server state is inconsistent",
            AgentError::Unknown => "Unknown Error",
        }
    }
}

/// A poisoned lock is reported as a lock error, whatever it guarded.
impl<T> From<PoisonError<T>> for AgentError {
    fn from(_poisoned: PoisonError<T>) -> (e: AgentError) {
        AgentError::LockError
    }
}

impl<T> FromSpecImpl<PoisonError<T>> for AgentError {
    open spec fn obeys_from_spec() -> bool {
        true
    }

    open spec fn from_spec(_poisoned: PoisonError<T>) -> AgentError {
        AgentError::LockError
    }
}

/// A shared guard handed back in place of a value is reported as a lock error.
impl<'a, T> From<RwLockReadGuard<'a, T>> for AgentError {
    fn from(_guard: RwLockReadGuard<'a, T>) -> (e: AgentError) {
        AgentError::LockError
    }
}

impl<'a, T> FromSpecImpl<RwLockReadGuard<'a, T>> for AgentError {
    open spec fn obeys_from_spec() -> bool {
        true
    }

    open spec fn from_spec(_guard: RwLockReadGuard<'a, T>) -> AgentError {
        AgentError::LockError
    }
}

/// An exclusive guard handed back in place of a value is reported as a lock error.
impl<'a, T> From<RwLockWriteGuard<'a, T>> for AgentError {
    fn from(_guard: RwLockWriteGuard<'a, T>) -> (e: AgentError) {
        AgentError::LockError
    }
}

impl<'a, T> FromSpecImpl<RwLockWriteGuard<'a, T>> for AgentError {
    open spec fn obeys_from_spec() -> bool {
        true
    }

    open spec fn from_spec(_guard: RwLockWriteGuard<'a, T>) -> AgentError {
        AgentError::LockError
    }
}

} // verus!
