use bh_agent::AgentError;
use std::sync::{PoisonError, RwLock};

#[test]
fn each_error_has_its_text() {
    assert_eq!(AgentError::InvalidEnvironmentId.message(), "Invalid environment ID");
    assert_eq!(AgentError::IoError.message(), "IO Error");
    assert_eq!(AgentError::InvalidFileDescriptor.message(), "Invalid file ID");
    assert_eq!(AgentError::InvalidSeekWhence.message(), "Invalid seek whence");
    assert_eq!(AgentError::LockError.message(), "Lock Error");
    assert_eq!(AgentError::ProcessStartFailure.message(), "Failed to start process");
    assert_eq!(AgentError::InvalidProcessId.message(), "Invalid process ID");
    assert_eq!(AgentError::ProcessChannelNotPiped.message(), "Process channel not piped");
    assert_eq!(AgentError::Inconsistent.message(), "The server state is inconsistent");
    assert_eq!(AgentError::Unknown.message(), "Unknown Error");
}

#[test]
fn a_poisoned_lock_is_a_lock_error() {
    let lock = RwLock::new(0u8);
    let poisoned = PoisonError::new(lock.read().unwrap());
    assert_eq!(AgentError::from(poisoned), AgentError::LockError);
    assert_eq!(AgentError::from(PoisonError::new(7u64)), AgentError::LockError);
}

#[test]
fn a_guard_in_place_of_a_value_is_a_lock_error() {
    let lock = RwLock::new(1u8);
    assert_eq!(AgentError::from(lock.read().unwrap()), AgentError::LockError);
    assert_eq!(AgentError::from(lock.write().unwrap()), AgentError::LockError);
}
