//! The ways in which a run can fail.

use vstd::prelude::*;

verus! {

/// The two waits that share the deadline.
#[derive(Clone, Copy, Debug, PartialEq, Eq, Structural)]
pub enum Phase {
    /// Waiting for the provider to assign an address.
    Address,
    /// Waiting for the shell port to accept a connection.
    Reachability,
}

/// Why a run ended without a session. Each failure ends the run: nothing is
/// tried again beyond the polling that the waits themselves do.
#[derive(Clone, Copy, Debug, PartialEq, Eq, Structural)]
pub enum Failure {
    /// The provider knows no instance of that identity or tag.
    InstanceNotFound,
    /// The instance is stopped and the operator did not allow a start.
    InstanceStoppedUnauthorized,
    /// The instance is in a state it does not come back from.
    InstanceUnavailable,
    /// The deadline passed during the given wait.
    Timeout(Phase),
    /// The configuration holds no address line to rewrite.
    MissingTargetLine,
    /// Reading, writing or renaming the configuration file failed.
    ConfigIoError,
}

} // verus!
