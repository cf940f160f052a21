use vstd::prelude::*;

verus! {

/// Why a tunnel could not be started, stopped or registered.
#[derive(Debug, PartialEq, Eq)]
pub enum TunnelError {
    /// The cluster API could not be reached, or the forward stream could not be negotiated.
    Connectivity(String),
    /// The local port is already bound.
    Bind(String),
    /// The HTTP transport over the forward stream failed.
    Protocol(String),
    /// No pod matches the service.
    Resolution(String),
    /// A stop signal could not be delivered or acknowledged.
    Cancellation(String),
    /// A tunnel for the same service and port is already registered.
    DuplicateTunnel,
}

} // verus!
