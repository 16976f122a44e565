//! An authorization gateway in front of an external token-issuing contract.
//!
//! The gateway keeps one owner and a set of authorized minters. The owner
//! alone may change the minter set; minters alone may have a mint request
//! forwarded to the configured service endpoint, together with the value
//! they attached and half of their remaining compute budget.
//!
//! Caller identity, attached value and compute budget come from the hosting
//! runtime; they enter every operation as explicit parameters, which keeps
//! each authorization decision a pure, verified function of its inputs.
//! The outbound mint call is represented as a [`gateway::MintCommand`]
//! value that the runtime layer dispatches; the gateway never inspects the
//! call's eventual outcome.

pub mod gateway;
pub mod laws;
