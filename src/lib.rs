//! Forward Euler approximation of a first-order ODE: exact input handling,
//! validation and step-size derivation.
pub mod decimal;
pub mod input;
pub mod step;
pub mod expression;
pub mod session;
pub mod iteration;
